//! The systems that run once per frame, each as a function from the values
//! it reads to the values it writes.

use vstd::prelude::*;
use crate::animation::{fast_forward, HasAnimationSequence};
use crate::assets::AssetCatalog;
use crate::camera::{chased, snapped};
use crate::components::{Directional, Renderable, RenderableType};
use crate::render::{draw_op, flush_ops, frame_ops, in_layer_order, placement};
use crate::render::{DrawOp, Drawable, Placement};

verus! {

/// Turns the drawable entities of a frame into the steps that draw them.
pub struct RenderingSystem;

impl RenderingSystem {
    /// The rendering system. It keeps nothing between frames.
    pub fn new() -> (system: RenderingSystem) {
        RenderingSystem
    }

    /// The steps that draw one frame.
    ///
    /// `drawables` holds every entity that has a renderable and a position,
    /// in the order in which the storage yields them. `default_scale` is the
    /// scale of an entity that has none of its own.
    ///
    /// The entities are taken by ascending layer, those of one layer in the
    /// order given. Images and batches are drawn on the spot. Animation
    /// frames are queued per animation, and every queue is flushed after the
    /// last entity, so all queued frames land above all images and batches.
    pub fn run<P: Copy, S: Copy>(
        &mut self,
        drawables: &Vec<Drawable<P, S>>,
        default_scale: S,
        assets: &AssetCatalog,
    ) -> (ops: Vec<DrawOp<P, S>>)
        ensures
            ops@ == frame_ops(drawables@, default_scale, assets@),
    {
        let ordered = in_layer_order(drawables);
        let ghost each = |d: Drawable<P, S>| draw_op(d, default_scale, assets@);
        let mut ops: Vec<DrawOp<P, S>> = Vec::new();
        let mut i: usize = 0;
        while i < ordered.len()
            invariant
                i <= ordered.len(),
                each == |d: Drawable<P, S>| draw_op(d, default_scale, assets@),
                ops@ == ordered@.take(i as int).filter_map(each),
            decreases ordered.len() - i,
        {
            let d: Drawable<P, S> = ordered[i];
            let at = Placement {
                position: d.position,
                scale: match d.scale {
                    Some(s) => s,
                    None => default_scale,
                },
                mirrored: match d.facing {
                    Some(Directional::Left) => true,
                    _ => false,
                },
            };
            assert(at == placement(d, default_scale));
            proof {
                assert(ordered@.take(i + 1).drop_last() =~= ordered@.take(i as int));
                assert(ordered@.take(i + 1).last() == d);
            }
            match d.renderable.tpe {
                RenderableType::Animation { id, frame, length } => {
                    if assets.has_animation(id) && frame < length {
                        ops.push(DrawOp::Sprite { id, frame, at });
                    }
                },
                RenderableType::Image { id } => {
                    if assets.has_image(id) {
                        ops.push(DrawOp::Image { id, at });
                    }
                },
                RenderableType::Batch { id } => {
                    if assets.has_batch(id) {
                        ops.push(DrawOp::Batch { id, at });
                    }
                },
            }
            i += 1;
        }
        assert(ordered@.take(i as int) =~= ordered@);
        let animations = assets.animations();
        let ghost queued = ops@;
        let mut a: usize = 0;
        while a < animations.len()
            invariant
                a <= animations.len(),
                ops@ == queued + flush_ops::<P, S>(animations@.take(a as int)),
            decreases animations.len() - a,
        {
            ops.push(DrawOp::Flush { id: animations[a] });
            a += 1;
            assert(ops@ =~= queued + flush_ops::<P, S>(animations@.take(a as int)));
        }
        assert(animations@.take(a as int) =~= animations@);
        ops
    }
}

/// Moves the camera onto the entities that it snaps to.
pub struct CameraSnapSystem;

impl CameraSnapSystem {
    /// Where the camera moves to, if it moves. `targets` holds the position
    /// of every entity that the camera snaps to, in the order in which the
    /// storage yields them. The camera follows the last of them.
    pub fn run<P: Copy>(&mut self, targets: &Vec<P>) -> (location: Option<P>)
        ensures
            location == snapped(targets@),
    {
        let mut location: Option<P> = None;
        let mut i: usize = 0;
        while i < targets.len()
            invariant
                i <= targets.len(),
                location == snapped(targets@.take(i as int)),
            decreases targets.len() - i,
        {
            location = Some(targets[i]);
            i += 1;
        }
        assert(targets@.take(i as int) =~= targets@);
        location
    }
}

/// Moves the entities that chase the camera to where the camera is.
pub struct ChaseCameraSystem;

impl ChaseCameraSystem {
    /// Puts every follower at `location`. `followers` holds the position of
    /// every entity that chases the camera.
    pub fn run<P: Copy>(&mut self, location: P, followers: &mut Vec<P>)
        ensures
            final(followers)@ == chased(old(followers)@, location),
    {
        let mut i: usize = 0;
        while i < followers.len()
            invariant
                i <= followers.len(),
                followers@.len() == old(followers)@.len(),
                forall|j: int| 0 <= j < i ==> followers@[j] == location,
            decreases followers.len() - i,
        {
            followers.set(i, location);
            i += 1;
        }
        assert(followers@ =~= chased(old(followers)@, location));
    }
}

/// Moves every animated entity on to its next frame.
pub struct AnimationFFSystem;

impl AnimationFFSystem {
    /// One frame of the game for one animated entity.
    pub fn step(anim: &mut HasAnimationSequence, rend: &mut Renderable)
        ensures
            (final(anim).sequence@, *final(rend)) == fast_forward(old(anim).sequence@, *old(rend)),
    {
        match rend.tpe {
            RenderableType::Animation { id, frame, length } => {
                if let Some(next) = anim.sequence.next() {
                    rend.tpe = RenderableType::Animation { id, frame: next, length };
                }
            },
            _ => (),
        }
    }

    /// One frame of the game for every animated entity. `animated` holds
    /// each entity that has an animation sequence and a renderable. No entity
    /// is added or removed, and each is moved on by itself.
    pub fn run(&mut self, animated: &mut Vec<(HasAnimationSequence, Renderable)>)
        ensures
            final(animated)@.len() == old(animated)@.len(),
            forall|i: int|
                0 <= i < old(animated)@.len() ==> (
                    #[trigger] final(animated)@[i].0.sequence@,
                    final(animated)@[i].1,
                ) == fast_forward(old(animated)@[i].0.sequence@, old(animated)@[i].1),
    {
        let mut i: usize = 0;
        while i < animated.len()
            invariant
                i <= animated.len(),
                animated@.len() == old(animated)@.len(),
                forall|j: int|
                    0 <= j < i ==> (#[trigger] animated@[j].0.sequence@, animated@[j].1)
                        == fast_forward(old(animated)@[j].0.sequence@, old(animated)@[j].1),
                forall|j: int| i <= j < animated@.len() ==> animated@[j] == old(animated)@[j],
            decreases animated.len() - i,
        {
            let entry = &mut animated[i];
            AnimationFFSystem::step(&mut entry.0, &mut entry.1);
            i += 1;
        }
    }
}

} // verus!
