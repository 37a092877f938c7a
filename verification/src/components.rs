//! The per-entity data that the frame logic reads: how an entity is drawn,
//! which way it faces and which frames its animation runs through.

use vstd::prelude::*;

verus! {

/// What is drawn for an entity. Assets are named by identifier.
#[derive(Clone, Copy, PartialEq, Eq, Debug)]
pub enum RenderableType {
    /// A single image.
    Image { id: usize },
    /// Frame `frame` of an animation that has `length` frames.
    Animation { id: usize, frame: usize, length: usize },
    /// A batch of sprites prepared ahead of the frame.
    Batch { id: usize },
}

/// An entity that is drawn, and the layer it is drawn on. Lower layers are
/// drawn first.
#[derive(Clone, Copy, PartialEq, Eq, Debug)]
pub struct Renderable {
    pub layer: i32,
    pub tpe: RenderableType,
}

/// The direction an entity faces. An entity that faces left is drawn
/// mirrored.
#[derive(Clone, Copy, PartialEq, Eq, Debug)]
pub enum Directional {
    Left,
    Right,
}

impl Renderable {
    /// Whether this is an animation whose frame index lies outside its
    /// frames. Such an entity is kept and not drawn.
    pub open spec fn expired(self) -> bool {
        self.tpe matches RenderableType::Animation { frame, length, .. } && frame >= length
    }

    /// This renderable showing frame `next`, if it is an animation; itself
    /// otherwise.
    pub open spec fn with_frame(self, next: usize) -> Renderable {
        match self.tpe {
            RenderableType::Animation { id, frame, length } => Renderable {
                layer: self.layer,
                tpe: RenderableType::Animation { id, frame: next, length },
            },
            _ => self,
        }
    }
}

} // verus!
