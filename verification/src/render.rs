//! The draw queue of one frame: which entities are drawn, in which order,
//! and how their draws are grouped.
//!
//! Positions (`P`) and scale factors (`S`) are carried through untouched.

use vstd::prelude::*;
use crate::assets::AssetIds;
use crate::components::{Directional, Renderable, RenderableType};

verus! {

/// One entity as the renderer meets it: its renderable and position, and its
/// own scale and facing where it has them.
#[derive(Clone, Copy, PartialEq, Debug)]
pub struct Drawable<P, S> {
    pub renderable: Renderable,
    pub position: P,
    pub scale: Option<S>,
    pub facing: Option<Directional>,
}

/// Where and how large one draw lands. A mirrored draw has its horizontal
/// scale negated when it is carried out.
#[derive(Clone, Copy, PartialEq, Debug)]
pub struct Placement<P, S> {
    pub position: P,
    pub scale: S,
    pub mirrored: bool,
}

/// One step of drawing a frame.
#[derive(Clone, Copy, PartialEq, Debug)]
pub enum DrawOp<P, S> {
    /// Draw image `id` now, placed as it stands.
    Image { id: usize, at: Placement<P, S> },
    /// Draw sprite batch `id` now, placed as it stands.
    Batch { id: usize, at: Placement<P, S> },
    /// Append frame `frame` of animation `id`, seen through the camera, to
    /// that animation's queue.
    Sprite { id: usize, frame: usize, at: Placement<P, S> },
    /// Draw the queue of animation `id` as one submission and empty it.
    Flush { id: usize },
}

impl<P: Copy, S: Copy> DrawOp<P, S> {
    /// Whether the placement of this step is still to be taken through the
    /// camera: that of a queued animation frame is, images and batches are
    /// placed as they stand.
    pub fn seen_through_camera(&self) -> (through: bool)
        ensures
            through == (*self is Sprite),
    {
        match self {
            DrawOp::Sprite { .. } => true,
            _ => false,
        }
    }

    /// Where this step draws, if it draws one thing. A flush draws a whole
    /// queue and has no placement of its own.
    pub fn placement(&self) -> (at: Option<Placement<P, S>>)
        ensures
            at == match *self {
                DrawOp::Image { at, .. } => Some(at),
                DrawOp::Batch { at, .. } => Some(at),
                DrawOp::Sprite { at, .. } => Some(at),
                DrawOp::Flush { .. } => None,
            },
    {
        match self {
            DrawOp::Image { at, .. } => Some(*at),
            DrawOp::Batch { at, .. } => Some(*at),
            DrawOp::Sprite { at, .. } => Some(*at),
            DrawOp::Flush { .. } => None,
        }
    }
}

/// The placement of a drawable: its own scale where it has one, the default
/// otherwise, mirrored where it faces left.
pub open spec fn placement<P, S>(d: Drawable<P, S>, default_scale: S) -> Placement<P, S> {
    Placement {
        position: d.position,
        scale: match d.scale {
            Some(s) => s,
            None => default_scale,
        },
        mirrored: d.facing == Some(Directional::Left),
    }
}

/// The step that draws `d`, if it is drawn at all. An image or a batch is
/// drawn where its asset is loaded. An animation is queued where its asset
/// is loaded and its frame index lies within its frames. Everything else is
/// passed over.
pub open spec fn draw_op<P, S>(d: Drawable<P, S>, default_scale: S, assets: AssetIds) -> Option<
    DrawOp<P, S>,
> {
    match d.renderable.tpe {
        RenderableType::Image { id } => if assets.images.contains(id) {
            Some(DrawOp::Image { id, at: placement(d, default_scale) })
        } else {
            None
        },
        RenderableType::Batch { id } => if assets.batches.contains(id) {
            Some(DrawOp::Batch { id, at: placement(d, default_scale) })
        } else {
            None
        },
        RenderableType::Animation { id, frame, length } => if assets.animations.contains(id)
            && frame < length {
            Some(DrawOp::Sprite { id, frame, at: placement(d, default_scale) })
        } else {
            None
        },
    }
}

/// The steps that draw `ordered`, one for each entry that is drawn, in the
/// order of the entries.
pub open spec fn draw_ops<P, S>(
    ordered: Seq<Drawable<P, S>>,
    default_scale: S,
    assets: AssetIds,
) -> Seq<DrawOp<P, S>> {
    ordered.filter_map(|d: Drawable<P, S>| draw_op(d, default_scale, assets))
}

/// One flush for each of `animations`, in their order.
pub open spec fn flush_ops<P, S>(animations: Seq<usize>) -> Seq<DrawOp<P, S>> {
    Seq::new(animations.len(), |i: int| DrawOp::Flush { id: animations[i] })
}

/// The steps that draw one frame: the drawables in layer order, each drawn
/// or queued or passed over, and behind them one flush for every loaded
/// animation.
pub open spec fn frame_ops<P, S>(
    items: Seq<Drawable<P, S>>,
    default_scale: S,
    assets: AssetIds,
) -> Seq<DrawOp<P, S>> {
    draw_ops(layer_order(items), default_scale, assets) + flush_ops(assets.animations)
}

/// `d` put into `ordered` behind every entry whose layer is not above its own.
pub open spec fn insert_by_layer<P, S>(ordered: Seq<Drawable<P, S>>, d: Drawable<P, S>) -> Seq<
    Drawable<P, S>,
>
    decreases ordered.len(),
{
    if ordered.len() == 0 || ordered.last().renderable.layer <= d.renderable.layer {
        ordered.push(d)
    } else {
        insert_by_layer(ordered.drop_last(), d).push(ordered.last())
    }
}

/// The drawables by ascending layer; those of one layer in the order in which
/// they were met.
pub open spec fn layer_order<P, S>(items: Seq<Drawable<P, S>>) -> Seq<Drawable<P, S>>
    decreases items.len(),
{
    if items.len() == 0 {
        items
    } else {
        insert_by_layer(layer_order(items.drop_last()), items.last())
    }
}

/// Whether the layers of `items` never descend.
pub open spec fn layers_ascend<P, S>(items: Seq<Drawable<P, S>>) -> bool {
    forall|i: int, j: int|
        0 <= i <= j < items.len() ==> items[i].renderable.layer <= items[j].renderable.layer
}

/// The entries of `items` that lie on `layer`, in their order.
pub open spec fn on_layer<P, S>(items: Seq<Drawable<P, S>>, layer: i32) -> Seq<Drawable<P, S>> {
    items.filter(|d: Drawable<P, S>| d.renderable.layer == layer)
}

proof fn insert_by_layer_at<P, S>(ordered: Seq<Drawable<P, S>>, d: Drawable<P, S>, at: int)
    requires
        0 <= at <= ordered.len(),
        at > 0 ==> ordered[at - 1].renderable.layer <= d.renderable.layer,
        forall|j: int| at <= j < ordered.len() ==> ordered[j].renderable.layer > d.renderable.layer,
    ensures
        insert_by_layer(ordered, d) == ordered.insert(at, d),
    decreases ordered.len() - at,
{
    if at == ordered.len() {
        assert(ordered.push(d) =~= ordered.insert(at, d));
    } else {
        let front = ordered.drop_last();
        insert_by_layer_at(front, d, at);
        assert(front.insert(at, d).push(ordered.last()) =~= ordered.insert(at, d));
    }
}

/// Where `d` lands in `ordered`: behind the last entry whose layer is not
/// above its own.
pub open spec fn landing<P, S>(ordered: Seq<Drawable<P, S>>, d: Drawable<P, S>) -> int
    decreases ordered.len(),
{
    if ordered.len() == 0 || ordered.last().renderable.layer <= d.renderable.layer {
        ordered.len() as int
    } else {
        landing(ordered.drop_last(), d)
    }
}

proof fn insert_lands<P, S>(ordered: Seq<Drawable<P, S>>, d: Drawable<P, S>)
    ensures
        0 <= landing(ordered, d) <= ordered.len(),
        insert_by_layer(ordered, d) == ordered.insert(landing(ordered, d), d),
        landing(ordered, d) > 0 ==> ordered[landing(ordered, d) - 1].renderable.layer
            <= d.renderable.layer,
        forall|j: int|
            landing(ordered, d) <= j < ordered.len() ==> ordered[j].renderable.layer
                > d.renderable.layer,
    decreases ordered.len(),
{
    if ordered.len() == 0 || ordered.last().renderable.layer <= d.renderable.layer {
        assert(ordered.push(d) =~= ordered.insert(ordered.len() as int, d));
    } else {
        let front = ordered.drop_last();
        insert_lands(front, d);
        let at = landing(front, d);
        assert(front.insert(at, d).push(ordered.last()) =~= ordered.insert(at, d));
        assert forall|j: int| at <= j < ordered.len() implies ordered[j].renderable.layer
            > d.renderable.layer by {
            if j < front.len() {
                assert(front[j] == ordered[j]);
            }
        }
    }
}

/// Layer order holds exactly the drawables it was given, each as often.
pub proof fn layer_order_keeps_every_drawable<P, S>(items: Seq<Drawable<P, S>>)
    ensures
        layer_order(items).len() == items.len(),
        layer_order(items).to_multiset() == items.to_multiset(),
    decreases items.len(),
{
    broadcast use vstd::seq_lib::group_to_multiset_ensures;

    if items.len() > 0 {
        let front = items.drop_last();
        let d = items.last();
        layer_order_keeps_every_drawable(front);
        insert_lands(layer_order(front), d);
        let at = landing(layer_order(front), d);
        vstd::seq_lib::to_multiset_insert(layer_order(front), at, d);
        assert(items =~= front.push(d));
    }
}

/// Layer order never descends: a drawable on a lower layer comes before every
/// drawable on a higher one.
pub proof fn layer_order_ascends<P, S>(items: Seq<Drawable<P, S>>)
    ensures
        layers_ascend(layer_order(items)),
    decreases items.len(),
{
    if items.len() > 0 {
        let front = layer_order(items.drop_last());
        let d = items.last();
        layer_order_ascends(items.drop_last());
        insert_lands(front, d);
        let at = landing(front, d);
        let out = front.insert(at, d);
        assert forall|i: int, j: int| 0 <= i <= j < out.len() implies out[i].renderable.layer
            <= out[j].renderable.layer by {
            if i < at && j > at {
                assert(front[i].renderable.layer <= front[at - 1].renderable.layer);
            }
        }
    }
}

/// Layer order is stable: the drawables of one layer keep the order in which
/// they were met.
pub proof fn layer_order_keeps_encounter_order<P, S>(items: Seq<Drawable<P, S>>, layer: i32)
    ensures
        on_layer(layer_order(items), layer) == on_layer(items, layer),
    decreases items.len(),
{
    let pred = |d: Drawable<P, S>| d.renderable.layer == layer;
    if items.len() == 0 {
    } else {
        let rest = items.drop_last();
        let d = items.last();
        let front = layer_order(rest);
        layer_order_keeps_encounter_order(rest, layer);
        insert_lands(front, d);
        let at = landing(front, d);
        let head = front.subrange(0, at);
        let tail = front.subrange(at, front.len() as int);
        assert(front =~= head + tail);
        assert(front.insert(at, d) =~= head.push(d) + tail);
        Seq::filter_distributes_over_add(head, tail, pred);
        Seq::filter_distributes_over_add(head.push(d), tail, pred);
        assert(items =~= rest.push(d));
        filter_push(rest, d, pred);
        filter_push(head, d, pred);
        if pred(d) {
            // every entry behind the landing place lies on a higher layer
            filter_none(tail, pred);
            assert(head.filter(pred) + Seq::<Drawable<P, S>>::empty() =~= head.filter(pred));
            assert(head.filter(pred).push(d) + Seq::<Drawable<P, S>>::empty() =~= head.filter(
                pred,
            ).push(d));
        }
    }
}

/// Two arrangements that both ascend and hold the same drawables on each
/// layer, in the same order, are one arrangement.
proof fn ascending_arrangements_agree<P, S>(one: Seq<Drawable<P, S>>, other: Seq<Drawable<P, S>>)
    requires
        layers_ascend(one),
        layers_ascend(other),
        forall|layer: i32| on_layer(one, layer) == on_layer(other, layer),
    ensures
        one == other,
    decreases one.len(),
{
    broadcast use vstd::seq_lib::group_filter_ensures;

    if one.len() == 0 {
        if other.len() > 0 {
            let layer = other[0].renderable.layer;
            let on = |d: Drawable<P, S>| d.renderable.layer == layer;
            filter_none(one, on);
            assert(on_layer(one, layer).len() == 0);
            assert(on_layer(other, layer).contains(other[0]));
        }
        assert(one =~= other);
    } else {
        let top = one.last().renderable.layer;
        let on_top = |d: Drawable<P, S>| d.renderable.layer == top;
        assert(one =~= one.drop_last().push(one.last()));
        filter_push(one.drop_last(), one.last(), on_top);
        assert(on_layer(other, top).last() == one.last());
        let met = on_layer(other, top)[0];
        assert(on_top(met));
        other.lemma_filter_contains_rev(on_top, met);
        let i = choose|i: int| 0 <= i < other.len() && other[i] == met;
        let last = other.last().renderable.layer;
        let on_last = |d: Drawable<P, S>| d.renderable.layer == last;
        assert(other[i].renderable.layer <= last);
        if last > top {
            assert(other.filter(on_last).contains(other.last()));
            let seen = on_layer(one, last)[0];
            assert(on_last(seen));
            one.lemma_filter_contains_rev(on_last, seen);
            let j = choose|j: int| 0 <= j < one.len() && one[j] == seen;
            assert(one[j].renderable.layer <= top);
        }
        assert(other =~= other.drop_last().push(other.last()));
        filter_push(other.drop_last(), other.last(), on_top);
        assert(other.last() == one.last());
        assert forall|layer: i32| on_layer(one.drop_last(), layer) == on_layer(
            other.drop_last(),
            layer,
        ) by {
            let on = |d: Drawable<P, S>| d.renderable.layer == layer;
            filter_push(one.drop_last(), one.last(), on);
            filter_push(other.drop_last(), other.last(), on);
            assert(on_layer(one, layer) == on_layer(other, layer));
            if layer == top {
                assert(on_layer(one.drop_last(), layer) =~= on_layer(one, layer).drop_last());
                assert(on_layer(other.drop_last(), layer) =~= on_layer(other, layer).drop_last());
            }
        }
        ascending_arrangements_agree(one.drop_last(), other.drop_last());
    }
}

/// Layer order is the one arrangement of the drawables that ascends by
/// layer and keeps the drawables of each layer in the order in which they
/// were met.
pub proof fn layer_order_is_the_only_one<P, S>(
    items: Seq<Drawable<P, S>>,
    arranged: Seq<Drawable<P, S>>,
)
    requires
        layers_ascend(arranged),
        forall|layer: i32| on_layer(arranged, layer) == on_layer(items, layer),
    ensures
        arranged == layer_order(items),
{
    layer_order_ascends(items);
    assert forall|layer: i32| on_layer(arranged, layer) == on_layer(layer_order(items), layer) by {
        layer_order_keeps_encounter_order(items, layer);
    }
    ascending_arrangements_agree(arranged, layer_order(items));
}

/// Whether `d` is drawn or queued: whether some step of the frame stems
/// from it.
pub open spec fn drawn<P, S>(d: Drawable<P, S>, default_scale: S, assets: AssetIds) -> bool {
    draw_op(d, default_scale, assets) is Some
}

/// An animation whose frame index lies outside its frames is passed over.
pub proof fn expired_animation_is_passed_over<P, S>(
    d: Drawable<P, S>,
    default_scale: S,
    assets: AssetIds,
)
    requires
        d.renderable.expired(),
    ensures
        !drawn(d, default_scale, assets),
{
}

/// Every queued animation frame lies within the frames of its animation:
/// it stems from a drawable that is an animation showing that frame, and
/// the frame index is below the length.
pub proof fn queued_frame_lies_within_length<P, S>(
    items: Seq<Drawable<P, S>>,
    default_scale: S,
    assets: AssetIds,
    k: int,
)
    requires
        0 <= k < frame_ops(items, default_scale, assets).len(),
        frame_ops(items, default_scale, assets)[k] is Sprite,
    ensures
        exists|d: Drawable<P, S>| #[trigger]
            items.contains(d) && draw_op(d, default_scale, assets) == Some(
                frame_ops(items, default_scale, assets)[k],
            ) && d.renderable.tpe == (RenderableType::Animation {
                id: frame_ops(items, default_scale, assets)[k]->Sprite_id,
                frame: frame_ops(items, default_scale, assets)[k]->frame,
                length: d.renderable.tpe->length,
            }) && frame_ops(items, default_scale, assets)[k]->frame < d.renderable.tpe->length,
{
    broadcast use vstd::seq_lib::group_to_multiset_ensures;

    let ordered = layer_order(items);
    let each = |d: Drawable<P, S>| draw_op(d, default_scale, assets);
    let draws = ordered.filter_map(each);
    let op = frame_ops(items, default_scale, assets)[k];
    assert(k < draws.len());
    assert(draws.contains(op)) by {
        assert(draws[k] == op);
    }
    ordered.lemma_filter_map_contains(each, op);
    let d = choose|d: Drawable<P, S>| #[trigger] ordered.contains(d) && each(d) == Some(op);
    layer_order_keeps_every_drawable(items);
    assert(ordered.to_multiset().count(d) > 0);
    assert(items.contains(d));
}

/// A frame draws first and flushes last: no step before the flushes is a
/// flush, and behind the draws comes one flush for each loaded animation,
/// for no animation twice.
pub proof fn frame_flushes_each_animation_once<P, S>(
    items: Seq<Drawable<P, S>>,
    default_scale: S,
    assets: AssetIds,
)
    requires
        assets.wf(),
    ensures
        forall|k: int|
            0 <= k < draw_ops(layer_order(items), default_scale, assets).len() ==> !(
            #[trigger] frame_ops(items, default_scale, assets)[k] is Flush),
        frame_ops(items, default_scale, assets).len() == draw_ops(
            layer_order(items),
            default_scale,
            assets,
        ).len() + assets.animations.len(),
        forall|a: int|
            0 <= a < assets.animations.len() ==> #[trigger] frame_ops(
                items,
                default_scale,
                assets,
            )[draw_ops(layer_order(items), default_scale, assets).len() + a] == (DrawOp::<
                P,
                S,
            >::Flush { id: assets.animations[a] }),
        forall|a: int, b: int|
            0 <= a < b < assets.animations.len() ==> assets.animations[a] != assets.animations[b],
{
    let ordered = layer_order(items);
    let each = |d: Drawable<P, S>| draw_op(d, default_scale, assets);
    let draws = ordered.filter_map(each);
    assert forall|k: int| 0 <= k < draws.len() implies !(#[trigger] frame_ops(
        items,
        default_scale,
        assets,
    )[k] is Flush) by {
        let op = draws[k];
        assert(draws.contains(op));
        ordered.lemma_filter_map_contains(each, op);
    }
}

/// Layer order and a choice among the drawables can be taken in either
/// order: the chosen drawables come out in layer order both ways.
pub proof fn layer_order_of_chosen<P, S>(
    items: Seq<Drawable<P, S>>,
    chosen: spec_fn(Drawable<P, S>) -> bool,
)
    ensures
        layer_order(items.filter(chosen)) == layer_order(items).filter(chosen),
    decreases items.len(),
{
    if items.len() == 0 {
        assert(items.filter(chosen) =~= items) by {
            filter_none(items, chosen);
        }
        filter_none(layer_order(items), chosen);
    } else {
        let rest = items.drop_last();
        let d = items.last();
        let ordered = layer_order(rest);
        layer_order_of_chosen(rest, chosen);
        assert(items =~= rest.push(d));
        filter_push(rest, d, chosen);
        insert_lands(ordered, d);
        let at = landing(ordered, d);
        let head = ordered.subrange(0, at);
        let tail = ordered.subrange(at, ordered.len() as int);
        assert(ordered =~= head + tail);
        assert(ordered.insert(at, d) =~= head.push(d) + tail);
        Seq::filter_distributes_over_add(head, tail, chosen);
        Seq::filter_distributes_over_add(head.push(d), tail, chosen);
        filter_push(head, d, chosen);
        assert(layer_order(items) == head.push(d) + tail);
        assert(ordered.filter(chosen) == head.filter(chosen) + tail.filter(chosen));
        if chosen(d) {
            let kept = ordered.filter(chosen);
            let kept_head = head.filter(chosen);
            let kept_tail = tail.filter(chosen);
            assert(items.filter(chosen) == rest.filter(chosen).push(d));
            assert(rest.filter(chosen).push(d).drop_last() =~= rest.filter(chosen));
            assert(layer_order(items.filter(chosen)) == insert_by_layer(kept, d));
            layer_order_ascends(rest);
            assert forall|j: int| 0 <= j < kept_head.len() implies (#[trigger]
                kept_head[j]).renderable.layer <= d.renderable.layer by {
                head.lemma_filter_contains_rev(chosen, kept_head[j]);
                let i = choose|i: int| 0 <= i < head.len() && head[i] == kept_head[j];
                assert(ordered[i].renderable.layer <= ordered[at - 1].renderable.layer);
            }
            assert forall|j: int| 0 <= j < kept_tail.len() implies (#[trigger]
                kept_tail[j]).renderable.layer > d.renderable.layer by {
                tail.lemma_filter_contains_rev(chosen, kept_tail[j]);
                let i = choose|i: int| 0 <= i < tail.len() && tail[i] == kept_tail[j];
                assert(tail[i] == ordered[at + i]);
            }
            let mid = kept_head.len() as int;
            assert(kept == kept_head + kept_tail);
            assert forall|j: int| mid <= j < kept.len() implies kept[j].renderable.layer
                > d.renderable.layer by {
                assert(kept[j] == kept_tail[j - mid]);
            }
            if mid > 0 {
                assert(kept[mid - 1] == kept_head[mid - 1]);
            }
            insert_by_layer_at(kept, d, mid);
            assert(kept.insert(mid, d) =~= kept_head.push(d) + kept_tail);
        } else {
            assert(layer_order(items.filter(chosen)) == ordered.filter(chosen));
        }
    }
}

/// A drawable that is passed over leaves no trace in the frame: the frame
/// is the same without it.
pub proof fn passed_over_drawable_leaves_no_trace<P, S>(
    items: Seq<Drawable<P, S>>,
    default_scale: S,
    assets: AssetIds,
    k: int,
)
    requires
        0 <= k < items.len(),
        !drawn(items[k], default_scale, assets),
    ensures
        frame_ops(items.remove(k), default_scale, assets) == frame_ops(
            items,
            default_scale,
            assets,
        ),
{
    let chosen = |d: Drawable<P, S>| drawn(d, default_scale, assets);
    let each = |d: Drawable<P, S>| draw_op(d, default_scale, assets);
    let fewer = items.remove(k);
    assert(fewer.filter(chosen) == items.filter(chosen)) by {
        let head = items.subrange(0, k);
        let tail = items.subrange(k + 1, items.len() as int);
        assert(items =~= head.push(items[k]) + tail);
        assert(fewer =~= head + tail);
        Seq::filter_distributes_over_add(head.push(items[k]), tail, chosen);
        Seq::filter_distributes_over_add(head, tail, chosen);
        filter_push(head, items[k], chosen);
    }
    layer_order_of_chosen(items, chosen);
    layer_order_of_chosen(fewer, chosen);
    draws_of_chosen(layer_order(items), default_scale, assets);
    draws_of_chosen(layer_order(fewer), default_scale, assets);
}

/// The steps that draw a sequence are those that draw the drawn among it.
proof fn draws_of_chosen<P, S>(ordered: Seq<Drawable<P, S>>, default_scale: S, assets: AssetIds)
    ensures
        draw_ops(ordered, default_scale, assets) == draw_ops(
            ordered.filter(|d: Drawable<P, S>| drawn(d, default_scale, assets)),
            default_scale,
            assets,
        ),
    decreases ordered.len(),
{
    let chosen = |d: Drawable<P, S>| drawn(d, default_scale, assets);
    let each = |d: Drawable<P, S>| draw_op(d, default_scale, assets);
    if ordered.len() == 0 {
        filter_none(ordered, chosen);
    } else {
        let rest = ordered.drop_last();
        let d = ordered.last();
        draws_of_chosen(rest, default_scale, assets);
        assert(ordered =~= rest.push(d));
        filter_push(rest, d, chosen);
        if chosen(d) {
            assert(rest.filter(chosen).push(d).drop_last() =~= rest.filter(chosen));
        }
    }
}

proof fn filter_push<A>(s: Seq<A>, a: A, pred: spec_fn(A) -> bool)
    ensures
        s.push(a).filter(pred) == if pred(a) {
            s.filter(pred).push(a)
        } else {
            s.filter(pred)
        },
{
    reveal(Seq::filter);
    assert(s.push(a).drop_last() =~= s);
}

proof fn filter_none<A>(s: Seq<A>, pred: spec_fn(A) -> bool)
    requires
        forall|i: int| 0 <= i < s.len() ==> !pred(s[i]),
    ensures
        s.filter(pred) == Seq::<A>::empty(),
    decreases s.len(),
{
    reveal(Seq::filter);
    if s.len() > 0 {
        filter_none(s.drop_last(), pred);
    }
}

/// The drawables by ascending layer, those of one layer in the order in
/// which `drawables` has them.
pub fn in_layer_order<P: Copy, S: Copy>(drawables: &Vec<Drawable<P, S>>) -> (ordered: Vec<
    Drawable<P, S>,
>)
    ensures
        ordered@ == layer_order(drawables@),
{
    let mut ordered: Vec<Drawable<P, S>> = Vec::new();
    let mut i: usize = 0;
    while i < drawables.len()
        invariant
            i <= drawables.len(),
            ordered@ == layer_order(drawables@.take(i as int)),
        decreases drawables.len() - i,
    {
        let d: Drawable<P, S> = drawables[i];
        let mut at: usize = ordered.len();
        while at > 0 && ordered[at - 1].renderable.layer > d.renderable.layer
            invariant
                at <= ordered.len(),
                forall|j: int|
                    at <= j < ordered.len() ==> ordered@[j].renderable.layer > d.renderable.layer,
            decreases at,
        {
            at -= 1;
        }
        proof {
            insert_by_layer_at(ordered@, d, at as int);
            assert(drawables@.take(i + 1).drop_last() =~= drawables@.take(i as int));
        }
        ordered.insert(at, d);
        i += 1;
    }
    assert(drawables@.take(i as int) =~= drawables@);
    ordered
}

} // verus!
