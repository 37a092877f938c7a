//! The two ways in which camera and entities drive each other: the camera
//! snaps to an entity, and entities chase the camera.

use vstd::prelude::*;

verus! {

/// Where a camera that snaps to `targets` moves to: onto the last of them,
/// and nowhere if there is none.
pub open spec fn snapped<P>(targets: Seq<P>) -> Option<P> {
    if targets.len() == 0 {
        None
    } else {
        Some(targets.last())
    }
}

/// The positions of `followers` once they have caught up with a camera at
/// `location`: as many as before, each at `location`.
pub open spec fn chased<P>(followers: Seq<P>, location: P) -> Seq<P> {
    Seq::new(followers.len(), |i: int| location)
}

/// A camera that snaps to a single entity stands where the entity stands,
/// and every entity that chases this camera stands there too, wherever it
/// stood before.
pub proof fn followers_reach_snap_target<P>(target: P, followers: Seq<P>)
    ensures
        snapped(seq![target]) == Some(target),
        chased(followers, snapped(seq![target])->0).len() == followers.len(),
        forall|i: int|
            0 <= i < followers.len() ==> chased(followers, snapped(seq![target])->0)[i] == target,
{
}

/// A camera with nothing to snap to stays where it is.
pub proof fn camera_rests_without_target<P>()
    ensures
        snapped(Seq::<P>::empty()) is None,
{
}

} // verus!
