//! The identifiers under which assets are loaded.

use vstd::prelude::*;

verus! {

/// Which assets are loaded, as the renderer needs to know it: an entity
/// whose asset is not loaded is skipped, and every loaded animation has a
/// queue that is drawn once per frame. A catalog built from `new` by the
/// `add_` methods lists no animation twice.
#[derive(Clone, Debug)]
pub struct AssetCatalog {
    images: Vec<usize>,
    batches: Vec<usize>,
    animations: Vec<usize>,
}

/// What an `AssetCatalog` holds. The animations are listed in the order in
/// which their queues are drawn.
pub ghost struct AssetIds {
    pub images: Set<usize>,
    pub batches: Set<usize>,
    pub animations: Seq<usize>,
}

impl AssetIds {
    /// No animation is listed twice.
    pub open spec fn wf(self) -> bool {
        self.animations.no_duplicates()
    }

    /// The catalog that holds nothing.
    pub open spec fn empty() -> AssetIds {
        AssetIds { images: Set::empty(), batches: Set::empty(), animations: Seq::empty() }
    }
}

impl View for AssetCatalog {
    type V = AssetIds;

    closed spec fn view(&self) -> AssetIds {
        AssetIds {
            images: self.images@.to_set(),
            batches: self.batches@.to_set(),
            animations: self.animations@,
        }
    }
}

fn holds(ids: &Vec<usize>, id: usize) -> (found: bool)
    ensures
        found == ids@.contains(id),
        found == ids@.to_set().contains(id),
{
    let mut i: usize = 0;
    while i < ids.len()
        invariant
            i <= ids.len(),
            forall|j: int| 0 <= j < i ==> ids@[j] != id,
        decreases ids.len() - i,
    {
        if ids[i] == id {
            return true;
        }
        i += 1;
    }
    false
}

impl AssetCatalog {
    /// A catalog with nothing loaded.
    pub fn new() -> (catalog: AssetCatalog)
        ensures
            catalog@ == AssetIds::empty(),
            catalog@.wf(),
    {
        let catalog = AssetCatalog {
            images: Vec::new(),
            batches: Vec::new(),
            animations: Vec::new(),
        };
        assert(catalog.images@.to_set() =~= Set::<usize>::empty());
        assert(catalog.batches@.to_set() =~= Set::<usize>::empty());
        catalog
    }

    /// Records that image `id` is loaded.
    pub fn add_image(&mut self, id: usize)
        ensures
            final(self)@ == (AssetIds { images: old(self)@.images.insert(id), ..old(self)@ }),
            old(self)@.wf() ==> final(self)@.wf(),
    {
        self.images.push(id);
        assert(self.images@.to_set() =~= old(self).images@.to_set().insert(id)) by {
            to_set_push(old(self).images@, id);
        }
    }

    /// Records that sprite batch `id` is loaded.
    pub fn add_batch(&mut self, id: usize)
        ensures
            final(self)@ == (AssetIds { batches: old(self)@.batches.insert(id), ..old(self)@ }),
            old(self)@.wf() ==> final(self)@.wf(),
    {
        self.batches.push(id);
        assert(self.batches@.to_set() =~= old(self).batches@.to_set().insert(id)) by {
            to_set_push(old(self).batches@, id);
        }
    }

    /// Records that animation `id` is loaded. Its queue is drawn behind those
    /// of the animations recorded before it. An animation that is recorded
    /// already keeps its place.
    pub fn add_animation(&mut self, id: usize)
        ensures
            final(self)@ == (AssetIds {
                animations: if old(self)@.animations.contains(id) {
                    old(self)@.animations
                } else {
                    old(self)@.animations.push(id)
                },
                ..old(self)@
            }),
            old(self)@.wf() ==> final(self)@.wf(),
    {
        if !holds(&self.animations, id) {
            self.animations.push(id);
        }
    }

    /// Whether image `id` is loaded.
    pub fn has_image(&self, id: usize) -> (found: bool)
        ensures
            found == self@.images.contains(id),
    {
        holds(&self.images, id)
    }

    /// Whether sprite batch `id` is loaded.
    pub fn has_batch(&self, id: usize) -> (found: bool)
        ensures
            found == self@.batches.contains(id),
    {
        holds(&self.batches, id)
    }

    /// Whether animation `id` is loaded.
    pub fn has_animation(&self, id: usize) -> (found: bool)
        ensures
            found == self@.animations.contains(id),
    {
        holds(&self.animations, id)
    }

    /// The loaded animations, in the order in which their queues are drawn.
    pub fn animations(&self) -> (ids: &Vec<usize>)
        ensures
            ids@ == self@.animations,
    {
        &self.animations
    }
}

proof fn to_set_push(ids: Seq<usize>, id: usize)
    ensures
        ids.push(id).to_set() == ids.to_set().insert(id),
{
    let grown = ids.push(id);
    assert forall|x: usize| grown.to_set().contains(x) <==> ids.to_set().insert(id).contains(
        x,
    ) by {
        if grown.contains(x) {
            let k = choose|k: int| 0 <= k < grown.len() && grown[k] == x;
            if k < ids.len() {
                assert(ids[k] == x);
            }
        }
        if ids.contains(x) {
            let k = choose|k: int| 0 <= k < ids.len() && ids[k] == x;
            assert(grown[k] == x);
        }
        if x == id {
            assert(grown[ids.len() as int] == x);
        }
    }
    assert(grown.to_set() =~= ids.to_set().insert(id));
}

} // verus!
