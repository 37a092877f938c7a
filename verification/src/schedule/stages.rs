//! The stage of every system, given out in the order in which the systems
//! come: by depth, and at one depth by declaration.

use vstd::prelude::*;
use crate::schedule::depth::{waiting, waiting_after_placing, waiting_counts, waiting_of_fresh};
use crate::schedule::names::{edges_are_dependencies, holds_edge, links};
use crate::schedule::{
    comes_before, conflicts, depends, depth_fits, earliest, is_depth, members, members_hold,
    names_distinct, ready, share_kind, waits, SystemDecl,
};

verus! {

/// Whether some entry of `kinds` names `kind`.
pub(crate) fn names_kind(kinds: &Vec<String>, kind: &String) -> (found: bool)
    ensures
        found == exists|x: int| 0 <= x < kinds@.len() && (#[trigger] kinds@[x])@ == kind@,
{
    let mut x: usize = 0;
    while x < kinds.len()
        invariant
            x <= kinds@.len(),
            forall|a: int| 0 <= a < x ==> (#[trigger] kinds@[a])@ != kind@,
        decreases kinds@.len() - x,
    {
        if kinds[x] == *kind {
            return true;
        }
        x += 1;
    }
    false
}

/// Whether some entry of `kinds` and some entry of `others` name one kind.
pub(crate) fn shares(kinds: &Vec<String>, others: &Vec<String>) -> (shared: bool)
    ensures
        shared == share_kind(kinds@, others@),
{
    let mut x: usize = 0;
    while x < kinds.len()
        invariant
            x <= kinds@.len(),
            forall|a: int, y: int|
                0 <= a < x && 0 <= y < others@.len() ==> (#[trigger] kinds@[a])@ != (
                #[trigger] others@[y])@,
        decreases kinds@.len() - x,
    {
        if names_kind(others, &kinds[x]) {
            proof {
                let y = choose|y: int|
                    0 <= y < others@.len() && (#[trigger] others@[y])@ == kinds@[x as int]@;
                assert(kinds@[x as int]@ == others@[y]@);
            }
            return true;
        }
        x += 1;
    }
    false
}

/// Whether the systems at `i` and at `j` cannot run side by side.
pub(crate) fn conflict(systems: &Vec<SystemDecl>, i: usize, j: usize) -> (clash: bool)
    requires
        i < systems.len(),
        j < systems.len(),
    ensures
        clash == conflicts(systems@, i as int, j as int),
{
    if i == j {
        return false;
    }
    shares(&systems[i].writes, &systems[j].writes) || shares(&systems[i].writes, &systems[j].reads)
        || shares(&systems[i].reads, &systems[j].writes)
}

/// Whether the system at `j` has its stage when the systems of depth
/// `depth` are being given theirs and those before `upto` have it.
pub(crate) open spec fn placed(depth_of: Seq<usize>, j: int, depth: int, upto: int) -> bool {
    depth_of[j] < depth || (depth_of[j] == depth && j < upto)
}

/// Whether the system at `j` sits in stage `stage`.
pub(crate) open spec fn sits_in(stage_of: Seq<usize>, j: int, stage: int) -> bool {
    0 <= j < stage_of.len() && stage_of[j] == stage
}

/// Whether some system sits in stage `stage`.
pub(crate) open spec fn in_use(stage_of: Seq<usize>, stage: int) -> bool {
    exists|j: int| #[trigger] sits_in(stage_of, j, stage)
}

/// What holds while the stages are given out: the systems that come before
/// the next one have their stages, each the earliest it can have, and
/// every stage in use has a system.
pub(crate) open spec fn staged_so_far(
    systems: Seq<SystemDecl>,
    depth_of: Seq<usize>,
    stage_of: Seq<usize>,
    depth: int,
    upto: int,
    count: int,
) -> bool {
    &&& stage_of.len() == systems.len()
    &&& forall|j: int|
        0 <= j < systems.len() ==> (#[trigger] stage_of[j] != usize::MAX) == placed(
            depth_of,
            j,
            depth,
            upto,
        )
    &&& forall|j: int|
        0 <= j < systems.len() && placed(depth_of, j, depth, upto) ==> #[trigger] stage_of[j]
            < count && earliest(systems, depth_of, stage_of, j)
    &&& forall|t: int| 0 <= t < count ==> #[trigger] in_use(stage_of, t)
}

/// A system waits only for systems that come before it.
pub(crate) proof fn waits_for_earlier(systems: Seq<SystemDecl>, depth_of: Seq<usize>, i: int, j: int)
    requires
        is_depth(systems, depth_of),
        waits(systems, depth_of, i, j),
    ensures
        0 <= i < systems.len(),
        0 <= j < systems.len(),
        i != j,
        comes_before(depth_of, j, i),
{
    if depends(systems, i, j) {
        assert(depth_fits(systems, depth_of, i));
    }
}

/// A system that has its stage keeps it as the earliest it can have when
/// a system that comes behind it is given a stage.
pub(crate) proof fn earlier_stage_stands(
    systems: Seq<SystemDecl>,
    depth_of: Seq<usize>,
    before: Seq<usize>,
    i: int,
    stage: usize,
    j: int,
)
    requires
        is_depth(systems, depth_of),
        before.len() == systems.len(),
        0 <= i < systems.len(),
        0 <= j < systems.len(),
        comes_before(depth_of, j, i),
        earliest(systems, depth_of, before, j),
    ensures
        earliest(systems, depth_of, before.update(i, stage), j),
{
    let after = before.update(i, stage);
    assert forall|x: int| #[trigger] waits(systems, depth_of, j, x) implies after[x] == before[x] by {
        waits_for_earlier(systems, depth_of, j, x);
    }
    assert(after[j] == before[j]);
    if before[j] != 0 {
        let x = choose|x: int| #[trigger] waits(systems, depth_of, j, x) && before[x] + 1 == before[j];
        assert(waits(systems, depth_of, j, x) && after[x] + 1 == after[j]);
    }
}

/// A system that is given the stage behind everything it waits for has
/// the earliest stage it can have.
pub(crate) proof fn new_stage_is_earliest(
    systems: Seq<SystemDecl>,
    depth_of: Seq<usize>,
    before: Seq<usize>,
    i: int,
    stage: usize,
)
    requires
        is_depth(systems, depth_of),
        before.len() == systems.len(),
        0 <= i < systems.len(),
        ready(systems, depth_of, before, i, stage as int),
        stage == 0 || exists|j: int| #[trigger]
            waits(systems, depth_of, i, j) && before[j] + 1 == stage,
    ensures
        earliest(systems, depth_of, before.update(i, stage), i),
{
    let after = before.update(i, stage);
    assert forall|x: int| #[trigger] waits(systems, depth_of, i, x) implies after[x] == before[x] by {
        waits_for_earlier(systems, depth_of, i, x);
    }
    if stage != 0 {
        let x = choose|x: int| #[trigger] waits(systems, depth_of, i, x) && before[x] + 1 == stage;
        assert(waits(systems, depth_of, i, x) && after[x] + 1 == after[i]);
    }
}

/// Giving the next system its stage keeps what holds of the stages given
/// out before.
pub(crate) proof fn placing_keeps_stages(
    systems: Seq<SystemDecl>,
    depth_of: Seq<usize>,
    before: Seq<usize>,
    i: int,
    stage: usize,
    count: int,
)
    requires
        is_depth(systems, depth_of),
        0 <= i < systems.len(),
        staged_so_far(systems, depth_of, before, depth_of[i] as int, i, count),
        count < usize::MAX,
        stage <= count,
        ready(systems, depth_of, before, i, stage as int),
        stage == 0 || exists|j: int| #[trigger]
            waits(systems, depth_of, i, j) && before[j] + 1 == stage,
    ensures
        staged_so_far(
            systems,
            depth_of,
            before.update(i, stage),
            depth_of[i] as int,
            i + 1,
            if stage == count {
                count + 1
            } else {
                count
            },
        ),
{
    let after = before.update(i, stage);
    let depth = depth_of[i] as int;
    let more = if stage == count {
        count + 1
    } else {
        count
    };
    assert forall|j: int| 0 <= j < systems.len() implies (#[trigger] after[j] != usize::MAX)
        == placed(depth_of, j, depth, i + 1) by {
        if j != i {
            assert((before[j] != usize::MAX) == placed(depth_of, j, depth, i));
        }
    }
    assert forall|j: int|
        0 <= j < systems.len() && placed(depth_of, j, depth, i + 1) implies #[trigger] after[j]
        < more && earliest(systems, depth_of, after, j) by {
        if j != i {
            assert(placed(depth_of, j, depth, i));
            assert(before[j] < count && earliest(systems, depth_of, before, j));
            earlier_stage_stands(systems, depth_of, before, i, stage, j);
        } else {
            new_stage_is_earliest(systems, depth_of, before, i, stage);
        }
    }
    assert forall|t: int| 0 <= t < more implies #[trigger] in_use(after, t) by {
        if t == stage {
            assert(sits_in(after, i, t));
        } else {
            assert(in_use(before, t));
            let j = choose|j: int| #[trigger] sits_in(before, j, t);
            assert(sits_in(after, j, t));
        }
    }
}

/// The earliest stage that the system at `i` can have, when every system
/// that comes before it has its stage and no other has.
pub(crate) fn earliest_stage(
    systems: &Vec<SystemDecl>,
    edges: &Vec<Vec<usize>>,
    depth_of: &Vec<usize>,
    stage_of: &Vec<usize>,
    i: usize,
    count: usize,
) -> (stage: usize)
    requires
        links(systems@, edges@),
        names_distinct(systems@),
        is_depth(systems@, depth_of@),
        i < systems.len(),
        count < systems.len(),
        staged_so_far(systems@, depth_of@, stage_of@, depth_of@[i as int] as int, i as int, count as int),
    ensures
        stage <= count,
        ready(systems@, depth_of@, stage_of@, i as int, stage as int),
        stage == 0 || exists|j: int| #[trigger]
            waits(systems@, depth_of@, i as int, j) && stage_of@[j] + 1 == stage,
{
    let n: usize = systems.len();
    let mut stage: usize = 0;
    let mut j: usize = 0;
    proof {
        edges_are_dependencies(systems@, edges@, i as int);
    }
    while j < n
        invariant
            j <= n,
            n == systems.len(),
            i < n,
            count < n,
            links(systems@, edges@),
            is_depth(systems@, depth_of@),
            staged_so_far(
                systems@,
                depth_of@,
                stage_of@,
                depth_of@[i as int] as int,
                i as int,
                count as int,
            ),
            forall|k: int|
                0 <= k < edges@[i as int]@.len() ==> depends(
                    systems@,
                    i as int,
                    #[trigger] edges@[i as int]@[k] as int,
                ),
            forall|x: int| #[trigger]
                depends(systems@, i as int, x) ==> exists|k: int|
                    0 <= k < edges@[i as int]@.len() && #[trigger] edges@[i as int]@[k] == x,
            stage <= count,
            forall|x: int|
                0 <= x < j && #[trigger] waits(systems@, depth_of@, i as int, x) ==> stage_of@[x]
                    < stage,
            stage == 0 || exists|x: int| #[trigger]
                waits(systems@, depth_of@, i as int, x) && stage_of@[x] + 1 == stage,
        decreases n - j,
    {
        let held = stage_of[j] != usize::MAX && (holds_edge(&edges[i], j) || conflict(systems, i, j));
        proof {
            let depth = depth_of@[i as int] as int;
            assert(placed(depth_of@, j as int, depth, i as int) == comes_before(
                depth_of@,
                j as int,
                i as int,
            ));
            if waits(systems@, depth_of@, i as int, j as int) {
                waits_for_earlier(systems@, depth_of@, i as int, j as int);
            }
            assert(held == waits(systems@, depth_of@, i as int, j as int));
        }
        if held {
            assert(stage_of@[j as int] < count);
            if stage_of[j] >= stage {
                stage = stage_of[j] + 1;
            }
        }
        j += 1;
    }
    proof {
        assert forall|x: int| #[trigger] waits(systems@, depth_of@, i as int, x) implies stage_of@[x]
            < stage by {
            waits_for_earlier(systems@, depth_of@, i as int, x);
        }
    }
    stage
}

/// The stage of every system and the number of stages.
pub(crate) fn assign_stages(
    systems: &Vec<SystemDecl>,
    edges: &Vec<Vec<usize>>,
    depth_of: &Vec<usize>,
    depths: usize,
) -> (assigned: (Vec<usize>, usize))
    requires
        links(systems@, edges@),
        names_distinct(systems@),
        is_depth(systems@, depth_of@),
        forall|i: int| 0 <= i < systems.len() ==> #[trigger] depth_of@[i] < depths,
    ensures
        assigned.0@.len() == systems.len(),
        assigned.1 <= systems.len(),
        forall|i: int|
            0 <= i < systems.len() ==> #[trigger] assigned.0@[i] < assigned.1 && earliest(
                systems@,
                depth_of@,
                assigned.0@,
                i,
            ),
        forall|t: int| 0 <= t < assigned.1 ==> #[trigger] in_use(assigned.0@, t),
{
    let n: usize = systems.len();
    let mut stage_of: Vec<usize> = Vec::new();
    while stage_of.len() < n
        invariant
            stage_of@.len() <= n,
            forall|i: int| 0 <= i < stage_of@.len() ==> stage_of@[i] == usize::MAX,
        decreases n - stage_of@.len(),
    {
        stage_of.push(usize::MAX);
    }
    proof {
        waiting_of_fresh(stage_of@);
    }
    let mut count: usize = 0;
    let mut depth: usize = 0;
    while depth < depths
        invariant
            n == systems.len(),
            depth <= depths,
            links(systems@, edges@),
            names_distinct(systems@),
            is_depth(systems@, depth_of@),
            forall|i: int| 0 <= i < n ==> #[trigger] depth_of@[i] < depths,
            count + waiting(stage_of@) <= n,
            staged_so_far(systems@, depth_of@, stage_of@, depth as int, 0, count as int),
        decreases depths - depth,
    {
        let mut i: usize = 0;
        while i < n
            invariant
                i <= n,
                n == systems.len(),
                depth < depths,
                links(systems@, edges@),
                names_distinct(systems@),
                is_depth(systems@, depth_of@),
                count + waiting(stage_of@) <= n,
                staged_so_far(systems@, depth_of@, stage_of@, depth as int, i as int, count as int),
            decreases n - i,
        {
            if depth_of[i] == depth {
                proof {
                    waiting_counts(stage_of@);
                    assert(stage_of@[i as int] == usize::MAX);
                }
                let stage = earliest_stage(systems, edges, depth_of, &stage_of, i, count);
                proof {
                    placing_keeps_stages(
                        systems@,
                        depth_of@,
                        stage_of@,
                        i as int,
                        stage,
                        count as int,
                    );
                    waiting_after_placing(stage_of@, i as int, stage);
                }
                stage_of.set(i, stage);
                if stage == count {
                    count = count + 1;
                }
            } else {
                proof {
                    stage_passes(systems@, depth_of@, stage_of@, depth as int, i as int, count as int);
                }
            }
            i += 1;
        }
        proof {
            depth_passes(systems@, depth_of@, stage_of@, depth as int, count as int);
        }
        depth = depth + 1;
    }
    proof {
        assert forall|i: int| 0 <= i < n implies #[trigger] stage_of@[i] < count && earliest(
            systems@,
            depth_of@,
            stage_of@,
            i,
        ) by {
            assert(placed(depth_of@, i, depth as int, 0));
        }
    }
    (stage_of, count)
}

/// A system of another depth is passed by.
pub(crate) proof fn stage_passes(
    systems: Seq<SystemDecl>,
    depth_of: Seq<usize>,
    stage_of: Seq<usize>,
    depth: int,
    i: int,
    count: int,
)
    requires
        0 <= i < systems.len(),
        depth_of[i] != depth,
        staged_so_far(systems, depth_of, stage_of, depth, i, count),
    ensures
        staged_so_far(systems, depth_of, stage_of, depth, i + 1, count),
{
    assert forall|j: int| 0 <= j < systems.len() implies placed(depth_of, j, depth, i + 1)
        == placed(depth_of, j, depth, i) by {}
}

/// When every system has been seen, the next depth begins.
pub(crate) proof fn depth_passes(
    systems: Seq<SystemDecl>,
    depth_of: Seq<usize>,
    stage_of: Seq<usize>,
    depth: int,
    count: int,
)
    requires
        depth_of.len() == systems.len(),
        staged_so_far(systems, depth_of, stage_of, depth, systems.len() as int, count),
    ensures
        staged_so_far(systems, depth_of, stage_of, depth + 1, 0, count),
{
    assert forall|j: int| 0 <= j < systems.len() implies placed(depth_of, j, depth + 1, 0)
        == placed(depth_of, j, depth, systems.len() as int) by {}
}

/// The systems of each stage, in ascending order.
pub(crate) fn list_stages(stage_of: &Vec<usize>, count: usize) -> (stages: Vec<Vec<usize>>)
    requires
        forall|i: int| 0 <= i < stage_of@.len() ==> #[trigger] stage_of@[i] < count,
        forall|t: int| 0 <= t < count ==> #[trigger] in_use(stage_of@, t),
    ensures
        stages@.len() == count,
        forall|t: int|
            0 <= t < count ==> (#[trigger] stages@[t])@ == members(
                stage_of@,
                t as usize,
                stage_of@.len() as int,
            ) && stages@[t]@.len() > 0,
{
    let n: usize = stage_of.len();
    let mut stages: Vec<Vec<usize>> = Vec::new();
    let mut stage: usize = 0;
    while stage < count
        invariant
            stage <= count,
            n == stage_of@.len(),
            stages@.len() == stage,
            forall|t: int| 0 <= t < count ==> #[trigger] in_use(stage_of@, t),
            forall|t: int|
                0 <= t < stage ==> (#[trigger] stages@[t])@ == members(
                    stage_of@,
                    t as usize,
                    n as int,
                ) && stages@[t]@.len() > 0,
        decreases count - stage,
    {
        let mut list: Vec<usize> = Vec::new();
        let mut i: usize = 0;
        while i < n
            invariant
                i <= n,
                n == stage_of@.len(),
                list@ == members(stage_of@, stage, i as int),
            decreases n - i,
        {
            if stage_of[i] == stage {
                list.push(i);
            }
            i += 1;
        }
        proof {
            assert(in_use(stage_of@, stage as int));
            let j = choose|j: int| #[trigger] sits_in(stage_of@, j, stage as int);
            members_hold(stage_of@, stage, n as int);
            assert(list@.contains(j as usize));
        }
        stages.push(list);
        stage += 1;
    }
    stages
}

} // verus!
