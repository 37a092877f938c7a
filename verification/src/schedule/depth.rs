//! The depth of every system, found round by round: each round gives the
//! next depth to the systems whose dependencies all lie below it. A round
//! that finds none although systems are left shows a cycle.

use vstd::prelude::*;
use crate::schedule::names::{edges_are_dependencies, links, row_links};
use crate::schedule::{
    cyclic, dependency, depends, depth_fits, is_cycle, is_depth, layered_systems_have_no_cycle,
    members, members_agree, members_hold, name_of, names_distinct, rests, SystemDecl,
};

verus! {

/// How many entries are still to be set.
pub(crate) open spec fn waiting(stage_of: Seq<usize>) -> nat
    decreases stage_of.len(),
{
    if stage_of.len() == 0 {
        0
    } else if stage_of.last() == usize::MAX {
        waiting(stage_of.drop_last()) + 1
    } else {
        waiting(stage_of.drop_last())
    }
}

/// Setting one entry leaves one fewer to be set.
pub(crate) proof fn waiting_after_placing(stage_of: Seq<usize>, i: int, stage: usize)
    requires
        0 <= i < stage_of.len(),
        stage_of[i] == usize::MAX,
        stage != usize::MAX,
    ensures
        waiting(stage_of.update(i, stage)) + 1 == waiting(stage_of),
    decreases stage_of.len(),
{
    let placed = stage_of.update(i, stage);
    if i == stage_of.len() - 1 {
        assert(placed.drop_last() =~= stage_of.drop_last());
    } else {
        assert(placed.drop_last() =~= stage_of.drop_last().update(i, stage));
        waiting_after_placing(stage_of.drop_last(), i, stage);
    }
}

/// Entries are left to be set exactly where some entry is not set.
pub(crate) proof fn waiting_counts(stage_of: Seq<usize>)
    ensures
        waiting(stage_of) <= stage_of.len(),
        waiting(stage_of) == 0 ==> forall|i: int|
            0 <= i < stage_of.len() ==> stage_of[i] != usize::MAX,
        waiting(stage_of) > 0 ==> exists|i: int|
            0 <= i < stage_of.len() && stage_of[i] == usize::MAX,
    decreases stage_of.len(),
{
    if stage_of.len() > 0 {
        let front = stage_of.drop_last();
        waiting_counts(front);
        if waiting(front) > 0 {
            let i = choose|i: int| 0 <= i < front.len() && front[i] == usize::MAX;
            assert(stage_of[i] == usize::MAX);
        }
        if waiting(stage_of) == 0 {
            assert forall|i: int| 0 <= i < stage_of.len() implies stage_of[i] != usize::MAX by {
                if i < front.len() {
                    assert(front[i] == stage_of[i]);
                }
            }
        }
    }
}

/// Where no entry is set, all are left to be set.
pub(crate) proof fn waiting_of_fresh(stage_of: Seq<usize>)
    requires
        forall|i: int| 0 <= i < stage_of.len() ==> stage_of[i] == usize::MAX,
    ensures
        waiting(stage_of) == stage_of.len(),
    decreases stage_of.len(),
{
    if stage_of.len() > 0 {
        waiting_of_fresh(stage_of.drop_last());
    }
}

/// Whether the system at `i` has no depth yet.
pub(crate) open spec fn unplaced(depth_of: Seq<usize>, i: int) -> bool {
    0 <= i < depth_of.len() && depth_of[i] == usize::MAX
}

/// A system without a depth that the system at `i` depends on, where there
/// is one.
pub(crate) open spec fn blocker(systems: Seq<SystemDecl>, depth_of: Seq<usize>, i: int) -> int {
    choose|j: int| #[trigger] depends(systems, i, j) && unplaced(depth_of, j)
}

/// The system reached from `start` by going from blocked to blocker for
/// `steps` links.
pub(crate) open spec fn follow(systems: Seq<SystemDecl>, depth_of: Seq<usize>, start: int, steps: nat) -> int
    decreases steps,
{
    if steps == 0 {
        start
    } else {
        blocker(systems, depth_of, follow(systems, depth_of, start, (steps - 1) as nat))
    }
}

/// More values than there are numbers to take them from hold one number
/// twice.
pub(crate) proof fn one_repeats(values: Seq<int>, bound: nat)
    requires
        values.len() > bound,
        forall|k: int| 0 <= k < values.len() ==> 0 <= #[trigger] values[k] < bound,
    ensures
        exists|a: int, b: int| 0 <= a < b < values.len() && values[a] == values[b],
{
    if values.no_duplicates() {
        values.unique_seq_to_set();
        vstd::set_lib::lemma_int_range(0, bound as int);
        let range = vstd::set_lib::set_int_range(0, bound as int);
        assert(values.to_set().subset_of(range)) by {
            assert forall|v: int| values.to_set().contains(v) implies range.contains(v) by {
                let k = choose|k: int| 0 <= k < values.len() && values[k] == v;
                assert(0 <= values[k] < bound);
            }
        }
        vstd::set_lib::lemma_len_subset(values.to_set(), range);
    } else {
        let (i, j) = choose|i: int, j: int|
            0 <= i < values.len() && 0 <= j < values.len() && i != j && values[i] == values[j];
        if i < j {
            assert(0 <= i < j < values.len() && values[i] == values[j]);
        } else {
            assert(0 <= j < i < values.len() && values[j] == values[i]);
        }
    }
}

/// Going from blocked to blocker never leaves the systems without a
/// depth, and every link goes from a system to one it depends on.
pub(crate) proof fn walk_stays_stuck(systems: Seq<SystemDecl>, depth_of: Seq<usize>, start: int, steps: nat)
    requires
        unplaced(depth_of, start),
        forall|i: int| #[trigger]
            unplaced(depth_of, i) ==> exists|j: int| #[trigger]
                depends(systems, i, j) && unplaced(depth_of, j),
    ensures
        unplaced(depth_of, follow(systems, depth_of, start, steps)),
        depends(
            systems,
            follow(systems, depth_of, start, steps),
            follow(systems, depth_of, start, steps + 1),
        ),
    decreases steps,
{
    if steps > 0 {
        walk_stays_stuck(systems, depth_of, start, (steps - 1) as nat);
    }
    let here = follow(systems, depth_of, start, steps);
    assert(unplaced(depth_of, here));
    assert(follow(systems, depth_of, start, steps + 1) == blocker(systems, depth_of, here));
}

/// Where some system has no depth and each such system depends on another
/// such system, one of them depends on itself.
pub(crate) proof fn stuck_systems_form_cycle(systems: Seq<SystemDecl>, depth_of: Seq<usize>, start: int)
    requires
        depth_of.len() == systems.len(),
        unplaced(depth_of, start),
        forall|i: int| #[trigger]
            unplaced(depth_of, i) ==> exists|j: int| #[trigger]
                depends(systems, i, j) && unplaced(depth_of, j),
    ensures
        cyclic(systems),
{
    let n = systems.len();
    let walk = Seq::new(n + 1, |k: int| follow(systems, depth_of, start, k as nat));
    assert forall|k: int| 0 <= k < walk.len() implies 0 <= #[trigger] walk[k] < n by {
        walk_stays_stuck(systems, depth_of, start, k as nat);
    }
    one_repeats(walk, n);
    let (a, b) = choose|a: int, b: int| 0 <= a < b < walk.len() && walk[a] == walk[b];
    let path = Seq::new((b - a + 1) as nat, |k: int| walk[a + k]);
    assert forall|k: int| 0 <= k < path.len() - 1 implies depends(
        systems,
        #[trigger] path[k],
        path[k + 1],
    ) by {
        walk_stays_stuck(systems, depth_of, start, (a + k) as nat);
        assert(path[k] == follow(systems, depth_of, start, (a + k) as nat));
        assert(path[k + 1] == follow(systems, depth_of, start, (a + k) as nat + 1));
    }
    assert(path.first() == path.last());
    assert(is_cycle(systems, path));
}

/// Whether everything the system at `i` depends on lies at a depth below
/// `depth`.
pub(crate) fn is_ready(
    Ghost(systems): Ghost<Seq<SystemDecl>>,
    edges: &Vec<Vec<usize>>,
    depth_of: &Vec<usize>,
    i: usize,
    depth: usize,
) -> (ok: bool)
    requires
        links(systems, edges@),
        names_distinct(systems),
        depth_of@.len() == systems.len(),
        i < systems.len(),
    ensures
        ok == rests(systems, depth_of@, i as int, depth as int),
{
    proof {
        edges_are_dependencies(systems, edges@, i as int);
    }
    let row = &edges[i];
    let mut k: usize = 0;
    while k < row.len()
        invariant
            k <= row@.len(),
            row@ == edges@[i as int]@,
            links(systems, edges@),
            depth_of@.len() == systems.len(),
            i < systems.len(),
            forall|b: int| 0 <= b < k ==> depth_of@[#[trigger] row@[b] as int] < depth,
        decreases row@.len() - k,
    {
        assert(row_links(systems, i as int, edges@[i as int]@));
        assert(dependency(systems, i as int, k as int) == name_of(systems, row@[k as int] as int));
        assert(row@[k as int] < systems.len());
        if depth_of[row[k]] >= depth {
            assert(depends(systems, i as int, row@[k as int] as int));
            return false;
        }
        k += 1;
    }
    true
}

/// The depths after the round that fills depth `depth`: every system that
/// has no depth yet and is ready for this one gets it.
pub(crate) open spec fn round(systems: Seq<SystemDecl>, before: Seq<usize>, depth: usize) -> Seq<usize> {
    Seq::new(
        before.len(),
        |x: int|
            if before[x] == usize::MAX && rests(systems, before, x, depth as int) {
                depth
            } else {
                before[x]
            },
    )
}

/// What holds of the depths given out before depth `depth` is filled: they
/// lie below `depth`, each system that has one sits in the earliest it can,
/// and each system that has none was not ready for the depth before.
pub(crate) open spec fn layered_below(systems: Seq<SystemDecl>, depth_of: Seq<usize>, depth: int) -> bool {
    &&& depth_of.len() == systems.len()
    &&& forall|i: int|
        0 <= i < systems.len() ==> #[trigger] depth_of[i] == usize::MAX || depth_of[i] < depth
    &&& forall|i: int|
        0 <= i < systems.len() && #[trigger] depth_of[i] != usize::MAX ==> depth_fits(
            systems,
            depth_of,
            i,
        )
    &&& forall|i: int|
        0 <= i < systems.len() && #[trigger] depth_of[i] == usize::MAX && depth > 0 ==> !rests(
            systems,
            depth_of,
            i,
            depth - 1,
        )
}

/// Whether a system is ready for depth `depth` does not change while that
/// depth is being filled.
pub(crate) proof fn ready_while_filling(
    systems: Seq<SystemDecl>,
    before: Seq<usize>,
    now: Seq<usize>,
    i: int,
    depth: usize,
)
    requires
        before.len() == systems.len(),
        now.len() == systems.len(),
        forall|j: int|
            0 <= j < systems.len() ==> #[trigger] now[j] == before[j] || (before[j] == usize::MAX
                && now[j] == depth),
    ensures
        rests(systems, now, i, depth as int) == rests(systems, before, i, depth as int),
{
    if rests(systems, now, i, depth as int) {
        assert forall|j: int| #[trigger] depends(systems, i, j) implies before[j] < depth by {
            assert(now[j] < depth);
        }
    }
    if rests(systems, before, i, depth as int) {
        assert forall|j: int| #[trigger] depends(systems, i, j) implies now[j] < depth by {
            assert(before[j] < depth);
            assert(now[j] == before[j] || (before[j] == usize::MAX && now[j] == depth));
        }
    }
}

/// A round that gives a depth to at least one system keeps the layout in
/// order and leaves the earlier depths as they are.
pub(crate) proof fn round_keeps_depths(systems: Seq<SystemDecl>, before: Seq<usize>, depth: usize)
    requires
        layered_below(systems, before, depth as int),
        depth < usize::MAX,
        systems.len() <= usize::MAX,
    ensures
        layered_below(systems, round(systems, before, depth), depth + 1),
        forall|t: int|
            0 <= t < depth ==> #[trigger] members(
                round(systems, before, depth),
                t as usize,
                systems.len() as int,
            ) == members(before, t as usize, systems.len() as int),
{
    let n = systems.len() as int;
    let after = round(systems, before, depth);
    assert forall|x: int| 0 <= x < n && #[trigger] after[x] != usize::MAX implies depth_fits(
        systems,
        after,
        x,
    ) by {
        if before[x] != usize::MAX {
            assert(depth_fits(systems, before, x));
            assert forall|j: int| #[trigger] depends(systems, x, j) implies after[j] < after[x] by {
                assert(before[j] < before[x]);
            }
            if before[x] != 0 {
                let j = choose|j: int| #[trigger]
                    depends(systems, x, j) && before[j] + 1 == before[x];
                assert(depends(systems, x, j) && after[j] + 1 == after[x]);
            }
        } else {
            assert(rests(systems, before, x, depth as int));
            assert forall|j: int| #[trigger] depends(systems, x, j) implies after[j] < after[x] by {
                assert(before[j] < depth);
            }
            if depth > 0 {
                assert(!rests(systems, before, x, depth - 1));
                let j = choose|j: int| #[trigger] depends(systems, x, j) && !(before[j] < depth - 1);
                assert(before[j] < depth);
                assert(depends(systems, x, j) && after[j] + 1 == after[x]);
            }
        }
    }
    assert forall|x: int| 0 <= x < n && #[trigger] after[x] == usize::MAX implies !rests(
        systems,
        after,
        x,
        depth as int,
    ) by {
        assert(before[x] == usize::MAX);
        assert(!rests(systems, before, x, depth as int));
        let j = choose|j: int| #[trigger] depends(systems, x, j) && !(before[j] < depth);
        assert(depends(systems, x, j) && !(after[j] < depth));
    }
    assert forall|t: int| 0 <= t < depth implies #[trigger] members(after, t as usize, n)
        == members(before, t as usize, n) by {
        members_agree(before, after, t as usize, n);
    }
}

/// A round that finds no system ready although some have no depth shows
/// that a system depends on itself.
pub(crate) proof fn empty_round_shows_cycle(systems: Seq<SystemDecl>, before: Seq<usize>, depth: usize)
    requires
        before.len() == systems.len(),
        systems.len() <= usize::MAX,
        forall|i: int|
            0 <= i < systems.len() ==> #[trigger] before[i] == usize::MAX || before[i] < depth,
        waiting(before) > 0,
        members(round(systems, before, depth), depth, systems.len() as int).len() == 0,
        depth < usize::MAX,
    ensures
        cyclic(systems),
{
    let n = systems.len() as int;
    let after = round(systems, before, depth);
    waiting_counts(before);
    let start = choose|x: int| 0 <= x < n && before[x] == usize::MAX;
    members_hold(after, depth, n);
    assert forall|x: int| #[trigger] unplaced(before, x) implies exists|j: int| #[trigger]
        depends(systems, x, j) && unplaced(before, j) by {
        if rests(systems, before, x, depth as int) {
            assert(after[x] == depth);
            assert(members(after, depth, n).contains(x as usize));
        }
        let j = choose|j: int| #[trigger] depends(systems, x, j) && !(before[j] < depth);
        assert(before[j] == usize::MAX || before[j] < depth);
        assert(depends(systems, x, j) && unplaced(before, j));
    }
    assert(unplaced(before, start));
    stuck_systems_form_cycle(systems, before, start);
}

/// The round that fills depth `depth`: gives the depth to every system that
/// is ready for it, and returns those systems in ascending order.
pub(crate) fn fill_depth(
    Ghost(systems): Ghost<Seq<SystemDecl>>,
    edges: &Vec<Vec<usize>>,
    depth_of: &mut Vec<usize>,
    depth: usize,
) -> (current: Vec<usize>)
    requires
        links(systems, edges@),
        names_distinct(systems),
        old(depth_of)@.len() == systems.len(),
        depth < usize::MAX,
        forall|i: int|
            0 <= i < systems.len() ==> #[trigger] old(depth_of)@[i] == usize::MAX || old(
                depth_of,
            )@[i] < depth,
    ensures
        final(depth_of)@ == round(systems, old(depth_of)@, depth),
        current@ == members(final(depth_of)@, depth, systems.len() as int),
        waiting(final(depth_of)@) + current@.len() == waiting(old(depth_of)@),
{
    let n: usize = edges.len();
    let ghost before = depth_of@;
    let mut current: Vec<usize> = Vec::new();
    let mut i: usize = 0;
    while i < n
        invariant
            i <= n,
            n == systems.len(),
            links(systems, edges@),
            names_distinct(systems),
            depth < usize::MAX,
            depth_of@.len() == n,
            before.len() == n,
            forall|x: int| 0 <= x < i ==> #[trigger] depth_of@[x] == round(systems, before, depth)[x],
            forall|x: int| i <= x < n ==> #[trigger] depth_of@[x] == before[x],
            forall|x: int| 0 <= x < n ==> #[trigger] before[x] == usize::MAX || before[x] < depth,
            current@ == members(depth_of@, depth, i as int),
            waiting(depth_of@) + current@.len() == waiting(before),
        decreases n - i,
    {
        let ghost prev = depth_of@;
        if depth_of[i] == usize::MAX {
            proof {
                ready_while_filling(systems, before, prev, i as int, depth);
            }
            if is_ready(Ghost(systems), edges, depth_of, i, depth) {
                proof {
                    waiting_after_placing(prev, i as int, depth);
                }
                depth_of.set(i, depth);
                current.push(i);
            }
        }
        proof {
            members_agree(prev, depth_of@, depth, i as int);
        }
        i += 1;
    }
    assert(depth_of@ =~= round(systems, before, depth));
    current
}

/// The depth of every system and the number of depths, where no system
/// depends on itself.
pub(crate) fn layer(Ghost(systems): Ghost<Seq<SystemDecl>>, edges: &Vec<Vec<usize>>) -> (layered: Option<
    (Vec<usize>, usize),
>)
    requires
        links(systems, edges@),
        names_distinct(systems),
    ensures
        match layered {
            Some((depth_of, depths)) => {
                &&& !cyclic(systems)
                &&& is_depth(systems, depth_of@)
                &&& depths <= systems.len()
                &&& forall|i: int| 0 <= i < systems.len() ==> #[trigger] depth_of@[i] < depths
            },
            None => cyclic(systems),
        },
{
    let n: usize = edges.len();
    let mut depth_of: Vec<usize> = Vec::new();
    while depth_of.len() < n
        invariant
            depth_of@.len() <= n,
            forall|i: int| 0 <= i < depth_of@.len() ==> depth_of@[i] == usize::MAX,
        decreases n - depth_of@.len(),
    {
        depth_of.push(usize::MAX);
    }
    let mut depth: usize = 0;
    let mut left: usize = n;
    proof {
        waiting_of_fresh(depth_of@);
    }
    while left > 0
        invariant
            n == systems.len(),
            links(systems, edges@),
            names_distinct(systems),
            left == waiting(depth_of@),
            depth + left <= n,
            layered_below(systems, depth_of@, depth as int),
        decreases left,
    {
        let ghost before = depth_of@;
        let current = fill_depth(Ghost(systems), edges, &mut depth_of, depth);
        if current.len() == 0 {
            proof {
                empty_round_shows_cycle(systems, before, depth);
            }
            return None;
        }
        proof {
            round_keeps_depths(systems, before, depth);
        }
        left = left - current.len();
        depth = depth + 1;
    }
    proof {
        waiting_counts(depth_of@);
        assert(is_depth(systems, depth_of@));
        layered_systems_have_no_cycle(systems, depth_of@);
    }
    Some((depth_of, depth))
}

} // verus!
