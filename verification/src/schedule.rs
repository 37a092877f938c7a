//! The order in which the systems of a frame run.
//!
//! Each system is declared with its name, the names of the systems that
//! must have finished before it starts, and the kinds of data it reads and
//! writes. From the declarations the frame is laid out in stages. A stage
//! starts when the stage before it is done, and the systems of one stage
//! may run side by side: none of them depends on another, and what one of
//! them writes no other of them reads or writes. Systems that conflict so
//! run one after the other, the one of lesser depth first, and of two at
//! one depth the one declared first.

use vstd::prelude::*;
use crate::schedule::depth::layer;
use crate::schedule::names::{first_clash, resolve};
use crate::schedule::stages::{assign_stages, list_stages};

mod depth;
mod names;
mod stages;

verus! {

/// A system as it is declared: its name, the names of the systems it
/// depends on, and the kinds of data it reads and writes. A kind is the
/// name of a component storage or of a shared resource.
#[derive(Clone, Debug, PartialEq, Eq)]
pub struct SystemDecl {
    pub name: String,
    pub dependencies: Vec<String>,
    pub reads: Vec<String>,
    pub writes: Vec<String>,
}

/// Why a set of declarations cannot be laid out.
#[derive(Clone, Copy, PartialEq, Eq, Debug)]
pub enum ScheduleError {
    /// Two systems carry one name: those at `first` and at `second`.
    DuplicateName { first: usize, second: usize },
    /// Dependency number `dependency` of the system at `system` names no
    /// system.
    UnknownDependency { system: usize, dependency: usize },
    /// Some system depends, directly or through others, on itself.
    Cycle,
}

/// The name of dependency number `k` of the system at `i`.
pub open spec fn dependency(systems: Seq<SystemDecl>, i: int, k: int) -> Seq<char> {
    systems[i].dependencies@[k]@
}

/// The name of the system at `i`.
pub open spec fn name_of(systems: Seq<SystemDecl>, i: int) -> Seq<char> {
    systems[i].name@
}

/// Whether some system is called `name`.
pub open spec fn declares(systems: Seq<SystemDecl>, name: Seq<char>) -> bool {
    exists|j: int| 0 <= j < systems.len() && #[trigger] name_of(systems, j) == name
}

/// Whether the systems at `i` and at `j`, two places, carry one name.
pub open spec fn name_clash(systems: Seq<SystemDecl>, i: int, j: int) -> bool {
    0 <= i < j < systems.len() && name_of(systems, i) == name_of(systems, j)
}

/// Whether no two systems carry one name.
pub open spec fn names_distinct(systems: Seq<SystemDecl>) -> bool {
    forall|i: int, j: int| !#[trigger] name_clash(systems, i, j)
}

/// Whether dependency number `k` of the system at `i` names no system.
pub open spec fn dangling(systems: Seq<SystemDecl>, i: int, k: int) -> bool {
    &&& 0 <= i < systems.len()
    &&& 0 <= k < systems[i].dependencies@.len()
    &&& !declares(systems, dependency(systems, i, k))
}

/// Whether every dependency names a system.
pub open spec fn resolved(systems: Seq<SystemDecl>) -> bool {
    forall|i: int, k: int| !#[trigger] dangling(systems, i, k)
}

/// Whether the system at `i` depends on the system at `j`: whether it
/// names it among its dependencies.
pub open spec fn depends(systems: Seq<SystemDecl>, i: int, j: int) -> bool {
    &&& 0 <= i < systems.len()
    &&& 0 <= j < systems.len()
    &&& exists|k: int|
        0 <= k < systems[i].dependencies@.len() && #[trigger] dependency(systems, i, k) == name_of(
            systems,
            j,
        )
}

/// Whether `path` leads from a system back to itself, each system on it
/// depending on the one behind it.
pub open spec fn is_cycle(systems: Seq<SystemDecl>, path: Seq<int>) -> bool {
    &&& path.len() >= 2
    &&& path.first() == path.last()
    &&& forall|k: int| 0 <= k < path.len() - 1 ==> depends(systems, #[trigger] path[k], path[k + 1])
}

/// Whether some system depends, directly or through others, on itself.
pub open spec fn cyclic(systems: Seq<SystemDecl>) -> bool {
    exists|path: Seq<int>| is_cycle(systems, path)
}

/// Whether the systems at `i` and at `j` are the first two that carry one
/// name: no clash ends before `j`, and none that ends at `j` starts before
/// `i`.
pub open spec fn first_name_clash(systems: Seq<SystemDecl>, i: int, j: int) -> bool {
    &&& name_clash(systems, i, j)
    &&& forall|a: int, b: int| #[trigger]
        name_clash(systems, a, b) ==> j < b || (j == b && i <= a)
}

/// Whether dependency `k` of the system at `i` is the first that names no
/// system, going through the systems in order and through the dependencies
/// of each in order.
pub open spec fn first_dangling(systems: Seq<SystemDecl>, i: int, k: int) -> bool {
    &&& dangling(systems, i, k)
    &&& forall|a: int, b: int| #[trigger] dangling(systems, a, b) ==> i < a || (i == a && k <= b)
}

/// The systems of stage `stage` among the first `upto`, in ascending order.
pub open spec fn members(stage_of: Seq<usize>, stage: usize, upto: int) -> Seq<usize>
    decreases upto,
{
    if upto <= 0 {
        Seq::empty()
    } else if stage_of[upto - 1] == stage {
        members(stage_of, stage, upto - 1).push((upto - 1) as usize)
    } else {
        members(stage_of, stage, upto - 1)
    }
}

/// Whether everything the system at `i` depends on lies at a depth below
/// `depth`.
pub open spec fn rests(systems: Seq<SystemDecl>, depth_of: Seq<usize>, i: int, depth: int) -> bool {
    forall|j: int| #[trigger] depends(systems, i, j) ==> depth_of[j] < depth
}

/// Whether `depth_of` gives the system at `i` its depth: nought where it
/// depends on nothing, and else one more than the greatest depth among the
/// systems it depends on.
pub open spec fn depth_fits(systems: Seq<SystemDecl>, depth_of: Seq<usize>, i: int) -> bool {
    &&& rests(systems, depth_of, i, depth_of[i] as int)
    &&& depth_of[i] == 0 || exists|j: int| #[trigger]
        depends(systems, i, j) && depth_of[j] + 1 == depth_of[i]
}

/// Whether `depth_of` gives every system its depth, which is the length of
/// the longest chain of dependencies below it.
pub open spec fn is_depth(systems: Seq<SystemDecl>, depth_of: Seq<usize>) -> bool {
    &&& depth_of.len() == systems.len()
    &&& forall|i: int| 0 <= i < systems.len() ==> depth_fits(systems, depth_of, i)
}

/// Whether some entry of `kinds` and some entry of `others` name one kind.
pub open spec fn share_kind(kinds: Seq<String>, others: Seq<String>) -> bool {
    exists|x: int, y: int|
        0 <= x < kinds.len() && 0 <= y < others.len() && (#[trigger] kinds[x])@ == (
        #[trigger] others[y])@
}

/// Whether the systems at `i` and at `j`, two systems, cannot run side by
/// side: one of them writes a kind that the other reads or writes.
pub open spec fn conflicts(systems: Seq<SystemDecl>, i: int, j: int) -> bool {
    &&& 0 <= i < systems.len()
    &&& 0 <= j < systems.len()
    &&& i != j
    &&& {
        ||| share_kind(systems[i].writes@, systems[j].writes@)
        ||| share_kind(systems[i].writes@, systems[j].reads@)
        ||| share_kind(systems[i].reads@, systems[j].writes@)
    }
}

/// Whether the system at `j` comes before the system at `i` where the two
/// conflict: the one of lesser depth comes first, and of two at one depth
/// the one declared first.
pub open spec fn comes_before(depth_of: Seq<usize>, j: int, i: int) -> bool {
    depth_of[j] < depth_of[i] || (depth_of[j] == depth_of[i] && j < i)
}

/// Whether the system at `i` starts only when the system at `j` is done:
/// it depends on it, or the two conflict and the other comes first.
pub open spec fn waits(systems: Seq<SystemDecl>, depth_of: Seq<usize>, i: int, j: int) -> bool {
    depends(systems, i, j) || (conflicts(systems, i, j) && comes_before(depth_of, j, i))
}

/// Whether everything the system at `i` waits for sits in a stage before
/// stage `stage`.
pub open spec fn ready(
    systems: Seq<SystemDecl>,
    depth_of: Seq<usize>,
    stage_of: Seq<usize>,
    i: int,
    stage: int,
) -> bool {
    forall|j: int| #[trigger] waits(systems, depth_of, i, j) ==> stage_of[j] < stage
}

/// Whether the system at `i` sits in the earliest stage it can: behind
/// everything it waits for, and directly behind some of it unless it sits
/// in the first stage.
pub open spec fn earliest(
    systems: Seq<SystemDecl>,
    depth_of: Seq<usize>,
    stage_of: Seq<usize>,
    i: int,
) -> bool {
    &&& ready(systems, depth_of, stage_of, i, stage_of[i] as int)
    &&& stage_of[i] == 0 || exists|j: int| #[trigger]
        waits(systems, depth_of, i, j) && stage_of[j] + 1 == stage_of[i]
}

/// Whether `stages` lays the systems out: `depth_of` gives every system
/// its depth, every system sits in the stage that `stage_of` gives it,
/// which is the earliest it can sit in, and each stage lists its systems in
/// ascending order and has at least one, so there are no more stages than
/// systems.
pub open spec fn is_staging(
    systems: Seq<SystemDecl>,
    depth_of: Seq<usize>,
    stage_of: Seq<usize>,
    stages: Seq<Seq<usize>>,
) -> bool {
    &&& is_depth(systems, depth_of)
    &&& stage_of.len() == systems.len()
    &&& stages.len() <= systems.len()
    &&& forall|i: int|
        0 <= i < systems.len() ==> #[trigger] stage_of[i] < stages.len() && earliest(
            systems,
            depth_of,
            stage_of,
            i,
        )
    &&& forall|t: int|
        0 <= t < stages.len() ==> #[trigger] stages[t] == members(
            stage_of,
            t as usize,
            systems.len() as int,
        ) && stages[t].len() > 0
}

/// The stages of a frame. The systems of one stage may run side by side;
/// a stage starts when the stage before it is done.
#[derive(Clone, Debug, PartialEq, Eq)]
pub struct Schedule {
    /// For each system, by its position among the declarations, the length
    /// of the longest chain of dependencies below it.
    pub depth_of: Vec<usize>,
    /// For each system, by position, the stage it runs in.
    pub stage_of: Vec<usize>,
    /// For each stage the systems that run in it, by position, ascending.
    pub stages: Vec<Vec<usize>>,
}

impl Schedule {
    /// The stages as sequences.
    pub open spec fn stage_lists(self) -> Seq<Seq<usize>> {
        self.stages@.map_values(|stage: Vec<usize>| stage@)
    }

    /// Lays out the systems in stages, or says why that cannot be done.
    ///
    /// The declarations are refused where two systems carry one name, where
    /// a dependency names no system, and where a system depends on itself,
    /// directly or through others; of several faults the first of this list
    /// is reported. Otherwise every system is put into the earliest stage
    /// that lies behind every system it depends on and behind every system
    /// that it conflicts with and that comes before it.
    pub fn build(systems: &Vec<SystemDecl>) -> (built: Result<Schedule, ScheduleError>)
        ensures
            match built {
                Err(ScheduleError::DuplicateName { first, second }) => first_name_clash(
                    systems@,
                    first as int,
                    second as int,
                ),
                Err(ScheduleError::UnknownDependency { system, dependency }) => {
                    &&& names_distinct(systems@)
                    &&& first_dangling(systems@, system as int, dependency as int)
                },
                Err(ScheduleError::Cycle) => {
                    &&& names_distinct(systems@)
                    &&& resolved(systems@)
                    &&& cyclic(systems@)
                },
                Ok(schedule) => {
                    &&& names_distinct(systems@)
                    &&& resolved(systems@)
                    &&& !cyclic(systems@)
                    &&& is_staging(
                        systems@,
                        schedule.depth_of@,
                        schedule.stage_of@,
                        schedule.stage_lists(),
                    )
                },
            },
    {
        match first_clash(systems) {
            Some((first, second)) => {
                return Err(ScheduleError::DuplicateName { first, second });
            },
            None => {},
        }
        let edges = match resolve(systems) {
            Err((system, dependency)) => {
                return Err(ScheduleError::UnknownDependency { system, dependency });
            },
            Ok(edges) => edges,
        };
        let (depth_of, depths) = match layer(Ghost(systems@), &edges) {
            None => {
                return Err(ScheduleError::Cycle);
            },
            Some(layered) => layered,
        };
        let (stage_of, count) = assign_stages(systems, &edges, &depth_of, depths);
        let stages = list_stages(&stage_of, count);
        Ok(Schedule { depth_of, stage_of, stages })
    }
}

/// Where two assignments agree on which systems sit in `stage`, they list
/// the same systems for it.
pub(crate) proof fn members_agree(before: Seq<usize>, after: Seq<usize>, stage: usize, upto: int)
    requires
        upto <= before.len(),
        before.len() == after.len(),
        forall|i: int| 0 <= i < upto ==> (before[i] == stage) == (after[i] == stage),
    ensures
        members(before, stage, upto) == members(after, stage, upto),
    decreases upto,
{
    if upto > 0 {
        members_agree(before, after, stage, upto - 1);
    }
}

/// The list of a stage holds the systems that sit in it, and no other.
pub(crate) proof fn members_hold(stage_of: Seq<usize>, stage: usize, upto: int)
    requires
        upto <= stage_of.len() <= usize::MAX,
    ensures
        forall|x: int|
            0 <= x < members(stage_of, stage, upto).len() ==> {
                let m = #[trigger] members(stage_of, stage, upto)[x];
                m < upto && stage_of[m as int] == stage
            },
        forall|i: int|
            0 <= i < upto && #[trigger] stage_of[i] == stage ==> members(
                stage_of,
                stage,
                upto,
            ).contains(i as usize),
    decreases upto,
{
    if upto > 0 {
        members_hold(stage_of, stage, upto - 1);
        let front = members(stage_of, stage, upto - 1);
        let all = members(stage_of, stage, upto);
        assert forall|x: int| 0 <= x < all.len() implies {
            let m = #[trigger] all[x];
            m < upto && stage_of[m as int] == stage
        } by {
            if x < front.len() {
                assert(all[x] == front[x]);
            }
        }
        assert forall|i: int| 0 <= i < upto && #[trigger] stage_of[i] == stage implies all.contains(
            i as usize,
        ) by {
            if i < upto - 1 {
                let x = choose|x: int| 0 <= x < front.len() && front[x] == i as usize;
                assert(all[x] == i as usize);
            } else {
                assert(all[all.len() - 1] == i as usize);
            }
        }
    }
}

/// Along a chain of systems, each depending on the next, the depths fall by
/// at least one per link.
pub(crate) proof fn depths_fall_along(
    systems: Seq<SystemDecl>,
    depth_of: Seq<usize>,
    path: Seq<int>,
    k: int,
)
    requires
        is_depth(systems, depth_of),
        0 <= k < path.len(),
        forall|x: int| 0 <= x < path.len() - 1 ==> depends(systems, #[trigger] path[x], path[x + 1]),
    ensures
        0 <= path[0] < systems.len() || path.len() == 1,
        path.len() > 1 ==> depth_of[path[0]] >= depth_of[path[k]] + k,
    decreases k,
{
    if path.len() > 1 {
        assert(depends(systems, path[0], path[1]));
        if k > 0 {
            depths_fall_along(systems, depth_of, path, k - 1);
            assert(depends(systems, path[k - 1], path[k]));
            assert(depth_fits(systems, depth_of, path[k - 1]));
        }
    }
}

/// Systems that have depths do not depend on themselves.
pub proof fn layered_systems_have_no_cycle(systems: Seq<SystemDecl>, depth_of: Seq<usize>)
    requires
        is_depth(systems, depth_of),
    ensures
        !cyclic(systems),
{
    if cyclic(systems) {
        let path = choose|path: Seq<int>| is_cycle(systems, path);
        depths_fall_along(systems, depth_of, path, path.len() - 1);
    }
}

/// Two systems that depend on each other form a cycle, as does a system
/// that depends on itself.
pub proof fn mutual_dependency_is_cycle(systems: Seq<SystemDecl>, a: int, b: int)
    requires
        depends(systems, a, b),
        depends(systems, b, a),
    ensures
        cyclic(systems),
{
    let path = seq![a, b, a];
    assert(is_cycle(systems, path));
}

/// In a layout every system runs in a later stage than each system it
/// depends on, so it starts when all of them are done.
pub proof fn dependencies_run_first(
    systems: Seq<SystemDecl>,
    depth_of: Seq<usize>,
    stage_of: Seq<usize>,
    stages: Seq<Seq<usize>>,
    i: int,
    j: int,
)
    requires
        is_staging(systems, depth_of, stage_of, stages),
        systems.len() <= usize::MAX,
        depends(systems, i, j),
    ensures
        stage_of[j] < stage_of[i] < stages.len(),
        stages[stage_of[j] as int].contains(j as usize),
        stages[stage_of[i] as int].contains(i as usize),
{
    assert(stage_of[i] < stages.len() && earliest(systems, depth_of, stage_of, i));
    assert(waits(systems, depth_of, i, j));
    assert(stage_of[j] < stages.len());
    let n = systems.len() as int;
    members_hold(stage_of, stage_of[i], n);
    members_hold(stage_of, stage_of[j], n);
    assert(stages[stage_of[i] as int] == members(stage_of, stage_of[i], n));
    assert(stages[stage_of[j] as int] == members(stage_of, stage_of[j], n));
}

/// In a layout no two systems of one stage conflict: what one of them
/// writes, no other of its stage reads or writes.
pub proof fn stage_is_free_of_conflict(
    systems: Seq<SystemDecl>,
    depth_of: Seq<usize>,
    stage_of: Seq<usize>,
    stages: Seq<Seq<usize>>,
    i: int,
    j: int,
)
    requires
        is_staging(systems, depth_of, stage_of, stages),
        conflicts(systems, i, j),
    ensures
        stage_of[i] != stage_of[j],
{
    assert(stage_of[i] < stages.len() && earliest(systems, depth_of, stage_of, i));
    assert(stage_of[j] < stages.len() && earliest(systems, depth_of, stage_of, j));
    if comes_before(depth_of, j, i) {
        assert(waits(systems, depth_of, i, j));
    } else {
        assert(conflicts(systems, j, i)) by {
            kinds_shared_both_ways(systems[i].writes@, systems[j].writes@);
            kinds_shared_both_ways(systems[i].writes@, systems[j].reads@);
            kinds_shared_both_ways(systems[i].reads@, systems[j].writes@);
        }
        assert(comes_before(depth_of, i, j));
        assert(waits(systems, depth_of, j, i));
    }
}

/// Of two systems that conflict the one that comes first runs in the
/// earlier stage.
pub proof fn conflicting_systems_run_in_order(
    systems: Seq<SystemDecl>,
    depth_of: Seq<usize>,
    stage_of: Seq<usize>,
    stages: Seq<Seq<usize>>,
    i: int,
    j: int,
)
    requires
        is_staging(systems, depth_of, stage_of, stages),
        conflicts(systems, i, j),
        comes_before(depth_of, j, i),
    ensures
        stage_of[j] < stage_of[i],
{
    assert(stage_of[i] < stages.len() && earliest(systems, depth_of, stage_of, i));
    assert(waits(systems, depth_of, i, j));
}

/// Whether the system at `i` writes `kind`.
pub open spec fn writes_kind(systems: Seq<SystemDecl>, i: int, kind: Seq<char>) -> bool {
    exists|x: int| 0 <= x < systems[i].writes@.len() && (#[trigger] systems[i].writes@[x])@ == kind
}

/// Whether the system at `i` reads or writes `kind`.
pub open spec fn touches_kind(systems: Seq<SystemDecl>, i: int, kind: Seq<char>) -> bool {
    writes_kind(systems, i, kind) || exists|x: int|
        0 <= x < systems[i].reads@.len() && (#[trigger] systems[i].reads@[x])@ == kind
}

/// Whether `step`, which takes the data of every kind to the data after a
/// run, keeps to what the system at `i` declares: it leaves every kind as
/// it is that the system does not write, and what it writes is decided by
/// the kinds that the system reads or writes.
pub open spec fn keeps_to_access<V>(
    systems: Seq<SystemDecl>,
    i: int,
    step: spec_fn(spec_fn(Seq<char>) -> V) -> spec_fn(Seq<char>) -> V,
) -> bool {
    &&& forall|data: spec_fn(Seq<char>) -> V, kind: Seq<char>|
        !writes_kind(systems, i, kind) ==> #[trigger] step(data)(kind) == data(kind)
    &&& forall|data: spec_fn(Seq<char>) -> V, other: spec_fn(Seq<char>) -> V, kind: Seq<char>|
        writes_kind(systems, i, kind) && (forall|seen: Seq<char>|
            touches_kind(systems, i, seen) ==> data(seen) == other(seen)) ==> #[trigger] step(
            data,
        )(kind) == #[trigger] step(other)(kind)
}

/// Two systems that do not conflict can run in either order, and so side
/// by side: whatever each of them does within what it declares, the data
/// of every kind comes out the same.
pub proof fn systems_without_conflict_commute<V>(
    systems: Seq<SystemDecl>,
    i: int,
    j: int,
    one: spec_fn(spec_fn(Seq<char>) -> V) -> spec_fn(Seq<char>) -> V,
    other: spec_fn(spec_fn(Seq<char>) -> V) -> spec_fn(Seq<char>) -> V,
    data: spec_fn(Seq<char>) -> V,
    kind: Seq<char>,
)
    requires
        0 <= i < systems.len(),
        0 <= j < systems.len(),
        i != j,
        !conflicts(systems, i, j),
        keeps_to_access(systems, i, one),
        keeps_to_access(systems, j, other),
    ensures
        one(other(data))(kind) == other(one(data))(kind),
{
    assert forall|seen: Seq<char>| touches_kind(systems, i, seen) implies !writes_kind(
        systems,
        j,
        seen,
    ) by {
        if writes_kind(systems, j, seen) {
            kinds_in_common(systems, i, j, seen);
        }
    }
    assert forall|seen: Seq<char>| touches_kind(systems, j, seen) implies !writes_kind(
        systems,
        i,
        seen,
    ) by {
        if writes_kind(systems, i, seen) {
            kinds_in_common(systems, i, j, seen);
        }
    }
    if writes_kind(systems, i, kind) {
        assert(touches_kind(systems, i, kind));
        assert forall|seen: Seq<char>| touches_kind(systems, i, seen) implies other(data)(seen)
            == data(seen) by {}
        assert(one(other(data))(kind) == one(data)(kind));
        assert(other(one(data))(kind) == one(data)(kind));
    } else if writes_kind(systems, j, kind) {
        assert(touches_kind(systems, j, kind));
        assert forall|seen: Seq<char>| touches_kind(systems, j, seen) implies one(data)(seen)
            == data(seen) by {}
        assert(other(one(data))(kind) == other(data)(kind));
        assert(one(other(data))(kind) == other(data)(kind));
    } else {
        assert(one(other(data))(kind) == other(data)(kind));
        assert(other(one(data))(kind) == one(data)(kind));
    }
}

/// A kind that one of two systems writes and the other reads or writes
/// makes the two conflict.
proof fn kinds_in_common(systems: Seq<SystemDecl>, i: int, j: int, kind: Seq<char>)
    requires
        0 <= i < systems.len(),
        0 <= j < systems.len(),
        i != j,
        (writes_kind(systems, i, kind) && touches_kind(systems, j, kind)) || (writes_kind(
            systems,
            j,
            kind,
        ) && touches_kind(systems, i, kind)),
    ensures
        conflicts(systems, i, j),
{
    let wi = systems[i].writes@;
    let ri = systems[i].reads@;
    let wj = systems[j].writes@;
    let rj = systems[j].reads@;
    if writes_kind(systems, i, kind) {
        let x = choose|x: int| 0 <= x < wi.len() && (#[trigger] wi[x])@ == kind;
        if writes_kind(systems, j, kind) {
            let y = choose|y: int| 0 <= y < wj.len() && (#[trigger] wj[y])@ == kind;
            assert(wi[x]@ == wj[y]@);
            assert(share_kind(wi, wj));
        } else {
            let y = choose|y: int| 0 <= y < rj.len() && (#[trigger] rj[y])@ == kind;
            assert(wi[x]@ == rj[y]@);
            assert(share_kind(wi, rj));
        }
    } else {
        let y = choose|y: int| 0 <= y < wj.len() && (#[trigger] wj[y])@ == kind;
        let x = choose|x: int| 0 <= x < ri.len() && (#[trigger] ri[x])@ == kind;
        assert(ri[x]@ == wj[y]@);
        assert(share_kind(ri, wj));
    }
}

proof fn kinds_shared_both_ways(kinds: Seq<String>, others: Seq<String>)
    ensures
        share_kind(kinds, others) == share_kind(others, kinds),
{
    if share_kind(kinds, others) {
        let (x, y) = choose|x: int, y: int|
            0 <= x < kinds.len() && 0 <= y < others.len() && (#[trigger] kinds[x])@ == (
            #[trigger] others[y])@;
        assert(others[y]@ == kinds[x]@);
    }
    if share_kind(others, kinds) {
        let (x, y) = choose|x: int, y: int|
            0 <= x < others.len() && 0 <= y < kinds.len() && (#[trigger] others[x])@ == (
            #[trigger] kinds[y])@;
        assert(kinds[y]@ == others[x]@);
    }
}

proof fn depth_not_greater(systems: Seq<SystemDecl>, one: Seq<usize>, other: Seq<usize>, i: int)
    requires
        is_depth(systems, one),
        is_depth(systems, other),
        0 <= i < systems.len(),
    ensures
        one[i] <= other[i],
    decreases one[i],
{
    assert(depth_fits(systems, one, i));
    if one[i] != 0 {
        let j = choose|j: int| #[trigger] depends(systems, i, j) && one[j] + 1 == one[i];
        depth_not_greater(systems, one, other, j);
        assert(depth_fits(systems, other, i));
    }
}

/// The systems have one depth each.
pub proof fn depth_is_unique(systems: Seq<SystemDecl>, depth_of: Seq<usize>, other: Seq<usize>)
    requires
        is_depth(systems, depth_of),
        is_depth(systems, other),
    ensures
        depth_of == other,
{
    assert forall|i: int| 0 <= i < systems.len() implies depth_of[i] == other[i] by {
        depth_not_greater(systems, depth_of, other, i);
        depth_not_greater(systems, other, depth_of, i);
    }
    assert(depth_of =~= other);
}

proof fn stage_not_later(
    systems: Seq<SystemDecl>,
    depth_of: Seq<usize>,
    one: Seq<usize>,
    other: Seq<usize>,
    i: int,
)
    requires
        one.len() == systems.len(),
        other.len() == systems.len(),
        forall|x: int| 0 <= x < systems.len() ==> earliest(systems, depth_of, one, x),
        forall|x: int| 0 <= x < systems.len() ==> earliest(systems, depth_of, other, x),
        0 <= i < systems.len(),
    ensures
        one[i] <= other[i],
    decreases one[i],
{
    assert(earliest(systems, depth_of, one, i));
    if one[i] != 0 {
        let j = choose|j: int| #[trigger]
            waits(systems, depth_of, i, j) && one[j] + 1 == one[i];
        stage_not_later(systems, depth_of, one, other, j);
        assert(earliest(systems, depth_of, other, i));
    }
}

/// The systems have one layout at most.
pub proof fn staging_is_unique(
    systems: Seq<SystemDecl>,
    depth_of: Seq<usize>,
    stage_of: Seq<usize>,
    stages: Seq<Seq<usize>>,
    other_depth_of: Seq<usize>,
    other_stage_of: Seq<usize>,
    other_stages: Seq<Seq<usize>>,
)
    requires
        is_staging(systems, depth_of, stage_of, stages),
        is_staging(systems, other_depth_of, other_stage_of, other_stages),
        systems.len() <= usize::MAX,
    ensures
        depth_of == other_depth_of,
        stage_of == other_stage_of,
        stages == other_stages,
{
    let n = systems.len() as int;
    depth_is_unique(systems, depth_of, other_depth_of);
    assert forall|x: int| 0 <= x < n implies earliest(systems, depth_of, stage_of, x) by {
        assert(stage_of[x] < stages.len());
    }
    assert forall|x: int| 0 <= x < n implies earliest(systems, depth_of, other_stage_of, x) by {
        assert(other_stage_of[x] < other_stages.len());
    }
    assert forall|i: int| 0 <= i < n implies stage_of[i] == other_stage_of[i] by {
        stage_not_later(systems, depth_of, stage_of, other_stage_of, i);
        stage_not_later(systems, depth_of, other_stage_of, stage_of, i);
    }
    assert(stage_of =~= other_stage_of);
    if stages.len() < other_stages.len() {
        let t = other_stages.len() - 1;
        members_hold(other_stage_of, t as usize, n);
        let m = other_stages[t][0];
        assert(other_stage_of[m as int] == t);
        assert(stage_of[m as int] < stages.len());
    }
    if other_stages.len() < stages.len() {
        let t = stages.len() - 1;
        members_hold(stage_of, t as usize, n);
        let m = stages[t][0];
        assert(stage_of[m as int] == t);
        assert(other_stage_of[m as int] < other_stages.len());
    }
    assert(stages =~= other_stages);
}

} // verus!
