//! The physics pipeline of a frame: movement, bounding boxes, and the
//! resolution of positions against the terrain, which needs both.

use vstd::prelude::*;
use crate::schedule::{
    conflicts, cyclic, dangling, declares, dependency, depends, depth_fits, earliest, is_depth,
    is_staging, layered_systems_have_no_cycle, members, name_clash, name_of, names_distinct,
    resolved, share_kind, staging_is_unique, waits, Schedule, ScheduleError, SystemDecl,
};

verus! {

/// Whether `kinds` names exactly `names`, one by one.
pub open spec fn kinds_are(kinds: Seq<String>, names: Seq<Seq<char>>) -> bool {
    &&& kinds.len() == names.len()
    &&& forall|k: int| 0 <= k < kinds.len() ==> (#[trigger] kinds[k])@ == names[k]
}

/// Whether `systems` are the three systems of the physics pipeline as they
/// are declared.
///
/// `moving` moves every position on by its velocity. `has_aabb` derives
/// every bounding box from its position. `position` resolves positions
/// against the terrain and depends on both.
pub open spec fn is_physics_pipeline(systems: Seq<SystemDecl>) -> bool {
    &&& systems.len() == 3
    &&& name_of(systems, 0) == "moving"@
    &&& systems[0].dependencies@.len() == 0
    &&& kinds_are(systems[0].reads@, seq!["DeltaTime"@, "MovingObject"@])
    &&& kinds_are(systems[0].writes@, seq!["Position"@])
    &&& name_of(systems, 1) == "has_aabb"@
    &&& systems[1].dependencies@.len() == 0
    &&& kinds_are(systems[1].reads@, seq!["Position"@])
    &&& kinds_are(systems[1].writes@, seq!["HasAABB"@])
    &&& name_of(systems, 2) == "position"@
    &&& systems[2].dependencies@.len() == 2
    &&& dependency(systems, 2, 0) == "moving"@
    &&& dependency(systems, 2, 1) == "has_aabb"@
    &&& kinds_are(systems[2].reads@, seq!["LevelTerrain"@, "MovingObject"@, "HasAABB"@])
    &&& kinds_are(systems[2].writes@, seq!["Position"@])
}

/// The depth of each system of the physics pipeline.
pub open spec fn physics_depth_of() -> Seq<usize> {
    seq![0usize, 0usize, 1usize]
}

/// The stage of each system of the physics pipeline: `moving` runs first,
/// `has_aabb`, which reads the positions that `moving` writes, runs second,
/// and `position` runs last.
pub open spec fn physics_stage_of() -> Seq<usize> {
    seq![0usize, 1usize, 2usize]
}

/// The stages of the physics pipeline.
pub open spec fn physics_stages() -> Seq<Seq<usize>> {
    seq![seq![0usize], seq![1usize], seq![2usize]]
}

/// The declarations of the physics pipeline.
pub fn physics_pipeline() -> (systems: Vec<SystemDecl>)
    ensures
        is_physics_pipeline(systems@),
{
    let mut moving_reads: Vec<String> = Vec::new();
    moving_reads.push("DeltaTime".to_owned());
    moving_reads.push("MovingObject".to_owned());
    let mut moving_writes: Vec<String> = Vec::new();
    moving_writes.push("Position".to_owned());
    let mut has_aabb_reads: Vec<String> = Vec::new();
    has_aabb_reads.push("Position".to_owned());
    let mut has_aabb_writes: Vec<String> = Vec::new();
    has_aabb_writes.push("HasAABB".to_owned());
    let mut position_after: Vec<String> = Vec::new();
    position_after.push("moving".to_owned());
    position_after.push("has_aabb".to_owned());
    let mut position_reads: Vec<String> = Vec::new();
    position_reads.push("LevelTerrain".to_owned());
    position_reads.push("MovingObject".to_owned());
    position_reads.push("HasAABB".to_owned());
    let mut position_writes: Vec<String> = Vec::new();
    position_writes.push("Position".to_owned());
    let mut systems: Vec<SystemDecl> = Vec::new();
    systems.push(
        SystemDecl {
            name: "moving".to_owned(),
            dependencies: Vec::new(),
            reads: moving_reads,
            writes: moving_writes,
        },
    );
    systems.push(
        SystemDecl {
            name: "has_aabb".to_owned(),
            dependencies: Vec::new(),
            reads: has_aabb_reads,
            writes: has_aabb_writes,
        },
    );
    systems.push(
        SystemDecl {
            name: "position".to_owned(),
            dependencies: position_after,
            reads: position_reads,
            writes: position_writes,
        },
    );
    systems
}

/// The physics pipeline is declared soundly, and in its one layout the
/// three systems run one after the other: bounding boxes are derived from
/// positions that have been moved on, and positions are resolved when both
/// are done.
pub proof fn physics_pipeline_layout(systems: Seq<SystemDecl>)
    requires
        is_physics_pipeline(systems),
    ensures
        names_distinct(systems),
        resolved(systems),
        !cyclic(systems),
        is_staging(systems, physics_depth_of(), physics_stage_of(), physics_stages()),
{
    reveal_strlit("moving");
    reveal_strlit("has_aabb");
    reveal_strlit("position");
    let moving = "moving"@;
    let has_aabb = "has_aabb"@;
    let position = "position"@;
    assert(moving.len() == 6 && has_aabb.len() == 8 && position.len() == 8);
    assert(has_aabb[0] == 'h' && position[0] == 'p');
    assert(moving != has_aabb && moving != position && has_aabb != position);
    assert forall|i: int, j: int| !#[trigger] name_clash(systems, i, j) by {}
    assert(declares(systems, moving)) by {
        assert(name_of(systems, 0) == moving);
    }
    assert(declares(systems, has_aabb)) by {
        assert(name_of(systems, 1) == has_aabb);
    }
    let depth_of = physics_depth_of();
    let stage_of = physics_stage_of();
    let stages = physics_stages();
    assert forall|j: int| !depends(systems, 0, j) && !depends(systems, 1, j) by {}
    assert forall|j: int| #[trigger] depends(systems, 2, j) implies j == 0 || j == 1 by {
        let k = choose|k: int|
            0 <= k < systems[2].dependencies@.len() && #[trigger] dependency(systems, 2, k)
                == name_of(systems, j);
        assert(k == 0 || k == 1);
    }
    assert(depends(systems, 2, 0)) by {
        assert(dependency(systems, 2, 0) == name_of(systems, 0));
    }
    assert(depends(systems, 2, 1)) by {
        assert(dependency(systems, 2, 1) == name_of(systems, 1));
    }
    assert(depth_fits(systems, depth_of, 0));
    assert(depth_fits(systems, depth_of, 1));
    assert(depth_fits(systems, depth_of, 2)) by {
        assert(depends(systems, 2, 0) && depth_of[0] + 1 == depth_of[2]);
    }
    assert(is_depth(systems, depth_of));
    layered_systems_have_no_cycle(systems, depth_of);
    assert(conflicts(systems, 1, 0)) by {
        assert(systems[1].reads@[0]@ == systems[0].writes@[0]@);
        assert(share_kind(systems[1].reads@, systems[0].writes@));
    }
    assert(waits(systems, depth_of, 1, 0));
    assert(waits(systems, depth_of, 2, 1));
    assert(earliest(systems, depth_of, stage_of, 0)) by {
        assert forall|j: int| !waits(systems, depth_of, 0, j) by {}
    }
    assert(earliest(systems, depth_of, stage_of, 1)) by {
        assert forall|j: int| #[trigger] waits(systems, depth_of, 1, j) implies j == 0 by {}
        assert(waits(systems, depth_of, 1, 0) && stage_of[0] + 1 == stage_of[1]);
    }
    assert(earliest(systems, depth_of, stage_of, 2)) by {
        assert forall|j: int| #[trigger] waits(systems, depth_of, 2, j) implies j == 0 || j
            == 1 by {}
        assert(waits(systems, depth_of, 2, 1) && stage_of[1] + 1 == stage_of[2]);
    }
    assert(members(stage_of, 0, 3) =~= stages[0] && members(stage_of, 1, 3) =~= stages[1]
        && members(stage_of, 2, 3) =~= stages[2]) by {
        reveal_with_fuel(members, 4);
    }
}

/// The layout of the physics pipeline.
pub fn physics_schedule() -> (schedule: Schedule)
    ensures
        schedule.depth_of@ == physics_depth_of(),
        schedule.stage_of@ == physics_stage_of(),
        schedule.stage_lists() == physics_stages(),
{
    let systems = physics_pipeline();
    proof {
        physics_pipeline_layout(systems@);
    }
    match Schedule::build(&systems) {
        Ok(schedule) => {
            proof {
                staging_is_unique(
                    systems@,
                    schedule.depth_of@,
                    schedule.stage_of@,
                    schedule.stage_lists(),
                    physics_depth_of(),
                    physics_stage_of(),
                    physics_stages(),
                );
            }
            schedule
        },
        Err(fault) => {
            proof {
                match fault {
                    ScheduleError::DuplicateName { first, second } => {
                        assert(name_clash(systems@, first as int, second as int));
                    },
                    ScheduleError::UnknownDependency { system, dependency } => {
                        assert(dangling(systems@, system as int, dependency as int));
                    },
                    ScheduleError::Cycle => {},
                }
                assert(false);
            }
            vstd::pervasive::unreached()
        },
    }
}

} // verus!
