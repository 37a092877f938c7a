use gamecore::physics::{physics_pipeline, physics_schedule};
use gamecore::schedule::{Schedule, ScheduleError, SystemDecl};

fn names(list: &[&str]) -> Vec<String> {
    list.iter().map(|d| d.to_string()).collect()
}

fn system(name: &str, dependencies: &[&str]) -> SystemDecl {
    SystemDecl { name: name.to_string(), dependencies: names(dependencies), reads: Vec::new(), writes: Vec::new() }
}

fn accessing(name: &str, dependencies: &[&str], reads: &[&str], writes: &[&str]) -> SystemDecl {
    SystemDecl {
        name: name.to_string(),
        dependencies: names(dependencies),
        reads: names(reads),
        writes: names(writes),
    }
}

#[test]
fn physics_pipeline_declares_three_systems() {
    let systems = physics_pipeline();
    assert_eq!(systems.len(), 3);
    assert_eq!(systems[0].name, "moving");
    assert!(systems[0].dependencies.is_empty());
    assert_eq!(systems[1].name, "has_aabb");
    assert!(systems[1].dependencies.is_empty());
    assert_eq!(systems[2].name, "position");
    assert_eq!(systems[2].dependencies, vec!["moving".to_string(), "has_aabb".to_string()]);
    assert_eq!(
        systems,
        vec![
            accessing("moving", &[], &["DeltaTime", "MovingObject"], &["Position"]),
            accessing("has_aabb", &[], &["Position"], &["HasAABB"]),
            accessing(
                "position",
                &["moving", "has_aabb"],
                &["LevelTerrain", "MovingObject", "HasAABB"],
                &["Position"]
            ),
        ]
    );
}

#[test]
fn position_runs_after_moving_and_has_aabb() {
    let schedule = Schedule::build(&physics_pipeline()).unwrap();
    assert_eq!(schedule.depth_of, vec![0, 0, 1]);
    assert_eq!(schedule.stage_of, vec![0, 1, 2]);
    assert_eq!(schedule.stages, vec![vec![0], vec![1], vec![2]]);
}

#[test]
fn position_runs_after_both_whatever_the_systems_touch() {
    let systems = vec![system("moving", &[]), system("has_aabb", &[]), system("position", &["moving", "has_aabb"])];
    let schedule = Schedule::build(&systems).unwrap();
    assert_eq!(schedule.stage_of, vec![0, 0, 1]);
    assert_eq!(schedule.stages, vec![vec![0, 1], vec![2]]);
}

#[test]
fn mutual_dependency_fails_construction() {
    let systems = vec![system("a", &["b"]), system("b", &["a"])];
    assert_eq!(Schedule::build(&systems).unwrap_err(), ScheduleError::Cycle);
}

#[test]
fn self_dependency_fails_construction() {
    let systems = vec![system("a", &[]), system("b", &["a", "b"])];
    assert_eq!(Schedule::build(&systems).unwrap_err(), ScheduleError::Cycle);
}

#[test]
fn long_cycle_behind_a_sound_prefix_fails_construction() {
    let systems = vec![
        system("root", &[]),
        system("a", &["root", "d"]),
        system("b", &["a"]),
        system("c", &["b"]),
        system("d", &["c"]),
    ];
    assert_eq!(Schedule::build(&systems).unwrap_err(), ScheduleError::Cycle);
}

#[test]
fn unknown_dependency_is_reported_with_its_place() {
    let systems = vec![system("a", &[]), system("b", &["a", "ghost", "phantom"]), system("c", &["nobody"])];
    assert_eq!(
        Schedule::build(&systems).unwrap_err(),
        ScheduleError::UnknownDependency { system: 1, dependency: 1 }
    );
}

#[test]
fn duplicate_name_is_reported_with_both_places() {
    let systems = vec![system("a", &[]), system("b", &[]), system("c", &[]), system("b", &[]), system("a", &[])];
    assert_eq!(
        Schedule::build(&systems).unwrap_err(),
        ScheduleError::DuplicateName { first: 1, second: 3 }
    );
}

#[test]
fn duplicate_name_comes_before_other_faults() {
    let systems = vec![system("a", &["a"]), system("a", &["nobody"])];
    assert_eq!(
        Schedule::build(&systems).unwrap_err(),
        ScheduleError::DuplicateName { first: 0, second: 1 }
    );
}

#[test]
fn unknown_dependency_comes_before_a_cycle() {
    let systems = vec![system("a", &["b"]), system("b", &["a", "nobody"])];
    assert_eq!(
        Schedule::build(&systems).unwrap_err(),
        ScheduleError::UnknownDependency { system: 1, dependency: 1 }
    );
}

#[test]
fn no_systems_give_no_stages() {
    let schedule = Schedule::build(&Vec::new()).unwrap();
    assert!(schedule.stage_of.is_empty());
    assert!(schedule.stages.is_empty());
}

#[test]
fn independent_systems_share_the_first_stage() {
    let systems = vec![system("a", &[]), system("b", &[]), system("c", &[])];
    let schedule = Schedule::build(&systems).unwrap();
    assert_eq!(schedule.stage_of, vec![0, 0, 0]);
    assert_eq!(schedule.stages, vec![vec![0, 1, 2]]);
}

#[test]
fn declaration_order_does_not_matter() {
    let systems = vec![
        system("render", &["camera", "animate"]),
        system("camera", &["position"]),
        system("position", &["moving", "has_aabb"]),
        system("animate", &[]),
        system("has_aabb", &[]),
        system("moving", &[]),
    ];
    let schedule = Schedule::build(&systems).unwrap();
    assert_eq!(schedule.stage_of, vec![3, 2, 1, 0, 0, 0]);
    assert_eq!(schedule.stages, vec![vec![3, 4, 5], vec![2], vec![1], vec![0]]);
}

#[test]
fn a_system_sits_behind_its_latest_dependency() {
    let systems = vec![
        system("a", &[]),
        system("b", &["a"]),
        system("c", &["b"]),
        system("d", &["a", "c"]),
        system("e", &["a"]),
    ];
    let schedule = Schedule::build(&systems).unwrap();
    assert_eq!(schedule.stage_of, vec![0, 1, 2, 3, 1]);
    assert_eq!(schedule.stages, vec![vec![0], vec![1, 4], vec![2], vec![3]]);
}

#[test]
fn a_dependency_named_twice_counts_once() {
    let systems = vec![system("a", &[]), system("b", &["a", "a"])];
    let schedule = Schedule::build(&systems).unwrap();
    assert_eq!(schedule.stages, vec![vec![0], vec![1]]);
}

#[test]
fn every_dependency_runs_in_an_earlier_stage() {
    let systems = vec![
        system("s0", &["s3", "s5"]),
        system("s1", &["s0"]),
        system("s2", &[]),
        system("s3", &["s2"]),
        system("s4", &["s1", "s2"]),
        system("s5", &[]),
        system("s6", &["s4", "s5"]),
    ];
    let schedule = Schedule::build(&systems).unwrap();
    for (i, s) in systems.iter().enumerate() {
        for d in s.dependencies.iter() {
            let j = systems.iter().position(|other| &other.name == d).unwrap();
            assert!(schedule.stage_of[j] < schedule.stage_of[i]);
        }
        assert!(schedule.stages[schedule.stage_of[i]].contains(&i));
    }
    let listed: usize = schedule.stages.iter().map(|stage| stage.len()).sum();
    assert_eq!(listed, systems.len());
}

#[test]
fn physics_schedule_is_the_layout_of_the_pipeline() {
    let built = Schedule::build(&physics_pipeline()).unwrap();
    let schedule = physics_schedule();
    assert_eq!(schedule, built);
    assert_eq!(schedule.stages, vec![vec![0], vec![1], vec![2]]);
}

#[test]
fn two_writers_of_one_kind_run_in_declaration_order() {
    let systems = vec![accessing("a", &[], &[], &["Position"]), accessing("b", &[], &[], &["Position"])];
    let schedule = Schedule::build(&systems).unwrap();
    assert_eq!(schedule.depth_of, vec![0, 0]);
    assert_eq!(schedule.stage_of, vec![0, 1]);
    assert_eq!(schedule.stages, vec![vec![0], vec![1]]);
}

#[test]
fn readers_of_one_kind_run_side_by_side() {
    let systems = vec![
        accessing("a", &[], &["Position", "Camera"], &["A"]),
        accessing("b", &[], &["Position"], &["B"]),
        accessing("c", &[], &["Camera", "Position"], &[]),
    ];
    let schedule = Schedule::build(&systems).unwrap();
    assert_eq!(schedule.stage_of, vec![0, 0, 0]);
    assert_eq!(schedule.stages, vec![vec![0, 1, 2]]);
}

#[test]
fn reader_and_writer_of_one_kind_run_in_declaration_order() {
    let reader_first = vec![accessing("r", &[], &["K"], &[]), accessing("w", &[], &[], &["K"])];
    assert_eq!(Schedule::build(&reader_first).unwrap().stage_of, vec![0, 1]);
    let writer_first = vec![accessing("w", &[], &[], &["K"]), accessing("r", &[], &["K"], &[])];
    assert_eq!(Schedule::build(&writer_first).unwrap().stage_of, vec![0, 1]);
}

#[test]
fn of_two_conflicting_systems_the_one_of_lesser_depth_runs_first() {
    let systems = vec![
        accessing("late", &["base"], &[], &["K"]),
        accessing("base", &[], &[], &[]),
        accessing("early", &[], &["K"], &[]),
    ];
    let schedule = Schedule::build(&systems).unwrap();
    assert_eq!(schedule.depth_of, vec![1, 0, 0]);
    assert_eq!(schedule.stage_of, vec![1, 0, 0]);
    assert_eq!(schedule.stages, vec![vec![1, 2], vec![0]]);
}

#[test]
fn conflicts_push_dependents_back() {
    let systems = vec![
        accessing("a", &[], &[], &["K"]),
        accessing("b", &[], &["K"], &["L"]),
        accessing("c", &[], &["L"], &[]),
        accessing("d", &["a"], &[], &[]),
        accessing("e", &["c"], &[], &[]),
    ];
    let schedule = Schedule::build(&systems).unwrap();
    assert_eq!(schedule.depth_of, vec![0, 0, 0, 1, 1]);
    assert_eq!(schedule.stage_of, vec![0, 1, 2, 1, 3]);
    assert_eq!(schedule.stages, vec![vec![0], vec![1, 3], vec![2], vec![4]]);
}

#[test]
fn no_two_systems_of_one_stage_conflict() {
    let kinds = ["P", "Q", "R", "S"];
    let systems: Vec<SystemDecl> = (0..9usize)
        .map(|i| {
            let after: Vec<String> = if i >= 4 { vec![format!("s{}", i - 4)] } else { Vec::new() };
            SystemDecl {
                name: format!("s{}", i),
                dependencies: after,
                reads: vec![kinds[i % 4].to_string(), kinds[(i + 1) % 4].to_string()],
                writes: if i % 3 == 0 { vec![kinds[(i + 2) % 4].to_string()] } else { Vec::new() },
            }
        })
        .collect();
    let schedule = Schedule::build(&systems).unwrap();
    let touches = |s: &SystemDecl, k: &String| s.reads.contains(k) || s.writes.contains(k);
    for stage in schedule.stages.iter() {
        for &i in stage.iter() {
            for &j in stage.iter() {
                if i != j {
                    for k in systems[i].writes.iter() {
                        assert!(!touches(&systems[j], k));
                    }
                }
            }
        }
    }
    for (i, s) in systems.iter().enumerate() {
        for d in s.dependencies.iter() {
            let j = systems.iter().position(|other| &other.name == d).unwrap();
            assert!(schedule.stage_of[j] < schedule.stage_of[i]);
        }
    }
}
