use gamecore::systems::{CameraSnapSystem, ChaseCameraSystem};

#[test]
fn camera_snap_and_chase_round_trip() {
    let mut camera: (f64, f64) = (0.0, 0.0);
    let snap_targets = vec![(10.0, 20.0)];
    let mut chasers: Vec<(f64, f64)> = Vec::new();

    if let Some(location) = CameraSnapSystem.run(&snap_targets) {
        camera = location;
    }
    ChaseCameraSystem.run(camera, &mut chasers);
    assert_eq!(camera, (10.0, 20.0));
    assert!(chasers.is_empty());

    chasers.push((-3.0, 99.0));
    if let Some(location) = CameraSnapSystem.run(&snap_targets) {
        camera = location;
    }
    ChaseCameraSystem.run(camera, &mut chasers);
    assert_eq!(camera, (10.0, 20.0));
    assert_eq!(chasers, vec![(10.0, 20.0)]);
}

#[test]
fn camera_without_target_stays() {
    let targets: Vec<(f32, f32)> = Vec::new();
    assert_eq!(CameraSnapSystem.run(&targets), None);
}

#[test]
fn camera_follows_the_last_of_several_targets() {
    let targets = vec![(1.0f32, 1.0f32), (2.0, 2.0), (3.0, -3.0)];
    assert_eq!(CameraSnapSystem.run(&targets), Some((3.0, -3.0)));
}

#[test]
fn every_chaser_lands_on_the_camera() {
    let mut chasers = vec![(0i32, 0i32), (5, 5), (-7, 2)];
    ChaseCameraSystem.run((4, -4), &mut chasers);
    assert_eq!(chasers, vec![(4, -4), (4, -4), (4, -4)]);
}
