use gamecore::terrain::Terrain;

fn level() -> Terrain {
    Terrain::new(vec![
        vec![true, true, true, true],
        vec![false, true],
        vec![],
        vec![false, false, true],
    ])
}

#[test]
fn cells_inside_the_grid_are_what_the_rows_say() {
    let terrain = level();
    assert_eq!(terrain.height(), 4);
    assert!(terrain.solid(0, 0));
    assert!(terrain.solid(3, 0));
    assert!(!terrain.solid(0, 1));
    assert!(terrain.solid(1, 1));
    assert!(!terrain.solid(0, 3));
    assert!(terrain.solid(2, 3));
}

#[test]
fn cells_outside_the_grid_are_empty() {
    let terrain = level();
    assert!(!terrain.solid(-1, 0));
    assert!(!terrain.solid(0, -1));
    assert!(!terrain.solid(4, 0));
    assert!(!terrain.solid(2, 1));
    assert!(!terrain.solid(0, 2));
    assert!(!terrain.solid(0, 4));
    assert!(!terrain.solid(i64::MAX, 0));
    assert!(!terrain.solid(0, i64::MAX));
    assert!(!terrain.solid(i64::MIN, i64::MIN));
    assert!(!terrain.solid(i64::MAX, i64::MAX));
}

#[test]
fn empty_terrain_has_no_solid_cell() {
    let terrain = Terrain::new(Vec::new());
    assert_eq!(terrain.height(), 0);
    assert!(!terrain.solid(0, 0));
    assert!(!terrain.solid(-5, 7));
}
