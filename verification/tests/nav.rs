use fabled::nav::EnemyNav;

fn grid(cells: Vec<((i32, i32), i32, &str)>) -> EnemyNav {
    let records: Vec<(i32, i32, i32, String)> = cells
        .into_iter()
        .map(|((ix, iz), y_mm, open)| (ix, iz, y_mm, open.to_string()))
        .collect();
    EnemyNav::from_records(4000, 8, 8, &records)
}

#[test]
fn astar_routes_around_walls() {
    // 3 cells in a row, but the middle face is walled: must go around via row 1.
    let nav = grid(vec![
        ((0, 0), 0, "S"),
        ((1, 0), 0, "S"),
        ((2, 0), 0, "S"),
        ((0, 1), 0, "NE"),
        ((1, 1), 0, "NEW"),
        ((2, 1), 0, "NW"),
    ]);
    let path = nav.find_path((0, 0), (2, 0)).expect("path");
    assert_eq!(path.first(), Some(&(0, 0)));
    assert_eq!(path.last(), Some(&(2, 0)));
    assert!(path.contains(&(1, 1)), "must detour through open row: {path:?}");
    assert_eq!(path, vec![(0, 0), (0, 1), (1, 1), (2, 1), (2, 0)]);
}

#[test]
fn astar_takes_the_cheapest_walk_counting_height() {
    // Two ways from (0,0) to (2,0): the straight row climbs 3 m twice,
    // the detour through row 1 is two steps longer but flat.
    let nav = grid(vec![
        ((0, 0), 0, "SE"),
        ((1, 0), 3000, "EW"),
        ((2, 0), 0, "SW"),
        ((0, 1), 0, "NE"),
        ((1, 1), 0, "EW"),
        ((2, 1), 0, "NW"),
    ]);
    let path = nav.find_path((0, 0), (2, 0)).expect("path");
    assert_eq!(path, vec![(0, 0), (0, 1), (1, 1), (2, 1), (2, 0)]);
    // Without the climb the straight row is cheapest.
    let flat = grid(vec![
        ((0, 0), 0, "SE"),
        ((1, 0), 0, "EW"),
        ((2, 0), 0, "SW"),
        ((0, 1), 0, "NE"),
        ((1, 1), 0, "EW"),
        ((2, 1), 0, "NW"),
    ]);
    assert_eq!(flat.find_path((0, 0), (2, 0)).expect("path"), vec![(0, 0), (1, 0), (2, 0)]);
    assert_eq!(flat.find_path((1, 1), (1, 1)), Some(vec![(1, 1)]));
}

#[test]
fn astar_fails_when_sealed() {
    let nav = grid(vec![((0, 0), 0, ""), ((1, 0), 0, "")]);
    assert!(nav.find_path((0, 0), (1, 0)).is_none());
}

#[test]
fn cover_cell_picks_walled_face_toward_threat() {
    // Two-cell corridor running E-W; the east cell has a wall on its E face.
    let nav = grid(vec![((0, 0), 0, "E"), ((1, 0), 0, "W")]);
    let (x, _, z) = nav.world_of_mm((1, 0));
    assert_eq!(nav.cover_cell_from((0, 0), x + 20_000, z, 3), Some((1, 0)));
    // Threat from the west: (1,0)'s W face is open, no cover available.
    let (x, _, z) = nav.world_of_mm((0, 0));
    assert_eq!(nav.cover_cell_from((0, 0), x - 20_000, z, 3), None);
}

#[test]
fn world_cell_roundtrip() {
    let nav = grid(vec![((3, 5), 1200, "")]);
    let (x, y, z) = nav.world_of_mm((3, 5));
    assert_eq!(nav.cell_of_mm(x, z), (3, 5));
    assert_eq!(y, 1200);
}

#[test]
fn cell_centres_are_exact_millimetres() {
    let nav = grid(vec![((0, 0), 0, "")]);
    // Column 0 of an 8-wide 4 m grid is centred 14 m west of the map centre.
    assert_eq!(nav.world_of_mm((0, 0)), (-14_000, 0, -14_000));
    assert_eq!(nav.world_of_mm((7, 7)), (14_000, 0, 14_000));
    // Off-grid points round to the nearest cell; halves go away from zero.
    assert_eq!(nav.cell_of_mm(-14_000, 2_000), (0, 4));
    assert_eq!(nav.cell_of_mm(-16_000, 0), (-1, 4));
}

#[test]
fn path_from_a_cell_to_itself_is_that_cell() {
    let nav = grid(vec![((2, 2), 0, "")]);
    assert_eq!(nav.find_path((2, 2), (2, 2)), Some(vec![(2, 2)]));
    assert!(nav.find_path((2, 2), (3, 3)).is_none());
}
