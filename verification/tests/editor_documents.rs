use fabled::docs::{latest_snapshot, MapDocument, ModuleDocument};
use fabled::editor::{ActiveDocument, FloorMask};

#[test]
fn new_module_is_empty_and_floored() {
    let m = ModuleDocument::new_named("Lobby A", "space");
    assert_eq!((m.version, m.name.as_str(), m.pool.as_str()), (1, "Lobby A", "space"));
    assert!(m.is_empty());
    assert_eq!((m.floor_mask.cells_x, m.floor_mask.cells_z), (5, 5));
    assert_eq!(m.path_in_pool("/repo"), "/repo/userinput/modules/space/Lobby_A.json");
}

#[test]
fn module_floor_masks_by_level() {
    let mut m = ModuleDocument::new_named("m", "p");
    m.floor_mask.set(1, 1, false);
    assert!(!m.is_empty());
    let mut upper = FloorMask::filled(5, 5);
    upper.set(0, 0, false);
    m.extra_floor_masks.push((1, upper));
    assert!(!m.floor_mask_for(0).get(1, 1));
    assert!(!m.floor_mask_for(1).get(0, 0));
    assert!(m.floor_mask_for(1).get(1, 1));
    let other = m.floor_mask_for(-3);
    assert!(other.cells.iter().all(|c| *c));
}

#[test]
fn new_map_and_resize() {
    let mut map = MapDocument::new_default();
    assert_eq!(map.name, "untitled");
    assert_eq!((map.modules_x, map.modules_z), (3, 3));
    assert_eq!(map.grid().cells_x, 15);
    map.floors[0].1.set(2, 2, false);
    map.floors.push((-1, FloorMask::filled(15, 15)));
    map.resize_map(0, 40);
    assert_eq!((map.modules_x, map.modules_z), (1, 32));
    assert_eq!(map.floors.len(), 2);
    for (_, m) in &map.floors {
        assert_eq!((m.cells_x, m.cells_z), (5, 160));
        assert!(m.cells.iter().all(|c| *c));
    }
    // A map that lost floor 0 gets it back.
    map.floors.retain(|(l, _)| *l != 0);
    map.resize_map(2, 2);
    assert!(map.floors.iter().any(|(l, _)| *l == 0));
    assert!(map.floor_mask(7).get(9, 9));
    assert!(!map.floor_mask(7).get(10, 0));
}

#[test]
fn baking_a_module_adds_floor_only() {
    let mut map = MapDocument::new_default();
    // Clear the map's ground floor first.
    for c in map.floors[0].1.cells.iter_mut() {
        *c = false;
    }
    let mut module = ModuleDocument::new_named("m", "p");
    module.floor_mask = FloorMask::filled(5, 5);
    module.floor_mask.set(0, 0, false);
    let mut basement = FloorMask::filled(5, 5);
    for c in basement.cells.iter_mut() {
        *c = false;
    }
    basement.set(4, 4, true);
    module.extra_floor_masks.push((-1, basement));
    ActiveDocument::bake_module_floor_on_map(&mut map, &module, 12, 5, 0);
    let ground = map.floor_mask(0);
    assert!(!ground.get(12, 5));
    assert!(ground.get(13, 5));
    assert!(ground.get(14, 9));
    assert!(!ground.get(11, 5));
    assert!(!ground.get(12, 4));
    // Floor -1 did not exist: it starts fully floored.
    let lower = map.floor_mask(-1);
    assert!(lower.cells.iter().all(|c| *c));
    assert_eq!(map.floors.len(), 2);
}

#[test]
fn newest_json_snapshot_wins() {
    let entries = vec![
        ("a.json".to_string(), 5u64),
        ("b.txt".to_string(), 9),
        (".json".to_string(), 99),
        ("c.json".to_string(), 7),
        ("d.json".to_string(), 7),
    ];
    assert_eq!(latest_snapshot(&entries), Some(3));
    assert_eq!(latest_snapshot(&vec![("x.png".to_string(), 1)]), None);
}
