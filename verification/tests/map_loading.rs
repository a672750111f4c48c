use fabled::docs::{collect_floors, BranchLevel, GeneratedMap, HubExitRaw, MapDocument, RawPiece};
use fabled::editor::FloorMask;
use fabled::pool::{PointXz, PoolMapDocument, PoolMapEntry, PoolMapRaw};
use fabled::text::parse_i32;

fn mask(n: u32, on: bool) -> FloorMask {
    FloorMask { cells_x: n, cells_z: n, cells: vec![on; (n * n) as usize] }
}

fn bare_piece() -> RawPiece {
    RawPiece {
        stem: None,
        x_mm: None,
        z_mm: None,
        yaw_urad: None,
        floor_level: None,
        floor: None,
        scale_milli: None,
        group_id: None,
        ceiling: None,
        underside: None,
        kit: None,
        tint_milli: None,
        tags: None,
        zone: None,
    }
}

#[test]
fn level_keys_parse_like_integers() {
    assert_eq!(parse_i32("0"), Some(0));
    assert_eq!(parse_i32("-3"), Some(-3));
    assert_eq!(parse_i32("+12"), Some(12));
    assert_eq!(parse_i32("2147483647"), Some(i32::MAX));
    assert_eq!(parse_i32("-2147483648"), Some(i32::MIN));
    assert_eq!(parse_i32("2147483648"), None);
    assert_eq!(parse_i32("99999999999999999999"), None);
    assert_eq!(parse_i32(""), None);
    assert_eq!(parse_i32("-"), None);
    assert_eq!(parse_i32("1a"), None);
    assert_eq!(parse_i32(" 1"), None);
}

#[test]
fn floors_drop_bad_keys_and_later_entries_win() {
    let floors = collect_floors(vec![
        ("0".to_string(), Some(mask(2, false))),
        ("up".to_string(), Some(mask(3, true))),
        ("1".to_string(), None),
        ("00".to_string(), Some(mask(4, true))),
        ("-1".to_string(), Some(mask(1, true))),
    ]);
    assert_eq!(floors.len(), 2);
    let level0 = floors.iter().find(|(l, _)| *l == 0).unwrap();
    assert_eq!(level0.1.cells_x, 4);
    assert!(floors.iter().any(|(l, _)| *l == -1));
}

#[test]
fn generated_map_defaults() {
    let mut keep = bare_piece();
    keep.stem = Some("room-large".to_string());
    keep.x_mm = Some(4000);
    keep.z_mm = Some(-8000);
    keep.yaw_urad = Some(1_570_796);
    keep.floor = Some(2);
    keep.tint_milli = Some(vec![Some(1000), Some(500), Some(250)]);
    keep.tags = Some(vec![Some("hidden_entrance".to_string()), None]);
    let mut keyed = bare_piece();
    keyed.stem = Some("corridor".to_string());
    keyed.x_mm = Some(0);
    keyed.z_mm = Some(0);
    keyed.yaw_urad = Some(0);
    keyed.floor_level = Some(None);
    keyed.floor = Some(3);
    keyed.scale_milli = Some(500);
    keyed.tint_milli = Some(vec![Some(1), Some(2)]);
    let mut no_yaw = bare_piece();
    no_yaw.stem = Some("wall".to_string());
    no_yaw.x_mm = Some(0);
    no_yaw.z_mm = Some(0);
    let doc = MapDocument::from_generated(GeneratedMap {
        version: None,
        name: None,
        modules_x: None,
        modules_z: Some(7),
        floors: vec![("0".to_string(), Some(mask(35, true)))],
        pieces: vec![keep, no_yaw, keyed],
        hub_model: Some("freeform_v1".to_string()),
        faction_profile: None,
        building_system: None,
        spawn_mm: Some(PointXz { x_mm: 2000, z_mm: -4000 }),
        extraction_mm: None,
        branch_levels: Some(vec![(
            "3".to_string(),
            BranchLevel { x_mm: 8000, z_mm: 0, floor: -1, label: "Pit".to_string() },
        )]),
        hub_exits: Some(vec![
            ("0".to_string(), HubExitRaw { x_mm: 1, z_mm: 2, floor: 0, label: "East".to_string(), kind: None }),
            ("1".to_string(), HubExitRaw { x_mm: 3, z_mm: 4, floor: 1, label: "Up".to_string(), kind: Some("walk".to_string()) }),
        ]),
    });
    assert_eq!((doc.version, doc.name.as_str(), doc.modules_x, doc.modules_z), (1, "generated", 5, 7));
    assert_eq!(doc.floors.len(), 1);
    assert_eq!(doc.pieces.len(), 2);
    let a = &doc.pieces[0];
    assert_eq!((a.stem.as_str(), a.x_mm, a.z_mm, a.floor_level, a.scale_milli), ("room-large", 4000, -8000, 2, 1000));
    assert_eq!(a.tint_milli, Some([1000, 500, 250]));
    assert_eq!(a.tags, vec!["hidden_entrance".to_string()]);
    assert!(!a.ceiling && !a.underside);
    let b = &doc.pieces[1];
    assert_eq!((b.stem.as_str(), b.floor_level, b.scale_milli, b.tint_milli), ("corridor", 0, 500, None));
    assert_eq!(doc.hub_model.as_deref(), Some("freeform_v1"));
    assert_eq!(doc.spawn_mm, Some(PointXz { x_mm: 2000, z_mm: -4000 }));
    assert_eq!(doc.extraction_mm, None);
    assert_eq!(doc.branch_levels.len(), 1);
    assert_eq!((doc.branch_levels[0].0.as_str(), doc.branch_levels[0].1.floor), ("3", -1));
    assert_eq!(doc.hub_exits.len(), 2);
    assert_eq!((doc.hub_exits[0].0.as_str(), doc.hub_exits[0].1.kind.as_str()), ("0", "drop"));
    assert_eq!((doc.hub_exits[1].1.label.as_str(), doc.hub_exits[1].1.kind.as_str()), ("Up", "walk"));
}

#[test]
fn pool_map_falls_back_to_its_entry() {
    let entry = PoolMapEntry {
        id: "sector_a".to_string(),
        path: "pool/sector_a.json".to_string(),
        spawn_mm: PointXz { x_mm: 1000, z_mm: 2000 },
        extraction_mm: Some(PointXz { x_mm: 3000, z_mm: 4000 }),
        modules_x: 6,
        modules_z: 4,
    };
    let raw = PoolMapRaw {
        pool_id: None,
        grid_unit_mm: None,
        modules_x: None,
        modules_z: Some(9),
        floors: vec![("0".to_string(), Some(mask(2, true)))],
        pieces: None,
        spawn_mm: None,
        spawn_y_mm: None,
        extraction_mm: None,
        hub_model: None,
        branch_levels: None,
        hub_exits: Some(vec![(
            "0".to_string(),
            HubExitRaw { x_mm: 0, z_mm: 0, floor: 0, label: "Out".to_string(), kind: None },
        )]),
    };
    let doc = PoolMapDocument::from_parsed(&entry, raw);
    assert!(doc.branch_levels.is_empty());
    assert_eq!(doc.hub_exits[0].1.kind, "drop");
    assert_eq!(doc.pool_id, "sector_a");
    assert_eq!((doc.grid_unit_mm, doc.modules_x, doc.modules_z), (4000, 6, 9));
    assert_eq!(doc.spawn_mm, Some(PointXz { x_mm: 1000, z_mm: 2000 }));
    assert_eq!(doc.extraction_mm, Some(PointXz { x_mm: 3000, z_mm: 4000 }));
    assert!(doc.pieces.is_empty());
    assert_eq!(doc.floors.len(), 1);
}
