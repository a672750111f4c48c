use fabled::catalog::{
    classify_kenney, cycle_pool, filtered_stems, glb_asset_path, glb_asset_path_for_piece,
    glb_asset_path_in_kit, is_synth_balcony_stem, is_synth_chair_stem,
    is_synth_deck_occluder_stem, is_synth_deck_prop_stem, is_synth_rail_stem,
    is_synth_structure_wall, is_synth_substrate_glb_stem, is_synth_wall_decal, list_gallery_pools,
    list_pools, misc_stems, suggest_dressing_name, suggest_module_name, synth_dressing_default_y_mm,
    synth_dressing_stems, synth_dressing_stems_filtered, synth_stems_for_category,
    DressingCatFilter, FilterGroup, PieceFilters, PieceRecord,
};
use fabled::kenney::{
    piece_grid_size, uses_edge_anchor, CellAxis, CellEdges, CellGrid, KenneyCatalog, KenneyPiece,
};

fn piece(stem: &str, category: &str, nx: u32, nz: u32) -> KenneyPiece {
    KenneyPiece {
        stem: stem.to_string(),
        category: category.to_string(),
        cell_grid: CellGrid {
            axis: CellAxis { x: "east".to_string(), z: "north".to_string() },
            nx,
            nz,
            edges: CellEdges { south: vec![], north: vec![], west: vec![], east: vec![] },
        },
    }
}

fn catalog() -> KenneyCatalog {
    KenneyCatalog {
        pieces: vec![
            piece("room-large", "room", 3, 3),
            piece("corridor", "corridor", 1, 1),
            piece("template-wall", "template_wall", 1, 1),
            piece("gate-door", "gate", 1, 1),
            piece("stairs", "stairs", 1, 2),
            piece("cables", "props", 1, 1),
        ],
    }
}

fn strings(v: &[&str]) -> Vec<String> {
    v.iter().map(|s| s.to_string()).collect()
}

#[test]
fn labels_of_filter_groups() {
    assert_eq!(FilterGroup::KenneyRooms.label(), "Rooms");
    assert_eq!(FilterGroup::KenneyDoors.label(), "Doors/Gates");
    assert_eq!(FilterGroup::OtherMisc.label(), "Other GLBs");
    assert_eq!(DressingCatFilter::FloorProp.label(), "Furniture");
    assert_eq!(DressingCatFilter::WallSwap.label(), "Walls");
}

#[test]
fn filters_set_get_toggle() {
    let mut f = PieceFilters::default();
    assert!(f.get(FilterGroup::KenneyWalls));
    f.set(FilterGroup::KenneyWalls, false);
    assert!(!f.get(FilterGroup::KenneyWalls));
    assert!(f.get(FilterGroup::KenneyRooms));
    f.toggle(FilterGroup::KenneyRooms);
    f.toggle(FilterGroup::KenneyRooms);
    assert!(f.get(FilterGroup::KenneyRooms));
    f.set_all(false);
    assert!(!f.get(FilterGroup::OtherMisc));
    f.toggle(FilterGroup::OtherMisc);
    assert!(f.get(FilterGroup::OtherMisc));
}

#[test]
fn categories_classify() {
    assert_eq!(classify_kenney("room"), FilterGroup::KenneyRooms);
    assert_eq!(classify_kenney("corridor_wide"), FilterGroup::KenneyCorridors);
    assert_eq!(classify_kenney("template_floor"), FilterGroup::KenneyFloors);
    assert_eq!(classify_kenney("gate"), FilterGroup::KenneyDoors);
    assert_eq!(classify_kenney("props"), FilterGroup::KenneyMisc);
}

#[test]
fn filtered_stems_sorted_and_deduplicated() {
    let cat = catalog();
    let misc = strings(&["zeppelin", "cables", "barrel"]);
    let all = filtered_stems(&cat, &misc, &PieceFilters::default());
    assert_eq!(
        all,
        strings(&[
            "barrel", "cables", "corridor", "gate-door", "room-large", "stairs", "template-wall",
            "zeppelin"
        ])
    );
    let mut f = PieceFilters::default();
    f.set_all(false);
    f.set(FilterGroup::KenneyRooms, true);
    assert_eq!(filtered_stems(&cat, &misc, &f), strings(&["room-large"]));
    f.set(FilterGroup::OtherMisc, true);
    assert_eq!(filtered_stems(&cat, &misc, &f), strings(&["barrel", "cables", "room-large", "zeppelin"]));
}

#[test]
fn asset_paths() {
    let cat = catalog();
    assert_eq!(glb_asset_path(&cat, "corridor"), "models/space/corridor.glb");
    assert_eq!(glb_asset_path(&cat, "barrel"), "models/space/barrel.glb");
    assert_eq!(glb_asset_path_in_kit(&cat, "wall", "factions/synth"), "models/factions/synth/wall.glb");
    let p = PieceRecord {
        stem: "chair".to_string(),
        x_mm: 0,
        z_mm: 0,
        yaw_urad: 0,
        floor_level: 0,
        scale_milli: 1000,
        tint_milli: None,
        group_id: None,
        ceiling: false,
        underside: false,
        kit: Some("factions/synth".to_string()),
        tags: vec![],
        zone: None,
    };
    assert_eq!(glb_asset_path_for_piece(&cat, &p), "models/factions/synth/chair.glb");
}

#[test]
fn grid_size_and_edge_anchor() {
    let cat = catalog();
    assert_eq!(piece_grid_size(&cat, "room-large"), (3, 3));
    assert_eq!(piece_grid_size(&cat, "stairs"), (1, 2));
    assert_eq!(piece_grid_size(&cat, "unknown"), (1, 1));
    assert!(uses_edge_anchor(&cat, "template-wall"));
    assert!(uses_edge_anchor(&cat, "gate-door"));
    assert!(!uses_edge_anchor(&cat, "room-large"));
    assert!(!uses_edge_anchor(&cat, "unknown"));
}

#[test]
fn pools_cycle_and_list() {
    let pools = list_pools(&strings(&["zeta", "alpha", "default", "alpha"]));
    assert_eq!(pools, strings(&["alpha", "default", "zeta"]));
    assert_eq!(cycle_pool(&pools, "alpha"), "default");
    assert_eq!(cycle_pool(&pools, "zeta"), "alpha");
    assert_eq!(cycle_pool(&pools, "missing"), "default");
    assert_eq!(
        list_gallery_pools(&pools, &vec![false, true, true]),
        strings(&["default", "zeta"])
    );
}

#[test]
fn module_and_dressing_names() {
    assert_eq!(suggest_module_name(&vec![]), "module_01");
    assert_eq!(suggest_module_name(&strings(&["module_01", "module_02"])), "module_03");
    let taken: Vec<String> = (1..12).map(|i| format!("module_{i:02}")).collect();
    assert_eq!(suggest_module_name(&taken), "module_12");
    assert_eq!(suggest_dressing_name(&vec![]), "bunk");
    assert_eq!(suggest_dressing_name(&strings(&["bunk", "lab"])), "mess");
    let all = strings(&["bunk", "lab", "mess", "storage", "command", "corridor_alcove", "vignette", "vignette_1"]);
    assert_eq!(suggest_dressing_name(&all), "vignette_2");
}

#[test]
fn misc_model_stems() {
    let names = strings(&["tree.glb", "cyberpunk_city.glb", "notes.txt", ".glb", "car.glb"]);
    assert_eq!(misc_stems(&names), strings(&["car", "tree"]));
}

#[test]
fn synth_stem_predicates() {
    assert!(is_synth_wall_decal("wall-switch"));
    assert!(!is_synth_wall_decal("wall"));
    assert!(is_synth_structure_wall("wall-door"));
    assert!(!is_synth_structure_wall("wall-detail"));
    assert!(is_synth_balcony_stem("balcony-rail"));
    assert!(is_synth_balcony_stem("rail-narrow"));
    assert!(!is_synth_balcony_stem("railing"));
    assert!(is_synth_deck_occluder_stem("balcony-floor-corner"));
    assert!(is_synth_substrate_glb_stem("floor-panel-end"));
    assert!(is_synth_substrate_glb_stem("stairs-ramp"));
    assert!(!is_synth_substrate_glb_stem("floor-hole"));
    assert!(is_synth_deck_prop_stem("table-inset-small"));
    assert!(!is_synth_deck_prop_stem("rail"));
    assert!(is_synth_rail_stem("balcony-rail-corner"));
    assert!(!is_synth_rail_stem("balcony-floor"));
    assert!(is_synth_chair_stem("chair-headrest"));
}

#[test]
fn dressing_lists() {
    assert_eq!(synth_stems_for_category(DressingCatFilter::WallDecal).len(), 4);
    assert!(synth_stems_for_category(DressingCatFilter::All).is_empty());
    let all = synth_dressing_stems();
    assert_eq!(all.len(), 17 + 9 + 4 + 26 + 8);
    assert_eq!(all[0], "floor");
    assert_eq!(all[all.len() - 1], "rail-narrow");
    assert_eq!(synth_dressing_stems_filtered(DressingCatFilter::All), all);
    assert_eq!(
        synth_dressing_stems_filtered(DressingCatFilter::Balcony)[6],
        "rail"
    );
}

#[test]
fn dressing_heights() {
    assert_eq!(synth_dressing_default_y_mm("floor"), 0);
    assert_eq!(synth_dressing_default_y_mm("stairs-corner"), 0);
    assert_eq!(synth_dressing_default_y_mm("balcony-floor"), 600);
    assert_eq!(synth_dressing_default_y_mm("chair"), 1200);
}

#[test]
fn legacy_dressing_pieces_get_kit_and_scale() {
    let mut p = PieceRecord {
        stem: "chair".to_string(),
        x_mm: 1,
        z_mm: 2,
        yaw_urad: 0,
        floor_level: 0,
        scale_milli: 0,
        tint_milli: None,
        group_id: None,
        ceiling: false,
        underside: false,
        kit: None,
        tags: vec![],
        zone: None,
    };
    fabled::catalog::normalize_synth_dressing_piece(&mut p);
    assert_eq!(p.kit.as_deref(), Some("factions/synth"));
    assert_eq!(p.scale_milli, 4000);
    let mut q = p.clone();
    q.kit = Some("space".to_string());
    q.scale_milli = 1500;
    fabled::catalog::normalize_synth_dressing_piece(&mut q);
    assert_eq!((q.kit.as_deref(), q.scale_milli), (Some("space"), 1500));
}
