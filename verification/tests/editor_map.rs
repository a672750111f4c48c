use fabled::editor::{
    maps_dir, pool_dir, sanitize_filename, timestamp_name, ActiveDocKind, ActiveDocument,
    DisplayMode, EditorTool, EditorWorkflow, FloorMask, GridSpec, SnapMode,
};

#[test]
fn save_locations() {
    assert_eq!(maps_dir("/game"), "/game/userinput/maps");
    assert_eq!(pool_dir("/game", "default"), "/game/userinput/modules/default");
    assert_eq!(
        ActiveDocument::module_snapshot_dir("/game", "alpha"),
        "/game/userinput/modules/alpha/_snapshots"
    );
    let doc = ActiveDocument { kind: ActiveDocKind::Module, path: None, dirty: false };
    assert_eq!(doc.branch_path_map("/game", 1700000000), "/game/userinput/maps/map_1700000000_branch.json");
    assert_eq!(doc.quicksave_path_map("/game", 7), "/game/userinput/maps/map_7.json");
    let open = ActiveDocument {
        kind: ActiveDocKind::MapFile,
        path: Some("/x/mine.json".to_string()),
        dirty: true,
    };
    assert_eq!(open.quicksave_path_map("/game", 7), "/x/mine.json");
}

#[test]
fn timestamps() {
    assert_eq!(timestamp_name(0), "map_0");
    assert_eq!(timestamp_name(1234567890), "map_1234567890");
}

#[test]
fn sanitized_names() {
    assert_eq!(sanitize_filename("my map!"), "my_map_");
    assert_eq!(sanitize_filename(""), "untitled");
    assert_eq!(sanitize_filename("ok-name_2"), "ok-name_2");
    assert_eq!(sanitize_filename("naïve"), "na_ve");
    let once = sanitize_filename("a/b c");
    assert_eq!(sanitize_filename(&once), once);
}

#[test]
fn mode_labels_and_cycles() {
    assert_eq!(EditorWorkflow::MapMaker.label(), "Map");
    assert_eq!(EditorTool::FloorRemove.label(), "Remove floor");
    assert_eq!(SnapMode::HalfCell.label(), "2 m snap");
    assert_eq!(SnapMode::FullCell.next(), SnapMode::HalfCell);
    assert_eq!(SnapMode::Free.next(), SnapMode::FullCell);
    assert_eq!(SnapMode::HalfCell.next().next().next(), SnapMode::HalfCell);
    assert_eq!(DisplayMode::Windowed.label(), "Windowed");
    assert_eq!(DisplayMode::BorderlessFullscreen.label(), "Borderless");
    assert_eq!(DisplayMode::Fullscreen.next(), DisplayMode::Windowed);
}

#[test]
fn grid_for_workflow() {
    let m = GridSpec::for_workflow(EditorWorkflow::ModuleMaker, 9, 9);
    assert_eq!((m.cells_x, m.cells_z), (5, 5));
    let g = GridSpec::for_workflow(EditorWorkflow::MapMaker, 3, 2);
    assert_eq!((g.cells_x, g.cells_z), (15, 10));
}

#[test]
fn floor_mask_read_after_write() {
    let mut mask = FloorMask::filled(5, 4);
    assert_eq!(mask.cells.len(), 20);
    assert!(mask.get(4, 3));
    assert!(!mask.get(5, 0));
    mask.set(2, 1, false);
    assert!(!mask.get(2, 1));
    assert!(mask.get(1, 2));
    mask.set(9, 9, false);
    assert_eq!(mask.cells.iter().filter(|c| !**c).count(), 1);
}
