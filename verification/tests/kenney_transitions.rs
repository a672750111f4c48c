use fabled::kenney::{
    all_branch_gids, branch_gid, carves_floor, hub_l2_stair_up, is_room_shell, ModuleTile,
    StairUp, TrapDown, DEPTH_FLOOR_LEVEL, HUB_FLOOR_LEVEL,
};

#[test]
fn hub_stair_footprint_matches_legacy_offsets() {
    let stair = hub_l2_stair_up();
    let wx = 20;
    let wz = 40;
    let cells = stair.footprint_world(wx, wz);
    assert_eq!(cells[0], (24, 40));
    assert_eq!(cells[1], (20, 40));
    let holes = stair.floor_omit_world(wx, wz);
    assert_eq!(holes.len(), 4);
    assert!(holes.iter().any(|(f, x, z)| *f == DEPTH_FLOOR_LEVEL && *x == 20 && *z == 40));
    assert!(holes.iter().any(|(f, x, z)| *f == DEPTH_FLOOR_LEVEL && *x == 24 && *z == 40));
}

#[test]
fn stair_and_trap_keep_their_tiles() {
    let s = StairUp::new(ModuleTile::new(0, 1), ModuleTile::new(0, 2), 0, 1);
    assert_eq!(s.footprint(), [ModuleTile::new(0, 1), ModuleTile::new(0, 2)]);
    let t = TrapDown::new(ModuleTile::new(4, 4), -1, -2);
    assert_eq!(t.tile, ModuleTile { ix: 4, iz: 4 });
    assert_eq!((t.from_floor, t.to_floor), (-1, -2));
    let hub = hub_l2_stair_up();
    assert_eq!((hub.from_floor, hub.to_floor), (DEPTH_FLOOR_LEVEL, HUB_FLOOR_LEVEL));
}

#[test]
fn tile_offsets_from_module_centre() {
    assert_eq!(ModuleTile::new(2, 2).offset_m(), (0, 0));
    assert_eq!(ModuleTile::new(0, 4).offset_m(), (-8, 8));
    assert_eq!(ModuleTile::new(3, 2).world_xz(20, 40), (24, 40));
}

#[test]
fn branch_group_ids() {
    assert_eq!(branch_gid(2), Some(92));
    assert_eq!(branch_gid(3), Some(93));
    assert_eq!(branch_gid(4), Some(94));
    assert_eq!(branch_gid(1), None);
    assert_eq!(branch_gid(5), None);
    assert_eq!(all_branch_gids(), [92, 93, 94]);
}

#[test]
fn floor_carving_rules() {
    assert!(is_room_shell("room-large"));
    assert!(is_room_shell("room-wide-variation"));
    assert!(!is_room_shell("room-small"));
    assert!(carves_floor("room-large"));
    assert!(carves_floor("corridor-wide"));
    assert!(carves_floor("template-floor"));
    assert!(!carves_floor("template-floor-hole"));
    assert!(!carves_floor("template-wall"));
}
