use fabled::level::{hub_enemy_count, open_role, OpenRole};
use std::collections::{HashMap, HashSet, VecDeque};

use fabled::level::{
    conn_compat, gen_grid, minimap_cells, module_defs, nb, opp_side, sewer_stretch, stretch_recipe, stretch_target, ConnType, PlacedCell, RoomKind, Rng,
};

fn as_map(cells: &[PlacedCell]) -> HashMap<(i32, i32), ([ConnType; 4], RoomKind)> {
    cells.iter().cloned().collect()
}

fn is_sewer(k: RoomKind) -> bool {
    matches!(k, RoomKind::SewerTunnel | RoomKind::SewerDouble | RoomKind::SewerCross)
}

#[test]
fn xorshift_stream_matches_reference_values() {
    let mut r = Rng::new(0);
    assert_eq!(r.0, 0x64f0eeb9026e6076);
    assert_eq!(r.next(), 0x7b07ce91e5906136);
    let mut r = Rng::new(42);
    assert_eq!(r.0, 0xc4fa4444fa6c62c9);
    assert_eq!(r.next(), 0xf014f70d3441284c);
    let mut one = Rng(1);
    assert_eq!(one.next(), 0x40822041);
}

#[test]
fn sides_and_neighbours() {
    assert_eq!(opp_side(0), 1);
    assert_eq!(opp_side(1), 0);
    assert_eq!(opp_side(2), 3);
    assert_eq!(opp_side(3), 2);
    assert_eq!(nb(0, 0, 0), (0, 1));
    assert_eq!(nb(0, 0, 1), (0, -1));
    assert_eq!(nb(0, 0, 2), (1, 0));
    assert_eq!(nb(0, 0, 3), (-1, 0));
    assert!(conn_compat(ConnType::Sewer, ConnType::Sewer));
    assert!(!conn_compat(ConnType::Door, ConnType::BigArch));
}

#[test]
fn module_table_has_all_templates() {
    let defs = module_defs();
    assert_eq!(defs.len(), 44);
    let total: u32 = defs.iter().map(|d| d.weight).sum();
    assert_eq!(total, 166);
    assert!(defs.iter().all(|d| d.ports.iter().filter(|p| **p != ConnType::Closed).count() >= 2));
}

#[test]
fn stretch_targets_grow_with_depth() {
    assert_eq!(stretch_target(0), 8);
    assert_eq!(stretch_target(1), 10);
    assert_eq!(stretch_target(2), 12);
    assert_eq!(stretch_target(7), 12);
}

#[test]
fn generated_labyrinths_are_consistent() {
    for seed in [0u64, 1, 7, 42, 1234, 0xdead_beef, u64::MAX] {
        for target in [8usize, 10, 12] {
            let (cells, extraction) = gen_grid(seed, target);
            let map = as_map(&cells);
            assert_eq!(map.len(), cells.len(), "no duplicate cells");
            // Sorted by (gz, gx), inside the 5x5 grid, start present.
            for w in cells.windows(2) {
                assert!((w[0].0 .1, w[0].0 .0) < (w[1].0 .1, w[1].0 .0));
            }
            assert!(cells.iter().all(|((x, z), _)| x.abs() <= 2 && z.abs() <= 2));
            assert!(map.contains_key(&(0, 0)));
            // Every open side faces the same opening.
            for ((x, z), (ports, _)) in &cells {
                for s in 0..4 {
                    if ports[s] != ConnType::Closed {
                        let n = nb(*x, *z, s);
                        let other = map.get(&n).expect("open side leads to a module");
                        assert_eq!(other.0[opp_side(s)], ports[s]);
                    }
                }
            }
            // Every module is reachable from the start.
            let mut seen = HashSet::from([(0, 0)]);
            let mut dist: HashMap<(i32, i32), usize> = HashMap::from([((0, 0), 0)]);
            let mut queue = VecDeque::from([(0, 0)]);
            while let Some((x, z)) = queue.pop_front() {
                let ports = map[&(x, z)].0;
                for s in 0..4 {
                    if ports[s] != ConnType::Closed {
                        let n = nb(x, z, s);
                        if seen.insert(n) {
                            dist.insert(n, dist[&(x, z)] + 1);
                            queue.push_back(n);
                        }
                    }
                }
            }
            assert_eq!(seen.len(), cells.len());
            // The extraction is a deepest module of the first non-empty tier.
            let dead = |c: &(i32, i32)| map[c].0.iter().filter(|p| **p != ConnType::Closed).count() == 1;
            let tiers: [Vec<(i32, i32)>; 3] = [
                map.keys().copied().filter(|c| *c != (0, 0) && dist[c] >= 4 && dead(c) && map[c].1 == RoomKind::Open).collect(),
                map.keys().copied().filter(|c| *c != (0, 0) && dist[c] >= 4 && dead(c)).collect(),
                map.keys().copied().filter(|c| *c != (0, 0)).collect(),
            ];
            let tier = tiers.iter().find(|t| !t.is_empty()).expect("a non-start module");
            assert!(tier.contains(&extraction));
            assert_eq!(dist[&extraction], tier.iter().map(|c| dist[c]).max().unwrap());
            // Joined sewer modules show matching channels.
            for ((x, z), (ports, kind)) in &cells {
                for s in 0..4 {
                    if ports[s] == ConnType::Sewer {
                        let (_, other) = map[&nb(*x, *z, s)];
                        if is_sewer(*kind) && is_sewer(other) {
                            match (*kind, other) {
                                (RoomKind::SewerCross, RoomKind::SewerCross) => {}
                                (RoomKind::SewerCross, o) | (o, RoomKind::SewerCross) => assert_eq!(o, RoomKind::SewerTunnel),
                                (a, b) => assert_eq!(a, b),
                            }
                        }
                    }
                }
            }
            // The extraction is a placed module other than the start.
            assert!(map.contains_key(&extraction));
            assert_ne!(extraction, (0, 0));
            // The first step always goes north through the start arch.
            assert_eq!(map[&(0, 0)].0[0], ConnType::BigArch);
            assert_eq!(map[&(0, 1)].0[1], ConnType::BigArch);
            // Same seed, same labyrinth.
            let again = gen_grid(seed, target);
            assert_eq!(again.1, extraction);
            assert_eq!(again.0.len(), cells.len());
            assert!(again.0.iter().zip(cells.iter()).all(|(a, b)| a.0 == b.0 && a.1 .0 == b.1 .0 && a.1 .1 == b.1 .1));
        }
    }
}

#[test]
fn minimap_marks_start_and_extraction_and_clamps_sides() {
    let cells: Vec<PlacedCell> = vec![
        ((0, 0), ([ConnType::BigArch, ConnType::Closed, ConnType::Door, ConnType::Closed], RoomKind::Open)),
        ((0, 1), ([ConnType::Closed, ConnType::BigArch, ConnType::Closed, ConnType::Closed], RoomKind::Open)),
    ];
    let map = minimap_cells(&cells, (0, 1));
    assert_eq!(map.len(), 2);
    assert!(map[0].is_start && !map[0].is_extraction);
    assert!(!map[1].is_start && map[1].is_extraction);
    // The door toward +X leads to no module and is drawn closed.
    assert_eq!(map[0].ports, [ConnType::BigArch, ConnType::Closed, ConnType::Closed, ConnType::Closed]);
    assert_eq!(map[1].ports, [ConnType::Closed, ConnType::BigArch, ConnType::Closed, ConnType::Closed]);
    assert_eq!((map[1].gx, map[1].gz), (0, 1));
}

#[test]
fn named_stretches_mix_the_run_seed() {
    assert_eq!(stretch_recipe("sewer_entry"), Some((0, 0)));
    assert_eq!(stretch_recipe("sewer_branch_a"), Some((0xABCD_1234_5678_0000, 1)));
    assert_eq!(stretch_recipe("sewer_branch_b"), Some((0x5678_FEDC_BA98_0000, 2)));
    assert_eq!(stretch_recipe("hub_medbay"), None);
}

#[test]
fn stretch_minimap_shows_the_generated_openings() {
    for (seed, depth) in [(3u64, 0u32), (99, 1), (0xFEED, 2)] {
        let (cells, extraction, map) = sewer_stretch(seed, depth);
        let (again, ex2) = gen_grid(seed, stretch_target(depth));
        assert_eq!(extraction, ex2);
        assert_eq!(cells.len(), again.len());
        assert_eq!(map.len(), cells.len());
        for (m, ((x, z), (ports, kind))) in map.iter().zip(cells.iter()) {
            assert_eq!((m.gx, m.gz), (*x, *z));
            assert_eq!(m.ports, *ports);
            assert_eq!(m.room, *kind);
            assert_eq!(m.is_start, (*x, *z) == (0, 0));
            assert_eq!(m.is_extraction, (*x, *z) == extraction);
        }
        assert_eq!(map.iter().filter(|m| m.is_extraction).count(), 1);
    }
}

#[test]
fn the_labyrinth_is_a_function_of_seed_and_target() {
    let a = gen_grid(1234, 10);
    let b = gen_grid(1234, 10);
    assert_eq!(a.0, b.0);
    assert_eq!(a.1, b.1);
    let differs = (0..8u64).any(|s| gen_grid(s, 10).0 != a.0);
    assert!(differs, "other seeds give other labyrinths");
    let (cells, extraction, _) = sewer_stretch(77, 2);
    let direct = gen_grid(77, stretch_target(2));
    assert_eq!(cells, direct.0);
    assert_eq!(extraction, direct.1);
}

#[test]
fn open_rooms_by_openings_and_hub_enemies() {
    assert_eq!(open_role(&[ConnType::BigArch, ConnType::Closed, ConnType::Closed, ConnType::Closed]), OpenRole::DeadEnd);
    assert_eq!(open_role(&[ConnType::BigArch, ConnType::Closed, ConnType::BigArch, ConnType::Closed]), OpenRole::Passage { corner: true });
    assert_eq!(open_role(&[ConnType::BigArch, ConnType::BigArch, ConnType::Closed, ConnType::Closed]), OpenRole::Passage { corner: false });
    assert_eq!(open_role(&[ConnType::BigArch, ConnType::BigArch, ConnType::BigArch, ConnType::Closed]), OpenRole::Hub);
    // One, plus one per two depth up to two, plus the next state's parity.
    for depth in [0u32, 1, 2, 3, 4, 9] {
        let mut rng = Rng::new(5);
        let mut probe = Rng::new(5);
        let parity = (probe.next() % 2) as usize;
        let n = hub_enemy_count(depth, &mut rng);
        assert_eq!(n, 1 + (depth as usize / 2).min(2) + parity);
        assert_eq!(rng.0, probe.0);
    }
}
