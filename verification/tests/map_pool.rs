use fabled::kenney::{default_hub_exit_kind, default_modules as layout_default_modules, layout_path, LAYOUT_PATH};
use fabled::pool::{default_modules, hub_candidates, repo_relative, PointXz, PoolIndex, PoolMapEntry, POOL_INDEX_PATH};

fn entry(id: &str) -> PoolMapEntry {
    PoolMapEntry {
        id: id.to_string(),
        path: format!("pool/{id}.json"),
        spawn_mm: PointXz { x_mm: 0, z_mm: 0 },
        extraction_mm: None,
        modules_x: 5,
        modules_z: 5,
    }
}

fn pool(start: Option<&str>, ids: &[&str]) -> PoolIndex {
    PoolIndex { version: 1, modules: 5, start_id: start.map(str::to_string), maps: ids.iter().map(|i| entry(i)).collect() }
}

#[test]
fn start_id_prefers_declared_then_first() {
    assert_eq!(pool(Some("hub_b"), &["hub_a", "hub_b"]).start_id(), Some("hub_b"));
    assert_eq!(pool(None, &["hub_a", "hub_b"]).start_id(), Some("hub_a"));
    assert_eq!(pool(None, &[]).start_id(), None);
}

#[test]
fn entry_finds_first_match() {
    let p = pool(None, &["a", "b", "c"]);
    assert_eq!(p.entry("b").map(|e| e.path.as_str()), Some("pool/b.json"));
    assert!(p.entry("zz").is_none());
}

#[test]
fn unused_keeps_pool_order() {
    let p = pool(None, &["a", "b", "c", "d"]);
    let used = vec!["c".to_string(), "a".to_string()];
    let ids: Vec<&str> = p.unused(&used).iter().map(|e| e.id.as_str()).collect();
    assert_eq!(ids, vec!["b", "d"]);
}

#[test]
fn hub_candidates_take_three_unused_under_exits_3_4_2() {
    let p = pool(None, &["start", "m1", "m2", "m3", "m4"]);
    let used = vec!["m2".to_string()];
    let plan: Vec<(u8, &str)> = hub_candidates(&p, &used, "start").iter().map(|(x, e)| (*x, e.id.as_str())).collect();
    assert_eq!(plan, vec![(3, "m1"), (4, "m3"), (2, "m4")]);
    let few = pool(None, &["start", "m1"]);
    let plan: Vec<(u8, &str)> = hub_candidates(&few, &Vec::new(), "start").iter().map(|(x, e)| (*x, e.id.as_str())).collect();
    assert_eq!(plan, vec![(3, "m1")]);
    assert!(hub_candidates(&few, &vec!["m1".to_string()], "start").is_empty());
}

#[test]
fn paths_and_defaults() {
    assert_eq!(repo_relative("/repo", POOL_INDEX_PATH), "/repo/userinput/maps/pool/index.json");
    assert_eq!(layout_path("/repo"), format!("/repo/{LAYOUT_PATH}"));
    assert_eq!(default_modules(), 5);
    assert_eq!(layout_default_modules(), 3);
    assert_eq!(default_hub_exit_kind(), "drop");
}
