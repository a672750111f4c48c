use fabled::run::{
    build_routes, check_extraction, check_permadeath, depart, hub_shop_purchase, mix_seed,
    new_run, node, restart_run, select_route, shop_stock, stretch_graph, CampKind, RouteChoice,
    RunPhase, ShopOutcome, FLASHLIGHT, MAP_ITEM, PIPE_BAT,
};

#[test]
fn camp_names() {
    assert_eq!(CampKind::MedBay.name(), "medbay");
    assert_eq!(CampKind::Intel.label(), "Intel Post");
    assert_eq!(CampKind::Workshop.label(), "Workshop");
}

#[test]
fn graph_and_routes() {
    let g = stretch_graph();
    assert_eq!(g.len(), 6);
    assert_eq!(g[0].id, "sewer_entry");
    let medbay = node(&g, "hub_medbay").unwrap();
    let routes = build_routes(&g, medbay);
    assert_eq!(routes.len(), 3);
    assert_eq!(routes[0].target_id, "sewer_branch_a");
    assert_eq!(routes[0].label, "Subway spur (east) → Subway Spur A");
    assert_eq!(routes[0].camp, CampKind::Armory);
    assert_eq!(routes[2].cost, 10);
    assert_eq!(node(&g, "nowhere"), None);
}

#[test]
fn shop_stock_per_camp() {
    let med = shop_stock(CampKind::MedBay);
    let ids: Vec<(u32, u32)> = med.iter().map(|o| (o.item_id, o.cost)).collect();
    assert_eq!(ids, vec![(FLASHLIGHT, 12), (PIPE_BAT, 10), (FLASHLIGHT, 8), (MAP_ITEM, 20)]);
    let intel = shop_stock(CampKind::Intel);
    assert_eq!(intel.len(), 3);
    assert_eq!(intel[2].name, "Sector Map");
    assert_eq!(intel[2].cost, 12);
}

#[test]
fn extraction_enters_the_hub() {
    let g = stretch_graph();
    let mut run = new_run(&g, 7);
    assert_eq!(run.phase, RunPhase::InStretch);
    assert!(!check_extraction(&mut run, &g, true, &vec![true, false], &vec![false, false]));
    assert!(!check_extraction(&mut run, &g, true, &vec![false, false], &vec![true, true]));
    assert!(check_extraction(&mut run, &g, true, &vec![true, false], &vec![true, false]));
    assert_eq!(run.phase, RunPhase::InHub);
    assert_eq!(run.hub_id.as_deref(), Some("hub_medbay"));
    assert_eq!(run.route_options.len(), 3);
    assert_eq!(run.level_id, "sewer_entry");
}

#[test]
fn shopping_and_the_single_map() {
    let g = stretch_graph();
    let mut run = new_run(&g, 1);
    check_extraction(&mut run, &g, true, &vec![true], &vec![true]);
    run.credits = 30;
    let stock = shop_stock(CampKind::MedBay);
    assert_eq!(hub_shop_purchase(&mut run, &stock, 99, "ana", Some(0)), ShopOutcome::NotSold);
    assert_eq!(
        hub_shop_purchase(&mut run, &stock, MAP_ITEM, "ana", Some(1)),
        ShopOutcome::Bought { slot: 1, cost: 20 }
    );
    assert_eq!(run.credits, 10);
    assert_eq!(run.map_holder.as_deref(), Some("ana"));
    assert_eq!(hub_shop_purchase(&mut run, &stock, MAP_ITEM, "bo", Some(0)), ShopOutcome::TooPoor);
    run.credits = 50;
    assert_eq!(hub_shop_purchase(&mut run, &stock, MAP_ITEM, "bo", Some(0)), ShopOutcome::MapTaken);
    assert_eq!(hub_shop_purchase(&mut run, &stock, FLASHLIGHT, "bo", None), ShopOutcome::NoFreeSlot);
    assert_eq!(run.credits, 50);
}

#[test]
fn route_selection_and_departure() {
    let g = stretch_graph();
    let mut run = new_run(&g, 1);
    assert!(matches!(select_route(&mut run, 0), RouteChoice::NotInHub));
    check_extraction(&mut run, &g, true, &vec![true], &vec![true]);
    assert!(matches!(select_route(&mut run, 9), RouteChoice::NoSuchRoute));
    run.credits = 4;
    assert!(matches!(select_route(&mut run, 0), RouteChoice::TooPoor { need: 5 }));
    run.credits = 12;
    let RouteChoice::Chosen(hub) = select_route(&mut run, 2) else { panic!("route") };
    assert_eq!(hub.target_id, "hub_intel");
    assert_eq!(run.credits, 2);
    depart(&mut run, &g, &hub.target_id, false);
    assert_eq!(run.phase, RunPhase::InHub);
    assert_eq!(run.hub_id.as_deref(), Some("hub_intel"));
    assert_eq!(run.route_options.len(), 2);
    depart(&mut run, &g, "sewer_branch_a", true);
    assert_eq!(run.phase, RunPhase::InStretch);
    assert_eq!(run.hub_id, None);
    assert_eq!(run.level_id, "sewer_branch_a");
}

#[test]
fn permadeath_and_restart() {
    let g = stretch_graph();
    let mut run = new_run(&g, 1);
    check_permadeath(&mut run, &vec![]);
    assert_eq!(run.phase, RunPhase::InStretch);
    check_permadeath(&mut run, &vec![false, true]);
    assert_eq!(run.phase, RunPhase::InStretch);
    assert!(!restart_run(&mut run, &g, 5));
    run.credits = 9;
    check_permadeath(&mut run, &vec![false, false]);
    assert_eq!(run.phase, RunPhase::RunOver);
    assert!(restart_run(&mut run, &g, 5));
    assert_eq!(run.phase, RunPhase::InStretch);
    assert_eq!(run.credits, 0);
    assert_eq!(run.run_seed, 5);
    assert_eq!(run.level_id, "sewer_entry");
}

#[test]
fn seed_mixing() {
    assert_eq!(mix_seed(0, 5), 5);
    assert_eq!(mix_seed(1, 0), 0x9e3779b97f4a7c15);
    assert_eq!(mix_seed(2, 1), 0x9e3779b97f4a7c15u64.wrapping_mul(2) ^ 1);
}

#[test]
fn runs_start_at_the_drop_shaft() {
    let graph = stretch_graph();
    let first = fabled::run::start_node(&graph);
    assert_eq!(first.id, "sewer_entry");
    assert_eq!(first.routes.len(), 1);
    assert_eq!(first.routes[0].target, "hub_medbay");
}
