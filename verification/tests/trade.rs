use fabled::items::{
    by_id, drop_slot, heal_amount, is_map, map_holder_rules, nearest_trader, npc_trade, pick_up, sell_price, stock_for,
    trade_buy, trade_sell, Item, PickupOutcome, ARMOR, BANDAGE, CREDITS, FLASHLIGHT, MAP,
};
use fabled::run::{new_run, stretch_graph};

#[test]
fn catalogue_items() {
    let f = by_id(FLASHLIGHT).unwrap();
    assert_eq!(f.name, "Flashlight");
    assert_eq!((f.weight_g, f.value), (800, 25));
    assert!(by_id(99).is_none());
    assert_eq!(sell_price(&f), 12);
    let bag = by_id(15).unwrap();
    assert_eq!(sell_price(&bag), 1);
    assert_eq!(heal_amount(&by_id(BANDAGE).unwrap()), Some(30));
    assert!(is_map(&by_id(MAP).unwrap()));
    assert_eq!(stock_for(true), vec![(BANDAGE, 6, "Bandage")]);
    assert_eq!(stock_for(false)[4], (ARMOR, 60, "Body Armor"));
}

#[test]
fn nearest_trader_in_range() {
    assert_eq!(nearest_trader(&vec![]), None);
    assert_eq!(nearest_trader(&vec![(5_000, true)]), None);
    assert_eq!(nearest_trader(&vec![(4_000, true), (1_000, false), (1_000, true)]), Some(false));
}

#[test]
fn buying_and_selling() {
    let g = stretch_graph();
    let mut run = new_run(&g, 1);
    run.credits = 25;
    let mut inv: Vec<Option<Item>> = vec![None, None];
    // Hub trader entry 5 is the sector map for 20.
    assert!(trade_buy(&mut run, &mut inv, false, "ana", 5));
    assert_eq!(run.credits, 5);
    assert_eq!(run.map_holder.as_deref(), Some("ana"));
    assert_eq!(inv[0].as_ref().map(|i| i.id), Some(MAP));
    assert!(!trade_buy(&mut run, &mut inv, false, "ana", 0));
    run.credits = 100;
    assert!(!trade_buy(&mut run, &mut inv, false, "bo", 5));
    assert!(trade_sell(&mut run, &mut inv, "ana", 0));
    assert_eq!(run.credits, 120);
    assert_eq!(run.map_holder, None);
    assert!(inv[0].is_none());
    assert!(!trade_sell(&mut run, &mut inv, "ana", 0));
    assert!(!trade_sell(&mut run, &mut inv, "ana", 7));
}

#[test]
fn trade_with_full_inventory_only_sells() {
    let g = stretch_graph();
    let mut run = new_run(&g, 1);
    run.credits = 50;
    let mut inv = vec![by_id(ARMOR)];
    assert!(npc_trade(&mut run, &mut inv, true, "cy", Some(0), Some(0)));
    assert_eq!(run.credits, 75);
    assert!(inv[0].is_none());
    assert!(!npc_trade(&mut run, &mut inv, true, "cy", None, None));
}

#[test]
fn picking_up_items_credits_and_the_map() {
    let g = stretch_graph();
    let mut run = new_run(&g, 1);
    let mut inv: Vec<Option<Item>> = vec![None, None];
    let coins = Item { id: CREDITS, name: "Credits".to_string(), weight_g: 0, value: 15 };
    assert!(matches!(pick_up(&mut run, &mut inv, coins, "ana"), PickupOutcome::Credits));
    assert_eq!(run.credits, 15);
    assert!(inv.iter().all(|s| s.is_none()));

    assert!(matches!(pick_up(&mut run, &mut inv, by_id(MAP).unwrap(), "ana"), PickupOutcome::Stored(0)));
    assert_eq!(run.map_holder.as_deref(), Some("ana"));
    // A second map is refused to anyone else while ana carries one.
    match pick_up(&mut run, &mut inv, by_id(MAP).unwrap(), "bo") {
        PickupOutcome::MapHeldByOther(item) => assert_eq!(item.id, MAP),
        other => panic!("unexpected {other:?}"),
    }
    assert!(matches!(pick_up(&mut run, &mut inv, by_id(FLASHLIGHT).unwrap(), "ana"), PickupOutcome::Stored(1)));
    match pick_up(&mut run, &mut inv, by_id(BANDAGE).unwrap(), "ana") {
        PickupOutcome::InventoryFull(item) => assert_eq!(item.id, BANDAGE),
        other => panic!("unexpected {other:?}"),
    }
}

#[test]
fn dropping_the_map_frees_it() {
    let g = stretch_graph();
    let mut run = new_run(&g, 1);
    let mut inv: Vec<Option<Item>> = vec![by_id(FLASHLIGHT), by_id(MAP)];
    run.map_holder = Some("ana".to_string());
    assert!(drop_slot(&mut run, &mut inv, 7, "ana").is_none());
    assert_eq!(drop_slot(&mut run, &mut inv, 0, "ana").map(|i| i.id), Some(FLASHLIGHT));
    assert_eq!(run.map_holder.as_deref(), Some("ana"));
    assert!(drop_slot(&mut run, &mut inv, 0, "ana").is_none());
    assert_eq!(drop_slot(&mut run, &mut inv, 1, "ana").map(|i| i.id), Some(MAP));
    assert_eq!(run.map_holder, None);
    assert!(inv.iter().all(|s| s.is_none()));
}

#[test]
fn stale_map_carrier_is_forgotten() {
    let g = stretch_graph();
    let mut run = new_run(&g, 1);
    run.map_holder = Some("ana".to_string());
    let players = vec![("ana".to_string(), vec![by_id(MAP), None]), ("bo".to_string(), vec![None])];
    map_holder_rules(&mut run, &players);
    assert_eq!(run.map_holder.as_deref(), Some("ana"));
    let players = vec![("ana".to_string(), vec![by_id(FLASHLIGHT)]), ("bo".to_string(), vec![by_id(MAP)])];
    map_holder_rules(&mut run, &players);
    assert_eq!(run.map_holder, None);
}
