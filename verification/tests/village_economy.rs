use fabled::clock::SimClock;
use fabled::economy::Ledger;
use fabled::genome::Genome;
use fabled::professions::{
    buy_ale, buy_meal, complete_work_hour, fiscal_day, founding_roster, meal_option, tavern_restock,
    AleVisit, DailyStats, FiscalEvent, Market, MealSource, PlaceKind, Profession, Roster,
};
use fabled::weather::{no_weather, roll_weather, SimRng};

fn village() -> (Ledger, Roster) {
    let mut ledger = Ledger::new();
    let mut roster = Roster::new();
    for (name, job) in founding_roster() {
        ledger.set_balance(name, 60);
        roster.assign(job, name);
    }
    ledger.set_treasury(500);
    (ledger, roster)
}

#[test]
fn clock_reads_day_and_time() {
    let c = SimClock { tick: 2 * 1440 + 14 * 60 + 25 };
    assert_eq!(c.day(), 3);
    assert_eq!(c.hour(), 14);
    assert_eq!(c.minute(), 25);
    assert_eq!(c.stamp(), "d003 14:25");
    assert_eq!(SimClock { tick: 0 }.stamp(), "d001 00:00");
    let mut c = SimClock { tick: 1439 };
    c.advance();
    assert_eq!((c.day(), c.minute_of_day()), (2, 0));
}

#[test]
fn jobs_and_places() {
    assert_eq!(Profession::TavernKeeper.name(), "tavern_keeper");
    assert!(Profession::Guard.on_shift(23));
    assert!(Profession::Guard.on_shift(1));
    assert!(!Profession::Guard.on_shift(2));
    assert!(!Profession::Elder.on_shift(10));
    assert_eq!(Profession::Mayor.workplace(), PlaceKind::Square);
    assert!(Profession::Fisher.outdoors());
    assert!(PlaceKind::Dock.outdoors());
    assert!(!PlaceKind::Tavern.outdoors());
    assert_eq!(MealSource::Tavern.label(), "supper");
}

#[test]
fn meals_follow_the_purse_and_the_hour() {
    let (_, roster) = village();
    let g = Genome::baseline();
    let m = Market::default();
    // Producers eat their own stock for free.
    assert!(matches!(meal_option(Profession::Baker, 40, 8, 0, &m, &roster, &g), Some((MealSource::Bakery, 0))));
    // Evening and a comfortable purse: supper at the tavern.
    assert!(matches!(meal_option(Profession::Guard, 40, 18, 60, &m, &roster, &g), Some((MealSource::Tavern, 15))));
    // Daytime: cheapest stocked option, fish first.
    assert!(matches!(meal_option(Profession::Guard, 40, 12, 60, &m, &roster, &g), Some((MealSource::FishStall, 6))));
    // Broke: nothing.
    assert!(meal_option(Profession::Guard, 40, 12, 3, &m, &roster, &g).is_none());
}

#[test]
fn a_meal_moves_money_and_stock() {
    let (mut ledger, roster) = village();
    let mut m = Market::default();
    let mut stats = DailyStats::default();
    let sale = buy_meal("Frida", MealSource::Tavern, 15, &mut m, &mut ledger, &roster, &mut stats).unwrap();
    assert_eq!(sale.seller, "Edwin");
    assert_eq!(sale.good, "supper");
    assert_eq!(ledger.balance("Frida"), 45);
    assert_eq!(ledger.balance("Edwin"), 75);
    assert_eq!(m.tavern_bread, 1);
    assert_eq!(stats.suppers, 1);
    assert_eq!(ledger.total(), 980);
}

#[test]
fn ale_for_the_thirsty() {
    let (mut ledger, roster) = village();
    let g = Genome::baseline();
    let mut m = Market::default();
    let mut stats = DailyStats::default();
    assert!(matches!(buy_ale("Edwin", Profession::TavernKeeper, 0, 60, &mut m, &mut ledger, &roster, &g, &mut stats), AleVisit::OwnStock));
    assert!(matches!(buy_ale("Cole", Profession::Fisher, 60, 60, &mut m, &mut ledger, &roster, &g, &mut stats), AleVisit::NoAle));
    assert!(matches!(buy_ale("Cole", Profession::Fisher, 10, 60, &mut m, &mut ledger, &roster, &g, &mut stats), AleVisit::Bought(_)));
    assert_eq!(m.tavern_ale, 4);
    assert_eq!(stats.ales_sold, 1);
    assert_eq!(ledger.balance("Edwin"), 68);
}

#[test]
fn work_hours_produce_and_pay() {
    let (mut ledger, roster) = village();
    let g = Genome::baseline();
    let mut m = Market::default();
    let mut stats = DailyStats::default();
    let mut rng = SimRng::from_seed(7);
    let r = complete_work_hour("Berta", Profession::Farmhand, &mut m, &mut ledger, &roster, &g, &mut rng, false, &mut stats);
    assert_eq!(r.wage, Some(("Aldric".to_string(), true)));
    assert_eq!(m.farm_grain, 14);
    assert_eq!(ledger.balance("Berta"), 65);
    let r = complete_work_hour("Cole", Profession::Fisher, &mut m, &mut ledger, &roster, &g, &mut rng, false, &mut stats);
    assert!(r.caught == 2 || r.caught == 3);
    assert_eq!(m.stall_fish, 4 + r.caught);
    let r = complete_work_hour("Cole", Profession::Fisher, &mut m, &mut ledger, &roster, &g, &mut rng, true, &mut stats);
    assert_eq!(r.caught, 0);
    // The baker holds 4 grain, needs 8: buys 4 for 8 coins, bakes 4 loaves.
    let r = complete_work_hour("Dagny", Profession::Baker, &mut m, &mut ledger, &roster, &g, &mut rng, false, &mut stats);
    assert_eq!(r.grain_bought.as_ref().map(|p| (p.price, p.good.as_str())), Some((8, "grain x4")));
    assert_eq!(r.baked, 4);
    assert_eq!((m.bakery_grain, m.bakery_bread, m.farm_grain), (0, 12, 10));
    assert_eq!(ledger.total(), 980);
}

#[test]
fn restock_keeps_the_reserve() {
    let (mut ledger, roster) = village();
    let g = Genome::baseline();
    let mut m = Market::default();
    assert!(tavern_restock(599, &g, &mut m, &mut ledger, &roster).is_empty());
    let sales = tavern_restock(600, &g, &mut m, &mut ledger, &roster);
    // 40 spendable: 6 grain for ale (12c), 1 fish (4c), 1 bread (5c).
    assert_eq!(sales.len(), 3);
    assert_eq!((m.tavern_ale, m.tavern_fish, m.tavern_bread), (12, 3, 3));
    assert_eq!(ledger.balance("Edwin"), 60 - 12 - 4 - 5);
    assert_eq!(ledger.total(), 980);
}

#[test]
fn fiscal_day_taxes_and_pays() {
    let (mut ledger, _) = village();
    let g = Genome::baseline();
    let npcs: Vec<(String, Profession)> = founding_roster()
        .into_iter()
        .map(|(n, p)| (n.to_string(), p))
        .collect();
    assert!(fiscal_day(0, &g, &mut ledger, &npcs).is_empty());
    let events = fiscal_day(9 * 60, &g, &mut ledger, &npcs);
    // 60 coins: poll tax 5 plus (60 - 50) / 10 = 1.
    assert_eq!(ledger.balance("Aldric"), 54);
    assert_eq!(ledger.balance("Frida"), 54 + 35);
    assert_eq!(ledger.balance("Hilda"), 54 + 24);
    assert_eq!(events.len(), 3);
    assert!(matches!(&events[0], FiscalEvent::SalaryPaid { amount: 35, .. }));
    assert_eq!(ledger.total(), 980);
}

#[test]
fn weather_rolls_in_range() {
    let mut rng = SimRng::from_seed(42);
    let mut w = no_weather();
    for _ in 0..50 {
        roll_weather(&mut rng, &mut w);
        assert!(["clear", "overcast", "rain", "windy", "fog"].contains(&w.kind.as_str()));
        assert!((-5..28).contains(&w.temp_c));
    }
}

#[test]
fn same_seed_same_weather_sequence() {
    let roll = |seed: u64| {
        let mut rng = SimRng::from_seed(seed);
        let mut w = no_weather();
        let mut seq = Vec::new();
        for _ in 0..20 {
            roll_weather(&mut rng, &mut w);
            seq.push((w.kind.clone(), w.temp_c));
        }
        seq
    };
    assert_eq!(roll(1234), roll(1234));
    assert_ne!(roll(1234), roll(4321));
}

#[test]
fn a_new_day_resets_daily_counters_only() {
    let mut stats = fabled::professions::DailyStats::default();
    stats.meals = 4;
    stats.ales_sold = 2;
    stats.total_meals = 40;
    stats.total_starving_episodes = 3;
    fabled::professions::start_new_day(&mut stats);
    assert_eq!((stats.meals, stats.ales_sold), (0, 0));
    assert_eq!((stats.total_meals, stats.total_starving_episodes), (40, 3));
}

#[test]
fn fiscal_day_taxes_then_pays_in_roster_order() {
    let genome = Genome::baseline();
    let mut ledger = Ledger::new();
    ledger.set_balance("Rich", 100);
    ledger.set_balance("Poor", 3);
    ledger.set_balance("Guard", 0);
    ledger.set_balance("Mayor", 0);
    ledger.set_treasury(30);
    let npcs = vec![
        ("Rich".to_string(), Profession::Farmer),
        ("Poor".to_string(), Profession::Fisher),
        ("Guard".to_string(), Profession::Guard),
        ("Mayor".to_string(), Profession::Mayor),
    ];
    let events = fiscal_day(9 * 60, &genome, &mut ledger, &npcs);
    // Rich pays 5 + (100 - 50) / 10 = 10; Poor pays all 3 of the 5 owed;
    // Guard and Mayor owe 5 each and have nothing.
    assert_eq!(ledger.balance("Rich"), 90);
    assert_eq!(ledger.balance("Poor"), 0);
    // Treasury 30 + 13 = 43: the guard's 35 is paid, the mayor's 40 is not.
    assert_eq!(ledger.balance("Guard"), 35);
    assert_eq!(ledger.balance("Mayor"), 0);
    assert_eq!(ledger.treasury(), 8);
    let kinds: Vec<String> = events
        .iter()
        .map(|e| match e {
            FiscalEvent::UnpaidTax { npc, owed } => format!("unpaid tax {npc} {owed}"),
            FiscalEvent::SalaryPaid { npc, amount } => format!("salary {npc} {amount}"),
            FiscalEvent::UnpaidSalary { npc } => format!("unpaid salary {npc}"),
        })
        .collect();
    assert_eq!(
        kinds,
        vec!["unpaid tax Poor 2", "unpaid tax Guard 5", "unpaid tax Mayor 5", "salary Guard 35", "unpaid salary Mayor"]
    );
}

#[test]
fn a_founded_village_steps_without_losing_money() {
    let mut v = fabled::village::Village::found(42, Genome::baseline());
    assert_eq!(v.villagers.len(), 8);
    assert_eq!(v.ledger.treasury(), fabled::village::TREASURY_START);
    for (name, job) in &v.villagers {
        assert_eq!(v.ledger.balance(name), fabled::village::STARTING_PURSE);
        assert_eq!(v.roster.holder(*job), Some(name.as_str()));
    }
    assert_eq!(v.market, Market::default());
    assert_eq!(v.stats, DailyStats::default());
    let total = v.ledger.total();
    let mut work_reports = 0;
    let mut day_ends = 0;
    let mut fiscal_minutes = 0;
    let mut restocks = 0;
    for _ in 0..(2 * 1440) {
        let treasury = v.ledger.treasury();
        let report = v.step().expect("room to step");
        if report.day_ended.is_some() {
            day_ends += 1;
        }
        if v.clock.minute_of_day() == 9 * 60 {
            fiscal_minutes += 1;
            assert_ne!(v.ledger.treasury(), treasury);
        } else {
            assert!(report.fiscal.is_empty());
            assert_eq!(v.ledger.treasury(), treasury);
        }
        if !report.purchases.is_empty() {
            assert_eq!(v.clock.minute_of_day(), 10 * 60);
            restocks += 1;
        }
        if v.clock.minute() == 0 {
            let hour = v.clock.hour();
            for i in 0..v.villagers.len() {
                if v.villagers[i].1.on_shift(hour) {
                    v.work_hour(i).expect("room to work");
                    work_reports += 1;
                }
            }
        }
        assert!(v.settle().is_none());
        assert_eq!(v.ledger.total(), total);
    }
    assert_eq!(v.clock.tick, 2 * 1440);
    assert_eq!(day_ends, 2);
    assert_eq!(fiscal_minutes, 2);
    assert!(restocks > 0);
    assert!(work_reports > 0);
}

#[test]
fn a_villager_eats_drinks_and_is_buried() {
    let mut v = fabled::village::Village::found(7, Genome::baseline());
    // Frida the guard, at noon on the first day.
    while v.clock.hour() < 12 {
        v.step().expect("room to step");
    }
    let frida = v.villagers.iter().position(|(n, _)| n == "Frida").unwrap();
    let purse = v.ledger.balance("Frida");
    let (source, price) = v.meal_option(frida, 40).expect("a meal to be had");
    assert!(v.market.has_meal(source));
    let sale = v.buy_meal(frida, source, price).expect("room").expect("sold");
    assert_eq!(sale.buyer, "Frida");
    assert_eq!(v.ledger.balance("Frida"), purse - price);
    v.count_meal().expect("room");
    assert_eq!(v.stats.meals, 1);
    let total = v.ledger.total();
    let treasury = v.ledger.treasury();
    let estate = v.bury(frida);
    assert_eq!(estate, purse - price);
    assert_eq!(v.ledger.treasury(), treasury + estate);
    assert_eq!(v.ledger.total(), total);
    assert_eq!(v.villagers.len(), 7);
    assert_eq!(v.roster.holder(Profession::Guard), None);
    // Evening: an ale for the farmer.
    while v.clock.hour() < 18 {
        v.step().expect("room to step");
    }
    let aldric = v.villagers.iter().position(|(n, _)| n == "Aldric").unwrap();
    let before = v.ledger.balance("Aldric");
    match v.buy_ale(aldric, 0).expect("room") {
        AleVisit::Bought(p) => {
            assert_eq!(p.seller, "Edwin");
            assert_eq!(v.ledger.balance("Aldric"), before - p.price);
        }
        other => panic!("expected a bought ale, got {other:?}"),
    }
}
