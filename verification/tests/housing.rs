use fabled::house::{
    door_ok, open_cells, pay_for_rebuild, perimeter, plans_today, reachable_cells, structure_cost,
    HousePlan,
};
use fabled::clock::SimClock;
use fabled::economy::Ledger;

fn plan(blocked_cells: &[usize], door: usize) -> HousePlan {
    let mut blocked = [false; 16];
    for &c in blocked_cells {
        blocked[c] = true;
    }
    HousePlan { blocked, door }
}

#[test]
fn perimeter_cells() {
    assert!(perimeter(0));
    assert!(perimeter(7));
    assert!(!perimeter(5));
    assert!(!perimeter(10));
}

#[test]
fn open_house_is_fully_reachable() {
    let p = plan(&[], 0);
    assert_eq!(reachable_cells(&p), 16);
    assert_eq!(open_cells(&p), 16);
    assert_eq!(structure_cost(&p), 32);
    assert!(door_ok(&p));
}

#[test]
fn a_wall_cuts_off_a_room() {
    // Column 2 is a wall: cells 0,1,4,5,8,9,12,13 reachable from the door at 0.
    let p = plan(&[2, 6, 10, 14], 0);
    assert_eq!(reachable_cells(&p), 8);
    assert_eq!(open_cells(&p), 12);
    assert_eq!(structure_cost(&p), 12 * 2 + 4 * 3);
}

#[test]
fn a_boxed_in_door_reaches_only_itself() {
    let p = plan(&[1, 4], 0);
    assert_eq!(reachable_cells(&p), 1);
    let blocked_door = plan(&[0], 0);
    assert!(!door_ok(&blocked_door));
    assert!(!door_ok(&plan(&[], 5)));
}

#[test]
fn planning_days_and_payment() {
    // Day 7 at 14:00 with offset 0: (7 + 0) % 7 == 0.
    let c = SimClock { tick: 6 * 1440 + 14 * 60 };
    assert!(plans_today(&c, 0));
    assert!(!plans_today(&c, 1));
    let mut ledger = Ledger::new();
    ledger.set_balance("Aldric", 100);
    assert!(!pay_for_rebuild(&mut ledger, "Aldric", 31));
    assert!(pay_for_rebuild(&mut ledger, "Aldric", 30));
    assert_eq!(ledger.balance("Aldric"), 70);
    assert_eq!(ledger.treasury(), 30);
}
