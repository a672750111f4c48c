use fabled::economy::Ledger;

fn village() -> Ledger {
    let mut l = Ledger::new();
    l.set_balance("Aldric", 60);
    l.set_balance("Berta", 60);
    l.set_treasury(500);
    l
}

#[test]
fn transfer_moves_money_and_conserves_total() {
    let mut l = village();
    assert_eq!(l.total(), 620);
    assert!(l.transfer("Aldric", "Berta", 25));
    assert_eq!(l.balance("Aldric"), 35);
    assert_eq!(l.balance("Berta"), 85);
    assert!(!l.transfer("Aldric", "Berta", 36));
    assert_eq!(l.balance("Aldric"), 35);
    assert_eq!(l.total(), 620);
}

#[test]
fn transfer_opens_a_purse_for_a_new_payee() {
    let mut l = village();
    assert!(l.transfer("Berta", "Cole", 10));
    assert_eq!(l.balance("Cole"), 10);
    assert_eq!(l.len(), 3);
}

#[test]
fn tax_never_overdraws() {
    let mut l = village();
    assert_eq!(l.collect_tax("Aldric", 5), 5);
    assert_eq!(l.collect_tax("Aldric", 100), 55);
    assert_eq!(l.balance("Aldric"), 0);
    assert_eq!(l.collect_tax("Nobody", 5), 0);
    assert_eq!(l.treasury(), 560);
    assert_eq!(l.total(), 620);
}

#[test]
fn treasury_pays_only_what_it_has() {
    let mut l = village();
    assert!(l.pay_from_treasury("Berta", 40));
    assert_eq!(l.treasury(), 460);
    assert!(!l.pay_from_treasury("Berta", 461));
    assert_eq!(l.balance("Berta"), 100);
}

#[test]
fn inheritance_goes_to_the_treasury() {
    let mut l = village();
    assert_eq!(l.inherit("Aldric"), 60);
    assert_eq!(l.balance("Aldric"), 0);
    assert_eq!(l.treasury(), 560);
    assert_eq!(l.inherit("Aldric"), 0);
    assert_eq!(l.total(), 620);
}

#[test]
fn conservation_reports_first_violation_once() {
    let mut l = village();
    assert_eq!(l.conservation_check(), None);
    assert!(l.transfer("Aldric", "Berta", 5));
    assert_eq!(l.conservation_check(), None);
    l.set_balance("Berta", 0);
    assert_eq!(l.conservation_check(), Some((620, 555)));
    assert_eq!(l.conservation_check(), None);
}

#[test]
fn purses_in_name_order() {
    let l = village();
    assert_eq!(
        l.purses(),
        vec![("Aldric".to_string(), 60), ("Berta".to_string(), 60)]
    );
    let mut m = Ledger::new();
    m.set_balance("Zed", 1);
    m.set_balance("Anna", 2);
    m.set_balance("Mia", 3);
    assert_eq!(
        m.purses(),
        vec![("Anna".to_string(), 2), ("Mia".to_string(), 3), ("Zed".to_string(), 1)]
    );
}
