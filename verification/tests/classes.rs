use fabled::classes::{class_def, class_loadout};
use fabled::items::{HACKER_DEVICE, MEDICAL_BAG, PIPE_BAT, SCRAP_PISTOL, TAGGER};
use fabled::run::ClassKind;

#[test]
fn class_capacities_and_kits() {
    let soldier = class_def(ClassKind::Soldier);
    assert_eq!((soldier.name, soldier.inventory_slots), ("Soldier", 4));
    assert_eq!(soldier.starting_items, vec![PIPE_BAT, SCRAP_PISTOL]);
    assert_eq!(class_def(ClassKind::Medic).starting_items, vec![MEDICAL_BAG]);
    assert_eq!(class_def(ClassKind::Scout).inventory_slots, 2);
    assert_eq!(class_def(ClassKind::Tech).starting_items, vec![HACKER_DEVICE]);
    assert_eq!(ClassKind::default(), ClassKind::Soldier);
}

#[test]
fn loadouts_fill_the_first_slots() {
    let inv = class_loadout(ClassKind::Soldier);
    let ids: Vec<Option<u32>> = inv.iter().map(|s| s.as_ref().map(|i| i.id)).collect();
    assert_eq!(ids, vec![Some(PIPE_BAT), Some(SCRAP_PISTOL), None, None]);
    let inv = class_loadout(ClassKind::Scout);
    assert_eq!(inv.len(), 2);
    assert_eq!(inv[0].as_ref().map(|i| (i.id, i.name.as_str())), Some((TAGGER, "Tagger")));
    assert!(inv[1].is_none());
}
