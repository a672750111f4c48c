use fabled::items::{by_id, Item, DATA_SHARD, FLASHLIGHT};
use fabled::npc::{keeper_profile, profile_for, tech_hack, HACK_COOLDOWN_MS, HACK_REWARD_CREDITS};
use fabled::run::{new_run, stretch_graph, ClassKind};

#[test]
fn npc_profiles_are_stable_table_picks() {
    let p = profile_for(0, 0);
    assert_eq!(p.name, "Vex");
    assert_eq!(p.greeting, "Looking to trade, or just passing through?");
    assert!(!p.keeper);
    let p = profile_for(12, 10);
    assert_eq!(p.name, "Old Serj");
    assert_eq!(p.greeting, "Don't touch the pallet. Ask first.");
    assert_eq!(p.rumor, "The machines further down still run. Nobody remembers switching them on.");
    let k = keeper_profile(7, 5);
    assert_eq!(k.name, "Old Wick");
    assert_eq!(k.greeting, "You found the door. Few do. Sit — but keep your hands where I can see them.");
    assert_eq!(k.rumor, "Every hidden room connects, if you know the old maintenance codes. I've walked the whole ring.");
    assert!(k.keeper);
}

#[test]
fn tech_hack_pays_and_cools_down() {
    let g = stretch_graph();
    let mut run = new_run(&g, 1);
    let mut inv: Vec<Option<Item>> = vec![by_id(FLASHLIGHT), None];
    let mut cd = 0u32;
    // Only a living Tech that asked can hack.
    assert!(!tech_hack(&mut run, &mut inv, ClassKind::Soldier, true, true, &mut cd, 16));
    assert!(!tech_hack(&mut run, &mut inv, ClassKind::Tech, false, true, &mut cd, 16));
    assert!(tech_hack(&mut run, &mut inv, ClassKind::Tech, true, true, &mut cd, 16));
    assert_eq!(run.credits, HACK_REWARD_CREDITS);
    assert_eq!(cd, HACK_COOLDOWN_MS);
    assert_eq!(inv[1].as_ref().map(|i| i.id), Some(DATA_SHARD));
    // Cooling down: time passes, no second hack yet.
    assert!(!tech_hack(&mut run, &mut inv, ClassKind::Tech, true, true, &mut cd, 15_000));
    assert_eq!(cd, 5_000);
    // Full pack: the hack still pays, no shard.
    assert!(tech_hack(&mut run, &mut inv, ClassKind::Tech, true, true, &mut cd, 5_000));
    assert_eq!(run.credits, 2 * HACK_REWARD_CREDITS);
    assert_eq!(inv.iter().filter(|s| s.is_some()).count(), 2);
}
