use fabled::ai::{
    calm_mind, hear_alarm, hearing_radius_mm, marker, sense_radius_mm, think, tick_alert,
    AiMode, COMBAT_GRACE_MS, HIGH_ALERT_MS, SEARCH_MS, SUSPICIOUS_MS,
};

#[test]
fn hearing_tiers_ordered() {
    let sneak = hearing_radius_mm(true, false, true);
    let walk = hearing_radius_mm(true, false, false);
    let sprint = hearing_radius_mm(true, true, false);
    assert!(sneak < walk && walk < sprint, "{sneak} {walk} {sprint}");
    assert_eq!(hearing_radius_mm(false, true, false), 0, "still = silent");
}

#[test]
fn ai_mode_u8_roundtrip_values() {
    assert_eq!(AiMode::Patrol.as_u8(), 0);
    assert_eq!(AiMode::Suspicious.as_u8(), 1);
    assert_eq!(AiMode::Combat.as_u8(), 2);
    assert_eq!(AiMode::Search.as_u8(), 3);
    assert_eq!(AiMode::Cover.as_u8(), 4);
    for code in 0..5u8 {
        assert_eq!(AiMode::from_u8(code).unwrap().as_u8(), code);
    }
    assert_eq!(AiMode::from_u8(5), None);
}

#[test]
fn alert_boosts_senses() {
    assert_eq!(sense_radius_mm(22_000, false), 22_000);
    assert_eq!(sense_radius_mm(22_000, true), 29_700);
}

#[test]
fn patrol_hears_then_investigates_then_gives_up() {
    let mut m = calm_mind();
    assert!(!think(&mut m, 100, None, None));
    assert_eq!(m.mode, AiMode::Patrol);
    assert!(!think(&mut m, 100, None, Some((1_000, 0, 2_000))));
    assert_eq!(m.mode, AiMode::Suspicious);
    assert_eq!(m.mode_timer_ms, SUSPICIOUS_MS);
    assert_eq!(m.last_known, Some((1_000, 0, 2_000)));
    think(&mut m, 5_000, None, None);
    assert_eq!(m.mode, AiMode::Suspicious);
    think(&mut m, 1_000, None, None);
    assert_eq!(m.mode, AiMode::Patrol);
    assert_eq!(m.last_known, None);
}

#[test]
fn sighting_starts_combat_and_shouts_once() {
    let mut m = calm_mind();
    assert!(think(&mut m, 16, Some((0, 0, 5_000)), None));
    assert_eq!(m.mode, AiMode::Combat);
    assert_eq!(m.high_alert_ms, HIGH_ALERT_MS);
    assert!(m.sees_target);
    assert!(!think(&mut m, 16, Some((0, 0, 4_000)), None));
    // Losing sight holds combat for the grace period, then searches.
    think(&mut m, COMBAT_GRACE_MS as u32 - 1, None, None);
    assert_eq!(m.mode, AiMode::Combat);
    assert!(!m.sees_target);
    think(&mut m, 1, None, None);
    assert_eq!(m.mode, AiMode::Search);
    assert_eq!(m.mode_timer_ms, SEARCH_MS);
    assert!(tick_alert(&mut m, 1_000));
    assert_eq!(m.high_alert_ms, HIGH_ALERT_MS - 1_000);
}

#[test]
fn alarm_reaches_only_calm_allies_in_range() {
    let mut ally = calm_mind();
    hear_alarm(&mut ally, 20_000, (1, 2, 3));
    assert_eq!(ally.mode, AiMode::Patrol);
    hear_alarm(&mut ally, 10_000, (1, 2, 3));
    assert_eq!(ally.mode, AiMode::Search);
    assert_eq!(ally.last_known, Some((1, 2, 3)));
    let mut fighter = calm_mind();
    think(&mut fighter, 16, Some((0, 0, 0)), None);
    hear_alarm(&mut fighter, 0, (9, 9, 9));
    assert_eq!(fighter.mode, AiMode::Combat);
}

#[test]
fn marker_clock() {
    let mut m = calm_mind();
    assert_eq!(marker(&m), (0, 0));
    think(&mut m, 0, None, Some((0, 0, 0)));
    assert_eq!(marker(&m), (1, 63));
    think(&mut m, 3_000, None, None);
    assert_eq!(marker(&m), (1, 32));
}
