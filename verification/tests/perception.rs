use fabled::ai::{calm_mind, perceive_tick, sense, spread_alarms, AiMode, EnemySenses, Noise, PlayerSense, HIGH_ALERT_MS, SEARCH_MS};
use fabled::steer::{next_waypoint, plan, NavPlan};

fn player(alive: bool, x: i64, dist: u64, in_view: bool, moving: bool) -> PlayerSense {
    PlayerSense { alive, pos: (x, 0, 0), dist_mm: dist, in_view, moving, sprint: false, crouch: false }
}

#[test]
fn nearest_visible_player_is_seen() {
    let players = vec![
        player(true, 1, 12000, true, false),
        player(true, 2, 5000, true, false),
        player(false, 3, 1000, true, false),
        player(true, 4, 3000, false, false),
    ];
    let (seen, heard) = sense(&players, &vec![], false);
    assert_eq!(seen, Some((2, 0, 0)));
    assert_eq!(heard, None);
}

#[test]
fn nearest_heard_counts_players_then_noises() {
    // A walker at 8 m is heard (9 m radius); a gunshot at 6 m is nearer.
    let players = vec![player(true, 1, 8000, false, true), player(true, 2, 9500, false, true)];
    let noises = vec![Noise { pos: (9, 0, 9), dist_mm: 6000, radius_mm: 30000 }];
    let (seen, heard) = sense(&players, &noises, false);
    assert_eq!(seen, None);
    assert_eq!(heard, Some((9, 0, 9)));
    // On alert the 9.5 m walker is within 12.15 m, but the noise stays nearer.
    let (_, heard) = sense(&players, &vec![], true);
    assert_eq!(heard, Some((1, 0, 0)));
    // Without alert the 9.5 m walker is out of earshot.
    let (_, heard) = sense(&vec![player(true, 2, 9500, false, true)], &vec![], false);
    assert_eq!(heard, None);
}

#[test]
fn shouts_reach_calm_allies_in_range() {
    let mut minds = vec![calm_mind(), calm_mind(), calm_mind()];
    minds[2].mode = AiMode::Combat;
    let pos = vec![(0, 0, 0), (20000, 0, 0), (1000, 0, 0)];
    let alarms = vec![((5000, 0, 0), (7000, 0, 7000))];
    spread_alarms(&mut minds, &pos, &alarms);
    assert_eq!(minds[0].mode, AiMode::Search);
    assert_eq!(minds[0].mode_timer_ms, SEARCH_MS);
    assert_eq!(minds[0].last_known, Some((7000, 0, 7000)));
    assert_eq!(minds[1].mode, AiMode::Patrol);
    assert_eq!(minds[2].mode, AiMode::Combat);
}

#[test]
fn plans_follow_the_mode() {
    let route = vec![(0, 0, 0), (10000, 0, 0)];
    let here = (500, 0, 0);
    assert_eq!(plan(AiMode::Combat, Some((9000, 0, 0)), here, &route, 0), NavPlan::Engage((9000, 0, 0)));
    assert_eq!(plan(AiMode::Combat, None, here, &route, 0), NavPlan::Wander);
    assert_eq!(plan(AiMode::Suspicious, Some((9000, 0, 0)), here, &route, 0), NavPlan::GoTo((9000, 0, 0)));
    assert_eq!(plan(AiMode::Search, Some((1500, 0, 500)), here, &route, 0), NavPlan::Sweep((1500, 0, 500)));
    assert_eq!(plan(AiMode::Search, Some((9000, 0, 0)), here, &route, 0), NavPlan::GoTo((9000, 0, 0)));
    assert_eq!(plan(AiMode::Cover, None, here, &route, 0), NavPlan::FollowPath);
    assert_eq!(plan(AiMode::Patrol, None, here, &route, 2), NavPlan::AtWaypoint((0, 0, 0)));
    assert_eq!(plan(AiMode::Patrol, None, here, &route, 1), NavPlan::GoTo((10000, 0, 0)));
    assert_eq!(plan(AiMode::Patrol, None, here, &vec![], 1), NavPlan::Wander);
    assert_eq!(next_waypoint(1, 2), 0);
    assert_eq!(next_waypoint(0, 2), 1);
    assert_eq!(next_waypoint(7, 3), 2);
}

#[test]
fn one_tick_sights_shouts_and_clears_noises() {
    let mut minds = vec![calm_mind(), calm_mind(), calm_mind()];
    let senses = vec![
        // Sees the nearer of two players in view: first contact, shouts.
        EnemySenses {
            pos: (0, 0, 0),
            players: vec![player(true, 7, 9000, true, false), player(true, 3, 4000, true, false)],
            noises: vec![],
        },
        // 10 m away, sees nobody: hears the shout and searches.
        EnemySenses { pos: (10000, 0, 0), players: vec![player(true, 3, 20000, false, false)], noises: vec![] },
        // 30 m away: out of shouting range, stays on patrol.
        EnemySenses { pos: (30000, 0, 0), players: vec![], noises: vec![] },
    ];
    let mut buffer = vec![((1, 2, 3), 30000u32)];
    perceive_tick(&mut minds, &senses, &mut buffer, 16);
    assert_eq!(minds[0].mode, AiMode::Combat);
    assert!(minds[0].sees_target);
    assert_eq!(minds[0].last_known, Some((3, 0, 0)));
    assert_eq!(minds[0].high_alert_ms, HIGH_ALERT_MS);
    assert_eq!(minds[1].mode, AiMode::Search);
    assert_eq!(minds[1].last_known, Some((3, 0, 0)));
    assert_eq!(minds[2].mode, AiMode::Patrol);
    assert!(buffer.is_empty());
}
