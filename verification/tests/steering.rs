use fabled::ai::AiMode;
use fabled::steer::{nav_tick, off_grid, NavPlan, Roam};
use fabled::nav::EnemyNav;
use fabled::steer::{advance_waypoints, hold_or_pursue, navigate_toward, Steering, REPATH_INTERVAL_MS};

fn corridor() -> EnemyNav {
    let records: Vec<(i32, i32, i32, String)> = vec![
        (0, 0, 0, "E".to_string()),
        (1, 0, 0, "EW".to_string()),
        (2, 0, 0, "W".to_string()),
    ];
    EnemyNav::from_records(4000, 8, 8, &records)
}

fn idle() -> Steering {
    Steering { path: Vec::new(), goal_cell: None, steer: (0, 0, 0), repath_ms: 0 }
}

#[test]
fn reached_waypoints_are_dropped() {
    let nav = corridor();
    assert_eq!(nav.world_of_mm((1, 0)), (-10_000, 0, -14_000));
    let mut st = idle();
    st.path = vec![(0, 0), (1, 0), (2, 0)];
    advance_waypoints(&nav, (-13_500, 0, -14_000), &mut st);
    assert_eq!(st.path, vec![(1, 0), (2, 0)]);
    assert_eq!(st.steer, (-10_000, 0, -14_000));
}

#[test]
fn used_up_path_steers_for_the_goal() {
    let nav = corridor();
    let mut st = idle();
    st.path = vec![(2, 0)];
    st.goal_cell = Some((2, 0));
    advance_waypoints(&nav, (-6_000, 0, -14_000), &mut st);
    assert!(st.path.is_empty());
    assert_eq!(st.goal_cell, None);
    assert_eq!(st.steer, (-6_000, 0, -14_000));
}

#[test]
fn far_target_gets_a_grid_path() {
    let nav = corridor();
    let mut st = idle();
    navigate_toward(&nav, false, (-14_000, 0, -14_000), (-6_000, 0, -14_000), &mut st);
    assert_eq!(st.goal_cell, Some((2, 0)));
    assert_eq!(st.repath_ms, REPATH_INTERVAL_MS);
    assert_eq!(st.path, vec![(1, 0), (2, 0)]);
    assert_eq!(st.steer, (-10_000, 0, -14_000));
    // The timer blocks a second search toward a new goal.
    let before = st.path.clone();
    navigate_toward(&nav, false, (-14_000, 0, -14_000), (-10_000, 0, -3_000), &mut st);
    assert_eq!(st.path, before);
}

#[test]
fn close_or_off_grid_targets_are_chased_directly() {
    let nav = corridor();
    let mut st = idle();
    st.path = vec![(1, 0)];
    st.goal_cell = Some((1, 0));
    navigate_toward(&nav, false, (-14_000, 0, -14_000), (-11_000, 200, -13_000), &mut st);
    assert!(st.path.is_empty());
    assert_eq!(st.goal_cell, None);
    assert_eq!(st.steer, (-11_000, 0, -13_000));
    let mut st = idle();
    st.path = vec![(1, 0)];
    navigate_toward(&nav, true, (5, -4_000, 5), (90_000, 0, 7), &mut st);
    assert_eq!(st.steer, (90_000, -4_000, 7));
    assert_eq!(st.path, vec![(1, 0)]);
}

#[test]
fn ranged_enemy_holds_when_it_sees_the_target() {
    let nav = corridor();
    let mut st = idle();
    st.path = vec![(1, 0)];
    hold_or_pursue(&nav, false, (-14_000, 0, -14_000), (-6_000, 0, -14_000), true, &mut st);
    assert!(st.path.is_empty());
    assert_eq!(st.steer, (-14_000, 0, -14_000));
    let mut st = idle();
    hold_or_pursue(&nav, false, (-14_000, 0, -14_000), (-6_000, 0, -14_000), false, &mut st);
    assert_eq!(st.goal_cell, Some((2, 0)));
}

fn rolls() -> fabled::steer::Rolls {
    fabled::steer::Rolls {
        sweep_seed: 7,
        sweep_cooldown_ms: 2000,
        sweep_offset: (1000, -500),
        wander_seed: 11,
        wander_cooldown_ms: 4000,
        wander_offset: (-1500, 1000),
        patrol_wait_ms: 3000,
    }
}

#[test]
fn navigation_tick_waits_sweeps_and_wanders() {
    let nav = corridor();
    // On the floor of the grid; far above it counts as off the grid.
    assert!(!off_grid(&nav, (-14_000, 0, -14_000)));
    assert!(off_grid(&nav, (-14_000, 4_000, -14_000)));
    assert!(off_grid(&EnemyNav::from_records(4000, 8, 8, &Vec::new()), (0, 0, 0)));

    // At a patrol waypoint: the wait runs down, then the next waypoint.
    let route = vec![(-14_000, 0, -14_000), (-6_000, 0, -14_000)];
    let mut roam = Roam { cooldown_ms: 0, patrol_wait_ms: 500, patrol_i: 0, home: (0, 0, 0) };
    let mut st = idle();
    let plan = nav_tick(&nav, AiMode::Patrol, None, false, (-14_000, 0, -14_000), &route, 400, rolls(), &mut roam, &mut st);
    assert_eq!(plan, NavPlan::AtWaypoint((-14_000, 0, -14_000)));
    assert_eq!((roam.patrol_wait_ms, roam.patrol_i), (100, 0));
    assert_eq!(st.steer, (-14_000, 0, -14_000));
    nav_tick(&nav, AiMode::Patrol, None, false, (-14_000, 0, -14_000), &route, 400, rolls(), &mut roam, &mut st);
    assert_eq!((roam.patrol_wait_ms, roam.patrol_i), (3000, 1));

    // At the searched spot: a hop on the cooldown, then quiet until it runs out.
    let spot = (-14_000, 0, -14_000);
    let mut roam = Roam { cooldown_ms: 100, patrol_wait_ms: 0, patrol_i: 0, home: (0, 0, 0) };
    let mut st = idle();
    let plan = nav_tick(&nav, AiMode::Search, Some(spot), false, spot, &Vec::new(), 100, rolls(), &mut roam, &mut st);
    assert_eq!(plan, NavPlan::Sweep(spot));
    assert_eq!(roam.cooldown_ms, 2000);
    assert!(st.goal_cell.is_some() || !st.path.is_empty());
    let hop = st.path.clone();
    nav_tick(&nav, AiMode::Search, Some(spot), false, spot, &Vec::new(), 100, rolls(), &mut roam, &mut st);
    assert_eq!(roam.cooldown_ms, 1900);
    assert!(st.path.len() <= hop.len());

    // Off the grid with nothing to do: wander around home.
    let mut roam = Roam { cooldown_ms: 0, patrol_wait_ms: 0, patrol_i: 0, home: (2_000, 0, 3_000) };
    let mut st = idle();
    let high = (0, 9_000, 0);
    let plan = nav_tick(&nav, AiMode::Patrol, None, false, high, &Vec::new(), 16, rolls(), &mut roam, &mut st);
    assert_eq!(plan, NavPlan::Wander);
    assert_eq!(st.steer, (500, 0, 4_000));
    assert_eq!(roam.cooldown_ms, 4000);
}
