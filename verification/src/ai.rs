//! Enemy minds: the perception tuning shared with the client's debug rings,
//! the five-mode state machine (patrol, suspicious, combat, search, cover)
//! with its timers, alarm shouts, cover dives, and the mode marker sent to
//! clients. Time is in milliseconds and distances in millimetres.

use vstd::prelude::*;

use crate::nav::{spec_pseudo_rand_u32, pseudo_rand_u32, EnemyNav};

verus! {

/// AI mode of one enemy, mirrored to clients as a `u8`.
#[derive(Clone, Copy, Debug, PartialEq, Eq, Structural)]
pub enum AiMode {
    Patrol,
    Suspicious,
    Combat,
    Search,
    Cover,
}

impl Default for AiMode {
    fn default() -> (r: Self)
        ensures
            r == AiMode::Patrol,
    {
        AiMode::Patrol
    }
}

pub open spec fn mode_code(m: AiMode) -> u8 {
    match m {
        AiMode::Patrol => 0,
        AiMode::Suspicious => 1,
        AiMode::Combat => 2,
        AiMode::Search => 3,
        AiMode::Cover => 4,
    }
}

impl AiMode {
    /// Wire code of the mode.
    pub fn as_u8(self) -> (r: u8)
        ensures
            r == mode_code(self),
    {
        match self {
            AiMode::Patrol => 0,
            AiMode::Suspicious => 1,
            AiMode::Combat => 2,
            AiMode::Search => 3,
            AiMode::Cover => 4,
        }
    }

    /// The mode a wire code stands for.
    pub fn from_u8(code: u8) -> (r: Option<AiMode>)
        ensures
            code <= 4 ==> r is Some && mode_code(r->0) == code,
            code > 4 ==> r is None,
    {
        if code == 0 {
            Some(AiMode::Patrol)
        } else if code == 1 {
            Some(AiMode::Suspicious)
        } else if code == 2 {
            Some(AiMode::Combat)
        } else if code == 3 {
            Some(AiMode::Search)
        } else if code == 4 {
            Some(AiMode::Cover)
        } else {
            None
        }
    }
}

/// Decoding a mode's wire code gives the mode back, and distinct modes have
/// distinct codes.
pub proof fn law_mode_code_roundtrip(m: AiMode, n: AiMode)
    ensures
        mode_code(m) <= 4,
        mode_code(m) == mode_code(n) ==> m == n,
{
}

/// Base vision range along the facing cone (mm).
pub const VISION_RANGE_MM: u32 = 22000;

/// Hearing radius of a sprinting player (mm).
pub const HEAR_SPRINT_MM: u32 = 16000;

/// Hearing radius of a walking player (mm).
pub const HEAR_WALK_MM: u32 = 9000;

/// Hearing radius of a sneaking player (mm).
pub const HEAR_SNEAK_MM: u32 = 3500;

/// Noise radius of a gunshot (mm).
pub const GUNSHOT_NOISE_MM: u32 = 30000;

/// Senses scale by 135 percent during high alert.
pub const ALERT_SENSE_PERCENT: u32 = 135;

/// Combat is held this long after losing sight, before searching.
pub const COMBAT_GRACE_MS: i64 = 1500;

pub const SEARCH_MS: i64 = 10000;

pub const SUSPICIOUS_MS: i64 = 6000;

/// Senses stay boosted this long after the last contact.
pub const HIGH_ALERT_MS: i64 = 20000;

/// Shortest cover dive.
pub const COVER_MIN_MS: i64 = 1200;

/// Minimum gap between two cover dives.
pub const COVER_COOLDOWN_MS: i64 = 4000;

/// Allies within this distance of a first sighting hear the shout (mm).
pub const ALARM_RADIUS_MM: i64 = 14000;

/// How far a player is heard, by how they move. Standing still is silent.
pub fn hearing_radius_mm(moving: bool, sprint: bool, crouch: bool) -> (r: u32)
    ensures
        r == (if !moving {
            0
        } else if sprint {
            HEAR_SPRINT_MM
        } else if crouch {
            HEAR_SNEAK_MM
        } else {
            HEAR_WALK_MM
        }),
{
    if !moving {
        0
    } else if sprint {
        HEAR_SPRINT_MM
    } else if crouch {
        HEAR_SNEAK_MM
    } else {
        HEAR_WALK_MM
    }
}

/// A sense radius as boosted by high alert.
pub fn sense_radius_mm(base: u32, alert: bool) -> (r: u64)
    ensures
        r == (if alert { base * ALERT_SENSE_PERCENT / 100 } else { base as int }),
{
    if alert {
        (base as u64) * (ALERT_SENSE_PERCENT as u64) / 100
    } else {
        base as u64
    }
}

/// A world position in millimetres.
pub type PosMm = (i64, i64, i64);

/// What an enemy thinks: its mode and timers, and where it last sensed a player.
#[derive(Clone, Copy, Debug, PartialEq, Eq)]
pub struct Mind {
    pub mode: AiMode,
    /// Time left in the current mode (its meaning depends on the mode).
    pub mode_timer_ms: i64,
    /// Full length of the current countdown (for the marker clock).
    pub mode_total_ms: i64,
    pub last_known: Option<PosMm>,
    /// The combat target is directly visible this tick.
    pub sees_target: bool,
    pub high_alert_ms: i64,
    pub cover_cd_ms: i64,
    /// Cell a cover dive heads for.
    pub cover_goal: Option<(i32, i32)>,
}

/// Timers stay within what one tick can push them to.
pub open spec fn timers_bounded(m: Mind) -> bool {
    &&& m.mode_timer_ms <= 0x1000_0000_0000_0000
    &&& m.mode != AiMode::Patrol ==> -0x1000_0000_0000_0000 <= m.mode_timer_ms
    &&& m.mode == AiMode::Patrol ==> -0x2000_0000_0000_0000 <= m.mode_timer_ms
    &&& 0 <= m.high_alert_ms <= HIGH_ALERT_MS
    &&& 0 <= m.cover_cd_ms <= COVER_COOLDOWN_MS
}

/// What an enemy senses of one player this tick. Distance and the view
/// test (vision cone, range and line of sight) come from the physics side.
#[derive(Clone, Copy, Debug)]
pub struct PlayerSense {
    pub alive: bool,
    pub pos: PosMm,
    pub dist_mm: u64,
    pub in_view: bool,
    pub moving: bool,
    pub sprint: bool,
    pub crouch: bool,
}

/// A noise this tick (a gunshot, an impact): where, how far from the
/// enemy, and how far it carries.
#[derive(Clone, Copy, Debug)]
pub struct Noise {
    pub pos: PosMm,
    pub dist_mm: u64,
    pub radius_mm: u32,
}

/// Sense radius as a number (see `sense_radius_mm`).
pub open spec fn sense_radius_spec(base: u32, alert: bool) -> int {
    if alert { base * ALERT_SENSE_PERCENT / 100 } else { base as int }
}

/// The nearest of the candidates (position, distance): the first one with
/// the smallest distance.
pub open spec fn nearest_in(s: Seq<Option<(PosMm, u64)>>) -> Option<(PosMm, u64)>
    decreases s.len(),
{
    if s.len() == 0 {
        None
    } else {
        let p = nearest_in(s.drop_last());
        match s.last() {
            Some(c) => match p {
                Some(q) => if c.1 < q.1 { Some(c) } else { p },
                None => Some(c),
            },
            None => p,
        }
    }
}

/// The nearest candidate is one of the candidates, none is strictly
/// closer, and there is one exactly when some candidate is present.
pub proof fn law_nearest_in(s: Seq<Option<(PosMm, u64)>>)
    ensures
        nearest_in(s) is None <==> forall|i: int| 0 <= i < s.len() ==> #[trigger] s[i] is None,
        nearest_in(s) matches Some(c) ==> exists|i: int| 0 <= i < s.len() && #[trigger] s[i] == Some(c),
        nearest_in(s) matches Some(c) ==> forall|i: int| 0 <= i < s.len() && #[trigger] s[i] is Some ==> c.1 <= (s[i]->0).1,
    decreases s.len(),
{
    if s.len() > 0 {
        let t = s.drop_last();
        law_nearest_in(t);
        assert forall|i: int| 0 <= i < t.len() implies #[trigger] t[i] == s[i] by {}
        if nearest_in(s) is None {
            assert forall|i: int| 0 <= i < s.len() implies #[trigger] s[i] is None by {
                if i < t.len() {
                    assert(t[i] == s[i]);
                }
            }
        }
        if let Some(c) = nearest_in(s) {
            if nearest_in(t) == Some(c) {
                let i = choose|i: int| 0 <= i < t.len() && #[trigger] t[i] == Some(c);
                assert(s[i] == Some(c));
            } else {
                assert(s[s.len() - 1] == Some(c));
            }
            assert forall|i: int| 0 <= i < s.len() && #[trigger] s[i] is Some implies c.1 <= (s[i]->0).1 by {
                if i < t.len() {
                    assert(t[i] == s[i]);
                }
            }
        }
    }
}

/// Sounds carry by movement: standing still is silent, and sneaking,
/// walking and sprinting carry ever further; high alert never shrinks a
/// sense.
pub proof fn law_hearing_order(base: u32)
    ensures
        0 < HEAR_SNEAK_MM < HEAR_WALK_MM < HEAR_SPRINT_MM,
        sense_radius_spec(base, true) >= sense_radius_spec(base, false),
{
}

/// A player as a sighting candidate: alive and in view.
pub open spec fn sight_of(p: PlayerSense) -> Option<(PosMm, u64)> {
    if p.alive && p.in_view { Some((p.pos, p.dist_mm)) } else { None }
}

/// A player as a heard candidate: alive and within how far its movement
/// carries (boosted on alert).
pub open spec fn sound_of(p: PlayerSense, alert: bool) -> Option<(PosMm, u64)> {
    let base: u32 = if !p.moving { 0 } else if p.sprint { HEAR_SPRINT_MM } else if p.crouch { HEAR_SNEAK_MM } else { HEAR_WALK_MM };
    if p.alive && p.dist_mm < sense_radius_spec(base, alert) { Some((p.pos, p.dist_mm)) } else { None }
}

/// A noise as a heard candidate: within its (boosted) radius.
pub open spec fn noise_of(n: Noise, alert: bool) -> Option<(PosMm, u64)> {
    if n.dist_mm < sense_radius_spec(n.radius_mm, alert) { Some((n.pos, n.dist_mm)) } else { None }
}

/// The enemy's senses this tick: the nearest player in view, and the
/// nearest thing heard (players first, then noises; on a tie the earlier).
pub fn sense(players: &Vec<PlayerSense>, noises: &Vec<Noise>, alert: bool) -> (r: (Option<PosMm>, Option<PosMm>))
    ensures
        r.0 == match nearest_in(players@.map_values(|p: PlayerSense| sight_of(p))) {
            Some(c) => Some(c.0),
            None => None,
        },
        r.1 == match nearest_in(players@.map_values(|p: PlayerSense| sound_of(p, alert)) + noises@.map_values(|n: Noise| noise_of(n, alert))) {
            Some(c) => Some(c.0),
            None => None,
        },
{
    let ghost sights = players@.map_values(|p: PlayerSense| sight_of(p));
    let ghost sounds = players@.map_values(|p: PlayerSense| sound_of(p, alert));
    let ghost loud = noises@.map_values(|n: Noise| noise_of(n, alert));
    let mut seen: Option<(PosMm, u64)> = None;
    let mut heard: Option<(PosMm, u64)> = None;
    let mut i: usize = 0;
    while i < players.len()
        invariant
            i <= players@.len(),
            sights == players@.map_values(|p: PlayerSense| sight_of(p)),
            sounds == players@.map_values(|p: PlayerSense| sound_of(p, alert)),
            seen == nearest_in(sights.take(i as int)),
            heard == nearest_in(sounds.take(i as int)),
        decreases players@.len() - i,
    {
        let p = players[i];
        proof {
            assert(sights.take(i as int + 1).drop_last() =~= sights.take(i as int));
            assert(sounds.take(i as int + 1).drop_last() =~= sounds.take(i as int));
        }
        if p.alive && p.in_view {
            let closer = match seen {
                None => true,
                Some(c) => p.dist_mm < c.1,
            };
            if closer {
                seen = Some((p.pos, p.dist_mm));
            }
        }
        let hear = sense_radius_mm(hearing_radius_mm(p.moving, p.sprint, p.crouch), alert);
        if p.alive && p.dist_mm < hear {
            let closer = match heard {
                None => true,
                Some(c) => p.dist_mm < c.1,
            };
            if closer {
                heard = Some((p.pos, p.dist_mm));
            }
        }
        i = i + 1;
    }
    proof {
        assert(sights.take(players@.len() as int) =~= sights);
        assert(sounds.take(players@.len() as int) =~= sounds);
    }
    let ghost all = sounds + loud;
    assert(all.take(players@.len() as int) =~= sounds);
    let mut j: usize = 0;
    while j < noises.len()
        invariant
            j <= noises@.len(),
            sounds.len() == players@.len(),
            loud == noises@.map_values(|n: Noise| noise_of(n, alert)),
            all == sounds + loud,
            heard == nearest_in(all.take(players@.len() + j)),
        decreases noises@.len() - j,
    {
        let n = noises[j];
        proof {
            assert(all.take(players@.len() + j + 1).drop_last() =~= all.take(players@.len() + j));
            assert(all[players@.len() + j] == loud[j as int]);
        }
        let r = sense_radius_mm(n.radius_mm, alert);
        if n.dist_mm < r {
            let closer = match heard {
                None => true,
                Some(c) => n.dist_mm < c.1,
            };
            if closer {
                heard = Some((n.pos, n.dist_mm));
            }
        }
        j = j + 1;
    }
    proof {
        assert(all.take((players@.len() + noises@.len()) as int) =~= all);
    }
    (
        match seen {
            Some(c) => Some(c.0),
            None => None,
        },
        match heard {
            Some(c) => Some(c.0),
            None => None,
        },
    )
}

/// A fresh patrolling mind.
pub fn calm_mind() -> (r: Mind)
    ensures
        r.mode == AiMode::Patrol,
        r.mode_timer_ms == 0 && r.mode_total_ms == 0,
        r.last_known is None && !r.sees_target,
        r.high_alert_ms == 0 && r.cover_cd_ms == 0,
        r.cover_goal is None,
        timers_bounded(r),
{
    Mind {
        mode: AiMode::Patrol,
        mode_timer_ms: 0,
        mode_total_ms: 0,
        last_known: None,
        sees_target: false,
        high_alert_ms: 0,
        cover_cd_ms: 0,
        cover_goal: None,
    }
}

pub open spec fn dec_floor0(v: i64, dt: u32) -> i64 {
    if v - dt > 0 {
        (v - dt) as i64
    } else {
        0
    }
}

/// Start of a perception tick: the alert and cover clocks run down.
/// Returns whether senses are boosted this tick.
pub fn tick_alert(mind: &mut Mind, dt_ms: u32) -> (alert: bool)
    requires
        timers_bounded(*old(mind)),
    ensures
        final(mind).high_alert_ms == dec_floor0(old(mind).high_alert_ms, dt_ms),
        final(mind).cover_cd_ms == dec_floor0(old(mind).cover_cd_ms, dt_ms),
        alert == (final(mind).high_alert_ms > 0),
        final(mind).mode == old(mind).mode && final(mind).mode_timer_ms == old(mind).mode_timer_ms,
        final(mind).mode_total_ms == old(mind).mode_total_ms && final(mind).last_known == old(mind).last_known,
        final(mind).sees_target == old(mind).sees_target && final(mind).cover_goal == old(mind).cover_goal,
        timers_bounded(*final(mind)),
{
    let dt = dt_ms as i64;
    mind.high_alert_ms = if mind.high_alert_ms - dt > 0 { mind.high_alert_ms - dt } else { 0 };
    mind.cover_cd_ms = if mind.cover_cd_ms - dt > 0 { mind.cover_cd_ms - dt } else { 0 };
    mind.high_alert_ms > 0
}

/// The mode machine's step when nothing is in sight (`heard` is the nearest
/// heard noise, if any).
pub open spec fn unseen_step(m: Mind, dt: int, heard: Option<PosMm>) -> Mind {
    match m.mode {
        AiMode::Combat => match heard {
            Some(h) => Mind { last_known: Some(h), mode_timer_ms: COMBAT_GRACE_MS, mode_total_ms: COMBAT_GRACE_MS, ..m },
            None => if m.mode_timer_ms - dt <= 0 {
                Mind { mode: AiMode::Search, mode_timer_ms: SEARCH_MS, mode_total_ms: SEARCH_MS, ..m }
            } else {
                Mind { mode_timer_ms: (m.mode_timer_ms - dt) as i64, ..m }
            },
        },
        AiMode::Search | AiMode::Suspicious => {
            let (lk, t) = match heard {
                Some(h) => (Some(h), if m.mode_timer_ms >= 3000 { m.mode_timer_ms as int } else { 3000 }),
                None => (m.last_known, m.mode_timer_ms as int),
            };
            if t - dt <= 0 {
                Mind { mode: AiMode::Patrol, mode_timer_ms: (t - dt) as i64, mode_total_ms: 0, last_known: None, ..m }
            } else {
                Mind { mode_timer_ms: (t - dt) as i64, last_known: lk, ..m }
            }
        },
        AiMode::Patrol => match heard {
            Some(h) => Mind {
                mode: AiMode::Suspicious,
                mode_timer_ms: SUSPICIOUS_MS,
                mode_total_ms: SUSPICIOUS_MS,
                last_known: Some(h),
                ..m
            },
            None => m,
        },
        AiMode::Cover => if m.mode_timer_ms - dt <= 0 {
            Mind {
                mode: if m.last_known is Some { AiMode::Combat } else { AiMode::Patrol },
                mode_timer_ms: COMBAT_GRACE_MS,
                mode_total_ms: COMBAT_GRACE_MS,
                ..m
            }
        } else {
            Mind { mode_timer_ms: (m.mode_timer_ms - dt) as i64, ..m }
        },
    }
}

/// The mode machine's step when a player is in sight at `p`.
pub open spec fn seen_step(m: Mind, p: PosMm) -> Mind {
    if m.mode == AiMode::Cover {
        Mind { last_known: Some(p), high_alert_ms: HIGH_ALERT_MS, sees_target: true, ..m }
    } else {
        Mind {
            mode: AiMode::Combat,
            mode_timer_ms: COMBAT_GRACE_MS,
            mode_total_ms: COMBAT_GRACE_MS,
            last_known: Some(p),
            high_alert_ms: HIGH_ALERT_MS,
            sees_target: true,
            ..m
        }
    }
}

/// One step of the mode machine.
pub open spec fn think_spec(m: Mind, dt: int, seen: Option<PosMm>, heard: Option<PosMm>) -> Mind {
    match seen {
        Some(p) => seen_step(m, p),
        None => Mind { sees_target: false, ..unseen_step(m, dt, heard) },
    }
}

/// One step of the mode machine after sensing. `seen` is the nearest visible
/// player, `heard` the nearest heard noise. Returns whether this is a first
/// contact, which makes the enemy shout to its allies.
pub fn think(mind: &mut Mind, dt_ms: u32, seen: Option<PosMm>, heard: Option<PosMm>) -> (alarm: bool)
    requires
        timers_bounded(*old(mind)),
    ensures
        timers_bounded(*final(mind)),
        *final(mind) == think_spec(*old(mind), dt_ms as int, seen, heard),
        alarm == (seen is Some && old(mind).mode != AiMode::Combat && old(mind).mode != AiMode::Cover),
{
    mind.sees_target = seen.is_some();
    match seen {
        Some(p) => {
            let first_contact = mind.mode != AiMode::Combat && mind.mode != AiMode::Cover;
            mind.last_known = Some(p);
            mind.high_alert_ms = HIGH_ALERT_MS;
            if mind.mode != AiMode::Cover {
                mind.mode = AiMode::Combat;
                mind.mode_timer_ms = COMBAT_GRACE_MS;
                mind.mode_total_ms = COMBAT_GRACE_MS;
            }
            first_contact
        },
        None => {
            let dt = dt_ms as i64;
            match mind.mode {
                AiMode::Combat => {
                    match heard {
                        Some(h) => {
                            mind.last_known = Some(h);
                            mind.mode_timer_ms = COMBAT_GRACE_MS;
                            mind.mode_total_ms = COMBAT_GRACE_MS;
                        },
                        None => {
                            mind.mode_timer_ms = mind.mode_timer_ms - dt;
                            if mind.mode_timer_ms <= 0 {
                                mind.mode = AiMode::Search;
                                mind.mode_timer_ms = SEARCH_MS;
                                mind.mode_total_ms = SEARCH_MS;
                            }
                        },
                    }
                },
                AiMode::Search | AiMode::Suspicious => {
                    match heard {
                        Some(h) => {
                            mind.last_known = Some(h);
                            if mind.mode_timer_ms < 3000 {
                                mind.mode_timer_ms = 3000;
                            }
                        },
                        None => {},
                    }
                    mind.mode_timer_ms = mind.mode_timer_ms - dt;
                    if mind.mode_timer_ms <= 0 {
                        mind.mode = AiMode::Patrol;
                        mind.mode_total_ms = 0;
                        mind.last_known = None;
                    }
                },
                AiMode::Patrol => {
                    match heard {
                        Some(h) => {
                            mind.mode = AiMode::Suspicious;
                            mind.mode_timer_ms = SUSPICIOUS_MS;
                            mind.mode_total_ms = SUSPICIOUS_MS;
                            mind.last_known = Some(h);
                        },
                        None => {},
                    }
                },
                AiMode::Cover => {
                    mind.mode_timer_ms = mind.mode_timer_ms - dt;
                    if mind.mode_timer_ms <= 0 {
                        mind.mode = if mind.last_known.is_some() {
                            AiMode::Combat
                        } else {
                            AiMode::Patrol
                        };
                        mind.mode_timer_ms = COMBAT_GRACE_MS;
                        mind.mode_total_ms = COMBAT_GRACE_MS;
                    }
                },
            }
            false
        },
    }
}

/// An enemy that keeps seeing a player never leaves combat or cover, and
/// every sighting re-arms high alert and records where the player was.
pub proof fn law_sighting_keeps_engaged(m: Mind, dt: int, p: PosMm, heard: Option<PosMm>)
    ensures
        think_spec(m, dt, Some(p), heard).mode == AiMode::Combat || think_spec(m, dt, Some(p), heard).mode
            == AiMode::Cover,
        think_spec(m, dt, Some(p), heard).high_alert_ms == HIGH_ALERT_MS,
        think_spec(m, dt, Some(p), heard).last_known == Some(p),
{
}

/// A searching or suspicious enemy that senses nothing for at least the time
/// left on its clock goes back to patrol and forgets where the player was.
pub proof fn law_search_times_out(m: Mind, dt: u32)
    requires
        m.mode == AiMode::Search || m.mode == AiMode::Suspicious,
        m.mode_timer_ms <= dt,
    ensures
        unseen_step(m, dt as int, None).mode == AiMode::Patrol,
        unseen_step(m, dt as int, None).last_known is None,
{
}

/// A patrolling enemy that senses nothing keeps patrolling unchanged.
pub proof fn law_quiet_patrol_is_stable(m: Mind, dt: u32)
    requires
        m.mode == AiMode::Patrol,
    ensures
        unseen_step(m, dt as int, None) == m,
{
}

/// An enemy in combat that loses sight of the player but hears a noise
/// stays in combat: it turns to the noise (the noise becomes where the
/// player is believed to be) and its grace clock starts over.
pub proof fn law_heard_keeps_combat(m: Mind, dt: int, h: PosMm)
    requires
        m.mode == AiMode::Combat,
    ensures
        think_spec(m, dt, None, Some(h)).mode == AiMode::Combat,
        think_spec(m, dt, None, Some(h)).last_known == Some(h),
        think_spec(m, dt, None, Some(h)).mode_timer_ms == COMBAT_GRACE_MS,
        !think_spec(m, dt, None, Some(h)).sees_target,
{
}

/// An enemy in combat that neither sees nor hears anyone keeps the player's
/// last known position; while its grace clock has time left it stays in
/// combat with the clock run down by `dt`, and once the clock runs out it
/// starts a full search there.
pub proof fn law_silent_combat_runs_down(m: Mind, dt: int)
    requires
        m.mode == AiMode::Combat,
        timers_bounded(m),
        0 <= dt <= u32::MAX,
    ensures
        think_spec(m, dt, None, None).last_known == m.last_known,
        m.mode_timer_ms > dt ==> think_spec(m, dt, None, None).mode == AiMode::Combat
            && think_spec(m, dt, None, None).mode_timer_ms == m.mode_timer_ms - dt,
        m.mode_timer_ms <= dt ==> think_spec(m, dt, None, None).mode == AiMode::Search
            && think_spec(m, dt, None, None).mode_timer_ms == SEARCH_MS,
{
}

/// A patrolling enemy that hears a noise grows suspicious of that spot.
pub proof fn law_patrol_hears(m: Mind, dt: int, h: PosMm)
    requires
        m.mode == AiMode::Patrol,
    ensures
        think_spec(m, dt, None, Some(h)).mode == AiMode::Suspicious,
        think_spec(m, dt, None, Some(h)).last_known == Some(h),
        think_spec(m, dt, None, Some(h)).mode_timer_ms == SUSPICIOUS_MS,
{
}

/// A searching or suspicious enemy that hears a noise turns to it and keeps
/// looking: the noise becomes its last known position and its clock is
/// topped up to at least three seconds before this tick runs it down.
pub proof fn law_search_follows_noise(m: Mind, dt: int, h: PosMm)
    requires
        m.mode == AiMode::Search || m.mode == AiMode::Suspicious,
        0 <= dt < 3000,
    ensures
        think_spec(m, dt, None, Some(h)).mode == m.mode,
        think_spec(m, dt, None, Some(h)).last_known == Some(h),
        think_spec(m, dt, None, Some(h)).mode_timer_ms >= 3000 - dt,
        think_spec(m, dt, None, Some(h)).mode_timer_ms >= m.mode_timer_ms - dt,
{
}

/// A cover dive lasts its clock out whatever is heard; then the enemy
/// returns to combat if it knows where the player is, else to patrol.
pub proof fn law_cover_lasts_its_clock(m: Mind, dt: int, heard: Option<PosMm>)
    requires
        m.mode == AiMode::Cover,
    ensures
        m.mode_timer_ms > dt ==> think_spec(m, dt, None, heard).mode == AiMode::Cover,
        m.mode_timer_ms <= dt && m.last_known is Some ==> think_spec(m, dt, None, heard).mode == AiMode::Combat,
        m.mode_timer_ms <= dt && m.last_known is None ==> think_spec(m, dt, None, heard).mode == AiMode::Patrol,
        think_spec(m, dt, None, heard).last_known == m.last_known,
{
}

/// Whether the target is in sight after a step is exactly whether someone
/// was seen.
pub proof fn law_sight_is_recorded(m: Mind, dt: int, seen: Option<PosMm>, heard: Option<PosMm>)
    ensures
        think_spec(m, dt, seen, heard).sees_target == seen is Some,
{
}

/// How a shout changes a mind: calm enemies within earshot converge on the sighting.
pub open spec fn alarm_step(m: Mind, distance_mm: u64, sighting: PosMm) -> Mind {
    if (m.mode == AiMode::Patrol || m.mode == AiMode::Suspicious) && distance_mm <= ALARM_RADIUS_MM {
        Mind {
            mode: AiMode::Search,
            mode_timer_ms: SEARCH_MS,
            mode_total_ms: SEARCH_MS,
            last_known: Some(sighting),
            high_alert_ms: HIGH_ALERT_MS,
            ..m
        }
    } else {
        m
    }
}

/// A shout turns a patrolling or suspicious enemy within the alarm radius
/// into a searcher of the sighting, on high alert; enemies further away, or
/// already fighting, searching or in cover, are not moved by it.
pub proof fn law_alarm(m: Mind, distance_mm: u64, sighting: PosMm)
    ensures
        (m.mode == AiMode::Patrol || m.mode == AiMode::Suspicious) && distance_mm <= ALARM_RADIUS_MM ==> {
            let r = alarm_step(m, distance_mm, sighting);
            &&& r.mode == AiMode::Search && r.last_known == Some(sighting)
            &&& r.mode_timer_ms == SEARCH_MS && r.high_alert_ms == HIGH_ALERT_MS
        },
        distance_mm > ALARM_RADIUS_MM ==> alarm_step(m, distance_mm, sighting) == m,
        m.mode == AiMode::Combat || m.mode == AiMode::Search || m.mode == AiMode::Cover ==> alarm_step(m, distance_mm, sighting) == m,
{
}

/// An ally's shout: calm enemies within earshot converge on the sighting.
pub fn hear_alarm(mind: &mut Mind, distance_mm: u64, sighting: PosMm)
    ensures
        *final(mind) == alarm_step(*old(mind), distance_mm, sighting),
{
    if !(mind.mode == AiMode::Patrol || mind.mode == AiMode::Suspicious) {
        return;
    }
    if distance_mm > ALARM_RADIUS_MM as u64 {
        return;
    }
    mind.mode = AiMode::Search;
    mind.mode_timer_ms = SEARCH_MS;
    mind.mode_total_ms = SEARCH_MS;
    mind.last_known = Some(sighting);
    mind.high_alert_ms = HIGH_ALERT_MS;
}

/// Length of a cover dive for a seed: the minimum plus up to 1.2 s more.
pub open spec fn cover_ms(seed: u32) -> int {
    COVER_MIN_MS + (spec_pseudo_rand_u32(seed) % 0x100_0000) * 1200 / 0x100_0000
}

/// The mind after starting a cover dive toward `cell`.
pub open spec fn dive_step(m: Mind, cell: (i32, i32), seed: u32) -> Mind {
    Mind {
        mode: AiMode::Cover,
        mode_timer_ms: cover_ms(seed) as i64,
        mode_total_ms: cover_ms(seed) as i64,
        cover_cd_ms: COVER_COOLDOWN_MS,
        cover_goal: Some(cell),
        ..m
    }
}

/// Some cell other than `from`, within two steps of it, is walled toward the threat.
pub open spec fn cover_within_reach(nav: EnemyNav, from: (i32, i32), tx: i64, tz: i64) -> bool {
    exists|x: (i32, i32)| x != from && nav.covered(x, tx, tz) && #[trigger] nav.within(from, x, 2)
}

/// `c` is a covered cell within two steps of `from`, and no other covered
/// cell (but `from`) is fewer steps away.
pub open spec fn nearest_cover(nav: EnemyNav, from: (i32, i32), c: (i32, i32), tx: i64, tz: i64) -> bool {
    exists|d: int|
        1 <= d <= 2 && #[trigger] nav.within(from, c, d) && !nav.within(from, c, d - 1) && forall|x: (i32, i32)|
            x != from && nav.covered(x, tx, tz) ==> !#[trigger] nav.within(from, x, d - 1)
}

/// Dive for cover when a shot landed near an enemy in combat: the nearest
/// walled cell within two steps of its cell `cur` that faces the shooter.
/// Returns the cover cell when the dive starts.
pub fn try_cover(mind: &mut Mind, nav: &EnemyNav, cur: Option<(i32, i32)>, threat_x_mm: i64, threat_z_mm: i64, seed: u32) -> (r: Option<(i32, i32)>)
    requires
        nav.wf(),
        timers_bounded(*old(mind)),
    ensures
        timers_bounded(*final(mind)),
        !(old(mind).mode == AiMode::Combat && old(mind).cover_cd_ms <= 0 && nav.cells@.len() > 0 && cur is Some)
            ==> r is None,
        r is None ==> *final(mind) == *old(mind),
        r is Some ==> nav.covered(r->0, threat_x_mm, threat_z_mm) && r->0 != cur->0,
        r is Some ==> *final(mind) == dive_step(*old(mind), r->0, seed),
        r is Some <==> (old(mind).mode == AiMode::Combat && old(mind).cover_cd_ms <= 0 && nav.cells@.len() > 0
            && cur is Some && cover_within_reach(*nav, cur->0, threat_x_mm, threat_z_mm)),
        r is Some ==> nearest_cover(*nav, cur->0, r->0, threat_x_mm, threat_z_mm),
{
    if !(mind.mode == AiMode::Combat && mind.cover_cd_ms <= 0) || nav.is_empty() {
        return None;
    }
    let from = match cur {
        Some(c) => c,
        None => {
            return None;
        },
    };
    let found = nav.cover_cell_from(from, threat_x_mm, threat_z_mm, 2);
    proof {
        if let Some(c) = found {
            let d = choose|d: int|
                1 <= d <= 2 && #[trigger] nav.within(from, c, d) && !nav.within(from, c, d - 1) && forall|x: (i32, i32)|
                    x != from && nav.covered(x, threat_x_mm, threat_z_mm) ==> !#[trigger] nav.within(from, x, d - 1);
            let p = choose|p: Seq<(i32, i32)>| #[trigger] nav.is_walk(p) && p[0] == from && p.last() == c && p.len() <= d + 1;
            assert(nav.is_walk(p) && p[0] == from && p.last() == c && p.len() <= 2 + 1);
            assert(nav.within(from, c, 2));
            assert(nearest_cover(*nav, from, c, threat_x_mm, threat_z_mm));
        } else {
            assert(!cover_within_reach(*nav, from, threat_x_mm, threat_z_mm));
        }
    }
    match found {
        Some(cell) => {
            let roll = (pseudo_rand_u32(seed) & 0x00ff_ffff) as i64;
            proof {
                assert((spec_pseudo_rand_u32(seed) & 0x00ff_ffffu32) == spec_pseudo_rand_u32(seed) % 0x100_0000) by (bit_vector);
            }
            let t = COVER_MIN_MS + roll * 1200 / 0x100_0000;
            mind.mode = AiMode::Cover;
            mind.mode_timer_ms = t;
            mind.mode_total_ms = t;
            mind.cover_cd_ms = COVER_COOLDOWN_MS;
            mind.cover_goal = Some(cell);
            Some(cell)
        },
        None => None,
    }
}

/// The mode's countdown is shown on the client's marker.
pub open spec fn marker_timed(m: Mind) -> bool {
    match m.mode {
        AiMode::Combat => !m.sees_target,
        AiMode::Search | AiMode::Suspicious | AiMode::Cover => true,
        AiMode::Patrol => false,
    }
}

/// Marker clock in 64ths: the share of the countdown left, rounded.
pub open spec fn marker_frac_spec(m: Mind) -> int {
    if marker_timed(m) && m.mode_total_ms > 10 {
        if m.mode_timer_ms <= 0 {
            0
        } else if m.mode_timer_ms >= m.mode_total_ms {
            63
        } else {
            (126 * m.mode_timer_ms + m.mode_total_ms) / (2 * m.mode_total_ms)
        }
    } else {
        0
    }
}

/// The replicated marker: mode code and countdown fraction (0..=63).
pub fn marker(mind: &Mind) -> (r: (u8, u8))
    requires
        timers_bounded(*mind),
    ensures
        r.0 == mode_code(mind.mode),
        r.1 == marker_frac_spec(*mind),
        r.1 <= 63,
{
    let timed = match mind.mode {
        AiMode::Combat => !mind.sees_target,
        AiMode::Search | AiMode::Suspicious | AiMode::Cover => true,
        AiMode::Patrol => false,
    };
    let frac: u8 = if timed && mind.mode_total_ms > 10 {
        if mind.mode_timer_ms <= 0 {
            0
        } else if mind.mode_timer_ms >= mind.mode_total_ms {
            63
        } else {
            let t = mind.mode_timer_ms as i128;
            let total = mind.mode_total_ms as i128;
            proof {
                assert(126 * t + total < 128 * total) by (nonlinear_arith)
                    requires
                        0 < t < total,
                ;
                assert((126 * t + total) / (2 * total) < 64) by (nonlinear_arith)
                    requires
                        126 * t + total < 128 * total,
                        total > 0,
                ;
                assert((126 * t + total) / (2 * total) >= 0) by (nonlinear_arith)
                    requires
                        t > 0,
                        total > 0,
                ;
            }
            ((126 * t + total) / (2 * total)) as u8
        }
    } else {
        0
    };
    (mind.mode.as_u8(), frac)
}


/// Squared distance between two positions, in mm².
pub open spec fn dist2(a: PosMm, b: PosMm) -> int {
    (a.0 - b.0) * (a.0 - b.0) + (a.1 - b.1) * (a.1 - b.1) + (a.2 - b.2) * (a.2 - b.2)
}

/// A mind at `p` after the shouts `alarms` (shouter position, sighting),
/// in order: each shout within the alarm radius turns a calm mind to
/// searching the sighting.
pub open spec fn alarmed(m: Mind, p: PosMm, alarms: Seq<(PosMm, PosMm)>) -> Mind
    decreases alarms.len(),
{
    if alarms.len() == 0 {
        m
    } else {
        let m1 = alarmed(m, p, alarms.drop_last());
        let a = alarms.last();
        if (m1.mode == AiMode::Patrol || m1.mode == AiMode::Suspicious) && dist2(p, a.0) <= ALARM_RADIUS_MM * ALARM_RADIUS_MM {
            Mind {
                mode: AiMode::Search,
                mode_timer_ms: SEARCH_MS,
                mode_total_ms: SEARCH_MS,
                last_known: Some(a.1),
                high_alert_ms: HIGH_ALERT_MS,
                ..m1
            }
        } else {
            m1
        }
    }
}

/// `|a - b|`, as a `u128`.
fn gap(a: i64, b: i64) -> (r: u128)
    ensures
        r == (if a >= b { a - b } else { b - a }),
{
    if a >= b {
        (a as i128 - b as i128) as u128
    } else {
        (b as i128 - a as i128) as u128
    }
}

/// The shout reaches from `a` to `b`.
fn in_alarm_range(a: PosMm, b: PosMm) -> (r: bool)
    ensures
        r == (dist2(a, b) <= ALARM_RADIUS_MM * ALARM_RADIUS_MM),
{
    let dx = gap(a.0, b.0);
    let dy = gap(a.1, b.1);
    let dz = gap(a.2, b.2);
    let lim: u128 = ALARM_RADIUS_MM as u128;
    proof {
        assert(dist2(a, b) == dx * dx + dy * dy + dz * dz) by (nonlinear_arith)
            requires
                dx == (if a.0 >= b.0 { a.0 - b.0 } else { b.0 - a.0 }),
                dy == (if a.1 >= b.1 { a.1 - b.1 } else { b.1 - a.1 }),
                dz == (if a.2 >= b.2 { a.2 - b.2 } else { b.2 - a.2 }),
        ;
    }
    if dx > lim || dy > lim || dz > lim {
        proof {
            assert(dx * dx + dy * dy + dz * dz > lim * lim) by (nonlinear_arith)
                requires
                    dx > lim || dy > lim || dz > lim,
                    lim == 14000,
            ;
        }
        return false;
    }
    proof {
        assert(dx * dx + dy * dy + dz * dz <= 3 * 14000 * 14000) by (nonlinear_arith)
            requires
                dx <= 14000,
                dy <= 14000,
                dz <= 14000,
        ;
    }
    dx * dx + dy * dy + dz * dz <= lim * lim
}

/// Apply the first-contact shouts (shouter position, sighting) to every
/// enemy: calm enemies within the alarm radius of a shouter converge on
/// its sighting (see `alarmed`).
pub fn spread_alarms(minds: &mut Vec<Mind>, pos: &Vec<PosMm>, alarms: &Vec<(PosMm, PosMm)>)
    requires
        old(minds)@.len() == pos@.len(),
    ensures
        final(minds)@.len() == old(minds)@.len(),
        forall|k: int| 0 <= k < pos@.len() ==> #[trigger] final(minds)@[k] == alarmed(old(minds)@[k], pos@[k], alarms@),
{
    let ghost m0 = minds@;
    let mut k: usize = 0;
    while k < minds.len()
        invariant
            minds@.len() == m0.len(),
            m0.len() == pos@.len(),
            k <= minds@.len(),
            forall|j: int| 0 <= j < k ==> #[trigger] minds@[j] == alarmed(m0[j], pos@[j], alarms@),
            forall|j: int| k <= j < minds@.len() ==> #[trigger] minds@[j] == m0[j],
        decreases minds@.len() - k,
    {
        let mut m = minds[k];
        let p = pos[k];
        let mut a: usize = 0;
        while a < alarms.len()
            invariant
                a <= alarms@.len(),
                m == alarmed(m0[k as int], p, alarms@.take(a as int)),
                k < m0.len(),
                p == pos@[k as int],
            decreases alarms@.len() - a,
        {
            let (shouter, sighting) = alarms[a];
            proof {
                assert(alarms@.take(a as int + 1).drop_last() =~= alarms@.take(a as int));
            }
            if (m.mode == AiMode::Patrol || m.mode == AiMode::Suspicious) && in_alarm_range(p, shouter) {
                m.mode = AiMode::Search;
                m.mode_timer_ms = SEARCH_MS;
                m.mode_total_ms = SEARCH_MS;
                m.last_known = Some(sighting);
                m.high_alert_ms = HIGH_ALERT_MS;
            }
            a = a + 1;
        }
        proof {
            assert(alarms@.take(alarms@.len() as int) =~= alarms@);
        }
        minds.set(k, m);
        k = k + 1;
    }
}

/// What one enemy's senses get this tick: where the enemy stands, the
/// players (distance and view test from the physics side) and the pending
/// noises as they reach it.
pub struct EnemySenses {
    pub pos: PosMm,
    pub players: Vec<PlayerSense>,
    pub noises: Vec<Noise>,
}

/// The alert and cover clocks after `dt` milliseconds (see `tick_alert`).
pub open spec fn alert_step(m: Mind, dt: u32) -> Mind {
    Mind { high_alert_ms: dec_floor0(m.high_alert_ms, dt), cover_cd_ms: dec_floor0(m.cover_cd_ms, dt), ..m }
}

/// The nearest player in view (see `sense`).
pub open spec fn seen_of(s: EnemySenses) -> Option<PosMm> {
    match nearest_in(s.players@.map_values(|p: PlayerSense| sight_of(p))) {
        Some(c) => Some(c.0),
        None => None,
    }
}

/// The nearest thing heard (see `sense`).
pub open spec fn heard_of(s: EnemySenses, alert: bool) -> Option<PosMm> {
    match nearest_in(s.players@.map_values(|p: PlayerSense| sound_of(p, alert)) + s.noises@.map_values(|n: Noise| noise_of(n, alert))) {
        Some(c) => Some(c.0),
        None => None,
    }
}

/// A mind after its own part of a tick: clocks, senses, mode machine.
pub open spec fn own_tick(m: Mind, dt: u32, s: EnemySenses) -> Mind {
    let a = alert_step(m, dt);
    think_spec(a, dt as int, seen_of(s), heard_of(s, a.high_alert_ms > 0))
}

/// The enemy shouts this tick: it sees a player on first contact.
pub open spec fn shouts(m: Mind, s: EnemySenses) -> bool {
    seen_of(s) is Some && m.mode != AiMode::Combat && m.mode != AiMode::Cover
}

/// The shouts of the first `n` enemies, in order: shouter position and sighting.
pub open spec fn shouts_of(minds: Seq<Mind>, senses: Seq<EnemySenses>, n: int) -> Seq<(PosMm, PosMm)>
    decreases n,
{
    if n <= 0 {
        Seq::empty()
    } else {
        let p = shouts_of(minds, senses, n - 1);
        let s = senses[n - 1];
        if shouts(minds[n - 1], s) { p.push((s.pos, seen_of(s)->0)) } else { p }
    }
}

proof fn lemma_alarmed_bounded(m: Mind, p: PosMm, a: Seq<(PosMm, PosMm)>)
    requires
        timers_bounded(m),
    ensures
        timers_bounded(alarmed(m, p, a)),
    decreases a.len(),
{
    if a.len() > 0 {
        lemma_alarmed_bounded(m, p, a.drop_last());
    }
}

proof fn lemma_alarmed_engaged(m: Mind, p: PosMm, a: Seq<(PosMm, PosMm)>)
    requires
        m.mode == AiMode::Combat || m.mode == AiMode::Cover,
    ensures
        alarmed(m, p, a) == m,
    decreases a.len(),
{
    if a.len() > 0 {
        lemma_alarmed_engaged(m, p, a.drop_last());
    }
}

proof fn lemma_alarmed_calm(m: Mind, p: PosMm, a: Seq<(PosMm, PosMm)>)
    requires
        m.mode == AiMode::Patrol || m.mode == AiMode::Suspicious || m.mode == AiMode::Search,
    ensures
        alarmed(m, p, a).mode == AiMode::Patrol || alarmed(m, p, a).mode == AiMode::Suspicious
            || alarmed(m, p, a).mode == AiMode::Search,
    decreases a.len(),
{
    if a.len() > 0 {
        lemma_alarmed_calm(m, p, a.drop_last());
    }
}

/// One perception tick for all enemies: each runs its clocks, senses and
/// mode machine (see `own_tick`); then the first-contact shouts reach the
/// calm enemies in range (see `alarmed`); the noise buffer is emptied.
/// (Cover dives, `try_cover`, act on enemies in combat only, which shouts
/// leave alone, so they may run before or after.)
pub fn perceive_tick(minds: &mut Vec<Mind>, senses: &Vec<EnemySenses>, noise_buffer: &mut Vec<(PosMm, u32)>, dt_ms: u32)
    requires
        old(minds)@.len() == senses@.len(),
        forall|k: int| 0 <= k < old(minds)@.len() ==> timers_bounded(#[trigger] old(minds)@[k]),
    ensures
        final(minds)@.len() == old(minds)@.len(),
        forall|k: int| 0 <= k < senses@.len() ==> #[trigger] final(minds)@[k] == alarmed(
            own_tick(old(minds)@[k], dt_ms, senses@[k]),
            senses@[k].pos,
            shouts_of(old(minds)@, senses@, senses@.len() as int),
        ),
        forall|k: int| 0 <= k < final(minds)@.len() ==> timers_bounded(#[trigger] final(minds)@[k]),
        final(noise_buffer)@.len() == 0,
{
    let ghost m0 = minds@;
    let mut pos: Vec<PosMm> = Vec::new();
    let mut alarms: Vec<(PosMm, PosMm)> = Vec::new();
    let mut k: usize = 0;
    while k < minds.len()
        invariant
            minds@.len() == m0.len(),
            m0.len() == senses@.len(),
            k <= m0.len(),
            pos@.len() == k,
            forall|j: int| 0 <= j < k ==> #[trigger] pos@[j] == senses@[j].pos,
            forall|j: int| 0 <= j < k ==> #[trigger] minds@[j] == own_tick(m0[j], dt_ms, senses@[j]),
            forall|j: int| 0 <= j < k ==> timers_bounded(#[trigger] minds@[j]),
            forall|j: int| k <= j < m0.len() ==> #[trigger] minds@[j] == m0[j],
            forall|j: int| 0 <= j < m0.len() ==> timers_bounded(#[trigger] m0[j]),
            alarms@ == shouts_of(m0, senses@, k as int),
        decreases m0.len() - k,
    {
        let mut m = minds[k];
        let ghost before = m;
        let alert = tick_alert(&mut m, dt_ms);
        proof {
            assert(m == alert_step(before, dt_ms));
        }
        let (seen, heard) = sense(&senses[k].players, &senses[k].noises, alert);
        let shout = think(&mut m, dt_ms, seen, heard);
        if shout {
            match seen {
                Some(p) => alarms.push((senses[k].pos, p)),
                None => {},
            }
        }
        pos.push(senses[k].pos);
        minds.set(k, m);
        k = k + 1;
    }
    let ghost ticked = minds@;
    spread_alarms(minds, &pos, &alarms);
    proof {
        assert forall|j: int| 0 <= j < minds@.len() implies timers_bounded(#[trigger] minds@[j]) by {
            lemma_alarmed_bounded(ticked[j], pos@[j], alarms@);
        }
    }
    *noise_buffer = Vec::new();
}

/// The one-tick perception law: an enemy that has a player in view ends
/// the tick engaged (combat or cover), seeing, with the nearest player in
/// view as its last known position and its alert fully re-armed; a
/// patrolling enemy with no player in view ends the tick patrolling,
/// suspicious or searching, never engaged. This holds whatever shouts the
/// tick carries.
pub proof fn law_one_tick(m: Mind, dt: u32, s: EnemySenses, alarms: Seq<(PosMm, PosMm)>)
    ensures
        seen_of(s) is Some ==> {
            let r = alarmed(own_tick(m, dt, s), s.pos, alarms);
            &&& (r.mode == AiMode::Combat || r.mode == AiMode::Cover)
            &&& r.sees_target
            &&& r.last_known == seen_of(s)
            &&& r.high_alert_ms == HIGH_ALERT_MS
        },
        seen_of(s) is None && m.mode == AiMode::Patrol ==> {
            let r = alarmed(own_tick(m, dt, s), s.pos, alarms);
            r.mode == AiMode::Patrol || r.mode == AiMode::Suspicious || r.mode == AiMode::Search
        },
{
    let t = own_tick(m, dt, s);
    if seen_of(s) is Some {
        lemma_alarmed_engaged(t, s.pos, alarms);
    } else if m.mode == AiMode::Patrol {
        lemma_alarmed_calm(t, s.pos, alarms);
    }
}
} // verus!
