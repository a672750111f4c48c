//! Path following for agents on the nav grid: which point an agent steers
//! for, when it asks for a new path, and when it pursues directly.
//! Positions are millimetres from the map centre, timers milliseconds.

use vstd::prelude::*;

use crate::ai::{AiMode, PosMm};
use crate::nav::{half_toward_zero, EnemyNav};

verus! {

/// A waypoint counts as reached within this horizontal distance.
pub const WAYPOINT_REACHED_MM: i64 = 900;

/// Least time between two path searches.
pub const REPATH_INTERVAL_MS: u32 = 700;

/// Within this horizontal distance on the same level, pursue directly.
pub const DIRECT_PURSUIT_MM: i64 = 6000;

/// Heights closer than this count as the same level.
pub const SAME_LEVEL_MM: i64 = 1000;

/// Largest grid coordinate, cell size and grid width steering works with.
pub const STEER_LIMIT: i64 = 0x100_0000;

/// Largest position coordinate steering works with.
pub const POS_LIMIT: i64 = 0x4_0000_0000_0000;

/// Where an agent is heading on the grid.
#[derive(Debug)]
pub struct Steering {
    /// Cells still to walk through, next first.
    pub path: Vec<(i32, i32)>,
    /// Cell the current path leads to.
    pub goal_cell: Option<(i32, i32)>,
    /// Point the agent walks toward.
    pub steer: PosMm,
    /// Time until a new path may be searched.
    pub repath_ms: u32,
}

/// Grid coordinates within the steering limits.
pub open spec fn cell_ok(c: (i32, i32)) -> bool {
    -STEER_LIMIT <= c.0 <= STEER_LIMIT && -STEER_LIMIT <= c.1 <= STEER_LIMIT
}

/// A position within the steering limits.
pub open spec fn pos_ok(p: PosMm) -> bool {
    -POS_LIMIT <= p.0 <= POS_LIMIT && -POS_LIMIT <= p.1 <= POS_LIMIT && -POS_LIMIT <= p.2 <= POS_LIMIT
}

/// A nav grid steering works on: well formed, cells and sizes within limits.
pub open spec fn steerable(nav: EnemyNav) -> bool {
    &&& nav.wf()
    &&& 0 < nav.cell_mm <= STEER_LIMIT
    &&& nav.cells_x <= STEER_LIMIT
    &&& nav.cells_z <= STEER_LIMIT
    &&& forall|i: int| 0 <= i < nav.cells@.len() ==> cell_ok(#[trigger] nav.pos(i))
}

/// The steering's cells are within limits.
pub open spec fn steering_ok(s: Steering) -> bool {
    &&& forall|i: int| 0 <= i < s.path@.len() ==> cell_ok(#[trigger] s.path@[i])
    &&& s.goal_cell matches Some(g) ==> cell_ok(g)
}

/// Centre of cell `c` at its floor height (see `EnemyNav::world_of_mm`).
pub open spec fn centre_of(nav: EnemyNav, c: (i32, i32)) -> PosMm {
    (
        half_toward_zero(nav.centre2(c.0 as int, nav.cells_x as int)) as i64,
        nav.floor_y(c) as i64,
        half_toward_zero(nav.centre2(c.1 as int, nav.cells_z as int)) as i64,
    )
}

/// Squared horizontal distance.
pub open spec fn dist2_xz(a: PosMm, b: PosMm) -> int {
    (a.0 - b.0) * (a.0 - b.0) + (a.2 - b.2) * (a.2 - b.2)
}

/// The agent at `pos` has reached the centre of cell `c`.
pub open spec fn reached(nav: EnemyNav, pos: PosMm, c: (i32, i32)) -> bool {
    dist2_xz(centre_of(nav, c), pos) < WAYPOINT_REACHED_MM * WAYPOINT_REACHED_MM
}

proof fn lemma_centre_bounds(nav: EnemyNav, c: (i32, i32))
    requires
        steerable(nav),
        cell_ok(c),
    ensures
        -0x4000_0000_0000_0000 <= nav.centre2(c.0 as int, nav.cells_x as int) <= 0x4000_0000_0000_0000,
        -0x4000_0000_0000_0000 <= nav.centre2(c.1 as int, nav.cells_z as int) <= 0x4000_0000_0000_0000,
        -0x10_0000_0000_0000 <= half_toward_zero(nav.centre2(c.0 as int, nav.cells_x as int)) <= 0x10_0000_0000_0000,
        -0x10_0000_0000_0000 <= half_toward_zero(nav.centre2(c.1 as int, nav.cells_z as int)) <= 0x10_0000_0000_0000,
{
    let a = 2 * c.0 - nav.cells_x + 1;
    let b = 2 * c.1 - nav.cells_z + 1;
    assert(-0x400_0000 <= a <= 0x400_0000);
    assert(-0x400_0000 <= b <= 0x400_0000);
    assert(-0x10_0000_0000_0000 <= a * nav.cell_mm <= 0x10_0000_0000_0000) by (nonlinear_arith)
        requires
            -0x400_0000 <= a <= 0x400_0000,
            0 < nav.cell_mm <= 0x100_0000,
    ;
    assert(-0x10_0000_0000_0000 <= b * nav.cell_mm <= 0x10_0000_0000_0000) by (nonlinear_arith)
        requires
            -0x400_0000 <= b <= 0x400_0000,
            0 < nav.cell_mm <= 0x100_0000,
    ;
}

proof fn lemma_square_bound(x: int)
    requires
        -0x20_0000_0000_0000 <= x <= 0x20_0000_0000_0000,
    ensures
        0 <= x * x <= 0x400_0000_0000_0000_0000_0000_0000,
{
    assert(0 <= x * x <= 0x400_0000_0000_0000_0000_0000_0000) by (nonlinear_arith)
        requires
            -0x20_0000_0000_0000 <= x <= 0x20_0000_0000_0000,
    ;
}

/// The centre of `c`, and its squared horizontal distance to `pos`.
fn centre_and_dist(nav: &EnemyNav, c: (i32, i32), pos: PosMm) -> (r: (PosMm, i128))
    requires
        steerable(*nav),
        cell_ok(c),
        pos_ok(pos),
    ensures
        r.0 == centre_of(*nav, c),
        r.1 == dist2_xz(r.0, pos),
{
    proof {
        lemma_centre_bounds(*nav, c);
    }
    let w = nav.world_of_mm(c);
    let centre: PosMm = (w.0, w.1 as i64, w.2);
    let dx = (w.0 as i128) - (pos.0 as i128);
    let dz = (w.2 as i128) - (pos.2 as i128);
    proof {
        lemma_square_bound(dx as int);
        lemma_square_bound(dz as int);
    }
    (centre, dx * dx + dz * dz)
}

/// Drop the leading waypoints the agent at `pos` has reached and steer for
/// the next one; with the path used up, steer for the goal cell's centre and
/// forget the goal. Nothing changes without a grid or a path (a cover dive
/// keeps its own steer point).
pub fn advance_waypoints(nav: &EnemyNav, pos: PosMm, st: &mut Steering)
    requires
        steerable(*nav),
        pos_ok(pos),
        steering_ok(*old(st)),
    ensures
        steering_ok(*final(st)),
        final(st).repath_ms == old(st).repath_ms,
        (nav.cells@.len() == 0 || old(st).path@.len() == 0) ==> *final(st) == *old(st),
        !(nav.cells@.len() == 0 || old(st).path@.len() == 0) ==> {
            let n = old(st).path@.len() - final(st).path@.len();
            &&& 0 <= n <= old(st).path@.len()
            &&& final(st).path@ == old(st).path@.subrange(n, old(st).path@.len() as int)
            &&& forall|i: int| 0 <= i < n ==> reached(*nav, pos, #[trigger] old(st).path@[i])
            &&& final(st).path@.len() > 0 ==> !reached(*nav, pos, final(st).path@[0]) && final(st).steer == centre_of(
                *nav,
                final(st).path@[0],
            ) && final(st).goal_cell == old(st).goal_cell
            &&& final(st).path@.len() == 0 ==> final(st).goal_cell is None && match old(st).goal_cell {
                Some(g) => final(st).steer == centre_of(*nav, g),
                None => final(st).steer == old(st).steer,
            }
        },
{
    if nav.is_empty() || st.path.len() == 0 {
        return;
    }
    let ghost p0 = st.path@;
    let mut k: usize = 0;
    while k < st.path.len()
        invariant
            k <= st.path@.len(),
            st.path@ == p0,
            steerable(*nav),
            pos_ok(pos),
            forall|i: int| 0 <= i < p0.len() ==> cell_ok(#[trigger] p0[i]),
            forall|i: int| 0 <= i < k ==> reached(*nav, pos, #[trigger] p0[i]),
        ensures
            k <= p0.len(),
            st.path@ == p0,
            forall|i: int| 0 <= i < k ==> reached(*nav, pos, #[trigger] p0[i]),
            k < p0.len() ==> !reached(*nav, pos, p0[k as int]),
        decreases st.path@.len() - k,
    {
        let (w, d2) = centre_and_dist(nav, st.path[k], pos);
        if d2 >= (WAYPOINT_REACHED_MM as i128) * (WAYPOINT_REACHED_MM as i128) {
            break;
        }
        k += 1;
    }
    let mut rest: Vec<(i32, i32)> = Vec::new();
    let mut j: usize = k;
    while j < st.path.len()
        invariant
            k <= j <= st.path@.len(),
            st.path@ == p0,
            rest@ == p0.subrange(k as int, j as int),
        decreases st.path@.len() - j,
    {
        rest.push(st.path[j]);
        proof {
            assert(p0.subrange(k as int, j + 1) =~= p0.subrange(k as int, j as int).push(p0[j as int]));
        }
        j += 1;
    }
    if rest.len() > 0 {
        let (w, _) = centre_and_dist(nav, rest[0], pos);
        st.steer = w;
        st.path = rest;
        return;
    }
    st.path = rest;
    match st.goal_cell {
        Some(g) => {
            let (w, _) = centre_and_dist(nav, g, pos);
            st.steer = w;
            st.goal_cell = None;
        },
        None => {},
    }
}

/// What `advance_waypoints` makes of `before` for an agent at `pos`.
pub open spec fn advanced(nav: EnemyNav, pos: PosMm, before: Steering, after: Steering) -> bool {
    &&& after.repath_ms == before.repath_ms
    &&& (nav.cells@.len() == 0 || before.path@.len() == 0) ==> after == before
    &&& !(nav.cells@.len() == 0 || before.path@.len() == 0) ==> {
        let n = before.path@.len() - after.path@.len();
        &&& 0 <= n <= before.path@.len()
        &&& after.path@ == before.path@.subrange(n, before.path@.len() as int)
        &&& forall|i: int| 0 <= i < n ==> reached(nav, pos, #[trigger] before.path@[i])
        &&& after.path@.len() > 0 ==> !reached(nav, pos, after.path@[0]) && after.steer == centre_of(nav, after.path@[0])
            && after.goal_cell == before.goal_cell
        &&& after.path@.len() == 0 ==> after.goal_cell is None && match before.goal_cell {
            Some(g) => after.steer == centre_of(nav, g),
            None => after.steer == before.steer,
        }
    }
}

/// `q` is what `EnemyNav::nearest_cell` may answer for `(x, z)`: the cell
/// under the point if the grid has it, else a grid cell nearest to it.
pub open spec fn nearest(nav: EnemyNav, x: i64, z: i64, q: (i32, i32)) -> bool {
    let c = nav.cell_of_spec(x, z);
    &&& nav.has_cell(q)
    &&& nav.has_cell(c) ==> q == c
    &&& forall|i: int| 0 <= i < nav.cells@.len() ==> crate::nav::cell_dist2(q, c) <= #[trigger] crate::nav::cell_dist2(nav.pos(i), c)
}

/// The target is close and on the agent's level: pursue it directly.
pub open spec fn direct_pursuit(pos: PosMm, target: PosMm) -> bool {
    &&& dist2_xz(target, pos) < DIRECT_PURSUIT_MM * DIRECT_PURSUIT_MM
    &&& -SAME_LEVEL_MM < target.1 - pos.1 < SAME_LEVEL_MM
}

proof fn lemma_walk_cells_ok(nav: EnemyNav, p: Seq<(i32, i32)>)
    requires
        steerable(nav),
        nav.is_walk(p),
    ensures
        forall|i: int| 0 <= i < p.len() ==> cell_ok(#[trigger] p[i]),
{
    assert forall|i: int| 0 <= i < p.len() implies cell_ok(#[trigger] p[i]) by {
        if i > 0 {
            let j = i - 1;
            assert(nav.step(p[j], p[j + 1]));
            let (a, k) = choose|a: int, k: int| #[trigger] nav.link(a, k, p[j], p[j + 1]);
        }
        let j = choose|j: int| #[trigger] nav.at(j, p[i]);
        assert(nav.pos(j) == p[i]);
    }
}

/// The path search step of `navigate_toward`, from the agent's cell `cur`
/// toward `goal`: a stale path (another goal, or none left) is searched
/// again once the repath timer is out, which re-arms the timer, and the
/// path found is a cheapest walk; otherwise nothing changes.
pub open spec fn path_refreshed(nav: EnemyNav, before: Steering, cur: (i32, i32), goal: (i32, i32), mid: Steering) -> bool {
    let stale = before.goal_cell != Some(goal) || before.path@.len() == 0;
    &&& (stale && before.repath_ms == 0) ==> mid.repath_ms == REPATH_INTERVAL_MS && mid.steer == before.steer && (if nav.connected(cur, goal) {
        nav.is_walk(mid.path@) && mid.path@[0] == cur && mid.path@.last() == goal && mid.goal_cell == Some(goal)
            && nav.cost_at_least(cur, goal, nav.walk_cost(mid.path@))
    } else {
        mid.path == before.path && mid.goal_cell == before.goal_cell
    })
    &&& !(stale && before.repath_ms == 0) ==> mid == before
}

/// What `navigate_toward` does to the steering state `before`, giving `after`.
pub open spec fn navigated(nav: EnemyNav, off_grid: bool, pos: PosMm, target: PosMm, before: Steering, after: Steering) -> bool {
    &&& (off_grid ==> after.steer == (target.0, pos.1, target.2) && after.path == before.path && after.goal_cell == before.goal_cell && after.repath_ms == before.repath_ms)
    &&& (!off_grid && direct_pursuit(pos, target) ==> after.steer == (target.0, pos.1, target.2) && after.path@.len() == 0 && after.goal_cell is None && after.repath_ms == before.repath_ms)
    &&& (!off_grid && !direct_pursuit(pos, target) && nav.cells@.len() == 0 ==> after == before)
    &&& (!off_grid && !direct_pursuit(pos, target) && nav.cells@.len() > 0 ==> exists|cur: (i32, i32), goal: (i32, i32), mid: Steering|
        #[trigger] nearest(nav, pos.0, pos.2, cur) && #[trigger] nav.has_cell(goal)
            && (nav.has_cell(nav.cell_of_spec(target.0, target.2)) ==> goal == nav.cell_of_spec(target.0, target.2))
            && (!nav.has_cell(nav.cell_of_spec(target.0, target.2)) ==> nearest(nav, target.0, target.2, goal))
            && path_refreshed(nav, before, cur, goal, mid) && steering_ok(mid) && #[trigger] advanced(nav, pos, mid, after))
}

/// Steer toward `target` (agent at `pos`): straight at it when off the grid
/// or when it is close on the same level (dropping any path); otherwise
/// along a grid path to the target's cell (or the cell nearest to it),
/// searched again when the goal changed or the path ran out and the repath
/// timer allows, then followed with `advance_waypoints`.
pub fn navigate_toward(nav: &EnemyNav, off_grid: bool, pos: PosMm, target: PosMm, st: &mut Steering)
    requires
        steerable(*nav),
        pos_ok(pos),
        pos_ok(target),
        steering_ok(*old(st)),
    ensures
        steering_ok(*final(st)),
        navigated(*nav, off_grid, pos, target, *old(st), *final(st)),
{
    if off_grid {
        st.steer = (target.0, pos.1, target.2);
        return;
    }
    let dx = (target.0 as i128) - (pos.0 as i128);
    let dz = (target.2 as i128) - (pos.2 as i128);
    let dy = (target.1 as i128) - (pos.1 as i128);
    proof {
        lemma_square_bound(dx as int);
        lemma_square_bound(dz as int);
    }
    let close = dx * dx + dz * dz < 36_000_000i128;
    let same_level = -(SAME_LEVEL_MM as i128) < dy && dy < SAME_LEVEL_MM as i128;
    if close && same_level {
        st.path = Vec::new();
        st.goal_cell = None;
        st.steer = (target.0, pos.1, target.2);
        return;
    }
    let cur = match nav.nearest_cell(pos.0, pos.2) {
        Some(c) => c,
        None => {
            return;
        },
    };
    let goal_c = nav.cell_of_mm(target.0, target.2);
    let goal = match nav.index_of(goal_c.0, goal_c.1) {
        Some(_) => goal_c,
        None => match nav.nearest_cell(target.0, target.2) {
            Some(n) => n,
            None => {
                return;
            },
        },
    };
    let stale = match st.goal_cell {
        Some(g) => g.0 != goal.0 || g.1 != goal.1,
        None => true,
    } || st.path.len() == 0;
    if stale && st.repath_ms == 0 {
        match nav.find_path(cur, goal) {
            Some(p) => {
                proof {
                    lemma_walk_cells_ok(*nav, p@);
                }
                st.path = p;
                st.goal_cell = Some(goal);
            },
            None => {},
        }
        st.repath_ms = REPATH_INTERVAL_MS;
    }
    let ghost mid = *st;
    proof {
        let j = choose|j: int| #[trigger] nav.at(j, cur);
        assert(nav.pos(j) == cur);
        let j2 = choose|j: int| #[trigger] nav.at(j, goal);
        assert(nav.pos(j2) == goal);
    }
    advance_waypoints(nav, pos, st);
    proof {
        assert(nearest(*nav, pos.0, pos.2, cur));
        assert(nav.has_cell(goal));
        assert(advanced(*nav, pos, mid, *st));
    }
}

/// Squared range within which a ranged enemy that sees its target holds
/// its ground (16 m, four fifths of the firing range).
pub const HOLD_RANGE2_MM: i128 = 256_000_000;

/// A ranged enemy in combat: it holds its ground (no path, steering at its
/// own position) while it sees the target within range, and closes in with
/// `navigate_toward` otherwise.
pub fn hold_or_pursue(nav: &EnemyNav, off_grid: bool, pos: PosMm, target: PosMm, sees_target: bool, st: &mut Steering)
    requires
        steerable(*nav),
        pos_ok(pos),
        pos_ok(target),
        steering_ok(*old(st)),
    ensures
        steering_ok(*final(st)),
        (sees_target && dist2_xz(target, pos) < HOLD_RANGE2_MM) ==> final(st).path@.len() == 0 && final(st).goal_cell is None
            && final(st).steer == pos && final(st).repath_ms == old(st).repath_ms,
        !(sees_target && dist2_xz(target, pos) < HOLD_RANGE2_MM) ==> navigated(*nav, off_grid, pos, target, *old(st), *final(st)),
{
    let dx = (target.0 as i128) - (pos.0 as i128);
    let dz = (target.2 as i128) - (pos.2 as i128);
    proof {
        lemma_square_bound(dx as int);
        lemma_square_bound(dz as int);
    }
    if sees_target && dx * dx + dz * dz < HOLD_RANGE2_MM {
        st.path = Vec::new();
        st.goal_cell = None;
        st.steer = pos;
        return;
    }
    navigate_toward(nav, off_grid, pos, target, st);
}


/// A searching enemy has reached the spot it searches (within 1.5 m).
pub const SEARCH_ARRIVED_MM: i128 = 1500;

/// A patrolling enemy has reached its waypoint (within 1.2 m).
pub const PATROL_ARRIVED_MM: i128 = 1200;

/// Where an enemy heads this tick, by its mode.
#[derive(Clone, Copy, Debug, PartialEq, Eq)]
pub enum NavPlan {
    /// Combat with a known target: hold or close in (`hold_or_pursue`).
    Engage(PosMm),
    /// Walk to a point (`navigate_toward`).
    GoTo(PosMm),
    /// At the searched spot: sweep the area with short hops around it.
    Sweep(PosMm),
    /// Follow the current path (a cover dive).
    FollowPath,
    /// At the patrol waypoint: wait, then move on to the next one.
    AtWaypoint(PosMm),
    /// No target and no route: wander.
    Wander,
}

/// The plan for an enemy at `pos` in `mode`, with its last sensed target
/// and its patrol route at index `patrol_i`.
pub open spec fn plan_spec(mode: AiMode, last_known: Option<PosMm>, pos: PosMm, route: Seq<PosMm>, patrol_i: int) -> NavPlan {
    match mode {
        AiMode::Combat => match last_known {
            Some(t) => NavPlan::Engage(t),
            None => NavPlan::Wander,
        },
        AiMode::Suspicious => match last_known {
            Some(t) => NavPlan::GoTo(t),
            None => NavPlan::Wander,
        },
        AiMode::Search => match last_known {
            Some(t) => if dist2_xz(t, pos) < SEARCH_ARRIVED_MM * SEARCH_ARRIVED_MM { NavPlan::Sweep(t) } else { NavPlan::GoTo(t) },
            None => NavPlan::Wander,
        },
        AiMode::Cover => NavPlan::FollowPath,
        AiMode::Patrol => if route.len() > 0 {
            let wp = route[patrol_i % (route.len() as int)];
            if dist2_xz(wp, pos) < PATROL_ARRIVED_MM * PATROL_ARRIVED_MM { NavPlan::AtWaypoint(wp) } else { NavPlan::GoTo(wp) }
        } else {
            NavPlan::Wander
        },
    }
}

/// Where the plan leads is always where the player was last sensed or the
/// current patrol waypoint: combat engages the last known position, a cover
/// dive follows its path, a search sweeps only once at the spot, a patrol
/// waits only at its waypoint, and the agent wanders exactly when it has
/// neither a target nor a route.
pub proof fn law_plan_targets(mode: AiMode, last_known: Option<PosMm>, pos: PosMm, route: Seq<PosMm>, patrol_i: int)
    requires
        patrol_i >= 0,
    ensures
        ({
            let p = plan_spec(mode, last_known, pos, route, patrol_i);
            let wp = route[patrol_i % (route.len() as int)];
            &&& p matches NavPlan::Engage(t) ==> mode == AiMode::Combat && last_known == Some(t)
            &&& p matches NavPlan::Sweep(t) ==> mode == AiMode::Search && last_known == Some(t) && dist2_xz(t, pos)
                < SEARCH_ARRIVED_MM * SEARCH_ARRIVED_MM
            &&& p matches NavPlan::AtWaypoint(t) ==> mode == AiMode::Patrol && route.len() > 0 && t == wp && dist2_xz(t, pos)
                < PATROL_ARRIVED_MM * PATROL_ARRIVED_MM
            &&& p matches NavPlan::GoTo(t) ==> (mode != AiMode::Patrol && last_known == Some(t)) || (mode == AiMode::Patrol
                && route.len() > 0 && t == wp)
            &&& (p == NavPlan::FollowPath) <==> mode == AiMode::Cover
            &&& (p == NavPlan::Wander) <==> (mode != AiMode::Cover && mode != AiMode::Patrol && last_known is None)
                || (mode == AiMode::Patrol && route.len() == 0)
            &&& mode == AiMode::Combat && last_known is Some ==> p == NavPlan::Engage(last_known->0)
        }),
{
}

/// The agent at `pos` is within `r` of `p` on the ground plane.
fn near_xz(p: PosMm, pos: PosMm, r: i128) -> (b: bool)
    requires
        pos_ok(p),
        pos_ok(pos),
        0 <= r <= 1_000_000,
    ensures
        b == (dist2_xz(p, pos) < r * r),
{
    let dx = (p.0 as i128) - (pos.0 as i128);
    let dz = (p.2 as i128) - (pos.2 as i128);
    proof {
        lemma_square_bound(dx as int);
        lemma_square_bound(dz as int);
        assert(0 <= r * r <= 1_000_000_000_000) by (nonlinear_arith)
            requires
                0 <= r <= 1_000_000,
        ;
    }
    dx * dx + dz * dz < r * r
}

/// Where an enemy heads this tick (see `plan_spec`): combat engages the
/// known target; suspicion walks to it; a search walks to the spot, then
/// sweeps around it; a cover dive follows its path; a patrol walks its
/// route, waiting at each waypoint; without a target or route, it wanders.
pub fn plan(mode: AiMode, last_known: Option<PosMm>, pos: PosMm, route: &Vec<PosMm>, patrol_i: usize) -> (r: NavPlan)
    requires
        pos_ok(pos),
        last_known matches Some(t) ==> pos_ok(t),
        forall|k: int| 0 <= k < route@.len() ==> pos_ok(#[trigger] route@[k]),
    ensures
        r == plan_spec(mode, last_known, pos, route@, patrol_i as int),
{
    match mode {
        AiMode::Combat => match last_known {
            Some(t) => NavPlan::Engage(t),
            None => NavPlan::Wander,
        },
        AiMode::Suspicious => match last_known {
            Some(t) => NavPlan::GoTo(t),
            None => NavPlan::Wander,
        },
        AiMode::Search => match last_known {
            Some(t) => if near_xz(t, pos, SEARCH_ARRIVED_MM) { NavPlan::Sweep(t) } else { NavPlan::GoTo(t) },
            None => NavPlan::Wander,
        },
        AiMode::Cover => NavPlan::FollowPath,
        AiMode::Patrol => if route.len() > 0 {
            let wp = route[patrol_i % route.len()];
            if near_xz(wp, pos, PATROL_ARRIVED_MM) { NavPlan::AtWaypoint(wp) } else { NavPlan::GoTo(wp) }
        } else {
            NavPlan::Wander
        },
    }
}

/// The waypoint after `i` on a route of `n` waypoints, wrapping round.
pub fn next_waypoint(i: usize, n: usize) -> (r: usize)
    requires
        n > 0,
    ensures
        r == (i as int + 1) % (n as int),
{
    proof {
        vstd::arithmetic::div_mod::lemma_add_mod_noop_right(1, i as int, n as int);
    }
    (i % n + 1) % n
}

/// A short hop: a path from `cur` to some cell `goal` within `steps` steps
/// of `anchor` (other than `anchor`), as the grid's `random_nearby_cell`
/// picks it. With no such cell, or no walk to the picked one, nothing
/// changes; the steer point and repath timer never do.
pub open spec fn hopped(nav: EnemyNav, anchor: (i32, i32), cur: (i32, i32), steps: u32, before: Steering, after: Steering) -> bool {
    &&& (forall|x: (i32, i32)| x != anchor ==> !#[trigger] nav.within(anchor, x, steps as int)) ==> after == before
    &&& after == before || exists|goal: (i32, i32)|
        #[trigger] nav.within(anchor, goal, steps as int) && goal != anchor && nav.connected(cur, goal) && nav.is_walk(after.path@)
            && after.path@[0] == cur && after.path@.last() == goal && after.goal_cell == Some(goal) && nav.cost_at_least(
            cur,
            goal,
            nav.walk_cost(after.path@),
        ) && after.steer == before.steer && after.repath_ms == before.repath_ms
}

/// Take a short hop (see `hopped`) with the grid's random pick for `seed`.
fn hop(nav: &EnemyNav, anchor: (i32, i32), cur: (i32, i32), steps: u32, seed: u32, st: &mut Steering)
    requires
        steerable(*nav),
        steering_ok(*old(st)),
    ensures
        steering_ok(*final(st)),
        hopped(*nav, anchor, cur, steps, *old(st), *final(st)),
{
    match nav.random_nearby_cell(anchor, steps, seed) {
        Some(goal) => match nav.find_path(cur, goal) {
            Some(p) => {
                proof {
                    lemma_walk_cells_ok(*nav, p@);
                    assert(nav.connected(cur, goal));
                }
                st.path = p;
                st.goal_cell = Some(goal);
            },
            None => {},
        },
        None => {},
    }
}

/// The agent is off the nav grid: there is no grid, or the floor of the
/// cell nearest to it lies more than 2 m above or below it (agents on other
/// levels must not path across floor-0 cells).
pub open spec fn off_grid_at(nav: EnemyNav, pos: PosMm, q: (i32, i32)) -> bool {
    nav.floor_y(q) - pos.1 > OFF_GRID_MM || pos.1 - nav.floor_y(q) > OFF_GRID_MM
}

/// `off` is a possible answer of `off_grid` for an agent at `pos` (which
/// of several equally near cells it judges by is left open).
pub open spec fn off_grid_ok(nav: EnemyNav, pos: PosMm, off: bool) -> bool {
    &&& nav.cells@.len() == 0 ==> off
    &&& nav.cells@.len() > 0 ==> exists|q: (i32, i32)| #[trigger] nearest(nav, pos.0, pos.2, q) && off == off_grid_at(nav, pos, q)
}

/// Heights further than this from the nearest cell's floor are off the grid.
pub const OFF_GRID_MM: i64 = 2000;

/// Whether the agent at `pos` is off the nav grid (see `off_grid_at`),
/// judged by the nearest cell the grid finds.
pub fn off_grid(nav: &EnemyNav, pos: PosMm) -> (r: bool)
    requires
        steerable(*nav),
        pos_ok(pos),
    ensures
        off_grid_ok(*nav, pos, r),
{
    match nav.nearest_cell(pos.0, pos.2) {
        None => true,
        Some(q) => {
            proof {
                let j = choose|j: int| #[trigger] nav.at(j, q);
                assert(nav.pos(j) == q);
                lemma_centre_bounds(*nav, q);
            }
            let w = nav.world_of_mm(q);
            let dy = (w.1 as i64) - pos.1;
            proof {
                assert(nearest(*nav, pos.0, pos.2, q));
            }
            dy > OFF_GRID_MM || -dy > OFF_GRID_MM
        },
    }
}

/// An agent's roaming clocks and route position beyond its steering.
#[derive(Clone, Copy, Debug, PartialEq, Eq)]
pub struct Roam {
    /// Time until the next sweep hop or wander pick.
    pub cooldown_ms: u32,
    /// Time left waiting at the current patrol waypoint (may run below zero).
    pub patrol_wait_ms: i64,
    /// Index of the current patrol waypoint.
    pub patrol_i: usize,
    /// Where the agent idles around when off the grid.
    pub home: PosMm,
}

/// The numbers an agent's tick draws from its position and the clock:
/// seeds for the grid's random picks, the next waits, and the off-grid
/// offsets of a sweep (around the target) and a wander (around home).
#[derive(Clone, Copy, Debug)]
pub struct Rolls {
    pub sweep_seed: u32,
    pub sweep_cooldown_ms: u32,
    pub sweep_offset: (i64, i64),
    pub wander_seed: u32,
    pub wander_cooldown_ms: u32,
    pub wander_offset: (i64, i64),
    pub patrol_wait_ms: i64,
}

/// Offsets and waits within what an agent's rolls produce.
pub open spec fn rolls_ok(r: Rolls) -> bool {
    &&& -4000 <= r.sweep_offset.0 <= 4000 && -4000 <= r.sweep_offset.1 <= 4000
    &&& -4000 <= r.wander_offset.0 <= 4000 && -4000 <= r.wander_offset.1 <= 4000
    &&& 0 <= r.patrol_wait_ms <= 3_600_000
}

/// `x` less `d`, not below zero.
pub open spec fn minus_floor0(x: u32, d: u32) -> u32 {
    if x > d { (x - d) as u32 } else { 0 }
}

/// What an agent's navigation tick does, after its clocks have run down by
/// `dt` (`st0`, `cd`): per its plan (`plan_spec`), engage, walk to, sweep
/// around, follow, wait at a waypoint, or wander, ending in `st` and `roam`.
pub open spec fn nav_ticked(
    nav: EnemyNav,
    plan: NavPlan,
    sees_target: bool,
    off_grid: bool,
    pos: PosMm,
    route_len: int,
    dt: u32,
    rolls: Rolls,
    roam0: Roam,
    st0: Steering,
    roam: Roam,
    st: Steering,
) -> bool {
    let cd = minus_floor0(roam0.cooldown_ms, dt);
    match plan {
        NavPlan::Engage(t) => roam == (Roam { cooldown_ms: cd, ..roam0 }) && ((sees_target && dist2_xz(t, pos) < HOLD_RANGE2_MM)
            ==> st.path@.len() == 0 && st.goal_cell is None && st.steer == pos && st.repath_ms == st0.repath_ms) && (!(
        sees_target && dist2_xz(t, pos) < HOLD_RANGE2_MM) ==> navigated(nav, off_grid, pos, t, st0, st)),
        NavPlan::GoTo(t) => roam == (Roam { cooldown_ms: cd, ..roam0 }) && navigated(nav, off_grid, pos, t, st0, st),
        NavPlan::FollowPath => roam == (Roam { cooldown_ms: cd, ..roam0 }) && advanced(nav, pos, st0, st),
        NavPlan::AtWaypoint(_) => {
            let wait = roam0.patrol_wait_ms - dt;
            &&& st == (Steering { steer: pos, ..st0 })
            &&& roam.cooldown_ms == cd && roam.home == roam0.home
            &&& wait > 0 ==> roam.patrol_wait_ms == wait && roam.patrol_i == roam0.patrol_i
            &&& wait <= 0 ==> roam.patrol_wait_ms == rolls.patrol_wait_ms && roam.patrol_i == (roam0.patrol_i + 1) % route_len
        },
        NavPlan::Sweep(t) => {
            &&& roam == (Roam { cooldown_ms: if cd == 0 { rolls.sweep_cooldown_ms } else { cd }, ..roam0 })
            &&& cd > 0 ==> advanced(nav, pos, st0, st)
            &&& cd == 0 && off_grid ==> advanced(nav, pos, Steering { steer: ((t.0 + rolls.sweep_offset.0) as i64, t.1, (t.2 + rolls.sweep_offset.1) as i64), ..st0 }, st)
            &&& cd == 0 && !off_grid ==> exists|anchor: (i32, i32), cur: (i32, i32), mid: Steering|
                #[trigger] nearest(nav, t.0, t.2, anchor) && #[trigger] nearest(nav, pos.0, pos.2, cur) && hopped(nav, anchor, cur, 2, st0, mid)
                    && steering_ok(mid) && #[trigger] advanced(nav, pos, mid, st)
        },
        NavPlan::Wander => {
            &&& roam == (Roam { cooldown_ms: if cd == 0 { rolls.wander_cooldown_ms } else { cd }, ..roam0 })
            &&& cd > 0 ==> advanced(nav, pos, st0, st)
            &&& cd == 0 && off_grid ==> advanced(
                nav,
                pos,
                Steering { steer: ((roam0.home.0 + rolls.wander_offset.0) as i64, roam0.home.1, (roam0.home.2 + rolls.wander_offset.1) as i64), ..st0 },
                st,
            )
            &&& cd == 0 && !off_grid ==> exists|cur: (i32, i32), mid: Steering|
                #[trigger] nearest(nav, pos.0, pos.2, cur) && hopped(nav, cur, cur, 4, st0, mid) && steering_ok(mid) && #[trigger] advanced(
                    nav,
                    pos,
                    mid,
                    st,
                )
        },
    }
}

/// One navigation tick of an agent at `pos` whose mind is in `mode` with
/// last sensed target `last_known`, on its patrol `route`: the hop and
/// repath clocks run down by `dt_ms`, then it acts on its plan (`plan`):
/// engage (`hold_or_pursue`), walk to (`navigate_toward`), sweep around the
/// searched spot with short hops on the hop clock, follow its cover path,
/// wait at a patrol waypoint and move on, or wander with longer hops (off
/// the grid: to a rolled spot around home). See `nav_ticked`.
pub fn nav_tick(
    nav: &EnemyNav,
    mode: AiMode,
    last_known: Option<PosMm>,
    sees_target: bool,
    pos: PosMm,
    route: &Vec<PosMm>,
    dt_ms: u32,
    rolls: Rolls,
    roam: &mut Roam,
    st: &mut Steering,
) -> (plan: NavPlan)
    requires
        steerable(*nav),
        pos_ok(pos),
        last_known matches Some(t) ==> pos_ok(t) && -POS_LIMIT + 4000 <= t.0 <= POS_LIMIT - 4000 && -POS_LIMIT + 4000 <= t.2 <= POS_LIMIT - 4000,
        forall|k: int| 0 <= k < route@.len() ==> pos_ok(#[trigger] route@[k]),
        pos_ok(old(roam).home) && -POS_LIMIT + 4000 <= old(roam).home.0 <= POS_LIMIT - 4000 && -POS_LIMIT + 4000 <= old(roam).home.2
            <= POS_LIMIT - 4000,
        rolls_ok(rolls),
        -0x4000_0000_0000_0000 <= old(roam).patrol_wait_ms <= 0x4000_0000_0000_0000,
        steering_ok(*old(st)),
    ensures
        plan == plan_spec(mode, last_known, pos, route@, old(roam).patrol_i as int),
        steering_ok(*final(st)),
        pos_ok(final(roam).home),
        -0x4000_0000_0000_0000 <= final(roam).patrol_wait_ms <= 0x4000_0000_0000_0000,
        exists|off: bool|
            #[trigger] off_grid_ok(*nav, pos, off) && nav_ticked(
                *nav,
                plan,
                sees_target,
                off,
                pos,
                route@.len() as int,
                dt_ms,
                rolls,
                *old(roam),
                Steering { repath_ms: minus_floor0(old(st).repath_ms, dt_ms), ..*old(st) },
                *final(roam),
                *final(st),
            ),
{
    roam.cooldown_ms = if roam.cooldown_ms > dt_ms { roam.cooldown_ms - dt_ms } else { 0 };
    st.repath_ms = if st.repath_ms > dt_ms { st.repath_ms - dt_ms } else { 0 };
    let ghost st0 = *st;
    let off = off_grid(nav, pos);
    let plan = plan(mode, last_known, pos, route, roam.patrol_i);
    match plan {
        NavPlan::Engage(t) => hold_or_pursue(nav, off, pos, t, sees_target, st),
        NavPlan::GoTo(t) => navigate_toward(nav, off, pos, t, st),
        NavPlan::FollowPath => advance_waypoints(nav, pos, st),
        NavPlan::AtWaypoint(_) => {
            roam.patrol_wait_ms = roam.patrol_wait_ms - dt_ms as i64;
            if roam.patrol_wait_ms <= 0 {
                roam.patrol_i = next_waypoint(roam.patrol_i, route.len());
                roam.patrol_wait_ms = rolls.patrol_wait_ms;
            }
            st.steer = pos;
        },
        NavPlan::Sweep(t) => {
            if roam.cooldown_ms == 0 {
                roam.cooldown_ms = rolls.sweep_cooldown_ms;
                if off {
                    st.steer = (t.0 + rolls.sweep_offset.0, t.1, t.2 + rolls.sweep_offset.1);
                    advance_waypoints(nav, pos, st);
                } else {
                    match (nav.nearest_cell(t.0, t.2), nav.nearest_cell(pos.0, pos.2)) {
                        (Some(a), Some(c)) => {
                            proof {
                                let j = choose|j: int| #[trigger] nav.at(j, a);
                                assert(nav.pos(j) == a);
                                let k = choose|k: int| #[trigger] nav.at(k, c);
                                assert(nav.pos(k) == c);
                                assert(nearest(*nav, t.0, t.2, a));
                                assert(nearest(*nav, pos.0, pos.2, c));
                            }
                            hop(nav, a, c, 2, rolls.sweep_seed, st);
                            let ghost mid = *st;
                            advance_waypoints(nav, pos, st);
                            proof {
                                assert(advanced(*nav, pos, mid, *st));
                            }
                        },
                        _ => advance_waypoints(nav, pos, st),
                    }
                }
            } else {
                advance_waypoints(nav, pos, st);
            }
        },
        NavPlan::Wander => {
            if roam.cooldown_ms == 0 {
                roam.cooldown_ms = rolls.wander_cooldown_ms;
                if off {
                    st.steer = (roam.home.0 + rolls.wander_offset.0, roam.home.1, roam.home.2 + rolls.wander_offset.1);
                    advance_waypoints(nav, pos, st);
                } else {
                    match nav.nearest_cell(pos.0, pos.2) {
                        Some(c) => {
                            proof {
                                let k = choose|k: int| #[trigger] nav.at(k, c);
                                assert(nav.pos(k) == c);
                                assert(nearest(*nav, pos.0, pos.2, c));
                            }
                            hop(nav, c, c, 4, rolls.wander_seed, st);
                            let ghost mid = *st;
                            advance_waypoints(nav, pos, st);
                            proof {
                                assert(advanced(*nav, pos, mid, *st));
                            }
                        },
                        None => advance_waypoints(nav, pos, st),
                    }
                }
            } else {
                advance_waypoints(nav, pos, st);
            }
        },
    }
    proof {
        assert(st0 == (Steering { repath_ms: minus_floor0(old(st).repath_ms, dt_ms), ..*old(st) }));
        assert(off_grid_ok(*nav, pos, off));
        assert(nav_ticked(*nav, plan, sees_target, off, pos, route@.len() as int, dt_ms, rolls, *old(roam), st0, *roam, *st));
    }
    plan
}

} // verus!
