//! House floor plans: a 4x4 grid of open or blocked cells with a door on the
//! perimeter. How many cells can be walked to from the door decides how
//! navigable a house is: unreachable cells are wasted floor, and answering
//! "can someone get stuck?" takes an actual search.

use vstd::prelude::*;

use crate::nav::{count_true, lemma_count_true_le_len, lemma_count_true_set};

verus! {

/// Cells along one side of a house.
pub const GRID: usize = 4;

/// Cells of a house.
pub const CELLS: usize = 16;

/// Floor plan of a house: which cells hold interior walls or furniture,
/// and the door cell.
#[derive(Clone, Copy, Debug, PartialEq, Eq)]
pub struct HousePlan {
    pub blocked: [bool; 16],
    pub door: usize,
}

/// The cell lies on the outer ring of the grid.
pub open spec fn on_perimeter(cell: int) -> bool {
    cell % 4 == 0 || cell / 4 == 0 || cell % 4 == 3 || cell / 4 == 3
}

/// The cell lies on the outer ring of the grid.
pub fn perimeter(cell: usize) -> (r: bool)
    requires
        cell < CELLS,
    ensures
        r == on_perimeter(cell as int),
{
    let (x, y) = (cell % GRID, cell / GRID);
    x == 0 || y == 0 || x == GRID - 1 || y == GRID - 1
}

/// `b` is a 4-neighbour of `a` within the grid.
pub open spec fn adjacent(a: int, b: int) -> bool {
    &&& 0 <= a < 16
    &&& ((a % 4 > 0 && b == a - 1) || (a % 4 < 3 && b == a + 1) || (a / 4 > 0 && b == a - 4) || (a / 4 < 3 && b
        == a + 4))
}

/// `w` walks from the door through open cells, one neighbour at a time.
pub open spec fn is_walk(plan: HousePlan, w: Seq<int>) -> bool {
    &&& w.len() >= 1
    &&& w[0] == plan.door
    &&& forall|i: int| 0 <= i < w.len() - 1 ==> #[trigger] adjacent(w[i], w[i + 1])
    &&& forall|i: int| 1 <= i < w.len() ==> !plan.blocked[#[trigger] w[i]]
}

/// Some walk from the door ends at `w.last()`; named so quantifiers trigger on it.
pub open spec fn walks_to(plan: HousePlan, w: Seq<int>, cell: int) -> bool {
    is_walk(plan, w) && w.last() == cell
}

/// The cell can be walked to from the door.
pub open spec fn reachable(plan: HousePlan, cell: int) -> bool {
    exists|w: Seq<int>| #[trigger] walks_to(plan, w, cell)
}

/// Which cells can be walked to from the door.
pub open spec fn reach_map(plan: HousePlan) -> Seq<bool> {
    Seq::new(16, |c: int| reachable(plan, c))
}

/// One step of the search: mark `n` and queue it unless it is blocked or
/// already marked.
fn try_visit(plan: &HousePlan, seen: &mut [bool; 16], queue: &mut Vec<usize>, n: usize)
    requires
        n < CELLS,
    ensures
        (!old(seen)[n as int] && !plan.blocked[n as int]) ==> final(seen)@ == old(seen)@.update(n as int, true)
            && final(queue)@ == old(queue)@.push(n),
        !(!old(seen)[n as int] && !plan.blocked[n as int]) ==> final(seen)@ == old(seen)@ && final(queue)@ == old(queue)@,
{
    if !seen[n] && !plan.blocked[n] {
        seen[n] = true;
        queue.push(n);
    }
}

/// Search state: everything marked is reachable, queued cells are marked
/// and distinct, and marked cells off the queue have all open neighbours marked.
pub open spec fn search_ok(plan: HousePlan, seen: Seq<bool>, queue: Seq<usize>, count: int) -> bool {
    &&& seen.len() == 16
    &&& plan.door < 16
    &&& seen[plan.door as int]
    &&& forall|c: int| 0 <= c < 16 && #[trigger] seen[c] ==> reachable(plan, c)
    &&& forall|i: int| 0 <= i < queue.len() ==> (#[trigger] queue[i] < 16 && seen[queue[i] as int])
    &&& forall|i: int, j: int| 0 <= i < j < queue.len() ==> #[trigger] queue[i] != #[trigger] queue[j]
    &&& forall|c: int, n: int|
        0 <= c < 16 && #[trigger] seen[c] && !queue.contains(c as usize) && #[trigger] adjacent(c, n) && !plan.blocked[n]
            ==> seen[n]
    &&& count + queue.len() == count_true(seen)
}

proof fn lemma_extend_walk(plan: HousePlan, w: Seq<int>, c: int, n: int)
    requires
        walks_to(plan, w, c),
        adjacent(c, n),
        !plan.blocked[n],
    ensures
        walks_to(plan, w.push(n), n),
        reachable(plan, n),
{
    let w2 = w.push(n);
    assert forall|i: int| 0 <= i < w2.len() - 1 implies #[trigger] adjacent(w2[i], w2[i + 1]) by {
        if i < w.len() - 1 {
            assert(w2[i] == w[i] && w2[i + 1] == w[i + 1]);
            assert(adjacent(w[i], w[i + 1]));
        } else {
            assert(w2[i] == c && w2[i + 1] == n);
        }
    }
    assert forall|i: int| 1 <= i < w2.len() implies !plan.blocked[#[trigger] w2[i]] by {
        if i < w.len() {
            assert(w2[i] == w[i]);
        }
    }
    assert(walks_to(plan, w2, n));
}

/// A marked-set closed under open neighbours and holding the door holds
/// every cell of every walk.
proof fn lemma_closed_covers_walk(plan: HousePlan, seen: Seq<bool>, w: Seq<int>, k: int)
    requires
        seen.len() == 16,
        seen[plan.door as int],
        is_walk(plan, w),
        0 <= k < w.len(),
        forall|c: int, n: int| 0 <= c < 16 && #[trigger] seen[c] && #[trigger] adjacent(c, n) && !plan.blocked[n] ==> seen[n],
    ensures
        seen[w[k]],
    decreases k,
{
    if k > 0 {
        lemma_closed_covers_walk(plan, seen, w, k - 1);
        let i = k - 1;
        assert(adjacent(w[i], w[i + 1]));
        assert(!plan.blocked[w[k]]);
    }
}

/// Number of cells that can be walked to from the door (the door itself
/// included), by a depth-first search.
pub fn reachable_cells(plan: &HousePlan) -> (r: usize)
    requires
        plan.door < CELLS,
    ensures
        r == count_true(reach_map(*plan)),
{
    let mut seen = [false; 16];
    let mut queue: Vec<usize> = Vec::new();
    let door = plan.door;
    proof {
        assert(seen@ =~= Seq::new(16, |c: int| false));
        lemma_count_true_all_false_local(seen@);
        lemma_count_true_set(seen@, door as int);
    }
    seen[door] = true;
    queue.push(door);
    proof {
        let w = seq![door as int];
        assert(walks_to(*plan, w, door as int));
        assert forall|c: int| 0 <= c < 16 && #[trigger] seen@[c] implies reachable(*plan, c) by {
            assert(c == door);
            assert(walks_to(*plan, w, c));
        }
        assert forall|c: int, n: int|
            0 <= c < 16 && #[trigger] seen@[c] && !queue@.contains(c as usize) && #[trigger] adjacent(c, n) && !plan.blocked[n]
                implies seen@[n] by {
            assert(c == door);
            assert(queue@[0] == door);
        }
    }
    let mut count: usize = 0;
    while queue.len() > 0
        invariant
            plan.door < CELLS,
            search_ok(*plan, seen@, queue@, count as int),
            count_true(seen@) <= 16,
        decreases 2 * (16 - count_true(seen@)) + queue@.len(),
    {
        let ghost q0 = queue@;
        let ghost s0 = seen@;
        let cell = queue.pop().unwrap();
        proof {
            assert(q0.last() == cell);
            assert(queue@ =~= q0.drop_last());
            lemma_count_true_le_len(seen@);
            assert(queue@.subrange(0, q0.len() - 1) =~= q0.drop_last());
            assert(step_ok(*plan, s0, q0, cell as int, seen@, queue@));
        }
        count = count + 1;
        let x = cell % GRID;
        let y = cell / GRID;
        if x > 0 {
            let ghost (sb, qb) = (seen@, queue@);
            try_visit(plan, &mut seen, &mut queue, cell - 1);
            proof {
                lemma_visit(*plan, s0, q0, cell as int, sb, qb, (cell - 1) as int, seen@, queue@);
            }
        }
        if x < GRID - 1 {
            let ghost (sb, qb) = (seen@, queue@);
            try_visit(plan, &mut seen, &mut queue, cell + 1);
            proof {
                lemma_visit(*plan, s0, q0, cell as int, sb, qb, (cell + 1) as int, seen@, queue@);
            }
        }
        if y > 0 {
            let ghost (sb, qb) = (seen@, queue@);
            try_visit(plan, &mut seen, &mut queue, cell - GRID);
            proof {
                lemma_visit(*plan, s0, q0, cell as int, sb, qb, (cell - GRID) as int, seen@, queue@);
            }
        }
        if y < GRID - 1 {
            let ghost (sb, qb) = (seen@, queue@);
            try_visit(plan, &mut seen, &mut queue, cell + GRID);
            proof {
                lemma_visit(*plan, s0, q0, cell as int, sb, qb, (cell + GRID) as int, seen@, queue@);
            }
        }
        proof {
            assert forall|n: int| #[trigger] adjacent(cell as int, n) && !plan.blocked[n] implies seen@[n] by {}
            lemma_search_step(*plan, s0, q0, (count - 1) as int, cell, seen@, queue@);
            lemma_count_true_le_len(seen@);
        }
    }
    proof {
        assert forall|c: int, n: int| 0 <= c < 16 && #[trigger] seen@[c] && #[trigger] adjacent(c, n) && !plan.blocked[n]
            implies seen@[n] by {
            assert(!queue@.contains(c as usize));
        }
        assert forall|c: int| 0 <= c < 16 implies seen@[c] == reach_map(*plan)[c] by {
            if reachable(*plan, c) {
                let w = choose|w: Seq<int>| #[trigger] walks_to(*plan, w, c);
                lemma_closed_covers_walk(*plan, seen@, w, w.len() - 1);
            }
        }
        assert(seen@ =~= reach_map(*plan));
    }
    count
}

proof fn lemma_count_true_all_false_local(s: Seq<bool>)
    requires
        forall|j: int| 0 <= j < s.len() ==> !s[j],
    ensures
        count_true(s) == 0,
    decreases s.len(),
{
    if s.len() > 0 {
        lemma_count_true_all_false_local(s.drop_last());
    }
}

/// Part-way through expanding `cell` (popped from `q0`): marks only grow,
/// the queue is the old queue without `cell` followed by the newly marked
/// open neighbours of `cell`, each once.
pub open spec fn step_ok(plan: HousePlan, s0: Seq<bool>, q0: Seq<usize>, cell: int, s: Seq<bool>, q: Seq<usize>) -> bool {
    let m = q0.len() - 1;
    &&& s.len() == 16
    &&& forall|c: int| 0 <= c < 16 && s0[c] ==> #[trigger] s[c]
    &&& q.len() >= m && q.subrange(0, m) == q0.drop_last()
    &&& forall|i: int| m <= i < q.len() ==> (#[trigger] q[i] < 16 && !s0[q[i] as int] && s[q[i] as int] && adjacent(
        cell,
        q[i] as int,
    ) && !plan.blocked[q[i] as int])
    &&& forall|i: int, j: int| m <= i < j < q.len() ==> #[trigger] q[i] != #[trigger] q[j]
    &&& forall|c: int| 0 <= c < 16 && #[trigger] s[c] && !s0[c] ==> exists|i: int| m <= i < q.len() && q[i] == c as usize
    &&& count_true(s) == count_true(s0) + (q.len() - m)
}

/// Visiting one neighbour keeps the expansion state, and leaves it marked
/// unless it is blocked.
proof fn lemma_visit(plan: HousePlan, s0: Seq<bool>, q0: Seq<usize>, cell: int, sb: Seq<bool>, qb: Seq<usize>, n: int, s: Seq<bool>, q: Seq<usize>)
    requires
        q0.len() > 0,
        step_ok(plan, s0, q0, cell, sb, qb),
        adjacent(cell, n),
        0 <= n < 16,
        (!sb[n] && !plan.blocked[n]) ==> s == sb.update(n, true) && q == qb.push(n as usize),
        !(!sb[n] && !plan.blocked[n]) ==> s == sb && q == qb,
    ensures
        step_ok(plan, s0, q0, cell, s, q),
        !plan.blocked[n] ==> s[n],
        forall|c: int| 0 <= c < 16 && #[trigger] sb[c] ==> s[c],
{
    let m = q0.len() - 1;
    if !sb[n] && !plan.blocked[n] {
        lemma_count_true_set(sb, n);
        assert(q.subrange(0, m) =~= qb.subrange(0, m));
        assert(!s0[n]);
        assert forall|i: int| m <= i < q.len() implies (#[trigger] q[i] < 16 && !s0[q[i] as int] && s[q[i] as int] && adjacent(
            cell,
            q[i] as int,
        ) && !plan.blocked[q[i] as int]) by {
            if i < qb.len() {
                assert(q[i] == qb[i]);
            }
        }
        assert forall|i: int, j: int| m <= i < j < q.len() implies #[trigger] q[i] != #[trigger] q[j] by {
            if j < qb.len() {
                assert(q[i] == qb[i] && q[j] == qb[j]);
            } else {
                assert(q[i] == qb[i]);
                assert(sb[qb[i] as int]);
            }
        }
        assert forall|c: int| 0 <= c < 16 && #[trigger] s[c] && !s0[c] implies exists|i: int| m <= i < q.len() && q[i] == c as usize by {
            if c == n {
                assert(q[qb.len() as int] == n as usize);
            } else {
                assert(sb[c]);
                let i = choose|i: int| m <= i < qb.len() && qb[i] == c as usize;
                assert(q[i] == qb[i]);
            }
        }
    }
}

/// Once `cell` has been expanded, the search state holds again with the
/// count one higher.
proof fn lemma_search_step(plan: HousePlan, s0: Seq<bool>, q0: Seq<usize>, count0: int, cell: usize, s1: Seq<bool>, q1: Seq<usize>)
    requires
        search_ok(plan, s0, q0, count0),
        q0.len() > 0,
        cell == q0.last(),
        step_ok(plan, s0, q0, cell as int, s1, q1),
        forall|n: int| #[trigger] adjacent(cell as int, n) && !plan.blocked[n] ==> s1[n],
    ensures
        search_ok(plan, s1, q1, count0 + 1),
{
    let m = q0.len() - 1;
    assert forall|c: int| 0 <= c < 16 && #[trigger] s1[c] implies reachable(plan, c) by {
        if !s0[c] {
            let i = choose|i: int| m <= i < q1.len() && q1[i] == c as usize;
            assert(adjacent(cell as int, q1[i] as int));
            assert(s0[cell as int]);
            assert(reachable(plan, cell as int));
            let w = choose|w: Seq<int>| #[trigger] walks_to(plan, w, cell as int);
            lemma_extend_walk(plan, w, cell as int, c);
        }
    }
    assert forall|i: int| 0 <= i < q1.len() implies (#[trigger] q1[i] < 16 && s1[q1[i] as int]) by {
        if i < m {
            assert(q1[i] == q1.subrange(0, m)[i]);
            assert(q1[i] == q0[i]);
            assert(s0[q0[i] as int]);
        }
    }
    assert forall|i: int, j: int| 0 <= i < j < q1.len() implies #[trigger] q1[i] != #[trigger] q1[j] by {
        if j < m {
            assert(q1[i] == q1.subrange(0, m)[i] && q1[j] == q1.subrange(0, m)[j]);
            assert(q0[i] != q0[j]);
        } else if i < m {
            assert(q1[i] == q1.subrange(0, m)[i]);
            assert(q1[i] == q0[i]);
            assert(s0[q0[i] as int]);
        }
    }
    assert forall|c: int, n: int|
        0 <= c < 16 && #[trigger] s1[c] && !q1.contains(c as usize) && #[trigger] adjacent(c, n) && !plan.blocked[n]
            implies s1[n] by {
        if c == cell as int {
        } else if s0[c] {
            if q0.contains(c as usize) {
                let k = choose|k: int| 0 <= k < q0.len() && q0[k] == c as usize;
                if k < m {
                    assert(q1[k] == q1.subrange(0, m)[k]);
                    assert(q1[k] == q0[k]);
                    assert(q1.contains(c as usize));
                }
            } else {
                assert(s0[n]);
            }
        } else {
            let i = choose|i: int| m <= i < q1.len() && q1[i] == c as usize;
            assert(q1.contains(c as usize));
        }
    }
    assert(count0 + 1 + q1.len() == count_true(s1));
    assert(s1[plan.door as int]);
    assert(s1.len() == 16);
}


/// Coins per open floor cell.
pub const HOUSE_COST_FLOOR: i64 = 2;

/// Coins per interior wall cell.
pub const HOUSE_COST_WALL: i64 = 3;

/// Coins a villager keeps aside before paying for materials.
pub const HOUSE_BUILD_RESERVE: i64 = 70;

/// Hour of day when villagers consider home improvements.
pub const HOUSE_PLANNING_HOUR: u64 = 14;

/// A villager considers a rebuild every this many days.
pub const HOUSE_PLANNING_INTERVAL_DAYS: u64 = 7;

/// Open cells of a plan.
pub open spec fn open_map(plan: HousePlan) -> Seq<bool> {
    Seq::new(16, |c: int| !plan.blocked[c])
}

/// Number of open floor cells.
pub fn open_cells(plan: &HousePlan) -> (r: usize)
    ensures
        r == count_true(open_map(*plan)),
        r <= CELLS,
{
    let mut n: usize = 0;
    let mut i: usize = 0;
    while i < CELLS
        invariant
            i <= CELLS,
            n == count_true(open_map(*plan).take(i as int)),
            n <= i,
        decreases CELLS - i,
    {
        proof {
            assert(open_map(*plan).take(i + 1).drop_last() =~= open_map(*plan).take(i as int));
        }
        if !plan.blocked[i] {
            n = n + 1;
        }
        i = i + 1;
    }
    proof {
        assert(open_map(*plan).take(16) =~= open_map(*plan));
    }
    n
}

/// Material cost of the floor and walls of a plan (insulation is priced apart).
pub fn structure_cost(plan: &HousePlan) -> (r: i64)
    ensures
        r == count_true(open_map(*plan)) * HOUSE_COST_FLOOR + (16 - count_true(open_map(*plan))) * HOUSE_COST_WALL,
{
    let open = open_cells(plan) as i64;
    open * HOUSE_COST_FLOOR + (16 - open) * HOUSE_COST_WALL
}

/// The door is an open perimeter cell, as plans require.
pub fn door_ok(plan: &HousePlan) -> (r: bool)
    ensures
        r == (plan.door < CELLS && on_perimeter(plan.door as int) && !plan.blocked[plan.door as int]),
{
    plan.door < CELLS && perimeter(plan.door) && !plan.blocked[plan.door]
}

/// Villager with planning offset `offset` considers a rebuild at this tick:
/// at the planning hour, once every interval of days.
pub fn plans_today(clock: &crate::clock::SimClock, offset: u64) -> (r: bool)
    requires
        clock.tick / 1440 + 1 + offset <= u64::MAX,
    ensures
        r == (clock.tick % 1440 == HOUSE_PLANNING_HOUR * 60 && (clock.tick / 1440 + 1 + offset)
            % (HOUSE_PLANNING_INTERVAL_DAYS as int) == 0),
{
    clock.minute_of_day() == HOUSE_PLANNING_HOUR * 60 && (clock.day() + offset) % HOUSE_PLANNING_INTERVAL_DAYS == 0
}

/// Pay for a rebuild costing `cost` if the purse covers it above the
/// reserve; materials come from the commons, so the coins go to the treasury.
pub fn pay_for_rebuild(ledger: &mut crate::economy::Ledger, name: &str, cost: i64) -> (paid: bool)
    requires
        old(ledger).wf() && old(ledger).solvent(),
    ensures
        paid == (old(ledger).bal(name@) - HOUSE_BUILD_RESERVE >= cost),
        !paid ==> *final(ledger) == *old(ledger),
        paid ==> ({
            let taken = crate::economy::spec_tax_paid(cost as int, old(ledger).bal(name@));
            &&& cost >= 0 ==> taken == cost
            &&& final(ledger).bal(name@) == old(ledger).bal(name@) - taken
            &&& final(ledger).treasury_spec() == old(ledger).treasury_spec() + taken
            &&& final(ledger).same_except(old(ledger), name@)
        }),
        final(ledger).wf() && final(ledger).solvent(),
        final(ledger).total_spec() == old(ledger).total_spec(),
{
    proof {
        old(ledger).lemma_solvent_bounds();
    }
    let budget = ledger.balance(name) - HOUSE_BUILD_RESERVE;
    if budget < cost {
        return false;
    }
    ledger.collect_tax(name, cost);
    true
}

} // verus!
