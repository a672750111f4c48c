//! Baked-grid navigation for server agents (enemies / NPCs).
//!
//! A map carries a nav grid of walkable 4 m cells with a floor height and the
//! set of passable faces of each cell. Path finding runs A* over that graph;
//! heights are held in millimetres so that every cost is an exact integer.

use vstd::prelude::*;

verus! {

/// Face bits of a nav cell. Grid north is -z, south is +z.
pub const OPEN_N: u8 = 1;
pub const OPEN_S: u8 = 2;
pub const OPEN_E: u8 = 4;
pub const OPEN_W: u8 = 8;

/// Largest number of cells a nav grid may hold (keeps path costs in `u64`).
pub const MAX_NAV_CELLS: usize = 16777216;

/// Cost of one horizontal step, in millimetres of travel.
pub const STEP_COST_MM: u64 = 1000;

/// One walkable cell: grid coordinates, floor height and passable faces.
#[derive(Clone, Copy, Debug, PartialEq, Eq)]
pub struct NavCell {
    pub ix: i32,
    pub iz: i32,
    /// Floor surface height in millimetres.
    pub y_mm: i32,
    /// Passable faces (`OPEN_*` bits).
    pub open: u8,
}

/// Nav grid of the active map. Empty on maps without a baked grid.
#[derive(Debug)]
pub struct EnemyNav {
    pub cell_mm: u32,
    pub cells_x: u32,
    pub cells_z: u32,
    pub cells: Vec<NavCell>,
}

/// Face bit of side `k` (0 = N, 1 = S, 2 = E, 3 = W).
pub open spec fn side_bit(k: int) -> u8 {
    if k == 0 { OPEN_N } else if k == 1 { OPEN_S } else if k == 2 { OPEN_E } else { OPEN_W }
}

pub open spec fn side_dx(k: int) -> int {
    if k == 2 { 1 } else if k == 3 { -1 } else { 0 }
}

pub open spec fn side_dz(k: int) -> int {
    if k == 0 { -1 } else if k == 1 { 1 } else { 0 }
}

/// Face `k` is passable in the bit set `open`.
pub open spec fn opens(open: u8, k: int) -> bool {
    (open & side_bit(k)) != 0u8
}

/// The face table: bit and grid offset of side `k`.
pub fn side(k: usize) -> (r: (u8, i32, i32))
    requires
        k < 4,
    ensures
        r.0 == side_bit(k as int),
        r.1 == side_dx(k as int),
        r.2 == side_dz(k as int),
{
    if k == 0 {
        (OPEN_N, 0, -1)
    } else if k == 1 {
        (OPEN_S, 0, 1)
    } else if k == 2 {
        (OPEN_E, 1, 0)
    } else {
        (OPEN_W, -1, 0)
    }
}

/// Face bit named by one character of a generator face string.
pub open spec fn face_bit(ch: char) -> u8 {
    if ch == 'N' { OPEN_N } else if ch == 'S' { OPEN_S } else if ch == 'E' { OPEN_E } else if ch
        == 'W' { OPEN_W } else { 0 }
}

/// Union of the face bits named in `s` (unknown letters are ignored).
pub open spec fn face_bits(s: Seq<char>) -> u8
    decreases s.len(),
{
    if s.len() == 0 {
        0
    } else {
        face_bits(s.drop_last()) | face_bit(s.last())
    }
}

/// Parse a generator face string such as `"NEW"` into `OPEN_*` bits.
pub fn parse_open_faces(s: &str) -> (r: u8)
    ensures
        r == face_bits(s@),
{
    let n = vstd::string::StrSliceExecFns::unicode_len(s);
    let mut bits: u8 = 0;
    let mut i: usize = 0;
    while i < n
        invariant
            n == s@.len(),
            i <= n,
            bits == face_bits(s@.subrange(0, i as int)),
        decreases n - i,
    {
        let ch = vstd::string::StrSliceExecFns::get_char(s, i);
        let b: u8 = if ch == 'N' {
            OPEN_N
        } else if ch == 'S' {
            OPEN_S
        } else if ch == 'E' {
            OPEN_E
        } else if ch == 'W' {
            OPEN_W
        } else {
            0
        };
        assert(s@.subrange(0, i + 1).drop_last() =~= s@.subrange(0, i as int));
        bits = bits | b;
        i = i + 1;
    }
    assert(s@.subrange(0, n as int) =~= s@);
    bits
}

/// `c` is the cell described by the generator record `rec`.
pub open spec fn cell_of_record(c: NavCell, rec: (i32, i32, i32, String)) -> bool {
    c.ix == rec.0 && c.iz == rec.1 && c.y_mm == rec.2 && c.open == face_bits(rec.3@)
}

/// No record after `q` (and before `upto`) names the same coordinates.
pub open spec fn last_for(records: Seq<(i32, i32, i32, String)>, q: int, upto: int) -> bool {
    forall|l: int| q < l < upto ==> (records[l].0 != records[q].0 || records[l].1 != records[q].1)
}

/// `c` comes from the last record (before `upto`) naming its coordinates.
pub open spec fn backed_by(c: NavCell, records: Seq<(i32, i32, i32, String)>, upto: int) -> bool {
    exists|q: int| 0 <= q < upto && #[trigger] cell_of_record(c, records[q]) && last_for(records, q, upto)
}


/// Upper bound of the cost of one step (one cell plus the largest height change).
pub const MAX_EDGE_COST: u64 = 4294968296;

/// Number of `true` entries.
pub open spec fn count_true(s: Seq<bool>) -> nat
    decreases s.len(),
{
    if s.len() == 0 {
        0
    } else {
        count_true(s.drop_last()) + if s.last() { 1nat } else { 0nat }
    }
}

proof fn lemma_count_true_all_false(s: Seq<bool>)
    requires
        forall|j: int| 0 <= j < s.len() ==> !s[j],
    ensures
        count_true(s) == 0,
    decreases s.len(),
{
    if s.len() > 0 {
        lemma_count_true_all_false(s.drop_last());
    }
}

pub proof fn lemma_count_true_le_len(s: Seq<bool>)
    ensures
        count_true(s) <= s.len(),
    decreases s.len(),
{
    if s.len() > 0 {
        lemma_count_true_le_len(s.drop_last());
    }
}

/// Setting one `false` entry to `true` raises the count by one (and the count stays within the length).
pub proof fn lemma_count_true_set(s: Seq<bool>, i: int)
    requires
        0 <= i < s.len(),
        !s[i],
    ensures
        count_true(s.update(i, true)) == count_true(s) + 1,
        count_true(s.update(i, true)) <= s.len(),
    decreases s.len(),
{
    let u = s.update(i, true);
    if i == s.len() - 1 {
        assert(u.drop_last() =~= s.drop_last());
    } else {
        lemma_count_true_set(s.drop_last(), i);
        assert(u.drop_last() =~= s.drop_last().update(i, true));
    }
    lemma_count_true_le_len(u);
}

/// Costs stay far below `u64::MAX` on a grid of at most `MAX_NAV_CELLS` cells.
proof fn lemma_cost_bound(settled: int)
    requires
        0 <= settled <= MAX_NAV_CELLS,
    ensures
        settled * MAX_EDGE_COST <= MAX_NAV_CELLS * MAX_EDGE_COST,
        MAX_NAV_CELLS * MAX_EDGE_COST + MAX_EDGE_COST + 9000000000000 < u64::MAX,
{
    assert(settled * MAX_EDGE_COST <= MAX_NAV_CELLS * MAX_EDGE_COST) by (nonlinear_arith)
        requires
            0 <= settled <= MAX_NAV_CELLS,
    ;
}

/// Absolute difference of two grid coordinates.
fn coord_gap(a: i32, b: i32) -> (r: u64)
    ensures
        r as int == if a >= b { a - b } else { b - a },
        r <= 4294967295,
{
    if a >= b {
        (a as i64 - b as i64) as u64
    } else {
        (b as i64 - a as i64) as u64
    }
}

/// Manhattan distance between two cells, in millimetres of step cost.
pub fn manhattan_cost(ax: i32, az: i32, bx: i32, bz: i32) -> (r: u64)
    ensures
        r as int == STEP_COST_MM * ((if ax >= bx { ax - bx } else { bx - ax }) + (if az >= bz { az - bz } else {
            bz - az
        })),
        r <= 9000000000000,
{
    let gx = coord_gap(ax, bx);
    let gz = coord_gap(az, bz);
    (gx + gz) * STEP_COST_MM
}


proof fn lemma_offset_bound(g: int, cm: int)
    requires
        -17179869184 <= g <= 17179869184,
        0 <= cm <= 4294967296,
    ensures
        -73786976294838206464 <= g * cm <= 73786976294838206464,
{
    assert(-73786976294838206464 <= g * cm <= 73786976294838206464) by (nonlinear_arith)
        requires
            -17179869184 <= g <= 17179869184,
            0 <= cm <= 4294967296,
    ;
}

/// Integer hash used to pick among nearby cells.
pub open spec fn spec_pseudo_rand_u32(seed: u32) -> u32 {
    let x1 = seed ^ seed.wrapping_mul(0x85eb_ca6b);
    let x2 = x1 ^ (x1 >> 13u32);
    let x3 = x2 ^ x2.wrapping_mul(0xc2b2_ae35);
    x3 ^ (x3 >> 16u32)
}

/// Deterministic scrambling of a seed (xor-shift-multiply).
pub fn pseudo_rand_u32(seed: u32) -> (r: u32)
    ensures
        r == spec_pseudo_rand_u32(seed),
{
    let mut x = seed;
    x = x ^ x.wrapping_mul(0x85eb_ca6b);
    x = x ^ (x >> 13u32);
    x = x ^ x.wrapping_mul(0xc2b2_ae35);
    x = x ^ (x >> 16u32);
    x
}

/// `r` in reverse order.
pub open spec fn rev_of<T>(r: Seq<T>) -> Seq<T> {
    Seq::new(r.len(), |j: int| r[r.len() - 1 - j])
}

impl EnemyNav {
    /// Cell `i` sits at grid coordinates `c`.
    pub open spec fn at(&self, i: int, c: (i32, i32)) -> bool {
        0 <= i < self.cells@.len() && self.cells@[i].ix == c.0 && self.cells@[i].iz == c.1
    }

    /// The grid has a cell at `c`.
    pub open spec fn has_cell(&self, c: (i32, i32)) -> bool {
        exists|i: int| #[trigger] self.at(i, c)
    }

    /// Cell `i` (at `a`) is open on side `k`, and that side leads to the cell at `b`.
    pub open spec fn link(&self, i: int, k: int, a: (i32, i32), b: (i32, i32)) -> bool {
        &&& self.at(i, a)
        &&& 0 <= k < 4
        &&& opens(self.cells@[i].open, k)
        &&& b.0 == a.0 + side_dx(k)
        &&& b.1 == a.1 + side_dz(k)
        &&& self.has_cell(b)
    }

    /// One step of an agent: from the cell at `a` through an open face into the cell at `b`.
    pub open spec fn step(&self, a: (i32, i32), b: (i32, i32)) -> bool {
        exists|i: int, k: int| #[trigger] self.link(i, k, a, b)
    }

    /// `p` is a walk over existing cells through open faces.
    pub open spec fn is_walk(&self, p: Seq<(i32, i32)>) -> bool {
        &&& p.len() >= 1
        &&& self.has_cell(p[0])
        &&& forall|j: int| 0 <= j < p.len() - 1 ==> #[trigger] self.step(p[j], p[j + 1])
    }

    /// Some walk leads from `a` to `b`.
    pub open spec fn connected(&self, a: (i32, i32), b: (i32, i32)) -> bool {
        exists|p: Seq<(i32, i32)>| #[trigger] self.is_walk(p) && p[0] == a && p.last() == b
    }

    /// Grid coordinates are unique and the grid is small enough for exact costs.
    pub open spec fn wf(&self) -> bool {
        &&& self.cells@.len() <= MAX_NAV_CELLS
        &&& forall|i: int, j: int|
            0 <= i < self.cells@.len() && 0 <= j < self.cells@.len() && i != j ==> (
            #[trigger] self.cells@[i].ix != #[trigger] self.cells@[j].ix || self.cells@[i].iz
                != self.cells@[j].iz)
    }

    /// The grid of a map without baked navigation: no cells, with the
    /// standard 4 m cell size.
    pub fn empty() -> (r: Self)
        ensures
            r.wf(),
            r.cells@.len() == 0,
            r.cell_mm == 4000 && r.cells_x == 0 && r.cells_z == 0,
    {
        EnemyNav { cell_mm: 4000, cells_x: 0, cells_z: 0, cells: Vec::new() }
    }

    pub fn is_empty(&self) -> (r: bool)
        ensures
            r == (self.cells@.len() == 0),
    {
        self.cells.len() == 0
    }

    /// Index of the cell at `(ix, iz)`, if the grid has one.
    pub fn index_of(&self, ix: i32, iz: i32) -> (r: Option<usize>)
        requires
            self.wf(),
        ensures
            r matches Some(i) ==> self.at(i as int, (ix, iz)),
            r is None ==> !self.has_cell((ix, iz)),
    {
        let n = self.cells.len();
        let mut i: usize = 0;
        while i < n
            invariant
                n == self.cells@.len(),
                i <= n,
                forall|j: int| 0 <= j < i ==> !self.at(j, (ix, iz)),
            decreases n - i,
        {
            if self.cells[i].ix == ix && self.cells[i].iz == iz {
                return Some(i);
            }
            i = i + 1;
        }
        None
    }

    /// Build a grid from generator records `(ix, iz, y_mm, face string)`.
    /// A later record for the same coordinates replaces an earlier one.
    pub fn from_records(cell_mm: u32, cells_x: u32, cells_z: u32, records: &Vec<(i32, i32, i32, String)>) -> (r: Self)
        requires
            records@.len() <= MAX_NAV_CELLS,
        ensures
            r.wf(),
            r.cell_mm == (if cell_mm == 0 { 1 } else { cell_mm }),
            r.cells_x == cells_x,
            r.cells_z == cells_z,
            forall|j: int| 0 <= j < records@.len() ==> #[trigger] r.has_cell((records@[j].0, records@[j].1)),
            forall|i: int| 0 <= i < r.cells@.len() ==> #[trigger] backed_by(r.cells@[i], records@, records@.len() as int),
    {
        let mut nav = EnemyNav {
            cell_mm: if cell_mm == 0 { 1 } else { cell_mm },
            cells_x,
            cells_z,
            cells: Vec::new(),
        };
        let n = records.len();
        let mut j: usize = 0;
        while j < n
            invariant
                n == records@.len(),
                n <= MAX_NAV_CELLS,
                j <= n,
                nav.cells@.len() <= j,
                nav.wf(),
                nav.cell_mm == (if cell_mm == 0 { 1 } else { cell_mm }),
                nav.cells_x == cells_x,
                nav.cells_z == cells_z,
                forall|q: int| 0 <= q < j ==> #[trigger] nav.has_cell((records@[q].0, records@[q].1)),
                forall|i: int| 0 <= i < nav.cells@.len() ==> #[trigger] backed_by(nav.cells@[i], records@, j as int),
            decreases n - j,
        {
            let rec = &records[j];
            let open = parse_open_faces(rec.3.as_str());
            let cell = NavCell { ix: rec.0, iz: rec.1, y_mm: rec.2, open };
            let ghost old_cells = nav.cells@;
            let ghost old_nav = nav;
            match nav.index_of(rec.0, rec.1) {
                Some(i) => {
                    nav.cells.set(i, cell);
                    assert forall|a: int, b: int|
                        0 <= a < nav.cells@.len() && 0 <= b < nav.cells@.len() && a != b implies (
                        #[trigger] nav.cells@[a].ix != #[trigger] nav.cells@[b].ix
                            || nav.cells@[a].iz != nav.cells@[b].iz) by {
                        assert(old_cells[a].ix == nav.cells@[a].ix && old_cells[a].iz == nav.cells@[a].iz);
                        assert(old_cells[b].ix == nav.cells@[b].ix && old_cells[b].iz == nav.cells@[b].iz);
                    }
                    assert forall|q: int| 0 <= q < j + 1 implies #[trigger] nav.has_cell(
                        (records@[q].0, records@[q].1),
                    ) by {
                        if q < j {
                            assert(old_nav.has_cell((records@[q].0, records@[q].1)));
                            let w2 = choose|w: int| #[trigger] old_nav.at(w, (records@[q].0, records@[q].1));
                            assert(nav.at(w2, (records@[q].0, records@[q].1)));
                        } else {
                            assert(nav.at(i as int, (records@[q].0, records@[q].1)));
                        }
                    }
                    assert forall|c: int| 0 <= c < nav.cells@.len() implies #[trigger] backed_by(nav.cells@[c], records@, j + 1) by {
                        if c == i {
                            assert(cell_of_record(nav.cells@[c], records@[j as int]));
                        } else {
                            assert(backed_by(old_cells[c], records@, j as int));
                            let q = choose|q: int|
                                0 <= q < j && #[trigger] cell_of_record(old_cells[c], records@[q]) && last_for(
                                    records@,
                                    q,
                                    j as int,
                                );
                            assert(records@[j as int].0 != records@[q].0 || records@[j as int].1
                                != records@[q].1);
                        }
                    }
                },
                None => {
                    nav.cells.push(cell);
                    assert forall|a: int, b: int|
                        0 <= a < nav.cells@.len() && 0 <= b < nav.cells@.len() && a != b implies (
                        #[trigger] nav.cells@[a].ix != #[trigger] nav.cells@[b].ix
                            || nav.cells@[a].iz != nav.cells@[b].iz) by {
                        if a == old_cells.len() as int {
                            if nav.cells@[b].ix == rec.0 && nav.cells@[b].iz == rec.1 {
                                assert(old_cells[b] == nav.cells@[b]);
                                assert(old_nav.at(b, (rec.0, rec.1)));
                            }
                        } else if b == old_cells.len() as int {
                            if nav.cells@[a].ix == rec.0 && nav.cells@[a].iz == rec.1 {
                                assert(old_cells[a] == nav.cells@[a]);
                                assert(old_nav.at(a, (rec.0, rec.1)));
                            }
                        } else {
                            assert(old_cells[a] == nav.cells@[a] && old_cells[b] == nav.cells@[b]);
                        }
                    }
                    assert forall|q: int| 0 <= q < j + 1 implies #[trigger] nav.has_cell(
                        (records@[q].0, records@[q].1),
                    ) by {
                        if q < j {
                            assert(old_nav.has_cell((records@[q].0, records@[q].1)));
                            let w2 = choose|w: int| #[trigger] old_nav.at(w, (records@[q].0, records@[q].1));
                            assert(nav.at(w2, (records@[q].0, records@[q].1)));
                        } else {
                            assert(nav.at(old_cells.len() as int, (records@[q].0, records@[q].1)));
                        }
                    }
                    assert forall|c: int| 0 <= c < nav.cells@.len() implies #[trigger] backed_by(nav.cells@[c], records@, j + 1) by {
                        if c == old_cells.len() as int {
                            assert(cell_of_record(nav.cells@[c], records@[j as int]));
                        } else {
                            assert(backed_by(old_cells[c], records@, j as int));
                            let q = choose|q: int|
                                0 <= q < j && #[trigger] cell_of_record(old_cells[c], records@[q]) && last_for(
                                    records@,
                                    q,
                                    j as int,
                                );
                            assert(old_cells[c] == nav.cells@[c]);
                        }
                    }
                },
            }
            j = j + 1;
        }
        nav
    }

    /// Grid coordinates of cell `i`.
    pub open spec fn pos(&self, i: int) -> (i32, i32) {
        (self.cells@[i].ix, self.cells@[i].iz)
    }

    /// Cost of one step from `a` to `b`: a cell plus the height change.
    pub open spec fn step_cost(&self, a: (i32, i32), b: (i32, i32)) -> int {
        STEP_COST_MM + (if self.floor_y(b) >= self.floor_y(a) { self.floor_y(b) - self.floor_y(a) } else { self.floor_y(a) - self.floor_y(b) })
    }

    /// Cost of a walk: the sum of its step costs.
    pub open spec fn walk_cost(&self, p: Seq<(i32, i32)>) -> int
        decreases p.len(),
    {
        if p.len() <= 1 {
            0
        } else {
            self.walk_cost(p.drop_last()) + self.step_cost(p[p.len() - 2], p[p.len() - 1])
        }
    }

    /// Every walk from `a` to `b` costs at least `d`.
    pub open spec fn cost_at_least(&self, a: (i32, i32), b: (i32, i32), d: int) -> bool {
        forall|q: Seq<(i32, i32)>| #[trigger] self.is_walk(q) && q[0] == a && q.last() == b ==> self.walk_cost(q) >= d
    }

    /// Manhattan estimate (in cost units) from `c` to `to`.
    pub open spec fn guide(c: (i32, i32), to: (i32, i32)) -> int {
        STEP_COST_MM * ((if c.0 >= to.0 { c.0 - to.0 } else { to.0 - c.0 }) + (if c.1 >= to.1 { c.1 - to.1 } else { to.1 - c.1 }))
    }

    proof fn lemma_at_unique(&self, i: int, j: int, c: (i32, i32))
        requires
            self.wf(),
            self.at(i, c),
            self.at(j, c),
        ensures
            i == j,
    {
        if i != j {
            assert(self.cells@[i].ix != self.cells@[j].ix || self.cells@[i].iz != self.cells@[j].iz);
        }
    }

    proof fn lemma_floor_y_at(&self, i: int)
        requires
            self.wf(),
            0 <= i < self.cells@.len(),
        ensures
            self.floor_y(self.pos(i)) == self.cells@[i].y_mm,
    {
        assert(self.at(i, self.pos(i)));
        let j = choose|j: int| self.at(j, self.pos(i));
        self.lemma_at_unique(i, j, self.pos(i));
    }

    /// Walks cost nothing below zero, and at least the drop of the guide.
    proof fn lemma_walk_cost_guide(&self, p: Seq<(i32, i32)>, to: (i32, i32))
        requires
            self.is_walk(p),
        ensures
            self.walk_cost(p) >= 0,
            self.walk_cost(p) >= Self::guide(p[0], to) - Self::guide(p.last(), to),
        decreases p.len(),
    {
        if p.len() > 1 {
            let q = p.drop_last();
            assert forall|j: int| 0 <= j < q.len() - 1 implies #[trigger] self.step(q[j], q[j + 1]) by {
                assert(self.step(p[j], p[j + 1]));
            }
            self.lemma_walk_cost_guide(q, to);
            let n = p.len() - 2;
            assert(self.step(p[n], p[n + 1]));
            let (i, k) = choose|i: int, k: int| #[trigger] self.link(i, k, p[n], p[n + 1]);
        }
    }

    /// Cost of a walk with one more step at its front.
    proof fn lemma_walk_cost_prepend(&self, c: (i32, i32), p: Seq<(i32, i32)>)
        requires
            p.len() >= 1,
        ensures
            self.walk_cost(seq![c] + p) == self.step_cost(c, p[0]) + self.walk_cost(p),
        decreases p.len(),
    {
        let cp = seq![c] + p;
        if p.len() > 1 {
            assert(cp.drop_last() =~= seq![c] + p.drop_last());
            self.lemma_walk_cost_prepend(c, p.drop_last());
            assert(p.drop_last()[0] == p[0]);
            assert(cp[cp.len() - 2] == p[p.len() - 2]);
            assert(cp[cp.len() - 1] == p[p.len() - 1]);
            assert(self.walk_cost(cp) == self.walk_cost(cp.drop_last()) + self.step_cost(cp[cp.len() - 2], cp[cp.len() - 1]));
            assert(self.walk_cost(p) == self.walk_cost(p.drop_last()) + self.step_cost(p[p.len() - 2], p[p.len() - 1]));
        } else {
            assert(cp.drop_last() =~= seq![c]);
            assert(cp[0] == c && cp[1] == p[0]);
            assert(self.walk_cost(seq![c]) == 0);
            assert(self.walk_cost(cp) == self.walk_cost(cp.drop_last()) + self.step_cost(cp[0], cp[1]));
        }
    }

    /// Cost of a walk split at position `j`.
    proof fn lemma_walk_cost_split(&self, p: Seq<(i32, i32)>, j: int)
        requires
            1 <= j < p.len(),
        ensures
            self.walk_cost(p) == self.walk_cost(p.take(j)) + self.step_cost(p[j - 1], p[j]) + self.walk_cost(p.skip(j)),
        decreases p.len(),
    {
        if j == p.len() - 1 {
            assert(p.drop_last() =~= p.take(j));
            assert(p.skip(j) =~= seq![p[j]]);
        } else {
            self.lemma_walk_cost_split(p.drop_last(), j);
            assert(p.drop_last().take(j) =~= p.take(j));
            let r = p.skip(j);
            assert(r.drop_last() =~= p.drop_last().skip(j));
            assert(r[r.len() - 2] == p[p.len() - 2] && r[r.len() - 1] == p[p.len() - 1]);
        }
    }

    /// A prefix or suffix of a walk is a walk.
    proof fn lemma_walk_parts(&self, p: Seq<(i32, i32)>, j: int)
        requires
            self.is_walk(p),
            1 <= j < p.len(),
        ensures
            self.is_walk(p.take(j)),
            self.is_walk(p.skip(j)),
    {
        let a = p.take(j);
        let b = p.skip(j);
        assert forall|i: int| 0 <= i < a.len() - 1 implies #[trigger] self.step(a[i], a[i + 1]) by {
            assert(self.step(p[i], p[i + 1]));
        }
        assert forall|i: int| 0 <= i < b.len() - 1 implies #[trigger] self.step(b[i], b[i + 1]) by {
            assert(self.step(p[j + i], p[j + i + 1]));
        }
        assert(self.step(p[j - 1], p[j - 1 + 1]));
        let (i, k) = choose|i: int, k: int| #[trigger] self.link(i, k, p[j - 1], p[j]);
    }

    /// Index of the cell at `c`.
    pub open spec fn idx(&self, c: (i32, i32)) -> int {
        choose|i: int| self.at(i, c)
    }

    /// Every cell of a walk exists.
    proof fn lemma_walk_cells(&self, q: Seq<(i32, i32)>)
        requires
            self.is_walk(q),
        ensures
            forall|i: int| 0 <= i < q.len() ==> #[trigger] self.has_cell(q[i]),
    {
        assert forall|i: int| 0 <= i < q.len() implies #[trigger] self.has_cell(q[i]) by {
            if i > 0 {
                assert(self.step(q[i - 1], q[i - 1 + 1]));
                let (a, k) = choose|a: int, k: int| #[trigger] self.link(a, k, q[i - 1], q[i]);
            }
        }
    }

    proof fn lemma_first_undone(&self, q: Seq<(i32, i32)>, done: Seq<bool>, j: int) -> (r: int)
        requires
            0 <= j < q.len(),
            forall|i: int| 0 <= i < j ==> done[self.idx(#[trigger] q[i])],
            !done[self.idx(q.last())],
        ensures
            j <= r < q.len(),
            !done[self.idx(q[r])],
            forall|i: int| 0 <= i < r ==> done[self.idx(#[trigger] q[i])],
        decreases q.len() - j,
    {
        if !done[self.idx(q[j])] {
            j
        } else {
            self.lemma_first_undone(q, done, j + 1)
        }
    }

    /// The open cell `u` with the least cost plus guide is settled at its
    /// cheapest cost: no walk from `from` reaches it for less.
    proof fn lemma_settle(&self, from: (i32, i32), to: (i32, i32), s: int, u: int, dist: Seq<u64>, done: Seq<bool>)
        requires
            self.wf(),
            dist.len() == self.cells@.len(),
            done.len() == self.cells@.len(),
            self.at(s, from),
            0 <= u < dist.len(),
            !done[u],
            dist[u] < u64::MAX,
            dist[s] == 0,
            forall|v: int| 0 <= v < dist.len() && #[trigger] done[v] ==> dist[v] < u64::MAX && self.cost_at_least(from, self.pos(v), dist[v] as int),
            forall|x: int, y: int|
                #![trigger done[x], self.step(self.pos(x), self.pos(y))]
                0 <= x < dist.len() && 0 <= y < dist.len() && done[x] && self.step(self.pos(x), self.pos(y)) ==> dist[y] < u64::MAX
                    && (!done[y] ==> dist[y] <= dist[x] + self.step_cost(self.pos(x), self.pos(y))),
            !done[s] ==> forall|v: int| 0 <= v < dist.len() && v != s ==> dist[v] == u64::MAX,
            forall|w: int|
                0 <= w < dist.len() && !done[w] && dist[w] < u64::MAX ==> dist[u] + Self::guide(self.pos(u), to) <= dist[w]
                    + Self::guide(#[trigger] self.pos(w), to),
        ensures
            self.cost_at_least(from, self.pos(u), dist[u] as int),
    {
        assert forall|q: Seq<(i32, i32)>| #[trigger] self.is_walk(q) && q[0] == from && q.last() == self.pos(u) implies self.walk_cost(q)
            >= dist[u] by {
            self.lemma_walk_cost_guide(q, to);
            self.lemma_walk_cells(q);
            assert(self.at(u, self.pos(u)));
            self.lemma_at_unique(u, self.idx(q.last()), q.last());
            if done[s] {
                assert(self.has_cell(q[0]));
                self.lemma_at_unique(s, self.idx(q[0]), q[0]);
                let j = self.lemma_first_undone(q, done, 0);
                assert(j >= 1);
                let a = q[j - 1];
                let b = q[j];
                assert(self.has_cell(a));
                assert(self.has_cell(b));
                let x = self.idx(a);
                let y = self.idx(b);
                assert(done[x]);
                assert(!done[y]);
                assert(self.pos(x) == a && self.pos(y) == b);
                assert(self.step(q[j - 1], q[j - 1 + 1]));
                self.lemma_walk_cost_split(q, j);
                self.lemma_walk_parts(q, j);
                let pre = q.take(j);
                assert(pre[0] == from && pre.last() == a);
                assert(self.is_walk(pre));
                assert(self.walk_cost(pre) >= dist[x]);
                let post = q.skip(j);
                self.lemma_walk_cost_guide(post, to);
                assert(post[0] == b && post.last() == self.pos(u));
                assert(dist[y] < u64::MAX);
                assert(dist[y] <= dist[x] + self.step_cost(a, b));
            } else {
                assert(u == s);
            }
        }
    }

    /// A* over open faces; the path includes `from` and `to`.
    ///
    /// Moving between neighbouring cells costs one step plus the height change,
    /// and the Manhattan distance to `to` guides the search.
    pub fn find_path(&self, from: (i32, i32), to: (i32, i32)) -> (r: Option<Vec<(i32, i32)>>)
        requires
            self.wf(),
        ensures
            r matches Some(p) ==> self.is_walk(p@) && p@[0] == from && p@.last() == to,
            r matches Some(p) ==> self.cost_at_least(from, to, self.walk_cost(p@)),
            r is None ==> !self.connected(from, to),
            from == to && self.has_cell(from) ==> (r matches Some(p) && p@ == seq![from]),
    {
        let s = match self.index_of(from.0, from.1) {
            Some(i) => i,
            None => {
                proof { self.lemma_walk_starts_on_cell(from, to); }
                return None;
            },
        };
        let t = match self.index_of(to.0, to.1) {
            Some(i) => i,
            None => {
                proof { self.lemma_walk_ends_on_cell(from, to); }
                return None;
            },
        };
        if s == t {
            let p = vec![from];
            proof {
                assert(self.at(s as int, from));
                assert forall|q: Seq<(i32, i32)>| #[trigger] self.is_walk(q) && q[0] == from && q.last() == to implies self.walk_cost(q)
                    >= self.walk_cost(p@) by {
                    self.lemma_walk_cost_guide(q, to);
                }
            }
            return Some(p);
        }
        let n = self.cells.len();
        let mut dist: Vec<u64> = Vec::new();
        let mut done: Vec<bool> = Vec::new();
        let mut prev: Vec<usize> = Vec::new();
        let mut i: usize = 0;
        while i < n
            invariant
                i <= n,
                n == self.cells@.len(),
                dist@.len() == i,
                done@.len() == i,
                prev@.len() == i,
                forall|j: int| 0 <= j < i ==> dist@[j] == u64::MAX && !done@[j] && prev@[j] == 0,
            decreases n - i,
        {
            dist.push(u64::MAX);
            done.push(false);
            prev.push(0);
            i = i + 1;
        }
        dist.set(s, 0);
        let mut settled: usize = 0;
        proof {
            lemma_count_true_all_false(done@);
        }
        loop
            invariant
                self.wf(),
                n == self.cells@.len(),
                n <= MAX_NAV_CELLS,
                s < n,
                t < n,
                s != t,
                self.at(s as int, from),
                self.at(t as int, to),
                dist@.len() == n,
                done@.len() == n,
                prev@.len() == n,
                settled == count_true(done@),
                settled <= n,
                dist@[s as int] == 0,
                !done@[t as int],
                forall|v: int| 0 <= v < n && dist@[v] < u64::MAX ==> dist@[v] <= settled * MAX_EDGE_COST,
                forall|v: int| 0 <= v < n && #[trigger] done@[v] ==> dist@[v] < u64::MAX,
                forall|v: int|
                    0 <= v < n && v != s && #[trigger] dist@[v] < u64::MAX ==> prev@[v] < n && done@[prev@[v] as int]
                        && dist@[prev@[v] as int] < dist@[v] && self.step(self.pos(prev@[v] as int), self.pos(v))
                        && dist@[v] == dist@[prev@[v] as int] + self.step_cost(self.pos(prev@[v] as int), self.pos(v)),
                forall|u: int, v: int|
                    #![trigger done@[u], self.step(self.pos(u), self.pos(v))]
                    0 <= u < n && 0 <= v < n && done@[u] && self.step(self.pos(u), self.pos(v)) ==> dist@[v]
                        < u64::MAX && (!done@[v] ==> dist@[v] <= dist@[u] + self.step_cost(self.pos(u), self.pos(v))),
                forall|v: int| 0 <= v < n && #[trigger] done@[v] ==> self.cost_at_least(from, self.pos(v), dist@[v] as int),
                !done@[s as int] ==> forall|v: int| 0 <= v < n && v != s ==> dist@[v] == u64::MAX,
            decreases n - settled,
        {
            // Pick the open cell with the smallest cost-so-far plus heuristic.
            let mut best: Option<usize> = None;
            let mut best_key: u64 = 0;
            let mut v: usize = 0;
            while v < n
                invariant
                    n == self.cells@.len(),
                    dist@.len() == n,
                    done@.len() == n,
                    v <= n,
                    settled <= n,
                    n <= MAX_NAV_CELLS,
                    forall|w: int| 0 <= w < n && dist@[w] < u64::MAX ==> dist@[w] <= settled * MAX_EDGE_COST,
                    best matches Some(b) ==> b < n && !done@[b as int] && dist@[b as int] < u64::MAX,
                    best is None ==> forall|w: int| 0 <= w < v ==> done@[w] || dist@[w] == u64::MAX,
                    best matches Some(b) ==> best_key == dist@[b as int] + Self::guide(self.pos(b as int), to),
                    best matches Some(b) ==> forall|w: int|
                        0 <= w < v && !done@[w] && dist@[w] < u64::MAX ==> best_key <= dist@[w] + Self::guide(#[trigger] self.pos(w), to),
                decreases n - v,
            {
                if !done[v] && dist[v] < u64::MAX {
                    let h = manhattan_cost(self.cells[v].ix, self.cells[v].iz, to.0, to.1);
                    proof {
                        lemma_cost_bound(settled as int);
                    }
                    let key = dist[v] + h;
                    match best {
                        None => {
                            best = Some(v);
                            best_key = key;
                        },
                        Some(_) => {
                            if key < best_key {
                                best = Some(v);
                                best_key = key;
                            }
                        },
                    }
                }
                v = v + 1;
            }
            let u = match best {
                Some(u) => u,
                None => {
                    proof {
                        self.lemma_no_walk(from, to, s as int, t as int, dist@, done@);
                    }
                    return None;
                },
            };
            proof {
                self.lemma_settle(from, to, s as int, u as int, dist@, done@);
            }
            let ghost done_before = done@;
            done.set(u, true);
            proof {
                lemma_count_true_set(done_before, u as int);
            }
            settled = settled + 1;
            if u == t {
                return Some(self.trace_back(s, t, &dist, &done, &prev, from, to));
            }
            let ghost dist_head = dist@;
            let mut k: usize = 0;
            while k < 4
                invariant
                    self.wf(),
                    n == self.cells@.len(),
                    n <= MAX_NAV_CELLS,
                    u < n,
                    s < n,
                    t < n,
                    u != t,
                    dist@.len() == n,
                    done@.len() == n,
                    prev@.len() == n,
                    done@[u as int],
                    settled <= n,
                    settled >= 1,
                    dist@[u as int] == dist_head[u as int],
                    dist@[u as int] <= (settled - 1) * MAX_EDGE_COST,
                    dist@[s as int] == 0,
                    !done@[t as int],
                    k <= 4,
                    forall|w: int| 0 <= w < n ==> #[trigger] dist@[w] <= dist_head[w],
                    forall|w: int| 0 <= w < n && dist@[w] < u64::MAX ==> dist@[w] <= settled * MAX_EDGE_COST,
                    forall|w: int| 0 <= w < n && #[trigger] done@[w] ==> dist@[w] < u64::MAX,
                    forall|w: int| 0 <= w < n && done@[w] ==> #[trigger] dist@[w] == dist_head[w],
                    forall|w: int|
                        0 <= w < n && w != s && #[trigger] dist@[w] < u64::MAX ==> prev@[w] < n && done@[prev@[w] as int]
                            && dist@[prev@[w] as int] < dist@[w] && self.step(self.pos(prev@[w] as int), self.pos(w))
                            && dist@[w] == dist@[prev@[w] as int] + self.step_cost(self.pos(prev@[w] as int), self.pos(w)),
                    forall|w: int, kk: int|
                        0 <= w < n && 0 <= kk < k && #[trigger] self.link(u as int, kk, self.pos(u as int), self.pos(w))
                            ==> dist@[w] < u64::MAX && (!done@[w] ==> dist@[w] <= dist@[u as int] + self.step_cost(self.pos(u as int), self.pos(w))),
                    forall|w: int| 0 <= w < n && #[trigger] done@[w] ==> self.cost_at_least(from, self.pos(w), dist@[w] as int),
                decreases 4 - k,
            {
                let (bit, dx, dz) = side(k);
                let cu = self.cells[u];
                if cu.open & bit != 0 {
                    let nx = cu.ix as i64 + dx as i64;
                    let nz = cu.iz as i64 + dz as i64;
                    if i32::MIN as i64 <= nx && nx <= i32::MAX as i64 && i32::MIN as i64 <= nz && nz
                        <= i32::MAX as i64 {
                        match self.index_of(nx as i32, nz as i32) {
                            Some(w) => {
                                let cw = self.cells[w];
                                let rise = if cw.y_mm >= cu.y_mm {
                                    (cw.y_mm as i64 - cu.y_mm as i64) as u64
                                } else {
                                    (cu.y_mm as i64 - cw.y_mm as i64) as u64
                                };
                                proof {
                                    lemma_cost_bound(settled as int);
                                }
                                let nd = dist[u] + STEP_COST_MM + rise;
                                proof {
                                    self.lemma_floor_y_at(u as int);
                                    self.lemma_floor_y_at(w as int);
                                    assert(nd == dist@[u as int] + self.step_cost(self.pos(u as int), self.pos(w as int)));
                                }
                                if !done[w] && nd < dist[w] {
                                    proof {
                                        assert(self.link(u as int, k as int, self.pos(u as int), self.pos(w as int)));
                                    }
                                    dist.set(w, nd);
                                    prev.set(w, u);
                                }
                                proof {
                                    assert forall|x: int, kk: int|
                                        0 <= x < n && 0 <= kk < k + 1 && #[trigger] self.link(
                                            u as int,
                                            kk,
                                            self.pos(u as int),
                                            self.pos(x),
                                        ) implies dist@[x] < u64::MAX && (!done@[x] ==> dist@[x] <= dist@[u as int] + self.step_cost(self.pos(u as int), self.pos(x))) by {
                                        if kk == k as int {
                                            assert(self.at(w as int, (nx as i32, nz as i32)));
                                            assert(self.pos(x) == (nx as i32, nz as i32));
                                            if x != w as int {
                                                assert(self.cells@[x].ix == self.cells@[w as int].ix);
                                            }
                                        }
                                    }
                                }
                            },
                            None => {
                                proof {
                                    assert forall|x: int, kk: int|
                                        0 <= x < n && 0 <= kk < k + 1 && #[trigger] self.link(
                                            u as int,
                                            kk,
                                            self.pos(u as int),
                                            self.pos(x),
                                        ) implies dist@[x] < u64::MAX && (!done@[x] ==> dist@[x] <= dist@[u as int] + self.step_cost(self.pos(u as int), self.pos(x))) by {
                                        if kk == k as int {
                                            assert(self.at(x, (nx as i32, nz as i32)));
                                        }
                                    }
                                }
                            },
                        }
                    } else {
                        proof {
                            assert forall|x: int, kk: int|
                                0 <= x < n && 0 <= kk < k + 1 && #[trigger] self.link(
                                    u as int,
                                    kk,
                                    self.pos(u as int),
                                    self.pos(x),
                                ) implies dist@[x] < u64::MAX && (!done@[x] ==> dist@[x] <= dist@[u as int] + self.step_cost(self.pos(u as int), self.pos(x))) by {}
                        }
                    }
                } else {
                    proof {
                        assert forall|x: int, kk: int|
                            0 <= x < n && 0 <= kk < k + 1 && #[trigger] self.link(
                                u as int,
                                kk,
                                self.pos(u as int),
                                self.pos(x),
                            ) implies dist@[x] < u64::MAX && (!done@[x] ==> dist@[x] <= dist@[u as int] + self.step_cost(self.pos(u as int), self.pos(x))) by {}
                    }
                }
                k = k + 1;
            }
            proof {
                assert forall|a: int, b: int|
                    #![trigger done@[a], self.step(self.pos(a), self.pos(b))]
                    0 <= a < n && 0 <= b < n && done@[a] && self.step(self.pos(a), self.pos(b)) implies dist@[b]
                        < u64::MAX && (!done@[b] ==> dist@[b] <= dist@[a] + self.step_cost(self.pos(a), self.pos(b))) by {
                    if a == u as int {
                        let (i, kk) = choose|i: int, kk: int| #[trigger] self.link(i, kk, self.pos(a), self.pos(b));
                        assert(self.at(i, self.pos(a)));
                        if i != a {
                            assert(self.cells@[i].ix == self.cells@[a].ix);
                        }
                        assert(self.link(u as int, kk, self.pos(u as int), self.pos(b)));
                    } else {
                        assert(done_before[a]);
                        assert(dist_head[b] < u64::MAX);
                    }
                }
            }
        }
    }

    /// A walk starts on an existing cell.
    proof fn lemma_walk_starts_on_cell(&self, from: (i32, i32), to: (i32, i32))
        requires
            !self.has_cell(from),
        ensures
            !self.connected(from, to),
    {
    }

    /// A walk ends on an existing cell.
    proof fn lemma_walk_ends_on_cell(&self, from: (i32, i32), to: (i32, i32))
        requires
            !self.has_cell(to),
        ensures
            !self.connected(from, to),
    {
        if self.connected(from, to) {
            let p = choose|p: Seq<(i32, i32)>| #[trigger] self.is_walk(p) && p[0] == from && p.last() == to;
            if p.len() > 1 {
                assert(self.step(p[p.len() - 2], p[p.len() - 2 + 1]));
                let (i, k) = choose|i: int, k: int| #[trigger] self.link(i, k, p[p.len() - 2], p[p.len() - 1]);
            }
        }
    }

    /// Every cell of a walk from a reached cell is reached, when the reached
    /// cells are closed under steps.
    proof fn lemma_walk_reached(&self, p: Seq<(i32, i32)>, j: int, dist: Seq<u64>, done: Seq<bool>)
        requires
            self.wf(),
            self.is_walk(p),
            0 <= j < p.len(),
            dist.len() == self.cells@.len(),
            done.len() == self.cells@.len(),
            exists|v: int| #[trigger] self.at(v, p[0]) && dist[v] < u64::MAX,
            forall|v: int| 0 <= v < dist.len() && dist[v] < u64::MAX ==> #[trigger] done[v],
            forall|u: int, v: int|
                #![trigger done[u], self.step(self.pos(u), self.pos(v))]
                0 <= u < dist.len() && 0 <= v < dist.len() && done[u] && self.step(self.pos(u), self.pos(v))
                    ==> dist[v] < u64::MAX,
        ensures
            exists|v: int| #[trigger] self.at(v, p[j]) && dist[v] < u64::MAX,
        decreases j,
    {
        if j > 0 {
            self.lemma_walk_reached(p, j - 1, dist, done);
            let u = choose|v: int| #[trigger] self.at(v, p[j - 1]) && dist[v] < u64::MAX;
            assert(self.step(p[j - 1], p[j - 1 + 1]));
            let (i, k) = choose|i: int, k: int| #[trigger] self.link(i, k, p[j - 1], p[j]);
            let w = choose|w: int| #[trigger] self.at(w, p[j]);
            assert(self.pos(u) == p[j - 1]);
            assert(self.pos(w) == p[j]);
            assert(done[u]);
            assert(self.step(self.pos(u), self.pos(w)));
            assert(self.at(w, p[j]) && dist[w] < u64::MAX);
        }
    }

    /// When every reached cell is settled and settled cells reach all their
    /// neighbours, a cell that was never settled is not connected.
    proof fn lemma_no_walk(
        &self,
        from: (i32, i32),
        to: (i32, i32),
        s: int,
        t: int,
        dist: Seq<u64>,
        done: Seq<bool>,
    )
        requires
            self.wf(),
            dist.len() == self.cells@.len(),
            done.len() == self.cells@.len(),
            self.at(s, from),
            self.at(t, to),
            dist[s] < u64::MAX,
            !done[t],
            forall|w: int| 0 <= w < dist.len() ==> done[w] || dist[w] == u64::MAX,
            forall|u: int, v: int|
                #![trigger done[u], self.step(self.pos(u), self.pos(v))]
                0 <= u < dist.len() && 0 <= v < dist.len() && done[u] && self.step(self.pos(u), self.pos(v))
                    ==> dist[v] < u64::MAX,
        ensures
            !self.connected(from, to),
    {
        if self.connected(from, to) {
            let p = choose|p: Seq<(i32, i32)>| #[trigger] self.is_walk(p) && p[0] == from && p.last() == to;
            assert forall|v: int| 0 <= v < dist.len() && dist[v] < u64::MAX implies #[trigger] done[v] by {}
            assert(self.at(s, p[0]));
            self.lemma_walk_reached(p, p.len() - 1, dist, done);
            let w = choose|v: int| #[trigger] self.at(v, p[p.len() - 1]) && dist[v] < u64::MAX;
            if w != t {
                assert(self.cells@[w].ix == self.cells@[t].ix);
            }
        }
    }

    /// Follow the predecessor links from `t` back to `s` and return the forward path.
    /// Walking one step further back along `prev` keeps the reversed
    /// trail's cost equal to the difference of the two costs so far.
    proof fn lemma_trace_step(&self, old_rev: Seq<(i32, i32)>, x: (i32, i32), dcur: int, dpv: int, dt: int)
        requires
            old_rev.len() >= 1,
            self.walk_cost(rev_of(old_rev)) == dt - dcur,
            dcur == dpv + self.step_cost(x, old_rev.last()),
        ensures
            self.walk_cost(rev_of(old_rev.push(x))) == dt - dpv,
    {
        assert(rev_of(old_rev.push(x)) =~= seq![x] + rev_of(old_rev));
        self.lemma_walk_cost_prepend(x, rev_of(old_rev));
        assert(rev_of(old_rev)[0] == old_rev.last());
    }

    #[verifier::rlimit(40)]
    fn trace_back(
        &self,
        s: usize,
        t: usize,
        dist: &Vec<u64>,
        done: &Vec<bool>,
        prev: &Vec<usize>,
        from: (i32, i32),
        to: (i32, i32),
    ) -> (p: Vec<(i32, i32)>)
        requires
            self.wf(),
            s < self.cells@.len(),
            t < self.cells@.len(),
            self.at(s as int, from),
            self.at(t as int, to),
            dist@.len() == self.cells@.len(),
            done@.len() == self.cells@.len(),
            prev@.len() == self.cells@.len(),
            done@[t as int],
            forall|v: int| 0 <= v < dist@.len() && #[trigger] done@[v] ==> dist@[v] < u64::MAX,
            forall|v: int|
                0 <= v < dist@.len() && v != s && #[trigger] dist@[v] < u64::MAX ==> prev@[v] < dist@.len()
                    && done@[prev@[v] as int] && dist@[prev@[v] as int] < dist@[v] && self.step(
                    self.pos(prev@[v] as int),
                    self.pos(v),
                ) && dist@[v] == dist@[prev@[v] as int] + self.step_cost(self.pos(prev@[v] as int), self.pos(v)),
            dist@[s as int] == 0,
        ensures
            self.is_walk(p@),
            p@[0] == from,
            p@.last() == to,
            self.walk_cost(p@) == dist@[t as int],
    {
        let mut rev: Vec<(i32, i32)> = Vec::new();
        rev.push(to);
        let mut cur = t;
        proof {
            assert(rev_of(rev@).len() == 1);
            assert(self.walk_cost(rev_of(rev@)) == 0);
        }
        while cur != s
            invariant
                s < self.cells@.len(),
                cur < self.cells@.len(),
                dist@.len() == self.cells@.len(),
                done@.len() == self.cells@.len(),
                prev@.len() == self.cells@.len(),
                done@[cur as int],
                forall|v: int| 0 <= v < dist@.len() && #[trigger] done@[v] ==> dist@[v] < u64::MAX,
                forall|v: int|
                    0 <= v < dist@.len() && v != s && #[trigger] dist@[v] < u64::MAX ==> prev@[v] < dist@.len()
                        && done@[prev@[v] as int] && dist@[prev@[v] as int] < dist@[v] && self.step(
                        self.pos(prev@[v] as int),
                        self.pos(v),
                    ) && dist@[v] == dist@[prev@[v] as int] + self.step_cost(self.pos(prev@[v] as int), self.pos(v)),
                done@[t as int],
                t < self.cells@.len(),
                self.walk_cost(rev_of(rev@)) == dist@[t as int] - dist@[cur as int],
                rev@.len() >= 1,
                rev@[0] == to,
                rev@.last() == self.pos(cur as int),
                forall|j: int| 0 <= j < rev@.len() - 1 ==> #[trigger] self.step(rev@[j + 1], rev@[j]),
            decreases dist@[cur as int],
        {
            let pv = prev[cur];
            let c = self.cells[pv];
            let ghost old_rev = rev@;
            assert(dist@[cur as int] < u64::MAX);
            rev.push((c.ix, c.iz));
            proof {
                self.lemma_trace_step(old_rev, (c.ix, c.iz), dist@[cur as int] as int, dist@[pv as int] as int, dist@[t as int] as int);
            }
            assert forall|j: int| 0 <= j < rev@.len() - 1 implies #[trigger] self.step(rev@[j + 1], rev@[j]) by {
                if j < old_rev.len() - 1 {
                    assert(rev@[j] == old_rev[j] && rev@[j + 1] == old_rev[j + 1]);
                }
            }
            cur = pv;
        }
        let m = rev.len();
        let mut p: Vec<(i32, i32)> = Vec::new();
        let mut i: usize = m;
        while i > 0
            invariant
                m == rev@.len(),
                i <= m,
                p@.len() == m - i,
                forall|j: int| 0 <= j < p@.len() ==> p@[j] == rev@[m - 1 - j],
            decreases i,
        {
            i = i - 1;
            p.push(rev[i]);
        }
        assert(p@ =~= rev_of(rev@));
        assert(self.walk_cost(p@) == dist@[t as int]);
        assert(p@[0] == rev@[m - 1]);
        assert(self.at(s as int, p@[0]));
        assert forall|j: int| 0 <= j < p@.len() - 1 implies #[trigger] self.step(p@[j], p@[j + 1]) by {
            let q = m - 2 - j;
            assert(self.step(rev@[q + 1], rev@[q]));
        }
        p
    }

    /// A walk of at most `k` steps leads from `a` to `b`.
    pub open spec fn within(&self, a: (i32, i32), b: (i32, i32), k: int) -> bool {
        exists|p: Seq<(i32, i32)>| #[trigger] self.is_walk(p) && p[0] == a && p.last() == b && p.len() <= k + 1
    }

    /// `seen` holds exactly the cells within `r` steps of `from`, and
    /// `frontier` exactly those at distance `r`.
    pub open spec fn ring_state(
        &self,
        from: (i32, i32),
        r: int,
        seen: Seq<(i32, i32)>,
        frontier: Seq<(i32, i32)>,
    ) -> bool {
        &&& forall|x: (i32, i32)| #[trigger] seen.contains(x) ==> self.within(from, x, r)
        &&& forall|x: (i32, i32)| #[trigger] self.within(from, x, r) ==> seen.contains(x)
        &&& forall|x: (i32, i32)|
            #[trigger] frontier.contains(x) <==> (seen.contains(x) && !self.within(from, x, r - 1))
    }

    proof fn lemma_within_zero(&self, a: (i32, i32), x: (i32, i32))
        ensures
            self.within(a, x, 0) <==> (x == a && self.has_cell(a)),
    {
        if x == a && self.has_cell(a) {
            let p = seq![a];
            assert(self.is_walk(p));
        }
    }

    proof fn lemma_within_neg(&self, a: (i32, i32), x: (i32, i32))
        ensures
            !self.within(a, x, -1),
    {
    }

    proof fn lemma_within_mono(&self, a: (i32, i32), x: (i32, i32), k: int)
        requires
            self.within(a, x, k),
        ensures
            self.within(a, x, k + 1),
    {
        let p = choose|p: Seq<(i32, i32)>| #[trigger] self.is_walk(p) && p[0] == a && p.last() == x && p.len() <= k + 1;
        assert(self.is_walk(p) && p[0] == a && p.last() == x && p.len() <= k + 2);
    }

    proof fn lemma_within_extend(&self, a: (i32, i32), y: (i32, i32), x: (i32, i32), k: int)
        requires
            self.within(a, y, k),
            self.step(y, x),
        ensures
            self.within(a, x, k + 1),
    {
        let p = choose|p: Seq<(i32, i32)>| #[trigger] self.is_walk(p) && p[0] == a && p.last() == y && p.len() <= k + 1;
        let q = p.push(x);
        assert forall|j: int| 0 <= j < q.len() - 1 implies #[trigger] self.step(q[j], q[j + 1]) by {
            if j < p.len() - 1 {
                assert(q[j] == p[j] && q[j + 1] == p[j + 1]);
            }
        }
        assert(self.is_walk(q) && q[0] == a && q.last() == x && q.len() <= k + 2);
    }

    /// A cell first met at distance `k + 1` has a predecessor first met at distance `k`.
    proof fn lemma_within_pred(&self, a: (i32, i32), x: (i32, i32), k: int) -> (y: (i32, i32))
        requires
            k >= 0,
            self.within(a, x, k + 1),
            !self.within(a, x, k),
        ensures
            self.within(a, y, k),
            !self.within(a, y, k - 1),
            self.step(y, x),
    {
        let p = choose|p: Seq<(i32, i32)>| #[trigger] self.is_walk(p) && p[0] == a && p.last() == x && p.len() <= k + 2;
        assert(p.len() == k + 2);
        let q = p.take(p.len() - 1);
        let y = q.last();
        assert(self.step(p[p.len() - 2], p[p.len() - 2 + 1]));
        assert forall|j: int| 0 <= j < q.len() - 1 implies #[trigger] self.step(q[j], q[j + 1]) by {
            assert(self.step(p[j], p[j + 1]));
        }
        assert(self.is_walk(q) && q[0] == a && q.last() == y && q.len() <= k + 1);
        if self.within(a, y, k - 1) {
            self.lemma_within_extend(a, y, x, k - 1);
        }
        y
    }

    /// Membership of a coordinate pair in a list.
    fn list_has(list: &Vec<(i32, i32)>, c: (i32, i32)) -> (r: bool)
        ensures
            r == list@.contains(c),
    {
        let n = list.len();
        let mut i: usize = 0;
        while i < n
            invariant
                n == list@.len(),
                i <= n,
                forall|j: int| 0 <= j < i ==> list@[j] != c,
            decreases n - i,
        {
            if list[i].0 == c.0 && list[i].1 == c.1 {
                return true;
            }
            i = i + 1;
        }
        false
    }

    /// Grow the breadth-first search by one ring: every unseen neighbour of the
    /// frontier is appended to `seen` and returned as the next frontier.
    fn expand_ring(
        &self,
        from: (i32, i32),
        r: Ghost<int>,
        seen: &mut Vec<(i32, i32)>,
        frontier: &Vec<(i32, i32)>,
    ) -> (next: Vec<(i32, i32)>)
        requires
            self.wf(),
            r@ >= 0,
            self.ring_state(from, r@, old(seen)@, frontier@),
        ensures
            self.ring_state(from, r@ + 1, final(seen)@, next@),
            final(seen)@ == old(seen)@ + next@,
    {
        let ghost seen0 = seen@;
        let mut next: Vec<(i32, i32)> = Vec::new();
        let nf = frontier.len();
        let mut fi: usize = 0;
        while fi < nf
            invariant
                self.wf(),
                nf == frontier@.len(),
                fi <= nf,
                r@ >= 0,
                self.ring_state(from, r@, seen0, frontier@),
                seen@ == seen0 + next@,
                forall|x: (i32, i32)| #[trigger] next@.contains(x) ==> self.within(from, x, r@ + 1) && !self.within(
                    from,
                    x,
                    r@,
                ),
                forall|j: int, x: (i32, i32)|
                    0 <= j < fi && #[trigger] self.step(frontier@[j], x) ==> #[trigger] seen@.contains(x),
            decreases nf - fi,
        {
            let f = frontier[fi];
            assert(frontier@.contains(f));
            assert(self.within(from, f, r@));
            let ghost fw = choose|p: Seq<(i32, i32)>| #[trigger] self.is_walk(p) && p[0] == from && p.last() == f && p.len() <= r@ + 1;
            proof {
                if fw.len() > 1 {
                    assert(self.step(fw[fw.len() - 2], fw[fw.len() - 2 + 1]));
                    let (i0, k0) = choose|i: int, k: int| #[trigger] self.link(i, k, fw[fw.len() - 2], fw[fw.len() - 1]);
                }
            }
            let fu = match self.index_of(f.0, f.1) {
                Some(i) => i,
                None => {
                    proof {
                        assert(false);
                    }
                    0
                },
            };
            let mut k: usize = 0;
            while k < 4
                invariant
                    self.wf(),
                    nf == frontier@.len(),
                    fi < nf,
                    f == frontier@[fi as int],
                    self.at(fu as int, f),
                    k <= 4,
                    r@ >= 0,
                    self.ring_state(from, r@, seen0, frontier@),
                    self.within(from, f, r@),
                    !self.within(from, f, r@ - 1),
                    seen@ == seen0 + next@,
                    forall|x: (i32, i32)| #[trigger] next@.contains(x) ==> self.within(from, x, r@ + 1)
                        && !self.within(from, x, r@),
                    forall|j: int, x: (i32, i32)|
                        0 <= j < fi && #[trigger] self.step(frontier@[j], x) ==> #[trigger] seen@.contains(x),
                    forall|i: int, kk: int, x: (i32, i32)|
                        0 <= kk < k && #[trigger] self.link(i, kk, f, x) ==> seen@.contains(x),
                decreases 4 - k,
            {
                let (bit, dx, dz) = side(k);
                let cu = self.cells[fu];
                if cu.open & bit != 0 {
                    let nx = cu.ix as i64 + dx as i64;
                    let nz = cu.iz as i64 + dz as i64;
                    if i32::MIN as i64 <= nx && nx <= i32::MAX as i64 && i32::MIN as i64 <= nz && nz
                        <= i32::MAX as i64 {
                        let c = (nx as i32, nz as i32);
                        match self.index_of(c.0, c.1) {
                            Some(w) => {
                                let ghost pre_seen = seen@;
                                let ghost pre_next = next@;
                                if !Self::list_has(seen, c) {
                                    proof {
                                        assert(self.link(fu as int, k as int, f, c));
                                        assert(self.step(f, c));
                                        self.lemma_within_extend(from, f, c, r@);
                                        if self.within(from, c, r@) {
                                            assert(seen0.contains(c));
                                            let j = choose|j: int| 0 <= j < seen0.len() && seen0[j] == c;
                                            assert(seen@[j] == c);
                                        }
                                    }
                                    seen.push(c);
                                    next.push(c);
                                    proof {
                                        assert(seen@ =~= seen0 + next@);
                                        assert forall|x: (i32, i32)| #[trigger] next@.contains(x) implies self.within(
                                            from,
                                            x,
                                            r@ + 1,
                                        ) && !self.within(from, x, r@) by {
                                            if x != c {
                                                assert(pre_next.contains(x));
                                            }
                                        }
                                        assert forall|x: (i32, i32)| #[trigger] pre_seen.contains(x) implies seen@.contains(x) by {
                                            let j = choose|j: int| 0 <= j < pre_seen.len() && pre_seen[j] == x;
                                            assert(seen@[j] == x);
                                        }
                                    }
                                }
                                proof {
                                    assert(seen@.contains(c)) by {
                                        if pre_seen.contains(c) {
                                            let j = choose|j: int| 0 <= j < pre_seen.len() && pre_seen[j] == c;
                                            assert(seen@[j] == c);
                                        } else {
                                            assert(seen@[seen@.len() - 1] == c);
                                        }
                                    }
                                    assert forall|i: int, kk: int, x: (i32, i32)|
                                        0 <= kk < k + 1 && #[trigger] self.link(i, kk, f, x) implies seen@.contains(x) by {
                                        if kk < k {
                                            assert(pre_seen.contains(x));
                                        } else {
                                            assert(self.at(i, f));
                                            if i != fu as int {
                                                assert(self.cells@[i].ix == self.cells@[fu as int].ix);
                                            }
                                            assert(x == c);
                                        }
                                    }
                                    assert forall|j: int, x: (i32, i32)|
                                        0 <= j < fi && #[trigger] self.step(frontier@[j], x) implies #[trigger] seen@.contains(x) by {
                                        assert(pre_seen.contains(x));
                                    }
                                }
                            },
                            None => {
                                proof {
                                    assert forall|i: int, kk: int, x: (i32, i32)|
                                        0 <= kk < k + 1 && #[trigger] self.link(i, kk, f, x) implies seen@.contains(x) by {
                                        if kk == k {
                                            assert(self.at(i, f));
                                            if i != fu as int {
                                                assert(self.cells@[i].ix == self.cells@[fu as int].ix);
                                            }
                                            assert(x == c);
                                            let w = choose|w: int| #[trigger] self.at(w, x);
                                        }
                                    }
                                }
                            },
                        }
                    } else {
                        proof {
                            assert forall|i: int, kk: int, x: (i32, i32)|
                                0 <= kk < k + 1 && #[trigger] self.link(i, kk, f, x) implies seen@.contains(x) by {
                                if kk == k {
                                    assert(self.at(i, f));
                                    if i != fu as int {
                                        assert(self.cells@[i].ix == self.cells@[fu as int].ix);
                                    }
                                }
                            }
                        }
                    }
                } else {
                    proof {
                        assert forall|i: int, kk: int, x: (i32, i32)|
                            0 <= kk < k + 1 && #[trigger] self.link(i, kk, f, x) implies seen@.contains(x) by {
                            if kk == k {
                                assert(self.at(i, f));
                                if i != fu as int {
                                    assert(self.cells@[i].ix == self.cells@[fu as int].ix);
                                }
                            }
                        }
                    }
                }
                k = k + 1;
            }
            proof {
                assert forall|j: int, x: (i32, i32)|
                    0 <= j < fi + 1 && #[trigger] self.step(frontier@[j], x) implies #[trigger] seen@.contains(x) by {
                    if j == fi as int {
                        let (i, kk) = choose|i: int, kk: int| #[trigger] self.link(i, kk, f, x);
                    }
                }
            }
            fi = fi + 1;
        }
        proof {
            assert forall|x: (i32, i32)| #[trigger] seen@.contains(x) implies self.within(from, x, r@ + 1) by {
                let j = choose|j: int| 0 <= j < seen@.len() && seen@[j] == x;
                if j < seen0.len() {
                    assert(seen0[j] == x);
                    assert(seen0.contains(x));
                    self.lemma_within_mono(from, x, r@);
                } else {
                    assert(next@[j - seen0.len()] == x);
                    assert(next@.contains(x));
                }
            }
            assert forall|x: (i32, i32)| #[trigger] self.within(from, x, r@ + 1) implies seen@.contains(x) by {
                if self.within(from, x, r@) {
                    assert(seen0.contains(x));
                    let j = choose|j: int| 0 <= j < seen0.len() && seen0[j] == x;
                    assert(seen@[j] == x);
                } else {
                    let y = self.lemma_within_pred(from, x, r@);
                    assert(seen0.contains(y));
                    assert(frontier@.contains(y));
                    let j = choose|j: int| 0 <= j < frontier@.len() && frontier@[j] == y;
                    assert(self.step(frontier@[j], x));
                }
            }
            assert forall|x: (i32, i32)| #[trigger] next@.contains(x) <==> (seen@.contains(x) && !self.within(
                from,
                x,
                r@ + 1 - 1,
            )) by {
                if next@.contains(x) {
                    let j = choose|j: int| 0 <= j < next@.len() && next@[j] == x;
                    assert(seen@[seen0.len() + j] == x);
                }
                if seen@.contains(x) && !self.within(from, x, r@) {
                    let j = choose|j: int| 0 <= j < seen@.len() && seen@[j] == x;
                    if j < seen0.len() {
                        assert(seen0[j] == x);
                        assert(seen0.contains(x));
                    } else {
                        assert(next@[j - seen0.len()] == x);
                    }
                }
            }
        }
        next
    }

    /// Twice the world offset (mm) of the centre of grid column / row `c` from
    /// the map centre, for a grid `cells` wide.
    pub open spec fn centre2(&self, c: int, cells: int) -> int {
        (2 * c - cells + 1) * self.cell_mm
    }

    /// The face of cell `c` that looks toward a threat at `(tx, tz)` (mm): the
    /// dominant horizontal axis of the offset decides (0 = N, 1 = S, 2 = E, 3 = W).
    pub open spec fn threat_side(&self, c: (i32, i32), tx: i64, tz: i64) -> int {
        let dx = 2 * tx - self.centre2(c.0 as int, self.cells_x as int);
        let dz = 2 * tz - self.centre2(c.1 as int, self.cells_z as int);
        let ax = if dx >= 0 { dx } else { -dx };
        let az = if dz >= 0 { dz } else { -dz };
        if ax >= az {
            if dx > 0 { 2 } else { 3 }
        } else if dz > 0 {
            1
        } else {
            0
        }
    }

    /// The face picked toward a threat looks at it: along the axis on which
    /// the threat lies further from the cell's centre, on the threat's side
    /// (a threat further south, larger z, is faced by the south face; one
    /// further east, larger x, by the east face).
    pub proof fn law_threat_side_faces_threat(&self, c: (i32, i32), tx: i64, tz: i64)
        ensures
            0 <= self.threat_side(c, tx, tz) < 4,
            ({
                let k = self.threat_side(c, tx, tz);
                let dx = 2 * tx - self.centre2(c.0 as int, self.cells_x as int);
                let dz = 2 * tz - self.centre2(c.1 as int, self.cells_z as int);
                &&& side_dx(k) * dx >= 0 && side_dz(k) * dz >= 0
                &&& dz * dz > dx * dx ==> side_dz(k) * dz > 0
                &&& dx * dx > dz * dz ==> side_dx(k) * dx > 0
            }),
    {
        let dx = 2 * tx - self.centre2(c.0 as int, self.cells_x as int);
        let dz = 2 * tz - self.centre2(c.1 as int, self.cells_z as int);
        let ax = if dx >= 0 { dx } else { -dx };
        let az = if dz >= 0 { dz } else { -dz };
        assert(dx * dx == ax * ax) by (nonlinear_arith)
            requires
                ax == dx || ax == -dx,
        ;
        assert(dz * dz == az * az) by (nonlinear_arith)
            requires
                az == dz || az == -dz,
        ;
        if ax >= az {
            assert(ax * ax >= az * az) by (nonlinear_arith)
                requires
                    ax >= az,
                    az >= 0,
            ;
        } else {
            assert(az * az > ax * ax) by (nonlinear_arith)
                requires
                    az > ax,
                    ax >= 0,
            ;
        }
    }

    /// The cell at `c` is walled on the face toward the threat.
    pub open spec fn covered(&self, c: (i32, i32), tx: i64, tz: i64) -> bool {
        exists|i: int| #[trigger] self.at(i, c) && !opens(self.cells@[i].open, self.threat_side(c, tx, tz))
    }

    fn is_covered(&self, c: (i32, i32), tx: i64, tz: i64) -> (r: bool)
        requires
            self.wf(),
        ensures
            r == self.covered(c, tx, tz),
    {
        match self.index_of(c.0, c.1) {
            None => false,
            Some(i) => {
                let cm = self.cell_mm as i128;
                let gx: i128 = 2 * (c.0 as i128) - (self.cells_x as i128) + 1;
                let gz: i128 = 2 * (c.1 as i128) - (self.cells_z as i128) + 1;
                proof {
                    lemma_offset_bound(gx as int, cm as int);
                    lemma_offset_bound(gz as int, cm as int);
                }
                let dx: i128 = 2 * (tx as i128) - gx * cm;
                let dz: i128 = 2 * (tz as i128) - gz * cm;
                let ax = if dx >= 0 { dx } else { -dx };
                let az = if dz >= 0 { dz } else { -dz };
                let k: usize = if ax >= az {
                    if dx > 0 { 2 } else { 3 }
                } else if dz > 0 {
                    1
                } else {
                    0
                };
                let (bit, _, _) = side(k);
                proof {
                    assert(k as int == self.threat_side(c, tx, tz));
                    if (self.cells@[i as int].open & bit) == 0u8 {
                        assert(self.at(i as int, c));
                    } else {
                        if self.covered(c, tx, tz) {
                            let w = choose|w: int| #[trigger] self.at(w, c) && !opens(self.cells@[w].open, self.threat_side(c, tx, tz));
                            if w != i as int {
                                assert(self.cells@[w].ix == self.cells@[i as int].ix);
                            }
                        }
                    }
                }
                self.cells[i].open & bit == 0
            },
        }
    }

    proof fn lemma_no_cell_no_walk(&self, from: (i32, i32), x: (i32, i32), k: int)
        requires
            !self.has_cell(from),
        ensures
            !self.within(from, x, k),
    {
    }

    /// Start state of the ring search: only `from` itself, at distance 0.
    proof fn lemma_ring_start(&self, from: (i32, i32), seen: Seq<(i32, i32)>)
        requires
            self.has_cell(from),
            seen == seq![from],
        ensures
            self.ring_state(from, 0, seen, seen),
            self.within(from, from, 0),
    {
        assert forall|x: (i32, i32)| #[trigger] seen.contains(x) implies self.within(from, x, 0) by {
            assert(seen[0] == x);
            self.lemma_within_zero(from, x);
        }
        assert forall|x: (i32, i32)| #[trigger] self.within(from, x, 0) implies seen.contains(x) by {
            self.lemma_within_zero(from, x);
            assert(seen[0] == x);
        }
        assert forall|x: (i32, i32)| #[trigger] seen.contains(x) <==> (seen.contains(x) && !self.within(from, x, 0 - 1)) by {
            self.lemma_within_neg(from, x);
        }
        self.lemma_within_zero(from, from);
    }

    /// Nearby cell that offers cover from a threat at `(threat_x_mm, threat_z_mm)`:
    /// reachable from `from` in at most `max_steps` steps and walled on its face
    /// toward the threat. Searches ring by ring, so no covered cell is nearer
    /// than the one returned; never returns `from` itself.
    pub fn cover_cell_from(&self, from: (i32, i32), threat_x_mm: i64, threat_z_mm: i64, max_steps: u32) -> (r: Option<(i32, i32)>)
        requires
            self.wf(),
        ensures
            r matches Some(c) ==> c != from && self.covered(c, threat_x_mm, threat_z_mm) && exists|d: int|
                1 <= d <= max_steps && #[trigger] self.within(from, c, d) && !self.within(from, c, d - 1)
                    && forall|x: (i32, i32)|
                    x != from && self.covered(x, threat_x_mm, threat_z_mm) ==> !#[trigger] self.within(from, x, d - 1),
            r is None ==> forall|x: (i32, i32)|
                x != from && self.covered(x, threat_x_mm, threat_z_mm) ==> !#[trigger] self.within(from, x, max_steps as int),
    {
        if self.index_of(from.0, from.1).is_none() {
            proof {
                assert forall|x: (i32, i32)| x != from && self.covered(x, threat_x_mm, threat_z_mm) implies !#[trigger] self.within(
                    from,
                    x,
                    max_steps as int,
                ) by {
                    self.lemma_no_cell_no_walk(from, x, max_steps as int);
                }
            }
            return None;
        }
        let mut seen: Vec<(i32, i32)> = Vec::new();
        seen.push(from);
        let mut frontier: Vec<(i32, i32)> = Vec::new();
        frontier.push(from);
        proof {
            assert(seen@ =~= seq![from]);
            assert(frontier@ =~= seq![from]);
            self.lemma_ring_start(from, seen@);
        }
        let mut r: u32 = 0;
        while r < max_steps
            invariant
                self.wf(),
                r <= max_steps,
                self.ring_state(from, r as int, seen@, frontier@),
                self.within(from, from, r as int),
                forall|x: (i32, i32)| #[trigger] seen@.contains(x) && self.covered(x, threat_x_mm, threat_z_mm) ==> x == from,
            decreases max_steps - r,
        {
            let ghost seen_before = seen@;
            let next = self.expand_ring(from, Ghost(r as int), &mut seen, &frontier);
            let nn = next.len();
            let mut j: usize = 0;
            while j < nn
                invariant
                    self.wf(),
                    nn == next@.len(),
                    j <= nn,
                    forall|q: int| 0 <= q < j ==> !self.covered(#[trigger] next@[q], threat_x_mm, threat_z_mm),
                    r < max_steps,
                    self.ring_state(from, r as int + 1, seen@, next@),
                    self.ring_state(from, r as int, seen_before, frontier@),
                    self.within(from, from, r as int),
                    forall|x: (i32, i32)| #[trigger] seen_before.contains(x) && self.covered(x, threat_x_mm, threat_z_mm) ==> x == from,
                decreases nn - j,
            {
                if self.is_covered(next[j], threat_x_mm, threat_z_mm) {
                    let c = next[j];
                    proof {
                        assert(next@.contains(c));
                        assert(self.within(from, c, r + 1) && !self.within(from, c, r as int));
                        let d = r + 1;
                        assert forall|x: (i32, i32)|
                            x != from && self.covered(x, threat_x_mm, threat_z_mm) implies !#[trigger] self.within(from, x, d - 1) by {
                            if self.within(from, x, r as int) {
                                assert(seen_before.contains(x));
                            }
                        }
                        assert(1 <= d <= max_steps && self.within(from, c, d) && !self.within(from, c, d - 1));
                        assert(c != from);
                        assert(self.covered(c, threat_x_mm, threat_z_mm));
                        assert(exists|d: int|
                            1 <= d <= max_steps && #[trigger] self.within(from, c, d) && !self.within(from, c, d - 1)
                                && forall|x: (i32, i32)|
                                x != from && self.covered(x, threat_x_mm, threat_z_mm) ==> !#[trigger] self.within(
                                    from,
                                    x,
                                    d - 1,
                                ));
                    }
                    return Some(c);
                }
                j = j + 1;
            }
            proof {
                assert forall|x: (i32, i32)| #[trigger] seen@.contains(x) && self.covered(x, threat_x_mm, threat_z_mm) implies x == from by {
                    if !self.within(from, x, r as int) {
                        assert(next@.contains(x));
                        let q = choose|q: int| 0 <= q < next@.len() && next@[q] == x;
                        assert(!self.covered(next@[q], threat_x_mm, threat_z_mm));
                    } else {
                        assert(seen_before.contains(x));
                    }
                }
                self.lemma_within_mono(from, from, r as int);
            }
            frontier = next;
            r = r + 1;
        }
        None
    }

    /// Random reachable cell within `max_steps` of `from` (for wandering);
    /// never `from` itself. `None` when nothing else is in reach.
    pub fn random_nearby_cell(&self, from: (i32, i32), max_steps: u32, seed: u32) -> (r: Option<(i32, i32)>)
        requires
            self.wf(),
        ensures
            r matches Some(c) ==> c != from && self.within(from, c, max_steps as int),
            r is None ==> forall|x: (i32, i32)| x != from ==> !#[trigger] self.within(from, x, max_steps as int),
    {
        if self.index_of(from.0, from.1).is_none() {
            proof {
                assert forall|x: (i32, i32)| x != from implies !#[trigger] self.within(from, x, max_steps as int) by {
                    self.lemma_no_cell_no_walk(from, x, max_steps as int);
                }
            }
            return None;
        }
        let mut seen: Vec<(i32, i32)> = Vec::new();
        seen.push(from);
        let mut frontier: Vec<(i32, i32)> = Vec::new();
        frontier.push(from);
        proof {
            assert(seen@ =~= seq![from]);
            assert(frontier@ =~= seq![from]);
            self.lemma_ring_start(from, seen@);
        }
        let mut r: u32 = 0;
        while r < max_steps
            invariant
                self.wf(),
                r <= max_steps,
                self.ring_state(from, r as int, seen@, frontier@),
                self.within(from, from, r as int),
                seen@.len() >= 1,
                seen@[0] == from,
                forall|q: int| 1 <= q < seen@.len() ==> #[trigger] seen@[q] != from,
            decreases max_steps - r,
        {
            let ghost seen_before = seen@;
            let next = self.expand_ring(from, Ghost(r as int), &mut seen, &frontier);
            proof {
                assert(seen@ == seen_before + next@);
                assert forall|q: int| 1 <= q < seen@.len() implies #[trigger] seen@[q] != from by {
                    if q >= seen_before.len() {
                        assert(next@[q - seen_before.len()] == seen@[q]);
                        assert(next@.contains(seen@[q]));
                    } else {
                        assert(seen_before[q] == seen@[q]);
                    }
                }
                self.lemma_within_mono(from, from, r as int);
            }
            frontier = next;
            r = r + 1;
        }
        let n = seen.len();
        if n <= 1 {
            proof {
                assert forall|x: (i32, i32)| x != from implies !#[trigger] self.within(from, x, max_steps as int) by {
                    if self.within(from, x, max_steps as int) {
                        assert(seen@.contains(x));
                        let q = choose|q: int| 0 <= q < seen@.len() && seen@[q] == x;
                    }
                }
            }
            return None;
        }
        let idx = 1 + (pseudo_rand_u32(seed) as usize) % (n - 1);
        let c = seen[idx];
        proof {
            assert(seen@.contains(c));
        }
        Some(c)
    }

    /// Floor height (mm) of the cell at `c`, 0 where there is none.
    pub open spec fn floor_y(&self, c: (i32, i32)) -> int {
        if self.has_cell(c) {
            self.cells@[choose|i: int| self.at(i, c)].y_mm as int
        } else {
            0
        }
    }

    /// The cell under `(x_mm, z_mm)` when the grid has it, otherwise a grid
    /// cell nearest to it (squared cell distance); `None` on an empty grid.
    pub fn nearest_cell(&self, x_mm: i64, z_mm: i64) -> (r: Option<(i32, i32)>)
        requires
            self.wf(),
            self.cell_mm > 0,
        ensures
            r is None <==> self.cells@.len() == 0,
            r matches Some(q) ==> self.has_cell(q),
            ({
                let c = self.cell_of_spec(x_mm, z_mm);
                r matches Some(q) ==> (self.has_cell(c) ==> q == c) && forall|i: int|
                    0 <= i < self.cells@.len() ==> cell_dist2(q, c) <= #[trigger] cell_dist2(self.pos(i), c)
            }),
    {
        let c = self.cell_of_mm(x_mm, z_mm);
        if let Some(i) = self.index_of(c.0, c.1) {
            proof {
                assert forall|k: int| 0 <= k < self.cells@.len() implies cell_dist2(c, c) <= #[trigger] cell_dist2(self.pos(k), c) by {
                    lemma_dist2_nonneg(self.pos(k), c);
                }
            }
            return Some(c);
        }
        let n = self.cells.len();
        if n == 0 {
            return None;
        }
        let mut best: usize = 0;
        let mut best_d: i128 = dist2(self.cells[0].ix, self.cells[0].iz, c);
        let mut i: usize = 1;
        while i < n
            invariant
                n == self.cells@.len(),
                1 <= i <= n,
                best < n,
                best_d == cell_dist2(self.pos(best as int), c),
                forall|k: int| 0 <= k < i ==> best_d <= #[trigger] cell_dist2(self.pos(k), c),
            decreases n - i,
        {
            let d = dist2(self.cells[i].ix, self.cells[i].iz, c);
            if d < best_d {
                best = i;
                best_d = d;
            }
            i = i + 1;
        }
        let q = (self.cells[best].ix, self.cells[best].iz);
        proof {
            assert(self.at(best as int, q));
        }
        Some(q)
    }

    /// The cell `cell_of_mm` returns for `(x, z)`.
    pub open spec fn cell_of_spec(&self, x_mm: i64, z_mm: i64) -> (i32, i32) {
        (
            saturate_i32(round_div(2 * x_mm + (self.cells_x - 1) * self.cell_mm, 2 * self.cell_mm)) as i32,
            saturate_i32(round_div(2 * z_mm + (self.cells_z - 1) * self.cell_mm, 2 * self.cell_mm)) as i32,
        )
    }

    /// Centre of cell `c` at floor height, in mm from the map centre.
    pub fn world_of_mm(&self, c: (i32, i32)) -> (r: (i64, i32, i64))
        requires
            self.wf(),
            -0x4000_0000_0000_0000 <= self.centre2(c.0 as int, self.cells_x as int) <= 0x4000_0000_0000_0000,
            -0x4000_0000_0000_0000 <= self.centre2(c.1 as int, self.cells_z as int) <= 0x4000_0000_0000_0000,
        ensures
            r.0 == half_toward_zero(self.centre2(c.0 as int, self.cells_x as int)),
            r.1 == self.floor_y(c),
            r.2 == half_toward_zero(self.centre2(c.1 as int, self.cells_z as int)),
    {
        let cm = self.cell_mm as i128;
        let gx: i128 = 2 * (c.0 as i128) - (self.cells_x as i128) + 1;
        let gz: i128 = 2 * (c.1 as i128) - (self.cells_z as i128) + 1;
        proof {
            lemma_offset_bound(gx as int, cm as int);
            lemma_offset_bound(gz as int, cm as int);
        }
        let x2 = gx * cm;
        let z2 = gz * cm;
        let x = if x2 >= 0 { x2 / 2 } else { -((-x2) / 2) };
        let z = if z2 >= 0 { z2 / 2 } else { -((-z2) / 2) };
        let y = match self.index_of(c.0, c.1) {
            Some(i) => {
                proof {
                    let k = choose|k: int| self.at(k, c);
                    if k != i as int {
                        assert(self.cells@[k].ix == self.cells@[i as int].ix);
                    }
                }
                self.cells[i].y_mm
            },
            None => 0,
        };
        (x as i64, y, z as i64)
    }

    /// The cell whose centre is nearest to `(x_mm, z_mm)` (halves round away
    /// from zero), coordinates saturated to the `i32` range.
    pub fn cell_of_mm(&self, x_mm: i64, z_mm: i64) -> (r: (i32, i32))
        requires
            self.cell_mm > 0,
        ensures
            r.0 == saturate_i32(round_div(2 * x_mm + (self.cells_x - 1) * self.cell_mm, 2 * self.cell_mm)),
            r.1 == saturate_i32(round_div(2 * z_mm + (self.cells_z - 1) * self.cell_mm, 2 * self.cell_mm)),
    {
        let cm = self.cell_mm as i128;
        proof {
            lemma_offset_bound(self.cells_x - 1, cm as int);
            lemma_offset_bound(self.cells_z - 1, cm as int);
        }
        let nx: i128 = 2 * (x_mm as i128) + ((self.cells_x as i128) - 1) * cm;
        let nz: i128 = 2 * (z_mm as i128) + ((self.cells_z as i128) - 1) * cm;
        let den: i128 = 2 * cm;
        let rx = if nx >= 0 { (2 * nx + den) / (2 * den) } else { -((-2 * nx + den) / (2 * den)) };
        let rz = if nz >= 0 { (2 * nz + den) / (2 * den) } else { -((-2 * nz + den) / (2 * den)) };
        let sx: i32 = if rx > 2147483647 { 2147483647 } else if rx < -2147483648 { -2147483648 } else { rx as i32 };
        let sz: i32 = if rz > 2147483647 { 2147483647 } else if rz < -2147483648 { -2147483648 } else { rz as i32 };
        (sx, sz)
    }
}


/// `v / 2` rounded toward zero, as integer division does.
pub open spec fn half_toward_zero(v: int) -> int {
    if v >= 0 {
        v / 2
    } else {
        -((-v) / 2)
    }
}

/// `num / den` rounded to the nearest integer, halves away from zero (`den > 0`).
pub open spec fn round_div(num: int, den: int) -> int {
    if num >= 0 {
        (2 * num + den) / (2 * den)
    } else {
        -((-2 * num + den) / (2 * den))
    }
}

/// `v` clamped to the `i32` range.
pub open spec fn saturate_i32(v: int) -> int {
    if v > 2147483647 {
        2147483647
    } else if v < -2147483648 {
        -2147483648
    } else {
        v
    }
}

/// With an even cell size, the centre of a cell maps back to that cell.
pub proof fn law_world_cell_roundtrip(cell_mm: int, cells: int, c: int)
    requires
        cell_mm > 0,
        cell_mm % 2 == 0,
        -2147483648 <= c <= 2147483647,
    ensures
        saturate_i32(round_div(2 * half_toward_zero((2 * c - cells + 1) * cell_mm) + (cells - 1) * cell_mm, 2 * cell_mm)) == c,
{
    let g = (2 * c - cells + 1) * cell_mm;
    let k = cell_mm / 2;
    let m = (2 * c - cells + 1) * k;
    assert(g == 2 * m) by (nonlinear_arith)
        requires
            cell_mm == 2 * k,
            g == (2 * c - cells + 1) * cell_mm,
            m == (2 * c - cells + 1) * k,
    ;
    assert(2 * half_toward_zero(g) == g);
    let num = g + (cells - 1) * cell_mm;
    assert(num == 2 * c * cell_mm) by (nonlinear_arith)
        requires
            g == (2 * c - cells + 1) * cell_mm,
            num == g + (cells - 1) * cell_mm,
    ;
    let den = 2 * cell_mm;
    if c >= 0 {
        assert(num >= 0) by (nonlinear_arith)
            requires
                num == 2 * c * cell_mm,
                c >= 0,
                cell_mm > 0,
        ;
        assert((2 * num + den) / (2 * den) == c) by (nonlinear_arith)
            requires
                num == 2 * c * cell_mm,
                den == 2 * cell_mm,
                cell_mm > 0,
        ;
    } else {
        assert(num < 0) by (nonlinear_arith)
            requires
                num == 2 * c * cell_mm,
                c < 0,
                cell_mm > 0,
        ;
        assert((-2 * num + den) / (2 * den) == -c) by (nonlinear_arith)
            requires
                num == 2 * c * cell_mm,
                den == 2 * cell_mm,
                cell_mm > 0,
        ;
    }
}


/// Squared grid distance between two cells.
pub open spec fn cell_dist2(a: (i32, i32), b: (i32, i32)) -> int {
    (a.0 - b.0) * (a.0 - b.0) + (a.1 - b.1) * (a.1 - b.1)
}

proof fn lemma_dist2_nonneg(a: (i32, i32), b: (i32, i32))
    ensures
        cell_dist2(a, b) >= 0,
{
    let dx = a.0 - b.0;
    let dz = a.1 - b.1;
    assert(dx * dx >= 0 && dz * dz >= 0) by (nonlinear_arith);
}

fn dist2(ix: i32, iz: i32, c: (i32, i32)) -> (r: i128)
    ensures
        r == cell_dist2((ix, iz), c),
{
    let dx = ix as i128 - c.0 as i128;
    let dz = iz as i128 - c.1 as i128;
    proof {
        assert(dx * dx <= 0x1_0000_0000 * 0x1_0000_0000) by (nonlinear_arith)
            requires
                -0x1_0000_0000 <= dx <= 0x1_0000_0000,
        ;
        assert(dz * dz <= 0x1_0000_0000 * 0x1_0000_0000) by (nonlinear_arith)
            requires
                -0x1_0000_0000 <= dz <= 0x1_0000_0000,
        ;
        assert(dx * dx >= 0 && dz * dz >= 0) by (nonlinear_arith);
    }
    dx * dx + dz * dz
}

} // verus!
