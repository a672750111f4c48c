//! Sewer stretch labyrinths: a breadth-first assembly of 12 m modules on a
//! 5 x 5 grid. Each module has a room kind and a connection on each of its
//! four sides; neighbouring modules must agree on the connection they share.
//!
//! Side indices: 0 = +Z, 1 = -Z, 2 = +X, 3 = -X.

use vstd::prelude::*;

use crate::nav::{count_true, lemma_count_true_set};

use self::ConnType::{BigArch, Closed, Door, Sewer, Shaft};

verus! {

/// How a module side connects to its neighbour.
#[derive(Clone, Copy, Debug, PartialEq, Eq, Structural)]
pub enum ConnType {
    /// A solid wall: no opening.
    Closed,
    BigArch,
    Door,
    Shaft,
    ShaftLeft,
    ShaftRight,
    Sewer,
}

/// Interior geometry style of a module.
#[derive(Clone, Copy, Debug, PartialEq, Eq, Structural)]
pub enum RoomKind {
    Open,
    SewerTunnel,
    SewerDouble,
    SewerCross,
}

/// A module template: its room kind, its four side connections and how
/// often it is drawn.
#[derive(Clone, Copy, Debug)]
pub struct MDef {
    pub room: RoomKind,
    pub ports: [ConnType; 4],
    pub weight: u32,
}

/// A placed module: grid coordinates `(gx, gz)`, side connections and room kind.
pub type PlacedCell = ((i32, i32), ([ConnType; 4], RoomKind));

// ---------------------------------------------------------------------------
// Grid geometry
// ---------------------------------------------------------------------------

/// Grid coordinates inside the 5 x 5 labyrinth.
pub open spec fn in_bounds(gx: int, gz: int) -> bool {
    -2 <= gx <= 2 && -2 <= gz <= 2
}

/// Row-major slot of an in-bounds cell: rows by `gz`, then `gx`.
pub open spec fn slot_of(gx: int, gz: int) -> int {
    (gz + 2) * 5 + (gx + 2)
}

pub open spec fn slot_gx(k: int) -> int {
    k % 5 - 2
}

pub open spec fn slot_gz(k: int) -> int {
    k / 5 - 2
}

/// The side facing back across side `s`.
pub open spec fn opp_spec(s: int) -> int {
    if s == 0 { 1 } else if s == 1 { 0 } else if s == 2 { 3 } else { 2 }
}

/// The neighbour across side `side` (anything above 2 is -X).
pub open spec fn nb_spec(gx: int, gz: int, side: int) -> (int, int) {
    if side == 0 {
        (gx, gz + 1)
    } else if side == 1 {
        (gx, gz - 1)
    } else if side == 2 {
        (gx + 1, gz)
    } else {
        (gx - 1, gz)
    }
}

/// The side facing back across side `s`.
pub fn opp_side(s: usize) -> (r: usize)
    requires
        s < 4,
    ensures
        r == opp_spec(s as int),
{
    let r = s ^ 1;
    assert(s < 4 ==> (s ^ 1usize) == (if s == 0 { 1usize } else if s == 1 { 0 } else if s == 2 { 3 } else { 2 }))
        by (bit_vector);
    r
}

/// The neighbour of `(gx, gz)` across side `side`.
pub fn nb(gx: i32, gz: i32, side: usize) -> (r: (i32, i32))
    requires
        i32::MIN < gx < i32::MAX,
        i32::MIN < gz < i32::MAX,
    ensures
        r.0 == nb_spec(gx as int, gz as int, side as int).0,
        r.1 == nb_spec(gx as int, gz as int, side as int).1,
{
    match side {
        0 => (gx, gz + 1),
        1 => (gx, gz - 1),
        2 => (gx + 1, gz),
        _ => (gx - 1, gz),
    }
}

/// Two connections may face each other on adjacent modules only when they
/// are the same: a different type would leave mismatched openings in the
/// shared wall.
pub fn conn_compat(a: ConnType, b: ConnType) -> (r: bool)
    ensures
        r == (a == b),
{
    a == b
}

fn slot(gx: i32, gz: i32) -> (r: usize)
    requires
        in_bounds(gx as int, gz as int),
    ensures
        r == slot_of(gx as int, gz as int),
        r < 25,
{
    ((gz + 2) * 5 + (gx + 2)) as usize
}

proof fn lemma_slot_roundtrip(gx: int, gz: int)
    requires
        in_bounds(gx, gz),
    ensures
        0 <= slot_of(gx, gz) < 25,
        slot_gx(slot_of(gx, gz)) == gx,
        slot_gz(slot_of(gx, gz)) == gz,
{
}

proof fn lemma_slot_coords(k: int)
    requires
        0 <= k < 25,
    ensures
        in_bounds(slot_gx(k), slot_gz(k)),
        slot_of(slot_gx(k), slot_gz(k)) == k,
{
}

/// Stepping across a side and back returns to the start.
proof fn lemma_nb_back(gx: int, gz: int, s: int)
    requires
        0 <= s < 4,
    ensures
        nb_spec(nb_spec(gx, gz, s).0, nb_spec(gx, gz, s).1, opp_spec(s)) == (gx, gz),
        0 <= opp_spec(s) < 4,
        opp_spec(opp_spec(s)) == s,
{
}

// ---------------------------------------------------------------------------
// Deterministic xorshift64 random stream
// ---------------------------------------------------------------------------

/// One xorshift64 step.
pub open spec fn xorshift(s: u64) -> u64 {
    let a = s ^ (s << 13u64);
    let b = a ^ (a >> 7u64);
    b ^ (b << 17u64)
}

/// Fast deterministic xorshift64 stream.
pub struct Rng(pub u64);

impl Rng {
    /// Seeded stream: the seed mixed with a constant, then stepped twice.
    pub fn new(seed: u64) -> (r: Self)
        ensures
            r.0 == xorshift(xorshift(seed ^ 0x9e3779b97f4a7c15u64)),
    {
        let mut s = Rng(seed ^ 0x9e3779b97f4a7c15);
        s.next();
        s.next();
        s
    }

    /// Step the stream and return the new state.
    pub fn next(&mut self) -> (r: u64)
        ensures
            r == xorshift(old(self).0),
            final(self).0 == r,
    {
        let s = self.0;
        let a = s ^ (s << 13u64);
        let b = a ^ (a >> 7u64);
        let c = b ^ (b << 17u64);
        self.0 = c;
        c
    }

    /// Step the stream and reduce the new state modulo `n`.
    pub fn umod(&mut self, n: usize) -> (r: usize)
        requires
            n > 0,
        ensures
            r == xorshift(old(self).0) % (n as u64),
            final(self).0 == xorshift(old(self).0),
    {
        (self.next() % (n as u64)) as usize
    }
}


// ---------------------------------------------------------------------------
// Module templates
// ---------------------------------------------------------------------------

pub open spec fn mdef_spec(room: RoomKind, ports: [ConnType; 4], weight: u32) -> MDef {
    MDef { room, ports, weight }
}

/// The module templates, in draw order.
pub open spec fn module_table() -> Seq<MDef> {
    seq![
        mdef_spec(RoomKind::Open, [BigArch, BigArch, Closed, Closed], 8),
        mdef_spec(RoomKind::Open, [Closed, Closed, BigArch, BigArch], 8),
        mdef_spec(RoomKind::Open, [BigArch, Closed, BigArch, Closed], 5),
        mdef_spec(RoomKind::Open, [BigArch, Closed, Closed, BigArch], 5),
        mdef_spec(RoomKind::Open, [Closed, BigArch, BigArch, Closed], 5),
        mdef_spec(RoomKind::Open, [Closed, BigArch, Closed, BigArch], 5),
        mdef_spec(RoomKind::Open, [BigArch, BigArch, BigArch, Closed], 3),
        mdef_spec(RoomKind::Open, [BigArch, BigArch, Closed, BigArch], 3),
        mdef_spec(RoomKind::Open, [BigArch, Closed, BigArch, BigArch], 3),
        mdef_spec(RoomKind::Open, [Closed, BigArch, BigArch, BigArch], 3),
        mdef_spec(RoomKind::Open, [BigArch, BigArch, BigArch, BigArch], 2),
        mdef_spec(RoomKind::Open, [Door, Door, Closed, Closed], 4),
        mdef_spec(RoomKind::Open, [Closed, Closed, Door, Door], 4),
        mdef_spec(RoomKind::Open, [Door, Closed, Door, Closed], 3),
        mdef_spec(RoomKind::Open, [Door, Closed, Closed, Door], 3),
        mdef_spec(RoomKind::Open, [Closed, Door, Door, Closed], 3),
        mdef_spec(RoomKind::Open, [Closed, Door, Closed, Door], 3),
        mdef_spec(RoomKind::Open, [Sewer, BigArch, Closed, Closed], 4),
        mdef_spec(RoomKind::Open, [BigArch, Sewer, Closed, Closed], 4),
        mdef_spec(RoomKind::Open, [Closed, Closed, Sewer, BigArch], 4),
        mdef_spec(RoomKind::Open, [Closed, Closed, BigArch, Sewer], 4),
        mdef_spec(RoomKind::Open, [BigArch, Closed, Sewer, Closed], 3),
        mdef_spec(RoomKind::Open, [BigArch, Closed, Closed, Sewer], 3),
        mdef_spec(RoomKind::Open, [Closed, BigArch, Sewer, Closed], 3),
        mdef_spec(RoomKind::Open, [Closed, BigArch, Closed, Sewer], 3),
        mdef_spec(RoomKind::SewerTunnel, [Sewer, Sewer, Closed, Closed], 7),
        mdef_spec(RoomKind::SewerTunnel, [Sewer, Sewer, Shaft, Closed], 4),
        mdef_spec(RoomKind::SewerTunnel, [Sewer, Sewer, Closed, Shaft], 4),
        mdef_spec(RoomKind::SewerTunnel, [Sewer, Sewer, Shaft, Shaft], 2),
        mdef_spec(RoomKind::SewerTunnel, [Closed, Closed, Sewer, Sewer], 7),
        mdef_spec(RoomKind::SewerTunnel, [Shaft, Closed, Sewer, Sewer], 4),
        mdef_spec(RoomKind::SewerTunnel, [Closed, Shaft, Sewer, Sewer], 4),
        mdef_spec(RoomKind::SewerTunnel, [Shaft, Shaft, Sewer, Sewer], 2),
        mdef_spec(RoomKind::SewerDouble, [Sewer, Sewer, Closed, Closed], 4),
        mdef_spec(RoomKind::SewerDouble, [Sewer, Sewer, Shaft, Closed], 3),
        mdef_spec(RoomKind::SewerDouble, [Sewer, Sewer, Closed, Shaft], 3),
        mdef_spec(RoomKind::SewerDouble, [Closed, Closed, Sewer, Sewer], 4),
        mdef_spec(RoomKind::SewerDouble, [Shaft, Closed, Sewer, Sewer], 3),
        mdef_spec(RoomKind::SewerDouble, [Closed, Shaft, Sewer, Sewer], 3),
        mdef_spec(RoomKind::SewerCross, [Sewer, Sewer, Sewer, Sewer], 2),
        mdef_spec(RoomKind::SewerCross, [Sewer, Sewer, Sewer, Closed], 3),
        mdef_spec(RoomKind::SewerCross, [Sewer, Sewer, Closed, Sewer], 3),
        mdef_spec(RoomKind::SewerCross, [Sewer, Closed, Sewer, Sewer], 3),
        mdef_spec(RoomKind::SewerCross, [Closed, Sewer, Sewer, Sewer], 3),
    ]
}

fn mdef(room: RoomKind, ports: [ConnType; 4], weight: u32) -> (r: MDef)
    ensures
        r == mdef_spec(room, ports, weight),
{
    MDef { room, ports, weight }
}

/// The module templates: open rooms joined by arches or doors, gateways
/// from open rooms into the sewer network, straight sewer tunnels (single or
/// double channel, some with side shafts) and sewer junctions.
pub fn module_defs() -> (r: Vec<MDef>)
    ensures
        r@ == module_table(),
        forall|i: int| 0 <= i < r@.len() ==> 1 <= #[trigger] r@[i].weight <= 8,
{
    let r = vec![
        mdef(RoomKind::Open, [BigArch, BigArch, Closed, Closed], 8),
        mdef(RoomKind::Open, [Closed, Closed, BigArch, BigArch], 8),
        mdef(RoomKind::Open, [BigArch, Closed, BigArch, Closed], 5),
        mdef(RoomKind::Open, [BigArch, Closed, Closed, BigArch], 5),
        mdef(RoomKind::Open, [Closed, BigArch, BigArch, Closed], 5),
        mdef(RoomKind::Open, [Closed, BigArch, Closed, BigArch], 5),
        mdef(RoomKind::Open, [BigArch, BigArch, BigArch, Closed], 3),
        mdef(RoomKind::Open, [BigArch, BigArch, Closed, BigArch], 3),
        mdef(RoomKind::Open, [BigArch, Closed, BigArch, BigArch], 3),
        mdef(RoomKind::Open, [Closed, BigArch, BigArch, BigArch], 3),
        mdef(RoomKind::Open, [BigArch, BigArch, BigArch, BigArch], 2),
        mdef(RoomKind::Open, [Door, Door, Closed, Closed], 4),
        mdef(RoomKind::Open, [Closed, Closed, Door, Door], 4),
        mdef(RoomKind::Open, [Door, Closed, Door, Closed], 3),
        mdef(RoomKind::Open, [Door, Closed, Closed, Door], 3),
        mdef(RoomKind::Open, [Closed, Door, Door, Closed], 3),
        mdef(RoomKind::Open, [Closed, Door, Closed, Door], 3),
        mdef(RoomKind::Open, [Sewer, BigArch, Closed, Closed], 4),
        mdef(RoomKind::Open, [BigArch, Sewer, Closed, Closed], 4),
        mdef(RoomKind::Open, [Closed, Closed, Sewer, BigArch], 4),
        mdef(RoomKind::Open, [Closed, Closed, BigArch, Sewer], 4),
        mdef(RoomKind::Open, [BigArch, Closed, Sewer, Closed], 3),
        mdef(RoomKind::Open, [BigArch, Closed, Closed, Sewer], 3),
        mdef(RoomKind::Open, [Closed, BigArch, Sewer, Closed], 3),
        mdef(RoomKind::Open, [Closed, BigArch, Closed, Sewer], 3),
        mdef(RoomKind::SewerTunnel, [Sewer, Sewer, Closed, Closed], 7),
        mdef(RoomKind::SewerTunnel, [Sewer, Sewer, Shaft, Closed], 4),
        mdef(RoomKind::SewerTunnel, [Sewer, Sewer, Closed, Shaft], 4),
        mdef(RoomKind::SewerTunnel, [Sewer, Sewer, Shaft, Shaft], 2),
        mdef(RoomKind::SewerTunnel, [Closed, Closed, Sewer, Sewer], 7),
        mdef(RoomKind::SewerTunnel, [Shaft, Closed, Sewer, Sewer], 4),
        mdef(RoomKind::SewerTunnel, [Closed, Shaft, Sewer, Sewer], 4),
        mdef(RoomKind::SewerTunnel, [Shaft, Shaft, Sewer, Sewer], 2),
        mdef(RoomKind::SewerDouble, [Sewer, Sewer, Closed, Closed], 4),
        mdef(RoomKind::SewerDouble, [Sewer, Sewer, Shaft, Closed], 3),
        mdef(RoomKind::SewerDouble, [Sewer, Sewer, Closed, Shaft], 3),
        mdef(RoomKind::SewerDouble, [Closed, Closed, Sewer, Sewer], 4),
        mdef(RoomKind::SewerDouble, [Shaft, Closed, Sewer, Sewer], 3),
        mdef(RoomKind::SewerDouble, [Closed, Shaft, Sewer, Sewer], 3),
        mdef(RoomKind::SewerCross, [Sewer, Sewer, Sewer, Sewer], 2),
        mdef(RoomKind::SewerCross, [Sewer, Sewer, Sewer, Closed], 3),
        mdef(RoomKind::SewerCross, [Sewer, Sewer, Closed, Sewer], 3),
        mdef(RoomKind::SewerCross, [Sewer, Closed, Sewer, Sewer], 3),
        mdef(RoomKind::SewerCross, [Closed, Sewer, Sewer, Sewer], 3),
    ];
    assert(r@ =~= module_table());
    r
}

// ---------------------------------------------------------------------------
// The labyrinth under construction: 25 slots, row-major by (gz, gx)
// ---------------------------------------------------------------------------

/// Slot of the start module `(0, 0)`.
pub open spec fn start_slot() -> int {
    12
}

/// Slot across side `s` of slot `k`.
pub open spec fn nb_slot(k: int, s: int) -> int {
    slot_of(nb_spec(slot_gx(k), slot_gz(k), s).0, nb_spec(slot_gx(k), slot_gz(k), s).1)
}

/// Slot `k` has an in-bounds neighbour across side `s`.
pub open spec fn nb_in(k: int, s: int) -> bool {
    in_bounds(nb_spec(slot_gx(k), slot_gz(k), s).0, nb_spec(slot_gx(k), slot_gz(k), s).1)
}

pub open spec fn ports_of(g: Seq<Option<([ConnType; 4], RoomKind)>>, k: int) -> [ConnType; 4] {
    match g[k] {
        Some(room) => room.0,
        None => [Closed, Closed, Closed, Closed],
    }
}

pub open spec fn port_at(g: Seq<Option<([ConnType; 4], RoomKind)>>, k: int, s: int) -> ConnType {
    match g[k] {
        Some(room) => room.0@[s],
        None => Closed,
    }
}

pub open spec fn kind_at(g: Seq<Option<([ConnType; 4], RoomKind)>>, k: int) -> RoomKind {
    match g[k] {
        Some(room) => room.1,
        None => RoomKind::Open,
    }
}

/// Number of placed modules.
pub open spec fn count_placed(g: Seq<Option<([ConnType; 4], RoomKind)>>) -> nat
    decreases g.len(),
{
    if g.len() == 0 {
        0
    } else {
        count_placed(g.drop_last()) + if g.last() is Some { 1nat } else { 0nat }
    }
}

proof fn lemma_count_placed_bound(g: Seq<Option<([ConnType; 4], RoomKind)>>, k: int)
    requires
        0 <= k < g.len(),
        g[k] is None,
    ensures
        count_placed(g) < g.len(),
    decreases g.len(),
{
    lemma_count_placed_le(g.drop_last());
    if k < g.len() - 1 {
        lemma_count_placed_bound(g.drop_last(), k);
    }
}

proof fn lemma_count_placed_empty(g: Seq<Option<([ConnType; 4], RoomKind)>>)
    requires
        forall|k: int| 0 <= k < g.len() ==> #[trigger] g[k] is None,
    ensures
        count_placed(g) == 0,
    decreases g.len(),
{
    if g.len() > 0 {
        lemma_count_placed_empty(g.drop_last());
    }
}

proof fn lemma_count_placed_le(g: Seq<Option<([ConnType; 4], RoomKind)>>)
    ensures
        count_placed(g) <= g.len(),
    decreases g.len(),
{
    if g.len() > 0 {
        lemma_count_placed_le(g.drop_last());
    }
}

proof fn lemma_count_placed_set(g: Seq<Option<([ConnType; 4], RoomKind)>>, k: int, v: ([ConnType; 4], RoomKind))
    requires
        0 <= k < g.len(),
        g[k] is None,
    ensures
        count_placed(g.update(k, Some(v))) == count_placed(g) + 1,
    decreases g.len(),
{
    let h = g.update(k, Some(v));
    if k == g.len() - 1 {
        assert(h.drop_last() =~= g.drop_last());
    } else {
        assert(h.drop_last() =~= g.drop_last().update(k, Some(v)));
        lemma_count_placed_set(g.drop_last(), k, v);
    }
}

/// Module `k` hangs off a module one step nearer the start, across side `s`,
/// through an opening both modules share.
pub open spec fn parent_link(g: Seq<Option<([ConnType; 4], RoomKind)>>, d: Seq<usize>, k: int, s: int) -> bool {
    &&& 0 <= s < 4
    &&& nb_in(k, s)
    &&& g[nb_slot(k, s)] is Some
    &&& d[nb_slot(k, s)] + 1 == d[k]
    &&& port_at(g, k, s) != Closed
    &&& port_at(g, nb_slot(k, s), opp_spec(s)) == port_at(g, k, s)
}

/// Every placed module other than the start hangs off a parent.
pub open spec fn is_tree(g: Seq<Option<([ConnType; 4], RoomKind)>>, d: Seq<usize>) -> bool {
    &&& g.len() == 25
    &&& d.len() == 25
    &&& g[start_slot()] is Some
    &&& d[start_slot()] == 0
    &&& forall|k: int| 0 <= k < 25 && k != start_slot() && #[trigger] g[k] is Some ==> exists|s: int| parent_link(g, d, k, s)
}

/// Number of open sides.
pub open spec fn open_count(p: Seq<ConnType>) -> int {
    (if p[0] != Closed { 1int } else { 0int }) + (if p[1] != Closed { 1int } else { 0int }) + (if p[2]
        != Closed { 1int } else { 0int }) + (if p[3] != Closed { 1int } else { 0int })
}

fn open_ports(p: &[ConnType; 4]) -> (r: usize)
    ensures
        r == open_count(p@),
{
    let mut n: usize = 0;
    if p[0] != Closed {
        n += 1;
    }
    if p[1] != Closed {
        n += 1;
    }
    if p[2] != Closed {
        n += 1;
    }
    if p[3] != Closed {
        n += 1;
    }
    n
}

/// What an open room is by its openings: a dead end (one opening) holds a
/// pickup at its centre; a passage (two) may hold an ambusher where it turns
/// a corner; a hub (three or four) holds a group of enemies.
#[derive(Clone, Copy, Debug, PartialEq, Eq)]
pub enum OpenRole {
    DeadEnd,
    Passage { corner: bool },
    Hub,
}

/// The role of an open room with openings `p` (see `OpenRole`); with no
/// opening at all it counts as a hub.
pub open spec fn open_role_spec(p: Seq<ConnType>) -> OpenRole {
    if open_count(p) == 1 {
        OpenRole::DeadEnd
    } else if open_count(p) == 2 {
        OpenRole::Passage { corner: (p[0] != Closed || p[1] != Closed) && (p[2] != Closed || p[3] != Closed) }
    } else {
        OpenRole::Hub
    }
}

/// The role of an open room with openings `p` (see `open_role_spec`).
pub fn open_role(p: &[ConnType; 4]) -> (r: OpenRole)
    ensures
        r == open_role_spec(p@),
{
    let n = open_ports(p);
    if n == 1 {
        OpenRole::DeadEnd
    } else if n == 2 {
        OpenRole::Passage { corner: (p[0] != Closed || p[1] != Closed) && (p[2] != Closed || p[3] != Closed) }
    } else {
        OpenRole::Hub
    }
}

/// How many enemies a hub at `depth` holds: one, plus one for every two
/// stretches of depth up to two, plus a coin flip from the stream (the next
/// state's parity).
pub fn hub_enemy_count(depth: u32, rng: &mut Rng) -> (r: usize)
    ensures
        r == 1 + (if depth / 2 < 2 { depth / 2 } else { 2 }) + xorshift(old(rng).0) % 2,
        final(rng).0 == xorshift(old(rng).0),
{
    let extra = if depth / 2 < 2 { (depth / 2) as usize } else { 2 };
    1 + extra + rng.umod(2)
}

/// Template `d` can go at slot `k`: it meets the incoming connection on side
/// `incoming`, and every other side matches the module already across it.
pub open spec fn fits_spec(d: MDef, g: Seq<Option<([ConnType; 4], RoomKind)>>, k: int, incoming: int, conn: ConnType) -> bool {
    &&& d.ports@[incoming] == conn
    &&& forall|s: int|
        0 <= s < 4 && s != incoming && nb_in(k, s) && g[nb_slot(k, s)] is Some ==> d.ports@[s] == port_at(
            g,
            nb_slot(k, s),
            opp_spec(s),
        )
}

fn fits(d: &MDef, grid: &Vec<Option<([ConnType; 4], RoomKind)>>, gx: i32, gz: i32, incoming: usize, conn: ConnType) -> (r: bool)
    requires
        grid@.len() == 25,
        in_bounds(gx as int, gz as int),
        incoming < 4,
    ensures
        r == fits_spec(*d, grid@, slot_of(gx as int, gz as int), incoming as int, conn),
{
    proof {
        lemma_slot_roundtrip(gx as int, gz as int);
    }
    if !conn_compat(d.ports[incoming], conn) {
        return false;
    }
    let mut s: usize = 0;
    while s < 4
        invariant
            s <= 4,
            grid@.len() == 25,
            in_bounds(gx as int, gz as int),
            incoming < 4,
            slot_gx(slot_of(gx as int, gz as int)) == gx,
            slot_gz(slot_of(gx as int, gz as int)) == gz,
            d.ports@[incoming as int] == conn,
            forall|t: int|
                0 <= t < s && t != incoming && nb_in(slot_of(gx as int, gz as int), t) && grid@[nb_slot(
                    slot_of(gx as int, gz as int),
                    t,
                )] is Some ==> d.ports@[t] == port_at(grid@, nb_slot(slot_of(gx as int, gz as int), t), opp_spec(t)),
        decreases 4 - s,
    {
        if s != incoming {
            let (nx, nz) = nb(gx, gz, s);
            if -2 <= nx && nx <= 2 && -2 <= nz && nz <= 2 {
                let k = slot(nx, nz);
                match grid[k] {
                    Some(np) => {
                        let o = opp_side(s);
                        if !conn_compat(d.ports[s], np.0[o]) {
                            proof {
                                let kk = slot_of(gx as int, gz as int);
                                assert(nb_slot(kk, s as int) == k as int);
                                assert(nb_in(kk, s as int));
                                assert(port_at(grid@, nb_slot(kk, s as int), opp_spec(s as int)) == np.0@[o as int]);
                            }
                            return false;
                        }
                    },
                    None => {},
                }
            }
        }
        s += 1;
    }
    true
}

/// Weighted draw: the first position whose running weight exceeds `roll`
/// (position 0 when none does).
pub open spec fn pick_from(ws: Seq<u32>, roll: int, i: int) -> int
    decreases ws.len() - i,
{
    if i < 0 || i >= ws.len() {
        0
    } else if roll < ws[i] {
        i
    } else {
        pick_from(ws, roll - ws[i], i + 1)
    }
}

/// Weights of the candidate templates.
pub open spec fn cand_weights(defs: Seq<MDef>, cands: Seq<usize>) -> Seq<u32> {
    cands.map_values(|c: usize| defs[c as int].weight)
}

fn pick(defs: &Vec<MDef>, cands: &Vec<usize>, roll0: u32) -> (r: usize)
    requires
        cands@.len() > 0,
        forall|t: int| 0 <= t < cands@.len() ==> #[trigger] cands@[t] < defs@.len(),
    ensures
        r == pick_from(cand_weights(defs@, cands@), roll0 as int, 0),
        r < cands@.len(),
{
    let ghost ws = cand_weights(defs@, cands@);
    let mut roll = roll0;
    let mut t: usize = 0;
    while t < cands.len()
        invariant
            t <= cands@.len(),
            ws == cand_weights(defs@, cands@),
            forall|u: int| 0 <= u < cands@.len() ==> #[trigger] cands@[u] < defs@.len(),
            pick_from(ws, roll0 as int, 0) == pick_from(ws, roll as int, t as int),
        decreases cands@.len() - t,
    {
        let w = defs[cands[t]].weight;
        if roll < w {
            return t;
        }
        roll = roll - w;
        t += 1;
    }
    0
}


/// Indices below `n` of the templates that fit slot `k`, in order.
pub open spec fn fitting(defs: Seq<MDef>, grid: Seq<Option<([ConnType; 4], RoomKind)>>, k: int, incoming: int, conn: ConnType, n: int) -> Seq<usize>
    decreases n,
{
    if n <= 0 {
        Seq::empty()
    } else {
        let p = fitting(defs, grid, k, incoming, conn, n - 1);
        if fits_spec(defs[n - 1], grid, k, incoming, conn) {
            p.push((n - 1) as usize)
        } else {
            p
        }
    }
}

/// The dead ends (one open side) among the first `n` of the templates `s`, in order.
pub open spec fn dead_ends(defs: Seq<MDef>, s: Seq<usize>, n: int) -> Seq<usize>
    decreases n,
{
    if n <= 0 {
        Seq::empty()
    } else {
        let p = dead_ends(defs, s, n - 1);
        if open_count(defs[s[n - 1] as int].ports@) == 1 {
            p.push(s[n - 1])
        } else {
            p
        }
    }
}

/// The candidate templates for slot `k`: all that fit, or, when
/// `dead_first`, only the dead ends among them if there are any.
pub open spec fn candidates_spec(defs: Seq<MDef>, grid: Seq<Option<([ConnType; 4], RoomKind)>>, k: int, incoming: int, conn: ConnType, dead_first: bool) -> Seq<usize> {
    let base = fitting(defs, grid, k, incoming, conn, defs.len() as int);
    let dead = dead_ends(defs, base, base.len() as int);
    if dead_first && dead.len() > 0 { dead } else { base }
}

/// Templates that fit slot `(gx, gz)` (see `fits_spec`); when `dead_first`,
/// only the dead ends among them if there are any.
fn candidates(defs: &Vec<MDef>, grid: &Vec<Option<([ConnType; 4], RoomKind)>>, gx: i32, gz: i32, incoming: usize, conn: ConnType, dead_first: bool) -> (r: Vec<usize>)
    requires
        grid@.len() == 25,
        in_bounds(gx as int, gz as int),
        incoming < 4,
        defs@.len() == 44,
    ensures
        r@.len() <= 44,
        forall|t: int| 0 <= t < r@.len() ==> #[trigger] r@[t] < defs@.len() && fits_spec(defs@[r@[t] as int], grid@, slot_of(gx as int, gz as int), incoming as int, conn),
        forall|t: int| 0 <= t < r@.len() ==> defs@[#[trigger] r@[t] as int].ports@[incoming as int] == conn,
        r@ == candidates_spec(defs@, grid@, slot_of(gx as int, gz as int), incoming as int, conn, dead_first),
{
    let ghost k = slot_of(gx as int, gz as int);
    let mut base: Vec<usize> = Vec::new();
    let mut di: usize = 0;
    while di < defs.len()
        invariant
            di <= defs@.len(),
            base@.len() <= di,
            grid@.len() == 25,
            in_bounds(gx as int, gz as int),
            incoming < 4,
            k == slot_of(gx as int, gz as int),
            forall|t: int| 0 <= t < base@.len() ==> #[trigger] base@[t] < defs@.len() && fits_spec(defs@[base@[t] as int], grid@, k, incoming as int, conn),
            base@ == fitting(defs@, grid@, k, incoming as int, conn, di as int),
        decreases defs@.len() - di,
    {
        if fits(&defs[di], grid, gx, gz, incoming, conn) {
            base.push(di);
        }
        di += 1;
    }
    if !dead_first {
        return base;
    }
    let mut dead: Vec<usize> = Vec::new();
    let mut t: usize = 0;
    while t < base.len()
        invariant
            t <= base@.len(),
            base@.len() <= 44,
            dead@.len() <= t,
            forall|u: int| 0 <= u < base@.len() ==> #[trigger] base@[u] < defs@.len() && fits_spec(defs@[base@[u] as int], grid@, k, incoming as int, conn),
            forall|u: int| 0 <= u < dead@.len() ==> #[trigger] dead@[u] < defs@.len() && fits_spec(defs@[dead@[u] as int], grid@, k, incoming as int, conn),
            dead@ == dead_ends(defs@, base@, t as int),
            base@ == fitting(defs@, grid@, k, incoming as int, conn, defs@.len() as int),
        decreases base@.len() - t,
    {
        if open_ports(&defs[base[t]].ports) == 1 {
            dead.push(base[t]);
        }
        t += 1;
    }
    if dead.len() == 0 {
        base
    } else {
        dead
    }
}

/// Sum of the first `n` weights.
pub open spec fn wsum(ws: Seq<u32>, n: int) -> int
    decreases n,
{
    if n <= 0 { 0 } else { wsum(ws, n - 1) + ws[n - 1] }
}

/// The dead end forced when no template fits: only the incoming side open.
pub open spec fn forced_dead_end(incoming: int, conn: ConnType) -> [ConnType; 4] {
    if incoming == 0 {
        [conn, Closed, Closed, Closed]
    } else if incoming == 1 {
        [Closed, conn, Closed, Closed]
    } else if incoming == 2 {
        [Closed, Closed, conn, Closed]
    } else {
        [Closed, Closed, Closed, conn]
    }
}

/// The module drawn for a new slot from stream state `rng`, and the stream
/// state after: with candidates, the stream steps once and its low 32 bits
/// modulo the total weight select a candidate by weight; without, a forced
/// open dead end and the stream untouched.
pub open spec fn drawn(defs: Seq<MDef>, cands: Seq<usize>, rng: u64, incoming: int, conn: ConnType) -> (([ConnType; 4], RoomKind), u64) {
    if cands.len() == 0 {
        ((forced_dead_end(incoming, conn), RoomKind::Open), rng)
    } else {
        let next = xorshift(rng);
        let ws = cand_weights(defs, cands);
        let roll = (next as u32) % (wsum(ws, ws.len() as int) as u32);
        let c = cands[pick_from(ws, roll as int, 0)] as int;
        ((defs[c].ports, defs[c].room), next)
    }
}

/// The module for a new slot: a weighted draw among the candidates, or a
/// dead end of the incoming connection when there is none.
fn draw_room(defs: &Vec<MDef>, cands: &Vec<usize>, rng: &mut Rng, incoming: usize, conn: ConnType) -> (r: ([ConnType; 4], RoomKind))
    requires
        incoming < 4,
        defs@.len() == 44,
        cands@.len() <= 44,
        forall|u: int| 0 <= u < defs@.len() ==> 1 <= #[trigger] defs@[u].weight <= 8,
        forall|t: int| 0 <= t < cands@.len() ==> #[trigger] cands@[t] < defs@.len(),
        forall|t: int| 0 <= t < cands@.len() ==> defs@[#[trigger] cands@[t] as int].ports@[incoming as int] == conn,
    ensures
        r.0@[incoming as int] == conn,
        cands@.len() == 0 ==> r.1 == RoomKind::Open && forall|s: int| 0 <= s < 4 && s != incoming ==> r.0@[s] == Closed,
        cands@.len() > 0 ==> exists|t: int| 0 <= t < cands@.len() && r == (defs@[cands@[t] as int].ports, defs@[cands@[t] as int].room),
        (r, final(rng).0) == drawn(defs@, cands@, old(rng).0, incoming as int, conn),
{
    if cands.len() == 0 {
        let p = if incoming == 0 {
            [conn, Closed, Closed, Closed]
        } else if incoming == 1 {
            [Closed, conn, Closed, Closed]
        } else if incoming == 2 {
            [Closed, Closed, conn, Closed]
        } else {
            [Closed, Closed, Closed, conn]
        };
        return (p, RoomKind::Open);
    }
    let ghost ws = cand_weights(defs@, cands@);
    let mut total: u32 = 0;
    let mut t: usize = 0;
    while t < cands.len()
        invariant
            t <= cands@.len(),
            cands@.len() <= 44,
            total <= 8 * t,
            t > 0 ==> total >= 1,
            ws == cand_weights(defs@, cands@),
            total == wsum(ws, t as int),
            forall|u: int| 0 <= u < cands@.len() ==> #[trigger] cands@[u] < defs@.len(),
            forall|u: int| 0 <= u < defs@.len() ==> 1 <= #[trigger] defs@[u].weight <= 8,
        decreases cands@.len() - t,
    {
        total = total + defs[cands[t]].weight;
        t += 1;
    }
    let roll = (rng.next() as u32) % total;
    let i = pick(defs, cands, roll);
    let c = cands[i];
    assert(defs@[cands@[i as int] as int].ports@[incoming as int] == conn);
    (defs[c].ports, defs[c].room)
}

/// Every queued step leaves a placed module through one of its openings.
pub open spec fn queue_ok(g: Seq<Option<([ConnType; 4], RoomKind)>>, q: Seq<(i32, i32, usize)>) -> bool {
    forall|t: int|
        0 <= t < q.len() ==> {
            let e = #[trigger] q[t];
            &&& in_bounds(e.0 as int, e.1 as int)
            &&& e.2 < 4
            &&& g[slot_of(e.0 as int, e.1 as int)] is Some
            &&& port_at(g, slot_of(e.0 as int, e.1 as int), e.2 as int) != Closed
        }
}

/// Depths stay below the number of placed modules.
pub open spec fn depths_below(g: Seq<Option<([ConnType; 4], RoomKind)>>, d: Seq<usize>, n: int) -> bool {
    forall|k: int| 0 <= k < 25 && #[trigger] g[k] is Some ==> d[k] < n
}

proof fn lemma_tree_place(
    g: Seq<Option<([ConnType; 4], RoomKind)>>,
    d: Seq<usize>,
    nk: int,
    v: ([ConnType; 4], RoomKind),
    dv: usize,
    pk: int,
    side: int,
)
    requires
        is_tree(g, d),
        0 <= nk < 25,
        g[nk] is None,
        0 <= pk < 25,
        0 <= side < 4,
        g[pk] is Some,
        nb_in(pk, side),
        nb_slot(pk, side) == nk,
        dv == d[pk] + 1,
        port_at(g, pk, side) != Closed,
        v.0@[opp_spec(side)] == port_at(g, pk, side),
    ensures
        is_tree(g.update(nk, Some(v)), d.update(nk, dv)),
{
    let g2 = g.update(nk, Some(v));
    let d2 = d.update(nk, dv);
    lemma_slot_coords(pk);
    lemma_nb_back(slot_gx(pk), slot_gz(pk), side);
    let (nx, nz) = nb_spec(slot_gx(pk), slot_gz(pk), side);
    lemma_slot_roundtrip(nx, nz);
    assert(parent_link(g2, d2, nk, opp_spec(side)));
    assert forall|k: int| 0 <= k < 25 && k != start_slot() && #[trigger] g2[k] is Some implies exists|s: int|
        parent_link(g2, d2, k, s) by {
        if k == nk {
            assert(parent_link(g2, d2, nk, opp_spec(side)));
        } else {
            let s = choose|s: int| parent_link(g, d, k, s);
            assert(parent_link(g2, d2, k, s));
        }
    }
}

// ---------------------------------------------------------------------------
// Breadth-first order: depths are distances from the start
// ---------------------------------------------------------------------------

/// Depth of the module a queued opening leaves.
pub open spec fn src_depth(d: Seq<usize>, e: (i32, i32, usize)) -> int {
    d[slot_of(e.0 as int, e.1 as int)] as int
}

/// Two modules joined by a shared opening are at most one step apart in depth.
pub open spec fn depth_steps(g: Seq<Option<([ConnType; 4], RoomKind)>>, d: Seq<usize>) -> bool {
    forall|k: int, s: int| 0 <= k < 25 && g[k] is Some && #[trigger] shared_opening(g, k, s) ==> d[k] <= d[nb_slot(k, s)] + 1
}

/// Slot `a` holds a module whose side `s` is open toward an empty cell of the grid.
pub open spec fn open_toward_empty(g: Seq<Option<([ConnType; 4], RoomKind)>>, a: int, s: int) -> bool {
    &&& 0 <= a < 25
    &&& 0 <= s < 4
    &&& g[a] is Some
    &&& port_at(g, a, s) != Closed
    &&& nb_in(a, s)
    &&& g[nb_slot(a, s)] is None
}

/// The queued opening leaving slot `a` across side `s`.
pub open spec fn entry_of(a: int, s: int) -> (i32, i32, usize) {
    (slot_gx(a) as i32, slot_gz(a) as i32, s as usize)
}

/// Breadth-first bookkeeping at queue position `qi`: queued depths never
/// decrease; nothing queued or placed is more than one step deeper than the
/// next opening to try; every opening toward an empty cell is still queued;
/// joined modules are at most one step apart.
pub open spec fn bfs_ok(g: Seq<Option<([ConnType; 4], RoomKind)>>, d: Seq<usize>, q: Seq<(i32, i32, usize)>, qi: int) -> bool {
    &&& forall|t1: int, t2: int| 0 <= t1 < t2 < q.len() ==> src_depth(d, #[trigger] q[t1]) <= src_depth(d, #[trigger] q[t2])
    &&& qi < q.len() ==> forall|t: int| 0 <= t < q.len() ==> src_depth(d, #[trigger] q[t]) <= src_depth(d, q[qi]) + 1
    &&& qi < q.len() ==> forall|c: int| 0 <= c < 25 && #[trigger] g[c] is Some ==> d[c] <= src_depth(d, q[qi]) + 1
    &&& forall|a: int, s: int| #[trigger] open_toward_empty(g, a, s) ==> exists|t: int| qi <= t < q.len() && #[trigger] q[t] == entry_of(a, s)
    &&& depth_steps(g, d)
}

/// Skipping a queued opening whose cell is outside the grid or taken keeps
/// the bookkeeping.
proof fn lemma_bfs_skip(g: Seq<Option<([ConnType; 4], RoomKind)>>, d: Seq<usize>, q: Seq<(i32, i32, usize)>, qi: int)
    requires
        bfs_ok(g, d, q, qi),
        0 <= qi < q.len(),
        queue_ok(g, q),
        g.len() == 25,
        d.len() == 25,
        !(nb_in(slot_of(q[qi].0 as int, q[qi].1 as int), q[qi].2 as int) && g[nb_slot(slot_of(q[qi].0 as int, q[qi].1 as int), q[qi].2 as int)] is None),
    ensures
        bfs_ok(g, d, q, qi + 1),
{
    if qi + 1 < q.len() {
        assert(src_depth(d, q[qi]) <= src_depth(d, q[qi + 1]));
    }
    assert forall|a: int, s: int| #[trigger] open_toward_empty(g, a, s) implies exists|t: int| qi + 1 <= t < q.len() && #[trigger] q[t]
        == entry_of(a, s) by {
        let t = choose|t: int| qi <= t < q.len() && #[trigger] q[t] == entry_of(a, s);
        if t == qi {
            lemma_slot_coords(a);
            assert(slot_of(q[qi].0 as int, q[qi].1 as int) == a);
            assert(false);
        }
    }
}

/// Where the queued opening `e` leads from slot `k` (the slot it leaves).
proof fn lemma_entry_slot(a: int, s: int)
    requires
        0 <= a < 25,
    ensures
        slot_of(entry_of(a, s).0 as int, entry_of(a, s).1 as int) == a,
        in_bounds(entry_of(a, s).0 as int, entry_of(a, s).1 as int),
{
    lemma_slot_coords(a);
}

/// Placing a module beyond the queued opening `q[qi]`, at one step deeper,
/// and queueing its openings toward empty cells keeps the bookkeeping.
proof fn lemma_bfs_place(
    g: Seq<Option<([ConnType; 4], RoomKind)>>,
    d: Seq<usize>,
    q: Seq<(i32, i32, usize)>,
    qi: int,
    nk: int,
    v: ([ConnType; 4], RoomKind),
    q2: Seq<(i32, i32, usize)>,
)
    requires
        bfs_ok(g, d, q, qi),
        queue_ok(g, q),
        g.len() == 25,
        d.len() == 25,
        0 <= qi < q.len(),
        nb_in(slot_of(q[qi].0 as int, q[qi].1 as int), q[qi].2 as int),
        nk == nb_slot(slot_of(q[qi].0 as int, q[qi].1 as int), q[qi].2 as int),
        g[nk] is None,
        d[slot_of(q[qi].0 as int, q[qi].1 as int)] < usize::MAX,
        q2.len() >= q.len(),
        forall|t: int| 0 <= t < q.len() ==> #[trigger] q2[t] == q[t],
        forall|t: int| q.len() <= t < q2.len() ==> slot_of((#[trigger] q2[t]).0 as int, q2[t].1 as int) == nk,
        forall|s: int| #[trigger] open_toward_empty(g.update(nk, Some(v)), nk, s) ==> exists|t: int| q.len() <= t < q2.len() && #[trigger] q2[t]
            == entry_of(nk, s),
    ensures
        bfs_ok(
            g.update(nk, Some(v)),
            d.update(nk, (d[slot_of(q[qi].0 as int, q[qi].1 as int)] + 1) as usize),
            q2,
            qi + 1,
        ),
{
    let pk = slot_of(q[qi].0 as int, q[qi].1 as int);
    let dd = d[pk] as int;
    let g2 = g.update(nk, Some(v));
    let d2 = d.update(nk, (dd + 1) as usize);
    let n0 = q.len() as int;
    assert(src_depth(d, q[qi]) == dd);
    lemma_slot_coords(nk);
    // Old entries keep their depths: they leave placed slots, not `nk`.
    assert forall|t: int| 0 <= t < n0 implies src_depth(d2, #[trigger] q2[t]) == src_depth(d, q[t]) by {
        assert(q2[t] == q[t]);
        let e = q[t];
        assert(g[slot_of(e.0 as int, e.1 as int)] is Some);
    }
    assert forall|t: int| n0 <= t < q2.len() implies src_depth(d2, #[trigger] q2[t]) == dd + 1 by {
    }
    assert forall|t: int| 0 <= t < q2.len() implies src_depth(d2, #[trigger] q2[t]) <= dd + 1 by {
        if t < n0 {
            assert(src_depth(d, q[t]) <= src_depth(d, q[qi]) + 1);
        }
    }
    assert forall|t1: int, t2: int| 0 <= t1 < t2 < q2.len() implies src_depth(d2, #[trigger] q2[t1]) <= src_depth(d2, #[trigger] q2[t2]) by {
        if t2 < n0 {
            assert(src_depth(d, q[t1]) <= src_depth(d, q[t2]));
        }
    }
    if qi + 1 < q2.len() {
        assert(src_depth(d2, q2[qi + 1]) >= dd) by {
            if qi + 1 < n0 {
                assert(src_depth(d, q[qi]) <= src_depth(d, q[qi + 1]));
            }
        }
        assert forall|c: int| 0 <= c < 25 && #[trigger] g2[c] is Some implies d2[c] <= src_depth(d2, q2[qi + 1]) + 1 by {
            if c != nk {
                assert(g[c] is Some);
            }
        }
    }
    assert forall|a: int, s: int| #[trigger] open_toward_empty(g2, a, s) implies exists|t: int| qi + 1 <= t < q2.len() && #[trigger] q2[t]
        == entry_of(a, s) by {
        if a != nk {
            assert(g2[a] == g[a]);
            assert(port_at(g2, a, s) == port_at(g, a, s));
            assert(nb_slot(a, s) != nk);
            assert(open_toward_empty(g, a, s));
            let t = choose|t: int| qi <= t < q.len() && #[trigger] q[t] == entry_of(a, s);
            if t == qi {
                lemma_entry_slot(a, s);
                assert(false);
            }
            assert(q2[t] == q[t]);
        } else {
            let t = choose|t: int| n0 <= t < q2.len() && #[trigger] q2[t] == entry_of(nk, s);
            assert(qi + 1 <= t);
        }
    }
    assert forall|k: int, s: int| 0 <= k < 25 && g2[k] is Some && #[trigger] shared_opening(g2, k, s) implies d2[k] <= d2[nb_slot(k, s)]
        + 1 by {
        lemma_nb_slot_back(k, s);
        let j = nb_slot(k, s);
        if k != nk && j != nk {
            assert(g2[k] == g[k]);
            assert(g2[j] == g[j]);
            assert(shared_opening(g, k, s));
        } else if k == nk {
            assert(g[j] is Some);
            assert(port_at(g, j, opp_spec(s)) == port_at(g2, j, opp_spec(s)));
            assert(open_toward_empty(g, j, opp_spec(s)));
            let t = choose|t: int| qi <= t < q.len() && #[trigger] q[t] == entry_of(j, opp_spec(s));
            lemma_entry_slot(j, opp_spec(s));
            assert(src_depth(d, q[t]) == d[j]);
            if t > qi {
                assert(src_depth(d, q[qi]) <= src_depth(d, q[t]));
            }
        } else {
            assert(g[k] is Some);
            assert(d[k] <= src_depth(d, q[qi]) + 1);
        }
    }
}

/// The bookkeeping holds for the start module and its single queued arch.
proof fn lemma_bfs_start(g: Seq<Option<([ConnType; 4], RoomKind)>>, d: Seq<usize>, q: Seq<(i32, i32, usize)>)
    requires
        g.len() == 25,
        d.len() == 25,
        g[start_slot()] == Some(([BigArch, Closed, Closed, Closed], RoomKind::Open)),
        forall|k: int| 0 <= k < 25 && k != start_slot() ==> #[trigger] g[k] is None,
        d[start_slot()] == 0,
        q.len() == 1,
        q[0] == (0i32, 0i32, 0usize),
    ensures
        bfs_ok(g, d, q, 0),
{
    assert forall|a: int, s: int| #[trigger] open_toward_empty(g, a, s) implies exists|t: int| 0 <= t < q.len() && #[trigger] q[t] == entry_of(a, s) by {
        assert(a == start_slot());
        assert(port_at(g, a, s) != Closed);
        assert(s == 0);
        lemma_slot_coords(a);
        assert(q[0] == entry_of(a, s));
    }
    assert forall|k: int, s: int| 0 <= k < 25 && g[k] is Some && #[trigger] shared_opening(g, k, s) implies d[k] <= d[nb_slot(k, s)] + 1 by {
        lemma_nb_slot_back(k, s);
        assert(k == start_slot());
        assert(nb_slot(k, s) != k);
    }
}

/// The grid before growth: only the start module, an open room with a
/// single arch toward +Z.
fn start_grid() -> (res: (Vec<Option<([ConnType; 4], RoomKind)>>, Vec<usize>))
    ensures
        is_tree(res.0@, res.1@),
        count_placed(res.0@) == 1,
        depths_below(res.0@, res.1@, 1),
        res.0@[start_slot()] == Some(([BigArch, Closed, Closed, Closed], RoomKind::Open)),
        forall|k: int| 0 <= k < 25 && k != start_slot() ==> #[trigger] res.0@[k] is None,
        res.0@ == start_grid_spec(),
        res.1@ == Seq::new(25, |k: int| 0usize),
{
    let mut grid: Vec<Option<([ConnType; 4], RoomKind)>> = Vec::new();
    let mut depth: Vec<usize> = Vec::new();
    let mut i: usize = 0;
    while i < 25
        invariant
            i <= 25,
            grid@.len() == i,
            depth@.len() == i,
            forall|k: int| 0 <= k < i ==> #[trigger] grid@[k] is None,
            forall|k: int| 0 <= k < i ==> #[trigger] depth@[k] == 0,
        decreases 25 - i,
    {
        grid.push(None);
        depth.push(0);
        i += 1;
    }
    proof {
        lemma_count_placed_empty(grid@);
        lemma_count_placed_set(grid@, 12, ([BigArch, Closed, Closed, Closed], RoomKind::Open));
    }
    grid.set(12, Some(([BigArch, Closed, Closed, Closed], RoomKind::Open)));
    proof {
        assert(grid@ =~= start_grid_spec());
        assert(depth@ =~= Seq::new(25, |k: int| 0usize));
        assert forall|k: int| 0 <= k < 25 && k != start_slot() && #[trigger] grid@[k] is Some implies exists|s: int|
            parent_link(grid@, depth@, k, s) by {
            assert(grid@[k] is None);
        }
        assert forall|k: int| 0 <= k < 25 && #[trigger] grid@[k] is Some implies depth@[k] < 1 by {
            assert(depth@[k] == 0);
        }
    }
    (grid, depth)
}

/// Side `s` of the module at `(gx, gz)` (slot `nk`) gets queued: it is not
/// the side it was entered by, it is open, and the cell beyond is not taken.
pub open spec fn queues_side(g: Seq<Option<([ConnType; 4], RoomKind)>>, nk: int, gx: int, gz: int, incoming: int, s: int) -> bool {
    let (ax, az) = nb_spec(gx, gz, s);
    &&& s != incoming
    &&& port_at(g, nk, s) != Closed
    &&& !(in_bounds(ax, az) && g[slot_of(ax, az)] is Some)
}

/// The queue `q` with the openings of sides `s..4` of the module at slot
/// `nk` appended in side order (see `queues_side`).
pub open spec fn queue_from(g: Seq<Option<([ConnType; 4], RoomKind)>>, q: Seq<(i32, i32, usize)>, nk: int, gx: i32, gz: i32, incoming: int, s: int) -> Seq<(i32, i32, usize)>
    decreases 4 - s,
{
    if s >= 4 || s < 0 {
        q
    } else {
        let q1 = if queues_side(g, nk, gx as int, gz as int, incoming, s) { q.push((gx, gz, s as usize)) } else { q };
        queue_from(g, q1, nk, gx, gz, incoming, s + 1)
    }
}

/// Queue the openings of the module just placed at slot `nk` (coordinates
/// `(gx, gz)`), except the one it was entered by, that lead toward cells
/// not yet taken.
fn queue_openings(grid: &Vec<Option<([ConnType; 4], RoomKind)>>, queue: &mut Vec<(i32, i32, usize)>, nk: usize, gx: i32, gz: i32, incoming: usize)
    requires
        grid@.len() == 25,
        in_bounds(gx as int, gz as int),
        nk == slot_of(gx as int, gz as int),
        incoming < 4,
        grid@[nk as int] is Some,
        nb_in(nk as int, incoming as int),
        grid@[nb_slot(nk as int, incoming as int)] is Some,
        queue_ok(grid@, old(queue)@),
    ensures
        queue_ok(grid@, final(queue)@),
        old(queue)@.len() <= final(queue)@.len() <= old(queue)@.len() + 3,
        forall|t: int| 0 <= t < old(queue)@.len() ==> #[trigger] final(queue)@[t] == old(queue)@[t],
        forall|t: int| old(queue)@.len() <= t < final(queue)@.len() ==> slot_of((#[trigger] final(queue)@[t]).0 as int, final(queue)@[t].1 as int) == nk,
        forall|t: int| #[trigger] open_toward_empty(grid@, nk as int, t) ==> exists|u: int| old(queue)@.len() <= u < final(queue)@.len()
            && #[trigger] final(queue)@[u] == entry_of(nk as int, t),
        final(queue)@ == queue_from(grid@, old(queue)@, nk as int, gx, gz, incoming as int, 0),
{
    let ghost q_before = queue@;
    let ports = match grid[nk] {
        Some(room) => room.0,
        None => [Closed, Closed, Closed, Closed],
    };
    proof {
        lemma_slot_coords(nk as int);
    }
    let mut s: usize = 0;
    while s < 4
        invariant
            s <= 4,
            grid@.len() == 25,
            in_bounds(gx as int, gz as int),
            nk == slot_of(gx as int, gz as int),
            slot_gx(nk as int) == gx,
            slot_gz(nk as int) == gz,
            incoming < 4,
            grid@[nk as int] is Some,
            forall|t: int| 0 <= t < 4 ==> #[trigger] ports@[t] == port_at(grid@, nk as int, t),
            nb_in(nk as int, incoming as int),
            grid@[nb_slot(nk as int, incoming as int)] is Some,
            queue_ok(grid@, queue@),
            queue@.len() <= q_before.len() + s - (if s > incoming { 1int } else { 0int }),
            queue@.len() >= q_before.len(),
            forall|t: int| 0 <= t < q_before.len() ==> #[trigger] queue@[t] == q_before[t],
            forall|t: int| q_before.len() <= t < queue@.len() ==> slot_of((#[trigger] queue@[t]).0 as int, queue@[t].1 as int) == nk,
            forall|t: int| 0 <= t < s && #[trigger] open_toward_empty(grid@, nk as int, t) ==> exists|u: int| q_before.len() <= u < queue@.len()
                && #[trigger] queue@[u] == entry_of(nk as int, t),
            queue_from(grid@, queue@, nk as int, gx, gz, incoming as int, s as int) == queue_from(grid@, q_before, nk as int, gx, gz, incoming as int, 0),
        decreases 4 - s,
    {
        let opening = s != incoming && ports[s] != Closed;
        let mut push = false;
        if opening {
            let (ax, az) = nb(gx, gz, s);
            let taken = -2 <= ax && ax <= 2 && -2 <= az && az <= 2 && grid[slot(ax, az)].is_some();
            proof {
                if taken {
                    lemma_slot_roundtrip(ax as int, az as int);
                    assert(nb_slot(nk as int, s as int) == slot_of(ax as int, az as int));
                }
            }
            push = !taken;
            proof {
                let (sx, sz) = nb_spec(gx as int, gz as int, s as int);
                assert(ax == sx && az == sz);
                if in_bounds(sx, sz) {
                    lemma_slot_roundtrip(ax as int, az as int);
                }
            }
        }
        assert(push == queues_side(grid@, nk as int, gx as int, gz as int, incoming as int, s as int));
        let ghost q0 = queue@;
        if push {
            queue.push((gx, gz, s));
            proof {
                assert(queue@[q0.len() as int] == entry_of(nk as int, s as int));
                assert forall|t: int| 0 <= t < queue@.len() implies {
                    let e = #[trigger] queue@[t];
                    &&& in_bounds(e.0 as int, e.1 as int)
                    &&& e.2 < 4
                    &&& grid@[slot_of(e.0 as int, e.1 as int)] is Some
                    &&& port_at(grid@, slot_of(e.0 as int, e.1 as int), e.2 as int) != Closed
                } by {
                    if t < q0.len() {
                        assert(queue@[t] == q0[t]);
                    }
                }
            }
        } else {
            assert(!open_toward_empty(grid@, nk as int, s as int));
        }
        proof {
            assert forall|t: int| 0 <= t < s + 1 && #[trigger] open_toward_empty(grid@, nk as int, t) implies exists|u: int|
                q_before.len() <= u < queue@.len() && #[trigger] queue@[u] == entry_of(nk as int, t) by {
                if t < s {
                    let u = choose|u: int| q_before.len() <= u < q0.len() && #[trigger] q0[u] == entry_of(nk as int, t);
                    assert(queue@[u] == q0[u]);
                } else {
                    assert(queue@[q0.len() as int] == entry_of(nk as int, s as int));
                }
            }
            assert forall|t: int| 0 <= t < q_before.len() implies #[trigger] queue@[t] == q_before[t] by {
                assert(queue@[t] == q0[t]);
            }
            assert forall|t: int| q_before.len() <= t < queue@.len() implies slot_of((#[trigger] queue@[t]).0 as int, queue@[t].1 as int) == nk by {
                if t < q0.len() {
                    assert(queue@[t] == q0[t]);
                }
            }
        }
        s += 1;
    }
}

/// What one growth step does to `(grid, depths, queue, placed, stream)`
/// for the queued opening `q[qi]` (see `grow_step`).
pub open spec fn grow_step_spec(
    defs: Seq<MDef>,
    g: Seq<Option<([ConnType; 4], RoomKind)>>,
    d: Seq<usize>,
    q: Seq<(i32, i32, usize)>,
    placed: int,
    rng: u64,
    qi: int,
    target: int,
) -> (Seq<Option<([ConnType; 4], RoomKind)>>, Seq<usize>, Seq<(i32, i32, usize)>, int, u64) {
    let e = q[qi];
    let (ngx, ngz) = nb_spec(e.0 as int, e.1 as int, e.2 as int);
    let nk = slot_of(ngx, ngz);
    let pk = slot_of(e.0 as int, e.1 as int);
    if !in_bounds(ngx, ngz) || g[nk] is Some || g[pk] is None {
        (g, d, q, placed, rng)
    } else {
        let incoming = opp_spec(e.2 as int);
        let conn = port_at(g, pk, e.2 as int);
        let cands = candidates_spec(defs, g, nk, incoming, conn, placed >= target);
        let dr = drawn(defs, cands, rng, incoming, conn);
        let g2 = g.update(nk, Some(dr.0));
        (g2, d.update(nk, (d[pk] + 1) as usize), queue_from(g2, q, nk, ngx as i32, ngz as i32, incoming, 0), placed + 1, dr.1)
    }
}

/// The growth from queue position `qi` on, for at most `fuel` steps.
pub open spec fn grow_iter(
    defs: Seq<MDef>,
    st: (Seq<Option<([ConnType; 4], RoomKind)>>, Seq<usize>, Seq<(i32, i32, usize)>, int, u64),
    qi: int,
    target: int,
    fuel: nat,
) -> (Seq<Option<([ConnType; 4], RoomKind)>>, Seq<usize>, Seq<(i32, i32, usize)>, int, u64)
    decreases fuel,
{
    if fuel == 0 || qi < 0 || qi >= st.2.len() {
        st
    } else {
        grow_iter(defs, grow_step_spec(defs, st.0, st.1, st.2, st.3, st.4, qi, target), qi + 1, target, (fuel - 1) as nat)
    }
}

/// The grid holding only the start module.
pub open spec fn start_grid_spec() -> Seq<Option<([ConnType; 4], RoomKind)>> {
    Seq::new(25, |k: int| if k == start_slot() { Some(([BigArch, Closed, Closed, Closed], RoomKind::Open)) } else { None })
}

/// Steps enough for every growth: each queued opening is tried once, and
/// at most 1 + 3 * 24 openings are ever queued.
pub open spec fn grow_fuel() -> nat {
    100
}

/// The labyrinth grown from `seed` toward `target` modules, with its depths
/// (see `grow`).
pub open spec fn grow_spec(seed: u64, target: usize) -> (Seq<Option<([ConnType; 4], RoomKind)>>, Seq<usize>) {
    let st0 = (start_grid_spec(), Seq::new(25, |k: int| 0usize), seq![(0i32, 0i32, 0usize)], 1int, xorshift(xorshift(seed ^ 0x9e3779b97f4a7c15u64)));
    let st = grow_iter(module_table(), st0, 0, target as int, grow_fuel());
    (st.0, st.1)
}

/// One growth step: take the queued opening `(gx, gz, side)`; when the cell
/// beyond it is inside the grid and empty, place a module there and queue
/// its other openings toward cells still empty.
fn grow_step(
    defs: &Vec<MDef>,
    rng: &mut Rng,
    target: usize,
    grid: &mut Vec<Option<([ConnType; 4], RoomKind)>>,
    depth: &mut Vec<usize>,
    queue: &mut Vec<(i32, i32, usize)>,
    placed: &mut usize,
    qi: usize,
)
    requires
        defs@.len() == 44,
        forall|t: int| 0 <= t < defs@.len() ==> 1 <= #[trigger] defs@[t].weight <= 8,
        is_tree(old(grid)@, old(depth)@),
        *old(placed) == count_placed(old(grid)@),
        1 <= *old(placed) <= 25,
        depths_below(old(grid)@, old(depth)@, *old(placed) as int),
        queue_ok(old(grid)@, old(queue)@),
        qi < old(queue)@.len(),
        bfs_ok(old(grid)@, old(depth)@, old(queue)@, qi as int),
    ensures
        is_tree(final(grid)@, final(depth)@),
        *final(placed) == count_placed(final(grid)@),
        1 <= *final(placed) <= 25,
        depths_below(final(grid)@, final(depth)@, *final(placed) as int),
        queue_ok(final(grid)@, final(queue)@),
        bfs_ok(final(grid)@, final(depth)@, final(queue)@, qi as int + 1),
        final(grid)@[start_slot()] == old(grid)@[start_slot()],
        final(queue)@.len() >= old(queue)@.len(),
        *final(placed) == *old(placed) && final(queue)@.len() == old(queue)@.len()
            || *final(placed) == *old(placed) + 1 && final(queue)@.len() <= old(queue)@.len() + 3,
        ({
            let st = grow_step_spec(defs@, old(grid)@, old(depth)@, old(queue)@, *old(placed) as int, old(rng).0, qi as int, target as int);
            &&& final(grid)@ == st.0
            &&& final(depth)@ == st.1
            &&& final(queue)@ == st.2
            &&& *final(placed) == st.3
            &&& final(rng).0 == st.4
        }),
{
    let (gx, gz, side) = queue[qi];
    proof {
        let e = queue@[qi as int];
        assert(in_bounds(e.0 as int, e.1 as int));
        lemma_slot_roundtrip(gx as int, gz as int);
    }
    let (ngx, ngz) = nb(gx, gz, side);
    if ngx < -2 || ngx > 2 || ngz < -2 || ngz > 2 {
        proof {
            lemma_bfs_skip(grid@, depth@, queue@, qi as int);
        }
        return;
    }
    let nk = slot(ngx, ngz);
    if grid[nk].is_some() {
        proof {
            lemma_slot_roundtrip(ngx as int, ngz as int);
            assert(nb_slot(slot_of(gx as int, gz as int), side as int) == nk as int);
            lemma_bfs_skip(grid@, depth@, queue@, qi as int);
        }
        return;
    }
    let incoming = opp_side(side);
    let pk = slot(gx, gz);
    let parent = match grid[pk] {
        Some(room) => room,
        None => {
            return;
        },
    };
    let incoming_conn = parent.0[side];
    let parent_depth = depth[pk];
    proof {
        lemma_slot_roundtrip(gx as int, gz as int);
        lemma_slot_roundtrip(ngx as int, ngz as int);
        assert(nb_slot(pk as int, side as int) == nk as int);
        assert(nb_in(pk as int, side as int));
        lemma_count_placed_bound(grid@, nk as int);
        assert(grid@[pk as int] is Some);
        assert(depth@[pk as int] < *placed);
    }
    let cands = candidates(defs, grid, ngx, ngz, incoming, incoming_conn, *placed >= target);
    let (chosen_ports, chosen_room) = draw_room(defs, &cands, rng, incoming, incoming_conn);
    proof {
        lemma_tree_place(grid@, depth@, nk as int, (chosen_ports, chosen_room), (parent_depth + 1) as usize, pk as int, side as int);
        lemma_count_placed_set(grid@, nk as int, (chosen_ports, chosen_room));
    }
    let ghost g_before = grid@;
    let ghost d_before = depth@;
    let ghost q_before = queue@;
    grid.set(nk, Some((chosen_ports, chosen_room)));
    depth.set(nk, parent_depth + 1);
    *placed = *placed + 1;
    proof {
        assert forall|t: int| 0 <= t < queue@.len() implies {
            let e = #[trigger] queue@[t];
            &&& in_bounds(e.0 as int, e.1 as int)
            &&& e.2 < 4
            &&& grid@[slot_of(e.0 as int, e.1 as int)] is Some
            &&& port_at(grid@, slot_of(e.0 as int, e.1 as int), e.2 as int) != Closed
        } by {
            let e = queue@[t];
            assert(slot_of(e.0 as int, e.1 as int) != nk as int);
        }
        assert forall|k: int| 0 <= k < 25 && #[trigger] grid@[k] is Some implies depth@[k] < *placed by {
            if k != nk as int {
                assert(g_before[k] is Some);
            }
        }
    }

    proof {
        lemma_nb_slot_back(pk as int, side as int);
    }
    // Queue the new module's other openings toward empty cells.
    proof {
        assert(grid@[nb_slot(nk as int, incoming as int)] is Some) by {
            assert(nb_slot(nk as int, incoming as int) == pk as int);
            assert(grid@[pk as int] == g_before[pk as int]);
        }
    }
    queue_openings(grid, queue, nk, ngx, ngz, incoming);
    proof {
        assert(q_before[qi as int] == (gx, gz, side));
        lemma_bfs_place(g_before, d_before, q_before, qi as int, nk as int, (chosen_ports, chosen_room), queue@);
    }
}

/// Breadth-first growth of the labyrinth from the start module.
///
/// Each queued opening is tried in turn: its neighbour, if inside the grid
/// and still empty, gets a template drawn (by weight) from those that meet
/// the opening and every module already around it; once `target` modules
/// stand, dead-end templates are preferred; with no template left a
/// dead end of the incoming connection is forced. The new module's own
/// openings join the queue.
fn grow(seed: u64, target: usize) -> (res: (Vec<Option<([ConnType; 4], RoomKind)>>, Vec<usize>))
    ensures
        is_tree(res.0@, res.1@),
        depth_steps(res.0@, res.1@),
        depths_below(res.0@, res.1@, 25),
        res.0@[start_slot()] == Some(([BigArch, Closed, Closed, Closed], RoomKind::Open)),
        res.0@ == grow_spec(seed, target).0,
        res.1@ == grow_spec(seed, target).1,
{
    let defs = module_defs();
    let mut rng = Rng::new(seed);
    let (mut grid, mut depth) = start_grid();
    let mut placed: usize = 1;
    let mut queue: Vec<(i32, i32, usize)> = vec![(0, 0, 0)];
    let mut qi: usize = 0;
    proof {
        assert(queue@[0] == (0i32, 0i32, 0usize));
        assert(port_at(grid@, 12, 0) == BigArch);
        lemma_bfs_start(grid@, depth@, queue@);
        assert(queue@ =~= seq![(0i32, 0i32, 0usize)]);
    }
    let ghost st0 = (grid@, depth@, queue@, 1int, rng.0);
    let ghost fin = grow_iter(defs@, st0, 0, target as int, grow_fuel());
    while qi < queue.len()
        invariant
            grow_iter(defs@, (grid@, depth@, queue@, placed as int, rng.0), qi as int, target as int, (grow_fuel() - qi) as nat) == fin,
            fin == grow_iter(module_table(), (start_grid_spec(), Seq::new(25, |k: int| 0usize), seq![(0i32, 0i32, 0usize)], 1int, xorshift(xorshift(seed ^ 0x9e3779b97f4a7c15u64))), 0, target as int, grow_fuel()),
            defs@ == module_table(),
            queue@.len() + 2 <= 3 * placed,
            defs@.len() == 44,
            forall|t: int| 0 <= t < defs@.len() ==> 1 <= #[trigger] defs@[t].weight <= 8,
            is_tree(grid@, depth@),
            grid@[start_slot()] == Some(([BigArch, Closed, Closed, Closed], RoomKind::Open)),
            placed == count_placed(grid@),
            1 <= placed <= 25,
            depths_below(grid@, depth@, placed as int),
            qi <= queue@.len(),
            queue_ok(grid@, queue@),
            bfs_ok(grid@, depth@, queue@, qi as int),
        decreases (25 - placed) * 4 + queue@.len() - qi,
    {
        let ghost pre = (grid@, depth@, queue@, placed as int, rng.0);
        grow_step(&defs, &mut rng, target, &mut grid, &mut depth, &mut queue, &mut placed, qi);
        proof {
            assert((grid@, depth@, queue@, placed as int, rng.0) == grow_step_spec(defs@, pre.0, pre.1, pre.2, pre.3, pre.4, qi as int, target as int));
        }
        qi += 1;
    }
    (grid, depth)
}

// ---------------------------------------------------------------------------
// Closing openings that lead nowhere
// ---------------------------------------------------------------------------

/// Side `s` of placed slot `k` is open, but beyond it is no module, or one
/// with another connection.
pub open spec fn dangling(g: Seq<Option<([ConnType; 4], RoomKind)>>, k: int, s: int) -> bool {
    &&& port_at(g, k, s) != Closed
    &&& !(nb_in(k, s) && g[nb_slot(k, s)] is Some && port_at(g, nb_slot(k, s), opp_spec(s)) == port_at(g, k, s))
}

/// `f` is `o` with every dangling side walled up, all else unchanged.
pub open spec fn walled_up(o: Seq<Option<([ConnType; 4], RoomKind)>>, f: Seq<Option<([ConnType; 4], RoomKind)>>) -> bool {
    &&& o.len() == 25
    &&& f.len() == 25
    &&& forall|k: int| 0 <= k < 25 ==> (#[trigger] f[k] is Some <==> o[k] is Some)
    &&& forall|k: int| 0 <= k < 25 && #[trigger] o[k] is Some ==> kind_at(f, k) == kind_at(o, k)
    &&& forall|k: int, s: int|
        0 <= k < 25 && 0 <= s < 4 && o[k] is Some ==> #[trigger] port_at(f, k, s) == if dangling(o, k, s) {
            Closed
        } else {
            port_at(o, k, s)
        }
}

/// Side `s` of slot `k` holds a module side with an opening.
pub open spec fn side_open(g: Seq<Option<([ConnType; 4], RoomKind)>>, k: int, s: int) -> bool {
    g[k] is Some && port_at(g, k, s) != Closed
}

/// Every open side of every module faces a module with the same connection.
pub open spec fn sides_agree(g: Seq<Option<([ConnType; 4], RoomKind)>>) -> bool {
    forall|k: int, s: int|
        0 <= k < 25 && 0 <= s < 4 && #[trigger] side_open(g, k, s) ==> {
            &&& nb_in(k, s)
            &&& g[nb_slot(k, s)] is Some
            &&& port_at(g, nb_slot(k, s), opp_spec(s)) == port_at(g, k, s)
        }
}

proof fn lemma_nb_slot_back(k: int, s: int)
    requires
        0 <= k < 25,
        0 <= s < 4,
        nb_in(k, s),
    ensures
        0 <= nb_slot(k, s) < 25,
        nb_in(nb_slot(k, s), opp_spec(s)),
        nb_slot(nb_slot(k, s), opp_spec(s)) == k,
        0 <= opp_spec(s) < 4,
        opp_spec(opp_spec(s)) == s,
{
    lemma_slot_coords(k);
    lemma_nb_back(slot_gx(k), slot_gz(k), s);
    let (nx, nz) = nb_spec(slot_gx(k), slot_gz(k), s);
    lemma_slot_roundtrip(nx, nz);
}

/// Walling up dangling sides leaves every open side agreeing with its
/// neighbour.
proof fn lemma_walled_up_agree(o: Seq<Option<([ConnType; 4], RoomKind)>>, f: Seq<Option<([ConnType; 4], RoomKind)>>)
    requires
        walled_up(o, f),
    ensures
        sides_agree(f),
{
    assert forall|k: int, s: int| 0 <= k < 25 && 0 <= s < 4 && #[trigger] side_open(f, k, s) implies {
        &&& nb_in(k, s)
        &&& f[nb_slot(k, s)] is Some
        &&& port_at(f, nb_slot(k, s), opp_spec(s)) == port_at(f, k, s)
    } by {
        assert(o[k] is Some);
        assert(!dangling(o, k, s));
        lemma_nb_slot_back(k, s);
        let j = nb_slot(k, s);
        assert(f[j] is Some);
        assert(!dangling(o, j, opp_spec(s)));
        assert(port_at(f, j, opp_spec(s)) == port_at(o, j, opp_spec(s)));
    }
}

/// Walling up dangling sides keeps every parent link.
proof fn lemma_walled_up_tree(o: Seq<Option<([ConnType; 4], RoomKind)>>, f: Seq<Option<([ConnType; 4], RoomKind)>>, d: Seq<usize>)
    requires
        walled_up(o, f),
        is_tree(o, d),
    ensures
        is_tree(f, d),
{
    assert forall|k: int| 0 <= k < 25 && k != start_slot() && #[trigger] f[k] is Some implies exists|s: int|
        parent_link(f, d, k, s) by {
        assert(o[k] is Some);
        let s = choose|s: int| parent_link(o, d, k, s);
        lemma_nb_slot_back(k, s);
        let j = nb_slot(k, s);
        assert(!dangling(o, k, s));
        assert(!dangling(o, j, opp_spec(s)));
        assert(port_at(f, k, s) == port_at(o, k, s));
        assert(port_at(f, j, opp_spec(s)) == port_at(o, j, opp_spec(s)));
        assert(parent_link(f, d, k, s));
    }
}

/// Side `s` of placed slot `k` dangles.
fn is_dangling(grid: &Vec<Option<([ConnType; 4], RoomKind)>>, k: usize, s: usize) -> (r: bool)
    requires
        grid@.len() == 25,
        k < 25,
        s < 4,
        grid@[k as int] is Some,
    ensures
        r == dangling(grid@, k as int, s as int),
{
    let ports = match grid[k] {
        Some(room) => room.0,
        None => {
            return false;
        },
    };
    if ports[s] == Closed {
        return false;
    }
    proof {
        lemma_slot_coords(k as int);
    }
    let gx = (k % 5) as i32 - 2;
    let gz = (k / 5) as i32 - 2;
    let (nx, nz) = nb(gx, gz, s);
    if nx < -2 || nx > 2 || nz < -2 || nz > 2 {
        return true;
    }
    let j = slot(nx, nz);
    match grid[j] {
        None => true,
        Some(other) => !conn_compat(ports[s], other.0[opp_side(s)]),
    }
}

/// Wall up every open side that leads out of the grid, to an empty cell, or
/// to a module with another connection. All sides are judged on the grid as
/// it was before any is walled up.
fn wall_up_dangling(grid: &Vec<Option<([ConnType; 4], RoomKind)>>) -> (r: Vec<Option<([ConnType; 4], RoomKind)>>)
    requires
        grid@.len() == 25,
    ensures
        walled_up(grid@, r@),
{
    let mut out: Vec<Option<([ConnType; 4], RoomKind)>> = Vec::new();
    let mut k: usize = 0;
    while k < 25
        invariant
            k <= 25,
            grid@.len() == 25,
            out@.len() == k,
            forall|i: int| 0 <= i < k ==> (#[trigger] out@[i] is Some <==> grid@[i] is Some),
            forall|i: int| 0 <= i < k && #[trigger] grid@[i] is Some ==> kind_at(out@, i) == kind_at(grid@, i),
            forall|i: int, s: int|
                0 <= i < k && 0 <= s < 4 && grid@[i] is Some ==> #[trigger] port_at(out@, i, s) == if dangling(grid@, i, s) {
                    Closed
                } else {
                    port_at(grid@, i, s)
                },
        decreases 25 - k,
    {
        match grid[k] {
            None => {
                let ghost o0 = out@;
                out.push(None);
                proof {
                    assert forall|i: int, t: int|
                        0 <= i < k + 1 && 0 <= t < 4 && grid@[i] is Some implies #[trigger] port_at(out@, i, t) == if dangling(grid@, i, t) {
                            Closed
                        } else {
                            port_at(grid@, i, t)
                        } by {
                        assert(i < k);
                        assert(out@[i] == o0[i]);
                        assert(port_at(out@, i, t) == port_at(o0, i, t));
                    }
                }
            },
            Some(room) => {
                let mut p = room.0;
                let mut s: usize = 0;
                while s < 4
                    invariant
                        s <= 4,
                        k < 25,
                        grid@.len() == 25,
                        grid@[k as int] == Some(room),
                        forall|t: int| 0 <= t < 4 ==> #[trigger] p@[t] == if t < s && dangling(grid@, k as int, t) {
                            Closed
                        } else {
                            room.0@[t]
                        },
                    decreases 4 - s,
                {
                    if is_dangling(grid, k, s) {
                        p.set(s, Closed);
                    }
                    s += 1;
                }
                let ghost o0 = out@;
                out.push(Some((p, room.1)));
                proof {
                    assert forall|i: int, t: int|
                        0 <= i < k + 1 && 0 <= t < 4 && grid@[i] is Some implies #[trigger] port_at(out@, i, t) == if dangling(grid@, i, t) {
                            Closed
                        } else {
                            port_at(grid@, i, t)
                        } by {
                        if i < k {
                            assert(out@[i] == o0[i]);
                            assert(port_at(out@, i, t) == port_at(o0, i, t));
                        } else {
                            assert(out@[i] == Some((p, room.1)));
                            assert(port_at(out@, i, t) == p@[t]);
                            assert(port_at(grid@, i, t) == room.0@[t]);
                        }
                    }
                }
            },
        }
        k += 1;
    }
    out
}

// ---------------------------------------------------------------------------
// One channel style per sewer network
// ---------------------------------------------------------------------------

pub open spec fn sewer_kind(k: RoomKind) -> bool {
    k == RoomKind::SewerTunnel || k == RoomKind::SewerDouble || k == RoomKind::SewerCross
}

/// Slot `k` and the slot across its side `s` are sewer modules joined by a
/// sewer opening on that side.
pub open spec fn sewer_joined(g: Seq<Option<([ConnType; 4], RoomKind)>>, k: int, s: int) -> bool {
    &&& 0 <= k < 25
    &&& 0 <= s < 4
    &&& g[k] is Some
    &&& port_at(g, k, s) == Sewer
    &&& nb_in(k, s)
    &&& g[nb_slot(k, s)] is Some
    &&& sewer_kind(kind_at(g, k))
    &&& sewer_kind(kind_at(g, nb_slot(k, s)))
}

/// Two joined sewer modules show the same channel style; a junction (which
/// has a centre channel) meets only centre-channel tunnels.
pub open spec fn kinds_match(a: RoomKind, b: RoomKind) -> bool {
    &&& (a != RoomKind::SewerCross && b != RoomKind::SewerCross ==> a == b)
    &&& (a == RoomKind::SewerCross && b != RoomKind::SewerCross ==> b == RoomKind::SewerTunnel)
    &&& (b == RoomKind::SewerCross && a != RoomKind::SewerCross ==> a == RoomKind::SewerTunnel)
}

pub open spec fn sewers_uniform(g: Seq<Option<([ConnType; 4], RoomKind)>>) -> bool {
    forall|k: int, s: int| #[trigger] sewer_joined(g, k, s) ==> kinds_match(kind_at(g, k), kind_at(g, nb_slot(k, s)))
}

/// `f` differs from `o` at most in the channel style of sewer tunnels.
pub open spec fn restyled(o: Seq<Option<([ConnType; 4], RoomKind)>>, f: Seq<Option<([ConnType; 4], RoomKind)>>) -> bool {
    &&& o.len() == 25
    &&& f.len() == 25
    &&& forall|k: int| 0 <= k < 25 ==> (#[trigger] f[k] is Some <==> o[k] is Some)
    &&& forall|k: int, s: int| 0 <= k < 25 && 0 <= s < 4 ==> #[trigger] port_at(f, k, s) == port_at(o, k, s)
    &&& forall|k: int|
        0 <= k < 25 && #[trigger] o[k] is Some ==> {
            &&& (sewer_kind(kind_at(f, k)) <==> sewer_kind(kind_at(o, k)))
            &&& (kind_at(f, k) == RoomKind::SewerCross <==> kind_at(o, k) == RoomKind::SewerCross)
            &&& (!sewer_kind(kind_at(o, k)) ==> kind_at(f, k) == kind_at(o, k))
        }
}

proof fn lemma_restyled_trans(a: Seq<Option<([ConnType; 4], RoomKind)>>, b: Seq<Option<([ConnType; 4], RoomKind)>>, c: Seq<Option<([ConnType; 4], RoomKind)>>)
    requires
        restyled(a, b),
        restyled(b, c),
    ensures
        restyled(a, c),
{
    assert forall|k: int| 0 <= k < 25 && #[trigger] a[k] is Some implies {
        &&& (sewer_kind(kind_at(c, k)) <==> sewer_kind(kind_at(a, k)))
        &&& (kind_at(c, k) == RoomKind::SewerCross <==> kind_at(a, k) == RoomKind::SewerCross)
        &&& (!sewer_kind(kind_at(a, k)) ==> kind_at(c, k) == kind_at(a, k))
    } by {
        assert(b[k] is Some);
    }
}

proof fn lemma_restyled_joined(o: Seq<Option<([ConnType; 4], RoomKind)>>, f: Seq<Option<([ConnType; 4], RoomKind)>>, k: int, s: int)
    requires
        restyled(o, f),
        0 <= k < 25,
        0 <= s < 4,
    ensures
        sewer_joined(f, k, s) == sewer_joined(o, k, s),
{
    if nb_in(k, s) {
        lemma_nb_slot_back(k, s);
        let j = nb_slot(k, s);
        if o[j] is Some {
            assert(f[j] is Some);
        }
    }
    if o[k] is Some {
        assert(f[k] is Some);
        assert(port_at(f, k, s) == port_at(o, k, s));
    }
}

/// Sewer joins run both ways once every open side agrees with its neighbour.
proof fn lemma_joined_back(g: Seq<Option<([ConnType; 4], RoomKind)>>, k: int, s: int)
    requires
        g.len() == 25,
        sides_agree(g),
        sewer_joined(g, k, s),
    ensures
        sewer_joined(g, nb_slot(k, s), opp_spec(s)),
        nb_slot(nb_slot(k, s), opp_spec(s)) == k,
{
    lemma_nb_slot_back(k, s);
    assert(side_open(g, k, s));
}

/// Closure facts while sewer networks are restyled one at a time: every
/// visited slot is a sewer module, and its joined neighbours are visited
/// and match its style.
pub open spec fn visited_ok(g: Seq<Option<([ConnType; 4], RoomKind)>>, v: Seq<bool>) -> bool {
    &&& v.len() == 25
    &&& forall|k: int| 0 <= k < 25 && #[trigger] v[k] ==> g[k] is Some && sewer_kind(kind_at(g, k))
    &&& forall|k: int, s: int|
        v[k] && #[trigger] sewer_joined(g, k, s) ==> v[nb_slot(k, s)] && kinds_match(kind_at(g, k), kind_at(g, nb_slot(k, s)))
}

/// Member `i` of `comp` sits across a sewer join from an earlier member.
pub open spec fn joined_from_earlier(g: Seq<Option<([ConnType; 4], RoomKind)>>, comp: Seq<usize>, i: int) -> bool {
    exists|p: int, s: int|
        0 <= p < i && 0 <= s < 4 && #[trigger] sewer_joined(g, comp[p] as int, s) && nb_slot(comp[p] as int, s) == comp[i] as int
}

/// `comp` lists one whole sewer network of `g` without repeats: sewer
/// modules, each after the first joined to an earlier one, and every join
/// from a member leading to a member.
pub open spec fn sewer_network(g: Seq<Option<([ConnType; 4], RoomKind)>>, comp: Seq<usize>) -> bool {
    &&& comp.len() >= 1
    &&& comp.no_duplicates()
    &&& forall|i: int|
        0 <= i < comp.len() ==> #[trigger] comp[i] < 25 && g[comp[i] as int] is Some && sewer_kind(kind_at(g, comp[i] as int))
    &&& forall|i: int| 1 <= i < comp.len() ==> #[trigger] joined_from_earlier(g, comp, i)
    &&& forall|i: int, s: int|
        0 <= i < comp.len() && #[trigger] sewer_joined(g, comp[i] as int, s) ==> comp.contains(nb_slot(comp[i] as int, s) as usize)
}

/// Collect the sewer network around `start` (breadth first along sewer
/// openings between sewer modules), marking it visited.
fn sewer_component(grid: &Vec<Option<([ConnType; 4], RoomKind)>>, visited: &mut Vec<bool>, start: usize) -> (comp: Vec<usize>)
    requires
        grid@.len() == 25,
        old(visited)@.len() == 25,
        start < 25,
        !old(visited)@[start as int],
        grid@[start as int] is Some,
        sewer_kind(kind_at(grid@, start as int)),
    ensures
        final(visited)@.len() == 25,
        comp@.len() >= 1,
        comp@[0] == start,
        forall|i: int| 0 <= i < comp@.len() ==> #[trigger] comp@[i] < 25 && !old(visited)@[comp@[i] as int]
            && grid@[comp@[i] as int] is Some && sewer_kind(kind_at(grid@, comp@[i] as int)),
        forall|x: int| 0 <= x < 25 ==> (#[trigger] final(visited)@[x] <==> old(visited)@[x] || comp@.contains(x as usize)),
        forall|i: int, s: int| 0 <= i < comp@.len() && #[trigger] sewer_joined(grid@, comp@[i] as int, s) ==> final(visited)@[nb_slot(comp@[i] as int, s)],
        comp@.no_duplicates(),
        forall|i: int| 1 <= i < comp@.len() ==> #[trigger] joined_from_earlier(grid@, comp@, i),
{
    let ghost v0 = visited@;
    let mut sq: Vec<usize> = vec![start];
    proof {
        lemma_count_true_set(visited@, start as int);
    }
    visited.set(start, true);
    let mut sqi: usize = 0;
    proof {
        assert forall|x: int| 0 <= x < 25 implies (#[trigger] visited@[x] <==> v0[x] || sq@.contains(x as usize)) by {
            if x == start as int {
                assert(sq@[0] == start);
            } else if sq@.contains(x as usize) {
                let i = choose|i: int| 0 <= i < sq@.len() && sq@[i] == x as usize;
                assert(sq@[i] == start);
            }
        }
    }
    while sqi < sq.len()
        invariant
            grid@.len() == 25,
            visited@.len() == 25,
            sqi <= sq@.len(),
            sq@.len() >= 1,
            sq@[0] == start,
            count_true(visited@) <= 25,
            forall|i: int| 0 <= i < sq@.len() ==> #[trigger] sq@[i] < 25 && !v0[sq@[i] as int] && grid@[sq@[i] as int] is Some
                && sewer_kind(kind_at(grid@, sq@[i] as int)),
            forall|x: int| 0 <= x < 25 ==> (#[trigger] visited@[x] <==> v0[x] || sq@.contains(x as usize)),
            forall|i: int, s: int| 0 <= i < sqi && #[trigger] sewer_joined(grid@, sq@[i] as int, s) ==> visited@[nb_slot(sq@[i] as int, s)],
            sq@.no_duplicates(),
            forall|i: int| 1 <= i < sq@.len() ==> #[trigger] joined_from_earlier(grid@, sq@, i),
        decreases 25 - count_true(visited@) + sq@.len() - sqi,
    {
        let pos = sq[sqi];
        proof {
            lemma_slot_coords(pos as int);
        }
        let gx = (pos % 5) as i32 - 2;
        let gz = (pos / 5) as i32 - 2;
        let ports = match grid[pos] {
            Some(room) => room.0,
            None => [Closed, Closed, Closed, Closed],
        };
        let ghost w_measure = 25 - count_true(visited@) + sq@.len();
        let mut s: usize = 0;
        while s < 4
            invariant
                grid@.len() == 25,
                visited@.len() == 25,
                s <= 4,
                sqi < sq@.len(),
                sq@.len() >= 1,
                sq@[0] == start,
                pos == sq@[sqi as int],
                pos < 25,
                gx == slot_gx(pos as int),
                gz == slot_gz(pos as int),
                grid@[pos as int] is Some,
                forall|t: int| 0 <= t < 4 ==> #[trigger] ports@[t] == port_at(grid@, pos as int, t),
                forall|i: int| 0 <= i < sq@.len() ==> #[trigger] sq@[i] < 25 && !v0[sq@[i] as int] && grid@[sq@[i] as int] is Some
                    && sewer_kind(kind_at(grid@, sq@[i] as int)),
                forall|x: int| 0 <= x < 25 ==> (#[trigger] visited@[x] <==> v0[x] || sq@.contains(x as usize)),
                forall|i: int, t: int| 0 <= i < sqi && #[trigger] sewer_joined(grid@, sq@[i] as int, t) ==> visited@[nb_slot(sq@[i] as int, t)],
                forall|t: int| 0 <= t < s && #[trigger] sewer_joined(grid@, pos as int, t) ==> visited@[nb_slot(pos as int, t)],
                count_true(visited@) <= 25,
                25 - count_true(visited@) + sq@.len() == w_measure,
                sq@.no_duplicates(),
                forall|i: int| 1 <= i < sq@.len() ==> #[trigger] joined_from_earlier(grid@, sq@, i),
            decreases 4 - s,
        {
            if ports[s] == Sewer {
                let (nx, nz) = nb(gx, gz, s);
                if -2 <= nx && nx <= 2 && -2 <= nz && nz <= 2 {
                    let j = slot(nx, nz);
                    proof {
                        assert(nb_slot(pos as int, s as int) == j as int);
                    }
                    if !visited[j] {
                        let sewer_room = match grid[j] {
                            Some(room) => room.1 == RoomKind::SewerTunnel || room.1 == RoomKind::SewerDouble || room.1 == RoomKind::SewerCross,
                            None => false,
                        };
                        if sewer_room {
                            let ghost q0 = sq@;
                            let ghost w0 = visited@;
                            proof {
                                lemma_count_true_set(visited@, j as int);
                            }
                            visited.set(j, true);
                            sq.push(j);
                            proof {
                                assert forall|x: int| 0 <= x < 25 implies (#[trigger] visited@[x] <==> v0[x] || sq@.contains(x as usize)) by {
                                    if sq@.contains(x as usize) && x != j as int {
                                        let i = choose|i: int| 0 <= i < sq@.len() && sq@[i] == x as usize;
                                        assert(q0[i] == x as usize);
                                    }
                                    if q0.contains(x as usize) {
                                        let i = choose|i: int| 0 <= i < q0.len() && q0[i] == x as usize;
                                        assert(sq@[i] == x as usize);
                                    }
                                    if x == j as int {
                                        assert(sq@[q0.len() as int] == j);
                                    }
                                }
                                assert forall|i: int| 0 <= i < sq@.len() implies #[trigger] sq@[i] < 25 && !v0[sq@[i] as int]
                                    && grid@[sq@[i] as int] is Some && sewer_kind(kind_at(grid@, sq@[i] as int)) by {
                                    if i < q0.len() {
                                        assert(sq@[i] == q0[i]);
                                    }
                                }
                                assert(!q0.contains(j));
                                assert forall|a: int, b: int| 0 <= a < sq@.len() && 0 <= b < sq@.len() && a != b implies sq@[a] != sq@[b] by {
                                    if b == q0.len() {
                                        assert(q0[a] == sq@[a]);
                                    } else if a == q0.len() {
                                        assert(q0[b] == sq@[b]);
                                    } else {
                                        assert(q0[a] == sq@[a] && q0[b] == sq@[b]);
                                    }
                                }
                                assert(sewer_joined(grid@, sq@[sqi as int] as int, s as int));
                                assert forall|i: int| 1 <= i < sq@.len() implies #[trigger] joined_from_earlier(grid@, sq@, i) by {
                                    if i < q0.len() {
                                        assert(joined_from_earlier(grid@, q0, i));
                                        let (p, t) = choose|p: int, t: int|
                                            0 <= p < i && 0 <= t < 4 && #[trigger] sewer_joined(grid@, q0[p] as int, t) && nb_slot(q0[p] as int, t) == q0[i] as int;
                                        assert(sq@[p] == q0[p] && sq@[i] == q0[i]);
                                    } else {
                                        assert(sq@[i] == j);
                                    }
                                }
                            }
                        }
                    }
                }
            }
            s += 1;
        }
        sqi += 1;
    }
    sq
}

/// Number of double-channel tunnels among the listed slots.
pub open spec fn count_double(g: Seq<Option<([ConnType; 4], RoomKind)>>, comp: Seq<usize>) -> nat
    decreases comp.len(),
{
    if comp.len() == 0 {
        0
    } else {
        count_double(g, comp.drop_last()) + if kind_at(g, comp.last() as int) == RoomKind::SewerDouble {
            1nat
        } else {
            0nat
        }
    }
}

/// The style a sewer network takes: double channels only when it has no
/// junction and most of its tunnels are double already.
pub open spec fn network_style(g: Seq<Option<([ConnType; 4], RoomKind)>>, comp: Seq<usize>) -> RoomKind {
    if !(exists|i: int| 0 <= i < comp.len() && kind_at(g, #[trigger] comp[i] as int) == RoomKind::SewerCross)
        && count_double(g, comp) * 2 > comp.len() {
        RoomKind::SewerDouble
    } else {
        RoomKind::SewerTunnel
    }
}

proof fn lemma_count_double_same(a: Seq<Option<([ConnType; 4], RoomKind)>>, b: Seq<Option<([ConnType; 4], RoomKind)>>, comp: Seq<usize>)
    requires
        forall|i: int| 0 <= i < comp.len() ==> kind_at(a, #[trigger] comp[i] as int) == kind_at(b, comp[i] as int),
    ensures
        count_double(a, comp) == count_double(b, comp),
    decreases comp.len(),
{
    if comp.len() > 0 {
        let d = comp.drop_last();
        assert forall|i: int| 0 <= i < d.len() implies kind_at(a, #[trigger] d[i] as int) == kind_at(b, d[i] as int) by {
            assert(d[i] == comp[i]);
        }
        lemma_count_double_same(a, b, d);
        assert(kind_at(a, comp[comp.len() - 1] as int) == kind_at(b, comp[comp.len() - 1] as int));
    }
}

/// A network's style depends only on the kinds of its own modules.
proof fn lemma_style_same(a: Seq<Option<([ConnType; 4], RoomKind)>>, b: Seq<Option<([ConnType; 4], RoomKind)>>, comp: Seq<usize>)
    requires
        forall|i: int| 0 <= i < comp.len() ==> kind_at(a, #[trigger] comp[i] as int) == kind_at(b, comp[i] as int),
    ensures
        network_style(a, comp) == network_style(b, comp),
{
    lemma_count_double_same(a, b, comp);
    if exists|i: int| 0 <= i < comp.len() && kind_at(a, #[trigger] comp[i] as int) == RoomKind::SewerCross {
        let i = choose|i: int| 0 <= i < comp.len() && kind_at(a, #[trigger] comp[i] as int) == RoomKind::SewerCross;
        assert(kind_at(b, comp[i] as int) == RoomKind::SewerCross);
    }
    if exists|i: int| 0 <= i < comp.len() && kind_at(b, #[trigger] comp[i] as int) == RoomKind::SewerCross {
        let i = choose|i: int| 0 <= i < comp.len() && kind_at(b, #[trigger] comp[i] as int) == RoomKind::SewerCross;
        assert(kind_at(a, comp[i] as int) == RoomKind::SewerCross);
    }
}

/// The networks `nets` of `o` each show one style in `f`: every tunnel
/// of a network (junctions aside) takes `network_style` of that network as
/// it was in `o`.
pub open spec fn nets_styled(o: Seq<Option<([ConnType; 4], RoomKind)>>, f: Seq<Option<([ConnType; 4], RoomKind)>>, nets: Seq<Seq<usize>>) -> bool {
    &&& forall|n: int| 0 <= n < nets.len() ==> sewer_network(o, #[trigger] nets[n])
    &&& forall|n: int, i: int|
        0 <= n < nets.len() && 0 <= i < nets[n].len() && kind_at(o, nets[n][i] as int) != RoomKind::SewerCross ==> kind_at(
            f,
            #[trigger] nets[n][i] as int,
        ) == network_style(o, nets[n])
}

/// Every sewer network of `o` takes one channel style in `f`: double
/// channels only where the network has no junction and more than half of
/// its modules were double already, else single tunnels (see
/// `network_style`).
pub open spec fn styled_by_network(o: Seq<Option<([ConnType; 4], RoomKind)>>, f: Seq<Option<([ConnType; 4], RoomKind)>>) -> bool {
    exists|nets: Seq<Seq<usize>>| {
        &&& #[trigger] nets_styled(o, f, nets)
        &&& forall|k: int|
            0 <= k < 25 && #[trigger] o[k] is Some && sewer_kind(kind_at(o, k)) ==> exists|n: int, i: int|
                0 <= n < nets.len() && 0 <= i < nets[n].len() && #[trigger] nets[n][i] == k as usize
    }
}

/// Give every tunnel of the network `comp` the network's style; junctions
/// keep theirs.
fn restyle_network(grid: &mut Vec<Option<([ConnType; 4], RoomKind)>>, comp: &Vec<usize>) -> (style: RoomKind)
    requires
        old(grid)@.len() == 25,
        forall|i: int| 0 <= i < comp@.len() ==> #[trigger] comp@[i] < 25 && old(grid)@[comp@[i] as int] is Some
            && sewer_kind(kind_at(old(grid)@, comp@[i] as int)),
    ensures
        style == network_style(old(grid)@, comp@),
        restyled(old(grid)@, final(grid)@),
        forall|x: int|
            0 <= x < 25 ==> #[trigger] final(grid)@[x] == if comp@.contains(x as usize) && kind_at(old(grid)@, x) != RoomKind::SewerCross {
                Some((ports_of(old(grid)@, x), style))
            } else {
                old(grid)@[x]
            },
{
    let ghost g0 = grid@;
    let mut has_cross = false;
    let mut n_double: usize = 0;
    let mut i: usize = 0;
    while i < comp.len()
        invariant
            i <= comp@.len(),
            grid@ == g0,
            g0.len() == 25,
            forall|j: int| 0 <= j < comp@.len() ==> #[trigger] comp@[j] < 25 && g0[comp@[j] as int] is Some,
            n_double == count_double(g0, comp@.subrange(0, i as int)),
            n_double <= i,
            has_cross == exists|j: int| 0 <= j < i && kind_at(g0, #[trigger] comp@[j] as int) == RoomKind::SewerCross,
        decreases comp@.len() - i,
    {
        let kind = match grid[comp[i]] {
            Some(room) => room.1,
            None => RoomKind::Open,
        };
        proof {
            assert(comp@.subrange(0, i as int + 1).drop_last() =~= comp@.subrange(0, i as int));
            assert(kind == kind_at(g0, comp@[i as int] as int));
        }
        if kind == RoomKind::SewerCross {
            has_cross = true;
        } else if kind == RoomKind::SewerDouble {
            n_double += 1;
        }
        i += 1;
    }
    proof {
        assert(comp@.subrange(0, comp@.len() as int) =~= comp@);
    }
    let style = if !has_cross && n_double > comp.len() - n_double {
        RoomKind::SewerDouble
    } else {
        RoomKind::SewerTunnel
    };
    let mut i: usize = 0;
    while i < comp.len()
        invariant
            i <= comp@.len(),
            grid@.len() == 25,
            g0.len() == 25,
            forall|j: int| 0 <= j < comp@.len() ==> #[trigger] comp@[j] < 25 && g0[comp@[j] as int] is Some,
            forall|x: int|
                0 <= x < 25 ==> #[trigger] grid@[x] == if comp@.subrange(0, i as int).contains(x as usize) && kind_at(g0, x)
                    != RoomKind::SewerCross {
                    Some((ports_of(g0, x), style))
                } else {
                    g0[x]
                },
        decreases comp@.len() - i,
    {
        let pos = comp[i];
        let ghost gi = grid@;
        match grid[pos] {
            Some(room) => {
                if room.1 != RoomKind::SewerCross {
                    grid.set(pos, Some((room.0, style)));
                }
            },
            None => {},
        }
        proof {
            assert forall|x: int| 0 <= x < 25 implies #[trigger] grid@[x] == if comp@.subrange(0, i as int + 1).contains(
                x as usize,
            ) && kind_at(g0, x) != RoomKind::SewerCross {
                Some((ports_of(g0, x), style))
            } else {
                g0[x]
            } by {
                let pre = comp@.subrange(0, i as int);
                let post = comp@.subrange(0, i as int + 1);
                assert(post =~= pre.push(pos));
                if x == pos as int {
                    assert(post[i as int] == pos);
                    assert(post.contains(pos));
                } else {
                    assert(grid@[x] == gi[x]);
                    if post.contains(x as usize) {
                        let j = choose|j: int| 0 <= j < post.len() && post[j] == x as usize;
                        assert(pre[j] == x as usize);
                    }
                    if pre.contains(x as usize) {
                        let j = choose|j: int| 0 <= j < pre.len() && pre[j] == x as usize;
                        assert(post[j] == x as usize);
                    }
                }
            }
        }
        i += 1;
    }
    proof {
        assert(comp@.subrange(0, comp@.len() as int) =~= comp@);
        assert forall|k: int, s: int| 0 <= k < 25 && 0 <= s < 4 implies #[trigger] port_at(grid@, k, s) == port_at(g0, k, s) by {
        }
        assert forall|k: int| 0 <= k < 25 && #[trigger] g0[k] is Some implies {
            &&& (sewer_kind(kind_at(grid@, k)) <==> sewer_kind(kind_at(g0, k)))
            &&& (kind_at(grid@, k) == RoomKind::SewerCross <==> kind_at(g0, k) == RoomKind::SewerCross)
            &&& (!sewer_kind(kind_at(g0, k)) ==> kind_at(grid@, k) == kind_at(g0, k))
        } by {
            if comp@.contains(k as usize) {
                let j = choose|j: int| 0 <= j < comp@.len() && comp@[j] == k as usize;
                assert(sewer_kind(kind_at(g0, comp@[j] as int)));
            }
        }
    }
    style
}

/// A network's members see only each other across sewer joins.
#[verifier::spinoff_prover]
proof fn lemma_network_closed(g: Seq<Option<([ConnType; 4], RoomKind)>>, v0: Seq<bool>, v1: Seq<bool>, comp: Seq<usize>, i: int, s: int)
    requires
        g.len() == 25,
        sides_agree(g),
        visited_ok(g, v0),
        v1.len() == 25,
        forall|j: int| 0 <= j < comp.len() ==> #[trigger] comp[j] < 25 && !v0[comp[j] as int],
        forall|x: int| 0 <= x < 25 ==> (#[trigger] v1[x] <==> v0[x] || comp.contains(x as usize)),
        forall|j: int, t: int| 0 <= j < comp.len() && #[trigger] sewer_joined(g, comp[j] as int, t) ==> v1[nb_slot(comp[j] as int, t)],
        0 <= i < comp.len(),
        sewer_joined(g, comp[i] as int, s),
    ensures
        comp.contains(nb_slot(comp[i] as int, s) as usize),
{
    let k = comp[i] as int;
    let n = nb_slot(k, s);
    lemma_nb_slot_back(k, s);
    assert(v1[n]);
    if v0[n] {
        lemma_joined_back(g, k, s);
        assert(sewer_joined(g, n, opp_spec(s)));
        assert(v0[nb_slot(n, opp_spec(s))]);
        assert(false);
    }
}

/// Restyling a freshly collected network keeps the visited slots closed
/// under sewer joins and style-matched.
proof fn lemma_network_restyled(
    g1: Seq<Option<([ConnType; 4], RoomKind)>>,
    g2: Seq<Option<([ConnType; 4], RoomKind)>>,
    v0: Seq<bool>,
    v1: Seq<bool>,
    comp: Seq<usize>,
    style: RoomKind,
)
    requires
        g1.len() == 25,
        sides_agree(g1),
        visited_ok(g1, v0),
        v1.len() == 25,
        forall|i: int| 0 <= i < comp.len() ==> #[trigger] comp[i] < 25 && !v0[comp[i] as int] && g1[comp[i] as int] is Some
            && sewer_kind(kind_at(g1, comp[i] as int)),
        forall|x: int| 0 <= x < 25 ==> (#[trigger] v1[x] <==> v0[x] || comp.contains(x as usize)),
        forall|i: int, s: int| 0 <= i < comp.len() && #[trigger] sewer_joined(g1, comp[i] as int, s) ==> v1[nb_slot(comp[i] as int, s)],
        style == network_style(g1, comp),
        restyled(g1, g2),
        forall|x: int|
            0 <= x < 25 ==> #[trigger] g2[x] == if comp.contains(x as usize) && kind_at(g1, x) != RoomKind::SewerCross {
                Some((ports_of(g1, x), style))
            } else {
                g1[x]
            },
    ensures
        visited_ok(g2, v1),
{
    assert forall|k: int| 0 <= k < 25 && #[trigger] v1[k] implies g2[k] is Some && sewer_kind(kind_at(g2, k)) by {
        if !v0[k] {
            let j = choose|j: int| 0 <= j < comp.len() && comp[j] == k as usize;
            assert(g1[comp[j] as int] is Some);
        } else {
            assert(g1[k] is Some);
        }
    }
    assert forall|k: int, s: int| v1[k] && #[trigger] sewer_joined(g2, k, s) implies v1[nb_slot(k, s)] && kinds_match(
        kind_at(g2, k),
        kind_at(g2, nb_slot(k, s)),
    ) by {
        lemma_restyled_joined(g1, g2, k, s);
        lemma_nb_slot_back(k, s);
        let n = nb_slot(k, s);
        if v0[k] {
            assert(v0[n]);
            assert(!comp.contains(k as usize)) by {
                if comp.contains(k as usize) {
                    let j = choose|j: int| 0 <= j < comp.len() && comp[j] == k as usize;
                }
            }
            assert(!comp.contains(n as usize)) by {
                if comp.contains(n as usize) {
                    let j = choose|j: int| 0 <= j < comp.len() && comp[j] == n as usize;
                }
            }
            assert(g2[k] == g1[k]);
            assert(g2[n] == g1[n]);
        } else {
            let i = choose|i: int| 0 <= i < comp.len() && comp[i] == k as usize;
            lemma_network_closed(g1, v0, v1, comp, i, s);
            let j = choose|j: int| 0 <= j < comp.len() && comp[j] == n as usize;
            assert(g2[k] == if kind_at(g1, k) != RoomKind::SewerCross { Some((ports_of(g1, k), style)) } else { g1[k] });
            assert(g2[n] == if kind_at(g1, n) != RoomKind::SewerCross { Some((ports_of(g1, n), style)) } else { g1[n] });
            if kind_at(g1, k) == RoomKind::SewerCross || kind_at(g1, n) == RoomKind::SewerCross {
                assert(style == RoomKind::SewerTunnel) by {
                    if kind_at(g1, k) == RoomKind::SewerCross {
                        assert(kind_at(g1, comp[i] as int) == RoomKind::SewerCross);
                    } else {
                        assert(kind_at(g1, comp[j] as int) == RoomKind::SewerCross);
                    }
                }
            }
        }
    }
}

/// A freshly collected and restyled network joins the record: it is a
/// whole network of the original grid, styled by its original kinds, and
/// the networks recorded before keep their styles.
#[verifier::spinoff_prover]
proof fn lemma_network_recorded(
    g0: Seq<Option<([ConnType; 4], RoomKind)>>,
    g1: Seq<Option<([ConnType; 4], RoomKind)>>,
    g2: Seq<Option<([ConnType; 4], RoomKind)>>,
    v0: Seq<bool>,
    v1: Seq<bool>,
    comp: Seq<usize>,
    style: RoomKind,
    nets: Seq<Seq<usize>>,
)
    requires
        g0.len() == 25,
        sides_agree(g0),
        restyled(g0, g1),
        visited_ok(g1, v0),
        v1.len() == 25,
        forall|x: int| 0 <= x < 25 && !#[trigger] v0[x] ==> g1[x] == g0[x],
        nets_styled(g0, g1, nets),
        forall|n: int, i: int| 0 <= n < nets.len() && 0 <= i < nets[n].len() ==> v0[#[trigger] nets[n][i] as int],
        forall|k: int|
            0 <= k < 25 && #[trigger] v0[k] ==> exists|n: int, i: int|
                0 <= n < nets.len() && 0 <= i < nets[n].len() && #[trigger] nets[n][i] == k as usize,
        comp.len() >= 1,
        comp.no_duplicates(),
        forall|i: int| 0 <= i < comp.len() ==> #[trigger] comp[i] < 25 && !v0[comp[i] as int] && g1[comp[i] as int] is Some
            && sewer_kind(kind_at(g1, comp[i] as int)),
        forall|x: int| 0 <= x < 25 ==> (#[trigger] v1[x] <==> v0[x] || comp.contains(x as usize)),
        forall|i: int, s: int| 0 <= i < comp.len() && #[trigger] sewer_joined(g1, comp[i] as int, s) ==> v1[nb_slot(comp[i] as int, s)],
        forall|i: int| 1 <= i < comp.len() ==> #[trigger] joined_from_earlier(g1, comp, i),
        style == network_style(g1, comp),
        forall|x: int|
            0 <= x < 25 ==> #[trigger] g2[x] == if comp.contains(x as usize) && kind_at(g1, x) != RoomKind::SewerCross {
                Some((ports_of(g1, x), style))
            } else {
                g1[x]
            },
    ensures
        forall|x: int| 0 <= x < 25 && !#[trigger] v1[x] ==> g2[x] == g0[x],
        nets_styled(g0, g2, nets.push(comp)),
        forall|n: int, i: int| 0 <= n < nets.push(comp).len() && 0 <= i < nets.push(comp)[n].len() ==> v1[#[trigger] nets.push(comp)[n][i] as int],
        forall|k: int|
            0 <= k < 25 && #[trigger] v1[k] ==> exists|n: int, i: int|
                0 <= n < nets.push(comp).len() && 0 <= i < nets.push(comp)[n].len() && #[trigger] nets.push(comp)[n][i] == k as usize,
{
    let all = nets.push(comp);
    lemma_restyled_agree(g0, g1);
    assert forall|i: int| 0 <= i < comp.len() implies kind_at(g1, #[trigger] comp[i] as int) == kind_at(g0, comp[i] as int) by {
        assert(!v0[comp[i] as int]);
    }
    lemma_style_same(g1, g0, comp);
    // the new network is a whole network of the original grid
    assert forall|i: int| 0 <= i < comp.len() implies #[trigger] comp[i] < 25 && g0[comp[i] as int] is Some && sewer_kind(
        kind_at(g0, comp[i] as int),
    ) by {
        assert(!v0[comp[i] as int]);
    }
    assert forall|i: int| 1 <= i < comp.len() implies #[trigger] joined_from_earlier(g0, comp, i) by {
        assert(joined_from_earlier(g1, comp, i));
        let (p, t) = choose|p: int, t: int|
            0 <= p < i && 0 <= t < 4 && #[trigger] sewer_joined(g1, comp[p] as int, t) && nb_slot(comp[p] as int, t) == comp[i] as int;
        lemma_restyled_joined(g0, g1, comp[p] as int, t);
    }
    assert forall|i: int, s: int| 0 <= i < comp.len() && #[trigger] sewer_joined(g0, comp[i] as int, s) implies comp.contains(
        nb_slot(comp[i] as int, s) as usize,
    ) by {
        lemma_restyled_joined(g0, g1, comp[i] as int, s);
        lemma_network_closed(g1, v0, v1, comp, i, s);
    }
    assert(sewer_network(g0, comp));
    // members of earlier networks were visited, so the restyle left them alone
    assert forall|x: int| 0 <= x < 25 && v0[x] implies g2[x] == g1[x] by {
        if comp.contains(x as usize) {
            let j = choose|j: int| 0 <= j < comp.len() && comp[j] == x as usize;
            assert(!v0[comp[j] as int]);
        }
    }
    assert forall|x: int| 0 <= x < 25 && !#[trigger] v1[x] implies g2[x] == g0[x] by {
        assert(!v0[x]);
    }
    assert forall|n: int| 0 <= n < all.len() implies sewer_network(g0, #[trigger] all[n]) by {
        if n < nets.len() {
            assert(all[n] == nets[n]);
        }
    }
    assert forall|n: int, i: int|
        0 <= n < all.len() && 0 <= i < all[n].len() && kind_at(g0, all[n][i] as int) != RoomKind::SewerCross implies kind_at(
        g2,
        #[trigger] all[n][i] as int,
    ) == network_style(g0, all[n]) by {
        if n < nets.len() {
            assert(all[n] == nets[n]);
            assert(v0[nets[n][i] as int]);
            assert(kind_at(g1, nets[n][i] as int) == network_style(g0, nets[n]));
        } else {
            assert(all[n] == comp);
            let x = comp[i] as int;
            assert(comp.contains(comp[i]));
            assert(kind_at(g1, x) == kind_at(g0, x));
        }
    }
    assert forall|n: int, i: int| 0 <= n < all.len() && 0 <= i < all[n].len() implies v1[#[trigger] all[n][i] as int] by {
        if n < nets.len() {
            assert(all[n] == nets[n]);
            assert(v0[nets[n][i] as int]);
        } else {
            assert(all[n] == comp);
            assert(comp.contains(comp[i]));
        }
    }
    assert forall|k: int| 0 <= k < 25 && #[trigger] v1[k] implies exists|n: int, i: int|
        0 <= n < all.len() && 0 <= i < all[n].len() && #[trigger] all[n][i] == k as usize by {
        if v0[k] {
            let (n, i) = choose|n: int, i: int| 0 <= n < nets.len() && 0 <= i < nets[n].len() && #[trigger] nets[n][i] == k as usize;
            assert(all[n] == nets[n]);
            assert(all[n][i] == k as usize);
        } else {
            assert(comp.contains(k as usize));
            let i = choose|i: int| 0 <= i < comp.len() && comp[i] == k as usize;
            assert(all[nets.len() as int] == comp);
            assert(all[nets.len() as int][i] == k as usize);
        }
    }
}

/// Give every sewer network a single channel style (see `network_style`),
/// network by network in slot order.
fn unify_sewers(grid: &mut Vec<Option<([ConnType; 4], RoomKind)>>)
    requires
        old(grid)@.len() == 25,
        sides_agree(old(grid)@),
    ensures
        restyled(old(grid)@, final(grid)@),
        sewers_uniform(final(grid)@),
        styled_by_network(old(grid)@, final(grid)@),
{
    let ghost g0 = grid@;
    let ghost mut nets: Seq<Seq<usize>> = Seq::empty();
    let mut visited: Vec<bool> = Vec::new();
    let mut i: usize = 0;
    while i < 25
        invariant
            i <= 25,
            visited@.len() == i,
            forall|k: int| 0 <= k < i ==> !#[trigger] visited@[k],
        decreases 25 - i,
    {
        visited.push(false);
        i += 1;
    }
    proof {
        assert forall|k: int, s: int| 0 <= k < 25 && 0 <= s < 4 implies #[trigger] port_at(grid@, k, s) == port_at(g0, k, s) by {
        }
    }
    let mut start: usize = 0;
    while start < 25
        invariant
            start <= 25,
            g0.len() == 25,
            sides_agree(g0),
            restyled(g0, grid@),
            grid@.len() == 25,
            visited_ok(grid@, visited@),
            forall|k: int| 0 <= k < start && #[trigger] grid@[k] is Some && sewer_kind(kind_at(grid@, k)) ==> visited@[k],
            forall|x: int| 0 <= x < 25 && !#[trigger] visited@[x] ==> grid@[x] == g0[x],
            nets_styled(g0, grid@, nets),
            forall|n: int, i: int| 0 <= n < nets.len() && 0 <= i < nets[n].len() ==> visited@[#[trigger] nets[n][i] as int],
            forall|k: int|
                0 <= k < 25 && #[trigger] visited@[k] ==> exists|n: int, i: int|
                    0 <= n < nets.len() && 0 <= i < nets[n].len() && #[trigger] nets[n][i] == k as usize,
        decreases 25 - start,
    {
        proof {
            assert forall|k: int, s: int|
                0 <= k < 25 && 0 <= s < 4 && #[trigger] side_open(grid@, k, s) implies {
                &&& nb_in(k, s)
                &&& grid@[nb_slot(k, s)] is Some
                &&& port_at(grid@, nb_slot(k, s), opp_spec(s)) == port_at(grid@, k, s)
            } by {
                assert(port_at(g0, k, s) != Closed);
                assert(g0[k] is Some);
                assert(side_open(g0, k, s));
                lemma_nb_slot_back(k, s);
                assert(g0[nb_slot(k, s)] is Some);
                assert(port_at(grid@, nb_slot(k, s), opp_spec(s)) == port_at(g0, nb_slot(k, s), opp_spec(s)));
            }
        }
        let is_sewer = match grid[start] {
            Some(room) => room.1 == RoomKind::SewerTunnel || room.1 == RoomKind::SewerDouble || room.1 == RoomKind::SewerCross,
            None => false,
        };
        if !visited[start] && is_sewer {
            let ghost g1 = grid@;
            let ghost v0 = visited@;
            let comp = sewer_component(grid, &mut visited, start);
            let ghost v1 = visited@;
            let style = restyle_network(grid, &comp);
            proof {
                lemma_network_recorded(g0, g1, grid@, v0, v1, comp@, style, nets);
                nets = nets.push(comp@);
                lemma_restyled_trans(g0, g1, grid@);
                lemma_network_restyled(g1, grid@, v0, v1, comp@, style);
                assert forall|k: int| 0 <= k < start + 1 && #[trigger] grid@[k] is Some && sewer_kind(kind_at(grid@, k)) implies visited@[k] by {
                    if k < start {
                        assert(g1[k] is Some);
                    } else {
                        assert(comp@[0] == start);
                        assert(comp@.contains(start));
                    }
                }
            }
        } else {
            proof {
                assert forall|k: int| 0 <= k < start + 1 && #[trigger] grid@[k] is Some && sewer_kind(kind_at(grid@, k)) implies visited@[k] by {
                }
            }
        }
        start += 1;
    }
    proof {
        assert forall|k: int, s: int| #[trigger] sewer_joined(grid@, k, s) implies kinds_match(kind_at(grid@, k), kind_at(grid@, nb_slot(k, s))) by {
            assert(visited@[k]);
        }
        assert forall|k: int| 0 <= k < 25 && #[trigger] g0[k] is Some && sewer_kind(kind_at(g0, k)) implies exists|n: int, i: int|
            0 <= n < nets.len() && 0 <= i < nets[n].len() && #[trigger] nets[n][i] == k as usize by {
            assert(grid@[k] is Some);
            assert(visited@[k]);
        }
        assert(nets_styled(g0, grid@, nets));
    }
}

// ---------------------------------------------------------------------------
// The extraction module
// ---------------------------------------------------------------------------

/// Slot `k` holds a module with exactly one opening.
pub open spec fn dead_end(g: Seq<Option<([ConnType; 4], RoomKind)>>, k: int) -> bool {
    open_count(ports_of(g, k)@) == 1
}

/// Extraction tiers: 0 = an open room at a dead end at least four steps
/// deep, 1 = any dead end at least four steps deep, 2 = any module but the
/// start.
pub open spec fn in_tier(g: Seq<Option<([ConnType; 4], RoomKind)>>, d: Seq<usize>, tier: int, k: int) -> bool {
    &&& 0 <= k < 25
    &&& g[k] is Some
    &&& k != start_slot()
    &&& (tier == 2 || (d[k] >= 4 && dead_end(g, k) && (tier == 1 || kind_at(g, k) == RoomKind::Open)))
}

/// `k` is a deepest module of its tier, the first such in slot order.
pub open spec fn deepest_in_tier(g: Seq<Option<([ConnType; 4], RoomKind)>>, d: Seq<usize>, tier: int, k: int) -> bool {
    &&& in_tier(g, d, tier, k)
    &&& forall|j: int| #[trigger] in_tier(g, d, tier, j) ==> d[j] <= d[k]
    &&& forall|j: int| 0 <= j < k && #[trigger] in_tier(g, d, tier, j) ==> d[j] < d[k]
}

pub open spec fn tier_filled(g: Seq<Option<([ConnType; 4], RoomKind)>>, d: Seq<usize>, tier: int) -> bool {
    exists|k: int| #[trigger] in_tier(g, d, tier, k)
}

/// The extraction is a deepest module of the first tier that has one, or
/// `(0, 3)` when the start stands alone.
pub open spec fn extraction_rule(g: Seq<Option<([ConnType; 4], RoomKind)>>, d: Seq<usize>, e: (i32, i32)) -> bool {
    if tier_filled(g, d, 0) {
        exists|k: int| #[trigger] deepest_in_tier(g, d, 0, k) && e == (slot_gx(k) as i32, slot_gz(k) as i32)
    } else if tier_filled(g, d, 1) {
        exists|k: int| #[trigger] deepest_in_tier(g, d, 1, k) && e == (slot_gx(k) as i32, slot_gz(k) as i32)
    } else if tier_filled(g, d, 2) {
        exists|k: int| #[trigger] deepest_in_tier(g, d, 2, k) && e == (slot_gx(k) as i32, slot_gz(k) as i32)
    } else {
        e == (0i32, 3i32)
    }
}

/// A deepest module of `tier`, if the tier has any.
fn deepest(grid: &Vec<Option<([ConnType; 4], RoomKind)>>, depth: &Vec<usize>, tier: usize) -> (r: Option<usize>)
    requires
        grid@.len() == 25,
        depth@.len() == 25,
        tier <= 2,
    ensures
        r is None <==> !tier_filled(grid@, depth@, tier as int),
        r matches Some(k) ==> deepest_in_tier(grid@, depth@, tier as int, k as int),
{
    let mut best: Option<usize> = None;
    let mut k: usize = 0;
    while k < 25
        invariant
            k <= 25,
            grid@.len() == 25,
            depth@.len() == 25,
            tier <= 2,
            best is None ==> forall|j: int| 0 <= j < k ==> !in_tier(grid@, depth@, tier as int, j),
            best matches Some(b) ==> b < k && in_tier(grid@, depth@, tier as int, b as int)
                && (forall|j: int| 0 <= j < k && in_tier(grid@, depth@, tier as int, j) ==> depth@[j] <= depth@[b as int])
                && (forall|j: int| 0 <= j < b && in_tier(grid@, depth@, tier as int, j) ==> depth@[j] < depth@[b as int]),
        decreases 25 - k,
    {
        let eligible = match grid[k] {
            Some(room) => {
                k != 12 && (tier == 2 || (depth[k] >= 4 && open_ports(&room.0) == 1 && (tier == 1 || room.1
                    == RoomKind::Open)))
            },
            None => false,
        };
        proof {
            assert(eligible == in_tier(grid@, depth@, tier as int, k as int));
        }
        if eligible {
            match best {
                None => {
                    best = Some(k);
                },
                Some(b) => {
                    if depth[k] > depth[b] {
                        best = Some(k);
                    }
                },
            }
        }
        k += 1;
    }
    proof {
        if best is None {
            assert forall|j: int| #[trigger] in_tier(grid@, depth@, tier as int, j) implies false by {
            }
        }
    }
    best
}

/// The extraction module (see `extraction_rule`).
fn pick_extraction(grid: &Vec<Option<([ConnType; 4], RoomKind)>>, depth: &Vec<usize>) -> (e: (i32, i32))
    requires
        grid@.len() == 25,
        depth@.len() == 25,
    ensures
        extraction_rule(grid@, depth@, e),
{
    let mut tier: usize = 0;
    while tier < 3
        invariant
            tier <= 3,
            grid@.len() == 25,
            depth@.len() == 25,
            forall|t: int| 0 <= t < tier ==> !tier_filled(grid@, depth@, t),
        decreases 3 - tier,
    {
        match deepest(grid, depth, tier) {
            Some(k) => {
                proof {
                    lemma_slot_coords(k as int);
                    assert(deepest_in_tier(grid@, depth@, tier as int, k as int));
                }
                return (((k % 5) as i32 - 2), ((k / 5) as i32 - 2));
            },
            None => {},
        }
        tier += 1;
    }
    (0, 3)
}

// ---------------------------------------------------------------------------
// The finished labyrinth as a list of placed modules
// ---------------------------------------------------------------------------

/// Placed modules in strictly increasing `(gz, gx)` order, all inside the grid.
pub open spec fn cells_sorted(cells: Seq<PlacedCell>) -> bool {
    &&& forall|i: int| 0 <= i < cells.len() ==> in_bounds(#[trigger] cells[i].0.0 as int, cells[i].0.1 as int)
    &&& forall|i: int, j: int|
        0 <= i < j < cells.len() ==> slot_of(#[trigger] cells[i].0.0 as int, cells[i].0.1 as int) < slot_of(
            #[trigger] cells[j].0.0 as int,
            cells[j].0.1 as int,
        )
}

/// The grid slot a placed module occupies.
pub open spec fn cell_slot(c: PlacedCell) -> int {
    slot_of(c.0.0 as int, c.0.1 as int)
}

/// The grid the listed modules describe.
pub open spec fn grid_of(cells: Seq<PlacedCell>) -> Seq<Option<([ConnType; 4], RoomKind)>> {
    Seq::new(
        25,
        |k: int|
            if exists|i: int| 0 <= i < cells.len() && #[trigger] cell_slot(cells[i]) == k {
                Some(cells[choose|i: int| 0 <= i < cells.len() && #[trigger] cell_slot(cells[i]) == k].1)
            } else {
                None
            },
    )
}

/// The placed modules of the grid, in slot order.
fn list_cells(grid: &Vec<Option<([ConnType; 4], RoomKind)>>) -> (cells: Vec<PlacedCell>)
    requires
        grid@.len() == 25,
    ensures
        cells_sorted(cells@),
        grid_of(cells@) == grid@,
{
    let mut cells: Vec<PlacedCell> = Vec::new();
    let mut k: usize = 0;
    while k < 25
        invariant
            k <= 25,
            grid@.len() == 25,
            cells_sorted(cells@),
            forall|i: int| 0 <= i < cells@.len() ==> cell_slot(#[trigger] cells@[i]) < k && grid@[cell_slot(cells@[i])] == Some(
                cells@[i].1,
            ),
            forall|j: int| 0 <= j < k && #[trigger] grid@[j] is Some ==> exists|i: int| 0 <= i < cells@.len() && cell_slot(#[trigger] cells@[i]) == j,
        decreases 25 - k,
    {
        match grid[k] {
            Some(room) => {
                proof {
                    lemma_slot_coords(k as int);
                }
                let ghost c0 = cells@;
                cells.push((((k % 5) as i32 - 2, (k / 5) as i32 - 2), room));
                proof {
                    let n = c0.len() as int;
                    assert(cell_slot(cells@[n]) == k as int);
                    assert forall|i: int| 0 <= i < cells@.len() implies cell_slot(#[trigger] cells@[i]) < k + 1 && grid@[cell_slot(cells@[i])]
                        == Some(cells@[i].1) by {
                        if i < n {
                            assert(cells@[i] == c0[i]);
                        }
                    }
                    assert forall|j: int| 0 <= j < k + 1 && #[trigger] grid@[j] is Some implies exists|i: int|
                        0 <= i < cells@.len() && cell_slot(#[trigger] cells@[i]) == j by {
                        if j < k {
                            let i = choose|i: int| 0 <= i < c0.len() && cell_slot(#[trigger] c0[i]) == j;
                            assert(cells@[i] == c0[i]);
                        } else {
                            assert(cell_slot(cells@[n]) == j);
                        }
                    }
                    assert forall|i: int, j: int| 0 <= i < j < cells@.len() implies slot_of(
                        #[trigger] cells@[i].0.0 as int,
                        cells@[i].0.1 as int,
                    ) < slot_of(#[trigger] cells@[j].0.0 as int, cells@[j].0.1 as int) by {
                        if j < n {
                            assert(cells@[i] == c0[i]);
                            assert(cells@[j] == c0[j]);
                        } else {
                            assert(cells@[i] == c0[i]);
                            assert(cell_slot(c0[i]) < k);
                        }
                    }
                    assert forall|i: int| 0 <= i < cells@.len() implies in_bounds(#[trigger] cells@[i].0.0 as int, cells@[i].0.1 as int) by {
                        if i < n {
                            assert(cells@[i] == c0[i]);
                        }
                    }
                }
            },
            None => {},
        }
        k += 1;
    }
    proof {
        let c = cells@;
        assert forall|k: int| 0 <= k < 25 implies #[trigger] grid_of(c)[k] == grid@[k] by {
            if exists|i: int| 0 <= i < c.len() && #[trigger] cell_slot(c[i]) == k {
                let i = choose|i: int| 0 <= i < c.len() && #[trigger] cell_slot(c[i]) == k;
                assert(grid@[k] == Some(c[i].1));
            } else {
                if grid@[k] is Some {
                    let i = choose|i: int| 0 <= i < c.len() && cell_slot(#[trigger] c[i]) == k;
                    assert(false);
                }
            }
        }
        assert(grid_of(c) =~= grid@);
    }
    cells
}

// ---------------------------------------------------------------------------
// Generation
// ---------------------------------------------------------------------------

/// Modules `k` and the one across side `s` share an opening.
pub open spec fn shared_opening(g: Seq<Option<([ConnType; 4], RoomKind)>>, k: int, s: int) -> bool {
    &&& 0 <= s < 4
    &&& nb_in(k, s)
    &&& g[nb_slot(k, s)] is Some
    &&& port_at(g, k, s) != Closed
    &&& port_at(g, nb_slot(k, s), opp_spec(s)) == port_at(g, k, s)
}

/// Module `k` is joined to the start through at most `n` shared openings.
pub open spec fn reaches_start(g: Seq<Option<([ConnType; 4], RoomKind)>>, k: int, n: nat) -> bool
    decreases n,
{
    k == start_slot() || (n > 0 && exists|s: int| #[trigger] shared_opening(g, k, s) && reaches_start(g, nb_slot(k, s), (n - 1) as nat))
}

proof fn lemma_reaches_mono(g: Seq<Option<([ConnType; 4], RoomKind)>>, k: int, m: nat, n: nat)
    requires
        reaches_start(g, k, m),
        m <= n,
    ensures
        reaches_start(g, k, n),
    decreases m,
{
    if k != start_slot() {
        let s = choose|s: int| #[trigger] shared_opening(g, k, s) && reaches_start(g, nb_slot(k, s), (m - 1) as nat);
        lemma_reaches_mono(g, nb_slot(k, s), (m - 1) as nat, (n - 1) as nat);
    }
}

/// In a labyrinth grown from the start, every module is joined to the start
/// through at most as many shared openings as its depth.
pub proof fn law_tree_reaches_start(g: Seq<Option<([ConnType; 4], RoomKind)>>, d: Seq<usize>, k: int)
    requires
        is_tree(g, d),
        0 <= k < 25,
        g[k] is Some,
    ensures
        reaches_start(g, k, d[k] as nat),
    decreases d[k],
{
    if k != start_slot() {
        let s = choose|s: int| parent_link(g, d, k, s);
        lemma_nb_slot_back(k, s);
        law_tree_reaches_start(g, d, nb_slot(k, s));
        assert(shared_opening(g, k, s));
    }
}

proof fn lemma_walled_up_steps(o: Seq<Option<([ConnType; 4], RoomKind)>>, f: Seq<Option<([ConnType; 4], RoomKind)>>, d: Seq<usize>)
    requires
        walled_up(o, f),
        depth_steps(o, d),
    ensures
        depth_steps(f, d),
{
    assert forall|k: int, s: int| 0 <= k < 25 && f[k] is Some && #[trigger] shared_opening(f, k, s) implies d[k] <= d[nb_slot(k, s)] + 1 by {
        lemma_nb_slot_back(k, s);
        let j = nb_slot(k, s);
        assert(o[k] is Some);
        assert(o[j] is Some);
        assert(!dangling(o, k, s));
        assert(!dangling(o, j, opp_spec(s)));
        assert(port_at(f, k, s) == port_at(o, k, s));
        assert(port_at(f, j, opp_spec(s)) == port_at(o, j, opp_spec(s)));
        assert(shared_opening(o, k, s));
    }
}

proof fn lemma_restyled_steps(o: Seq<Option<([ConnType; 4], RoomKind)>>, f: Seq<Option<([ConnType; 4], RoomKind)>>, d: Seq<usize>)
    requires
        restyled(o, f),
        depth_steps(o, d),
    ensures
        depth_steps(f, d),
{
    assert forall|k: int, s: int| 0 <= k < 25 && f[k] is Some && #[trigger] shared_opening(f, k, s) implies d[k] <= d[nb_slot(k, s)] + 1 by {
        lemma_nb_slot_back(k, s);
        let j = nb_slot(k, s);
        assert(o[k] is Some);
        assert(o[j] is Some);
        assert(port_at(f, k, s) == port_at(o, k, s));
        assert(port_at(f, j, opp_spec(s)) == port_at(o, j, opp_spec(s)));
        assert(shared_opening(o, k, s));
    }
}

/// In a grown labyrinth a module's depth is its distance from the start:
/// it is joined to the start through `n` shared openings exactly when its
/// depth is at most `n`.
pub proof fn law_depth_is_distance(g: Seq<Option<([ConnType; 4], RoomKind)>>, d: Seq<usize>, k: int, n: nat)
    requires
        is_tree(g, d),
        depth_steps(g, d),
        0 <= k < 25,
        g[k] is Some,
    ensures
        reaches_start(g, k, n) <==> d[k] <= n,
    decreases n,
{
    if d[k] <= n {
        law_tree_reaches_start(g, d, k);
        lemma_reaches_mono(g, k, d[k] as nat, n);
    }
    if reaches_start(g, k, n) && k != start_slot() {
        let s = choose|s: int| #[trigger] shared_opening(g, k, s) && reaches_start(g, nb_slot(k, s), (n - 1) as nat);
        lemma_nb_slot_back(k, s);
        law_depth_is_distance(g, d, nb_slot(k, s), (n - 1) as nat);
        assert(d[k] <= d[nb_slot(k, s)] + 1);
    }
}

/// Two depth labellings of a grown labyrinth agree: the depth is unique.
#[verifier::spinoff_prover]
pub proof fn law_depth_unique(g: Seq<Option<([ConnType; 4], RoomKind)>>, d1: Seq<usize>, d2: Seq<usize>, k: int)
    requires
        is_tree(g, d1),
        depth_steps(g, d1),
        is_tree(g, d2),
        depth_steps(g, d2),
        0 <= k < 25,
        g[k] is Some,
    ensures
        d1[k] == d2[k],
{
    let a = d1[k] as nat;
    let b = d2[k] as nat;
    law_depth_is_distance(g, d2, k, b);
    law_depth_is_distance(g, d1, k, b);
    assert(a <= b);
    law_depth_is_distance(g, d1, k, a);
    law_depth_is_distance(g, d2, k, a);
    assert(b <= a);
}

proof fn lemma_restyled_tree(o: Seq<Option<([ConnType; 4], RoomKind)>>, f: Seq<Option<([ConnType; 4], RoomKind)>>, d: Seq<usize>)
    requires
        restyled(o, f),
        is_tree(o, d),
    ensures
        is_tree(f, d),
{
    assert forall|k: int| 0 <= k < 25 && k != start_slot() && #[trigger] f[k] is Some implies exists|s: int|
        parent_link(f, d, k, s) by {
        assert(o[k] is Some);
        let s = choose|s: int| parent_link(o, d, k, s);
        lemma_nb_slot_back(k, s);
        assert(f[nb_slot(k, s)] is Some);
        assert(port_at(f, k, s) == port_at(o, k, s));
        assert(port_at(f, nb_slot(k, s), opp_spec(s)) == port_at(o, nb_slot(k, s), opp_spec(s)));
        assert(parent_link(f, d, k, s));
    }
    assert(f[start_slot()] is Some);
}

proof fn lemma_restyled_agree(o: Seq<Option<([ConnType; 4], RoomKind)>>, f: Seq<Option<([ConnType; 4], RoomKind)>>)
    requires
        restyled(o, f),
        sides_agree(o),
    ensures
        sides_agree(f),
{
    assert forall|k: int, s: int| 0 <= k < 25 && 0 <= s < 4 && #[trigger] side_open(f, k, s) implies {
        &&& nb_in(k, s)
        &&& f[nb_slot(k, s)] is Some
        &&& port_at(f, nb_slot(k, s), opp_spec(s)) == port_at(f, k, s)
    } by {
        assert(o[k] is Some);
        assert(port_at(o, k, s) == port_at(f, k, s));
        assert(side_open(o, k, s));
        lemma_nb_slot_back(k, s);
        assert(o[nb_slot(k, s)] is Some);
        assert(port_at(f, nb_slot(k, s), opp_spec(s)) == port_at(o, nb_slot(k, s), opp_spec(s)));
    }
}

/// A sewer stretch labyrinth for `seed`: the modules in `(gz, gx)` order
/// and the extraction module.
///
/// The labyrinth grows breadth first from the start module `(0, 0)` (see
/// `grow`); afterwards every opening that leads nowhere, or onto another
/// kind of opening, is walled up, and each sewer network takes one channel
/// style, chosen by the majority rule of `network_style`. So every open side faces the same opening on a neighbouring
/// module, every module can be reached from the start, and joined sewer
/// modules show matching channels. Depths count the shared openings on a
/// shortest way from the start (see `law_depth_is_distance`); the
/// extraction is a deepest open room at a dead end four or more steps in,
/// else a deepest such dead end, else a deepest module (see
/// `extraction_rule`). The growth itself is the seeded one of `grow_spec`
/// (see `grown_into`).
pub fn gen_grid(seed: u64, target: usize) -> (r: (Vec<PlacedCell>, (i32, i32)))
    ensures
        cells_sorted(r.0@),
        grid_of(r.0@)[start_slot()] is Some,
        sides_agree(grid_of(r.0@)),
        sewers_uniform(grid_of(r.0@)),
        forall|k: int| 0 <= k < 25 && #[trigger] grid_of(r.0@)[k] is Some ==> reaches_start(grid_of(r.0@), k, 25),
        exists|d: Seq<usize>| #[trigger] is_tree(grid_of(r.0@), d) && depth_steps(grid_of(r.0@), d) && extraction_rule(grid_of(r.0@), d, r.1),
        grown_into(seed, target, r.0@, r.1),
{
    let (grown, depth) = grow(seed, target);
    let mut grid = wall_up_dangling(&grown);
    proof {
        lemma_walled_up_agree(grown@, grid@);
        lemma_walled_up_tree(grown@, grid@, depth@);
        lemma_walled_up_steps(grown@, grid@, depth@);
    }
    let ghost walled = grid@;
    unify_sewers(&mut grid);
    proof {
        lemma_restyled_tree(walled, grid@, depth@);
        lemma_restyled_agree(walled, grid@);
        lemma_restyled_steps(walled, grid@, depth@);
    }
    let extraction = pick_extraction(&grid, &depth);
    let cells = list_cells(&grid);
    proof {
        let g = grid@;
        assert forall|k: int| 0 <= k < 25 && #[trigger] g[k] is Some implies reaches_start(g, k, 25) by {
            law_tree_reaches_start(g, depth@, k);
            lemma_reaches_mono(g, k, depth@[k] as nat, 25);
        }
        assert(is_tree(g, depth@) && depth_steps(g, depth@) && extraction_rule(g, depth@, extraction));
        assert(walled_up(grow_spec(seed, target).0, walled) && restyled(walled, grid_of(cells@)) && styled_by_network(
            walled,
            grid_of(cells@),
        ));
    }
    (cells, extraction)
}

/// The labyrinth `cells` with extraction `e` is the one grown from `seed`
/// toward `target` modules (`grow_spec`) with its dangling openings walled
/// up and each sewer network restyled to one channel style by
/// `styled_by_network`, and `e` follows the extraction rule for the grown
/// depths.
pub open spec fn grown_into(seed: u64, target: usize, cells: Seq<PlacedCell>, e: (i32, i32)) -> bool {
    let (grown, depth) = grow_spec(seed, target);
    &&& exists|w: Seq<Option<([ConnType; 4], RoomKind)>>|
        #[trigger] walled_up(grown, w) && restyled(w, grid_of(cells)) && styled_by_network(w, grid_of(cells))
    &&& is_tree(grid_of(cells), depth)
    &&& depth_steps(grid_of(cells), depth)
    &&& extraction_rule(grid_of(cells), depth, e)
}

/// Modules a stretch at `depth` aims for.
pub open spec fn stretch_target_spec(depth: u32) -> usize {
    (8 + if 2 * depth < 4 { 2 * depth } else { 4 }) as usize
}

/// Modules a stretch aims for: 8 at the entry, up to 12 deeper in.
pub fn stretch_target(depth: u32) -> (r: usize)
    ensures
        r == 8 + if 2 * depth < 4 { 2 * depth } else { 4 },
        r == stretch_target_spec(depth),
{
    let extra: u64 = if (depth as u64) * 2 < 4 { (depth as u64) * 2 } else { 4 };
    8 + extra as usize
}

/// One module of the minimap.
#[derive(Clone, Copy, Debug)]
pub struct GridCell {
    pub gx: i32,
    pub gz: i32,
    pub room: RoomKind,
    pub ports: [ConnType; 4],
    pub is_start: bool,
    pub is_extraction: bool,
}

/// Some listed module stands at `(gx, gz)`.
pub open spec fn placed_at(cells: Seq<PlacedCell>, gx: int, gz: int) -> bool {
    exists|j: int| 0 <= j < cells.len() && (#[trigger] cells[j]).0.0 == gx && cells[j].0.1 == gz
}

fn is_placed(cells: &Vec<PlacedCell>, gx: i32, gz: i32) -> (r: bool)
    ensures
        r == placed_at(cells@, gx as int, gz as int),
{
    let mut j: usize = 0;
    while j < cells.len()
        invariant
            j <= cells@.len(),
            forall|t: int| 0 <= t < j ==> !((#[trigger] cells@[t]).0.0 == gx && cells@[t].0.1 == gz),
        decreases cells@.len() - j,
    {
        if cells[j].0.0 == gx && cells[j].0.1 == gz {
            return true;
        }
        j += 1;
    }
    false
}

/// The minimap of a stretch: each module with the openings that lead to a
/// placed neighbour, and the start and extraction marked.
pub fn minimap_cells(cells: &Vec<PlacedCell>, extraction: (i32, i32)) -> (r: Vec<GridCell>)
    requires
        forall|i: int| 0 <= i < cells@.len() ==> in_bounds(#[trigger] cells@[i].0.0 as int, cells@[i].0.1 as int),
    ensures
        r@.len() == cells@.len(),
        forall|i: int|
            0 <= i < cells@.len() ==> {
                let c = #[trigger] cells@[i];
                let m = r@[i];
                &&& m.gx == c.0.0
                &&& m.gz == c.0.1
                &&& m.room == c.1.1
                &&& m.is_start == (c.0.0 == 0 && c.0.1 == 0)
                &&& m.is_extraction == (c.0 == extraction)
                &&& forall|s: int|
                    0 <= s < 4 ==> m.ports@[s] == if c.1.0@[s] != Closed && !placed_at(
                        cells@,
                        nb_spec(c.0.0 as int, c.0.1 as int, s).0,
                        nb_spec(c.0.0 as int, c.0.1 as int, s).1,
                    ) {
                        Closed
                    } else {
                        c.1.0@[s]
                    }
            },
{
    let mut out: Vec<GridCell> = Vec::new();
    let mut i: usize = 0;
    while i < cells.len()
        invariant
            i <= cells@.len(),
            out@.len() == i,
            forall|t: int| 0 <= t < cells@.len() ==> in_bounds(#[trigger] cells@[t].0.0 as int, cells@[t].0.1 as int),
            forall|t: int|
                0 <= t < i ==> {
                    let c = #[trigger] cells@[t];
                    let m = out@[t];
                    &&& m.gx == c.0.0
                    &&& m.gz == c.0.1
                    &&& m.room == c.1.1
                    &&& m.is_start == (c.0.0 == 0 && c.0.1 == 0)
                    &&& m.is_extraction == (c.0 == extraction)
                    &&& forall|s: int|
                        0 <= s < 4 ==> m.ports@[s] == if c.1.0@[s] != Closed && !placed_at(
                            cells@,
                            nb_spec(c.0.0 as int, c.0.1 as int, s).0,
                            nb_spec(c.0.0 as int, c.0.1 as int, s).1,
                        ) {
                            Closed
                        } else {
                            c.1.0@[s]
                        }
                },
        decreases cells@.len() - i,
    {
        let c = cells[i];
        let (gx, gz) = c.0;
        proof {
            assert(in_bounds(cells@[i as int].0.0 as int, cells@[i as int].0.1 as int));
        }
        let mut ports = c.1.0;
        let mut s: usize = 0;
        while s < 4
            invariant
                s <= 4,
                -2 <= gx <= 2,
                -2 <= gz <= 2,
                forall|t: int|
                    0 <= t < 4 ==> #[trigger] ports@[t] == if t < s && c.1.0@[t] != Closed && !placed_at(
                        cells@,
                        nb_spec(gx as int, gz as int, t).0,
                        nb_spec(gx as int, gz as int, t).1,
                    ) {
                        Closed
                    } else {
                        c.1.0@[t]
                    },
            decreases 4 - s,
        {
            if ports[s] != Closed {
                let (nx, nz) = nb(gx, gz, s);
                if !is_placed(cells, nx, nz) {
                    ports.set(s, Closed);
                }
            }
            s += 1;
        }
        let ghost o0 = out@;
        out.push(GridCell {
            gx,
            gz,
            room: c.1.1,
            ports,
            is_start: gx == 0 && gz == 0,
            is_extraction: gx == extraction.0 && gz == extraction.1,
        });
        proof {
            assert forall|t: int| 0 <= t < i + 1 implies {
                let c = #[trigger] cells@[t];
                let m = out@[t];
                &&& m.gx == c.0.0
                &&& m.gz == c.0.1
                &&& m.room == c.1.1
                &&& m.is_start == (c.0.0 == 0 && c.0.1 == 0)
                &&& m.is_extraction == (c.0 == extraction)
                &&& forall|s: int|
                    0 <= s < 4 ==> m.ports@[s] == if c.1.0@[s] != Closed && !placed_at(
                        cells@,
                        nb_spec(c.0.0 as int, c.0.1 as int, s).0,
                        nb_spec(c.0.0 as int, c.0.1 as int, s).1,
                    ) {
                        Closed
                    } else {
                        c.1.0@[s]
                    }
            } by {
                if t < i {
                    assert(out@[t] == o0[t]);
                }
            }
        }
        i += 1;
    }
    out
}

// ---------------------------------------------------------------------------
// Named sewer stretches
// ---------------------------------------------------------------------------

/// How a named sewer stretch derives its labyrinth from the run seed: the
/// mask xor-ed into the seed and the stretch's depth into the run.
pub open spec fn recipe_spec(id: Seq<char>) -> Option<(u64, u32)> {
    if id == "sewer_entry"@ {
        Some((0u64, 0u32))
    } else if id == "sewer_branch_a"@ {
        Some((0xABCD_1234_5678_0000u64, 1u32))
    } else if id == "sewer_branch_b"@ {
        Some((0x5678_FEDC_BA98_0000u64, 2u32))
    } else {
        None
    }
}

/// Seed mask and depth of the named sewer stretch `id` (hubs have none).
pub fn stretch_recipe(id: &str) -> (r: Option<(u64, u32)>)
    ensures
        r == recipe_spec(id@),
{
    if crate::text::str_eq(id, "sewer_entry") {
        proof {
            reveal_strlit("sewer_entry");
        }
        Some((0, 0))
    } else if crate::text::str_eq(id, "sewer_branch_a") {
        proof {
            reveal_strlit("sewer_entry");
            reveal_strlit("sewer_branch_a");
        }
        Some((0xABCD_1234_5678_0000, 1))
    } else if crate::text::str_eq(id, "sewer_branch_b") {
        proof {
            reveal_strlit("sewer_entry");
            reveal_strlit("sewer_branch_a");
            reveal_strlit("sewer_branch_b");
        }
        Some((0x5678_FEDC_BA98_0000, 2))
    } else {
        None
    }
}

/// In a sorted listing, each module is what the grid holds at its slot.
proof fn lemma_grid_of_at(cells: Seq<PlacedCell>, i: int)
    requires
        cells_sorted(cells),
        0 <= i < cells.len(),
    ensures
        0 <= cell_slot(cells[i]) < 25,
        grid_of(cells)[cell_slot(cells[i])] == Some(cells[i].1),
{
    let k = cell_slot(cells[i]);
    assert(in_bounds(cells[i].0.0 as int, cells[i].0.1 as int));
    assert(exists|j: int| 0 <= j < cells.len() && #[trigger] cell_slot(cells[j]) == k);
    let j = choose|j: int| 0 <= j < cells.len() && #[trigger] cell_slot(cells[j]) == k;
    if j < i {
        assert(slot_of(cells[j].0.0 as int, cells[j].0.1 as int) < slot_of(cells[i].0.0 as int, cells[i].0.1 as int));
    } else if i < j {
        assert(slot_of(cells[i].0.0 as int, cells[i].0.1 as int) < slot_of(cells[j].0.0 as int, cells[j].0.1 as int));
    }
}

/// A sewer stretch at `depth` into the run: its labyrinth (see `gen_grid`),
/// grown toward `stretch_target(depth)` modules, and its minimap, which
/// shows exactly the generated openings.
#[verifier::rlimit(40)]
#[verifier::spinoff_prover]
pub fn sewer_stretch(seed: u64, depth: u32) -> (r: (Vec<PlacedCell>, (i32, i32), Vec<GridCell>))
    ensures
        cells_sorted(r.0@),
        grid_of(r.0@)[start_slot()] is Some,
        sides_agree(grid_of(r.0@)),
        sewers_uniform(grid_of(r.0@)),
        forall|k: int| 0 <= k < 25 && #[trigger] grid_of(r.0@)[k] is Some ==> reaches_start(grid_of(r.0@), k, 25),
        exists|d: Seq<usize>| #[trigger] is_tree(grid_of(r.0@), d) && depth_steps(grid_of(r.0@), d) && extraction_rule(grid_of(r.0@), d, r.1),
        grown_into(seed, stretch_target_spec(depth), r.0@, r.1),
        r.2@.len() == r.0@.len(),
        forall|i: int|
            0 <= i < r.0@.len() ==> {
                let c = #[trigger] r.0@[i];
                let m = r.2@[i];
                &&& m.gx == c.0.0 && m.gz == c.0.1
                &&& m.room == c.1.1
                &&& m.ports == c.1.0
                &&& m.is_start == (c.0.0 == 0 && c.0.1 == 0)
                &&& m.is_extraction == (c.0 == r.1)
            },
{
    let target = stretch_target(depth);
    let (cells, extraction) = gen_grid(seed, target);
    let map = minimap_cells(&cells, extraction);
    proof {
        let c = cells@;
        let g = grid_of(c);
        assert forall|i: int| 0 <= i < c.len() implies map@[i].ports == (#[trigger] c[i]).1.0 by {
            lemma_grid_of_at(c, i);
            let k = cell_slot(c[i]);
            assert forall|s: int| 0 <= s < 4 implies map@[i].ports@[s] == c[i].1.0@[s] by {
                if c[i].1.0@[s] != Closed {
                    assert(port_at(g, k, s) == c[i].1.0@[s]);
                    assert(side_open(g, k, s));
                    let n = nb_slot(k, s);
                    assert(g[n] is Some);
                    assert(exists|j: int| 0 <= j < c.len() && #[trigger] cell_slot(c[j]) == n);
                    let j = choose|j: int| 0 <= j < c.len() && #[trigger] cell_slot(c[j]) == n;
                    let (nx, nz) = nb_spec(c[i].0.0 as int, c[i].0.1 as int, s);
                    lemma_slot_roundtrip(c[i].0.0 as int, c[i].0.1 as int);
                    lemma_slot_roundtrip(nx, nz);
                    assert(in_bounds(c[j].0.0 as int, c[j].0.1 as int));
                    lemma_slot_roundtrip(c[j].0.0 as int, c[j].0.1 as int);
                    assert(c[j].0.0 == nx && c[j].0.1 == nz);
                    assert(placed_at(c, nx, nz));
                }
            }
            assert(map@[i].ports@ =~= c[i].1.0@);
        }
    }
    (cells, extraction, map)
}

} // verus!
