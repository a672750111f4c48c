//! Kenney Modular Space Kit: the piece catalogue, the rules that decide how
//! a piece is anchored and whether its floor is carved, hub branch group ids
//! and the declarative floor transitions inside a 5x5 module.

use vstd::prelude::*;

use crate::editor::DEFAULT_MAP_MODULES;
use crate::text::{concat, contains_str, seq_contains, seq_starts_with, starts_with, str_eq};

verus! {

/// Axis names of a piece's cell grid.
#[derive(Clone, Debug)]
pub struct CellAxis {
    pub x: String,
    pub z: String,
}

/// What borders each side of a piece's cell grid, one entry per cell.
#[derive(Clone, Debug)]
pub struct CellEdges {
    pub south: Vec<String>,
    pub north: Vec<String>,
    pub west: Vec<String>,
    pub east: Vec<String>,
}

/// The cell grid of one piece: `nx` cells west to east, `nz` south to north.
#[derive(Clone, Debug)]
pub struct CellGrid {
    pub axis: CellAxis,
    pub nx: u32,
    pub nz: u32,
    pub edges: CellEdges,
}

/// One catalogue entry: the GLB stem, its category and its cell grid.
#[derive(Clone, Debug)]
pub struct KenneyPiece {
    pub stem: String,
    pub category: String,
    pub cell_grid: CellGrid,
}

/// The Kenney catalogue, pieces in file order.
#[derive(Clone, Debug)]
pub struct KenneyCatalog {
    pub pieces: Vec<KenneyPiece>,
}

/// `i` is the first catalogue position whose stem is `stem`.
pub open spec fn is_first_piece(pieces: Seq<KenneyPiece>, stem: Seq<char>, i: int) -> bool {
    &&& 0 <= i < pieces.len()
    &&& pieces[i].stem@ == stem
    &&& forall|j: int| 0 <= j < i ==> #[trigger] pieces[j].stem@ != stem
}

/// Some catalogue piece has stem `stem`.
pub open spec fn has_piece(pieces: Seq<KenneyPiece>, stem: Seq<char>) -> bool {
    exists|i: int| is_first_piece(pieces, stem, i)
}

/// The piece a lookup of `stem` finds (meaningful when `has_piece`).
pub open spec fn found_piece(pieces: Seq<KenneyPiece>, stem: Seq<char>) -> KenneyPiece {
    pieces[choose|i: int| is_first_piece(pieces, stem, i)]
}

/// Footprint in cells of `stem`; `(1, 1)` for a stem the catalogue lacks.
pub open spec fn grid_size_of(pieces: Seq<KenneyPiece>, stem: Seq<char>) -> (u32, u32) {
    if has_piece(pieces, stem) {
        let p = found_piece(pieces, stem);
        (p.cell_grid.nx, p.cell_grid.nz)
    } else {
        (1, 1)
    }
}

/// Categories whose pieces sit on the south-west cell edge.
pub open spec fn is_edge_category(category: Seq<char>) -> bool {
    category == "template_wall"@ || category == "gate"@ || category == "template"@
}

proof fn lemma_first_unique(pieces: Seq<KenneyPiece>, stem: Seq<char>, i: int, k: int)
    requires
        is_first_piece(pieces, stem, i),
        is_first_piece(pieces, stem, k),
    ensures
        i == k,
{
    if i < k {
        assert(pieces[i].stem@ != stem);
    } else if k < i {
        assert(pieces[k].stem@ != stem);
    }
}

impl KenneyCatalog {
    /// Position of the first piece with stem `stem`.
    pub fn piece_index(&self, stem: &str) -> (r: Option<usize>)
        ensures
            r matches Some(i) ==> is_first_piece(self.pieces@, stem@, i as int),
            r is None ==> !has_piece(self.pieces@, stem@),
            r matches Some(i) ==> found_piece(self.pieces@, stem@) == self.pieces@[i as int],
    {
        let n = self.pieces.len();
        let mut i: usize = 0;
        while i < n
            invariant
                n == self.pieces@.len(),
                i <= n,
                forall|j: int| 0 <= j < i ==> #[trigger] self.pieces@[j].stem@ != stem@,
            decreases n - i,
        {
            if str_eq(self.pieces[i].stem.as_str(), stem) {
                proof {
                    assert(is_first_piece(self.pieces@, stem@, i as int));
                    let k = choose|k: int| is_first_piece(self.pieces@, stem@, k);
                    lemma_first_unique(self.pieces@, stem@, i as int, k);
                }
                return Some(i);
            }
            i = i + 1;
        }
        None
    }

    /// The first piece with stem `stem`.
    pub fn piece(&self, stem: &str) -> (r: Option<&KenneyPiece>)
        ensures
            r is Some == has_piece(self.pieces@, stem@),
            r matches Some(p) ==> *p == found_piece(self.pieces@, stem@),
    {
        match self.piece_index(stem) {
            Some(i) => Some(&self.pieces[i]),
            None => None,
        }
    }
}

/// Footprint `(nx, nz)` in cells of `stem`, `(1, 1)` when the catalogue lacks it.
pub fn piece_grid_size(catalog: &KenneyCatalog, stem: &str) -> (r: (u32, u32))
    ensures
        r == grid_size_of(catalog.pieces@, stem@),
{
    match catalog.piece(stem) {
        Some(p) => (p.cell_grid.nx, p.cell_grid.nz),
        None => (1, 1),
    }
}

/// Walls and doors sit on the south-west cell edge instead of being centred.
pub fn uses_edge_anchor(catalog: &KenneyCatalog, stem: &str) -> (r: bool)
    ensures
        r == (has_piece(catalog.pieces@, stem@) && is_edge_category(
            found_piece(catalog.pieces@, stem@).category@,
        )),
{
    match catalog.piece(stem) {
        Some(p) => {
            let c = p.category.as_str();
            str_eq(c, "template_wall") || str_eq(c, "gate") || str_eq(c, "template")
        },
        None => false,
    }
}

/// Room shells whose baked floor and walls get cut for pits and exits.
pub open spec fn spec_is_room_shell(stem: Seq<char>) -> bool {
    stem == "room-large"@ || stem == "room-large-variation"@ || stem == "room-wide"@ || stem
        == "room-wide-variation"@
}

/// Pieces that carry a baked walkable floor which holes are carved from.
pub open spec fn spec_carves_floor(stem: Seq<char>) -> bool {
    spec_is_room_shell(stem) || seq_starts_with(stem, "corridor"@) || (seq_starts_with(
        stem,
        "template-floor"@,
    ) && !seq_contains(stem, "hole"@))
}

/// The stem is one of the four room shells.
pub fn is_room_shell(stem: &str) -> (r: bool)
    ensures
        r == spec_is_room_shell(stem@),
{
    str_eq(stem, "room-large") || str_eq(stem, "room-large-variation") || str_eq(stem, "room-wide")
        || str_eq(stem, "room-wide-variation")
}

/// The piece has a baked floor that pit and stair holes are carved from.
pub fn carves_floor(stem: &str) -> (r: bool)
    ensures
        r == spec_carves_floor(stem@),
{
    is_room_shell(stem) || starts_with(stem, "corridor") || (starts_with(stem, "template-floor")
        && !contains_str(stem, "hole"))
}

/// Hub branch level below the stretch.
pub const HUB_FLOOR_LEVEL: i32 = -1;

/// Depth level two bands below the stretch.
pub const DEPTH_FLOOR_LEVEL: i32 = -2;

/// Group id of the L2 (stairs) branch module.
pub const BRANCH_GID_L2: u32 = 92;

/// Group id of the L3 (pit) branch module.
pub const BRANCH_GID_L3: u32 = 93;

/// Group id of the L4 (west drop) branch module.
pub const BRANCH_GID_L4: u32 = 94;

/// Group id of the branch module behind hub exit `exit` (2, 3 or 4).
pub fn branch_gid(exit: u8) -> (r: Option<u32>)
    ensures
        exit == 2 ==> r == Some(BRANCH_GID_L2),
        exit == 3 ==> r == Some(BRANCH_GID_L3),
        exit == 4 ==> r == Some(BRANCH_GID_L4),
        !(2 <= exit <= 4) ==> r is None,
{
    if exit == 2 {
        Some(BRANCH_GID_L2)
    } else if exit == 3 {
        Some(BRANCH_GID_L3)
    } else if exit == 4 {
        Some(BRANCH_GID_L4)
    } else {
        None
    }
}

/// Every branch module group id, L2 to L4.
pub fn all_branch_gids() -> (r: [u32; 3])
    ensures
        r@ == seq![BRANCH_GID_L2, BRANCH_GID_L3, BRANCH_GID_L4],
{
    let r = [BRANCH_GID_L2, BRANCH_GID_L3, BRANCH_GID_L4];
    assert(r@ =~= seq![BRANCH_GID_L2, BRANCH_GID_L3, BRANCH_GID_L4]);
    r
}

/// One cell in a 5x5 module (`ix` west to east, `iz` south to north).
#[derive(Clone, Copy, Debug, PartialEq, Eq, Structural)]
pub struct ModuleTile {
    pub ix: u32,
    pub iz: u32,
}

impl ModuleTile {
    pub fn new(ix: u32, iz: u32) -> (r: Self)
        ensures
            r.ix == ix,
            r.iz == iz,
    {
        ModuleTile { ix, iz }
    }

    /// Whole metres from the module centre to this cell's centre (cells are
    /// 4 m, the centre cell is `(2, 2)`).
    pub fn offset_m(self) -> (r: (i64, i64))
        ensures
            r.0 == (self.ix - 2) * 4,
            r.1 == (self.iz - 2) * 4,
    {
        ((self.ix as i64 - 2) * 4, (self.iz as i64 - 2) * 4)
    }

    /// World position (whole metres) of this cell's centre for a module
    /// centred at `(mcx, mcz)`.
    pub fn world_xz(self, mcx: i64, mcz: i64) -> (r: (i64, i64))
        requires
            -0x1000_0000_0000_0000 <= mcx <= 0x1000_0000_0000_0000,
            -0x1000_0000_0000_0000 <= mcz <= 0x1000_0000_0000_0000,
        ensures
            r.0 == mcx + (self.ix - 2) * 4,
            r.1 == mcz + (self.iz - 2) * 4,
    {
        let (dx, dz) = self.offset_m();
        (mcx + dx, mcz + dz)
    }
}

/// A stair walking up from `from_floor` to `to_floor` across `bottom` then `top`.
#[derive(Clone, Copy, Debug, PartialEq, Eq, Structural)]
pub struct StairUp {
    pub bottom: ModuleTile,
    pub top: ModuleTile,
    pub from_floor: i32,
    pub to_floor: i32,
}

impl StairUp {
    pub fn new(bottom: ModuleTile, top: ModuleTile, from_floor: i32, to_floor: i32) -> (r: Self)
        ensures
            r.bottom == bottom,
            r.top == top,
            r.from_floor == from_floor,
            r.to_floor == to_floor,
    {
        StairUp { bottom, top, from_floor, to_floor }
    }

    /// Both cells the stair occupies: entry, then landing.
    pub fn footprint(self) -> (r: [ModuleTile; 2])
        ensures
            r@ == seq![self.bottom, self.top],
    {
        let r = [self.bottom, self.top];
        assert(r@ =~= seq![self.bottom, self.top]);
        r
    }

    /// `(floor, x, z)` (whole metres) of every cell that must not carry a
    /// floor tile: both cells on both floors.
    pub fn floor_omit_world(self, mcx: i64, mcz: i64) -> (r: [(i32, i64, i64); 4])
        requires
            -0x1000_0000_0000_0000 <= mcx <= 0x1000_0000_0000_0000,
            -0x1000_0000_0000_0000 <= mcz <= 0x1000_0000_0000_0000,
        ensures
            r[0].0 == self.from_floor && r[1].0 == self.from_floor,
            r[2].0 == self.to_floor && r[3].0 == self.to_floor,
            r[0].1 == r[2].1 == mcx + (self.bottom.ix - 2) * 4,
            r[0].2 == r[2].2 == mcz + (self.bottom.iz - 2) * 4,
            r[1].1 == r[3].1 == mcx + (self.top.ix - 2) * 4,
            r[1].2 == r[3].2 == mcz + (self.top.iz - 2) * 4,
    {
        let b = self.bottom.world_xz(mcx, mcz);
        let t = self.top.world_xz(mcx, mcz);
        [(self.from_floor, b.0, b.1), (self.from_floor, t.0, t.1), (self.to_floor, b.0, b.1), (self.to_floor, t.0, t.1)]
    }

    /// World positions (whole metres) of the landing cell, then the entry cell.
    pub fn footprint_world(self, mcx: i64, mcz: i64) -> (r: [(i64, i64); 2])
        requires
            -0x1000_0000_0000_0000 <= mcx <= 0x1000_0000_0000_0000,
            -0x1000_0000_0000_0000 <= mcz <= 0x1000_0000_0000_0000,
        ensures
            r[0].0 == mcx + (self.top.ix - 2) * 4 && r[0].1 == mcz + (self.top.iz - 2) * 4,
            r[1].0 == mcx + (self.bottom.ix - 2) * 4 && r[1].1 == mcz + (self.bottom.iz - 2) * 4,
    {
        let b = self.bottom.world_xz(mcx, mcz);
        let t = self.top.world_xz(mcx, mcz);
        [(t.0, t.1), (b.0, b.1)]
    }
}

/// A drop through one tile from `from_floor` to `to_floor`.
#[derive(Clone, Copy, Debug, PartialEq, Eq, Structural)]
pub struct TrapDown {
    pub tile: ModuleTile,
    pub from_floor: i32,
    pub to_floor: i32,
}

impl TrapDown {
    pub fn new(tile: ModuleTile, from_floor: i32, to_floor: i32) -> (r: Self)
        ensures
            r.tile == tile,
            r.from_floor == from_floor,
            r.to_floor == to_floor,
    {
        TrapDown { tile, from_floor, to_floor }
    }
}

/// The hub's L2 stair in the west module: `(2, 2)` up to `(3, 2)`, from the
/// depth level to the hub level.
pub fn hub_l2_stair_up() -> (r: StairUp)
    ensures
        r.bottom == (ModuleTile { ix: 2, iz: 2 }),
        r.top == (ModuleTile { ix: 3, iz: 2 }),
        r.from_floor == DEPTH_FLOOR_LEVEL,
        r.to_floor == HUB_FLOOR_LEVEL,
{
    StairUp::new(ModuleTile::new(2, 2), ModuleTile::new(3, 2), DEPTH_FLOOR_LEVEL, HUB_FLOOR_LEVEL)
}

/// Exit kind of a hub exit that does not say: a drop.
pub fn default_hub_exit_kind() -> (r: String)
    ensures
        r@ == "drop"@,
{
    "drop".to_owned()
}

/// The editor's saved Kenney layout, relative to the repository root.
pub const LAYOUT_PATH: &'static str = "userinput/kenney_layout.json";

/// The saved Kenney layout of the repository rooted at `root`.
pub fn layout_path(root: &str) -> (r: String)
    ensures
        r@ == root@ + "/userinput/kenney_layout.json"@,
{
    concat(root, "/userinput/kenney_layout.json")
}

/// Modules per side of a layout that does not say.
pub fn default_modules() -> (r: u32)
    ensures
        r == DEFAULT_MAP_MODULES,
{
    DEFAULT_MAP_MODULES
}

} // verus!
