//! The editor's documents: a module (one 5 x 5 module with its floor masks
//! and pieces) and a map (a grid of modules with a floor mask per level).
//! Floor masks are kept per level, each level at most once.

use vstd::prelude::*;

use crate::catalog::PieceRecord;
use crate::editor::{
    pool_dir, pool_dir_spec, sanitize_filename, sanitized, EditorWorkflow, FloorMask, GridSpec, CELLS_PER_MODULE,
    DEFAULT_MAP_MODULES,
};
use crate::pool::PointXz;
use crate::text::{concat, parse_i32, parse_i32_spec};
use vstd::string::StrSliceExecFns;

verus! {

/// Each level has at most one mask.
pub open spec fn levels_unique(f: Seq<(i32, FloorMask)>) -> bool {
    forall|i: int, j: int| 0 <= i < j < f.len() ==> #[trigger] f[i].0 != #[trigger] f[j].0
}

/// Every mask is well formed.
pub open spec fn masks_wf(f: Seq<(i32, FloorMask)>) -> bool {
    forall|i: int| 0 <= i < f.len() ==> (#[trigger] f[i]).1.wf()
}

/// The mask kept for `level`, if any.
pub open spec fn mask_of(f: Seq<(i32, FloorMask)>, level: i32) -> Option<FloorMask> {
    if exists|i: int| 0 <= i < f.len() && (#[trigger] f[i]).0 == level {
        Some(f[choose|i: int| 0 <= i < f.len() && (#[trigger] f[i]).0 == level].1)
    } else {
        None
    }
}

/// `m` is a well-formed mask of the given size with every cell floored.
pub open spec fn is_filled(m: FloorMask, cells_x: u32, cells_z: u32) -> bool {
    &&& m.wf()
    &&& m.cells_x == cells_x
    &&& m.cells_z == cells_z
    &&& forall|ix: int, iz: int| 0 <= ix < cells_x && 0 <= iz < cells_z ==> #[trigger] m.floor_at(ix, iz)
}

proof fn lemma_mask_of_at(f: Seq<(i32, FloorMask)>, i: int)
    requires
        levels_unique(f),
        0 <= i < f.len(),
    ensures
        mask_of(f, f[i].0) == Some(f[i].1),
{
    let j = choose|j: int| 0 <= j < f.len() && (#[trigger] f[j]).0 == f[i].0;
    if j != i {
        if j < i {
            assert(f[j].0 != f[i].0);
        } else {
            assert(f[i].0 != f[j].0);
        }
    }
}

/// A copy of a floor mask.
pub fn copy_mask(m: &FloorMask) -> (r: FloorMask)
    ensures
        r@ == m@,
{
    let mut cells: Vec<bool> = Vec::new();
    let mut i: usize = 0;
    while i < m.cells.len()
        invariant
            i <= m.cells@.len(),
            cells@ == m.cells@.subrange(0, i as int),
        decreases m.cells@.len() - i,
    {
        cells.push(m.cells[i]);
        proof {
            assert(m.cells@.subrange(0, i as int + 1) =~= m.cells@.subrange(0, i as int).push(m.cells@[i as int]));
        }
        i += 1;
    }
    proof {
        assert(m.cells@.subrange(0, m.cells@.len() as int) =~= m.cells@);
    }
    FloorMask { cells_x: m.cells_x, cells_z: m.cells_z, cells }
}

/// Position of the mask of `level` in `f`.
fn find_level(f: &Vec<(i32, FloorMask)>, level: i32) -> (r: Option<usize>)
    requires
        levels_unique(f@),
    ensures
        r is None <==> mask_of(f@, level) is None,
        r matches Some(i) ==> i < f@.len() && f@[i as int].0 == level && mask_of(f@, level) == Some(f@[i as int].1),
{
    let mut i: usize = 0;
    while i < f.len()
        invariant
            i <= f@.len(),
            levels_unique(f@),
            forall|j: int| 0 <= j < i ==> (#[trigger] f@[j]).0 != level,
        decreases f@.len() - i,
    {
        if f[i].0 == level {
            proof {
                lemma_mask_of_at(f@, i as int);
            }
            return Some(i);
        }
        i += 1;
    }
    None
}

/// One module being edited.
#[derive(Clone, Debug)]
pub struct ModuleDocument {
    pub version: u32,
    pub name: String,
    pub pool: String,
    /// The floor-0 mask.
    pub floor_mask: FloorMask,
    /// Masks of the other floors.
    pub extra_floor_masks: Vec<(i32, FloorMask)>,
    pub pieces: Vec<PieceRecord>,
}

impl ModuleDocument {
    pub open spec fn wf(&self) -> bool {
        &&& self.floor_mask.wf()
        &&& levels_unique(self.extra_floor_masks@)
        &&& masks_wf(self.extra_floor_masks@)
    }

    /// An empty module named `name` in `pool`: no pieces, floor 0 fully floored.
    pub fn new_named(name: &str, pool: &str) -> (r: Self)
        ensures
            r.wf(),
            r.version == 1,
            r.name@ == name@,
            r.pool@ == pool@,
            is_filled(r.floor_mask, CELLS_PER_MODULE, CELLS_PER_MODULE),
            r.extra_floor_masks@.len() == 0,
            r.pieces@.len() == 0,
    {
        ModuleDocument {
            version: 1,
            name: name.to_owned(),
            pool: pool.to_owned(),
            floor_mask: FloorMask::filled(CELLS_PER_MODULE, CELLS_PER_MODULE),
            extra_floor_masks: Vec::new(),
            pieces: Vec::new(),
        }
    }

    /// Nothing placed and floor 0 fully floored.
    pub fn is_empty(&self) -> (r: bool)
        ensures
            r == (self.pieces@.len() == 0 && forall|i: int| 0 <= i < self.floor_mask.cells@.len() ==> #[trigger] self.floor_mask.cells@[i]),
    {
        if self.pieces.len() != 0 {
            return false;
        }
        let mut i: usize = 0;
        while i < self.floor_mask.cells.len()
            invariant
                i <= self.floor_mask.cells@.len(),
                forall|j: int| 0 <= j < i ==> #[trigger] self.floor_mask.cells@[j],
            decreases self.floor_mask.cells@.len() - i,
        {
            if !self.floor_mask.cells[i] {
                return false;
            }
            i += 1;
        }
        true
    }

    /// The mask of `level`: floor 0's own, another floor's if kept, else a
    /// fully floored module mask.
    pub fn floor_mask_for(&self, level: i32) -> (r: FloorMask)
        requires
            self.wf(),
        ensures
            r.wf(),
            level == 0 ==> r@ == self.floor_mask@,
            level != 0 ==> match mask_of(self.extra_floor_masks@, level) {
                Some(m) => r@ == m@,
                None => is_filled(r, CELLS_PER_MODULE, CELLS_PER_MODULE),
            },
    {
        if level == 0 {
            return copy_mask(&self.floor_mask);
        }
        match find_level(&self.extra_floor_masks, level) {
            Some(i) => copy_mask(&self.extra_floor_masks[i].1),
            None => FloorMask::filled(CELLS_PER_MODULE, CELLS_PER_MODULE),
        }
    }

    /// Where the module is saved: `<pool dir>/<sanitized name>.json`.
    pub fn path_in_pool(&self, root: &str) -> (r: String)
        ensures
            r@ == pool_dir_spec(root@, self.pool@) + "/"@ + sanitized(self.name@) + ".json"@,
    {
        let dir = pool_dir(root, self.pool.as_str());
        let a = concat(dir.as_str(), "/");
        let file = sanitize_filename(self.name.as_str());
        let b = concat(a.as_str(), file.as_str());
        let r = concat(b.as_str(), ".json");
        assert(r@ =~= pool_dir_spec(root@, self.pool@) + "/"@ + sanitized(self.name@) + ".json"@);
        r
    }
}

/// Stamping `src` onto `before` at cell offset `(ox, oz)` gives `after`:
/// same size, and a cell is floored when it was, or when the `src` cell it
/// lies over is.
pub open spec fn stamped(before: FloorMask, after: FloorMask, src: FloorMask, ox: int, oz: int) -> bool {
    &&& after.wf()
    &&& after.cells_x == before.cells_x
    &&& after.cells_z == before.cells_z
    &&& forall|x: int, z: int|
        #[trigger] after.floor_at(x, z) == (before.floor_at(x, z) || (0 <= x < before.cells_x && 0 <= z < before.cells_z
            && src.floor_at(x - ox, z - oz)))
}

/// Bounds on a stamping offset that keep cell arithmetic exact.
pub open spec fn offset_ok(o: i64) -> bool {
    -0x1_0000_0000i64 < o < 0x1_0000_0000i64
}

/// Set every cell of `dst` that a floored cell of `src`, shifted by
/// `(ox, oz)`, lands on.
fn stamp(dst: &mut FloorMask, src: &FloorMask, ox: i64, oz: i64)
    requires
        old(dst).wf(),
        src.wf(),
        offset_ok(ox),
        offset_ok(oz),
    ensures
        stamped(*old(dst), *final(dst), *src, ox as int, oz as int),
{
    let ghost before = *dst;
    let mut iz: u32 = 0;
    while iz < src.cells_z
        invariant
            iz <= src.cells_z,
            src.wf(),
            dst.wf(),
            offset_ok(ox),
            offset_ok(oz),
            dst.cells_x == before.cells_x,
            dst.cells_z == before.cells_z,
            forall|x: int, z: int|
                #[trigger] dst.floor_at(x, z) == (before.floor_at(x, z) || (0 <= x < before.cells_x && 0 <= z
                    < before.cells_z && z - oz < iz && src.floor_at(x - ox, z - oz))),
        decreases src.cells_z - iz,
    {
        let mut ix: u32 = 0;
        while ix < src.cells_x
            invariant
                ix <= src.cells_x,
                iz < src.cells_z,
                src.wf(),
                dst.wf(),
                offset_ok(ox),
                offset_ok(oz),
                dst.cells_x == before.cells_x,
                dst.cells_z == before.cells_z,
                forall|x: int, z: int|
                    #[trigger] dst.floor_at(x, z) == (before.floor_at(x, z) || (0 <= x < before.cells_x && 0 <= z
                        < before.cells_z && (z - oz < iz || (z - oz == iz && x - ox < ix)) && src.floor_at(
                        x - ox,
                        z - oz,
                    ))),
            decreases src.cells_x - ix,
        {
            if src.get(ix, iz) {
                let mx: i64 = ox + ix as i64;
                let mz: i64 = oz + iz as i64;
                if mx >= 0 && mz >= 0 && mx < dst.cells_x as i64 && mz < dst.cells_z as i64 {
                    let ghost pre = *dst;
                    dst.set(mx as u32, mz as u32, true);
                    proof {
                        assert forall|x: int, z: int|
                            #[trigger] dst.floor_at(x, z) == (before.floor_at(x, z) || (0 <= x < before.cells_x && 0
                                <= z < before.cells_z && (z - oz < iz || (z - oz == iz && x - ox < ix + 1))
                                && src.floor_at(x - ox, z - oz))) by {
                            if x == mx && z == mz {
                            } else {
                                assert(dst.floor_at(x, z) == pre.floor_at(x, z));
                            }
                        }
                    }
                }
            }
            ix += 1;
        }
        iz += 1;
    }
}

/// The mask the last usable entry gives `level`: entries whose key parses
/// as that level and that carry a mask; later entries win.
pub open spec fn last_mask(entries: Seq<(String, Option<FloorMask>)>, level: i32) -> Option<FloorMask>
    decreases entries.len(),
{
    if entries.len() == 0 {
        None
    } else {
        let e = entries.last();
        if parse_i32_spec(e.0@) == Some(level) && e.1 is Some {
            e.1
        } else {
            last_mask(entries.drop_last(), level)
        }
    }
}

/// The floor masks of a map file, from its `(key, mask)` entries in file
/// order: keys that do not parse as integer levels, and entries without a
/// usable mask, are dropped; a later entry for a level replaces an earlier.
pub fn collect_floors(entries: Vec<(String, Option<FloorMask>)>) -> (r: Vec<(i32, FloorMask)>)
    ensures
        levels_unique(r@),
        forall|level: i32| #[trigger] mask_of(r@, level) == last_mask(entries@, level),
{
    let ghost all = entries@;
    let mut rest = entries;
    let mut floors: Vec<(i32, FloorMask)> = Vec::new();
    let ghost mut j: int = 0;
    while rest.len() > 0
        invariant
            0 <= j <= all.len(),
            rest@ == all.skip(j as int),
            levels_unique(floors@),
            forall|level: i32| #[trigger] mask_of(floors@, level) == last_mask(all.take(j as int), level),
        decreases rest@.len(),
    {
        let ghost f0 = floors@;
        let (key, mask) = rest.remove(0);
        proof {
            assert(all.take(j as int + 1).drop_last() =~= all.take(j as int));
            assert(all.take(j as int + 1).last() == all[j as int]);
            assert(all.skip(j as int)[0] == all[j as int]);
            assert(rest@ =~= all.skip(j as int + 1));
        }
        let parsed = parse_i32(key.as_str());
        match (parsed, mask) {
            (Some(level), Some(m)) => {
                match find_level(&floors, level) {
                    Some(i) => {
                        proof {
                            lemma_mask_of_set(f0, i as int, m);
                        }
                        floors.set(i, (level, m));
                    },
                    None => {
                        proof {
                            lemma_mask_of_push(f0, level, m);
                        }
                        floors.push((level, m));
                    },
                }
            },
            _ => {},
        }
        proof {
            j = j + 1;
        }
    }
    proof {
        assert(all.take(j as int) =~= all);
    }
    floors
}

/// One piece as read from a generated map file; each field is `None` when
/// the file lacks it (or gives it another type). `floor_level` is
/// `Some(None)` when the key is there without an integer.
pub struct RawPiece {
    pub stem: Option<String>,
    pub x_mm: Option<i64>,
    pub z_mm: Option<i64>,
    pub yaw_urad: Option<i64>,
    pub floor_level: Option<Option<i64>>,
    pub floor: Option<i64>,
    pub scale_milli: Option<i64>,
    pub group_id: Option<u64>,
    pub ceiling: Option<bool>,
    pub underside: Option<bool>,
    pub kit: Option<String>,
    /// The tint array's entries, `None` for those that are no numbers.
    pub tint_milli: Option<Vec<Option<i64>>>,
    /// The tag array's entries, `None` for those that are no strings.
    pub tags: Option<Vec<Option<String>>>,
    pub zone: Option<String>,
}

/// A generated map file as read; each field is `None` when the file lacks
/// it (or gives it another type).
pub struct GeneratedMap {
    pub version: Option<u64>,
    pub name: Option<String>,
    pub modules_x: Option<u64>,
    pub modules_z: Option<u64>,
    /// The `floors` object's `(key, mask)` entries in file order; the mask
    /// is `None` where it is no floor mask.
    pub floors: Vec<(String, Option<FloorMask>)>,
    pub pieces: Vec<RawPiece>,
    pub hub_model: Option<String>,
    pub faction_profile: Option<String>,
    pub building_system: Option<String>,
    pub spawn_mm: Option<PointXz>,
    pub extraction_mm: Option<PointXz>,
    /// The branch table, `None` when missing or malformed.
    pub branch_levels: Option<Vec<(String, BranchLevel)>>,
    /// The exit table, `None` when missing or malformed.
    pub hub_exits: Option<Vec<(String, HubExitRaw)>>,
}

/// The strings among `s`, in order.
pub open spec fn strings_of(s: Seq<Option<String>>) -> Seq<String>
    decreases s.len(),
{
    if s.len() == 0 {
        Seq::empty()
    } else {
        let p = strings_of(s.drop_last());
        match s.last() {
            Some(t) => p.push(t),
            None => p,
        }
    }
}

/// The tint of a raw tint array: exactly three numbers.
pub open spec fn tint_of(t: Option<Vec<Option<i64>>>) -> Option<[i64; 3]> {
    match t {
        Some(v) => if v@.len() == 3 && v@[0] is Some && v@[1] is Some && v@[2] is Some {
            Some([v@[0]->0, v@[1]->0, v@[2]->0])
        } else {
            None
        },
        None => None,
    }
}

/// A raw piece is kept: it has a stem, x, z and yaw.
pub open spec fn keeps(p: RawPiece) -> bool {
    p.stem is Some && p.x_mm is Some && p.z_mm is Some && p.yaw_urad is Some
}

/// `r` is the piece the kept raw piece `p` gives: the level is
/// `floor_level` if the file has that key (0 unless an integer), else
/// `floor`, else 0; scale defaults to 1000 thousandths, flags to false,
/// tags keep only the strings.
pub open spec fn piece_from(p: RawPiece, r: PieceRecord) -> bool {
    let level: i64 = match p.floor_level {
        Some(fl) => match fl {
            Some(v) => v,
            None => 0,
        },
        None => match p.floor {
            Some(v) => v,
            None => 0,
        },
    };
    &&& Some(r.stem) == p.stem
    &&& Some(r.x_mm) == p.x_mm
    &&& Some(r.z_mm) == p.z_mm
    &&& Some(r.yaw_urad) == p.yaw_urad
    &&& r.floor_level == level as i32
    &&& r.scale_milli == match p.scale_milli {
        Some(v) => v,
        None => 1000,
    }
    &&& r.tint_milli == tint_of(p.tint_milli)
    &&& r.group_id == match p.group_id {
        Some(g) => Some(g as u32),
        None => None,
    }
    &&& r.ceiling == match p.ceiling {
        Some(b) => b,
        None => false,
    }
    &&& r.underside == match p.underside {
        Some(b) => b,
        None => false,
    }
    &&& r.kit == p.kit
    &&& r.tags@ == match p.tags {
        Some(v) => strings_of(v@),
        None => Seq::empty(),
    }
    &&& r.zone == p.zone
}

/// `out` holds, in order, the pieces the kept raw pieces of `raws` give.
pub open spec fn pieces_from(raws: Seq<RawPiece>, out: Seq<PieceRecord>) -> bool
    decreases raws.len(),
{
    if raws.len() == 0 {
        out.len() == 0
    } else if keeps(raws.last()) {
        out.len() > 0 && piece_from(raws.last(), out.last()) && pieces_from(raws.drop_last(), out.drop_last())
    } else {
        pieces_from(raws.drop_last(), out)
    }
}

/// The strings among `v`, in order.
fn collect_strings(v: Vec<Option<String>>) -> (r: Vec<String>)
    ensures
        r@ == strings_of(v@),
{
    let ghost all = v@;
    let mut rest = v;
    let mut out: Vec<String> = Vec::new();
    let ghost mut j: int = 0;
    while rest.len() > 0
        invariant
            0 <= j <= all.len(),
            rest@ == all.skip(j as int),
            out@ == strings_of(all.take(j as int)),
        decreases rest@.len(),
    {
        let item = rest.remove(0);
        proof {
            assert(all.take(j as int + 1).drop_last() =~= all.take(j as int));
            assert(all.skip(j as int)[0] == all[j as int]);
            assert(rest@ =~= all.skip(j as int + 1));
        }
        match item {
            Some(t) => out.push(t),
            None => {},
        }
        proof {
            j = j + 1;
        }
    }
    proof {
        assert(all.take(j as int) =~= all);
    }
    out
}

/// The piece of a raw piece, if it is kept (see `piece_from`).
pub fn piece_of(p: RawPiece) -> (r: Option<PieceRecord>)
    ensures
        r is Some <==> keeps(p),
        r matches Some(q) ==> piece_from(p, q),
{
    let ghost p0 = p;
    let RawPiece { stem, x_mm, z_mm, yaw_urad, floor_level, floor, scale_milli, group_id, ceiling, underside, kit, tint_milli, tags, zone } = p;
    let (stem, x_mm, z_mm, yaw_urad) = match (stem, x_mm, z_mm, yaw_urad) {
        (Some(a), Some(b), Some(c), Some(d)) => (a, b, c, d),
        _ => {
            return None;
        },
    };
    let level: i64 = match floor_level {
        Some(fl) => match fl {
            Some(v) => v,
            None => 0,
        },
        None => match floor {
            Some(v) => v,
            None => 0,
        },
    };
    let tint = match &tint_milli {
        Some(v) => if v.len() == 3 {
            match (v[0], v[1], v[2]) {
                (Some(a), Some(b), Some(c)) => Some([a, b, c]),
                _ => None,
            }
        } else {
            None
        },
        None => None,
    };
    let tags = match tags {
        Some(v) => collect_strings(v),
        None => Vec::new(),
    };
    let r = PieceRecord {
        stem,
        x_mm,
        z_mm,
        yaw_urad,
        floor_level: #[verifier::truncate] (level as i32),
        scale_milli: match scale_milli {
            Some(v) => v,
            None => 1000,
        },
        tint_milli: tint,
        group_id: match group_id {
            Some(g) => Some(#[verifier::truncate] (g as u32)),
            None => None,
        },
        ceiling: match ceiling {
            Some(b) => b,
            None => false,
        },
        underside: match underside {
            Some(b) => b,
            None => false,
        },
        kit,
        tags,
        zone,
    };
    proof {
        assert(tint == tint_of(p0.tint_milli));
    }
    Some(r)
}

/// The kept pieces of `raws`, in order (see `pieces_from`).
pub fn collect_pieces(raws: Vec<RawPiece>) -> (r: Vec<PieceRecord>)
    ensures
        pieces_from(raws@, r@),
{
    let ghost all = raws@;
    let mut rest = raws;
    let mut out: Vec<PieceRecord> = Vec::new();
    let ghost mut j: int = 0;
    while rest.len() > 0
        invariant
            0 <= j <= all.len(),
            rest@ == all.skip(j as int),
            pieces_from(all.take(j as int), out@),
        decreases rest@.len(),
    {
        let raw = rest.remove(0);
        proof {
            assert(all.take(j as int + 1).drop_last() =~= all.take(j as int));
            assert(all.skip(j as int)[0] == all[j as int]);
            assert(rest@ =~= all.skip(j as int + 1));
        }
        let ghost o0 = out@;
        match piece_of(raw) {
            Some(q) => {
                out.push(q);
                proof {
                    assert(out@.drop_last() =~= o0);
                }
            },
            None => {},
        }
        proof {
            j = j + 1;
        }
    }
    proof {
        assert(all.take(j as int) =~= all);
    }
    out
}

/// A hub branch destination (legacy hubs): where the branch lands, on
/// which floor, and its label. Positions in millimetres.
#[derive(Clone, Debug)]
pub struct BranchLevel {
    pub x_mm: i64,
    pub z_mm: i64,
    pub floor: i32,
    pub label: String,
}

/// A hub exit as a file holds it; the kind may be missing.
#[derive(Clone, Debug)]
pub struct HubExitRaw {
    pub x_mm: i64,
    pub z_mm: i64,
    pub floor: i32,
    pub label: String,
    pub kind: Option<String>,
}

/// A hub exit: where it is, on which floor, its label and kind (`drop`,
/// `walk`, ...). Positions in millimetres.
#[derive(Clone, Debug)]
pub struct HubExit {
    pub x_mm: i64,
    pub z_mm: i64,
    pub floor: i32,
    pub label: String,
    pub kind: String,
}

/// `e` is the raw exit `r` with the kind defaulted to `drop`.
pub open spec fn exit_from(r: HubExitRaw, e: HubExit) -> bool {
    &&& e.x_mm == r.x_mm && e.z_mm == r.z_mm && e.floor == r.floor && e.label == r.label
    &&& e.kind@ == match r.kind {
        Some(k) => k@,
        None => "drop"@,
    }
}

/// The hub exits of a file: its exits in order, each kind defaulted to
/// `drop`; none when the file has no (well-formed) exit table.
pub fn hub_exits_from(raw: Option<Vec<(String, HubExitRaw)>>) -> (r: Vec<(String, HubExit)>)
    ensures
        r@.len() == match raw {
            Some(v) => v@.len(),
            None => 0,
        },
        raw matches Some(v) ==> forall|i: int| 0 <= i < v@.len() ==> (#[trigger] r@[i]).0 == v@[i].0 && exit_from(v@[i].1, r@[i].1),
{
    let v = match raw {
        Some(v) => v,
        None => {
            return Vec::new();
        },
    };
    let ghost all = v@;
    let mut rest = v;
    let mut out: Vec<(String, HubExit)> = Vec::new();
    let ghost mut j: int = 0;
    while rest.len() > 0
        invariant
            0 <= j <= all.len(),
            rest@ == all.skip(j),
            out@.len() == j,
            forall|i: int| 0 <= i < j ==> (#[trigger] out@[i]).0 == all[i].0 && exit_from(all[i].1, out@[i].1),
        decreases rest@.len(),
    {
        let (key, e) = rest.remove(0);
        proof {
            assert(all.skip(j)[0] == all[j]);
            assert(rest@ =~= all.skip(j + 1));
        }
        let kind = match e.kind {
            Some(k) => k,
            None => {
                proof {
                    reveal_strlit("drop");
                }
                "drop".to_owned()
            },
        };
        out.push((key, HubExit { x_mm: e.x_mm, z_mm: e.z_mm, floor: e.floor, label: e.label, kind }));
        proof {
            j = j + 1;
        }
    }
    out
}

/// A map being edited.
#[derive(Clone, Debug)]
pub struct MapDocument {
    pub version: u32,
    pub name: String,
    pub modules_x: u32,
    pub modules_z: u32,
    /// Floor masks by level.
    pub floors: Vec<(i32, FloorMask)>,
    pub pieces: Vec<PieceRecord>,
    /// `freeform_v1` maps skip the legacy hub patching.
    pub hub_model: Option<String>,
    /// Faction procgen profile id.
    pub faction_profile: Option<String>,
    /// Modular architecture kit folder used for this map.
    pub building_system: Option<String>,
    /// Spawn point placed in the editor.
    pub spawn_mm: Option<PointXz>,
    /// Extraction pit centre on floor 0.
    pub extraction_mm: Option<PointXz>,
    /// Hub branch destinations by key (`2`, `3`, `4`).
    pub branch_levels: Vec<(String, BranchLevel)>,
    /// Free-form hub exits by key (`0`, `1`).
    pub hub_exits: Vec<(String, HubExit)>,
}

/// Most modules a map may have per side.
pub const MAX_MAP_MODULES: u32 = 32;

impl MapDocument {
    /// Floor masks are unique per level and well formed, and the grid's cell
    /// count fits in `u32`.
    pub open spec fn wf(&self) -> bool {
        &&& levels_unique(self.floors@)
        &&& masks_wf(self.floors@)
        &&& self.modules_x * CELLS_PER_MODULE <= u32::MAX
        &&& self.modules_z * CELLS_PER_MODULE <= u32::MAX
        &&& self.modules_x * CELLS_PER_MODULE * (self.modules_z * CELLS_PER_MODULE) <= u32::MAX
    }

    pub open spec fn cells_x_spec(&self) -> int {
        self.modules_x * CELLS_PER_MODULE
    }

    pub open spec fn cells_z_spec(&self) -> int {
        self.modules_z * CELLS_PER_MODULE
    }

    /// The map's editing grid.
    pub fn grid(&self) -> (r: GridSpec)
        requires
            self.wf(),
        ensures
            r.cells_x == self.cells_x_spec(),
            r.cells_z == self.cells_z_spec(),
            r.cells_x * r.cells_z <= u32::MAX,
    {
        GridSpec::for_workflow(EditorWorkflow::MapMaker, self.modules_x, self.modules_z)
    }

    /// The map a generated map file describes: version 1, name `generated`
    /// and 5 modules per side where the file does not say (numbers taken to
    /// 32 bits); floors from the file's entries (see `collect_floors`);
    /// the pieces that have a stem, x, z and yaw (see `pieces_from`).
    pub fn from_generated(raw: GeneratedMap) -> (r: MapDocument)
        ensures
            r.version == match raw.version {
                Some(v) => v as u32,
                None => 1,
            },
            r.name@ == match raw.name {
                Some(n) => n@,
                None => "generated"@,
            },
            r.modules_x == match raw.modules_x {
                Some(v) => v as u32,
                None => 5,
            },
            r.modules_z == match raw.modules_z {
                Some(v) => v as u32,
                None => 5,
            },
            levels_unique(r.floors@),
            forall|level: i32| #[trigger] mask_of(r.floors@, level) == last_mask(raw.floors@, level),
            pieces_from(raw.pieces@, r.pieces@),
            r.hub_model == raw.hub_model,
            r.faction_profile == raw.faction_profile,
            r.building_system == raw.building_system,
            r.spawn_mm == raw.spawn_mm,
            r.extraction_mm == raw.extraction_mm,
            r.branch_levels@ == match raw.branch_levels {
                Some(v) => v@,
                None => Seq::empty(),
            },
            r.hub_exits@.len() == match raw.hub_exits {
                Some(v) => v@.len(),
                None => 0,
            },
            raw.hub_exits matches Some(v) ==> forall|i: int| 0 <= i < v@.len() ==> (#[trigger] r.hub_exits@[i]).0 == v@[i].0
                && exit_from(v@[i].1, r.hub_exits@[i].1),
    {
        let ghost raw0 = raw;
        let GeneratedMap {
            version,
            name,
            modules_x,
            modules_z,
            floors,
            pieces,
            hub_model,
            faction_profile,
            building_system,
            spawn_mm,
            extraction_mm,
            branch_levels,
            hub_exits,
        } = raw;
        let name = match name {
            Some(n) => n,
            None => {
                proof {
                    reveal_strlit("generated");
                }
                "generated".to_owned()
            },
        };
        MapDocument {
            version: match version {
                Some(v) => #[verifier::truncate] (v as u32),
                None => 1,
            },
            name,
            modules_x: match modules_x {
                Some(v) => #[verifier::truncate] (v as u32),
                None => 5,
            },
            modules_z: match modules_z {
                Some(v) => #[verifier::truncate] (v as u32),
                None => 5,
            },
            floors: collect_floors(floors),
            pieces: collect_pieces(pieces),
            hub_model,
            faction_profile,
            building_system,
            spawn_mm,
            extraction_mm,
            branch_levels: match branch_levels {
                Some(v) => v,
                None => Vec::new(),
            },
            hub_exits: hub_exits_from(hub_exits),
        }
    }

    /// A new `untitled` map of the default size with a fully floored floor 0.
    pub fn new_default() -> (r: Self)
        ensures
            r.wf(),
            r.version == 1,
            r.name@ == "untitled"@,
            r.modules_x == DEFAULT_MAP_MODULES,
            r.modules_z == DEFAULT_MAP_MODULES,
            r.floors@.len() == 1,
            r.floors@[0].0 == 0,
            is_filled(r.floors@[0].1, r.cells_x_spec() as u32, r.cells_z_spec() as u32),
            r.pieces@.len() == 0,
            r.hub_model is None && r.faction_profile is None && r.building_system is None,
            r.spawn_mm is None && r.extraction_mm is None && r.branch_levels@.len() == 0 && r.hub_exits@.len() == 0,
    {
        let grid = GridSpec::for_workflow(EditorWorkflow::MapMaker, DEFAULT_MAP_MODULES, DEFAULT_MAP_MODULES);
        let floors = vec![(0i32, FloorMask::filled(grid.cells_x, grid.cells_z))];
        let r = MapDocument {
            version: 1,
            name: "untitled".to_owned(),
            modules_x: DEFAULT_MAP_MODULES,
            modules_z: DEFAULT_MAP_MODULES,
            floors,
            pieces: Vec::new(),
            hub_model: None,
            faction_profile: None,
            building_system: None,
            spawn_mm: None,
            extraction_mm: None,
            branch_levels: Vec::new(),
            hub_exits: Vec::new(),
        };
        proof {
            reveal_strlit("untitled");
        }
        r
    }

    /// The mask of `level`, or a fully floored one of the map's size.
    pub fn floor_mask(&self, level: i32) -> (r: FloorMask)
        requires
            self.wf(),
        ensures
            r.wf(),
            match mask_of(self.floors@, level) {
                Some(m) => r@ == m@,
                None => is_filled(r, self.cells_x_spec() as u32, self.cells_z_spec() as u32),
            },
    {
        match find_level(&self.floors, level) {
            Some(i) => copy_mask(&self.floors[i].1),
            None => {
                let g = self.grid();
                FloorMask::filled(g.cells_x, g.cells_z)
            },
        }
    }

    /// Resize to `modules_x` by `modules_z` modules (each clamped to
    /// 1..=32); every floor is reset to fully floored at the new size, and
    /// floor 0 is added if missing.
    pub fn resize_map(&mut self, modules_x: u32, modules_z: u32)
        requires
            old(self).wf(),
        ensures
            final(self).wf(),
            final(self).modules_x == if modules_x < 1 { 1 } else if modules_x > MAX_MAP_MODULES { MAX_MAP_MODULES } else { modules_x },
            final(self).modules_z == if modules_z < 1 { 1 } else if modules_z > MAX_MAP_MODULES { MAX_MAP_MODULES } else { modules_z },
            forall|level: i32|
                #[trigger] mask_of(final(self).floors@, level) is Some <==> (mask_of(old(self).floors@, level) is Some
                    || level == 0),
            forall|level: i32|
                #[trigger] mask_of(final(self).floors@, level) is Some ==> is_filled(
                    mask_of(final(self).floors@, level)->0,
                    final(self).cells_x_spec() as u32,
                    final(self).cells_z_spec() as u32,
                ),
            final(self).name == old(self).name,
            final(self).version == old(self).version,
            final(self).pieces == old(self).pieces,
    {
        self.modules_x = if modules_x < 1 { 1 } else if modules_x > MAX_MAP_MODULES { MAX_MAP_MODULES } else { modules_x };
        self.modules_z = if modules_z < 1 { 1 } else if modules_z > MAX_MAP_MODULES { MAX_MAP_MODULES } else { modules_z };
        proof {
            assert(self.modules_x * CELLS_PER_MODULE * (self.modules_z * CELLS_PER_MODULE) <= u32::MAX) by (nonlinear_arith)
                requires
                    self.modules_x <= 32,
                    self.modules_z <= 32,
                    CELLS_PER_MODULE == 5,
            ;
        }
        let grid = self.grid();
        let ghost old_floors = self.floors@;
        let mut floors: Vec<(i32, FloorMask)> = Vec::new();
        let mut has_ground = false;
        let mut i: usize = 0;
        while i < self.floors.len()
            invariant
                i <= self.floors@.len(),
                self.floors@ == old_floors,
                levels_unique(old_floors),
                grid.cells_x * grid.cells_z <= u32::MAX,
                floors@.len() == i,
                forall|j: int| 0 <= j < i ==> (#[trigger] floors@[j]).0 == old_floors[j].0 && is_filled(floors@[j].1, grid.cells_x, grid.cells_z),
                has_ground == exists|j: int| 0 <= j < i && (#[trigger] old_floors[j]).0 == 0,
            decreases self.floors@.len() - i,
        {
            let level = self.floors[i].0;
            let ghost before = floors@;
            floors.push((level, FloorMask::filled(grid.cells_x, grid.cells_z)));
            proof {
                assert forall|j: int| 0 <= j < i + 1 implies (#[trigger] floors@[j]).0 == old_floors[j].0 && is_filled(floors@[j].1, grid.cells_x, grid.cells_z) by {
                    if j < i {
                        assert(floors@[j] == before[j]);
                    }
                }
            }
            if level == 0 {
                has_ground = true;
            }
            i += 1;
        }
        let ghost reset = floors@;
        if !has_ground {
            floors.push((0i32, FloorMask::filled(grid.cells_x, grid.cells_z)));
        }
        self.floors = floors;
        proof {
            let f = self.floors@;
            assert forall|i: int, j: int| 0 <= i < j < f.len() implies #[trigger] f[i].0 != #[trigger] f[j].0 by {
                if j < old_floors.len() {
                    assert(old_floors[i].0 != old_floors[j].0);
                } else {
                    assert(f[i] == reset[i]);
                }
            }
            assert forall|i: int| 0 <= i < f.len() implies (#[trigger] f[i]).1.wf() by {
                if i < reset.len() {
                    assert(f[i] == reset[i]);
                }
            }
            assert forall|level: i32| #[trigger] mask_of(f, level) is Some <==> (mask_of(old_floors, level) is Some || level == 0) by {
                if mask_of(old_floors, level) is Some {
                    let j = choose|j: int| 0 <= j < old_floors.len() && (#[trigger] old_floors[j]).0 == level;
                    assert(f[j].0 == level);
                }
                if level == 0 && !has_ground {
                    assert(f[reset.len() as int].0 == 0);
                }
                if mask_of(f, level) is Some {
                    let j = choose|j: int| 0 <= j < f.len() && (#[trigger] f[j]).0 == level;
                    if j < reset.len() {
                        assert(old_floors[j].0 == level);
                    }
                }
            }
            assert forall|level: i32| #[trigger] mask_of(f, level) is Some implies is_filled(mask_of(f, level)->0, grid.cells_x, grid.cells_z) by {
                if mask_of(f, level) is Some {
                    let j = choose|j: int| 0 <= j < f.len() && (#[trigger] f[j]).0 == level;
                    if j < reset.len() {
                        assert(f[j] == reset[j]);
                    }
                }
            }
        }
    }
}

proof fn lemma_mask_of_set(f: Seq<(i32, FloorMask)>, idx: int, m: FloorMask)
    requires
        levels_unique(f),
        0 <= idx < f.len(),
    ensures
        levels_unique(f.update(idx, (f[idx].0, m))),
        forall|l: i32| #[trigger] mask_of(f.update(idx, (f[idx].0, m)), l) == if l == f[idx].0 { Some(m) } else { mask_of(f, l) },
{
    let g = f.update(idx, (f[idx].0, m));
    assert forall|i: int, j: int| 0 <= i < j < g.len() implies #[trigger] g[i].0 != #[trigger] g[j].0 by {
        assert(f[i].0 != f[j].0);
    }
    assert forall|l: i32| #[trigger] mask_of(g, l) == if l == f[idx].0 { Some(m) } else { mask_of(f, l) } by {
        if l == f[idx].0 {
            lemma_mask_of_at(g, idx);
        } else {
            if exists|i: int| 0 <= i < f.len() && (#[trigger] f[i]).0 == l {
                let i = choose|i: int| 0 <= i < f.len() && (#[trigger] f[i]).0 == l;
                lemma_mask_of_at(f, i);
                lemma_mask_of_at(g, i);
            } else {
                assert forall|i: int| 0 <= i < g.len() implies (#[trigger] g[i]).0 != l by {
                    assert(f[i].0 != l);
                }
            }
        }
    }
}

proof fn lemma_mask_of_push(f: Seq<(i32, FloorMask)>, level: i32, m: FloorMask)
    requires
        levels_unique(f),
        mask_of(f, level) is None,
    ensures
        levels_unique(f.push((level, m))),
        forall|l: i32| #[trigger] mask_of(f.push((level, m)), l) == if l == level { Some(m) } else { mask_of(f, l) },
{
    let g = f.push((level, m));
    assert forall|i: int| 0 <= i < f.len() implies (#[trigger] f[i]).0 != level by {
    }
    assert forall|i: int, j: int| 0 <= i < j < g.len() implies #[trigger] g[i].0 != #[trigger] g[j].0 by {
        if j < f.len() {
            assert(f[i].0 != f[j].0);
        } else {
            assert(f[i].0 != level);
        }
    }
    assert forall|l: i32| #[trigger] mask_of(g, l) == if l == level { Some(m) } else { mask_of(f, l) } by {
        if l == level {
            lemma_mask_of_at(g, f.len() as int);
        } else {
            if exists|i: int| 0 <= i < f.len() && (#[trigger] f[i]).0 == l {
                let i = choose|i: int| 0 <= i < f.len() && (#[trigger] f[i]).0 == l;
                lemma_mask_of_at(f, i);
                lemma_mask_of_at(g, i);
            } else {
                assert forall|i: int| 0 <= i < g.len() implies (#[trigger] g[i]).0 != l by {
                    if i < f.len() {
                        assert(f[i].0 != l);
                    }
                }
            }
        }
    }
}

/// The module's floor layers: floor 0, then the other floors.
pub open spec fn module_layers(module: ModuleDocument) -> Seq<(i32, FloorMask)> {
    seq![(0i32, module.floor_mask)] + module.extra_floor_masks@
}

/// Some layer lands on map level `level` when the module sits at floor `base`.
pub open spec fn lands_on(layers: Seq<(i32, FloorMask)>, base: int, level: i32) -> bool {
    exists|k: int| 0 <= k < layers.len() && (#[trigger] layers[k]).0 + base == level
}

/// Some layer landing on `level` has a floored cell over map cell `(x, z)`.
pub open spec fn layer_hit(layers: Seq<(i32, FloorMask)>, base: int, level: i32, x: int, z: int, ox: int, oz: int) -> bool {
    exists|k: int| 0 <= k < layers.len() && (#[trigger] layers[k]).0 + base == level && layers[k].1.floor_at(x - ox, z - oz)
}

/// Width and depth of the map's floor at `level` (the map's size when the
/// level has no mask yet).
pub open spec fn level_dims(map: MapDocument, level: i32) -> (int, int) {
    match mask_of(map.floors@, level) {
        Some(m) => (m.cells_x as int, m.cells_z as int),
        None => (map.cells_x_spec(), map.cells_z_spec()),
    }
}

/// The map's floor at `level` (fully floored when the level has no mask yet).
pub open spec fn level_floor(map: MapDocument, level: i32, x: int, z: int) -> bool {
    match mask_of(map.floors@, level) {
        Some(m) => m.floor_at(x, z),
        None => 0 <= x < map.cells_x_spec() && 0 <= z < map.cells_z_spec(),
    }
}

/// After baking `layers` (the first `n` of them) at offset `(ox, oz)` and
/// floor `base`, map `now` relates so to map `was`.
pub open spec fn baked(was: MapDocument, now: MapDocument, layers: Seq<(i32, FloorMask)>, base: int, ox: int, oz: int) -> bool {
    &&& forall|level: i32| !lands_on(layers, base, level) ==> #[trigger] mask_of(now.floors@, level) == mask_of(was.floors@, level)
    &&& forall|level: i32|
        lands_on(layers, base, level) ==> {
            &&& #[trigger] mask_of(now.floors@, level) is Some
            &&& mask_of(now.floors@, level)->0.cells_x == level_dims(was, level).0
            &&& mask_of(now.floors@, level)->0.cells_z == level_dims(was, level).1
            &&& forall|x: int, z: int|
                #[trigger] mask_of(now.floors@, level)->0.floor_at(x, z) == (level_floor(was, level, x, z) || (0 <= x
                    < level_dims(was, level).0 && 0 <= z < level_dims(was, level).1 && layer_hit(layers, base, level, x, z, ox, oz)))
        }
}

/// One layer more: baking layer `k` onto level `level` extends `baked`.
proof fn lemma_bake_step(
    was: MapDocument,
    cur: MapDocument,
    now: MapDocument,
    layers: Seq<(i32, FloorMask)>,
    k: int,
    base: int,
    ox: int,
    oz: int,
    level: i32,
    m0: FloorMask,
    m: FloorMask,
)
    requires
        0 <= k < layers.len(),
        layers[k].0 + base == level,
        baked(was, cur, layers.subrange(0, k), base, ox, oz),
        mask_of(cur.floors@, level) is Some ==> m0@ == mask_of(cur.floors@, level)->0@,
        mask_of(cur.floors@, level) is None ==> is_filled(m0, was.cells_x_spec() as u32, was.cells_z_spec() as u32),
        was.cells_x_spec() <= u32::MAX,
        was.cells_z_spec() <= u32::MAX,
        stamped(m0, m, layers[k].1, ox, oz),
        forall|l: i32| #[trigger] mask_of(now.floors@, l) == if l == level { Some(m) } else { mask_of(cur.floors@, l) },
    ensures
        baked(was, now, layers.subrange(0, k + 1), base, ox, oz),
{
    let p = layers.subrange(0, k);
    let q = layers.subrange(0, k + 1);
    assert forall|l: i32| #[trigger] lands_on(q, base, l) == (lands_on(p, base, l) || l == level) by {
        if lands_on(q, base, l) {
            let j = choose|j: int| 0 <= j < q.len() && (#[trigger] q[j]).0 + base == l;
            if j < k {
                assert(p[j] == q[j]);
            }
        }
        if lands_on(p, base, l) {
            let j = choose|j: int| 0 <= j < p.len() && (#[trigger] p[j]).0 + base == l;
            assert(q[j] == p[j]);
        }
        if l == level {
            assert(q[k] == layers[k]);
        }
    }
    assert forall|l: i32, x: int, z: int| #[trigger] layer_hit(q, base, l, x, z, ox, oz) == (layer_hit(p, base, l, x, z, ox, oz)
        || (l == level && layers[k].1.floor_at(x - ox, z - oz))) by {
        if layer_hit(q, base, l, x, z, ox, oz) {
            let j = choose|j: int| 0 <= j < q.len() && (#[trigger] q[j]).0 + base == l && q[j].1.floor_at(x - ox, z - oz);
            if j < k {
                assert(p[j] == q[j]);
            }
        }
        if layer_hit(p, base, l, x, z, ox, oz) {
            let j = choose|j: int| 0 <= j < p.len() && (#[trigger] p[j]).0 + base == l && p[j].1.floor_at(x - ox, z - oz);
            assert(q[j] == p[j]);
        }
        if l == level && layers[k].1.floor_at(x - ox, z - oz) {
            assert(q[k] == layers[k]);
        }
    }
    assert forall|l: i32| !lands_on(q, base, l) implies #[trigger] mask_of(now.floors@, l) == mask_of(was.floors@, l) by {
        assert(!lands_on(p, base, l));
    }
    assert forall|l: i32| lands_on(q, base, l) implies {
        &&& #[trigger] mask_of(now.floors@, l) is Some
        &&& mask_of(now.floors@, l)->0.cells_x == level_dims(was, l).0
        &&& mask_of(now.floors@, l)->0.cells_z == level_dims(was, l).1
        &&& forall|x: int, z: int|
            #[trigger] mask_of(now.floors@, l)->0.floor_at(x, z) == (level_floor(was, l, x, z) || (0 <= x < level_dims(was, l).0
                && 0 <= z < level_dims(was, l).1 && layer_hit(q, base, l, x, z, ox, oz)))
    } by {
        if l != level {
            assert(lands_on(p, base, l));
            assert forall|x: int, z: int| #[trigger] mask_of(now.floors@, l)->0.floor_at(x, z) == (level_floor(was, l, x, z) || (0 <= x
                < level_dims(was, l).0 && 0 <= z < level_dims(was, l).1 && layer_hit(q, base, l, x, z, ox, oz))) by {
                assert(layer_hit(q, base, l, x, z, ox, oz) == layer_hit(p, base, l, x, z, ox, oz));
                assert(mask_of(cur.floors@, l)->0.floor_at(x, z) == (level_floor(was, l, x, z) || (0 <= x < level_dims(was, l).0
                    && 0 <= z < level_dims(was, l).1 && layer_hit(p, base, l, x, z, ox, oz))));
            }
        } else {
            if lands_on(p, base, l) {
                let c = mask_of(cur.floors@, l)->0;
                assert(m0.cells_x == c.cells_x && m0.cells_z == c.cells_z);
                assert forall|x: int, z: int| #[trigger] m.floor_at(x, z) == (level_floor(was, l, x, z) || (0 <= x
                    < level_dims(was, l).0 && 0 <= z < level_dims(was, l).1 && layer_hit(q, base, l, x, z, ox, oz))) by {
                    assert(m0.floor_at(x, z) == c.floor_at(x, z));
                    assert(c.floor_at(x, z) == (level_floor(was, l, x, z) || (0 <= x < level_dims(was, l).0 && 0 <= z
                        < level_dims(was, l).1 && layer_hit(p, base, l, x, z, ox, oz))));
                    assert(layer_hit(q, base, l, x, z, ox, oz) == (layer_hit(p, base, l, x, z, ox, oz) || layers[k].1.floor_at(
                        x - ox,
                        z - oz,
                    )));
                }
            } else {
                assert(mask_of(cur.floors@, l) == mask_of(was.floors@, l));
                if mask_of(cur.floors@, l) is Some {
                    let c = mask_of(cur.floors@, l)->0;
                    assert forall|x: int, z: int| #[trigger] m.floor_at(x, z) == (level_floor(was, l, x, z) || (0 <= x
                        < level_dims(was, l).0 && 0 <= z < level_dims(was, l).1 && layer_hit(q, base, l, x, z, ox, oz))) by {
                        assert(m0.floor_at(x, z) == c.floor_at(x, z));
                        assert(!layer_hit(p, base, l, x, z, ox, oz));
                        assert(layer_hit(q, base, l, x, z, ox, oz) == layers[k].1.floor_at(x - ox, z - oz));
                    }
                } else {
                    assert forall|x: int, z: int| #[trigger] m.floor_at(x, z) == (level_floor(was, l, x, z) || (0 <= x
                        < level_dims(was, l).0 && 0 <= z < level_dims(was, l).1 && layer_hit(q, base, l, x, z, ox, oz))) by {
                        assert(m0.floor_at(x, z) == (0 <= x < was.cells_x_spec() && 0 <= z < was.cells_z_spec()));
                        assert(!layer_hit(p, base, l, x, z, ox, oz));
                        assert(layer_hit(q, base, l, x, z, ox, oz) == layers[k].1.floor_at(x - ox, z - oz));
                    }
                }
            }
        }
    }
}

impl crate::editor::ActiveDocument {
    /// Stamp the module's floor cells onto the map, module cell `(0, 0)`
    /// landing on map cell `(ox, oz)` and module floor `f` on map floor
    /// `base_floor_level + f`. Stamping only adds floor; map levels without
    /// a mask start fully floored.
    pub fn bake_module_floor_on_map(map: &mut MapDocument, module: &ModuleDocument, ox: i64, oz: i64, base_floor_level: i32)
        requires
            old(map).wf(),
            module.wf(),
            offset_ok(ox),
            offset_ok(oz),
            module.extra_floor_masks@.len() < usize::MAX,
            forall|k: int|
                0 <= k < module_layers(*module).len() ==> i32::MIN <= (#[trigger] module_layers(*module)[k]).0 + base_floor_level
                    <= i32::MAX,
        ensures
            final(map).wf(),
            final(map).modules_x == old(map).modules_x,
            final(map).modules_z == old(map).modules_z,
            final(map).name == old(map).name,
            final(map).pieces == old(map).pieces,
            baked(*old(map), *final(map), module_layers(*module), base_floor_level as int, ox as int, oz as int),
    {
        let ghost was = *map;
        let ghost layers = module_layers(*module);
        let grid = map.grid();
        let n = module.extra_floor_masks.len() + 1;
        let mut k: usize = 0;
        proof {
            assert(layers.subrange(0, 0) =~= Seq::<(i32, FloorMask)>::empty());
        }
        while k < n
            invariant
                k <= n,
                n == layers.len(),
                layers == module_layers(*module),
                module.wf(),
                offset_ok(ox),
                offset_ok(oz),
                forall|j: int| 0 <= j < layers.len() ==> i32::MIN <= (#[trigger] layers[j]).0 + base_floor_level <= i32::MAX,
                map.wf(),
                was.wf(),
                grid.cells_x == was.cells_x_spec(),
                grid.cells_z == was.cells_z_spec(),
                grid.cells_x * grid.cells_z <= u32::MAX,
                map.modules_x == was.modules_x,
                map.modules_z == was.modules_z,
                map.name == was.name,
                map.pieces == was.pieces,
                baked(was, *map, layers.subrange(0, k as int), base_floor_level as int, ox as int, oz as int),
            decreases n - k,
        {
            let ml: i32 = if k == 0 { 0 } else { module.extra_floor_masks[k - 1].0 };
            proof {
                assert(layers[k as int].0 == ml);
            }
            let level: i32 = base_floor_level + ml;
            let ghost cur = *map;
            let idx = match find_level(&map.floors, level) {
                Some(i) => i,
                None => {
                    let filled = FloorMask::filled(grid.cells_x, grid.cells_z);
                    proof {
                        lemma_mask_of_push(map.floors@, level, filled);
                    }
                    map.floors.push((level, filled));
                    assert(is_filled(map.floors@[map.floors@.len() - 1].1, grid.cells_x, grid.cells_z));
                    map.floors.len() - 1
                },
            };
            assert(mask_of(cur.floors@, level) is None ==> is_filled(map.floors@[idx as int].1, grid.cells_x, grid.cells_z));
            assert(mask_of(cur.floors@, level) is Some ==> map.floors@ == cur.floors@);
            let ghost pushed = *map;
            proof {
                lemma_mask_of_at(map.floors@, idx as int);
            }
            let mut m = copy_mask(&map.floors[idx].1);
            let ghost m0 = m;
            assert(mask_of(cur.floors@, level) is None ==> is_filled(m0, grid.cells_x, grid.cells_z)) by {
                if mask_of(cur.floors@, level) is None {
                    let t = map.floors@[idx as int].1;
                    assert(m0@ == t@);
                    assert forall|ix: int, iz: int| 0 <= ix < grid.cells_x && 0 <= iz < grid.cells_z implies #[trigger] m0.floor_at(ix, iz) by {
                        assert(t.floor_at(ix, iz));
                    }
                }
            }
            if k == 0 {
                stamp(&mut m, &module.floor_mask, ox, oz);
            } else {
                stamp(&mut m, &module.extra_floor_masks[k - 1].1, ox, oz);
            }
            proof {
                lemma_mask_of_set(map.floors@, idx as int, m);
            }
            map.floors.set(idx, (level, m));
            proof {
                assert(layers[k as int].1 == if k == 0 { module.floor_mask } else { module.extra_floor_masks@[k - 1].1 });
                lemma_bake_step(was, cur, *map, layers, k as int, base_floor_level as int, ox as int, oz as int, level, m0, m);
            }
            k += 1;
        }
        proof {
            assert(layers.subrange(0, n as int) =~= layers);
        }
    }
}

/// A snapshot file: a name with a `json` extension (a stem before `.json`).
pub open spec fn is_json_file(name: Seq<char>) -> bool {
    name.len() > 5 && crate::text::seq_ends_with(name, ".json"@)
}

/// The newest snapshot among directory entries `(file name, modified time)`:
/// the first `.json` file with the latest time; `None` without one.
pub fn latest_snapshot(entries: &Vec<(String, u64)>) -> (r: Option<usize>)
    ensures
        r is None <==> forall|j: int| 0 <= j < entries@.len() ==> !is_json_file(#[trigger] entries@[j].0@),
        r matches Some(i) ==> {
            &&& i < entries@.len()
            &&& is_json_file(entries@[i as int].0@)
            &&& forall|j: int| 0 <= j < entries@.len() && is_json_file(#[trigger] entries@[j].0@) ==> entries@[j].1 <= entries@[i as int].1
            &&& forall|j: int| 0 <= j < i && is_json_file(#[trigger] entries@[j].0@) ==> entries@[j].1 < entries@[i as int].1
        },
{
    let mut best: Option<usize> = None;
    let mut j: usize = 0;
    while j < entries.len()
        invariant
            j <= entries@.len(),
            best is None ==> forall|t: int| 0 <= t < j ==> !is_json_file(#[trigger] entries@[t].0@),
            best matches Some(i) ==> {
                &&& i < j
                &&& is_json_file(entries@[i as int].0@)
                &&& forall|t: int| 0 <= t < j && is_json_file(#[trigger] entries@[t].0@) ==> entries@[t].1 <= entries@[i as int].1
                &&& forall|t: int| 0 <= t < i && is_json_file(#[trigger] entries@[t].0@) ==> entries@[t].1 < entries@[i as int].1
            },
        decreases entries@.len() - j,
    {
        let name = entries[j].0.as_str();
        proof {
            reveal_strlit(".json");
        }
        let json = name.unicode_len() > 5 && crate::text::ends_with(name, ".json");
        if json {
            match best {
                None => {
                    best = Some(j);
                },
                Some(b) => {
                    if entries[j].1 > entries[b].1 {
                        best = Some(j);
                    }
                },
            }
        }
        j += 1;
    }
    best
}

} // verus!
