//! The pre-generated map pool: its index, the start map, and which unused
//! maps get mounted under the hub exits.

use vstd::prelude::*;

use crate::catalog::in_list;
use crate::catalog::PieceRecord;
use crate::docs::{collect_floors, exit_from, hub_exits_from, last_mask, levels_unique, mask_of, BranchLevel, HubExit, HubExitRaw};
use crate::editor::FloorMask;
use crate::text::{concat, str_eq, views};

verus! {

/// The pool index, relative to the repository root.
pub const POOL_INDEX_PATH: &'static str = "userinput/maps/pool/index.json";

/// `path` under the repository rooted at `root`.
pub fn repo_relative(root: &str, path: &str) -> (r: String)
    ensures
        r@ == root@ + "/"@ + path@,
{
    let with_slash = concat(root, "/");
    let r = concat(with_slash.as_str(), path);
    assert(r@ =~= root@ + "/"@ + path@);
    r
}

/// Modules per side of a pool map that does not say.
pub fn default_modules() -> (r: u32)
    ensures
        r == 5,
{
    5
}

/// A point on the ground plane, in millimetres.
#[derive(Clone, Copy, Debug, PartialEq, Eq, Structural)]
pub struct PointXz {
    pub x_mm: i64,
    pub z_mm: i64,
}

/// One map of the pool; positions in millimetres.
#[derive(Clone, Debug)]
pub struct PoolMapEntry {
    pub id: String,
    /// File under `userinput/maps/`.
    pub path: String,
    pub spawn_mm: PointXz,
    pub extraction_mm: Option<PointXz>,
    pub modules_x: u32,
    pub modules_z: u32,
}

/// The pool index: its maps in file order and, optionally, the start map.
#[derive(Clone, Debug)]
pub struct PoolIndex {
    pub version: u32,
    pub modules: u32,
    pub start_id: Option<String>,
    pub maps: Vec<PoolMapEntry>,
}

/// `i` is the first map with id `id`.
pub open spec fn is_first_map(maps: Seq<PoolMapEntry>, id: Seq<char>, i: int) -> bool {
    &&& 0 <= i < maps.len()
    &&& maps[i].id@ == id
    &&& forall|j: int| 0 <= j < i ==> #[trigger] maps[j].id@ != id
}

/// The maps whose ids are not in `used`, in pool order.
pub open spec fn unused_spec(maps: Seq<PoolMapEntry>, used: Seq<Seq<char>>) -> Seq<PoolMapEntry>
    decreases maps.len(),
{
    if maps.len() == 0 {
        Seq::empty()
    } else {
        unused_spec(maps.drop_last(), used) + if used.contains(maps.last().id@) {
            Seq::empty()
        } else {
            seq![maps.last()]
        }
    }
}

impl PoolIndex {
    /// Id of the start map: the declared one, else the first map's.
    pub fn start_id(&self) -> (r: Option<&str>)
        ensures
            r matches Some(s) ==> match self.start_id {
                Some(d) => s@ == d@,
                None => self.maps@.len() > 0 && s@ == self.maps@[0].id@,
            },
            r is None <==> self.start_id is None && self.maps@.len() == 0,
    {
        match &self.start_id {
            Some(d) => Some(d.as_str()),
            None => {
                if self.maps.len() > 0 {
                    Some(self.maps[0].id.as_str())
                } else {
                    None
                }
            },
        }
    }

    /// The first map with id `id`.
    pub fn entry(&self, id: &str) -> (r: Option<&PoolMapEntry>)
        ensures
            r is None <==> forall|i: int| 0 <= i < self.maps@.len() ==> #[trigger] self.maps@[i].id@ != id@,
            r matches Some(e) ==> exists|i: int| #[trigger] is_first_map(self.maps@, id@, i) && *e == self.maps@[i],
    {
        let mut i: usize = 0;
        while i < self.maps.len()
            invariant
                i <= self.maps@.len(),
                forall|j: int| 0 <= j < i ==> #[trigger] self.maps@[j].id@ != id@,
            decreases self.maps@.len() - i,
        {
            if str_eq(self.maps[i].id.as_str(), id) {
                assert(is_first_map(self.maps@, id@, i as int));
                return Some(&self.maps[i]);
            }
            i += 1;
        }
        None
    }

    /// The maps not yet used, in pool order.
    pub fn unused(&self, used: &Vec<String>) -> (r: Vec<&PoolMapEntry>)
        ensures
            r@.map_values(|e: &PoolMapEntry| *e) == unused_spec(self.maps@, views(used@)),
    {
        let mut r: Vec<&PoolMapEntry> = Vec::new();
        let mut i: usize = 0;
        while i < self.maps.len()
            invariant
                i <= self.maps@.len(),
                r@.map_values(|e: &PoolMapEntry| *e) == unused_spec(self.maps@.subrange(0, i as int), views(used@)),
            decreases self.maps@.len() - i,
        {
            let ghost before = r@;
            let taken = in_list(self.maps[i].id.as_str(), used);
            if !taken {
                r.push(&self.maps[i]);
            }
            proof {
                let pre = self.maps@.subrange(0, i as int);
                let post = self.maps@.subrange(0, i as int + 1);
                assert(post.drop_last() =~= pre);
                assert(post.last() == self.maps@[i as int]);
                if taken {
                    assert(r@ == before);
                    assert(unused_spec(post, views(used@)) =~= unused_spec(pre, views(used@)));
                } else {
                    assert(r@.map_values(|e: &PoolMapEntry| *e) =~= before.map_values(|e: &PoolMapEntry| *e).push(
                        self.maps@[i as int],
                    ));
                    assert(unused_spec(post, views(used@)) =~= unused_spec(pre, views(used@)).push(self.maps@[i as int]));
                }
            }
            i += 1;
        }
        assert(self.maps@.subrange(0, self.maps@.len() as int) =~= self.maps@);
        r
    }
}

/// Hub exits that candidate maps are mounted under, in order of use.
pub open spec fn candidate_exit(i: int) -> u8 {
    if i == 0 { 3 } else if i == 1 { 4 } else { 2 }
}

/// The candidate maps for the hub: the first (up to three) maps of the pool
/// that are neither used nor the active map, paired with exits 3, 4 and 2
/// in that order.
pub fn hub_candidates<'a>(pool: &'a PoolIndex, used: &Vec<String>, active: &str) -> (r: Vec<(u8, &'a PoolMapEntry)>)
    ensures
        r@.len() == if unused_spec(pool.maps@, views(used@).push(active@)).len() < 3 {
            unused_spec(pool.maps@, views(used@).push(active@)).len()
        } else {
            3
        },
        forall|i: int| 0 <= i < r@.len() ==> (#[trigger] r@[i]).0 == candidate_exit(i) && *r@[i].1 == unused_spec(
            pool.maps@,
            views(used@).push(active@),
        )[i],
{
    let mut taken: Vec<String> = used.clone();
    let ghost used_view = views(used@);
    proof {
        assert(views(taken@) =~= used_view);
    }
    taken.push(active.to_owned());
    proof {
        assert(views(taken@) =~= used_view.push(active@));
    }
    let available = pool.unused(&taken);
    let ghost avail = unused_spec(pool.maps@, used_view.push(active@));
    let exits: [u8; 3] = [3, 4, 2];
    let pick_n: usize = if available.len() < 3 { available.len() } else { 3 };
    let mut r: Vec<(u8, &PoolMapEntry)> = Vec::new();
    let mut i: usize = 0;
    while i < pick_n
        invariant
            i <= pick_n,
            pick_n <= 3,
            pick_n <= available@.len(),
            available@.map_values(|e: &PoolMapEntry| *e) == avail,
            exits@ == seq![3u8, 4u8, 2u8],
            r@.len() == i,
            forall|j: int| 0 <= j < i ==> (#[trigger] r@[j]).0 == candidate_exit(j) && *r@[j].1 == avail[j],
        decreases pick_n - i,
    {
        let ghost before = r@;
        r.push((exits[i], available[i]));
        proof {
            assert(avail[i as int] == *available@[i as int]);
            assert forall|j: int| 0 <= j < i + 1 implies (#[trigger] r@[j]).0 == candidate_exit(j) && *r@[j].1 == avail[j] by {
                if j < i {
                    assert(r@[j] == before[j]);
                }
            }
        }
        i += 1;
    }
    r
}


/// A pool map file as read; each field is `None` when the file lacks it
/// (or gives it another type). Positions are millimetres.
pub struct PoolMapRaw {
    pub pool_id: Option<String>,
    pub grid_unit_mm: Option<i64>,
    pub modules_x: Option<u64>,
    pub modules_z: Option<u64>,
    /// The `floors` object's `(key, mask)` entries in file order.
    pub floors: Vec<(String, Option<FloorMask>)>,
    /// The piece array, `None` when it is missing or any piece in it is malformed.
    pub pieces: Option<Vec<PieceRecord>>,
    pub spawn_mm: Option<PointXz>,
    pub spawn_y_mm: Option<i64>,
    pub extraction_mm: Option<PointXz>,
    pub hub_model: Option<String>,
    /// The branch table, `None` when missing or malformed.
    pub branch_levels: Option<Vec<(String, BranchLevel)>>,
    /// The exit table, `None` when missing or malformed.
    pub hub_exits: Option<Vec<(String, HubExitRaw)>>,
}

/// A loaded pool map: its id and layout.
pub struct PoolMapDocument {
    pub pool_id: String,
    pub grid_unit_mm: i64,
    pub modules_x: u32,
    pub modules_z: u32,
    pub floors: Vec<(i32, FloorMask)>,
    pub pieces: Vec<PieceRecord>,
    pub spawn_mm: Option<PointXz>,
    pub spawn_y_mm: Option<i64>,
    pub extraction_mm: Option<PointXz>,
    pub hub_model: Option<String>,
    pub branch_levels: Vec<(String, BranchLevel)>,
    pub hub_exits: Vec<(String, HubExit)>,
}

impl PoolMapDocument {
    /// The pool map that `raw` (the file of `entry`) describes; what the
    /// file lacks comes from the entry: the id, the module counts (numbers
    /// taken to 32 bits), the spawn and the extraction. The grid unit is
    /// 4 m unless given; floors come from the file's entries (see
    /// `collect_floors`); a malformed piece array gives no pieces; branch
    /// levels and hub exits are copied (an exit's kind defaults to `drop`).
    pub fn from_parsed(entry: &PoolMapEntry, raw: PoolMapRaw) -> (r: PoolMapDocument)
        ensures
            r.pool_id@ == match raw.pool_id {
                Some(p) => p@,
                None => entry.id@,
            },
            r.grid_unit_mm == match raw.grid_unit_mm {
                Some(g) => g,
                None => 4000,
            },
            r.modules_x == match raw.modules_x {
                Some(v) => v as u32,
                None => entry.modules_x,
            },
            r.modules_z == match raw.modules_z {
                Some(v) => v as u32,
                None => entry.modules_z,
            },
            levels_unique(r.floors@),
            forall|level: i32| #[trigger] mask_of(r.floors@, level) == last_mask(raw.floors@, level),
            r.pieces@ == match raw.pieces {
                Some(v) => v@,
                None => Seq::empty(),
            },
            r.spawn_mm == match raw.spawn_mm {
                Some(p) => Some(p),
                None => Some(entry.spawn_mm),
            },
            r.spawn_y_mm == raw.spawn_y_mm,
            r.extraction_mm == match raw.extraction_mm {
                Some(p) => Some(p),
                None => entry.extraction_mm,
            },
            r.hub_model == raw.hub_model,
            r.branch_levels@ == match raw.branch_levels {
                Some(v) => v@,
                None => Seq::empty(),
            },
            r.hub_exits@.len() == match raw.hub_exits {
                Some(v) => v@.len(),
                None => 0,
            },
            raw.hub_exits matches Some(v) ==> forall|i: int| 0 <= i < v@.len() ==> (#[trigger] r.hub_exits@[i]).0 == v@[i].0
                && exit_from(v@[i].1, r.hub_exits@[i].1),
    {
        let PoolMapRaw {
            pool_id,
            grid_unit_mm,
            modules_x,
            modules_z,
            floors,
            pieces,
            spawn_mm,
            spawn_y_mm,
            extraction_mm,
            hub_model,
            branch_levels,
            hub_exits,
        } = raw;
        PoolMapDocument {
            pool_id: match pool_id {
                Some(p) => p,
                None => entry.id.as_str().to_owned(),
            },
            grid_unit_mm: match grid_unit_mm {
                Some(g) => g,
                None => 4000,
            },
            modules_x: match modules_x {
                Some(v) => #[verifier::truncate] (v as u32),
                None => entry.modules_x,
            },
            modules_z: match modules_z {
                Some(v) => #[verifier::truncate] (v as u32),
                None => entry.modules_z,
            },
            floors: collect_floors(floors),
            pieces: match pieces {
                Some(v) => v,
                None => Vec::new(),
            },
            spawn_mm: match spawn_mm {
                Some(p) => Some(p),
                None => Some(entry.spawn_mm),
            },
            spawn_y_mm,
            extraction_mm: match extraction_mm {
                Some(p) => Some(p),
                None => entry.extraction_mm,
            },
            hub_model,
            branch_levels: match branch_levels {
                Some(v) => v,
                None => Vec::new(),
            },
            hub_exits: hub_exits_from(hub_exits),
        }
    }
}

} // verus!
