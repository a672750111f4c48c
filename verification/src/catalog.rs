//! The editor's GLB picker: filter groups over the Kenney catalogue and the
//! misc models, asset paths, pool cycling and name suggestions, and the synth
//! dressing kit's stem categories.

use vstd::prelude::*;

use crate::kenney::{KenneyCatalog, KenneyPiece, has_piece};
use crate::text::{
    concat, decimal, ends_with, push_decimal, seq_ends_with, seq_starts_with, sort_strings,
    sorted_seqs, starts_with, str_eq, views,
};
use vstd::string::StrSliceExecFns;

verus! {

/// Picker filter groups: six Kenney categories, the rest of Kenney, other GLBs.
#[derive(Clone, Copy, Debug, PartialEq, Eq, Structural, Hash)]
pub enum FilterGroup {
    KenneyRooms,
    KenneyCorridors,
    KenneyWalls,
    KenneyFloors,
    KenneyDoors,
    KenneyStairs,
    KenneyMisc,
    OtherMisc,
}

impl FilterGroup {
    /// Sidebar caption of the group.
    pub fn label(self) -> (r: &'static str)
        ensures
            r@ == filter_label(self),
    {
        match self {
            FilterGroup::KenneyRooms => "Rooms",
            FilterGroup::KenneyCorridors => "Corridors",
            FilterGroup::KenneyWalls => "Walls",
            FilterGroup::KenneyFloors => "Floors",
            FilterGroup::KenneyDoors => "Doors/Gates",
            FilterGroup::KenneyStairs => "Stairs",
            FilterGroup::KenneyMisc => "Kenney misc",
            FilterGroup::OtherMisc => "Other GLBs",
        }
    }
}

pub open spec fn filter_label(g: FilterGroup) -> Seq<char> {
    match g {
        FilterGroup::KenneyRooms => "Rooms"@,
        FilterGroup::KenneyCorridors => "Corridors"@,
        FilterGroup::KenneyWalls => "Walls"@,
        FilterGroup::KenneyFloors => "Floors"@,
        FilterGroup::KenneyDoors => "Doors/Gates"@,
        FilterGroup::KenneyStairs => "Stairs"@,
        FilterGroup::KenneyMisc => "Kenney misc"@,
        FilterGroup::OtherMisc => "Other GLBs"@,
    }
}

/// Slot of a group in `PieceFilters::enabled`.
pub open spec fn group_slot(g: FilterGroup) -> int {
    match g {
        FilterGroup::KenneyRooms => 0,
        FilterGroup::KenneyCorridors => 1,
        FilterGroup::KenneyWalls => 2,
        FilterGroup::KenneyFloors => 3,
        FilterGroup::KenneyDoors => 4,
        FilterGroup::KenneyStairs => 5,
        FilterGroup::KenneyMisc => 6,
        FilterGroup::OtherMisc => 7,
    }
}

fn group_index(g: FilterGroup) -> (r: usize)
    ensures
        r == group_slot(g),
        r < 8,
{
    match g {
        FilterGroup::KenneyRooms => 0,
        FilterGroup::KenneyCorridors => 1,
        FilterGroup::KenneyWalls => 2,
        FilterGroup::KenneyFloors => 3,
        FilterGroup::KenneyDoors => 4,
        FilterGroup::KenneyStairs => 5,
        FilterGroup::KenneyMisc => 6,
        FilterGroup::OtherMisc => 7,
    }
}

/// Which groups the picker shows.
#[derive(Clone, Debug)]
pub struct PieceFilters {
    pub enabled: [bool; 8],
}

impl Default for PieceFilters {
    /// Every group shown.
    fn default() -> (r: Self)
        ensures
            forall|i: int| 0 <= i < 8 ==> r.enabled[i],
    {
        PieceFilters { enabled: [true; 8] }
    }
}

impl PieceFilters {
    /// The group is shown.
    pub open spec fn shows(&self, group: FilterGroup) -> bool {
        self.enabled[group_slot(group)]
    }

    /// Show or hide one group.
    pub fn set(&mut self, group: FilterGroup, on: bool)
        ensures
            final(self).shows(group) == on,
            forall|g: FilterGroup| g != group ==> #[trigger] final(self).shows(g) == old(self).shows(g),
    {
        let i = group_index(group);
        self.enabled[i] = on;
    }

    /// The group is shown.
    pub fn get(&self, group: FilterGroup) -> (r: bool)
        ensures
            r == self.shows(group),
    {
        self.enabled[group_index(group)]
    }

    /// Show or hide every group.
    pub fn set_all(&mut self, on: bool)
        ensures
            forall|g: FilterGroup| #[trigger] final(self).shows(g) == on,
    {
        self.enabled = [on; 8];
    }

    /// Flip one group.
    pub fn toggle(&mut self, group: FilterGroup)
        ensures
            final(self).shows(group) == !old(self).shows(group),
            forall|g: FilterGroup| g != group ==> #[trigger] final(self).shows(g) == old(self).shows(g),
    {
        let i = group_index(group);
        self.enabled[i] = !self.enabled[i];
    }
}

/// Toggling the same group twice restores every group.
pub proof fn law_toggle_twice(f0: PieceFilters, f1: PieceFilters, f2: PieceFilters, group: FilterGroup)
    requires
        f1.shows(group) == !f0.shows(group),
        forall|g: FilterGroup| g != group ==> #[trigger] f1.shows(g) == f0.shows(g),
        f2.shows(group) == !f1.shows(group),
        forall|g: FilterGroup| g != group ==> #[trigger] f2.shows(g) == f1.shows(g),
    ensures
        forall|g: FilterGroup| #[trigger] f2.shows(g) == f0.shows(g),
{
    assert forall|g: FilterGroup| #[trigger] f2.shows(g) == f0.shows(g) by {
        if g != group {
            assert(f2.shows(g) == f1.shows(g));
        }
    }
}

/// Filter group of a Kenney category.
pub open spec fn classify_spec(category: Seq<char>) -> FilterGroup {
    if category == "room"@ {
        FilterGroup::KenneyRooms
    } else if category == "corridor"@ || category == "corridor_wide"@ {
        FilterGroup::KenneyCorridors
    } else if category == "template_wall"@ {
        FilterGroup::KenneyWalls
    } else if category == "template_floor"@ {
        FilterGroup::KenneyFloors
    } else if category == "gate"@ {
        FilterGroup::KenneyDoors
    } else if category == "stairs"@ {
        FilterGroup::KenneyStairs
    } else {
        FilterGroup::KenneyMisc
    }
}

/// The catalogue category each Kenney group is named for (none for the
/// catch-all groups).
pub open spec fn group_category(g: FilterGroup) -> Seq<char> {
    match g {
        FilterGroup::KenneyRooms => "room"@,
        FilterGroup::KenneyCorridors => "corridor"@,
        FilterGroup::KenneyWalls => "template_wall"@,
        FilterGroup::KenneyFloors => "template_floor"@,
        FilterGroup::KenneyDoors => "gate"@,
        FilterGroup::KenneyStairs => "stairs"@,
        _ => ""@,
    }
}

/// Each Kenney group holds its own category: the category a group is named
/// for classifies into that group (so a filter on one group shows that
/// category's pieces), wide corridors join the corridors, and no category
/// lands in the non-Kenney group.
pub proof fn law_classify_by_category(g: FilterGroup, category: Seq<char>)
    ensures
        g != FilterGroup::KenneyMisc && g != FilterGroup::OtherMisc ==> classify_spec(group_category(g)) == g,
        classify_spec("corridor_wide"@) == FilterGroup::KenneyCorridors,
        classify_spec(category) != FilterGroup::OtherMisc,
        classify_spec(category) != FilterGroup::KenneyMisc ==> category == group_category(classify_spec(category))
            || category == "corridor_wide"@,
{
    reveal_strlit("room");
    reveal_strlit("corridor");
    reveal_strlit("corridor_wide");
    reveal_strlit("template_wall");
    reveal_strlit("template_floor");
    reveal_strlit("gate");
    reveal_strlit("stairs");
    reveal_strlit("");
    assert("room"@.len() == 4 && "gate"@.len() == 4 && "stairs"@.len() == 6 && "corridor"@.len() == 8);
    assert("corridor_wide"@.len() == 13 && "template_wall"@.len() == 13 && "template_floor"@.len() == 14);
    assert("room"@[0] != "gate"@[0]);
    assert("corridor_wide"@[0] != "template_wall"@[0]);
}

/// Filter group of a Kenney catalogue category.
pub fn classify_kenney(category: &str) -> (r: FilterGroup)
    ensures
        r == classify_spec(category@),
{
    if str_eq(category, "room") {
        FilterGroup::KenneyRooms
    } else if str_eq(category, "corridor") || str_eq(category, "corridor_wide") {
        FilterGroup::KenneyCorridors
    } else if str_eq(category, "template_wall") {
        FilterGroup::KenneyWalls
    } else if str_eq(category, "template_floor") {
        FilterGroup::KenneyFloors
    } else if str_eq(category, "gate") {
        FilterGroup::KenneyDoors
    } else if str_eq(category, "stairs") {
        FilterGroup::KenneyStairs
    } else {
        FilterGroup::KenneyMisc
    }
}

/// Stems of the catalogue pieces whose group the filters show, in catalogue order.
pub open spec fn kenney_shown(pieces: Seq<KenneyPiece>, filters: PieceFilters) -> Seq<Seq<char>>
    decreases pieces.len(),
{
    if pieces.len() == 0 {
        Seq::empty()
    } else {
        let prev = kenney_shown(pieces.drop_last(), filters);
        if filters.shows(classify_spec(pieces.last().category@)) {
            prev.push(pieces.last().stem@)
        } else {
            prev
        }
    }
}

/// `acc` extended by each of `more` that it does not hold yet, in order.
pub open spec fn add_missing(acc: Seq<Seq<char>>, more: Seq<Seq<char>>) -> Seq<Seq<char>>
    decreases more.len(),
{
    if more.len() == 0 {
        acc
    } else {
        let next = if acc.contains(more[0]) {
            acc
        } else {
            acc.push(more[0])
        };
        add_missing(next, more.drop_first())
    }
}

/// The filtered Kenney list holds exactly the stems of the pieces whose
/// category's group is switched on.
pub proof fn law_kenney_shown(pieces: Seq<KenneyPiece>, filters: PieceFilters, stem: Seq<char>)
    ensures
        kenney_shown(pieces, filters).contains(stem) <==> exists|i: int|
            0 <= i < pieces.len() && (#[trigger] pieces[i]).stem@ == stem && filters.shows(classify_spec(pieces[i].category@)),
    decreases pieces.len(),
{
    if pieces.len() > 0 {
        let t = pieces.drop_last();
        law_kenney_shown(t, filters, stem);
        let last = pieces.len() - 1;
        if kenney_shown(pieces, filters).contains(stem) {
            let prev = kenney_shown(t, filters);
            if prev.contains(stem) {
                let i = choose|i: int| 0 <= i < t.len() && (#[trigger] t[i]).stem@ == stem && filters.shows(classify_spec(t[i].category@));
                assert(pieces[i] == t[i]);
            } else {
                let k = choose|k: int| 0 <= k < kenney_shown(pieces, filters).len() && kenney_shown(pieces, filters)[k] == stem;
                assert(k == prev.len());
                assert(pieces[last].stem@ == stem);
            }
        }
        if exists|i: int| 0 <= i < pieces.len() && (#[trigger] pieces[i]).stem@ == stem && filters.shows(classify_spec(pieces[i].category@)) {
            let i = choose|i: int| 0 <= i < pieces.len() && (#[trigger] pieces[i]).stem@ == stem && filters.shows(classify_spec(pieces[i].category@));
            if i < t.len() {
                assert(t[i] == pieces[i]);
                let prev = kenney_shown(t, filters);
                let k = choose|k: int| 0 <= k < prev.len() && prev[k] == stem;
                assert(kenney_shown(pieces, filters).contains(stem)) by {
                    if filters.shows(classify_spec(pieces.last().category@)) {
                        assert(prev.push(pieces.last().stem@)[k] == stem);
                    }
                }
            } else {
                assert(i == last);
                let prev = kenney_shown(t, filters);
                assert(prev.push(stem)[prev.len() as int] == stem);
            }
        }
    }
}

/// Every stem the picker offers, before sorting: the shown Kenney stems, then
/// the misc stems not already among them when other GLBs are shown.
pub open spec fn picker_stems(pieces: Seq<KenneyPiece>, misc: Seq<Seq<char>>, filters: PieceFilters) -> Seq<Seq<char>> {
    let k = kenney_shown(pieces, filters);
    if filters.shows(FilterGroup::OtherMisc) {
        add_missing(k, misc)
    } else {
        k
    }
}

/// `s` is one of `list`.
pub fn in_list(s: &str, list: &Vec<String>) -> (r: bool)
    ensures
        r == views(list@).contains(s@),
{
    let mut i: usize = 0;
    while i < list.len()
        invariant
            i <= list@.len(),
            forall|j: int| 0 <= j < i ==> #[trigger] list@[j]@ != s@,
        decreases list@.len() - i,
    {
        if str_eq(list[i].as_str(), s) {
            assert(views(list@)[i as int] == s@);
            return true;
        }
        i = i + 1;
    }
    assert forall|j: int| 0 <= j < views(list@).len() implies views(list@)[j] != s@ by {
        assert(list@[j]@ != s@);
    }
    false
}

/// All placeable stems after applying the filters, sorted. `misc` are the
/// non-Kenney GLB stems found on disk.
pub fn filtered_stems(catalog: &KenneyCatalog, misc: &Vec<String>, filters: &PieceFilters) -> (r: Vec<String>)
    ensures
        sorted_seqs(views(r@)),
        views(r@).to_multiset() == picker_stems(catalog.pieces@, views(misc@), *filters).to_multiset(),
{
    let mut out: Vec<String> = Vec::new();
    let n = catalog.pieces.len();
    let mut i: usize = 0;
    while i < n
        invariant
            n == catalog.pieces@.len(),
            i <= n,
            views(out@) == kenney_shown(catalog.pieces@.take(i as int), *filters),
        decreases n - i,
    {
        proof {
            assert(catalog.pieces@.take(i + 1).drop_last() =~= catalog.pieces@.take(i as int));
        }
        let group = classify_kenney(catalog.pieces[i].category.as_str());
        if filters.get(group) {
            out.push(catalog.pieces[i].stem.clone());
            proof {
                assert(views(out@) =~= kenney_shown(catalog.pieces@.take(i as int), *filters).push(
                    catalog.pieces@[i as int].stem@,
                ));
            }
        }
        i = i + 1;
    }
    proof {
        assert(catalog.pieces@.take(n as int) =~= catalog.pieces@);
    }
    if filters.get(FilterGroup::OtherMisc) {
        let ghost k = views(out@);
        let m = misc.len();
        let mut j: usize = 0;
        proof {
            assert(views(misc@).skip(0) =~= views(misc@));
        }
        while j < m
            invariant
                m == misc@.len(),
                j <= m,
                add_missing(views(out@), views(misc@).skip(j as int)) == add_missing(k, views(misc@)),
            decreases m - j,
        {
            let ghost rest = views(misc@).skip(j as int);
            proof {
                assert(rest[0] == misc@[j as int]@);
                assert(rest.drop_first() =~= views(misc@).skip(j + 1));
            }
            let ghost before = out@;
            if !in_list(misc[j].as_str(), &out) {
                out.push(misc[j].clone());
                proof {
                    assert(views(out@) =~= views(before).push(misc@[j as int]@));
                }
            }
            j = j + 1;
        }
        proof {
            assert(views(misc@).skip(m as int) =~= Seq::<Seq<char>>::empty());
        }
    }
    sort_strings(&out)
}

/// Kenney pieces of the default kit live under `models/space/`.
pub open spec fn asset_path_spec(pieces: Seq<KenneyPiece>, stem: Seq<char>, kit: Seq<char>) -> Seq<char> {
    if kit == "space"@ && has_piece(pieces, stem) {
        "models/space/"@ + stem + ".glb"@
    } else {
        "models/"@ + kit + "/"@ + stem + ".glb"@
    }
}

/// Asset path of a stem in a Kenney kit folder.
pub fn glb_asset_path_in_kit(catalog: &KenneyCatalog, stem: &str, kit: &str) -> (r: String)
    ensures
        r@ == asset_path_spec(catalog.pieces@, stem@, kit@),
{
    if str_eq(kit, "space") && catalog.piece(stem).is_some() {
        let a = concat("models/space/", stem);
        let r = concat(a.as_str(), ".glb");
        r
    } else {
        let a = concat("models/", kit);
        let b = concat(a.as_str(), "/");
        let c = concat(b.as_str(), stem);
        let r = concat(c.as_str(), ".glb");
        proof {
            assert(r@ =~= "models/"@ + kit@ + "/"@ + stem@ + ".glb"@);
        }
        r
    }
}

/// Asset path of a stem in the default `space` kit.
pub fn glb_asset_path(catalog: &KenneyCatalog, stem: &str) -> (r: String)
    ensures
        r@ == asset_path_spec(catalog.pieces@, stem@, "space"@),
{
    glb_asset_path_in_kit(catalog, stem, "space")
}

/// A placed piece as the editor saves it. Positions are millimetres, the
/// yaw microradians, scale and tint thousandths.
#[derive(Clone, Debug)]
pub struct PieceRecord {
    pub stem: String,
    pub x_mm: i64,
    pub z_mm: i64,
    pub yaw_urad: i64,
    pub floor_level: i32,
    /// Scale in thousandths (1000 = natural size).
    pub scale_milli: i64,
    /// sRGB tint multiplier in thousandths, per channel.
    pub tint_milli: Option<[i64; 3]>,
    pub group_id: Option<u32>,
    pub ceiling: bool,
    pub underside: bool,
    /// Kit folder under `assets/models/` (`space` when absent).
    pub kit: Option<String>,
    pub tags: Vec<String>,
    pub zone: Option<String>,
}

/// Kit folder of the synth dressing pieces.
pub const SYNTH_KIT: &'static str = "factions/synth";

/// Scale of synth dressing pieces, in thousandths.
pub const SYNTH_DRESSING_SCALE_MILLI: i64 = 4000;

/// Backfill a dressing piece from a legacy save: the synth kit when it
/// names none, the dressing scale when its scale is below 0.01; all else
/// stays.
pub fn normalize_synth_dressing_piece(p: &mut PieceRecord)
    ensures
        old(p).kit is Some ==> final(p).kit == old(p).kit,
        old(p).kit is None ==> final(p).kit is Some && final(p).kit->0@ == "factions/synth"@,
        final(p).scale_milli == if old(p).scale_milli < 10 { SYNTH_DRESSING_SCALE_MILLI } else { old(p).scale_milli },
        final(p).stem == old(p).stem && final(p).x_mm == old(p).x_mm && final(p).z_mm == old(p).z_mm,
        final(p).yaw_urad == old(p).yaw_urad && final(p).floor_level == old(p).floor_level,
        final(p).tint_milli == old(p).tint_milli && final(p).group_id == old(p).group_id,
        final(p).ceiling == old(p).ceiling && final(p).underside == old(p).underside,
        final(p).tags == old(p).tags && final(p).zone == old(p).zone,
{
    if p.kit.is_none() {
        proof {
            reveal_strlit("factions/synth");
        }
        p.kit = Some(SYNTH_KIT.to_owned());
    }
    if p.scale_milli < 10 {
        p.scale_milli = SYNTH_DRESSING_SCALE_MILLI;
    }
}

/// Asset path of a placed piece, in its own kit or the default one.
pub fn glb_asset_path_for_piece(catalog: &KenneyCatalog, p: &PieceRecord) -> (r: String)
    ensures
        r@ == asset_path_spec(
            catalog.pieces@,
            p.stem@,
            match p.kit {
                Some(k) => k@,
                None => "space"@,
            },
        ),
{
    match &p.kit {
        Some(k) => glb_asset_path_in_kit(catalog, p.stem.as_str(), k.as_str()),
        None => glb_asset_path_in_kit(catalog, p.stem.as_str(), "space"),
    }
}

/// The pools that carry a gallery index: `pools[i]` where `indexed[i]`, in order.
pub open spec fn gallery_pools_spec(pools: Seq<Seq<char>>, indexed: Seq<bool>) -> Seq<Seq<char>>
    decreases pools.len(),
{
    if pools.len() == 0 {
        Seq::empty()
    } else {
        let prev = gallery_pools_spec(pools.drop_last(), indexed);
        if indexed[pools.len() - 1] {
            prev.push(pools.last())
        } else {
            prev
        }
    }
}

/// Pools with a generated gallery index (`indexed[i]` tells whether
/// `pools[i]` has one on disk).
pub fn list_gallery_pools(pools: &Vec<String>, indexed: &Vec<bool>) -> (r: Vec<String>)
    requires
        indexed@.len() == pools@.len(),
    ensures
        views(r@) == gallery_pools_spec(views(pools@), indexed@),
{
    let mut out: Vec<String> = Vec::new();
    let mut i: usize = 0;
    while i < pools.len()
        invariant
            indexed@.len() == pools@.len(),
            i <= pools@.len(),
            views(out@) == gallery_pools_spec(views(pools@.take(i as int)), indexed@),
        decreases pools@.len() - i,
    {
        proof {
            assert(views(pools@.take(i + 1)).drop_last() =~= views(pools@.take(i as int)));
        }
        if indexed[i] {
            out.push(pools[i].clone());
            proof {
                assert(views(out@) =~= gallery_pools_spec(views(pools@.take(i as int)), indexed@).push(
                    pools@[i as int]@,
                ));
            }
        }
        i = i + 1;
    }
    proof {
        assert(pools@.take(pools@.len() as int) =~= pools@);
    }
    out
}


/// Index of the first pool named `current`, or 0 when none is.
pub open spec fn pool_position(pools: Seq<Seq<char>>, current: Seq<char>) -> int {
    if exists|i: int| 0 <= i < pools.len() && pools[i] == current && (forall|j: int| 0 <= j < i ==> #[trigger] pools[j] != current) {
        choose|i: int| 0 <= i < pools.len() && pools[i] == current && (forall|j: int| 0 <= j < i ==> #[trigger] pools[j] != current)
    } else {
        0
    }
}

/// The pool after `current` in `pools`, wrapping around; the second pool
/// when `current` is not listed.
pub fn cycle_pool(pools: &Vec<String>, current: &str) -> (r: String)
    requires
        pools@.len() > 0,
    ensures
        r@ == views(pools@)[(pool_position(views(pools@), current@) + 1) % (pools@.len() as int)],
{
    let ghost pv = views(pools@);
    let n = pools.len();
    let mut i: usize = 0;
    while i < n
        invariant
            n == pools@.len(),
            pv == views(pools@),
            i <= n,
            forall|j: int| 0 <= j < i ==> #[trigger] pv[j] != current@,
        decreases n - i,
    {
        if str_eq(pools[i].as_str(), current) {
            proof {
                let p = i as int;
                assert(0 <= p < pv.len() && pv[p] == current@ && (forall|j: int| 0 <= j < p ==> #[trigger] pv[j] != current@));
                let c = choose|c: int| 0 <= c < pv.len() && pv[c] == current@ && (forall|j: int| 0 <= j < c ==> #[trigger] pv[j] != current@);
                if c < p {
                    assert(pv[c] != current@);
                } else if p < c {
                    assert(pv[p] != current@);
                }
            }
            return pools[(i + 1) % n].clone();
        }
        i = i + 1;
    }
    proof {
        assert(!exists|c: int| 0 <= c < pv.len() && pv[c] == current@ && (forall|j: int| 0 <= j < c ==> #[trigger] pv[j] != current@));
    }
    pools[1 % n].clone()
}

/// `r` is the first candidate in `lo..hi` missing from `taken`, or
/// `fallback` when all of them are taken.
pub open spec fn first_free(r: Seq<char>, taken: Seq<Seq<char>>, cand: spec_fn(int) -> Seq<char>, lo: int, hi: int, fallback: Seq<char>) -> bool {
    ||| exists|k: int| #![trigger cand(k)] lo <= k < hi && r == cand(k) && !taken.contains(cand(k)) && (forall|j: int| lo <= j < k ==> taken.contains(#[trigger] cand(j)))
    ||| (forall|j: int| lo <= j < hi ==> taken.contains(#[trigger] cand(j))) && r == fallback
}

/// `module_01`, `module_02`, ... (two digits at least).
pub open spec fn module_candidate(i: int) -> Seq<char> {
    if i < 10 {
        "module_0"@ + decimal(i as nat)
    } else {
        "module_"@ + decimal(i as nat)
    }
}

/// The first free `module_NN` name among `existing` (`NN` from 01 to 9998),
/// or `module_new`.
pub fn suggest_module_name(existing: &Vec<String>) -> (r: String)
    ensures
        first_free(r@, views(existing@), |i: int| module_candidate(i), 1, 9999, "module_new"@),
{
    let ghost cand = |i: int| module_candidate(i);
    let mut i: u64 = 1;
    while i < 9999
        invariant
            1 <= i <= 9999,
            cand == (|i: int| module_candidate(i)),
            forall|j: int| 1 <= j < i ==> views(existing@).contains(#[trigger] cand(j)),
        decreases 9999 - i,
    {
        let mut name = if i < 10 {
            "module_0".to_owned()
        } else {
            "module_".to_owned()
        };
        push_decimal(&mut name, i);
        assert(name@ == cand(i as int));
        if !in_list(name.as_str(), existing) {
            return name;
        }
        i = i + 1;
    }
    "module_new".to_owned()
}

/// Sidebar filter of the dressing piece list.
#[derive(Clone, Copy, Debug, PartialEq, Eq, Structural)]
pub enum DressingCatFilter {
    All,
    Structure,
    WallSwap,
    WallDecal,
    FloorProp,
    Balcony,
}

impl DressingCatFilter {
    /// Sidebar caption.
    pub fn label(self) -> (r: &'static str)
        ensures
            r@ == dressing_label(self),
    {
        match self {
            DressingCatFilter::All => "All",
            DressingCatFilter::Structure => "Structure",
            DressingCatFilter::WallSwap => "Walls",
            DressingCatFilter::WallDecal => "Decals",
            DressingCatFilter::FloorProp => "Furniture",
            DressingCatFilter::Balcony => "Balcony",
        }
    }
}

impl Default for DressingCatFilter {
    fn default() -> (r: Self)
        ensures
            r == DressingCatFilter::All,
    {
        DressingCatFilter::All
    }
}

pub open spec fn dressing_label(c: DressingCatFilter) -> Seq<char> {
    match c {
        DressingCatFilter::All => "All"@,
        DressingCatFilter::Structure => "Structure"@,
        DressingCatFilter::WallSwap => "Walls"@,
        DressingCatFilter::WallDecal => "Decals"@,
        DressingCatFilter::FloorProp => "Furniture"@,
        DressingCatFilter::Balcony => "Balcony"@,
    }
}

/// Floor blocks and straight or door walls.
pub open spec fn structure_stems() -> Seq<Seq<char>> {
    seq![
        "floor"@, "floor-corner"@, "floor-detail"@, "floor-panel"@, "floor-panel-corner"@,
        "floor-panel-end"@, "floor-panel-straight"@, "wall"@, "wall-corner"@, "wall-corner-round"@,
        "wall-door"@, "wall-door-banner"@, "wall-door-center"@, "wall-door-edge"@,
        "wall-door-edge-banner"@, "wall-door-wide"@, "wall-door-wide-banner"@,
    ]
}

/// Walls that swap in for a plain wall.
pub open spec fn wall_swap_stems() -> Seq<Seq<char>> {
    seq![
        "wall-banner"@, "wall-pillar"@, "wall-pillar-banner"@, "wall-corner-banner"@,
        "wall-corner-round-banner"@, "wall-window"@, "wall-window-banner"@, "wall-window-frame"@,
        "wall-window-shutters"@,
    ]
}

/// Decals mounted on a wall face.
pub open spec fn wall_decal_stems() -> Seq<Seq<char>> {
    seq!["display-wall"@, "display-wall-wide"@, "wall-detail"@, "wall-switch"@]
}

/// Furniture standing on the deck.
pub open spec fn floor_prop_stems() -> Seq<Seq<char>> {
    seq![
        "bed-single"@, "bed-single-cover"@, "bed-double"@, "bed-double-cover"@, "chair"@,
        "chair-armrest"@, "chair-armrest-headrest"@, "chair-cushion"@, "chair-cushion-headrest"@,
        "chair-headrest"@, "computer"@, "computer-screen"@, "computer-system"@, "computer-wide"@,
        "container"@, "container-flat"@, "container-flat-open"@, "container-tall"@,
        "container-wide"@, "table"@, "table-display"@, "table-display-planet"@,
        "table-display-small"@, "table-inset"@, "table-inset-small"@, "table-large"@,
    ]
}

/// Balcony decks and rails.
pub open spec fn balcony_stems() -> Seq<Seq<char>> {
    seq![
        "balcony-floor"@, "balcony-floor-center"@, "balcony-floor-corner"@, "balcony-rail"@,
        "balcony-rail-center"@, "balcony-rail-corner"@, "rail"@, "rail-narrow"@,
    ]
}

/// Stems of one dressing category (none for `All`).
pub open spec fn category_stems(c: DressingCatFilter) -> Seq<Seq<char>> {
    match c {
        DressingCatFilter::All => Seq::empty(),
        DressingCatFilter::Structure => structure_stems(),
        DressingCatFilter::WallSwap => wall_swap_stems(),
        DressingCatFilter::WallDecal => wall_decal_stems(),
        DressingCatFilter::FloorProp => floor_prop_stems(),
        DressingCatFilter::Balcony => balcony_stems(),
    }
}

/// Every dressing stem, category by category.
pub open spec fn all_dressing_stems() -> Seq<Seq<char>> {
    structure_stems() + wall_swap_stems() + wall_decal_stems() + floor_prop_stems() + balcony_stems()
}

proof fn lemma_views_push(s: Seq<String>, x: String)
    ensures
        views(s.push(x)) == views(s).push(x@),
{
    assert(views(s.push(x)) =~= views(s).push(x@));
}

/// Owned copies of `items`, in order.
fn string_list(items: &[&str]) -> (r: Vec<String>)
    ensures
        views(r@) == items@.map_values(|s: &str| s@),
{
    let mut out: Vec<String> = Vec::new();
    let mut i: usize = 0;
    while i < items.len()
        invariant
            i <= items@.len(),
            views(out@) == items@.take(i as int).map_values(|s: &str| s@),
        decreases items@.len() - i,
    {
        let ghost before = out@;
        let item = items[i].to_owned();
        out.push(item);
        proof {
            lemma_views_push(before, item);
            assert(items@.take(i + 1) =~= items@.take(i as int).push(items@[i as int]));
            assert(items@.take(i + 1).map_values(|s: &str| s@) =~= items@.take(i as int).map_values(|s: &str| s@).push(items@[i as int]@));
        }
        i = i + 1;
    }
    proof {
        assert(items@.take(items@.len() as int) =~= items@);
    }
    out
}

/// Stems of one dressing category (none for `All`).
pub fn synth_stems_for_category(cat: DressingCatFilter) -> (r: Vec<String>)
    ensures
        views(r@) == category_stems(cat),
{
    match cat {
        DressingCatFilter::All => Vec::new(),
        DressingCatFilter::Structure => {
            let a = [
                "floor", "floor-corner", "floor-detail", "floor-panel", "floor-panel-corner",
                "floor-panel-end", "floor-panel-straight", "wall", "wall-corner", "wall-corner-round",
                "wall-door", "wall-door-banner", "wall-door-center", "wall-door-edge",
                "wall-door-edge-banner", "wall-door-wide", "wall-door-wide-banner",
            ];
            let r = string_list(&a);
            assert(views(r@) =~= structure_stems());
            r
        },
        DressingCatFilter::WallSwap => {
            let a = [
                "wall-banner", "wall-pillar", "wall-pillar-banner", "wall-corner-banner",
                "wall-corner-round-banner", "wall-window", "wall-window-banner", "wall-window-frame",
                "wall-window-shutters",
            ];
            let r = string_list(&a);
            assert(views(r@) =~= wall_swap_stems());
            r
        },
        DressingCatFilter::WallDecal => {
            let a = ["display-wall", "display-wall-wide", "wall-detail", "wall-switch"];
            let r = string_list(&a);
            assert(views(r@) =~= wall_decal_stems());
            r
        },
        DressingCatFilter::FloorProp => {
            let a = [
                "bed-single", "bed-single-cover", "bed-double", "bed-double-cover", "chair",
                "chair-armrest", "chair-armrest-headrest", "chair-cushion", "chair-cushion-headrest",
                "chair-headrest", "computer", "computer-screen", "computer-system", "computer-wide",
                "container", "container-flat", "container-flat-open", "container-tall",
                "container-wide", "table", "table-display", "table-display-planet",
                "table-display-small", "table-inset", "table-inset-small", "table-large",
            ];
            let r = string_list(&a);
            assert(views(r@) =~= floor_prop_stems());
            r
        },
        DressingCatFilter::Balcony => {
            let a = [
                "balcony-floor", "balcony-floor-center", "balcony-floor-corner", "balcony-rail",
                "balcony-rail-center", "balcony-rail-corner", "rail", "rail-narrow",
            ];
            let r = string_list(&a);
            assert(views(r@) =~= balcony_stems());
            r
        },
    }
}

/// Every stem the dressing sidebar lists, category by category.
pub fn synth_dressing_stems() -> (r: Vec<String>)
    ensures
        views(r@) == all_dressing_stems(),
{
    let mut out = synth_stems_for_category(DressingCatFilter::Structure);
    let mut b = synth_stems_for_category(DressingCatFilter::WallSwap);
    out.append(&mut b);
    let mut c = synth_stems_for_category(DressingCatFilter::WallDecal);
    out.append(&mut c);
    let mut d = synth_stems_for_category(DressingCatFilter::FloorProp);
    out.append(&mut d);
    let mut e = synth_stems_for_category(DressingCatFilter::Balcony);
    out.append(&mut e);
    proof {
        assert(views(out@) =~= all_dressing_stems());
    }
    out
}

/// The sidebar list for one filter: one category, or all of them.
pub fn synth_dressing_stems_filtered(cat: DressingCatFilter) -> (r: Vec<String>)
    ensures
        views(r@) == (if cat == DressingCatFilter::All {
            all_dressing_stems()
        } else {
            category_stems(cat)
        }),
{
    if cat == DressingCatFilter::All {
        return synth_dressing_stems();
    }
    synth_stems_for_category(cat)
}

/// A decal mounted on a wall face.
pub fn is_synth_wall_decal(stem: &str) -> (r: bool)
    ensures
        r == wall_decal_stems().contains(stem@),
{
    let list = synth_stems_for_category(DressingCatFilter::WallDecal);
    in_list(stem, &list)
}

/// A straight wall piece (not a decal), edge-mounted on a floor cell face.
pub fn is_synth_structure_wall(stem: &str) -> (r: bool)
    ensures
        r == (seq_starts_with(stem@, "wall"@) && !wall_decal_stems().contains(stem@)),
{
    starts_with(stem, "wall") && !is_synth_wall_decal(stem)
}

/// A balcony piece or a free-standing rail.
pub fn is_synth_balcony_stem(stem: &str) -> (r: bool)
    ensures
        r == (seq_starts_with(stem@, "balcony-"@) || stem@ == "rail"@ || stem@ == "rail-narrow"@),
{
    starts_with(stem, "balcony-") || str_eq(stem, "rail") || str_eq(stem, "rail-narrow")
}

/// A floor or balcony deck that must win depth over coplanar rails.
pub fn is_synth_deck_occluder_stem(stem: &str) -> (r: bool)
    ensures
        r == (seq_starts_with(stem@, "floor"@) || seq_starts_with(stem@, "balcony-floor"@)),
{
    starts_with(stem, "floor") || starts_with(stem, "balcony-floor")
}

/// Substrate blocks (floor blocks and stair flights) keep their embedded materials.
pub fn is_synth_substrate_glb_stem(stem: &str) -> (r: bool)
    ensures
        r == (structure_stems().take(7).contains(stem@) || seq_starts_with(stem@, "stairs"@)),
{
    let list = synth_stems_for_category(DressingCatFilter::Structure);
    let mut floors: Vec<String> = Vec::new();
    let mut i: usize = 0;
    assert(views(list@).len() == 17);
    while i < 7
        invariant
            i <= 7,
            views(list@) == structure_stems(),
            list@.len() == 17,
            views(floors@) == structure_stems().take(i as int),
        decreases 7 - i,
    {
        let ghost before = floors@;
        let item = list[i].clone();
        floors.push(item);
        proof {
            lemma_views_push(before, item);
            assert(item@ == views(list@)[i as int]);
            assert(views(floors@) =~= structure_stems().take(i + 1));
        }
        i = i + 1;
    }
    in_list(stem, &floors) || starts_with(stem, "stairs")
}

/// Furniture that sits on the deck and renders above floor tiles.
pub fn is_synth_deck_prop_stem(stem: &str) -> (r: bool)
    ensures
        r == floor_prop_stems().contains(stem@),
{
    let list = synth_stems_for_category(DressingCatFilter::FloorProp);
    in_list(stem, &list)
}

/// A railing with no walkable mesh.
pub fn is_synth_rail_stem(stem: &str) -> (r: bool)
    ensures
        r == (seq_starts_with(stem@, "balcony-rail"@) || stem@ == "rail"@ || stem@ == "rail-narrow"@),
{
    starts_with(stem, "balcony-rail") || str_eq(stem, "rail") || str_eq(stem, "rail-narrow")
}

/// Any chair.
pub fn is_synth_chair_stem(stem: &str) -> (r: bool)
    ensures
        r == seq_starts_with(stem@, "chair"@),
{
    starts_with(stem, "chair")
}

/// Names tried for a new dressing vignette: seven themed bases, then
/// `vignette_1`, `vignette_2`, ...
pub open spec fn dressing_candidate(k: int) -> Seq<char> {
    if k == 0 {
        "bunk"@
    } else if k == 1 {
        "lab"@
    } else if k == 2 {
        "mess"@
    } else if k == 3 {
        "storage"@
    } else if k == 4 {
        "command"@
    } else if k == 5 {
        "corridor_alcove"@
    } else if k == 6 {
        "vignette"@
    } else {
        "vignette_"@ + decimal((k - 6) as nat)
    }
}

/// The first free dressing name among `existing`, or `vignette_new`.
pub fn suggest_dressing_name(existing: &Vec<String>) -> (r: String)
    ensures
        first_free(r@, views(existing@), |k: int| dressing_candidate(k), 0, 10005, "vignette_new"@),
{
    let ghost cand = |k: int| dressing_candidate(k);
    let bases = ["bunk", "lab", "mess", "storage", "command", "corridor_alcove", "vignette"];
    let mut k: usize = 0;
    while k < 7
        invariant
            k <= 7,
            cand == (|k: int| dressing_candidate(k)),
            bases@ == seq!["bunk", "lab", "mess", "storage", "command", "corridor_alcove", "vignette"],
            forall|j: int| 0 <= j < k ==> views(existing@).contains(#[trigger] cand(j)),
        decreases 7 - k,
    {
        let base = bases[k];
        assert(base@ == cand(k as int));
        if !in_list(base, existing) {
            return base.to_owned();
        }
        k = k + 1;
    }
    let mut i: u64 = 1;
    while i < 9999
        invariant
            1 <= i <= 9999,
            cand == (|k: int| dressing_candidate(k)),
            forall|j: int| 0 <= j < i + 6 ==> views(existing@).contains(#[trigger] cand(j)),
        decreases 9999 - i,
    {
        let mut name = "vignette_".to_owned();
        push_decimal(&mut name, i);
        assert(name@ == cand(i + 6));
        if !in_list(name.as_str(), existing) {
            return name;
        }
        i = i + 1;
    }
    "vignette_new".to_owned()
}

/// The pool list: `default` plus every pool directory, each once, sorted.
pub fn list_pools(dir_names: &Vec<String>) -> (r: Vec<String>)
    ensures
        sorted_seqs(views(r@)),
        views(r@).to_multiset() == add_missing(seq!["default"@], views(dir_names@)).to_multiset(),
{
    let mut pools: Vec<String> = Vec::new();
    pools.push("default".to_owned());
    let ghost start = views(pools@);
    assert(start =~= seq!["default"@]);
    let m = dir_names.len();
    let mut j: usize = 0;
    proof {
        assert(views(dir_names@).skip(0) =~= views(dir_names@));
    }
    while j < m
        invariant
            m == dir_names@.len(),
            j <= m,
            start == seq!["default"@],
            add_missing(views(pools@), views(dir_names@).skip(j as int)) == add_missing(start, views(dir_names@)),
        decreases m - j,
    {
        let ghost rest = views(dir_names@).skip(j as int);
        proof {
            assert(rest[0] == dir_names@[j as int]@);
            assert(rest.drop_first() =~= views(dir_names@).skip(j + 1));
        }
        let ghost before = pools@;
        if !in_list(dir_names[j].as_str(), &pools) {
            pools.push(dir_names[j].clone());
            proof {
                assert(views(pools@) =~= views(before).push(dir_names@[j as int]@));
            }
        }
        j = j + 1;
    }
    proof {
        assert(views(dir_names@).skip(m as int) =~= Seq::<Seq<char>>::empty());
    }
    sort_strings(&pools)
}


/// Stem of a `.glb` file name (`None` for other files).
pub open spec fn glb_stem_of(name: Seq<char>) -> Option<Seq<char>> {
    if name.len() > 4 && seq_ends_with(name, ".glb"@) {
        Some(name.subrange(0, name.len() - 4))
    } else {
        None
    }
}

/// Misc model stems found among `names`, in order, without the huge city scene.
pub open spec fn misc_candidates(names: Seq<Seq<char>>) -> Seq<Seq<char>>
    decreases names.len(),
{
    if names.len() == 0 {
        Seq::empty()
    } else {
        let prev = misc_candidates(names.drop_last());
        match glb_stem_of(names.last()) {
            Some(stem) => if stem == "cyberpunk_city"@ {
                prev
            } else {
                prev.push(stem)
            },
            None => prev,
        }
    }
}

/// Non-Kenney GLB stems from the file names of the misc model folder, sorted.
pub fn misc_stems(file_names: &Vec<String>) -> (r: Vec<String>)
    ensures
        sorted_seqs(views(r@)),
        views(r@).to_multiset() == misc_candidates(views(file_names@)).to_multiset(),
{
    let mut out: Vec<String> = Vec::new();
    let n = file_names.len();
    let mut i: usize = 0;
    while i < n
        invariant
            n == file_names@.len(),
            i <= n,
            views(out@) == misc_candidates(views(file_names@.take(i as int))),
        decreases n - i,
    {
        proof {
            assert(views(file_names@.take(i + 1)).drop_last() =~= views(file_names@.take(i as int)));
            assert(views(file_names@.take(i + 1)).last() == file_names@[i as int]@);
        }
        let name = file_names[i].as_str();
        let len = name.unicode_len();
        if len > 4 && ends_with(name, ".glb") {
            let stem = name.substring_char(0, len - 4);
            if !str_eq(stem, "cyberpunk_city") {
                let ghost before = out@;
                let owned = stem.to_owned();
                out.push(owned);
                proof {
                    lemma_views_push(before, owned);
                }
            }
        }
        i = i + 1;
    }
    proof {
        assert(file_names@.take(n as int) =~= file_names@);
    }
    sort_strings(&out)
}

/// Deck height of the synth kit in millimetres.
pub const SYNTH_DECK_Y_MM: i64 = 1200;

/// How a synth GLB's origin lines up with the walkable deck.
#[derive(Clone, Copy, Debug, PartialEq, Eq, Structural)]
pub enum SynthDressingPlacement {
    /// Full deck-high block: origin on the ground, top at deck height.
    SubstrateBlock,
    /// Thin tile whose top is flush with the deck; the field is its height in mm.
    DeckTopFlush(i64),
    /// Prop, wall or rail standing on the deck surface.
    DeckBase,
}

pub open spec fn dressing_placement_spec(stem: Seq<char>) -> SynthDressingPlacement {
    if structure_stems().take(7).contains(stem) || stem == "stairs"@ || stem == "stairs-ramp"@ || stem
        == "stairs-corner"@ || stem == "stairs-corner-inner"@ {
        SynthDressingPlacement::SubstrateBlock
    } else if stem == "balcony-floor"@ || stem == "balcony-floor-center"@ || stem == "balcony-floor-corner"@ {
        SynthDressingPlacement::DeckTopFlush(600)
    } else {
        SynthDressingPlacement::DeckBase
    }
}

/// Placement class of a dressing stem.
pub fn synth_dressing_placement(stem: &str) -> (r: SynthDressingPlacement)
    ensures
        r == dressing_placement_spec(stem@),
{
    let list = synth_stems_for_category(DressingCatFilter::Structure);
    let mut floors: Vec<String> = Vec::new();
    let mut i: usize = 0;
    assert(views(list@).len() == 17);
    while i < 7
        invariant
            i <= 7,
            views(list@) == structure_stems(),
            list@.len() == 17,
            views(floors@) == structure_stems().take(i as int),
        decreases 7 - i,
    {
        let ghost before = floors@;
        let item = list[i].clone();
        floors.push(item);
        proof {
            lemma_views_push(before, item);
            assert(item@ == views(list@)[i as int]);
            assert(views(floors@) =~= structure_stems().take(i + 1));
        }
        i = i + 1;
    }
    if in_list(stem, &floors) || str_eq(stem, "stairs") || str_eq(stem, "stairs-ramp") || str_eq(
        stem,
        "stairs-corner",
    ) || str_eq(stem, "stairs-corner-inner") {
        SynthDressingPlacement::SubstrateBlock
    } else if str_eq(stem, "balcony-floor") || str_eq(stem, "balcony-floor-center") || str_eq(
        stem,
        "balcony-floor-corner",
    ) {
        SynthDressingPlacement::DeckTopFlush(600)
    } else {
        SynthDressingPlacement::DeckBase
    }
}

/// Default height (mm) of a dressing placement: ground for blocks, flush
/// with the deck for thin tiles, on the deck for everything else.
pub fn synth_dressing_default_y_mm(stem: &str) -> (r: i64)
    ensures
        r == match dressing_placement_spec(stem@) {
            SynthDressingPlacement::SubstrateBlock => 0,
            SynthDressingPlacement::DeckTopFlush(h) => SYNTH_DECK_Y_MM - h,
            SynthDressingPlacement::DeckBase => SYNTH_DECK_Y_MM as int,
        },
{
    match synth_dressing_placement(stem) {
        SynthDressingPlacement::SubstrateBlock => 0,
        SynthDressingPlacement::DeckTopFlush(h) => SYNTH_DECK_Y_MM - h,
        SynthDressingPlacement::DeckBase => SYNTH_DECK_Y_MM,
    }
}

} // verus!
