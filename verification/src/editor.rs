//! Editor documents: save locations, file names, workflow and snap modes,
//! the editing grid and floor masks, and the persisted display preferences.

use vstd::prelude::*;

use crate::text::{concat, decimal, push_decimal};
use vstd::string::StrSliceExecFns;

verus! {

/// Floor cells along one side of a module.
pub const CELLS_PER_MODULE: u32 = 5;

/// Modules along each side of a new map.
pub const DEFAULT_MAP_MODULES: u32 = 3;

/// The `userinput` folder of the project rooted at `root`.
pub open spec fn userinput_spec(root: Seq<char>) -> Seq<char> {
    root + "/userinput"@
}

/// Where maps are saved.
pub open spec fn maps_dir_spec(root: Seq<char>) -> Seq<char> {
    userinput_spec(root) + "/maps"@
}

/// Where the modules of `pool` are saved.
pub open spec fn pool_dir_spec(root: Seq<char>, pool: Seq<char>) -> Seq<char> {
    userinput_spec(root) + "/modules/"@ + pool
}

/// The `userinput` folder of the project rooted at `root`.
pub fn userinput_root(root: &str) -> (r: String)
    ensures
        r@ == userinput_spec(root@),
{
    concat(root, "/userinput")
}

/// Folder of saved maps.
pub fn maps_dir(root: &str) -> (r: String)
    ensures
        r@ == maps_dir_spec(root@),
{
    let u = userinput_root(root);
    concat(u.as_str(), "/maps")
}

/// Folder of the modules of one pool.
pub fn pool_dir(root: &str, pool: &str) -> (r: String)
    ensures
        r@ == pool_dir_spec(root@, pool@),
{
    let u = userinput_root(root);
    let m = concat(u.as_str(), "/modules/");
    let r = concat(m.as_str(), pool);
    assert(r@ =~= pool_dir_spec(root@, pool@));
    r
}

/// The persisted editor preferences file.
pub fn settings_path(root: &str) -> (r: String)
    ensures
        r@ == root@ + "/userinput/editor_settings.json"@,
{
    concat(root, "/userinput/editor_settings.json")
}

/// `map_<secs>`, a file name made from a Unix time in seconds.
pub open spec fn timestamp_spec(secs: u64) -> Seq<char> {
    "map_"@ + decimal(secs as nat)
}

/// `map_<secs>`, a file name made from a Unix time in seconds.
pub fn timestamp_name(secs: u64) -> (r: String)
    ensures
        r@ == timestamp_spec(secs),
{
    let mut s = "map_".to_owned();
    push_decimal(&mut s, secs);
    s
}

/// Characters a file name keeps: ASCII letters and digits, `-` and `_`.
pub open spec fn is_safe_char(c: char) -> bool {
    ('a' <= c && c <= 'z') || ('A' <= c && c <= 'Z') || ('0' <= c && c <= '9') || c == '-' || c == '_'
}

/// Every unsafe character replaced by `_`.
pub open spec fn scrub(s: Seq<char>) -> Seq<char> {
    s.map_values(|c: char| if is_safe_char(c) { c } else { '_' })
}

/// The file name `sanitize_filename` makes of `s`.
pub open spec fn sanitized(s: Seq<char>) -> Seq<char> {
    if s.len() == 0 {
        "untitled"@
    } else {
        scrub(s)
    }
}

/// A file-system-safe name: unsafe characters become `_`; an empty name
/// becomes `untitled`.
pub fn sanitize_filename(name: &str) -> (r: String)
    ensures
        r@ == sanitized(name@),
{
    let n = name.unicode_len();
    if n == 0 {
        proof {
            reveal_strlit("untitled");
        }
        return "untitled".to_owned();
    }
    let mut out = String::new();
    let mut i: usize = 0;
    while i < n
        invariant
            n == name@.len(),
            i <= n,
            out@ == scrub(name@.take(i as int)),
        decreases n - i,
    {
        let c = name.get_char(i);
        let ghost before = out@;
        if ('a' <= c && c <= 'z') || ('A' <= c && c <= 'Z') || ('0' <= c && c <= '9') || c == '-' || c
            == '_' {
            let piece = name.substring_char(i, i + 1);
            vstd::string::StringExecFns::append(&mut out, piece);
        } else {
            proof {
                reveal_strlit("_");
            }
            vstd::string::StringExecFns::append(&mut out, "_");
        }
        proof {
            assert(name@.take(i + 1) =~= name@.take(i as int).push(c));
            assert(out@ =~= scrub(name@.take(i + 1)));
        }
        i = i + 1;
    }
    proof {
        assert(name@.take(n as int) =~= name@);
    }
    out
}

/// A sanitized name is left alone by a second sanitizing.
pub proof fn law_sanitize_idempotent(s: Seq<char>)
    ensures
        sanitized(sanitized(s)) == sanitized(s),
{
    reveal_strlit("untitled");
    let t = sanitized(s);
    assert(t.len() > 0);
    assert forall|i: int| 0 <= i < t.len() implies is_safe_char(#[trigger] t[i]) by {}
    assert(scrub(t) =~= t);
}

/// Map making or module making.
#[derive(Clone, Copy, Debug, PartialEq, Eq, Structural)]
pub enum EditorWorkflow {
    MapMaker,
    ModuleMaker,
}

impl Default for EditorWorkflow {
    fn default() -> (r: Self)
        ensures
            r == EditorWorkflow::MapMaker,
    {
        EditorWorkflow::MapMaker
    }
}

impl EditorWorkflow {
    pub fn label(self) -> (r: &'static str)
        ensures
            r@ == (match self {
                EditorWorkflow::MapMaker => "Map"@,
                EditorWorkflow::ModuleMaker => "Module"@,
            }),
    {
        match self {
            EditorWorkflow::MapMaker => "Map",
            EditorWorkflow::ModuleMaker => "Module",
        }
    }
}

/// Placement snapping: whole 4 m cells, 2 m half cells, or none.
#[derive(Clone, Copy, Debug, PartialEq, Eq, Structural)]
pub enum SnapMode {
    FullCell,
    HalfCell,
    Free,
}

impl Default for SnapMode {
    fn default() -> (r: Self)
        ensures
            r == SnapMode::FullCell,
    {
        SnapMode::FullCell
    }
}

pub open spec fn snap_next(m: SnapMode) -> SnapMode {
    match m {
        SnapMode::FullCell => SnapMode::HalfCell,
        SnapMode::HalfCell => SnapMode::Free,
        SnapMode::Free => SnapMode::FullCell,
    }
}

impl SnapMode {
    pub fn label(self) -> (r: &'static str)
        ensures
            r@ == (match self {
                SnapMode::FullCell => "4 m snap"@,
                SnapMode::HalfCell => "2 m snap"@,
                SnapMode::Free => "Free"@,
            }),
    {
        match self {
            SnapMode::FullCell => "4 m snap",
            SnapMode::HalfCell => "2 m snap",
            SnapMode::Free => "Free",
        }
    }

    /// The mode the snap key switches to.
    pub fn next(self) -> (r: Self)
        ensures
            r == snap_next(self),
    {
        match self {
            SnapMode::FullCell => SnapMode::HalfCell,
            SnapMode::HalfCell => SnapMode::Free,
            SnapMode::Free => SnapMode::FullCell,
        }
    }
}

/// Pressing the snap key three times comes back to the starting mode, and
/// never sooner.
pub proof fn law_snap_cycle(m: SnapMode)
    ensures
        snap_next(snap_next(snap_next(m))) == m,
        snap_next(m) != m,
        snap_next(snap_next(m)) != m,
{
}

/// What a click in the work area does.
#[derive(Clone, Copy, Debug, PartialEq, Eq, Structural)]
pub enum EditorTool {
    PlaceGlb,
    Select,
    FloorAdd,
    FloorRemove,
    PlaceModule,
    SetSpawn,
    /// Gallery review: no ghost and no placement.
    GalleryPreview,
}

impl Default for EditorTool {
    fn default() -> (r: Self)
        ensures
            r == EditorTool::PlaceGlb,
    {
        EditorTool::PlaceGlb
    }
}

impl EditorTool {
    pub fn label(self) -> (r: &'static str)
        ensures
            r@ == (match self {
                EditorTool::PlaceGlb => "Place"@,
                EditorTool::Select => "Select"@,
                EditorTool::FloorAdd => "Add floor"@,
                EditorTool::FloorRemove => "Remove floor"@,
                EditorTool::PlaceModule => "Place"@,
                EditorTool::SetSpawn => "Set spawn"@,
                EditorTool::GalleryPreview => "Gallery"@,
            }),
    {
        match self {
            EditorTool::PlaceGlb => "Place",
            EditorTool::Select => "Select",
            EditorTool::FloorAdd => "Add floor",
            EditorTool::FloorRemove => "Remove floor",
            EditorTool::PlaceModule => "Place",
            EditorTool::SetSpawn => "Set spawn",
            EditorTool::GalleryPreview => "Gallery",
        }
    }
}

/// Size of the editing grid in cells.
#[derive(Clone, Copy, Debug, PartialEq, Eq, Structural)]
pub struct GridSpec {
    pub cells_x: u32,
    pub cells_z: u32,
}

impl GridSpec {
    /// One module's 5x5 cells when making a module; the whole map otherwise.
    pub fn for_workflow(workflow: EditorWorkflow, modules_x: u32, modules_z: u32) -> (r: Self)
        requires
            workflow == EditorWorkflow::MapMaker ==> modules_x * CELLS_PER_MODULE <= u32::MAX
                && modules_z * CELLS_PER_MODULE <= u32::MAX,
        ensures
            workflow == EditorWorkflow::ModuleMaker ==> r.cells_x == CELLS_PER_MODULE && r.cells_z
                == CELLS_PER_MODULE,
            workflow == EditorWorkflow::MapMaker ==> r.cells_x == modules_x * CELLS_PER_MODULE
                && r.cells_z == modules_z * CELLS_PER_MODULE,
    {
        match workflow {
            EditorWorkflow::ModuleMaker => GridSpec { cells_x: CELLS_PER_MODULE, cells_z: CELLS_PER_MODULE },
            EditorWorkflow::MapMaker => GridSpec {
                cells_x: modules_x * CELLS_PER_MODULE,
                cells_z: modules_z * CELLS_PER_MODULE,
            },
        }
    }
}

/// Which cells of a floor carry a floor tile, row by row from the south.
#[derive(Clone, Debug, PartialEq, Eq)]
pub struct FloorMask {
    pub cells_x: u32,
    pub cells_z: u32,
    pub cells: Vec<bool>,
}

proof fn lemma_cell_index(ix: int, iz: int, cx: int, cz: int)
    requires
        0 <= ix < cx,
        0 <= iz < cz,
    ensures
        0 <= iz * cx + ix < cx * cz,
{
    assert(iz * cx + ix < cx * cz) by (nonlinear_arith)
        requires
            0 <= ix < cx,
            0 <= iz < cz,
    ;
    assert(0 <= iz * cx) by (nonlinear_arith)
        requires
            0 <= iz,
            0 <= cx,
    ;
}

impl View for FloorMask {
    /// Width, depth and the row-major cell flags.
    type V = (u32, u32, Seq<bool>);

    open spec fn view(&self) -> (u32, u32, Seq<bool>) {
        (self.cells_x, self.cells_z, self.cells@)
    }
}

impl FloorMask {
    /// One flag per cell.
    pub open spec fn wf(&self) -> bool {
        self.cells@.len() == self.cells_x * self.cells_z && self.cells_x * self.cells_z <= u32::MAX
    }

    /// The cell `(ix, iz)` has a floor; out-of-range cells have none.
    pub open spec fn floor_at(&self, ix: int, iz: int) -> bool {
        if 0 <= ix < self.cells_x && 0 <= iz < self.cells_z {
            self.cells@[iz * self.cells_x + ix]
        } else {
            false
        }
    }

    /// A mask with every cell floored.
    pub fn filled(cells_x: u32, cells_z: u32) -> (r: Self)
        requires
            cells_x * cells_z <= u32::MAX,
        ensures
            r.wf(),
            r.cells_x == cells_x,
            r.cells_z == cells_z,
            forall|ix: int, iz: int| 0 <= ix < cells_x && 0 <= iz < cells_z ==> #[trigger] r.floor_at(ix, iz),
    {
        let n = (cells_x * cells_z) as usize;
        let r = FloorMask { cells_x, cells_z, cells: vec![true; n] };
        proof {
            assert forall|ix: int, iz: int| 0 <= ix < cells_x && 0 <= iz < cells_z implies #[trigger] r.floor_at(ix, iz) by {
                lemma_cell_index(ix, iz, cells_x as int, cells_z as int);
            }
        }
        r
    }

    /// The cell `(ix, iz)` has a floor (`false` outside the mask).
    pub fn get(&self, ix: u32, iz: u32) -> (r: bool)
        requires
            self.wf(),
        ensures
            r == self.floor_at(ix as int, iz as int),
    {
        if ix >= self.cells_x || iz >= self.cells_z {
            return false;
        }
        proof {
            lemma_cell_index(ix as int, iz as int, self.cells_x as int, self.cells_z as int);
        }
        self.cells[(iz * self.cells_x + ix) as usize]
    }

    /// Put or remove the floor of cell `(ix, iz)`; cells outside the mask are ignored.
    pub fn set(&mut self, ix: u32, iz: u32, on: bool)
        requires
            old(self).wf(),
        ensures
            final(self).wf(),
            final(self).cells_x == old(self).cells_x,
            final(self).cells_z == old(self).cells_z,
            ix < old(self).cells_x && iz < old(self).cells_z ==> final(self).floor_at(ix as int, iz as int) == on,
            forall|x: int, z: int| (x != ix || z != iz) ==> #[trigger] final(self).floor_at(x, z) == old(self).floor_at(x, z),
    {
        if ix < self.cells_x && iz < self.cells_z {
            proof {
                lemma_cell_index(ix as int, iz as int, self.cells_x as int, self.cells_z as int);
            }
            let ghost pre = *self;
            let k = (iz * self.cells_x + ix) as usize;
            self.cells.set(k, on);
            proof {
                assert forall|x: int, z: int| (x != ix || z != iz) implies #[trigger] self.floor_at(x, z) == pre.floor_at(x, z) by {
                    if 0 <= x < self.cells_x && 0 <= z < self.cells_z {
                        lemma_cell_index(x, z, self.cells_x as int, self.cells_z as int);
                        lemma_cell_distinct(x, z, ix as int, iz as int, self.cells_x as int);
                    }
                }
            }
        }
    }
}

proof fn lemma_cell_distinct(x: int, z: int, ix: int, iz: int, cx: int)
    requires
        0 <= x < cx,
        0 <= ix < cx,
        0 <= z,
        0 <= iz,
        x != ix || z != iz,
    ensures
        z * cx + x != iz * cx + ix,
{
    if z == iz {
    } else if z < iz {
        assert(z * cx + cx <= iz * cx) by (nonlinear_arith)
            requires
                z < iz,
                0 <= cx,
        ;
    } else {
        assert(iz * cx + cx <= z * cx) by (nonlinear_arith)
            requires
                iz < z,
                0 <= cx,
        ;
    }
}

/// Reading a cell back after setting it gives what was set, and no other
/// cell changes.
pub proof fn law_mask_read_after_write(before: FloorMask, after: FloorMask, ix: u32, iz: u32, on: bool, x: int, z: int)
    requires
        ix < before.cells_x && iz < before.cells_z ==> after.floor_at(ix as int, iz as int) == on,
        forall|a: int, b: int| (a != ix || b != iz) ==> #[trigger] after.floor_at(a, b) == before.floor_at(a, b),
        ix < before.cells_x,
        iz < before.cells_z,
    ensures
        after.floor_at(ix as int, iz as int) == on,
        (x != ix || z != iz) ==> after.floor_at(x, z) == before.floor_at(x, z),
{
}

/// The kind of document being edited.
#[derive(Clone, Copy, Debug, PartialEq, Eq, Structural)]
pub enum ActiveDocKind {
    MapFile,
    Module,
}

impl Default for ActiveDocKind {
    fn default() -> (r: Self)
        ensures
            r == ActiveDocKind::MapFile,
    {
        ActiveDocKind::MapFile
    }
}

/// The document open in the editor.
#[derive(Clone, Debug)]
pub struct ActiveDocument {
    pub kind: ActiveDocKind,
    pub path: Option<String>,
    pub dirty: bool,
}

impl ActiveDocument {
    /// Where quicksave writes a map: the open file when it is a map,
    /// otherwise a new time-stamped file in the maps folder.
    pub fn quicksave_path_map(&self, root: &str, secs: u64) -> (r: String)
        ensures
            (self.path matches Some(p) && self.kind == ActiveDocKind::MapFile) ==> r@ == self.path->0@,
            !(self.path is Some && self.kind == ActiveDocKind::MapFile) ==> r@ == maps_dir_spec(root@) + "/"@ + timestamp_spec(secs)
                + ".json"@,
    {
        if let Some(p) = &self.path {
            if self.kind == ActiveDocKind::MapFile {
                return p.clone();
            }
        }
        let d = maps_dir(root);
        let a = concat(d.as_str(), "/");
        let t = timestamp_name(secs);
        let b = concat(a.as_str(), t.as_str());
        let r = concat(b.as_str(), ".json");
        assert(r@ =~= maps_dir_spec(root@) + "/"@ + timestamp_spec(secs) + ".json"@);
        r
    }

    /// A new time-stamped file in the maps folder for a branched copy.
    pub fn branch_path_map(&self, root: &str, secs: u64) -> (r: String)
        ensures
            r@ == maps_dir_spec(root@) + "/"@ + timestamp_spec(secs) + "_branch.json"@,
    {
        let d = maps_dir(root);
        let a = concat(d.as_str(), "/");
        let t = timestamp_name(secs);
        let b = concat(a.as_str(), t.as_str());
        let r = concat(b.as_str(), "_branch.json");
        assert(r@ =~= maps_dir_spec(root@) + "/"@ + timestamp_spec(secs) + "_branch.json"@);
        r
    }

    /// Folder of a pool's module snapshots.
    pub fn module_snapshot_dir(root: &str, pool: &str) -> (r: String)
        ensures
            r@ == pool_dir_spec(root@, pool@) + "/_snapshots"@,
    {
        let d = pool_dir(root, pool);
        concat(d.as_str(), "/_snapshots")
    }
}

/// Window mode of the editor or the playtest.
#[derive(Clone, Copy, Debug, PartialEq, Eq, Structural)]
pub enum DisplayMode {
    Windowed,
    BorderlessFullscreen,
    Fullscreen,
}

impl Default for DisplayMode {
    fn default() -> (r: Self)
        ensures
            r == DisplayMode::Windowed,
    {
        DisplayMode::Windowed
    }
}

pub open spec fn display_next(m: DisplayMode) -> DisplayMode {
    match m {
        DisplayMode::Windowed => DisplayMode::BorderlessFullscreen,
        DisplayMode::BorderlessFullscreen => DisplayMode::Fullscreen,
        DisplayMode::Fullscreen => DisplayMode::Windowed,
    }
}

impl DisplayMode {
    pub fn label(self) -> (r: &'static str)
        ensures
            r@ == (match self {
                DisplayMode::Windowed => "Windowed"@,
                DisplayMode::BorderlessFullscreen => "Borderless"@,
                DisplayMode::Fullscreen => "Fullscreen"@,
            }),
    {
        match self {
            DisplayMode::Windowed => "Windowed",
            DisplayMode::BorderlessFullscreen => "Borderless",
            DisplayMode::Fullscreen => "Fullscreen",
        }
    }

    /// The mode the display key switches to.
    pub fn next(self) -> (r: Self)
        ensures
            r == display_next(self),
    {
        match self {
            DisplayMode::Windowed => DisplayMode::BorderlessFullscreen,
            DisplayMode::BorderlessFullscreen => DisplayMode::Fullscreen,
            DisplayMode::Fullscreen => DisplayMode::Windowed,
        }
    }
}

/// Cycling the display mode three times comes back to the start.
pub proof fn law_display_cycle(m: DisplayMode)
    ensures
        display_next(display_next(display_next(m))) == m,
        display_next(m) != m,
{
}

/// Persisted display preferences of the editor and of playtests.
#[derive(Clone, Copy, Debug, PartialEq, Eq, Structural)]
pub struct UserEditorPrefs {
    pub editor_display: DisplayMode,
    pub test_display: DisplayMode,
}

impl Default for UserEditorPrefs {
    fn default() -> (r: Self)
        ensures
            r.editor_display == DisplayMode::Windowed,
            r.test_display == DisplayMode::Windowed,
    {
        UserEditorPrefs { editor_display: DisplayMode::Windowed, test_display: DisplayMode::Windowed }
    }
}

} // verus!
