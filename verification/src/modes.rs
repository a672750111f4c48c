//! Session modes: how the developer test map is built, the editor and city
//! viewer markers, and whether a session renders the pool's map chain.

use vstd::prelude::*;

verus! {

/// How the developer test map is built.
#[derive(Clone, Copy, Debug, PartialEq, Eq, Structural)]
pub enum TestMapStyle {
    /// Procedural cuboid walls, floors and stairs.
    Rusty,
    /// Kenney Modular Space Kit pieces.
    Kenney,
}

impl Default for TestMapStyle {
    fn default() -> (r: Self)
        ensures
            r == TestMapStyle::Rusty,
    {
        TestMapStyle::Rusty
    }
}

/// Bumped whenever an editor playtest toggles, so colliders and floors are rebuilt.
#[derive(Clone, Copy, Debug, PartialEq, Eq, Structural, Default)]
pub struct KenneyPlaytestGeneration(pub u32);

/// Present when running the Kenney layout editor.
#[derive(Clone, Copy, Debug, PartialEq, Eq, Structural, Default)]
pub struct EditorMode;

/// Present when running the standalone city viewer.
#[derive(Clone, Copy, Debug, PartialEq, Eq, Structural, Default)]
pub struct CityViewMode;

/// Present when running the developer test map.
#[derive(Clone, Copy, Debug, PartialEq, Eq, Structural)]
pub struct TestMode {
    pub style: TestMapStyle,
}

impl Default for TestMode {
    fn default() -> (r: Self)
        ensures
            r.style == TestMapStyle::Rusty,
    {
        TestMode { style: TestMapStyle::Rusty }
    }
}

/// A test session on the Kenney style renders and collides the pool's map chain.
pub fn wants_pool_placements(test: Option<&TestMode>) -> (r: bool)
    ensures
        r == (test matches Some(t) && t.style == TestMapStyle::Kenney),
{
    match test {
        Some(t) => t.style == TestMapStyle::Kenney,
        None => false,
    }
}

} // verus!
