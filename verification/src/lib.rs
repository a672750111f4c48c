//! Verified core of the Fabled co-op extraction game: editor catalogues,
//! Kenney map layout rules, grid navigation, enemy AI decisions, the run
//! economy and the headless village simulation.

pub mod text;
pub mod nav;
pub mod economy;
pub mod genome;
pub mod clock;
pub mod weather;
pub mod professions;
pub mod house;
pub mod control;
pub mod kenney;
pub mod synth;
pub mod catalog;
pub mod editor;
pub mod modes;
pub mod run;
pub mod ai;
pub mod items;
pub mod level;
pub mod pool;
pub mod classes;
pub mod npc;
pub mod docs;
pub mod steer;
pub mod village;
