//! The logic of a map editor for tile maps: block selections and their transforms, fills,
//! the stacking of prefabs on a tile, and the state and decisions behind the editor's panels,
//! each with its contract.
use vstd::prelude::*;

pub mod fill;
pub mod geometry;
pub mod path;
pub mod placement;
pub mod text;
pub mod tool;
pub mod ui;

verus! {

} // verus!
