//! Import engine for LDtk level documents: the document model, level lookup,
//! tileset resolution, the asset load gate and the tile layering engine.

pub mod model;
pub mod stacking;
pub mod locator;
pub mod project;
pub mod tileset;
pub mod selection;
pub mod layering;
pub mod load_gate;
