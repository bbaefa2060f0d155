use vstd::prelude::*;

verus! {

/// The kind of a layer instance. Only `IntGrid` layers are rendered; the
/// other kinds are recognised and left alone.
#[derive(Clone, Copy, Debug, PartialEq, Eq, Structural)]
pub enum LayerInstanceType {
    IntGrid,
    Entities,
    Tiles,
    AutoLayer,
}

/// A pixel position: `x` grows to the right, `y` grows downward.
#[derive(Clone, Copy, Debug, PartialEq, Eq, Structural)]
pub struct PixelPos {
    pub x: i32,
    pub y: i32,
}

/// One placed tile. `px` is the pixel position of the tile in its layer
/// (not yet divided by the grid size), `t` the index into the tileset atlas
/// and `f` the flip bits (bit 0: horizontal, bit 1: vertical).
#[derive(Clone, Copy, Debug, PartialEq, Eq, Structural)]
pub struct TileInstance {
    pub px: PixelPos,
    pub t: i64,
    pub f: i64,
}

/// One layer of a level.
#[derive(Clone, Debug)]
pub struct LayerInstance {
    pub identifier: String,
    pub iid: String,
    pub layer_instance_type: LayerInstanceType,
    pub grid_size: i64,
    pub c_wid: i64,
    pub c_hei: i64,
    pub visible: bool,
    pub px_total_offset_x: i64,
    pub px_total_offset_y: i64,
    pub tileset_def_uid: Option<i64>,
    pub override_tileset_uid: Option<i64>,
    pub grid_tiles: Vec<TileInstance>,
    pub auto_layer_tiles: Vec<TileInstance>,
}

/// One level. `world_x` and `world_y` hold `-1` when the level has no
/// position of its own. Layers are stored back to front.
#[derive(Clone, Debug)]
pub struct Level {
    pub identifier: String,
    pub iid: String,
    pub world_x: i64,
    pub world_y: i64,
    pub world_depth: i64,
    pub bg_color: String,
    pub layer_instances: Option<Vec<LayerInstance>>,
}

/// A named container of levels.
#[derive(Clone, Debug)]
pub struct World {
    pub identifier: String,
    pub iid: String,
    pub levels: Vec<Level>,
}

/// The definition of one tileset image and its tile grid.
#[derive(Clone, Debug)]
pub struct TilesetDefinition {
    pub uid: i64,
    pub identifier: String,
    pub rel_path: Option<String>,
    pub tile_grid_size: i64,
    pub spacing: i64,
    pub padding: i64,
    pub c_wid: i64,
    pub c_hei: i64,
}

/// The definitions block of a document.
#[derive(Clone, Debug)]
pub struct Definitions {
    pub tilesets: Vec<TilesetDefinition>,
}

/// The root of a level document.
#[derive(Clone, Debug)]
pub struct LdtkJson {
    pub worlds: Vec<World>,
    pub defs: Definitions,
}

} // verus!
