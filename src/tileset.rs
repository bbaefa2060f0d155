//! Working out which tilesets a level needs, and the atlas layout and image
//! path of each.
use vstd::prelude::*;
use std::collections::HashSet;
use bevy::image::TextureAtlasLayout;
use bevy::math::UVec2;
use crate::model::{LayerInstance, Level, TilesetDefinition};
use crate::project::{rel_asset_path, LDtkProject};

verus! {

broadcast use vstd::std_specs::hash::group_hash_axioms;

#[verifier::external_type_specification]
#[verifier::external_body]
pub struct ExTextureAtlasLayout(TextureAtlasLayout);

/// The tileset a layer draws from: its override if it has one, else its
/// own tileset reference.
pub open spec fn effective_uid(layer: LayerInstance) -> Option<i64> {
    match layer.override_tileset_uid {
        Some(u) => Some(u),
        None => layer.tileset_def_uid,
    }
}

/// The layers of a level, none where it has no layer list.
pub open spec fn level_layers(level: Level) -> Seq<LayerInstance> {
    match level.layer_instances {
        Some(v) => v@,
        None => Seq::empty(),
    }
}

/// The uids of the tilesets that the first `n` layers of `level` draw from.
pub open spec fn tileset_uids_upto(level: Level, n: int) -> Set<i64> {
    Set::new(
        |u: i64|
            exists|i: int| 0 <= i < n && i < level_layers(level).len() && effective_uid(level_layers(level)[i]) == Some(u),
    )
}

/// The uids of the tilesets that the layers of `level` draw from.
pub open spec fn tileset_uids(level: Level) -> Set<i64> {
    tileset_uids_upto(level, level_layers(level).len() as int)
}

impl Level {
    /// The uids of the tilesets that this level's layers draw from; a layer's
    /// override wins over its own reference, and a layer with neither adds
    /// nothing.
    pub fn get_tileset_uid_set(&self) -> (r: HashSet<i64>)
        ensures
            r@ == tileset_uids(*self),
    {
        let mut r: HashSet<i64> = HashSet::new();
        match &self.layer_instances {
            Some(layers) => {
                let mut i: usize = 0;
                while i < layers.len()
                    invariant
                        i <= layers@.len(),
                        level_layers(*self) == layers@,
                        r@ == tileset_uids_upto(*self, i as int),
                    decreases layers@.len() - i,
                {
                    let layer = &layers[i];
                    let uid = match layer.override_tileset_uid {
                        Some(u) => Some(u),
                        None => layer.tileset_def_uid,
                    };
                    if let Some(u) = uid {
                        r.insert(u);
                    }
                    proof {
                        assert(r@ =~= tileset_uids_upto(*self, i + 1));
                    }
                    i = i + 1;
                }
            },
            None => {
                proof {
                    assert(r@ =~= tileset_uids(*self));
                }
            },
        }
        r
    }
}

/// How a tileset image divides into tiles: the tile size, the number of
/// columns and rows, the gap between tiles and the margin around them, all
/// in pixels.
#[derive(Clone, Copy, Debug, PartialEq, Eq, Structural)]
pub struct AtlasGrid {
    pub tile_size: u32,
    pub columns: u32,
    pub rows: u32,
    pub padding: Option<u32>,
    pub offset: Option<u32>,
}

/// The atlas grid of a tileset definition: its spacing becomes the gap
/// between tiles and its padding the margin, each only where it is not zero.
pub open spec fn atlas_grid_of(def: TilesetDefinition) -> AtlasGrid {
    AtlasGrid {
        tile_size: def.tile_grid_size as u32,
        columns: def.c_wid as u32,
        rows: def.c_hei as u32,
        padding: if def.spacing != 0 { Some(def.spacing as u32) } else { None },
        offset: if def.padding != 0 { Some(def.padding as u32) } else { None },
    }
}

/// The gap between tiles, zero where there is none.
pub open spec fn gap(g: AtlasGrid) -> int {
    match g.padding {
        Some(p) => p as int,
        None => 0,
    }
}

/// The margin around the tiles, zero where there is none.
pub open spec fn margin(g: AtlasGrid) -> int {
    match g.offset {
        Some(o) => o as int,
        None => 0,
    }
}

/// Whether every tile rectangle of the grid, and the whole atlas, can be
/// expressed in 32-bit pixel coordinates and the rectangles fit in memory.
pub open spec fn grid_fits(g: AtlasGrid) -> bool {
    &&& (g.tile_size + gap(g)) * g.columns + margin(g) + g.tile_size <= u32::MAX
    &&& (g.tile_size + gap(g)) * g.rows + margin(g) + g.tile_size <= u32::MAX
    &&& g.columns * g.rows * 16 <= usize::MAX / 2
}

/// The rectangle of cell `i` (counted row by row) as
/// `(min x, min y, max x, max y)`.
pub open spec fn grid_cell(g: AtlasGrid, i: int) -> (u32, u32, u32, u32) {
    let x = i % (g.columns as int);
    let y = i / (g.columns as int);
    let min_x = (g.tile_size + gap(g)) * x + margin(g);
    let min_y = (g.tile_size + gap(g)) * y + margin(g);
    (min_x as u32, min_y as u32, (min_x + g.tile_size) as u32, (min_y + g.tile_size) as u32)
}

/// The rectangles of all cells of the grid, row by row.
pub open spec fn grid_cells(g: AtlasGrid) -> Seq<(u32, u32, u32, u32)> {
    Seq::new((g.columns * g.rows) as nat, |i: int| grid_cell(g, i))
}

/// The tile rectangles of an atlas layout, as `(min x, min y, max x, max y)`,
/// in index order.
pub uninterp spec fn atlas_cells(layout: TextureAtlasLayout) -> Seq<(u32, u32, u32, u32)>;

/// Relies on `bevy::image::TextureAtlasLayout::from_grid`: it lays out one
/// rectangle per cell, row by row, each `tile_size` wide and high, cell
/// `(x, y)` starting at `(tile_size + gap) * (x, y) + margin`. Its `u32`
/// arithmetic must not overflow, nor its rectangle list outgrow memory.
#[verifier::external_body]
fn layout_from_grid(grid: &AtlasGrid) -> (r: TextureAtlasLayout)
    requires
        grid_fits(*grid),
    ensures
        atlas_cells(r) == grid_cells(*grid),
{
    TextureAtlasLayout::from_grid(
        UVec2::splat(grid.tile_size),
        grid.columns,
        grid.rows,
        grid.padding.map(UVec2::splat),
        grid.offset.map(UVec2::splat),
    )
}

/// The atlas grid of `tileset_def`.
pub fn atlas_grid(tileset_def: &TilesetDefinition) -> (r: AtlasGrid)
    ensures
        r == atlas_grid_of(*tileset_def),
{
    AtlasGrid {
        tile_size: tileset_def.tile_grid_size as u32,
        columns: tileset_def.c_wid as u32,
        rows: tileset_def.c_hei as u32,
        padding: if tileset_def.spacing != 0 {
            Some(tileset_def.spacing as u32)
        } else {
            None
        },
        offset: if tileset_def.padding != 0 {
            Some(tileset_def.padding as u32)
        } else {
            None
        },
    }
}

/// Whether `grid` fits, decided on wide integers.
pub fn check_grid_fits(grid: &AtlasGrid) -> (r: bool)
    ensures
        r == grid_fits(*grid),
{
    let gap: u128 = match grid.padding {
        Some(p) => p as u128,
        None => 0,
    };
    let margin: u128 = match grid.offset {
        Some(o) => o as u128,
        None => 0,
    };
    let step: u128 = grid.tile_size as u128 + gap;
    let columns: u128 = grid.columns as u128;
    let rows: u128 = grid.rows as u128;
    proof {
        assert(step * columns <= 0x2_0000_0000u128 * 0x1_0000_0000u128) by (nonlinear_arith)
            requires
                step <= 0x2_0000_0000u128,
                columns <= 0x1_0000_0000u128,
        ;
        assert(step * rows <= 0x2_0000_0000u128 * 0x1_0000_0000u128) by (nonlinear_arith)
            requires
                step <= 0x2_0000_0000u128,
                rows <= 0x1_0000_0000u128,
        ;
        assert(columns * rows <= 0x1_0000_0000u128 * 0x1_0000_0000u128) by (nonlinear_arith)
            requires
                rows <= 0x1_0000_0000u128,
                columns <= 0x1_0000_0000u128,
        ;
    }
    step * columns + margin + grid.tile_size as u128 <= 0xffff_ffffu128 && step * rows + margin
        + grid.tile_size as u128 <= 0xffff_ffffu128 && columns * rows * 16 <= (usize::MAX as u128) / 2
}

/// The atlas layout of `tileset_def`, where its grid fits.
pub fn tileset_atlas_layout(tileset_def: &TilesetDefinition) -> (r: Option<TextureAtlasLayout>)
    ensures
        r is Some <==> grid_fits(atlas_grid_of(*tileset_def)),
        r matches Some(l) ==> atlas_cells(l) == grid_cells(atlas_grid_of(*tileset_def)),
{
    let grid = atlas_grid(tileset_def);
    if check_grid_fits(&grid) {
        Some(layout_from_grid(&grid))
    } else {
        None
    }
}

/// What the level needs of one tileset: its uid, its tile size, the asset
/// path of its image and its atlas layout (laid out from `grid`).
pub struct TilesetAsset {
    pub uid: i64,
    pub tile_size: usize,
    pub image_path: String,
    pub grid: AtlasGrid,
    pub layout: TextureAtlasLayout,
}

/// A tileset asset without its layout: uid, tile size, image path and grid.
pub type TilesetSummary = (i64, usize, Seq<char>, AtlasGrid);

/// The summary of a tileset asset.
pub open spec fn summary(a: TilesetAsset) -> TilesetSummary {
    (a.uid, a.tile_size, a.image_path@, a.grid)
}

/// What a definition contributes for a document at `asset_path`: nothing
/// without an image path, nor where the path does not resolve or the grid
/// does not fit.
pub open spec fn tileset_entry(asset_path: Seq<char>, def: TilesetDefinition) -> Option<TilesetSummary> {
    match def.rel_path {
        None => None,
        Some(rel) => match rel_asset_path(asset_path, rel@) {
            None => None,
            Some(p) => if grid_fits(atlas_grid_of(def)) {
                Some((def.uid, def.tile_grid_size as usize, p, atlas_grid_of(def)))
            } else {
                None
            },
        },
    }
}

/// The entries of the definitions `defs`, in order.
pub open spec fn tileset_entries(asset_path: Seq<char>, defs: Seq<TilesetDefinition>) -> Seq<TilesetSummary>
    decreases defs.len(),
{
    if defs.len() == 0 {
        Seq::empty()
    } else {
        let prev = tileset_entries(asset_path, defs.drop_last());
        match tileset_entry(asset_path, defs.last()) {
            Some(e) => prev.push(e),
            None => prev,
        }
    }
}

/// The definitions of the tilesets that `level` draws from, in document order.
pub open spec fn level_tileset_defs(project: LDtkProject, level: Level) -> Seq<TilesetDefinition> {
    project.json_data.defs.tilesets@.filter(|d: TilesetDefinition| tileset_uids(level).contains(d.uid))
}

/// The tileset assets that `level` of `project` needs, in document order.
pub open spec fn level_tilesets(project: LDtkProject, level: Level) -> Seq<TilesetSummary> {
    tileset_entries(project.asset_path@, level_tileset_defs(project, level))
}

/// Resolves the tilesets that `level` draws from: for each definition in
/// use, in document order, its image path next to the document and its atlas
/// layout. Definitions without an image path, or whose path does not
/// resolve, are left out.
pub fn resolve_tilesets(project: &LDtkProject, level: &Level) -> (r: Vec<TilesetAsset>)
    ensures
        r@.map_values(|a: TilesetAsset| summary(a)) == level_tilesets(*project, *level),
        forall|i: int| 0 <= i < r@.len() ==> atlas_cells(#[trigger] r@[i].layout) == grid_cells(r@[i].grid),
{
    let uids = level.get_tileset_uid_set();
    let defs = project.get_tileset_defs(&uids);
    proof {
        assert(defs@.map_values(|d: &TilesetDefinition| *d) =~= level_tileset_defs(*project, *level));
    }
    let ghost all = level_tileset_defs(*project, *level);
    let mut r: Vec<TilesetAsset> = Vec::new();
    let mut i: usize = 0;
    while i < defs.len()
        invariant
            i <= defs@.len(),
            defs@.map_values(|d: &TilesetDefinition| *d) == all,
            r@.map_values(|a: TilesetAsset| summary(a)) == tileset_entries(project.asset_path@, all.take(i as int)),
            forall|j: int| 0 <= j < r@.len() ==> atlas_cells(#[trigger] r@[j].layout) == grid_cells(r@[j].grid),
        decreases defs@.len() - i,
    {
        let def = defs[i];
        proof {
            assert(all.take(i + 1).drop_last() =~= all.take(i as int));
            assert(all[i as int] == *def);
        }
        let ghost before = r@;
        if let Some(rel) = &def.rel_path {
            if let Some(path) = project.get_asset_rel_path(rel.as_str()) {
                if let Some(layout) = tileset_atlas_layout(def) {
                    r.push(
                        TilesetAsset {
                            uid: def.uid,
                            tile_size: def.tile_grid_size as usize,
                            image_path: path,
                            grid: atlas_grid(def),
                            layout,
                        },
                    );
                    proof {
                        assert(r@.map_values(|a: TilesetAsset| summary(a)) =~= before.map_values(
                            |a: TilesetAsset| summary(a),
                        ).push(summary(r@.last())));
                    }
                }
            }
        }
        i = i + 1;
    }
    proof {
        assert(all.take(i as int) =~= all);
    }
    r
}

} // verus!
