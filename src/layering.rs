//! The layering engine: turning a level into positioned tiles at increasing
//! depths, splitting tiles that share a cell into sub-layers.
use vstd::prelude::*;
use crate::model::{LayerInstance, LayerInstanceType, Level, TileInstance};
use crate::stacking::{
    as_ints, depth, lemma_sublayer_members, lemma_total_size_at_least, stack_coords, sublayer, total_size,
    GridCoord,
};
use crate::tileset::level_layers;

verus! {

/// A tile position in whole cells with `y` growing upward, as a tile's
/// pixel position divided by a tile size.
#[derive(Clone, Copy, Debug, PartialEq, Eq, Structural)]
pub struct LDtkCoord {
    pub x: i64,
    pub y: i64,
}

/// `a / b` rounded toward zero, for `b > 0`.
pub open spec fn trunc_div(a: int, b: int) -> int {
    if a >= 0 {
        a / b
    } else {
        -((-a) / b)
    }
}

impl LDtkCoord {
    /// The cell of the pixel `(x, y)` for tiles `tile_size` pixels wide, with
    /// the row negated so that it grows upward; division rounds toward zero.
    pub fn from_ldtk_pixel(tile_size: usize, x: i64, y: i64) -> (r: Self)
        requires
            0 < tile_size <= i64::MAX,
            y != i64::MIN,
        ensures
            r.x == trunc_div(x as int, tile_size as int),
            r.y == trunc_div(-(y as int), tile_size as int),
    {
        let d = tile_size as i64;
        LDtkCoord { x: div_toward_zero(x, d), y: div_toward_zero(-y, d) }
    }
}

fn div_toward_zero(a: i64, b: i64) -> (r: i64)
    requires
        b > 0,
    ensures
        r == trunc_div(a as int, b as int),
{
    if a >= 0 {
        ((a as u64) / (b as u64)) as i64
    } else {
        let m: u64 = if a == i64::MIN {
            0x8000_0000_0000_0000u64
        } else {
            (-a) as u64
        };
        let q: u64 = m / (b as u64);
        assert(q <= m);
        -(q as i128) as i64
    }
}

/// The row of a cell counted upward in a layer `c_hei` cells high, from its
/// row counted downward.
pub open spec fn render_row(c_hei: int, row: int) -> int {
    c_hei - row - 1
}

/// Flipping a row twice gives the row back.
pub proof fn lemma_render_row_round_trip(c_hei: int, row: int)
    requires
        0 <= row < c_hei,
    ensures
        0 <= render_row(c_hei, row) < c_hei,
        render_row(c_hei, render_row(c_hei, row)) == row,
{
}

/// A tile of a layer: from its grid tiles or from its auto-layer tiles, and
/// its position there.
#[derive(Clone, Copy, Debug, PartialEq, Eq, Structural)]
pub struct TileRef {
    pub auto: bool,
    pub index: usize,
}

/// A tile to draw. `layer` is its layer's position in the level plan,
/// `source` the tile in the document, `sublayer` the sub-layer it was put
/// in; `(x, y, z)` its position in the world with `y` growing upward;
/// `atlas_index` its tile in the tileset, `flip_x` and `flip_y` its flips;
/// `grid` its cell with rows counted downward and `render_grid` with rows
/// counted upward.
#[derive(Clone, Copy, Debug, PartialEq, Eq, Structural)]
pub struct TilePlan {
    pub layer: usize,
    pub source: TileRef,
    pub sublayer: usize,
    pub x: i128,
    pub y: i128,
    pub z: usize,
    pub atlas_index: i64,
    pub flip_x: bool,
    pub flip_y: bool,
    pub grid: GridCoord,
    pub render_grid: GridCoord,
}

/// The tile that `r` refers to.
pub open spec fn tile_of(layer: LayerInstance, r: TileRef) -> TileInstance {
    if r.auto {
        layer.auto_layer_tiles@[r.index as int]
    } else {
        layer.grid_tiles@[r.index as int]
    }
}

/// The cell of a tile with non-negative position, rows counted downward.
pub open spec fn grid_coord(t: TileInstance, grid_size: i64) -> GridCoord {
    GridCoord { x: ((t.px.x as int) / (grid_size as int)) as i64, y: ((t.px.y as int) / (grid_size as int)) as i64 }
}

/// Whether a tile lies inside its layer's grid.
pub open spec fn in_bounds(layer: LayerInstance, t: TileInstance) -> bool {
    &&& t.px.x >= 0
    &&& t.px.y >= 0
    &&& (t.px.x as int) / (layer.grid_size as int) < layer.c_wid
    &&& (t.px.y as int) / (layer.grid_size as int) < layer.c_hei
}

/// The tiles among the first `n` of `tiles` that lie inside the layer's
/// grid, in order.
pub open spec fn refs_upto(layer: LayerInstance, tiles: Seq<TileInstance>, auto: bool, n: int) -> Seq<TileRef>
    decreases n,
{
    if n <= 0 {
        Seq::empty()
    } else {
        let prev = refs_upto(layer, tiles, auto, n - 1);
        if in_bounds(layer, tiles[n - 1]) {
            prev.push(TileRef { auto, index: (n - 1) as usize })
        } else {
            prev
        }
    }
}

/// The layer's tile pool: its grid tiles, then its auto-layer tiles, each
/// kept only where it lies inside the grid.
pub open spec fn candidates(layer: LayerInstance) -> Seq<TileRef> {
    refs_upto(layer, layer.grid_tiles@, false, layer.grid_tiles@.len() as int) + refs_upto(
        layer,
        layer.auto_layer_tiles@,
        true,
        layer.auto_layer_tiles@.len() as int,
    )
}

/// The cells of the layer's tile pool.
pub open spec fn pool_coords(layer: LayerInstance) -> Seq<GridCoord> {
    candidates(layer).map_values(|r: TileRef| grid_coord(tile_of(layer, r), layer.grid_size))
}

/// The tile to draw for `r`, in sub-layer `sub` at depth `z`.
pub open spec fn tile_spec(layer: LayerInstance, slot: nat, r: TileRef, sub: nat, z: nat) -> TilePlan {
    let t = tile_of(layer, r);
    let g = grid_coord(t, layer.grid_size);
    TilePlan {
        layer: slot as usize,
        source: r,
        sublayer: sub as usize,
        x: (t.px.x + layer.px_total_offset_x) as i128,
        y: (layer.px_total_offset_y - t.px.y) as i128,
        z: z as usize,
        atlas_index: t.t,
        flip_x: t.f & 1 != 0,
        flip_y: t.f & 2 != 0,
        grid: g,
        render_grid: GridCoord { x: g.x, y: render_row(layer.c_hei as int, g.y as int) as i64 },
    }
}

/// The tiles to draw of sub-layer `k` of the layer at depth `z_base + k`.
pub open spec fn sublayer_tiles(layer: LayerInstance, slot: nat, z_base: nat, k: nat) -> Seq<TilePlan> {
    sublayer(pool_coords(layer), k).map_values(
        |p: int| tile_spec(layer, slot, candidates(layer)[p], k, z_base + k),
    )
}

/// The tiles to draw of the first `m` sub-layers of the layer, sub-layer
/// after sub-layer.
pub open spec fn layer_tiles_upto(layer: LayerInstance, slot: nat, z_base: nat, m: nat) -> Seq<TilePlan>
    decreases m,
{
    if m == 0 {
        Seq::empty()
    } else {
        layer_tiles_upto(layer, slot, z_base, (m - 1) as nat) + sublayer_tiles(layer, slot, z_base, (m - 1) as nat)
    }
}

/// The tiles to draw of the layer, its sub-layers at depths `z_base`,
/// `z_base + 1`, ...
pub open spec fn layer_tiles(layer: LayerInstance, slot: nat, z_base: nat) -> Seq<TilePlan> {
    layer_tiles_upto(layer, slot, z_base, depth(pool_coords(layer)))
}

proof fn lemma_refs_valid(layer: LayerInstance, tiles: Seq<TileInstance>, auto: bool, n: int)
    requires
        n <= tiles.len(),
        n <= usize::MAX,
    ensures
        forall|a: int| 0 <= a < refs_upto(layer, tiles, auto, n).len() ==> {
            let r = #[trigger] refs_upto(layer, tiles, auto, n)[a];
            &&& r.auto == auto
            &&& r.index < n
            &&& in_bounds(layer, tiles[r.index as int])
        },
    decreases n,
{
    if n > 0 {
        lemma_refs_valid(layer, tiles, auto, n - 1);
        let prev = refs_upto(layer, tiles, auto, n - 1);
        let cur = refs_upto(layer, tiles, auto, n);
        assert forall|a: int| 0 <= a < cur.len() implies (a < prev.len() && cur[a] == prev[a]) || (
        a == prev.len() && cur[a] == TileRef { auto, index: (n - 1) as usize } && in_bounds(layer, tiles[n - 1])) by {
            if a < prev.len() {
                assert(cur[a] == prev[a]);
            }
        }
    }
}

/// Whether every tile of `refs` exists in the layer and lies inside its grid.
pub open spec fn refs_valid(layer: LayerInstance, refs: Seq<TileRef>) -> bool {
    forall|a: int| 0 <= a < refs.len() ==> {
        let r = #[trigger] refs[a];
        &&& (if r.auto { r.index < layer.auto_layer_tiles@.len() } else { r.index < layer.grid_tiles@.len() })
        &&& in_bounds(layer, tile_of(layer, r))
    }
}

proof fn lemma_candidates_valid(layer: LayerInstance)
    requires
        layer.grid_tiles@.len() <= usize::MAX,
        layer.auto_layer_tiles@.len() <= usize::MAX,
    ensures
        refs_valid(layer, candidates(layer)),
{
    let g = refs_upto(layer, layer.grid_tiles@, false, layer.grid_tiles@.len() as int);
    let au = refs_upto(layer, layer.auto_layer_tiles@, true, layer.auto_layer_tiles@.len() as int);
    lemma_refs_valid(layer, layer.grid_tiles@, false, layer.grid_tiles@.len() as int);
    lemma_refs_valid(layer, layer.auto_layer_tiles@, true, layer.auto_layer_tiles@.len() as int);
    assert forall|a: int| 0 <= a < candidates(layer).len() implies {
        let r = #[trigger] candidates(layer)[a];
        &&& (if r.auto { r.index < layer.auto_layer_tiles@.len() } else { r.index < layer.grid_tiles@.len() })
        &&& in_bounds(layer, tile_of(layer, r))
    } by {
        if a < g.len() {
            assert(candidates(layer)[a] == g[a]);
        } else {
            assert(candidates(layer)[a] == au[a - g.len()]);
        }
    }
}

fn tile_in_bounds(layer: &LayerInstance, t: &TileInstance) -> (r: bool)
    requires
        layer.grid_size > 0,
    ensures
        r == in_bounds(*layer, *t),
{
    t.px.x >= 0 && t.px.y >= 0 && (t.px.x as i64) / layer.grid_size < layer.c_wid && (t.px.y as i64)
        / layer.grid_size < layer.c_hei
}

/// Appends the tiles of `tiles` that lie inside the layer's grid to `refs`,
/// and their cells to `coords`.
fn push_in_bounds(
    layer: &LayerInstance,
    tiles: &Vec<TileInstance>,
    auto: bool,
    refs: &mut Vec<TileRef>,
    coords: &mut Vec<GridCoord>,
)
    requires
        layer.grid_size > 0,
        tiles@ == (if auto { layer.auto_layer_tiles@ } else { layer.grid_tiles@ }),
        old(coords)@ == old(refs)@.map_values(|r: TileRef| grid_coord(tile_of(*layer, r), layer.grid_size)),
    ensures
        final(refs)@ == old(refs)@ + refs_upto(*layer, tiles@, auto, tiles@.len() as int),
        final(coords)@ == final(refs)@.map_values(|r: TileRef| grid_coord(tile_of(*layer, r), layer.grid_size)),
{
    let ghost start = refs@;
    let mut i: usize = 0;
    while i < tiles.len()
        invariant
            layer.grid_size > 0,
            i <= tiles@.len(),
            tiles@ == (if auto { layer.auto_layer_tiles@ } else { layer.grid_tiles@ }),
            refs@ == start + refs_upto(*layer, tiles@, auto, i as int),
            coords@ == refs@.map_values(|r: TileRef| grid_coord(tile_of(*layer, r), layer.grid_size)),
        decreases tiles@.len() - i,
    {
        let t = &tiles[i];
        if tile_in_bounds(layer, t) {
            let r = TileRef { auto, index: i };
            refs.push(r);
            coords.push(GridCoord { x: (t.px.x as i64) / layer.grid_size, y: (t.px.y as i64) / layer.grid_size });
            proof {
                assert(refs@ =~= start + refs_upto(*layer, tiles@, auto, i + 1));
                assert(coords@ =~= refs@.map_values(|r: TileRef| grid_coord(tile_of(*layer, r), layer.grid_size)));
            }
        }
        i = i + 1;
    }
}

/// The layer's tile pool and the cell of each of its tiles.
fn layer_pool(layer: &LayerInstance) -> (r: (Vec<TileRef>, Vec<GridCoord>))
    requires
        layer.grid_size > 0,
    ensures
        r.0@ == candidates(*layer),
        r.1@ == pool_coords(*layer),
{
    let mut refs: Vec<TileRef> = Vec::new();
    let mut coords: Vec<GridCoord> = Vec::new();
    proof {
        assert(coords@ =~= refs@.map_values(|r: TileRef| grid_coord(tile_of(*layer, r), layer.grid_size)));
    }
    push_in_bounds(layer, &layer.grid_tiles, false, &mut refs, &mut coords);
    push_in_bounds(layer, &layer.auto_layer_tiles, true, &mut refs, &mut coords);
    proof {
        assert(refs@ =~= candidates(*layer));
    }
    (refs, coords)
}

/// The tile to draw for `r`.
fn make_tile(layer: &LayerInstance, slot: usize, r: TileRef, sub: usize, z: usize) -> (p: TilePlan)
    requires
        layer.grid_size > 0,
        refs_valid(*layer, seq![r]),
    ensures
        p == tile_spec(*layer, slot as nat, r, sub as nat, z as nat),
{
    assert(seq![r][0] == r);
    let t = if r.auto {
        layer.auto_layer_tiles[r.index]
    } else {
        layer.grid_tiles[r.index]
    };
    let gx = (t.px.x as i64) / layer.grid_size;
    let gy = (t.px.y as i64) / layer.grid_size;
    TilePlan {
        layer: slot,
        source: r,
        sublayer: sub,
        x: t.px.x as i128 + layer.px_total_offset_x as i128,
        y: layer.px_total_offset_y as i128 - t.px.y as i128,
        z,
        atlas_index: t.t,
        flip_x: t.f & 1 != 0,
        flip_y: t.f & 2 != 0,
        grid: GridCoord { x: gx, y: gy },
        render_grid: GridCoord { x: gx, y: layer.c_hei - gy - 1 },
    }
}

proof fn lemma_layer_tiles_len(layer: LayerInstance, slot: nat, z_base: nat, m: nat)
    ensures
        layer_tiles_upto(layer, slot, z_base, m).len() == total_size(pool_coords(layer), m),
    decreases m,
{
    if m > 0 {
        lemma_layer_tiles_len(layer, slot, z_base, (m - 1) as nat);
    }
}

/// Appends to `tiles` the tiles to draw of `layer`, which stands at `slot`
/// in the level plan, its sub-layers at depths `z_base`, `z_base + 1`, ...;
/// returns the number of sub-layers.
pub fn plan_int_grid_layer(layer: &LayerInstance, slot: usize, z_base: usize, tiles: &mut Vec<TilePlan>) -> (d: usize)
    requires
        layer.grid_size > 0,
        z_base <= old(tiles)@.len(),
    ensures
        final(tiles)@ == old(tiles)@ + layer_tiles(*layer, slot as nat, z_base as nat),
        d == depth(pool_coords(*layer)),
        z_base + d <= final(tiles)@.len(),
{
    let (refs, coords) = layer_pool(layer);
    let subs = stack_coords(&coords);
    let ghost s = pool_coords(*layer);
    let ghost start = tiles@;
    let _ = layer.grid_tiles.len();
    let _ = layer.auto_layer_tiles.len();
    proof {
        lemma_candidates_valid(*layer);
        assert(refs@.len() == s.len());
    }
    let mut k: usize = 0;
    while k < subs.len()
        invariant
            layer.grid_size > 0,
            refs@ == candidates(*layer),
            coords@ == s,
            refs@.len() == s.len(),
            s == pool_coords(*layer),
            refs_valid(*layer, refs@),
            subs.len() == depth(s),
            forall|kk: int| 0 <= kk < subs.len() ==> as_ints(#[trigger] subs[kk]@) == sublayer(s, kk as nat),
            k <= subs.len(),
            z_base <= start.len(),
            tiles@ == start + layer_tiles_upto(*layer, slot as nat, z_base as nat, k as nat),
            z_base + k <= tiles@.len(),
        decreases subs.len() - k,
    {
        let sub = &subs[k];
        let ghost before = tiles@;
        proof {
            lemma_sublayer_members(s, k as nat, s.len() as int);
            lemma_total_size_at_least(s, (k + 1) as nat);
            lemma_layer_tiles_len(*layer, slot as nat, z_base as nat, (k + 1) as nat);
        }
        let _ = tiles.len();
        let z: usize = z_base + k;
        let mut a: usize = 0;
        while a < sub.len()
            invariant
                layer.grid_size > 0,
                refs@ == candidates(*layer),
                refs_valid(*layer, refs@),
                as_ints(sub@) == sublayer(s, k as nat),
                coords@ == s,
                s == pool_coords(*layer),
                refs@.len() == s.len(),
                k < subs.len(),
                a <= sub@.len(),
                forall|i: int| 0 <= i < sublayer(s, k as nat).len() ==> 0 <= #[trigger] sublayer(s, k as nat)[i] < s.len(),
                z == z_base + k,
                tiles@ == before + sublayer_tiles(*layer, slot as nat, z_base as nat, k as nat).take(a as int),
            decreases sub@.len() - a,
        {
            let p = sub[a];
            assert(as_ints(sub@)[a as int] == p as int);
            assert(sublayer(s, k as nat)[a as int] == p as int);
            let r = refs[p];
            proof {
                assert(refs@[p as int] == r);
                assert(refs_valid(*layer, seq![r])) by {
                    assert(seq![r][0] == refs@[p as int]);
                }
            }
            let t = make_tile(layer, slot, r, k, z);
            assert(as_ints(sub@).len() == sub@.len());
            assert(candidates(*layer)[p as int] == r);
            assert(sublayer_tiles(*layer, slot as nat, z_base as nat, k as nat)[a as int] == t);
            tiles.push(t);
            proof {
                assert(tiles@ =~= before + sublayer_tiles(*layer, slot as nat, z_base as nat, k as nat).take(a + 1));
            }
            a = a + 1;
        }
        proof {
            assert(sublayer_tiles(*layer, slot as nat, z_base as nat, k as nat).take(a as int) =~= sublayer_tiles(
                *layer,
                slot as nat,
                z_base as nat,
                k as nat,
            ));
            assert(tiles@ =~= start + layer_tiles_upto(*layer, slot as nat, z_base as nat, (k + 1) as nat));
        }
        k = k + 1;
    }
    subs.len()
}

/// A layer to draw: its position in the level's layer list, the tileset it
/// draws from, whether it is hidden, the depth of its first sub-layer and
/// its number of sub-layers.
#[derive(Clone, Copy, Debug, PartialEq, Eq, Structural)]
pub struct LayerPlan {
    pub layer_index: usize,
    pub tileset_uid: i64,
    pub hidden: bool,
    pub z_base: usize,
    pub sublayers: usize,
}

/// What to draw of a level: its position `(x, y, z)` in the world with `y`
/// growing upward, its layers in drawing order (back first), the tiles of
/// all of them, and the depth above the last sub-layer.
pub struct LevelPlan {
    pub x: i128,
    pub y: i128,
    pub z: i64,
    pub layers: Vec<LayerPlan>,
    pub tiles: Vec<TilePlan>,
    pub next_z: usize,
}

/// Whether a layer is drawn: an int-grid layer with a positive grid size
/// whose tileset is among `available`.
pub open spec fn layer_renders(layer: LayerInstance, available: Seq<i64>) -> bool {
    &&& layer.layer_instance_type == LayerInstanceType::IntGrid
    &&& layer.grid_size > 0
    &&& layer.tileset_def_uid is Some
    &&& available.contains(layer.tileset_def_uid->Some_0)
}

/// The layers planned, the tiles planned and the next free depth after the
/// first `j` layers in drawing order, that is the last `j` in storage order.
pub open spec fn visit(level: Level, available: Seq<i64>, j: int) -> (Seq<LayerPlan>, Seq<TilePlan>, nat)
    decreases j,
{
    if j <= 0 {
        (Seq::empty(), Seq::empty(), 0)
    } else {
        let prev = visit(level, available, j - 1);
        let li = level_layers(level).len() - j;
        let layer = level_layers(level)[li];
        if layer_renders(layer, available) {
            let d = depth(pool_coords(layer));
            (
                prev.0.push(
                    LayerPlan {
                        layer_index: li as usize,
                        tileset_uid: layer.tileset_def_uid->Some_0,
                        hidden: !layer.visible,
                        z_base: prev.2 as usize,
                        sublayers: d as usize,
                    },
                ),
                prev.1 + layer_tiles(layer, prev.0.len(), prev.2),
                prev.2 + d,
            )
        } else {
            prev
        }
    }
}

/// The layers, tiles and next free depth of the whole level.
pub open spec fn level_plan(level: Level, available: Seq<i64>) -> (Seq<LayerPlan>, Seq<TilePlan>, nat) {
    visit(level, available, level_layers(level).len() as int)
}

fn contains_uid(available: &Vec<i64>, uid: i64) -> (r: bool)
    ensures
        r == available@.contains(uid),
{
    let mut i: usize = 0;
    while i < available.len()
        invariant
            i <= available@.len(),
            forall|j: int| 0 <= j < i ==> available@[j] != uid,
        decreases available@.len() - i,
    {
        if available[i] == uid {
            assert(available@[i as int] == uid);
            return true;
        }
        i = i + 1;
    }
    false
}

/// Plans the drawing of `level`, whose tilesets `available` are loaded. The
/// level sits at its world position (`0` where a coordinate is `-1`), with
/// `y` negated. Its layers are visited from the back of storage to the
/// front; each drawn layer gets its sub-layers at consecutive depths from
/// the running depth, which starts at `0`, and the running depth then moves
/// past them. Layers that are not drawn are skipped.
pub fn plan_level(level: &Level, available: &Vec<i64>) -> (r: LevelPlan)
    ensures
        r.x == (if level.world_x != -1 { level.world_x as int } else { 0 }),
        r.y == (if level.world_y != -1 { -(level.world_y as int) } else { 0 }),
        r.z == level.world_depth,
        r.layers@ == level_plan(*level, available@).0,
        r.tiles@ == level_plan(*level, available@).1,
        r.next_z == level_plan(*level, available@).2,
        level_layers(*level).len() == 0 ==> r.layers@.len() == 0 && r.next_z == 0,
{
    let x: i128 = if level.world_x != -1 {
        level.world_x as i128
    } else {
        0
    };
    let y: i128 = if level.world_y != -1 {
        -(level.world_y as i128)
    } else {
        0
    };
    let mut layers: Vec<LayerPlan> = Vec::new();
    let mut tiles: Vec<TilePlan> = Vec::new();
    let mut z: usize = 0;
    if let Some(stored) = &level.layer_instances {
        let n = stored.len();
        let mut j: usize = 0;
        while j < n
            invariant
                n == stored@.len(),
                level_layers(*level) == stored@,
                j <= n,
                (layers@, tiles@, z as nat) == visit(*level, available@, j as int),
                z <= tiles@.len(),
            decreases n - j,
        {
            let li = n - 1 - j;
            let layer = &stored[li];
            if layer.layer_instance_type == LayerInstanceType::IntGrid && layer.grid_size > 0 {
                if let Some(uid) = layer.tileset_def_uid {
                    if contains_uid(available, uid) {
                        let slot = layers.len();
                        let d = plan_int_grid_layer(layer, slot, z, &mut tiles);
                        let _ = tiles.len();
                        layers.push(
                            LayerPlan {
                                layer_index: li,
                                tileset_uid: uid,
                                hidden: !layer.visible,
                                z_base: z,
                                sublayers: d,
                            },
                        );
                        z = z + d;
                    }
                }
            }
            j = j + 1;
        }
    }
    LevelPlan { x, y, z: level.world_depth, layers, tiles, next_z: z }
}

proof fn lemma_layer_tiles_shape(layer: LayerInstance, slot: nat, z_base: nat, m: nat)
    requires
        z_base + m <= usize::MAX,
        slot <= usize::MAX,
    ensures
        forall|a: int| 0 <= a < layer_tiles_upto(layer, slot, z_base, m).len() ==> {
            let t = #[trigger] layer_tiles_upto(layer, slot, z_base, m)[a];
            &&& t.layer == slot
            &&& t.sublayer < m
            &&& t.z == z_base + t.sublayer
        },
    decreases m,
{
    if m > 0 {
        lemma_layer_tiles_shape(layer, slot, z_base, (m - 1) as nat);
        let prev = layer_tiles_upto(layer, slot, z_base, (m - 1) as nat);
        let last = sublayer_tiles(layer, slot, z_base, (m - 1) as nat);
        let cur = layer_tiles_upto(layer, slot, z_base, m);
        assert forall|a: int| 0 <= a < cur.len() implies {
            let t = #[trigger] cur[a];
            &&& t.layer == slot
            &&& t.sublayer < m
            &&& t.z == z_base + t.sublayer
        } by {
            if a < prev.len() {
                assert(cur[a] == prev[a]);
            } else {
                assert(cur[a] == last[a - prev.len()]);
            }
        }
    }
}

/// Whether the planned layers and tiles keep their depths in order: each
/// tile lies at its layer's first depth plus its sub-layer, below the
/// layer's last; each layer lies wholly below the next and below `z`.
pub open spec fn plan_ordered(ls: Seq<LayerPlan>, ts: Seq<TilePlan>, z: nat) -> bool {
    &&& forall|a: int| 0 <= a < ts.len() ==> {
        let t = #[trigger] ts[a];
        &&& t.layer < ls.len()
        &&& t.sublayer < ls[t.layer as int].sublayers
        &&& t.z == ls[t.layer as int].z_base + t.sublayer
    }
    &&& forall|s: int| 0 <= s < ls.len() ==> #[trigger] ls[s].z_base + ls[s].sublayers <= z
    &&& forall|s1: int, s2: int|
        0 <= s1 < s2 < ls.len() ==> #[trigger] ls[s1].z_base + ls[s1].sublayers <= #[trigger] ls[s2].z_base
    &&& forall|s1: int, s2: int|
        0 <= s1 < s2 < ls.len() ==> #[trigger] ls[s1].layer_index > #[trigger] ls[s2].layer_index
}

proof fn lemma_visit_ordered(level: Level, available: Seq<i64>, j: int)
    requires
        0 <= j <= level_layers(level).len(),
        level_layers(level).len() <= usize::MAX,
        visit(level, available, j).1.len() <= usize::MAX,
    ensures
        plan_ordered(visit(level, available, j).0, visit(level, available, j).1, visit(level, available, j).2),
        visit(level, available, j).2 <= visit(level, available, j).1.len(),
        visit(level, available, j).0.len() <= j,
        forall|s: int|
            0 <= s < visit(level, available, j).0.len() ==> #[trigger] visit(level, available, j).0[s].layer_index
                >= level_layers(level).len() - j,
    decreases j,
{
    if j > 0 {
        let prev = visit(level, available, j - 1);
        let cur = visit(level, available, j);
        let n = level_layers(level).len();
        let li = n - j;
        let layer = level_layers(level)[li];
        if layer_renders(layer, available) {
            assert(cur.1.len() >= prev.1.len());
            lemma_visit_ordered(level, available, j - 1);
            let d = depth(pool_coords(layer));
            let slot = prev.0.len();
            let added = layer_tiles(layer, slot, prev.2);
            lemma_layer_tiles_len(layer, slot, prev.2, d);
            lemma_total_size_at_least(pool_coords(layer), d);
            assert(prev.2 + d <= cur.1.len());
            lemma_layer_tiles_shape(layer, slot, prev.2, d);
            let lp = LayerPlan {
                layer_index: li as usize,
                tileset_uid: layer.tileset_def_uid->Some_0,
                hidden: !layer.visible,
                z_base: prev.2 as usize,
                sublayers: d as usize,
            };
            assert(cur.0 == prev.0.push(lp));
            assert(cur.1 == prev.1 + added);
            assert forall|a: int| 0 <= a < cur.1.len() implies {
                let t = #[trigger] cur.1[a];
                &&& t.layer < cur.0.len()
                &&& t.sublayer < cur.0[t.layer as int].sublayers
                &&& t.z == cur.0[t.layer as int].z_base + t.sublayer
            } by {
                if a < prev.1.len() {
                    assert(cur.1[a] == prev.1[a]);
                    assert(cur.0[prev.1[a].layer as int] == prev.0[prev.1[a].layer as int]);
                } else {
                    assert(cur.1[a] == added[a - prev.1.len()]);
                }
            }
            assert forall|s1: int, s2: int| 0 <= s1 < s2 < cur.0.len() implies #[trigger] cur.0[s1].z_base
                + cur.0[s1].sublayers <= #[trigger] cur.0[s2].z_base by {
                assert(cur.0[s1] == prev.0[s1]);
                if s2 < prev.0.len() {
                    assert(cur.0[s2] == prev.0[s2]);
                }
            }
            assert forall|s1: int, s2: int| 0 <= s1 < s2 < cur.0.len() implies #[trigger] cur.0[s1].layer_index
                > #[trigger] cur.0[s2].layer_index by {
                assert(cur.0[s1] == prev.0[s1]);
                if s2 < prev.0.len() {
                    assert(cur.0[s2] == prev.0[s2]);
                }
            }
            assert forall|s: int| 0 <= s < cur.0.len() implies #[trigger] cur.0[s].z_base + cur.0[s].sublayers
                <= cur.2 by {
                if s < prev.0.len() {
                    assert(cur.0[s] == prev.0[s]);
                }
            }
            assert forall|s: int| 0 <= s < cur.0.len() implies #[trigger] cur.0[s].layer_index >= n - j by {
                if s < prev.0.len() {
                    assert(cur.0[s] == prev.0[s]);
                }
            }
        } else {
            lemma_visit_ordered(level, available, j - 1);
        }
    }
}

/// Depths only grow in drawing order: a tile of a later layer, or of a
/// later sub-layer of the same layer, lies strictly above; the layers are
/// drawn in reverse storage order, and every tile lies below the level's
/// next free depth.
pub proof fn lemma_depth_order(level: Level, available: Seq<i64>)
    requires
        level_layers(level).len() <= usize::MAX,
        level_plan(level, available).1.len() <= usize::MAX,
    ensures
        forall|a: int, b: int|
            0 <= a < level_plan(level, available).1.len() && 0 <= b < level_plan(level, available).1.len() && (
            #[trigger] level_plan(level, available).1[a].layer < #[trigger] level_plan(level, available).1[b].layer
                || (level_plan(level, available).1[a].layer == level_plan(level, available).1[b].layer
                && level_plan(level, available).1[a].sublayer < level_plan(level, available).1[b].sublayer))
                ==> level_plan(level, available).1[a].z < level_plan(level, available).1[b].z,
        forall|s1: int, s2: int|
            0 <= s1 < s2 < level_plan(level, available).0.len() ==> #[trigger] level_plan(level, available).0[s1].layer_index
                > #[trigger] level_plan(level, available).0[s2].layer_index,
        forall|a: int|
            0 <= a < level_plan(level, available).1.len() ==> #[trigger] level_plan(level, available).1[a].z
                < level_plan(level, available).2,
{
    let p = level_plan(level, available);
    lemma_visit_ordered(level, available, level_layers(level).len() as int);
    assert forall|a: int, b: int|
        0 <= a < p.1.len() && 0 <= b < p.1.len() && (#[trigger] p.1[a].layer < #[trigger] p.1[b].layer || (
        p.1[a].layer == p.1[b].layer && p.1[a].sublayer < p.1[b].sublayer)) implies p.1[a].z < p.1[b].z by {
        let sa = p.1[a].layer as int;
        let sb = p.1[b].layer as int;
        if sa < sb {
            assert(p.0[sa].z_base + p.0[sa].sublayers <= p.0[sb].z_base);
        }
    }
    assert forall|a: int| 0 <= a < p.1.len() implies #[trigger] p.1[a].z < p.2 by {
        let sa = p.1[a].layer as int;
        assert(p.0[sa].z_base + p.0[sa].sublayers <= p.2);
    }
}

} // verus!
