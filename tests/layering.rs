use ldtk_layers::layering::{plan_int_grid_layer, plan_level, LDtkCoord, TilePlan};
use ldtk_layers::load_gate::{poll_pending_world, world_ready, LoadState, PollAction};
use ldtk_layers::model::{LayerInstance, LayerInstanceType, Level, PixelPos, TileInstance};
use ldtk_layers::stacking::{stack_coords, GridCoord};

fn tile(x: i32, y: i32, t: i64, f: i64) -> TileInstance {
    TileInstance { px: PixelPos { x, y }, t, f }
}

fn int_grid_layer(iid: &str, grid_size: i64, c_wid: i64, c_hei: i64, tiles: Vec<TileInstance>) -> LayerInstance {
    LayerInstance {
        identifier: iid.to_uppercase(),
        iid: iid.to_string(),
        layer_instance_type: LayerInstanceType::IntGrid,
        grid_size,
        c_wid,
        c_hei,
        visible: true,
        px_total_offset_x: 0,
        px_total_offset_y: 0,
        tileset_def_uid: Some(1),
        override_tileset_uid: None,
        grid_tiles: tiles,
        auto_layer_tiles: Vec::new(),
    }
}

fn level_with(layers: Option<Vec<LayerInstance>>) -> Level {
    Level {
        identifier: "Level_0".to_string(),
        iid: "level-0".to_string(),
        world_x: -1,
        world_y: -1,
        world_depth: 0,
        bg_color: "#40465B".to_string(),
        layer_instances: layers,
    }
}

fn c(x: i64, y: i64) -> GridCoord {
    GridCoord { x, y }
}

#[test]
fn stacking_empty_pool_gives_no_sublayers() {
    assert!(stack_coords(&Vec::new()).is_empty());
}

#[test]
fn stacking_distinct_pool_gives_one_sublayer_in_order() {
    let coords = vec![c(2, 0), c(0, 0), c(1, 1), c(5, 3)];
    assert_eq!(stack_coords(&coords), vec![vec![0, 1, 2, 3]]);
}

#[test]
fn stacking_counts_sublayers_by_largest_multiplicity() {
    let coords = vec![c(0, 0), c(1, 0), c(0, 0), c(0, 0), c(1, 0), c(2, 2)];
    let layers = stack_coords(&coords);
    assert_eq!(layers, vec![vec![0, 1, 5], vec![2, 4], vec![3]]);
    let total: usize = layers.iter().map(|l| l.len()).sum();
    assert_eq!(total, coords.len());
    for l in &layers {
        for i in 0..l.len() {
            for j in i + 1..l.len() {
                assert_ne!(coords[l[i]], coords[l[j]]);
            }
        }
    }
}

#[test]
fn example_layer_splits_into_two_sublayers() {
    let layer = int_grid_layer("l", 16, 4, 4, vec![tile(0, 0, 7, 0), tile(0, 0, 8, 0), tile(16, 16, 9, 0)]);
    let mut tiles: Vec<TilePlan> = Vec::new();
    let d = plan_int_grid_layer(&layer, 0, 0, &mut tiles);
    assert_eq!(d, 2);
    let order: Vec<(usize, usize)> = tiles.iter().map(|t| (t.sublayer, t.source.index)).collect();
    assert_eq!(order, vec![(0, 0), (0, 2), (1, 1)]);
    let zs: Vec<usize> = tiles.iter().map(|t| t.z).collect();
    assert_eq!(zs, vec![0, 0, 1]);
    let render: Vec<(i64, i64)> = tiles.iter().map(|t| (t.render_grid.x, t.render_grid.y)).collect();
    assert_eq!(render, vec![(0, 3), (1, 2), (0, 3)]);
}

#[test]
fn tile_plan_has_position_flips_and_coordinates() {
    let mut layer = int_grid_layer("l", 8, 10, 5, vec![tile(24, 16, 42, 3), tile(8, 0, 1, 2)]);
    layer.px_total_offset_x = 100;
    layer.px_total_offset_y = -4;
    let mut tiles = Vec::new();
    plan_int_grid_layer(&layer, 3, 10, &mut tiles);
    let t = tiles[0];
    assert_eq!((t.layer, t.x, t.y, t.z), (3, 124, -20, 10));
    assert_eq!(t.atlas_index, 42);
    assert!(t.flip_x && t.flip_y);
    assert_eq!(t.grid, GridCoord { x: 3, y: 2 });
    assert_eq!(t.render_grid, GridCoord { x: 3, y: 2 });
    let u = tiles[1];
    assert!(!u.flip_x && u.flip_y);
    assert_eq!(u.render_grid, GridCoord { x: 1, y: 4 });
}

#[test]
fn out_of_bounds_tiles_are_dropped() {
    let mut layer = int_grid_layer("l", 16, 2, 2, vec![tile(32, 0, 0, 0), tile(0, 32, 0, 0), tile(-16, 0, 0, 0)]);
    layer.auto_layer_tiles = vec![tile(16, 16, 5, 0)];
    let mut tiles = Vec::new();
    let d = plan_int_grid_layer(&layer, 0, 0, &mut tiles);
    assert_eq!(d, 1);
    assert_eq!(tiles.len(), 1);
    assert!(tiles[0].source.auto);
    assert_eq!(tiles[0].source.index, 0);
}

#[test]
fn level_without_layers_plans_nothing() {
    let plan = plan_level(&level_with(None), &vec![1]);
    assert!(plan.layers.is_empty());
    assert!(plan.tiles.is_empty());
    assert_eq!(plan.next_z, 0);
    let plan = plan_level(&level_with(Some(Vec::new())), &vec![1]);
    assert!(plan.layers.is_empty());
    assert_eq!(plan.next_z, 0);
}

#[test]
fn level_position_uses_defaults_and_flips_y() {
    let mut level = level_with(None);
    let plan = plan_level(&level, &Vec::new());
    assert_eq!((plan.x, plan.y, plan.z), (0, 0, 0));
    level.world_x = 256;
    level.world_y = 128;
    level.world_depth = 2;
    let plan = plan_level(&level, &Vec::new());
    assert_eq!((plan.x, plan.y, plan.z), (256, -128, 2));
}

#[test]
fn layers_are_visited_back_to_front_with_rising_depths() {
    let front = int_grid_layer("front", 16, 4, 4, vec![tile(0, 0, 1, 0)]);
    let back = int_grid_layer("back", 16, 4, 4, vec![tile(0, 0, 2, 0), tile(0, 0, 3, 0)]);
    let mut hidden = int_grid_layer("hidden", 16, 4, 4, vec![tile(0, 0, 4, 0)]);
    hidden.visible = false;
    let mut entities = int_grid_layer("entities", 16, 4, 4, vec![tile(0, 0, 5, 0)]);
    entities.layer_instance_type = LayerInstanceType::Entities;
    let mut other = int_grid_layer("other", 16, 4, 4, vec![tile(0, 0, 6, 0)]);
    other.tileset_def_uid = Some(99);
    let level = level_with(Some(vec![front, other, entities, hidden, back]));
    let plan = plan_level(&level, &vec![1]);
    let order: Vec<(usize, bool, usize, usize)> =
        plan.layers.iter().map(|l| (l.layer_index, l.hidden, l.z_base, l.sublayers)).collect();
    assert_eq!(order, vec![(4, false, 0, 2), (3, true, 2, 1), (0, false, 3, 1)]);
    let zs: Vec<(i64, usize)> = plan.tiles.iter().map(|t| (t.atlas_index, t.z)).collect();
    assert_eq!(zs, vec![(2, 0), (3, 1), (4, 2), (1, 3)]);
    assert_eq!(plan.next_z, 4);
}

#[test]
fn coord_from_pixel_rounds_toward_zero_and_flips_rows() {
    assert_eq!(LDtkCoord::from_ldtk_pixel(16, 33, 40), LDtkCoord { x: 2, y: -2 });
    assert_eq!(LDtkCoord::from_ldtk_pixel(16, -17, -8), LDtkCoord { x: -1, y: 0 });
}

#[test]
fn world_waits_for_every_image() {
    assert!(world_ready(&Vec::new()));
    assert!(world_ready(&vec![LoadState::Loaded, LoadState::Loaded]));
    assert!(!world_ready(&vec![LoadState::Loaded, LoadState::Pending]));
    assert!(!world_ready(&vec![LoadState::Failed]));
    assert!(!world_ready(&vec![LoadState::Unknown, LoadState::Loaded]));
    assert_eq!(poll_pending_world(false, &vec![LoadState::Loaded]), PollAction::Spawn);
    assert_eq!(poll_pending_world(false, &vec![LoadState::Pending]), PollAction::Wait);
    assert_eq!(poll_pending_world(true, &vec![LoadState::Loaded]), PollAction::Done);
}
