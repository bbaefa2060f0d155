use std::collections::HashSet;

use ldtk_layers::locator::LevelSelection;
use ldtk_layers::model::{
    Definitions, LayerInstance, LayerInstanceType, Level, LdtkJson, TilesetDefinition, World,
};
use ldtk_layers::project::LDtkProject;
use ldtk_layers::selection::apply_level_selection;
use ldtk_layers::tileset::{atlas_grid, resolve_tilesets, tileset_atlas_layout, AtlasGrid};

fn layer(def_uid: Option<i64>, override_uid: Option<i64>) -> LayerInstance {
    LayerInstance {
        identifier: "Ground".to_string(),
        iid: "ground".to_string(),
        layer_instance_type: LayerInstanceType::IntGrid,
        grid_size: 16,
        c_wid: 8,
        c_hei: 8,
        visible: true,
        px_total_offset_x: 0,
        px_total_offset_y: 0,
        tileset_def_uid: def_uid,
        override_tileset_uid: override_uid,
        grid_tiles: Vec::new(),
        auto_layer_tiles: Vec::new(),
    }
}

fn level(iid: &str, layers: Vec<LayerInstance>) -> Level {
    Level {
        identifier: iid.to_uppercase(),
        iid: iid.to_string(),
        world_x: 0,
        world_y: 0,
        world_depth: 0,
        bg_color: "#000000".to_string(),
        layer_instances: Some(layers),
    }
}

fn tileset(uid: i64, rel_path: Option<&str>) -> TilesetDefinition {
    TilesetDefinition {
        uid,
        identifier: format!("Tileset{uid}"),
        rel_path: rel_path.map(|p| p.to_string()),
        tile_grid_size: 16,
        spacing: 0,
        padding: 0,
        c_wid: 4,
        c_hei: 2,
    }
}

fn document() -> LdtkJson {
    LdtkJson {
        worlds: vec![
            World {
                identifier: "World_A".to_string(),
                iid: "world-a".to_string(),
                levels: vec![level("a0", vec![layer(Some(1), None)]), level("shared", Vec::new())],
            },
            World {
                identifier: "World_B".to_string(),
                iid: "world-b".to_string(),
                levels: vec![
                    level("shared", vec![layer(Some(1), Some(2))]),
                    level("b1", vec![layer(Some(1), None), layer(Some(3), None), layer(None, None)]),
                ],
            },
        ],
        defs: Definitions {
            tilesets: vec![
                tileset(1, Some("tiles/ground.png")),
                tileset(2, Some("../shared/deco.png")),
                tileset(3, None),
                tileset(4, Some("tiles/unused.png")),
            ],
        },
    }
}

#[test]
fn selection_by_indices_finds_the_level() {
    let doc = document();
    let (w, l) = doc.find_world_level(&LevelSelection::by_indices(1, 1)).unwrap();
    assert_eq!(w.identifier, "World_B");
    assert_eq!(l.iid, "b1");
    assert!(doc.find_world_level(&LevelSelection::by_indices(2, 0)).is_none());
    assert!(doc.find_world_level(&LevelSelection::by_indices(0, 2)).is_none());
}

#[test]
fn selection_by_iid_takes_the_first_match() {
    let doc = document();
    assert_eq!(doc.locate_world_level(&LevelSelection::by_iid("shared")), Some((0, 1)));
    assert_eq!(doc.find_world_level_by_iid(&"b1".to_string()), Some((1, 1)));
    assert_eq!(doc.find_world_level_by_iid(&"nope".to_string()), None);
}

#[test]
fn unknown_iid_leaves_the_selection_to_retry() {
    let project = LDtkProject::new("levels/world.ldtk", document());
    let selection = LevelSelection::by_iid("nonexistent");
    assert!(apply_level_selection(&vec![&project], &selection).is_none());
    // Nothing was consumed: the same selection is tried again and still waits.
    assert!(apply_level_selection(&vec![&project], &selection).is_none());
}

#[test]
fn first_document_with_the_level_gets_it() {
    let empty = LDtkProject::new(
        "other.ldtk",
        LdtkJson { worlds: Vec::new(), defs: Definitions { tilesets: Vec::new() } },
    );
    let project = LDtkProject::new("levels/world.ldtk", document());
    let plan = apply_level_selection(&vec![&empty, &project], &LevelSelection::by_iid("b1")).unwrap();
    assert_eq!((plan.project, plan.world, plan.level), (1, 1, 1));
    let uids: Vec<i64> = plan.tilesets.iter().map(|t| t.uid).collect();
    assert_eq!(uids, vec![1]);
    assert_eq!(plan.tilesets[0].image_path, "levels/tiles/ground.png");
}

#[test]
fn tileset_uids_prefer_the_override() {
    let l = level("x", vec![layer(Some(1), Some(2)), layer(Some(3), None), layer(None, None)]);
    let expected: HashSet<i64> = [2, 3].into_iter().collect();
    assert_eq!(l.get_tileset_uid_set(), expected);
    assert!(level("y", Vec::new()).get_tileset_uid_set().is_empty());
}

#[test]
fn tileset_defs_are_filtered_in_document_order() {
    let project = LDtkProject::new("levels/world.ldtk", document());
    let wanted: HashSet<i64> = [4, 1].into_iter().collect();
    let uids: Vec<i64> = project.get_tileset_defs(&wanted).iter().map(|d| d.uid).collect();
    assert_eq!(uids, vec![1, 4]);
}

#[test]
fn asset_paths_resolve_next_to_the_document() {
    let project = LDtkProject::new("levels/world.ldtk", document());
    assert_eq!(project.get_asset_rel_path("tiles/a.png"), Some("levels/tiles/a.png".to_string()));
    assert_eq!(project.get_asset_rel_path("../img/b.png"), Some("img/b.png".to_string()));
}

#[test]
fn resolver_skips_tilesets_without_image() {
    let project = LDtkProject::new("levels/world.ldtk", document());
    let doc = document();
    let assets = resolve_tilesets(&project, &doc.worlds[1].levels[1]);
    let found: Vec<(i64, usize, String)> =
        assets.iter().map(|a| (a.uid, a.tile_size, a.image_path.clone())).collect();
    assert_eq!(found, vec![(1, 16, "levels/tiles/ground.png".to_string())]);
    let assets = resolve_tilesets(&project, &doc.worlds[1].levels[0]);
    let found: Vec<(i64, String)> = assets.iter().map(|a| (a.uid, a.image_path.clone())).collect();
    assert_eq!(found, vec![(2, "shared/deco.png".to_string())]);
}

#[test]
fn atlas_grid_keeps_gap_and_margin_only_when_set() {
    let mut def = tileset(1, None);
    assert_eq!(
        atlas_grid(&def),
        AtlasGrid { tile_size: 16, columns: 4, rows: 2, padding: None, offset: None }
    );
    def.spacing = 2;
    def.padding = 1;
    assert_eq!(
        atlas_grid(&def),
        AtlasGrid { tile_size: 16, columns: 4, rows: 2, padding: Some(2), offset: Some(1) }
    );
}

#[test]
fn atlas_layout_places_cells_row_by_row() {
    let mut def = tileset(1, None);
    def.spacing = 2;
    def.padding = 1;
    let layout = tileset_atlas_layout(&def).unwrap();
    assert_eq!(layout.textures.len(), 8);
    let r = layout.textures[5];
    // cell (1, 1): (16 + 2) * 1 + 1 = 19
    assert_eq!((r.min.x, r.min.y, r.max.x, r.max.y), (19, 19, 35, 35));
    let r = layout.textures[3];
    assert_eq!((r.min.x, r.min.y, r.max.x, r.max.y), (55, 1, 71, 17));
}

#[test]
fn atlas_layout_refuses_grids_beyond_u32() {
    let mut def = tileset(1, None);
    def.tile_grid_size = 1 << 30;
    def.c_wid = 8;
    assert!(tileset_atlas_layout(&def).is_none());
}

#[test]
fn level_indices_are_listed_world_by_world() {
    let doc = document();
    assert_eq!(doc.iter_world_levels_with_indices(), vec![(0, 0), (0, 1), (1, 0), (1, 1)]);
    let empty = LdtkJson { worlds: Vec::new(), defs: Definitions { tilesets: Vec::new() } };
    assert!(empty.iter_world_levels_with_indices().is_empty());
}
