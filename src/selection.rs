//! Applying a level selection to the loaded documents.
use vstd::prelude::*;
use crate::locator::{selection_target, LevelSelection};
use crate::project::LDtkProject;
use crate::tileset::{atlas_cells, grid_cells, level_tilesets, resolve_tilesets, summary, TilesetAsset};

verus! {

/// What applying a selection produces: the document that it matched (its
/// position among the loaded ones), the world and level indices, and the
/// tileset assets that the level needs. The caller clears the selection,
/// discards what that document's entity had spawned before and records the
/// level as a pending world.
pub struct SelectionPlan {
    pub project: usize,
    pub world: usize,
    pub level: usize,
    pub tilesets: Vec<TilesetAsset>,
}

/// Whether document `p` of `projects` holds the selected level.
pub open spec fn project_matches(projects: Seq<&LDtkProject>, p: int, sel: LevelSelection) -> bool {
    selection_target(projects[p].json_data.worlds@, sel) is Some
}

/// Applies `level_selection` to the loaded documents `projects`: the first
/// document that holds the selected level gets it, and the others are left
/// alone. `None` where no document holds it: the selection then stays in
/// place to be tried again on the next update.
pub fn apply_level_selection(projects: &Vec<&LDtkProject>, level_selection: &LevelSelection) -> (r: Option<SelectionPlan>)
    ensures
        r is None <==> forall|p: int| 0 <= p < projects@.len() ==> !project_matches(projects@, p, *level_selection),
        r matches Some(plan) ==> {
            let project = projects@[plan.project as int];
            &&& plan.project < projects@.len()
            &&& project_matches(projects@, plan.project as int, *level_selection)
            &&& forall|p: int| 0 <= p < plan.project ==> !project_matches(projects@, p, *level_selection)
            &&& selection_target(project.json_data.worlds@, *level_selection) == Some((plan.world as int, plan.level as int))
            &&& plan.world < project.json_data.worlds@.len()
            &&& plan.level < project.json_data.worlds@[plan.world as int].levels@.len()
            &&& plan.tilesets@.map_values(|a: TilesetAsset| summary(a)) == level_tilesets(
                *project,
                project.json_data.worlds@[plan.world as int].levels@[plan.level as int],
            )
            &&& forall|i: int| 0 <= i < plan.tilesets@.len() ==> atlas_cells(#[trigger] plan.tilesets@[i].layout) == grid_cells(plan.tilesets@[i].grid)
        },
{
    let mut p: usize = 0;
    while p < projects.len()
        invariant
            p <= projects@.len(),
            forall|q: int| 0 <= q < p ==> !project_matches(projects@, q, *level_selection),
        decreases projects@.len() - p,
    {
        let project = projects[p];
        match project.json_data.locate_world_level(level_selection) {
            Some((w, l)) => {
                assert(project_matches(projects@, p as int, *level_selection));
                let tilesets = resolve_tilesets(project, &project.json_data.worlds[w].levels[l]);
                return Some(SelectionPlan { project: p, world: w, level: l, tilesets });
            },
            None => {},
        }
        p = p + 1;
    }
    None
}

} // verus!
