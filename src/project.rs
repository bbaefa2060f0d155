//! A loaded level document together with the asset path it was loaded from.
use vstd::prelude::*;
use std::collections::HashSet;
use bevy::asset::AssetPath;
use crate::locator::{selection_target, LevelSelection};
use crate::model::{Level, LdtkJson, TilesetDefinition, World};

verus! {

broadcast use vstd::std_specs::hash::group_hash_axioms;

/// The directory part of the asset path `path`, as `AssetPath::parent` gives
/// it; `None` where the path has no parent or does not parse.
pub uninterp spec fn asset_parent_of(path: Seq<char>) -> Option<Seq<char>>;

/// The path `rel` resolved against the asset path `base`, as
/// `AssetPath::resolve` gives it; `None` where either does not parse.
pub uninterp spec fn asset_resolved(base: Seq<char>, rel: Seq<char>) -> Option<Seq<char>>;

/// Relies on `bevy::asset::AssetPath::parent` (after `AssetPath::try_parse`):
/// the parent of a path depends on the path text alone.
#[verifier::external_body]
fn asset_parent(path: &str) -> (r: Option<String>)
    ensures
        match r {
            Some(p) => asset_parent_of(path@) == Some(p@),
            None => asset_parent_of(path@) is None,
        },
{
    AssetPath::try_parse(path).ok()?.parent().map(|p| p.to_string())
}

/// Relies on `bevy::asset::AssetPath::resolve` (after `AssetPath::try_parse`):
/// the resolved path depends on the two path texts alone.
#[verifier::external_body]
fn asset_resolve(base: &str, rel: &str) -> (r: Option<String>)
    ensures
        match r {
            Some(p) => asset_resolved(base@, rel@) == Some(p@),
            None => asset_resolved(base@, rel@) is None,
        },
{
    AssetPath::try_parse(base).ok()?.resolve(rel).ok().map(|p| p.to_string())
}

/// The path of `rel` next to the document at `asset_path`, if both steps of
/// the resolution succeed.
pub open spec fn rel_asset_path(asset_path: Seq<char>, rel: Seq<char>) -> Option<Seq<char>> {
    match asset_parent_of(asset_path) {
        Some(dir) => asset_resolved(dir, rel),
        None => None,
    }
}

/// A level document as an asset: the parsed document and the asset path it
/// was loaded from.
pub struct LDtkProject {
    pub asset_path: String,
    pub json_data: LdtkJson,
}

impl LDtkProject {
    /// Wraps the document `json_data` loaded from `asset_path`.
    pub fn new(asset_path: &str, json_data: LdtkJson) -> (r: Self)
        ensures
            r.asset_path@ == asset_path@,
            r.json_data == json_data,
    {
        LDtkProject { asset_path: asset_path.to_owned(), json_data }
    }

    /// The worlds of the document.
    pub fn worlds(&self) -> (r: &Vec<World>)
        ensures
            r == &self.json_data.worlds,
    {
        &self.json_data.worlds
    }

    /// The tileset definitions whose uid is in `tileset_uid_set`, in the
    /// order of the document.
    pub fn get_tileset_defs(&self, tileset_uid_set: &HashSet<i64>) -> (r: Vec<&TilesetDefinition>)
        ensures
            r@.map_values(|d: &TilesetDefinition| *d) == self.json_data.defs.tilesets@.filter(|d: TilesetDefinition| tileset_uid_set@.contains(d.uid)),
    {
        let defs = &self.json_data.defs.tilesets;
        let mut r: Vec<&TilesetDefinition> = Vec::new();
        let mut i: usize = 0;
        proof {
            reveal(Seq::filter);
        }
        while i < defs.len()
            invariant
                i <= defs@.len(),
                defs == &self.json_data.defs.tilesets,
                r@.map_values(|d: &TilesetDefinition| *d) == defs@.take(i as int).filter(|d: TilesetDefinition| tileset_uid_set@.contains(d.uid)),
            decreases defs@.len() - i,
        {
            proof {
                assert(defs@.take(i + 1).drop_last() =~= defs@.take(i as int));
            }
            if tileset_uid_set.contains(&defs[i].uid) {
                r.push(&defs[i]);
            }
            proof {
                reveal(Seq::filter);
                assert(r@.map_values(|d: &TilesetDefinition| *d) =~= defs@.take(i + 1).filter(
                    |d: TilesetDefinition| tileset_uid_set@.contains(d.uid),
                ));
            }
            i = i + 1;
        }
        proof {
            assert(defs@.take(i as int) =~= defs@);
        }
        r
    }

    /// The asset path of `rel_path`, taken relative to the directory that
    /// holds the document.
    pub fn get_asset_rel_path(&self, rel_path: &str) -> (r: Option<String>)
        ensures
            match r {
                Some(p) => rel_asset_path(self.asset_path@, rel_path@) == Some(p@),
                None => rel_asset_path(self.asset_path@, rel_path@) is None,
            },
    {
        match asset_parent(self.asset_path.as_str()) {
            Some(dir) => asset_resolve(dir.as_str(), rel_path),
            None => None,
        }
    }

    /// The world and level that `level_selection` picks in the document.
    pub fn find_world_level(&self, level_selection: &LevelSelection) -> (r: Option<(&World, &Level)>)
        ensures
            match selection_target(self.json_data.worlds@, *level_selection) {
                Some((w, l)) => r == Some((&self.json_data.worlds@[w], &self.json_data.worlds@[w].levels@[l])),
                None => r is None,
            },
    {
        self.json_data.find_world_level(level_selection)
    }
}

} // verus!
