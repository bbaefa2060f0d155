//! Finding the world and level that a selection names.
use vstd::prelude::*;
use crate::model::{Level, LdtkJson, World};

verus! {

/// Which level to show: by world and level index, or by the level's stable
/// identifier.
#[derive(Clone, Debug)]
pub enum LevelSelection {
    ByIndices(usize, usize),
    ByIID(String),
}

impl LevelSelection {
    /// Selects the level at `level_index` in the world at `world_index`.
    pub fn by_indices(world_index: usize, level_index: usize) -> (r: Self)
        ensures
            r == LevelSelection::ByIndices(world_index, level_index),
    {
        LevelSelection::ByIndices(world_index, level_index)
    }

    /// Selects the first level whose stable identifier is `iid`.
    pub fn by_iid(iid: &str) -> (r: Self)
        ensures
            r matches LevelSelection::ByIID(s) && s@ == iid@,
    {
        LevelSelection::ByIID(iid.to_owned())
    }
}

/// Whether level `l` of world `w` exists and has the identifier `iid`.
pub open spec fn level_matches(worlds: Seq<World>, w: int, l: int, iid: Seq<char>) -> bool {
    0 <= w < worlds.len() && 0 <= l < worlds[w].levels.len() && worlds[w].levels[l].iid@ == iid
}

/// Whether position `(w1, l1)` comes before `(w2, l2)` in document order.
pub open spec fn before(w1: int, l1: int, w2: int, l2: int) -> bool {
    w1 < w2 || (w1 == w2 && l1 < l2)
}

/// Whether `(w, l)` is the first level in document order with identifier `iid`.
pub open spec fn first_match(worlds: Seq<World>, w: int, l: int, iid: Seq<char>) -> bool {
    &&& level_matches(worlds, w, l, iid)
    &&& forall|w2: int, l2: int| before(w2, l2, w, l) ==> !level_matches(worlds, w2, l2, iid)
}

/// The world and level indices that `sel` picks in `worlds`, if any.
pub open spec fn selection_target(worlds: Seq<World>, sel: LevelSelection) -> Option<(int, int)> {
    match sel {
        LevelSelection::ByIndices(w, l) => {
            if w < worlds.len() && l < worlds[w as int].levels.len() {
                Some((w as int, l as int))
            } else {
                None
            }
        },
        LevelSelection::ByIID(iid) => {
            if exists|w: int, l: int| level_matches(worlds, w, l, iid@) {
                Some(choose|p: (int, int)| first_match(worlds, p.0, p.1, iid@))
            } else {
                None
            }
        },
    }
}

proof fn lemma_first_match_is_target(worlds: Seq<World>, sel: LevelSelection, w: int, l: int)
    requires
        sel matches LevelSelection::ByIID(iid) && first_match(worlds, w, l, iid@),
    ensures
        selection_target(worlds, sel) == Some((w, l)),
{
    let iid = sel->ByIID_0;
    assert(first_match(worlds, (w, l).0, (w, l).1, iid@));
    let p = choose|p: (int, int)| first_match(worlds, p.0, p.1, iid@);
    assert(first_match(worlds, w, l, iid@));
    assert(first_match(worlds, p.0, p.1, iid@));
    if before(p.0, p.1, w, l) {
        assert(!level_matches(worlds, p.0, p.1, iid@));
    } else if before(w, l, p.0, p.1) {
        assert(!level_matches(worlds, w, l, iid@));
    }
}

/// Every `(world index, level index)` pair of the first `n` worlds, in
/// document order.
pub open spec fn level_index_pairs(worlds: Seq<World>, n: int) -> Seq<(usize, usize)>
    decreases n,
{
    if n <= 0 {
        Seq::empty()
    } else {
        level_index_pairs(worlds, n - 1) + Seq::new(
            worlds[n - 1].levels@.len(),
            |l: int| ((n - 1) as usize, l as usize),
        )
    }
}

impl LdtkJson {
    /// Every `(world index, level index)` pair of the document, world by
    /// world and level by level.
    pub fn iter_world_levels_with_indices(&self) -> (r: Vec<(usize, usize)>)
        ensures
            r@ == level_index_pairs(self.worlds@, self.worlds@.len() as int),
    {
        let mut r: Vec<(usize, usize)> = Vec::new();
        let mut w: usize = 0;
        while w < self.worlds.len()
            invariant
                w <= self.worlds@.len(),
                r@ == level_index_pairs(self.worlds@, w as int),
            decreases self.worlds@.len() - w,
        {
            let levels = &self.worlds[w].levels;
            let ghost start = r@;
            let mut l: usize = 0;
            while l < levels.len()
                invariant
                    w < self.worlds@.len(),
                    levels == self.worlds@[w as int].levels,
                    l <= levels@.len(),
                    r@ == start + Seq::new(l as nat, |k: int| (w, k as usize)),
                decreases levels@.len() - l,
            {
                r.push((w, l));
                proof {
                    assert(r@ =~= start + Seq::new((l + 1) as nat, |k: int| (w, k as usize)));
                }
                l = l + 1;
            }
            proof {
                assert(r@ =~= level_index_pairs(self.worlds@, w + 1));
            }
            w = w + 1;
        }
        r
    }

    /// The world at `world_index` and its level at `level_index`, as indices,
    /// if both exist.
    pub fn find_world_level_at_indices(&self, world_index: usize, level_index: usize) -> (r: Option<(usize, usize)>)
        ensures
            r == (if world_index < self.worlds@.len() && level_index < self.worlds@[world_index as int].levels@.len() {
                Some((world_index, level_index))
            } else {
                None
            }),
    {
        if world_index < self.worlds.len() && level_index < self.worlds[world_index].levels.len() {
            Some((world_index, level_index))
        } else {
            None
        }
    }

    /// The first level in document order whose stable identifier is `iid`,
    /// as world and level indices.
    pub fn find_world_level_by_iid(&self, iid: &String) -> (r: Option<(usize, usize)>)
        ensures
            r is None <==> !exists|w: int, l: int| level_matches(self.worlds@, w, l, iid@),
            r matches Some((w, l)) ==> first_match(self.worlds@, w as int, l as int, iid@),
    {
        let mut w: usize = 0;
        while w < self.worlds.len()
            invariant
                w <= self.worlds@.len(),
                forall|w2: int, l2: int| w2 < w ==> !level_matches(self.worlds@, w2, l2, iid@),
            decreases self.worlds@.len() - w,
        {
            let levels = &self.worlds[w].levels;
            let mut l: usize = 0;
            while l < levels.len()
                invariant
                    w < self.worlds@.len(),
                    levels == self.worlds@[w as int].levels,
                    l <= levels@.len(),
                    forall|w2: int, l2: int| before(w2, l2, w as int, l as int) ==> !level_matches(self.worlds@, w2, l2, iid@),
                decreases levels@.len() - l,
            {
                if levels[l].iid == *iid {
                    assert(level_matches(self.worlds@, w as int, l as int, iid@));
                    return Some((w, l));
                }
                assert forall|w2: int, l2: int| before(w2, l2, w as int, l + 1) implies !level_matches(
                    self.worlds@,
                    w2,
                    l2,
                    iid@,
                ) by {
                    if !before(w2, l2, w as int, l as int) {
                        assert(w2 == w && l2 == l);
                    }
                }
                l = l + 1;
            }
            assert forall|w2: int, l2: int| w2 < w + 1 implies !level_matches(self.worlds@, w2, l2, iid@) by {
                if w2 < w || l2 < l {
                    assert(before(w2, l2, w as int, l as int));
                }
            }
            w = w + 1;
        }
        None
    }

    /// The world and level indices that `level_selection` picks.
    pub fn locate_world_level(&self, level_selection: &LevelSelection) -> (r: Option<(usize, usize)>)
        ensures
            match r {
                Some((w, l)) => {
                    &&& selection_target(self.worlds@, *level_selection) == Some((w as int, l as int))
                    &&& w < self.worlds@.len()
                    &&& l < self.worlds@[w as int].levels@.len()
                },
                None => selection_target(self.worlds@, *level_selection) is None,
            },
    {
        match level_selection {
            LevelSelection::ByIndices(world_index, level_index) => {
                self.find_world_level_at_indices(*world_index, *level_index)
            },
            LevelSelection::ByIID(iid) => {
                let r = self.find_world_level_by_iid(iid);
                proof {
                    if let Some((w, l)) = r {
                        lemma_first_match_is_target(self.worlds@, *level_selection, w as int, l as int);
                    }
                }
                r
            },
        }
    }

    /// The world and level that `level_selection` picks.
    pub fn find_world_level(&self, level_selection: &LevelSelection) -> (r: Option<(&World, &Level)>)
        ensures
            match selection_target(self.worlds@, *level_selection) {
                Some((w, l)) => r == Some((&self.worlds@[w], &self.worlds@[w].levels@[l])),
                None => r is None,
            },
    {
        match self.locate_world_level(level_selection) {
            Some((w, l)) => {
                let world = &self.worlds[w];
                Some((world, &world.levels[l]))
            },
            None => None,
        }
    }
}

} // verus!
