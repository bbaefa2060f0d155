//! Holding a pending world back until every image it draws from is loaded.
use vstd::prelude::*;

verus! {

/// The load state that the asset store reports for an image and everything
/// it depends on; `Unknown` where it reports none.
#[derive(Clone, Copy, Debug, PartialEq, Eq, Structural)]
pub enum LoadState {
    Pending,
    Loaded,
    Failed,
    Unknown,
}

/// What to do with a pending world on one update.
#[derive(Clone, Copy, Debug, PartialEq, Eq, Structural)]
pub enum PollAction {
    /// Some image is not loaded yet: try again on the next update.
    Wait,
    /// Every image is loaded: build the level now and mark the world spawned.
    Spawn,
    /// The world has been built already: leave it alone.
    Done,
}

/// Whether every image of a world is fully loaded.
pub open spec fn all_loaded(states: Seq<LoadState>) -> bool {
    forall|i: int| 0 <= i < states.len() ==> states[i] == LoadState::Loaded
}

/// Whether every state in `states` is `Loaded`. A state that is still
/// pending, has failed or is unknown holds the whole world back.
pub fn world_ready(states: &Vec<LoadState>) -> (r: bool)
    ensures
        r == all_loaded(states@),
{
    let mut i: usize = 0;
    while i < states.len()
        invariant
            i <= states@.len(),
            forall|j: int| 0 <= j < i ==> states@[j] == LoadState::Loaded,
        decreases states@.len() - i,
    {
        if states[i] != LoadState::Loaded {
            return false;
        }
        i = i + 1;
    }
    true
}

/// One update of a pending world: a world already spawned is done; one whose
/// images are all loaded is spawned now; any other waits.
pub fn poll_pending_world(spawned: bool, states: &Vec<LoadState>) -> (r: PollAction)
    ensures
        spawned ==> r == PollAction::Done,
        !spawned && all_loaded(states@) ==> r == PollAction::Spawn,
        !spawned && !all_loaded(states@) ==> r == PollAction::Wait,
{
    if spawned {
        PollAction::Done
    } else if world_ready(states) {
        PollAction::Spawn
    } else {
        PollAction::Wait
    }
}

} // verus!
