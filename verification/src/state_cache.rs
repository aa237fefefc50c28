//! The last player state sent for each Roon output.
use vstd::prelude::*;
use crate::player::{default_player_state, PlayerState, TimelineInfo};
use crate::table::KeyedTable;
use crate::text::owned;

verus! {

/// The state kept for an output after its timeline is set to `t`: the cached state
/// with the new timeline, or a fresh state holding only the timeline.
pub open spec fn with_timeline(cached: Option<PlayerState>, t: TimelineInfo) -> PlayerState {
    match cached {
        Some(s) => PlayerState { timeline: Some(t), ..s },
        None => PlayerState { timeline: Some(t), ..default_player_state() },
    }
}

/// Caches player state for efficient updates.
pub struct StateCache {
    /// output_id -> full PlayerState, for remapping and seek updates
    output_states: KeyedTable<String, PlayerState>,
}

impl View for StateCache {
    type V = Map<Seq<char>, PlayerState>;

    closed spec fn view(&self) -> Map<Seq<char>, PlayerState> {
        self.output_states@
    }
}

impl StateCache {
    pub closed spec fn wf(&self) -> bool {
        self.output_states.wf()
    }

    /// The cached state of `output_id`, if any.
    pub open spec fn cached(&self, output_id: Seq<char>) -> Option<PlayerState> {
        if self@.contains_key(output_id) {
            Some(self@[output_id])
        } else {
            None
        }
    }

    pub fn new() -> (c: Self)
        ensures
            c.wf(),
            c@ == Map::<Seq<char>, PlayerState>::empty(),
    {
        Self { output_states: KeyedTable::new() }
    }

    /// Get timeline info for an output (from cached PlayerState).
    pub fn get_timeline(&self, output_id: &str) -> (r: Option<TimelineInfo>)
        requires
            self.wf(),
        ensures
            r == (match self.cached(output_id@) {
                Some(s) => s.timeline,
                None => None,
            }),
    {
        let key = owned(output_id);
        match self.output_states.get(&key) {
            Some(state) => state.timeline,
            None => None,
        }
    }

    /// Update timeline info for an output (modifies timeline in existing PlayerState).
    pub fn update_timeline(&mut self, output_id: &str, timeline: &TimelineInfo)
        requires
            old(self).wf(),
        ensures
            final(self).wf(),
            final(self)@ == old(self)@.insert(
                output_id@,
                with_timeline(old(self).cached(output_id@), *timeline),
            ),
    {
        let key = owned(output_id);
        let updated = match self.output_states.get(&key) {
            Some(state) => PlayerState {
                status: state.status,
                timeline: Some(*timeline),
                texts: state.texts.clone(),
            },
            None => {
                let mut player_state = PlayerState::default();
                player_state.timeline = Some(*timeline);
                player_state
            },
        };
        self.output_states.insert(key, updated);
    }

    /// Save full player state for an output (for remapping and state tracking).
    pub fn save_output_state(&mut self, output_id: String, state: PlayerState)
        requires
            old(self).wf(),
        ensures
            final(self).wf(),
            final(self)@ == old(self)@.insert(output_id@, state),
    {
        self.output_states.insert(output_id, state);
    }

    /// Get saved player state for an output.
    pub fn get_output_state(&self, output_id: &str) -> (r: Option<PlayerState>)
        requires
            self.wf(),
        ensures
            r == self.cached(output_id@),
    {
        let key = owned(output_id);
        match self.output_states.get(&key) {
            Some(state) => Some(state.clone()),
            None => None,
        }
    }

    /// Remove state for an output.
    pub fn remove_output_state(&mut self, output_id: &str)
        requires
            old(self).wf(),
        ensures
            final(self).wf(),
            final(self)@ == old(self)@.remove(output_id@),
    {
        let key = owned(output_id);
        self.output_states.remove(&key);
    }

    /// Clear all cached states.
    pub fn clear(&mut self)
        ensures
            final(self).wf(),
            final(self)@ == Map::<Seq<char>, PlayerState>::empty(),
    {
        self.output_states.clear();
    }
}

impl Default for StateCache {
    fn default() -> (c: Self)
        ensures
            c.wf(),
            c@ == Map::<Seq<char>, PlayerState>::empty(),
    {
        Self::new()
    }
}

/// Reading a state back after saving it gives the saved state.
pub proof fn law_save_then_get(before: StateCache, after: StateCache, id: Seq<char>, s: PlayerState)
    requires
        after@ == before@.insert(id, s),
    ensures
        after.cached(id) == Some(s),
{
}

/// After a timeline update, reading the output's timeline gives the new one, and its
/// status and texts are those it had before (or those of a fresh state).
pub proof fn law_update_timeline_then_get(
    before: StateCache,
    after: StateCache,
    id: Seq<char>,
    t: TimelineInfo,
)
    requires
        after@ == before@.insert(id, with_timeline(before.cached(id), t)),
    ensures
        after.cached(id) is Some,
        after.cached(id)->0.timeline == Some(t),
        after.cached(id)->0.status == (match before.cached(id) {
            Some(s) => s.status,
            None => default_player_state().status,
        }),
        after.cached(id)->0.texts == (match before.cached(id) {
            Some(s) => s.texts,
            None => default_player_state().texts,
        }),
{
}

} // verus!
