//! What a Roon zone event means for the players of its outputs.
use vstd::prelude::*;
use crate::conversions::{
    build_timeline_from_seek, convert_zone_to_player_state, seek_in_range,
    spec_timeline_from_seek, spec_zone_player_state, zone_position_ok,
};
use crate::player::{DeviceId, ManagedPlayerId, PlayerState, TimeSpan, TimelineInfo};
use crate::player_manager::{text_views, PlayerManager};
use crate::roon::{Output, Zone, ZoneSeek};
use crate::state_cache::{with_timeline, StateCache};

verus! {

/// The output ids of a sequence of outputs.
pub open spec fn output_ids(outputs: Seq<Output>) -> Seq<Seq<char>> {
    outputs.map_values(|o: Output| o.output_id@)
}

/// Cache and player updates after a zone change, output by output: each output's state
/// is cached; outputs with a player get the state sent.
pub open spec fn spec_zone_changed(
    cache: Map<Seq<char>, PlayerState>,
    outputs: Seq<Seq<char>>,
    players: Map<Seq<char>, (ManagedPlayerId, DeviceId)>,
    st: PlayerState,
) -> (Map<Seq<char>, PlayerState>, Seq<(ManagedPlayerId, PlayerState)>)
    decreases outputs.len(),
{
    if outputs.len() == 0 {
        (cache, Seq::empty())
    } else {
        let (c, r) = spec_zone_changed(cache, outputs.drop_last(), players, st);
        let k = outputs.last();
        (
            c.insert(k, st),
            if players.contains_key(k) {
                r.push((players[k].0, st))
            } else {
                r
            },
        )
    }
}

/// The cached state of `k` in `cache`, if any.
pub open spec fn cached_in(cache: Map<Seq<char>, PlayerState>, k: Seq<char>) -> Option<PlayerState> {
    if cache.contains_key(k) {
        Some(cache[k])
    } else {
        None
    }
}

/// The cached timeline of `k` in `cache`, if any.
pub open spec fn cached_timeline(cache: Map<Seq<char>, PlayerState>, k: Seq<char>) -> Option<
    TimelineInfo,
> {
    match cached_in(cache, k) {
        Some(s) => s.timeline,
        None => None,
    }
}

/// Cache and player updates after a seek update with a known position, output by output:
/// each output with a player gets a timeline built from the update and its cached
/// timeline; the timeline is cached and sent.
pub open spec fn spec_zone_seek(
    cache: Map<Seq<char>, PlayerState>,
    outputs: Seq<Seq<char>>,
    players: Map<Seq<char>, (ManagedPlayerId, DeviceId)>,
    zone_seek: ZoneSeek,
    now: TimeSpan,
) -> (Map<Seq<char>, PlayerState>, Seq<(ManagedPlayerId, TimelineInfo)>)
    decreases outputs.len(),
{
    if outputs.len() == 0 {
        (cache, Seq::empty())
    } else {
        let (c, r) = spec_zone_seek(cache, outputs.drop_last(), players, zone_seek, now);
        let k = outputs.last();
        if players.contains_key(k) {
            let t = spec_timeline_from_seek(cached_timeline(c, k), zone_seek, now)->0;
            (c.insert(k, with_timeline(cached_in(c, k), t)), r.push((players[k].0, t)))
        } else {
            (c, r)
        }
    }
}

/// Handles Roon zone events and says which players get which update.
pub struct ZoneEventHandler {}

impl ZoneEventHandler {
    pub fn new() -> Self {
        ZoneEventHandler {  }
    }

    /// Handle full zone state change (play, pause, track change, etc.) at time `now`:
    /// records the zone's outputs, caches the zone's state for each output and returns
    /// the state updates for the outputs that have a player.
    pub fn handle_zone_changed(
        &self,
        player_manager: &mut PlayerManager,
        state_cache: &mut StateCache,
        zone: &Zone,
        now: TimeSpan,
    ) -> (updates: Vec<(ManagedPlayerId, PlayerState)>)
        requires
            old(player_manager).wf(),
            old(state_cache).wf(),
            zone_position_ok(*zone),
        ensures
            final(player_manager).wf(),
            final(state_cache).wf(),
            final(player_manager).players() == old(player_manager).players(),
            final(player_manager).zones() == old(player_manager).zones().insert(
                zone.zone_id@,
                output_ids(zone.outputs@),
            ),
            (final(state_cache)@, updates@) == spec_zone_changed(
                old(state_cache)@,
                output_ids(zone.outputs@),
                old(player_manager).players(),
                spec_zone_player_state(*zone, now),
            ),
    {
        // Update zone mapping
        let ghost outs = output_ids(zone.outputs@);
        let mut ids: Vec<String> = Vec::new();
        let n = zone.outputs.len();
        let mut i: usize = 0;
        while i < n
            invariant
                n == zone.outputs@.len(),
                outs == output_ids(zone.outputs@),
                i <= n,
                text_views(ids@) == outs.take(i as int),
            decreases n - i,
        {
            let ghost before = ids@;
            ids.push(zone.outputs[i].output_id.clone());
            assert(outs[i as int] == zone.outputs@[i as int].output_id@);
            assert(text_views(ids@) =~= text_views(before).push(outs[i as int]));
            assert(outs.take(i + 1) =~= outs.take(i as int).push(outs[i as int]));
            i = i + 1;
        }
        assert(outs.take(n as int) =~= outs);
        player_manager.update_zone_mapping(zone.zone_id.clone(), ids);

        // Collect updates for all outputs in this zone
        let ghost st = spec_zone_player_state(*zone, now);
        let ghost players = player_manager.players();
        let mut player_updates: Vec<(ManagedPlayerId, PlayerState)> = Vec::new();
        let mut j: usize = 0;
        assert(outs.take(0) =~= Seq::<Seq<char>>::empty());
        while j < n
            invariant
                n == zone.outputs@.len(),
                outs == output_ids(zone.outputs@),
                zone_position_ok(*zone),
                st == spec_zone_player_state(*zone, now),
                players == player_manager.players(),
                player_manager.wf(),
                state_cache.wf(),
                j <= n,
                (state_cache@, player_updates@) == spec_zone_changed(
                    old(state_cache)@,
                    outs.take(j as int),
                    players,
                    st,
                ),
            decreases n - j,
        {
            assert(outs.take(j + 1).drop_last() =~= outs.take(j as int));
            let output: &Output = &zone.outputs[j];
            let player_state = convert_zone_to_player_state(zone, now);
            // Save full state for this output (for remapping)
            state_cache.save_output_state(output.output_id.clone(), player_state.clone());
            match player_manager.get_player(output.output_id.as_str()) {
                Some(player_id) => {
                    player_updates.push((player_id, player_state));
                },
                None => {},
            }
            j = j + 1;
        }
        assert(outs.take(n as int) =~= outs);
        player_updates
    }

    /// Handle seek-only update (timeline position change) at time `now`: for each output
    /// of the zone that has a player, builds the new timeline from the update and the
    /// cached one, caches it and returns it for that player. An update without a position
    /// changes nothing.
    pub fn handle_zone_seek(
        &self,
        player_manager: &PlayerManager,
        state_cache: &mut StateCache,
        zone_seek: &ZoneSeek,
        now: TimeSpan,
    ) -> (updates: Vec<(ManagedPlayerId, TimelineInfo)>)
        requires
            player_manager.wf(),
            old(state_cache).wf(),
            seek_in_range(*zone_seek),
        ensures
            final(state_cache).wf(),
            zone_seek.seek_position is None ==> final(state_cache)@ == old(state_cache)@
                && updates@.len() == 0,
            zone_seek.seek_position is Some ==> (final(state_cache)@, updates@) == spec_zone_seek(
                old(state_cache)@,
                player_manager.outputs_of(zone_seek.zone_id@),
                player_manager.players(),
                *zone_seek,
                now,
            ),
    {
        let mut timeline_updates: Vec<(ManagedPlayerId, TimelineInfo)> = Vec::new();
        if zone_seek.seek_position.is_none() {
            return timeline_updates;
        }
        let outputs = player_manager.get_outputs_for_zone(zone_seek.zone_id.as_str());
        let ghost outs = text_views(outputs@);
        let ghost players = player_manager.players();
        let n = outputs.len();
        let mut i: usize = 0;
        assert(outs.take(0) =~= Seq::<Seq<char>>::empty());
        while i < n
            invariant
                n == outputs@.len(),
                outs == text_views(outputs@),
                zone_seek.seek_position is Some,
                seek_in_range(*zone_seek),
                players == player_manager.players(),
                player_manager.wf(),
                state_cache.wf(),
                i <= n,
                (state_cache@, timeline_updates@) == spec_zone_seek(
                    old(state_cache)@,
                    outs.take(i as int),
                    players,
                    *zone_seek,
                    now,
                ),
            decreases n - i,
        {
            assert(outs.take(i + 1).drop_last() =~= outs.take(i as int));
            let output_id: &String = &outputs[i];
            match player_manager.get_player(output_id.as_str()) {
                Some(player_id) => {
                    // Get cached timeline and build updated timeline from seek
                    let cached = state_cache.get_timeline(output_id.as_str());
                    let built = build_timeline_from_seek(
                        match &cached {
                            Some(t) => Some(t),
                            None => None,
                        },
                        zone_seek,
                        now,
                    );
                    match built {
                        Some(timeline) => {
                            state_cache.update_timeline(output_id.as_str(), &timeline);
                            timeline_updates.push((player_id, timeline));
                        },
                        None => {},
                    }
                },
                None => {},
            }
            i = i + 1;
        }
        assert(outs.take(n as int) =~= outs);
        timeline_updates
    }
}

/// A zone change sends the zone's state to the player of every output of the zone that
/// has one, in the zone's output order, and caches the state for every output of the
/// zone, leaving the other cached states alone.
pub proof fn law_zone_changed(
    cache: Map<Seq<char>, PlayerState>,
    outputs: Seq<Seq<char>>,
    players: Map<Seq<char>, (ManagedPlayerId, DeviceId)>,
    st: PlayerState,
)
    ensures
        spec_zone_changed(cache, outputs, players, st).1 == crate::player_manager::players_of(
            outputs,
            players,
        ).map_values(|p: ManagedPlayerId| (p, st)),
        forall|k: Seq<char>|
            #[trigger] spec_zone_changed(cache, outputs, players, st).0.contains_key(k) <==> (
            cache.contains_key(k) || outputs.contains(k)),
        forall|k: Seq<char>|
            outputs.contains(k) ==> #[trigger] spec_zone_changed(cache, outputs, players, st).0[k]
                == st,
        forall|k: Seq<char>|
            !outputs.contains(k) ==> #[trigger] spec_zone_changed(cache, outputs, players, st).0[k]
                == cache[k],
    decreases outputs.len(),
{
    if outputs.len() > 0 {
        let t = outputs.drop_last();
        let x = outputs.last();
        law_zone_changed(cache, t, players, st);
        let rest = crate::player_manager::players_of(t, players);
        let f = |p: ManagedPlayerId| (p, st);
        if players.contains_key(x) {
            assert(rest.push(players[x].0).map_values(f) =~= rest.map_values(f).push(
                (players[x].0, st),
            ));
        }
        assert forall|k: Seq<char>| #[trigger] outputs.contains(k) <==> (t.contains(k) || k == x) by {
            if outputs.contains(k) {
                let j = choose|j: int| 0 <= j < outputs.len() && outputs[j] == k;
                if j < t.len() {
                    assert(t[j] == k);
                }
            }
            if t.contains(k) {
                let j = choose|j: int| 0 <= j < t.len() && t[j] == k;
                assert(outputs[j] == k);
            }
            if k == x {
                assert(outputs[outputs.len() - 1] == k);
            }
        }
    }
}

/// A seek update touches only the cached states of the zone's outputs that have a
/// player: each of them gets a timeline and keeps its status and texts; every other
/// cached state stays as it was.
pub proof fn law_zone_seek(
    cache: Map<Seq<char>, PlayerState>,
    outputs: Seq<Seq<char>>,
    players: Map<Seq<char>, (ManagedPlayerId, DeviceId)>,
    zone_seek: ZoneSeek,
    now: TimeSpan,
)
    requires
        zone_seek.seek_position is Some,
    ensures
        forall|k: Seq<char>|
            !(outputs.contains(k) && players.contains_key(k)) ==> #[trigger] cached_in(
                spec_zone_seek(cache, outputs, players, zone_seek, now).0,
                k,
            ) == cached_in(cache, k),
        forall|k: Seq<char>|
            outputs.contains(k) && players.contains_key(k) ==> {
                let after = #[trigger] cached_in(
                    spec_zone_seek(cache, outputs, players, zone_seek, now).0,
                    k,
                );
                &&& after is Some
                &&& after->0.timeline is Some
                &&& after->0.status == (match cached_in(cache, k) {
                    Some(s) => s.status,
                    None => crate::player::default_player_state().status,
                })
                &&& after->0.texts == (match cached_in(cache, k) {
                    Some(s) => s.texts,
                    None => crate::player::default_player_state().texts,
                })
            },
        spec_zone_seek(cache, outputs, players, zone_seek, now).1.len() == crate::player_manager::players_of(
            outputs,
            players,
        ).len(),
    decreases outputs.len(),
{
    if outputs.len() > 0 {
        let t = outputs.drop_last();
        let x = outputs.last();
        law_zone_seek(cache, t, players, zone_seek, now);
        assert forall|k: Seq<char>| #[trigger] outputs.contains(k) <==> (t.contains(k) || k == x) by {
            if outputs.contains(k) {
                let j = choose|j: int| 0 <= j < outputs.len() && outputs[j] == k;
                if j < t.len() {
                    assert(t[j] == k);
                }
            }
            if t.contains(k) {
                let j = choose|j: int| 0 <= j < t.len() && t[j] == k;
                assert(outputs[j] == k);
            }
            if k == x {
                assert(outputs[outputs.len() - 1] == k);
            }
        }
        let c = spec_zone_seek(cache, t, players, zone_seek, now).0;
        let fin = spec_zone_seek(cache, outputs, players, zone_seek, now).0;
        assert forall|k: Seq<char>| !(outputs.contains(k) && players.contains_key(k)) implies #[trigger] cached_in(
            fin,
            k,
        ) == cached_in(cache, k) by {
            assert(!(t.contains(k) && players.contains_key(k)));
            assert(cached_in(c, k) == cached_in(cache, k));
            if players.contains_key(x) {
                assert(k != x);
            }
        }
    }
}

} // verus!
