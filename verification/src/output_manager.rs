//! Which Roon outputs are available, and which player registrations that calls for.
use vstd::prelude::*;
use crate::mapping::Mappings;
use crate::player::{DeviceId, ManagedPlayerId, PlayerState};
use crate::player_manager::{text_views, PlayerManager};
use crate::roon::Output;
use crate::state_cache::StateCache;
use crate::table::KeyedTable;

verus! {

/// The player registrations that bring the players in line with outputs and mappings.
pub struct SyncPlan {
    /// Outputs whose player must be unregistered.
    pub to_unregister: Vec<String>,
    /// Outputs that need a player, with the device to assign it to.
    pub to_register: Vec<(String, DeviceId)>,
}

/// A change of mapping that the player registrations must follow.
#[derive(Debug, PartialEq, Eq)]
pub enum MappingChange {
    /// The output lost its mapping: unregister its player.
    Unmapped(String),
    /// The output was mapped to another device: unregister its player, register a new one
    /// for this device, and send it the cached state.
    Remapped(String, DeviceId),
    /// The output got a mapping: register a player for this device and send it the cached state.
    NewlyMapped(String, DeviceId),
    /// The output was mapped to another device while it is not available: unregister the
    /// player it may still have; it gets one for the new device when it appears.
    Released(String),
}

/// A mapping change, with the output id as text.
pub enum ChangeView {
    Unmapped(Seq<char>),
    Remapped(Seq<char>, DeviceId),
    NewlyMapped(Seq<char>, DeviceId),
    Released(Seq<char>),
}

impl View for MappingChange {
    type V = ChangeView;

    open spec fn view(&self) -> ChangeView {
        match self {
            MappingChange::Unmapped(id) => ChangeView::Unmapped(id@),
            MappingChange::Remapped(id, d) => ChangeView::Remapped(id@, *d),
            MappingChange::NewlyMapped(id, d) => ChangeView::NewlyMapped(id@, *d),
            MappingChange::Released(id) => ChangeView::Released(id@),
        }
    }
}

/// The views of a sequence of (output id, device id) pairs.
pub open spec fn pair_views(v: Seq<(String, DeviceId)>) -> Seq<(Seq<char>, DeviceId)> {
    v.map_values(|e: (String, DeviceId)| (e.0@, e.1))
}

/// The views of a sequence of mapping changes.
pub open spec fn change_views(v: Seq<MappingChange>) -> Seq<ChangeView> {
    v.map_values(|c: MappingChange| c@)
}

/// Outputs that are not available.
pub open spec fn unavailable(avail: Map<Seq<char>, Output>) -> spec_fn(Seq<char>) -> bool {
    |k: Seq<char>| !avail.contains_key(k)
}

/// Outputs that have no player but have a mapping.
pub open spec fn needs_player(
    players: Map<Seq<char>, (ManagedPlayerId, DeviceId)>,
    mappings: Map<Seq<char>, DeviceId>,
) -> spec_fn(Seq<char>) -> bool {
    |k: Seq<char>| !players.contains_key(k) && mappings.contains_key(k)
}

/// An output with the device it is mapped to.
pub open spec fn with_device(mappings: Map<Seq<char>, DeviceId>) -> spec_fn(Seq<char>) -> (
    Seq<char>,
    DeviceId,
) {
    |k: Seq<char>| (k, mappings[k])
}

/// Registered outputs, in registration order, that are no longer available.
pub open spec fn spec_sync_unregister(
    player_order: Seq<Seq<char>>,
    avail: Map<Seq<char>, Output>,
) -> Seq<Seq<char>> {
    player_order.filter(unavailable(avail))
}

/// Available outputs, in availability order, that are mapped and have no player yet.
pub open spec fn spec_sync_register(
    avail_order: Seq<Seq<char>>,
    players: Map<Seq<char>, (ManagedPlayerId, DeviceId)>,
    mappings: Map<Seq<char>, DeviceId>,
) -> Seq<(Seq<char>, DeviceId)> {
    avail_order.filter(needs_player(players, mappings)).map_values(with_device(mappings))
}

/// The available outputs after `outputs` were reported, later reports winning.
pub open spec fn spec_add_outputs(m: Map<Seq<char>, Output>, outputs: Seq<Output>) -> Map<
    Seq<char>,
    Output,
>
    decreases outputs.len(),
{
    if outputs.len() == 0 {
        m
    } else {
        spec_add_outputs(m, outputs.drop_last()).insert(outputs.last().output_id@, outputs.last())
    }
}

/// Outputs that lost their mapping.
pub open spec fn unmapped_in(new_map: Map<Seq<char>, DeviceId>) -> spec_fn(Seq<char>) -> bool {
    |k: Seq<char>| !new_map.contains_key(k)
}

/// Outputs whose device is new or changed, leaving out newly mapped outputs that are not
/// available: those get their player when they appear (see `sync_players`).
pub open spec fn changed_in(
    old_map: Map<Seq<char>, DeviceId>,
    new_map: Map<Seq<char>, DeviceId>,
    avail: Map<Seq<char>, Output>,
) -> spec_fn(Seq<char>) -> bool {
    |k: Seq<char>|
        (!old_map.contains_key(k) || old_map[k] != new_map[k]) && (avail.contains_key(k)
            || old_map.contains_key(k))
}

/// The change for an output whose device is new or changed: an available output gets a
/// player for its device; a remapped output that is not available loses the player it
/// may still have.
pub open spec fn change_for(
    old_map: Map<Seq<char>, DeviceId>,
    new_map: Map<Seq<char>, DeviceId>,
    avail: Map<Seq<char>, Output>,
) -> spec_fn(Seq<char>) -> ChangeView {
    |k: Seq<char>|
        if !avail.contains_key(k) {
            ChangeView::Released(k)
        } else if old_map.contains_key(k) {
            ChangeView::Remapped(k, new_map[k])
        } else {
            ChangeView::NewlyMapped(k, new_map[k])
        }
}

/// The changes between two mappings, given the available outputs: first the outputs that
/// lost their mapping, in the old order; then the outputs whose device is new or changed
/// (but for newly mapped outputs that are not available), in the new order.
pub open spec fn spec_mapping_changes(
    old_order: Seq<Seq<char>>,
    old_map: Map<Seq<char>, DeviceId>,
    new_order: Seq<Seq<char>>,
    new_map: Map<Seq<char>, DeviceId>,
    avail: Map<Seq<char>, Output>,
) -> Seq<ChangeView> {
    old_order.filter(unmapped_in(new_map)).map_values(|k: Seq<char>| ChangeView::Unmapped(k))
        + new_order.filter(changed_in(old_map, new_map, avail)).map_values(change_for(old_map, new_map, avail))
}

/// One filtering step over a growing prefix.
proof fn lemma_filter_step<A>(s: Seq<A>, i: int, p: spec_fn(A) -> bool)
    requires
        0 <= i < s.len(),
    ensures
        s.take(i + 1).filter(p) == if p(s[i]) {
            s.take(i).filter(p).push(s[i])
        } else {
            s.take(i).filter(p)
        },
{
    assert(s.take(i + 1) =~= s.take(i).push(s[i]));
    s.take(i).lemma_filter_push(s[i], p);
}

/// Manages Roon outputs and the player registrations they call for.
pub struct OutputManager {
    /// Currently available Roon outputs, by output id.
    available_outputs: KeyedTable<String, Output>,
}

impl View for OutputManager {
    type V = Map<Seq<char>, Output>;

    closed spec fn view(&self) -> Map<Seq<char>, Output> {
        self.available_outputs@
    }
}

impl OutputManager {
    pub closed spec fn wf(&self) -> bool {
        self.available_outputs.wf()
    }

    /// The available output ids, in the order in which they were first reported.
    pub closed spec fn output_order(&self) -> Seq<Seq<char>> {
        self.available_outputs.key_views()
    }

    /// The availability order holds each available output exactly once.
    pub proof fn lemma_output_order(&self)
        requires
            self.wf(),
        ensures
            self.output_order().no_duplicates(),
            forall|k: Seq<char>| #[trigger] self@.contains_key(k) <==> self.output_order().contains(k),
    {
        let s = self.available_outputs.entries();
        assert forall|i: int, j: int|
            0 <= i < self.output_order().len() && 0 <= j < self.output_order().len() && i != j
            implies self.output_order()[i] != self.output_order()[j] by {
            assert(self.output_order()[i] == s[i].0@);
            assert(self.output_order()[j] == s[j].0@);
        }
        assert forall|k: Seq<char>| #[trigger] self@.contains_key(k) <==> self.output_order().contains(k) by {
            if self@.contains_key(k) {
                let j = crate::table::seq_key_index(s, k);
                assert(self.output_order()[j] == k);
            }
            if self.output_order().contains(k) {
                let j = choose|j: int| 0 <= j < self.output_order().len() && self.output_order()[j] == k;
                assert(s[j].0@ == k);
            }
        }
    }

    pub fn new() -> (m: Self)
        ensures
            m.wf(),
            m@ == Map::<Seq<char>, Output>::empty(),
    {
        OutputManager { available_outputs: KeyedTable::new() }
    }

    /// Get all currently available outputs (for settings UI).
    pub fn get_available_outputs(&self) -> (t: &KeyedTable<String, Output>)
        requires
            self.wf(),
        ensures
            t.wf(),
            t@ == self@,
            t.key_views() == self.output_order(),
    {
        &self.available_outputs
    }

    /// Handle Roon outputs changed event: records the outputs as available and returns
    /// the registrations that then have to change.
    pub fn handle_outputs_changed(
        &mut self,
        outputs: Vec<Output>,
        mappings: &Mappings,
        player_manager: &PlayerManager,
    ) -> (plan: SyncPlan)
        requires
            old(self).wf(),
            mappings.wf(),
            player_manager.wf(),
        ensures
            final(self).wf(),
            final(self)@ == spec_add_outputs(old(self)@, outputs@),
            text_views(plan.to_unregister@) == spec_sync_unregister(
                player_manager.player_order(),
                final(self)@,
            ),
            pair_views(plan.to_register@) == spec_sync_register(
                final(self).output_order(),
                player_manager.players(),
                mappings@,
            ),
    {
        let n = outputs.len();
        let mut i: usize = 0;
        while i < n
            invariant
                n == outputs@.len(),
                i <= n,
                self.wf(),
                self@ == spec_add_outputs(old(self)@, outputs@.take(i as int)),
            decreases n - i,
        {
            assert(outputs@.take(i + 1).drop_last() =~= outputs@.take(i as int));
            let output = outputs[i].clone();
            self.available_outputs.insert(output.output_id.clone(), output);
            i = i + 1;
        }
        assert(outputs@.take(n as int) =~= outputs@);
        self.sync_players(mappings, player_manager)
    }

    /// Handle Roon outputs removed event: forgets the outputs and returns the
    /// registrations that then have to change.
    pub fn handle_outputs_removed(
        &mut self,
        removed_output_ids: Vec<String>,
        mappings: &Mappings,
        player_manager: &PlayerManager,
    ) -> (plan: SyncPlan)
        requires
            old(self).wf(),
            mappings.wf(),
            player_manager.wf(),
        ensures
            final(self).wf(),
            final(self)@ == old(self)@.remove_keys(text_views(removed_output_ids@).to_set()),
            text_views(plan.to_unregister@) == spec_sync_unregister(
                player_manager.player_order(),
                final(self)@,
            ),
            pair_views(plan.to_register@) == spec_sync_register(
                final(self).output_order(),
                player_manager.players(),
                mappings@,
            ),
    {
        let ghost ids = text_views(removed_output_ids@);
        let n = removed_output_ids.len();
        let mut i: usize = 0;
        assert(old(self)@.remove_keys(ids.take(0).to_set()) =~= old(self)@);
        while i < n
            invariant
                n == removed_output_ids@.len(),
                ids == text_views(removed_output_ids@),
                i <= n,
                self.wf(),
                self@ == old(self)@.remove_keys(ids.take(i as int).to_set()),
            decreases n - i,
        {
            let ghost before = self@;
            self.available_outputs.remove(&removed_output_ids[i]);
            proof {
                assert(ids.take(i + 1) =~= ids.take(i as int).push(ids[i as int]));
                ids.take(i as int).lemma_push_to_set_commute(ids[i as int]);
                assert(self@ =~= old(self)@.remove_keys(ids.take(i + 1).to_set()));
            }
            i = i + 1;
        }
        assert(ids.take(n as int) =~= ids);
        self.sync_players(mappings, player_manager)
    }

    /// The registrations that bring the players in line with the available outputs:
    /// unregister players of outputs that are gone, register players for available
    /// mapped outputs that have none.
    pub fn sync_players(&self, mappings: &Mappings, player_manager: &PlayerManager) -> (plan: SyncPlan)
        requires
            self.wf(),
            mappings.wf(),
            player_manager.wf(),
        ensures
            text_views(plan.to_unregister@) == spec_sync_unregister(
                player_manager.player_order(),
                self@,
            ),
            pair_views(plan.to_register@) == spec_sync_register(
                self.output_order(),
                player_manager.players(),
                mappings@,
            ),
    {
        // Players to unregister: outputs no longer available
        let registered = player_manager.registered_outputs();
        let ghost reg = text_views(registered@);
        let ghost gone = unavailable(self@);
        let mut to_unregister: Vec<String> = Vec::new();
        let n = registered.len();
        let mut i: usize = 0;
        assert(reg.take(0).filter(gone) =~= Seq::<Seq<char>>::empty()) by {
            reveal(Seq::filter);
        }
        while i < n
            invariant
                n == registered@.len(),
                reg == text_views(registered@),
                gone == unavailable(self@),
                i <= n,
                self.wf(),
                text_views(to_unregister@) == reg.take(i as int).filter(gone),
            decreases n - i,
        {
            proof {
                lemma_filter_step(reg, i as int, gone);
            }
            if !self.available_outputs.contains_key(&registered[i]) {
                to_unregister.push(registered[i].clone());
                assert(text_views(to_unregister@) =~= reg.take(i as int).filter(gone).push(reg[i as int]));
            }
            i = i + 1;
        }
        assert(reg.take(n as int) =~= reg);

        // Players to register: available mapped outputs without a player
        let ghost avail = self.output_order();
        let ghost needs = needs_player(player_manager.players(), mappings@);
        let ghost dev = with_device(mappings@);
        let mut to_register: Vec<(String, DeviceId)> = Vec::new();
        let entries = self.available_outputs.as_vec();
        let m = entries.len();
        let mut j: usize = 0;
        assert(avail.take(0).filter(needs) =~= Seq::<Seq<char>>::empty()) by {
            reveal(Seq::filter);
        }
        assert(pair_views(to_register@) =~= avail.take(0).filter(needs).map_values(dev));
        while j < m
            invariant
                m == entries@.len(),
                entries@ == self.available_outputs.entries(),
                avail == self.output_order(),
                avail == crate::table::seq_keys(entries@),
                needs == needs_player(player_manager.players(), mappings@),
                dev == with_device(mappings@),
                j <= m,
                mappings.wf(),
                player_manager.wf(),
                pair_views(to_register@) == avail.take(j as int).filter(needs).map_values(dev),
            decreases m - j,
        {
            proof {
                lemma_filter_step(avail, j as int, needs);
            }
            let output_id: &String = &entries[j].0;
            assert(avail[j as int] == output_id@);
            if !player_manager.has_player(output_id.as_str()) {
                match mappings.get(output_id.as_str()) {
                    Some(device_uuid) => {
                        let ghost before = pair_views(to_register@);
                        to_register.push((output_id.clone(), device_uuid));
                        assert(pair_views(to_register@) =~= before.push(dev(avail[j as int])));
                    },
                    None => {},
                }
            }
            j = j + 1;
        }
        assert(avail.take(m as int) =~= avail);
        SyncPlan { to_unregister, to_register }
    }

    /// Handle mapping changes from settings: replaces the stored mappings with the new
    /// ones and returns the changes that the player registrations must follow.
    pub fn handle_mappings_changed(&self, mappings: &mut Mappings, new_mappings: Mappings) -> (changes: Vec<
        MappingChange,
    >)
        requires
            self.wf(),
            old(mappings).wf(),
            new_mappings.wf(),
        ensures
            final(mappings).wf(),
            final(mappings)@ == new_mappings@,
            change_views(changes@) == spec_mapping_changes(
                old(mappings).output_order(),
                old(mappings)@,
                new_mappings.output_order(),
                new_mappings@,
                self@,
            ),
    {
        // Keep the old mappings
        let old_mappings = mappings.all();
        // Replace them with the new ones
        mappings.clear();
        let pairs = new_mappings.pairs();
        let ghost order = new_mappings.output_order();
        proof {
            new_mappings.lemma_order();
        }
        let n = pairs.len();
        let mut i: usize = 0;
        assert(mappings@ =~= new_mappings@.restrict(order.take(0).to_set()));
        while i < n
            invariant
                n == pairs@.len(),
                pairs@ == new_mappings.entries(),
                order == new_mappings.output_order(),
                order.len() == n,
                forall|j: int|
                    0 <= j < n ==> #[trigger] order[j] == pairs@[j].0@ && new_mappings@.contains_key(
                        pairs@[j].0@,
                    ) && new_mappings@[pairs@[j].0@] == pairs@[j].1,
                forall|k: Seq<char>| #[trigger]
                    new_mappings@.contains_key(k) <==> order.contains(k),
                i <= n,
                mappings.wf(),
                mappings@ == new_mappings@.restrict(order.take(i as int).to_set()),
            decreases n - i,
        {
            let (output_id, device_uuid) = (&pairs[i].0, pairs[i].1);
            mappings.set(output_id.clone(), device_uuid);
            proof {
                assert(order.take(i + 1) =~= order.take(i as int).push(order[i as int]));
                order.take(i as int).lemma_push_to_set_commute(order[i as int]);
                assert(mappings@ =~= new_mappings@.restrict(order.take(i + 1).to_set()));
            }
            i = i + 1;
        }
        proof {
            assert(order.take(n as int) =~= order);
            assert forall|k: Seq<char>| #[trigger] new_mappings@.dom().contains(k) <==> order.to_set().contains(k) by {}
            assert(mappings@ =~= new_mappings@);
        }
        self.handle_mapping_differences(&old_mappings, &new_mappings)
    }

    /// The changes between old and new mappings:
    /// - unmapped outputs: unregister the player;
    /// - remapped available outputs: unregister the old player, register a new one, restore state;
    /// - remapped outputs that are not available: unregister the old player;
    /// - newly mapped available outputs: register a player, restore state if available.
    /// A player is registered only for an output that is mapped and available; an output
    /// that is not available gets its player from `sync_players` when it appears.
    pub fn handle_mapping_differences(&self, old_mappings: &Mappings, new_mappings: &Mappings) -> (changes: Vec<
        MappingChange,
    >)
        requires
            self.wf(),
            old_mappings.wf(),
            new_mappings.wf(),
        ensures
            change_views(changes@) == spec_mapping_changes(
                old_mappings.output_order(),
                old_mappings@,
                new_mappings.output_order(),
                new_mappings@,
                self@,
            ),
    {
        let ghost old_order = old_mappings.output_order();
        let ghost new_order = new_mappings.output_order();
        let ghost p = unmapped_in(new_mappings@);
        let ghost f = |k: Seq<char>| ChangeView::Unmapped(k);
        proof {
            old_mappings.lemma_order();
            new_mappings.lemma_order();
        }
        let mut changes: Vec<MappingChange> = Vec::new();
        // Unmapped outputs
        let old_pairs = old_mappings.pairs();
        let n = old_pairs.len();
        let mut i: usize = 0;
        assert(old_order.take(0).filter(p) =~= Seq::<Seq<char>>::empty()) by {
            reveal(Seq::filter);
        }
        assert(change_views(changes@) =~= old_order.take(0).filter(p).map_values(f));
        while i < n
            invariant
                n == old_pairs@.len(),
                old_pairs@ == old_mappings.entries(),
                old_order == old_mappings.output_order(),
                old_order.len() == n,
                forall|j: int| 0 <= j < n ==> #[trigger] old_order[j] == old_pairs@[j].0@,
                p == unmapped_in(new_mappings@),
                f == (|k: Seq<char>| ChangeView::Unmapped(k)),
                new_mappings.wf(),
                i <= n,
                change_views(changes@) == old_order.take(i as int).filter(p).map_values(f),
            decreases n - i,
        {
            proof {
                lemma_filter_step(old_order, i as int, p);
            }
            let output_id: &String = &old_pairs[i].0;
            if !new_mappings.has(output_id.as_str()) {
                let ghost before = change_views(changes@);
                changes.push(MappingChange::Unmapped(output_id.clone()));
                assert(change_views(changes@) =~= before.push(f(old_order[i as int])));
            }
            i = i + 1;
        }
        assert(old_order.take(n as int) =~= old_order);
        let ghost first = change_views(changes@);

        // Remapped or newly mapped outputs
        let ghost q = changed_in(old_mappings@, new_mappings@, self@);
        let ghost g = change_for(old_mappings@, new_mappings@, self@);
        let new_pairs = new_mappings.pairs();
        let m = new_pairs.len();
        let mut j: usize = 0;
        assert(new_order.take(0).filter(q) =~= Seq::<Seq<char>>::empty()) by {
            reveal(Seq::filter);
        }
        assert(change_views(changes@) =~= first + new_order.take(0).filter(q).map_values(g));
        while j < m
            invariant
                m == new_pairs@.len(),
                new_pairs@ == new_mappings.entries(),
                new_order == new_mappings.output_order(),
                new_order.len() == m,
                forall|k: int|
                    0 <= k < m ==> #[trigger] new_order[k] == new_pairs@[k].0@ && new_mappings@.contains_key(
                        new_pairs@[k].0@,
                    ) && new_mappings@[new_pairs@[k].0@] == new_pairs@[k].1,
                q == changed_in(old_mappings@, new_mappings@, self@),
                self.wf(),
                g == change_for(old_mappings@, new_mappings@, self@),
                old_mappings.wf(),
                j <= m,
                change_views(changes@) == first + new_order.take(j as int).filter(q).map_values(g),
            decreases m - j,
        {
            proof {
                lemma_filter_step(new_order, j as int, q);
            }
            let output_id: &String = &new_pairs[j].0;
            let new_device_uuid = new_pairs[j].1;
            let ghost before = change_views(changes@);
            // Only an available output gets a player now
            let available = self.available_outputs.contains_key(output_id);
            match old_mappings.get(output_id.as_str()) {
                Some(old_device_uuid) => {
                    if old_device_uuid != new_device_uuid {
                        if available {
                            // Remapped to different device
                            changes.push(MappingChange::Remapped(output_id.clone(), new_device_uuid));
                        } else {
                            // Remapped while away: drop the old player
                            changes.push(MappingChange::Released(output_id.clone()));
                        }
                        assert(change_views(changes@) =~= before.push(g(new_order[j as int])));
                    }
                },
                None => {
                    if available {
                        // New mapping
                        changes.push(MappingChange::NewlyMapped(output_id.clone(), new_device_uuid));
                        assert(change_views(changes@) =~= before.push(g(new_order[j as int])));
                    }
                },
            }
            proof {
                assert(first + new_order.take(j + 1).filter(q).map_values(g) =~= change_views(changes@));
            }
            j = j + 1;
        }
        assert(new_order.take(m as int) =~= new_order);
        changes
    }
}

/// The player of an output together with the state cached for it, when both exist
/// (what is sent to a freshly registered player).
pub fn send_cached_state_to_player(
    player_manager: &PlayerManager,
    state_cache: &StateCache,
    output_id: &str,
) -> (r: Option<(ManagedPlayerId, PlayerState)>)
    requires
        player_manager.wf(),
        state_cache.wf(),
    ensures
        r == (if player_manager.players().contains_key(output_id@) && state_cache@.contains_key(
            output_id@,
        ) {
            Some((player_manager.players()[output_id@].0, state_cache@[output_id@]))
        } else {
            None
        }),
{
    match (player_manager.get_player(output_id), state_cache.get_output_state(output_id)) {
        (Some(player_id), Some(state)) => Some((player_id, state)),
        _ => None,
    }
}

/// An element of a filtered and mapped sequence comes from an element that passed the filter.
pub proof fn lemma_filter_map_contains<A, B>(s: Seq<A>, p: spec_fn(A) -> bool, f: spec_fn(A) -> B, y: B)
    ensures
        s.filter(p).map_values(f).contains(y) <==> exists|i: int|
            0 <= i < s.len() && p(#[trigger] s[i]) && f(s[i]) == y,
{
    broadcast use vstd::seq_lib::group_filter_ensures;

    let t = s.filter(p);
    if t.map_values(f).contains(y) {
        let j = choose|j: int| 0 <= j < t.map_values(f).len() && t.map_values(f)[j] == y;
        assert(t.contains(t[j]));
        s.lemma_filter_contains_rev(p, t[j]);
        let i = choose|i: int| 0 <= i < s.len() && s[i] == t[j];
        assert(p(s[i]) && f(s[i]) == y);
    }
    if exists|i: int| 0 <= i < s.len() && p(#[trigger] s[i]) && f(s[i]) == y {
        let i = choose|i: int| 0 <= i < s.len() && p(#[trigger] s[i]) && f(s[i]) == y;
        assert(t.contains(s[i]));
        let j = choose|j: int| 0 <= j < t.len() && t[j] == s[i];
        assert(t.map_values(f)[j] == y);
    }
}

/// An element of a filtered sequence is an element of the sequence that passed the filter.
pub proof fn lemma_filter_contains<A>(s: Seq<A>, p: spec_fn(A) -> bool, x: A)
    ensures
        s.filter(p).contains(x) <==> s.contains(x) && p(x),
{
    broadcast use vstd::seq_lib::group_filter_ensures;

    if s.filter(p).contains(x) {
        s.lemma_filter_contains_rev(p, x);
        let j = choose|j: int| 0 <= j < s.filter(p).len() && s.filter(p)[j] == x;
        assert(p(s.filter(p)[j]));
    }
    if s.contains(x) && p(x) {
        let i = choose|i: int| 0 <= i < s.len() && s[i] == x;
        assert(s.filter(p).contains(s[i]));
    }
}

/// The synchronisation plan unregisters exactly the players of outputs that are gone,
/// registers exactly the available mapped outputs that have no player (each with its
/// mapped device), and once carried out leaves players for exactly the available outputs
/// that had a player or have a mapping.
pub proof fn law_sync_plan(
    player_order: Seq<Seq<char>>,
    players: Map<Seq<char>, (ManagedPlayerId, DeviceId)>,
    avail_order: Seq<Seq<char>>,
    avail: Map<Seq<char>, Output>,
    mappings: Map<Seq<char>, DeviceId>,
)
    requires
        forall|k: Seq<char>| #[trigger] players.contains_key(k) <==> player_order.contains(k),
        forall|k: Seq<char>| #[trigger] avail.contains_key(k) <==> avail_order.contains(k),
    ensures
        forall|k: Seq<char>|
            #[trigger] spec_sync_unregister(player_order, avail).contains(k) <==> players.contains_key(k)
                && !avail.contains_key(k),
        forall|k: Seq<char>, d: DeviceId|
            #[trigger] spec_sync_register(avail_order, players, mappings).contains((k, d))
                <==> avail.contains_key(k) && !players.contains_key(k) && mappings.contains_key(k)
                && d == mappings[k],
        players.dom().difference(spec_sync_unregister(player_order, avail).to_set()).union(
            spec_sync_register(avail_order, players, mappings).map_values(
                |e: (Seq<char>, DeviceId)| e.0,
            ).to_set(),
        ) == avail.dom().intersect(players.dom().union(mappings.dom())),
{
    let u = spec_sync_unregister(player_order, avail);
    let r = spec_sync_register(avail_order, players, mappings);
    assert forall|k: Seq<char>| #[trigger] u.contains(k) <==> players.contains_key(k) && !avail.contains_key(k) by {
        lemma_filter_contains(player_order, unavailable(avail), k);
    }
    assert forall|k: Seq<char>, d: DeviceId| #[trigger] r.contains((k, d)) <==> avail.contains_key(k)
        && !players.contains_key(k) && mappings.contains_key(k) && d == mappings[k] by {
        lemma_filter_map_contains(avail_order, needs_player(players, mappings), with_device(mappings), (k, d));
        if avail.contains_key(k) && !players.contains_key(k) && mappings.contains_key(k) && d == mappings[k] {
            let i = choose|i: int| 0 <= i < avail_order.len() && avail_order[i] == k;
            assert(needs_player(players, mappings)(avail_order[i]));
        }
    }
    let keys = r.map_values(|e: (Seq<char>, DeviceId)| e.0);
    assert forall|k: Seq<char>| keys.to_set().contains(k) <==> (avail.contains_key(k)
        && !players.contains_key(k) && mappings.contains_key(k)) by {
        if keys.contains(k) {
            let j = choose|j: int| 0 <= j < keys.len() && keys[j] == k;
            assert(r.contains(r[j]));
        }
        if avail.contains_key(k) && !players.contains_key(k) && mappings.contains_key(k) {
            assert(r.contains((k, mappings[k])));
            let j = choose|j: int| 0 <= j < r.len() && r[j] == (k, mappings[k]);
            assert(keys[j] == k);
        }
    }
    assert(players.dom().difference(u.to_set()).union(keys.to_set()) =~= avail.dom().intersect(
        players.dom().union(mappings.dom()),
    ));
}

/// The mapping changes name exactly the outputs that lost their mapping, the available
/// outputs mapped to another device (with the new device) and the newly mapped available
/// outputs (with their device), and the outputs mapped to another device while not
/// available (whose old player is let go); outputs whose device stays the same get no
/// change. So a player is asked for only for an output that is mapped and available.
pub proof fn law_mapping_changes(
    old_order: Seq<Seq<char>>,
    old_map: Map<Seq<char>, DeviceId>,
    new_order: Seq<Seq<char>>,
    new_map: Map<Seq<char>, DeviceId>,
    avail: Map<Seq<char>, Output>,
)
    requires
        forall|k: Seq<char>| #[trigger] old_map.contains_key(k) <==> old_order.contains(k),
        forall|k: Seq<char>| #[trigger] new_map.contains_key(k) <==> new_order.contains(k),
    ensures
        forall|k: Seq<char>|
            #[trigger] spec_mapping_changes(old_order, old_map, new_order, new_map, avail).contains(
                ChangeView::Unmapped(k),
            ) <==> old_map.contains_key(k) && !new_map.contains_key(k),
        forall|k: Seq<char>, d: DeviceId|
            #[trigger] spec_mapping_changes(old_order, old_map, new_order, new_map, avail).contains(
                ChangeView::Remapped(k, d),
            ) <==> avail.contains_key(k) && old_map.contains_key(k) && new_map.contains_key(k)
                && old_map[k] != new_map[k] && d == new_map[k],
        forall|k: Seq<char>, d: DeviceId|
            #[trigger] spec_mapping_changes(old_order, old_map, new_order, new_map, avail).contains(
                ChangeView::NewlyMapped(k, d),
            ) <==> avail.contains_key(k) && !old_map.contains_key(k) && new_map.contains_key(k)
                && d == new_map[k],
        forall|k: Seq<char>|
            #[trigger] spec_mapping_changes(old_order, old_map, new_order, new_map, avail).contains(
                ChangeView::Released(k),
            ) <==> !avail.contains_key(k) && old_map.contains_key(k) && new_map.contains_key(k)
                && old_map[k] != new_map[k],
{
    let f = |k: Seq<char>| ChangeView::Unmapped(k);
    let a = old_order.filter(unmapped_in(new_map)).map_values(f);
    let b = new_order.filter(changed_in(old_map, new_map, avail)).map_values(change_for(old_map, new_map, avail));
    let c = spec_mapping_changes(old_order, old_map, new_order, new_map, avail);
    assert(c == a + b);
    assert forall|x: ChangeView| #[trigger] c.contains(x) <==> a.contains(x) || b.contains(x) by {
        if c.contains(x) {
            let j = choose|j: int| 0 <= j < c.len() && c[j] == x;
            if j < a.len() {
                assert(a[j] == x);
            } else {
                assert(b[j - a.len()] == x);
            }
        }
        if a.contains(x) {
            let j = choose|j: int| 0 <= j < a.len() && a[j] == x;
            assert(c[j] == x);
        }
        if b.contains(x) {
            let j = choose|j: int| 0 <= j < b.len() && b[j] == x;
            assert(c[j + a.len()] == x);
        }
    }
    assert forall|k: Seq<char>| #[trigger] c.contains(ChangeView::Unmapped(k)) <==> old_map.contains_key(k)
        && !new_map.contains_key(k) by {
        lemma_filter_map_contains(old_order, unmapped_in(new_map), f, ChangeView::Unmapped(k));
        lemma_filter_map_contains(
            new_order,
            changed_in(old_map, new_map, avail),
            change_for(old_map, new_map, avail),
            ChangeView::Unmapped(k),
        );
        if old_map.contains_key(k) && !new_map.contains_key(k) {
            let i = choose|i: int| 0 <= i < old_order.len() && old_order[i] == k;
            assert(unmapped_in(new_map)(old_order[i]) && f(old_order[i]) == ChangeView::Unmapped(k));
        }
    }
    assert forall|k: Seq<char>, d: DeviceId| #[trigger] c.contains(ChangeView::Remapped(k, d))
        <==> avail.contains_key(k) && old_map.contains_key(k) && new_map.contains_key(k)
        && old_map[k] != new_map[k] && d == new_map[k] by {
        lemma_filter_map_contains(old_order, unmapped_in(new_map), f, ChangeView::Remapped(k, d));
        lemma_filter_map_contains(
            new_order,
            changed_in(old_map, new_map, avail),
            change_for(old_map, new_map, avail),
            ChangeView::Remapped(k, d),
        );
        if avail.contains_key(k) && old_map.contains_key(k) && new_map.contains_key(k)
            && old_map[k] != new_map[k] && d == new_map[k] {
            let i = choose|i: int| 0 <= i < new_order.len() && new_order[i] == k;
            assert(changed_in(old_map, new_map, avail)(new_order[i]));
            assert(change_for(old_map, new_map, avail)(new_order[i]) == ChangeView::Remapped(k, d));
        }
    }
    assert forall|k: Seq<char>, d: DeviceId| #[trigger] c.contains(ChangeView::NewlyMapped(k, d))
        <==> avail.contains_key(k) && !old_map.contains_key(k) && new_map.contains_key(k)
        && d == new_map[k] by {
        lemma_filter_map_contains(old_order, unmapped_in(new_map), f, ChangeView::NewlyMapped(k, d));
        lemma_filter_map_contains(
            new_order,
            changed_in(old_map, new_map, avail),
            change_for(old_map, new_map, avail),
            ChangeView::NewlyMapped(k, d),
        );
        if avail.contains_key(k) && !old_map.contains_key(k) && new_map.contains_key(k)
            && d == new_map[k] {
            let i = choose|i: int| 0 <= i < new_order.len() && new_order[i] == k;
            assert(changed_in(old_map, new_map, avail)(new_order[i]));
            assert(change_for(old_map, new_map, avail)(new_order[i]) == ChangeView::NewlyMapped(k, d));
        }
    }
    assert forall|k: Seq<char>| #[trigger] c.contains(ChangeView::Released(k)) <==> !avail.contains_key(k)
        && old_map.contains_key(k) && new_map.contains_key(k) && old_map[k] != new_map[k] by {
        lemma_filter_map_contains(old_order, unmapped_in(new_map), f, ChangeView::Released(k));
        lemma_filter_map_contains(
            new_order,
            changed_in(old_map, new_map, avail),
            change_for(old_map, new_map, avail),
            ChangeView::Released(k),
        );
        if !avail.contains_key(k) && old_map.contains_key(k) && new_map.contains_key(k)
            && old_map[k] != new_map[k] {
            let i = choose|i: int| 0 <= i < new_order.len() && new_order[i] == k;
            assert(changed_in(old_map, new_map, avail)(new_order[i]));
            assert(change_for(old_map, new_map, avail)(new_order[i]) == ChangeView::Released(k));
        }
    }
}

/// After outputs are reported, each reported output id stands for the last output
/// reported under it (a later report replaces an earlier one, renamed or moved outputs
/// included); every output that was not reported is as it was.
pub proof fn law_reported_outputs_replace(m: Map<Seq<char>, Output>, outputs: Seq<Output>)
    ensures
        forall|i: int|
            0 <= i < outputs.len() && (forall|j: int|
                i < j < outputs.len() ==> (#[trigger] outputs[j]).output_id@ != outputs[i].output_id@)
                ==> spec_add_outputs(m, outputs).contains_key((#[trigger] outputs[i]).output_id@)
                && spec_add_outputs(m, outputs)[outputs[i].output_id@] == outputs[i],
        forall|k: Seq<char>|
            (forall|i: int| 0 <= i < outputs.len() ==> (#[trigger] outputs[i]).output_id@ != k)
                ==> (#[trigger] spec_add_outputs(m, outputs).contains_key(k) <==> m.contains_key(k))
                && (m.contains_key(k) ==> spec_add_outputs(m, outputs)[k] == m[k]),
    decreases outputs.len(),
{
    if outputs.len() > 0 {
        let t = outputs.drop_last();
        let x = outputs.last();
        let n = outputs.len() - 1;
        law_reported_outputs_replace(m, t);
        let acc = spec_add_outputs(m, t);
        let r = spec_add_outputs(m, outputs);
        assert(r == acc.insert(x.output_id@, x));
        assert forall|i: int|
            0 <= i < outputs.len() && (forall|j: int|
                i < j < outputs.len() ==> (#[trigger] outputs[j]).output_id@ != outputs[i].output_id@)
                implies r.contains_key((#[trigger] outputs[i]).output_id@)
                && r[outputs[i].output_id@] == outputs[i] by {
            if i < n {
                assert(outputs[n].output_id@ != outputs[i].output_id@);
                assert(t[i] == outputs[i]);
                assert forall|j: int| i < j < t.len() implies (#[trigger] t[j]).output_id@ != t[i].output_id@ by {
                    assert(t[j] == outputs[j]);
                    assert(outputs[j].output_id@ != outputs[i].output_id@);
                }
            }
        }
        assert forall|k: Seq<char>|
            (forall|i: int| 0 <= i < outputs.len() ==> (#[trigger] outputs[i]).output_id@ != k) implies
            (#[trigger] r.contains_key(k) <==> m.contains_key(k)) && (m.contains_key(k) ==> r[k] == m[k]) by {
            assert(outputs[n].output_id@ != k);
            assert forall|i: int| 0 <= i < t.len() implies (#[trigger] t[i]).output_id@ != k by {
                assert(t[i] == outputs[i]);
            }
        }
    }
}

} // verus!
