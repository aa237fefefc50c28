//! Which FSCT player stands for which Roon output, and which outputs form each zone.
use vstd::prelude::*;
use crate::player::{DeviceId, ManagedPlayerId};
use crate::table::KeyedTable;
use crate::text::{joined, owned};

verus! {

/// The views of a sequence of strings.
pub open spec fn text_views(v: Seq<String>) -> Seq<Seq<char>> {
    v.map_values(|s: String| s@)
}

/// The players of those of `outputs` that have one, in the order of `outputs`.
pub open spec fn players_of(
    outputs: Seq<Seq<char>>,
    players: Map<Seq<char>, (ManagedPlayerId, DeviceId)>,
) -> Seq<ManagedPlayerId>
    decreases outputs.len(),
{
    if outputs.len() == 0 {
        Seq::empty()
    } else {
        let rest = players_of(outputs.drop_last(), players);
        if players.contains_key(outputs.last()) {
            rest.push(players[outputs.last()].0)
        } else {
            rest
        }
    }
}

/// The name under which the player of an output is registered.
pub open spec fn spec_player_name(output_id: Seq<char>) -> Seq<char> {
    seq!['r', 'o', 'o', 'n', '-'] + output_id
}

/// What registering a player for an output takes.
#[derive(Debug, PartialEq, Eq)]
pub enum Registration {
    /// The output already has this player; nothing to do.
    Existing(ManagedPlayerId),
    /// Register a player under this name with the driver, assign it to the device, then track it.
    Needed(String),
}

/// What the driver answered in the course of registering a player.
#[derive(Debug, PartialEq, Eq)]
pub enum RegisterEvent {
    /// Registration of the output's player is asked for.
    Start,
    /// The driver registered this player.
    Registered(ManagedPlayerId),
    /// The driver assigned this player to the device.
    Assigned(ManagedPlayerId),
    /// The last driver call failed.
    Failed,
}

/// What to do next in the course of registering a player.
#[derive(Debug, PartialEq, Eq)]
pub enum RegisterAction {
    /// Register a player under this name with the driver.
    RegisterPlayer(String),
    /// Assign this player to this device.
    AssignToDevice(ManagedPlayerId, DeviceId),
    /// Done: the output has this player.
    Done(ManagedPlayerId),
    /// Stop and report the failure; no player is tracked.
    Abort,
}

/// What the driver answered in the course of unregistering a player.
#[derive(Debug, PartialEq, Eq)]
pub enum UnregisterEvent {
    /// Unregistering the output's player is asked for.
    Start,
    /// The driver unassigned this player from its device.
    Unassigned(ManagedPlayerId),
    /// The driver unregistered this player.
    Unregistered(ManagedPlayerId),
    /// The last driver call failed.
    Failed,
}

/// What to do next in the course of unregistering a player.
#[derive(Debug, PartialEq, Eq)]
pub enum UnregisterAction {
    /// Unassign this player from this device.
    UnassignFromDevice(ManagedPlayerId, DeviceId),
    /// Unregister this player with the driver.
    UnregisterPlayer(ManagedPlayerId),
    /// Done.
    Done,
    /// Stop and report the failure.
    Abort,
}

/// Tracks active FSCT players for Roon outputs.
pub struct PlayerManager {
    /// output_id -> (player_id, device_uuid)
    players: KeyedTable<String, (ManagedPlayerId, DeviceId)>,
    /// zone_id -> output ids of the zone
    zone_outputs: KeyedTable<String, Vec<String>>,
}

impl PlayerManager {
    pub closed spec fn wf(&self) -> bool {
        self.players.wf() && self.zone_outputs.wf()
    }

    /// The registered players by output id: player id and device id.
    pub closed spec fn players(&self) -> Map<Seq<char>, (ManagedPlayerId, DeviceId)> {
        self.players@
    }

    /// The registered output ids, in registration order.
    pub closed spec fn player_order(&self) -> Seq<Seq<char>> {
        self.players.key_views()
    }

    /// The outputs of each known zone.
    pub closed spec fn zones(&self) -> Map<Seq<char>, Seq<Seq<char>>> {
        Map::new(
            |z: Seq<char>| self.zone_outputs@.contains_key(z),
            |z: Seq<char>| text_views(self.zone_outputs@[z]@),
        )
    }

    /// The outputs of zone `zone_id`; none for an unknown zone.
    pub open spec fn outputs_of(&self, zone_id: Seq<char>) -> Seq<Seq<char>> {
        if self.zones().contains_key(zone_id) {
            self.zones()[zone_id]
        } else {
            Seq::empty()
        }
    }

    /// The registration order holds each registered output exactly once.
    pub proof fn lemma_player_order(&self)
        requires
            self.wf(),
        ensures
            self.player_order().no_duplicates(),
            forall|k: Seq<char>| #[trigger]
                self.players().contains_key(k) <==> self.player_order().contains(k),
    {
        let s = self.players.entries();
        assert forall|i: int, j: int|
            0 <= i < self.player_order().len() && 0 <= j < self.player_order().len() && i != j
            implies self.player_order()[i] != self.player_order()[j] by {
            assert(self.player_order()[i] == s[i].0@);
            assert(self.player_order()[j] == s[j].0@);
        }
        assert forall|k: Seq<char>| #[trigger]
            self.players().contains_key(k) <==> self.player_order().contains(k) by {
            if self.players().contains_key(k) {
                let j = crate::table::seq_key_index(s, k);
                assert(self.player_order()[j] == k);
            }
            if self.player_order().contains(k) {
                let j = choose|j: int| 0 <= j < self.player_order().len() && self.player_order()[j] == k;
                assert(s[j].0@ == k);
            }
        }
    }

    pub fn new() -> (m: Self)
        ensures
            m.wf(),
            m.players() == Map::<Seq<char>, (ManagedPlayerId, DeviceId)>::empty(),
            m.zones() == Map::<Seq<char>, Seq<Seq<char>>>::empty(),
    {
        let m = Self { players: KeyedTable::new(), zone_outputs: KeyedTable::new() };
        assert(m.zones() =~= Map::<Seq<char>, Seq<Seq<char>>>::empty());
        m
    }

    /// The name under which the player of `output_id` is registered with the driver.
    pub fn player_name(output_id: &str) -> (name: String)
        ensures
            name@ == spec_player_name(output_id@),
    {
        let name = joined("roon-", output_id);
        proof {
            reveal_strlit("roon-");
            assert(name@ =~= spec_player_name(output_id@));
        }
        name
    }

    /// Whether `output_id` already has a player, or the name to register one under.
    pub fn registration(&self, output_id: &str) -> (r: Registration)
        requires
            self.wf(),
        ensures
            match r {
                Registration::Existing(id) => self.players().contains_key(output_id@) && id
                    == self.players()[output_id@].0,
                Registration::Needed(name) => !self.players().contains_key(output_id@) && name@
                    == spec_player_name(output_id@),
            },
    {
        match self.get_player(output_id) {
            Some(player_id) => Registration::Existing(player_id),
            None => Registration::Needed(Self::player_name(output_id)),
        }
    }

    /// Track the player that was registered for `output_id` and assigned to `device_uuid`.
    pub fn track_player(&mut self, output_id: String, player_id: ManagedPlayerId, device_uuid: DeviceId)
        requires
            old(self).wf(),
        ensures
            final(self).wf(),
            final(self).players() == old(self).players().insert(output_id@, (player_id, device_uuid)),
            final(self).zones() == old(self).zones(),
    {
        self.players.insert(output_id, (player_id, device_uuid));
    }

    /// Stop tracking the player of `output_id`; hands back its player and device ids.
    pub fn release_player(&mut self, output_id: &str) -> (r: Option<(ManagedPlayerId, DeviceId)>)
        requires
            old(self).wf(),
        ensures
            final(self).wf(),
            final(self).players() == old(self).players().remove(output_id@),
            final(self).zones() == old(self).zones(),
            r == (if old(self).players().contains_key(output_id@) {
                Some(old(self).players()[output_id@])
            } else {
                None
            }),
    {
        let key = owned(output_id);
        self.players.remove(&key)
    }

    /// One step of registering a player for `output_id` on `device_uuid`, given what the
    /// driver last answered. An output that has a player keeps it; otherwise a player is
    /// registered under the output's name, then assigned to the device, and only then
    /// tracked. A failed driver call stops the registration with nothing tracked.
    pub fn register_step(&mut self, output_id: &str, device_uuid: DeviceId, event: RegisterEvent) -> (a:
        RegisterAction)
        requires
            old(self).wf(),
        ensures
            final(self).wf(),
            final(self).zones() == old(self).zones(),
            match event {
                RegisterEvent::Start => {
                    &&& final(self).players() == old(self).players()
                    &&& if old(self).players().contains_key(output_id@) {
                        a == RegisterAction::Done(old(self).players()[output_id@].0)
                    } else {
                        a matches RegisterAction::RegisterPlayer(name) && name@ == spec_player_name(
                            output_id@,
                        )
                    }
                },
                RegisterEvent::Registered(p) => final(self).players() == old(self).players() && a
                    == RegisterAction::AssignToDevice(p, device_uuid),
                RegisterEvent::Assigned(p) => final(self).players() == old(self).players().insert(
                    output_id@,
                    (p, device_uuid),
                ) && a == RegisterAction::Done(p),
                RegisterEvent::Failed => final(self).players() == old(self).players() && a
                    == RegisterAction::Abort,
            },
    {
        match event {
            RegisterEvent::Start => match self.registration(output_id) {
                Registration::Existing(player_id) => RegisterAction::Done(player_id),
                Registration::Needed(name) => RegisterAction::RegisterPlayer(name),
            },
            RegisterEvent::Registered(player_id) => RegisterAction::AssignToDevice(player_id, device_uuid),
            RegisterEvent::Assigned(player_id) => {
                self.track_player(owned(output_id), player_id, device_uuid);
                RegisterAction::Done(player_id)
            },
            RegisterEvent::Failed => RegisterAction::Abort,
        }
    }

    /// One step of unregistering the player of `output_id`, given what the driver last
    /// answered. The player is no longer tracked from the start; it is then unassigned
    /// from its device and unregistered. A failed driver call stops the unregistering.
    pub fn unregister_step(&mut self, output_id: &str, event: UnregisterEvent) -> (a: UnregisterAction)
        requires
            old(self).wf(),
        ensures
            final(self).wf(),
            final(self).zones() == old(self).zones(),
            match event {
                UnregisterEvent::Start => {
                    &&& final(self).players() == old(self).players().remove(output_id@)
                    &&& a == if old(self).players().contains_key(output_id@) {
                        UnregisterAction::UnassignFromDevice(
                            old(self).players()[output_id@].0,
                            old(self).players()[output_id@].1,
                        )
                    } else {
                        UnregisterAction::Done
                    }
                },
                UnregisterEvent::Unassigned(p) => final(self).players() == old(self).players() && a
                    == UnregisterAction::UnregisterPlayer(p),
                UnregisterEvent::Unregistered(_) => final(self).players() == old(self).players() && a
                    == UnregisterAction::Done,
                UnregisterEvent::Failed => final(self).players() == old(self).players() && a
                    == UnregisterAction::Abort,
            },
    {
        match event {
            UnregisterEvent::Start => match self.release_player(output_id) {
                Some((player_id, device_uuid)) => UnregisterAction::UnassignFromDevice(player_id, device_uuid),
                None => UnregisterAction::Done,
            },
            UnregisterEvent::Unassigned(player_id) => UnregisterAction::UnregisterPlayer(player_id),
            UnregisterEvent::Unregistered(_) => UnregisterAction::Done,
            UnregisterEvent::Failed => UnregisterAction::Abort,
        }
    }

    /// Get player ID for output.
    pub fn get_player(&self, output_id: &str) -> (r: Option<ManagedPlayerId>)
        requires
            self.wf(),
        ensures
            r == (if self.players().contains_key(output_id@) {
                Some(self.players()[output_id@].0)
            } else {
                None
            }),
    {
        let key = owned(output_id);
        match self.players.get(&key) {
            Some(entry) => Some(entry.0),
            None => None,
        }
    }

    /// Check if output has registered player.
    pub fn has_player(&self, output_id: &str) -> (r: bool)
        requires
            self.wf(),
        ensures
            r == self.players().contains_key(output_id@),
    {
        let key = owned(output_id);
        self.players.contains_key(&key)
    }

    /// Get all registered output IDs.
    pub fn registered_outputs(&self) -> (ids: Vec<String>)
        requires
            self.wf(),
        ensures
            text_views(ids@) == self.player_order(),
    {
        let ids = self.players.keys();
        assert(text_views(ids@) =~= self.player_order());
        ids
    }

    /// Get count of registered players.
    pub fn count(&self) -> (n: usize)
        requires
            self.wf(),
        ensures
            n == self.players().len(),
    {
        proof {
            self.lemma_player_order();
            self.player_order().unique_seq_to_set();
            assert(self.players().dom() =~= self.player_order().to_set());
        }
        self.players.len()
    }

    /// Update zone mapping - track which outputs belong to which zone.
    pub fn update_zone_mapping(&mut self, zone_id: String, output_ids: Vec<String>)
        requires
            old(self).wf(),
        ensures
            final(self).wf(),
            final(self).zones() == old(self).zones().insert(zone_id@, text_views(output_ids@)),
            final(self).players() == old(self).players(),
    {
        let ghost ids = output_ids@;
        self.zone_outputs.insert(zone_id, output_ids);
        assert(self.zones() =~= old(self).zones().insert(zone_id@, text_views(ids)));
    }

    /// Get all output IDs for a zone.
    pub fn get_outputs_for_zone(&self, zone_id: &str) -> (ids: Vec<String>)
        requires
            self.wf(),
        ensures
            text_views(ids@) == self.outputs_of(zone_id@),
    {
        let key = owned(zone_id);
        match self.zone_outputs.get(&key) {
            Some(ids) => {
                let copied = ids.clone();
                assert(copied@ =~= ids@);
                copied
            },
            None => {
                let none: Vec<String> = Vec::new();
                assert(text_views(none@) =~= Seq::<Seq<char>>::empty());
                none
            },
        }
    }

    /// Get all player IDs for outputs in a zone, in the zone's output order.
    pub fn get_players_for_zone(&self, zone_id: &str) -> (ids: Vec<ManagedPlayerId>)
        requires
            self.wf(),
        ensures
            ids@ == players_of(self.outputs_of(zone_id@), self.players()),
    {
        let key = owned(zone_id);
        let mut ids: Vec<ManagedPlayerId> = Vec::new();
        match self.zone_outputs.get(&key) {
            Some(outputs) => {
                let ghost outs = text_views(outputs@);
                let n = outputs.len();
                let mut i: usize = 0;
                assert(outs.take(0) =~= Seq::<Seq<char>>::empty());
                while i < n
                    invariant
                        n == outputs@.len(),
                        outs == text_views(outputs@),
                        i <= n,
                        self.wf(),
                        ids@ == players_of(outs.take(i as int), self.players()),
                    decreases n - i,
                {
                    let ghost pre = outs.take(i as int);
                    assert(outs.take(i + 1).drop_last() =~= pre);
                    assert(outs.take(i + 1).last() == outputs@[i as int]@);
                    match self.players.get(&outputs[i]) {
                        Some(entry) => {
                            ids.push(entry.0);
                        },
                        None => {},
                    }
                    i = i + 1;
                }
                assert(outs.take(n as int) =~= outs);
            },
            None => {},
        }
        ids
    }
}

impl Default for PlayerManager {
    fn default() -> (m: Self)
        ensures
            m.wf(),
            m.players() == Map::<Seq<char>, (ManagedPlayerId, DeviceId)>::empty(),
            m.zones() == Map::<Seq<char>, Seq<Seq<char>>>::empty(),
    {
        Self::new()
    }
}

/// After a player is tracked for an output, the output has that player (so a new
/// registration reuses it and releasing hands back its ids), and other outputs keep theirs.
pub proof fn law_track_then_lookup(
    before: PlayerManager,
    after: PlayerManager,
    output_id: Seq<char>,
    player_id: ManagedPlayerId,
    device: DeviceId,
)
    requires
        after.players() == before.players().insert(output_id, (player_id, device)),
    ensures
        after.players().contains_key(output_id),
        after.players()[output_id] == (player_id, device),
        forall|o: Seq<char>|
            o != output_id ==> (#[trigger] after.players().contains_key(o) == before.players().contains_key(
                o,
            ) && after.players()[o] == before.players()[o]),
{
}

/// After a player is released, its output has no player and needs a new registration.
pub proof fn law_release_then_lookup(before: PlayerManager, after: PlayerManager, output_id: Seq<char>)
    requires
        after.players() == before.players().remove(output_id),
    ensures
        !after.players().contains_key(output_id),
        forall|o: Seq<char>|
            o != output_id ==> (#[trigger] after.players().contains_key(o) == before.players().contains_key(
                o,
            ) && after.players()[o] == before.players()[o]),
{
}

} // verus!
