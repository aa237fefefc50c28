//! The FSCT devices currently known, by device id.
use vstd::prelude::*;
use crate::player::{DeviceId, DeviceInfo};
use crate::table::KeyedTable;

verus! {

/// A change in the set of detected devices.
#[derive(Debug, Clone, Copy, PartialEq, Eq, Structural)]
pub enum DeviceChangeEvent {
    Added(DeviceId),
    Removed(DeviceId),
}

/// The devices after the lookups `fetched` (a device id with what the driver answered
/// about it): each answered device is stored; failed lookups change nothing.
pub open spec fn spec_upsert_fetched(
    devices: Map<DeviceId, DeviceInfo>,
    fetched: Seq<(DeviceId, Option<DeviceInfo>)>,
) -> Map<DeviceId, DeviceInfo>
    decreases fetched.len(),
{
    if fetched.len() == 0 {
        devices
    } else {
        let m = spec_upsert_fetched(devices, fetched.drop_last());
        match fetched.last().1 {
            Some(info) => m.insert(fetched.last().0, info),
            None => m,
        }
    }
}

/// Keeps the device infos of the detected FSCT devices, keyed by device id.
pub struct FsctDeviceManager {
    devices: KeyedTable<DeviceId, DeviceInfo>,
}

impl View for FsctDeviceManager {
    type V = Map<DeviceId, DeviceInfo>;

    closed spec fn view(&self) -> Map<DeviceId, DeviceInfo> {
        self.devices@
    }
}

impl FsctDeviceManager {
    pub closed spec fn wf(&self) -> bool {
        self.devices.wf()
    }

    /// The known devices, in the order in which they were first stored.
    pub closed spec fn device_list(&self) -> Seq<DeviceInfo> {
        self.devices.entries().map_values(|e: (DeviceId, DeviceInfo)| e.1)
    }

    /// The list holds exactly the known devices, each once.
    pub proof fn lemma_device_list(&self)
        requires
            self.wf(),
        ensures
            self.device_list().len() == self@.len(),
            forall|d: DeviceId| #[trigger] self@.contains_key(d) ==> self.device_list().contains(self@[d]),
    {
        let s = self.devices.entries();
        assert forall|d: DeviceId| #[trigger] self@.contains_key(d) implies self.device_list().contains(
            self@[d],
        ) by {
            let j = crate::table::seq_key_index(s, d);
            assert(self.device_list()[j] == self@[d]);
        }
        let keys = crate::table::seq_keys(s);
        assert(keys.no_duplicates());
        assert forall|d: DeviceId| #[trigger] self@.dom().contains(d) <==> keys.to_set().contains(d) by {
            if self@.contains_key(d) {
                let j = crate::table::seq_key_index(s, d);
                assert(keys[j] == d);
            }
            if keys.to_set().contains(d) {
                let j = choose|j: int| 0 <= j < keys.len() && keys[j] == d;
                assert(s[j].0@ == d);
            }
        }
        assert(self@.dom() =~= keys.to_set());
        keys.unique_seq_to_set();
    }

    pub fn new() -> (m: Self)
        ensures
            m.wf(),
            m@ == Map::<DeviceId, DeviceInfo>::empty(),
    {
        Self { devices: KeyedTable::new() }
    }

    /// Returns a copy of all currently known devices.
    pub fn get_all(&self) -> (all: Vec<DeviceInfo>)
        requires
            self.wf(),
        ensures
            all@ == self.device_list(),
            all@.len() == self@.len(),
            forall|d: DeviceId| #[trigger] self@.contains_key(d) ==> all@.contains(self@[d]),
    {
        proof {
            self.lemma_device_list();
        }
        let entries = self.devices.as_vec();
        let mut all: Vec<DeviceInfo> = Vec::new();
        let n = entries.len();
        let mut i: usize = 0;
        while i < n
            invariant
                n == entries@.len(),
                entries@ == self.devices.entries(),
                i <= n,
                all@ == self.device_list().take(i as int),
            decreases n - i,
        {
            all.push(entries[i].1.clone());
            assert(all@ =~= self.device_list().take(i + 1));
            i = i + 1;
        }
        assert(self.device_list().take(n as int) =~= self.device_list());
        all
    }

    /// Store the devices that the driver described, for a list of device ids with the
    /// driver's answer for each (`None` where the lookup failed).
    pub fn upsert_from_ids(&mut self, fetched: Vec<(DeviceId, Option<DeviceInfo>)>)
        requires
            old(self).wf(),
        ensures
            final(self).wf(),
            final(self)@ == spec_upsert_fetched(old(self)@, fetched@),
    {
        let n = fetched.len();
        let mut i: usize = 0;
        assert(fetched@.take(0) =~= Seq::<(DeviceId, Option<DeviceInfo>)>::empty());
        while i < n
            invariant
                n == fetched@.len(),
                i <= n,
                self.wf(),
                self@ == spec_upsert_fetched(old(self)@, fetched@.take(i as int)),
            decreases n - i,
        {
            assert(fetched@.take(i + 1).drop_last() =~= fetched@.take(i as int));
            match &fetched[i].1 {
                Some(info) => {
                    self.devices.insert(fetched[i].0, info.clone());
                },
                None => {},
            }
            i = i + 1;
        }
        assert(fetched@.take(n as int) =~= fetched@);
    }

    /// Apply a single device change event. For an added device, `info` is what the
    /// driver answered about it (`None` when the lookup failed, which changes nothing).
    pub fn handle_event(&mut self, evt: DeviceChangeEvent, info: Option<DeviceInfo>)
        requires
            old(self).wf(),
        ensures
            final(self).wf(),
            final(self)@ == (match evt {
                DeviceChangeEvent::Added(id) => match info {
                    Some(i) => old(self)@.insert(id, i),
                    None => old(self)@,
                },
                DeviceChangeEvent::Removed(id) => old(self)@.remove(id),
            }),
    {
        match evt {
            DeviceChangeEvent::Added(id) => {
                match info {
                    Some(i) => {
                        self.devices.insert(id, i);
                    },
                    None => {},
                }
            },
            DeviceChangeEvent::Removed(id) => {
                self.devices.remove(&id);
            },
        }
    }
}

impl Default for FsctDeviceManager {
    fn default() -> (m: Self)
        ensures
            m.wf(),
            m@ == Map::<DeviceId, DeviceInfo>::empty(),
    {
        Self::new()
    }
}

/// After an added device is looked up successfully it is known with the driver's
/// description; after it is then removed it is no longer known.
pub proof fn law_added_then_removed(
    first: FsctDeviceManager,
    second: FsctDeviceManager,
    third: FsctDeviceManager,
    id: DeviceId,
    info: DeviceInfo,
)
    requires
        second@ == first@.insert(id, info),
        third@ == second@.remove(id),
    ensures
        second@.contains_key(id),
        second@[id] == info,
        !third@.contains_key(id),
{
}

} // verus!
