//! Pairings from Roon output ids to FSCT device ids.
use vstd::prelude::*;
use crate::player::DeviceId;
use crate::table::KeyedTable;
use crate::text::owned;

pub mod persistence;
pub mod service;

verus! {

/// Stores mappings between Roon output IDs and FSCT device UUIDs.
pub struct Mappings {
    /// output_id -> device_uuid
    data: KeyedTable<String, DeviceId>,
}

impl View for Mappings {
    type V = Map<Seq<char>, DeviceId>;

    closed spec fn view(&self) -> Map<Seq<char>, DeviceId> {
        self.data@
    }
}

impl Mappings {
    /// The table is well formed.
    pub closed spec fn wf(&self) -> bool {
        self.data.wf()
    }

    /// The mapped output ids, in the order in which they were first set.
    pub closed spec fn output_order(&self) -> Seq<Seq<char>> {
        self.data.key_views()
    }

    /// The entries, in the order of `output_order`.
    pub closed spec fn entries(&self) -> Seq<(String, DeviceId)> {
        self.data.entries()
    }

    /// The pairs with the output ids taken as text, in the order of `output_order`.
    pub open spec fn pair_views(&self) -> Seq<(Seq<char>, DeviceId)> {
        crate::table::entry_views_of(self.entries())
    }

    /// The order holds each mapped output exactly once.
    pub proof fn lemma_order(&self)
        requires
            self.wf(),
        ensures
            self.output_order().len() == self.entries().len(),
            forall|i: int|
                0 <= i < self.entries().len() ==> #[trigger] self.output_order()[i]
                    == self.entries()[i].0@ && self@.contains_key(self.entries()[i].0@)
                    && self@[self.entries()[i].0@] == self.entries()[i].1,
            forall|i: int, j: int|
                0 <= i < self.entries().len() && 0 <= j < self.entries().len() && i != j
                    ==> #[trigger] self.output_order()[i] != #[trigger] self.output_order()[j],
            forall|k: Seq<char>| #[trigger]
                self@.contains_key(k) <==> self.output_order().contains(k),
    {
        let s = self.data.entries();
        assert forall|i: int| 0 <= i < s.len() implies #[trigger] self.output_order()[i] == s[i].0@
            && self@.contains_key(s[i].0@) && self@[s[i].0@] == s[i].1 by {
            crate::table::lemma_key_index_unique(s, i);
        }
        assert forall|k: Seq<char>| #[trigger]
            self@.contains_key(k) <==> self.output_order().contains(k) by {
            if self@.contains_key(k) {
                let j = crate::table::seq_key_index(s, k);
                assert(self.output_order()[j] == k);
            }
            if self.output_order().contains(k) {
                let j = choose|j: int| 0 <= j < self.output_order().len() && self.output_order()[j] == k;
                assert(s[j].0@ == k);
            }
        }
    }

    /// The pairs list each mapping once: distinct output ids, each with its device, and
    /// storing them one after another gives the mappings.
    pub proof fn lemma_pairs(&self)
        requires
            self.wf(),
        ensures
            forall|i: int, j: int|
                0 <= i < self.pair_views().len() && 0 <= j < self.pair_views().len() && i != j
                    ==> #[trigger] self.pair_views()[i].0 != #[trigger] self.pair_views()[j].0,
            forall|i: int|
                0 <= i < self.pair_views().len() ==> #[trigger] self@.contains_key(
                    self.pair_views()[i].0,
                ) && self@[self.pair_views()[i].0] == self.pair_views()[i].1,
            crate::table::views_fold_insert(self.pair_views()) == self@,
    {
        self.lemma_order();
        crate::table::lemma_fold_insert_is_map(self.data.entries());
        assert forall|i: int, j: int|
            0 <= i < self.pair_views().len() && 0 <= j < self.pair_views().len() && i != j
            implies #[trigger] self.pair_views()[i].0 != #[trigger] self.pair_views()[j].0 by {
            assert(self.output_order()[i] != self.output_order()[j]);
        }
        assert forall|i: int| 0 <= i < self.pair_views().len() implies #[trigger] self@.contains_key(
            self.pair_views()[i].0,
        ) && self@[self.pair_views()[i].0] == self.pair_views()[i].1 by {
            assert(self.output_order()[i] == self.entries()[i].0@);
        }
    }

    pub fn new() -> (m: Self)
        ensures
            m.wf(),
            m@ == Map::<Seq<char>, DeviceId>::empty(),
            m.entries().len() == 0,
    {
        Mappings { data: KeyedTable::new() }
    }

    /// Set mapping for output.
    pub fn set(&mut self, output_id: String, device_uuid: DeviceId)
        requires
            old(self).wf(),
        ensures
            final(self).wf(),
            final(self)@ == old(self)@.insert(output_id@, device_uuid),
    {
        self.data.insert(output_id, device_uuid);
    }

    /// Remove mapping for output; tells whether there was one.
    pub fn remove(&mut self, output_id: &str) -> (r: bool)
        requires
            old(self).wf(),
        ensures
            final(self).wf(),
            final(self)@ == old(self)@.remove(output_id@),
            r == old(self)@.contains_key(output_id@),
    {
        let key = owned(output_id);
        self.data.remove(&key).is_some()
    }

    /// Get device UUID for output.
    pub fn get(&self, output_id: &str) -> (r: Option<DeviceId>)
        requires
            self.wf(),
        ensures
            r == (if self@.contains_key(output_id@) {
                Some(self@[output_id@])
            } else {
                None
            }),
    {
        let key = owned(output_id);
        match self.data.get(&key) {
            Some(d) => Some(*d),
            None => None,
        }
    }

    /// Get all mappings (returns a copy).
    pub fn all(&self) -> (r: Mappings)
        requires
            self.wf(),
        ensures
            r.wf(),
            r@ == self@,
            r.output_order() == self.output_order(),
    {
        Mappings { data: self.data.copy() }
    }

    /// Check if output has mapping.
    pub fn has(&self, output_id: &str) -> (r: bool)
        requires
            self.wf(),
        ensures
            r == self@.contains_key(output_id@),
    {
        let key = owned(output_id);
        self.data.contains_key(&key)
    }

    /// Clear all mappings.
    pub fn clear(&mut self)
        ensures
            final(self).wf(),
            final(self)@ == Map::<Seq<char>, DeviceId>::empty(),
            final(self).entries().len() == 0,
    {
        self.data.clear();
    }

    /// Number of mapped outputs.
    pub fn len(&self) -> (n: usize)
        requires
            self.wf(),
        ensures
            n == self.entries().len(),
    {
        self.data.len()
    }

    /// The pairs, in the order of `output_order`.
    pub fn pairs(&self) -> (v: &Vec<(String, DeviceId)>)
        ensures
            v@ == self.entries(),
    {
        self.data.as_vec()
    }
}

impl Default for Mappings {
    fn default() -> (m: Self)
        ensures
            m.wf(),
            m@ == Map::<Seq<char>, DeviceId>::empty(),
    {
        Self::new()
    }
}

/// After setting an output's device, reading it gives that device, and every other
/// output keeps what it had.
pub proof fn law_set_then_get(before: Mappings, after: Mappings, output_id: Seq<char>, device: DeviceId)
    requires
        after@ == before@.insert(output_id, device),
    ensures
        after@.contains_key(output_id),
        after@[output_id] == device,
        forall|o: Seq<char>|
            o != output_id ==> (#[trigger] after@.contains_key(o) == before@.contains_key(o) && after@[o]
                == before@[o]),
{
}

/// After removing an output's mapping, the output has none, and every other output keeps
/// what it had.
pub proof fn law_remove_then_get(before: Mappings, after: Mappings, output_id: Seq<char>)
    requires
        after@ == before@.remove(output_id),
    ensures
        !after@.contains_key(output_id),
        forall|o: Seq<char>|
            o != output_id ==> (#[trigger] after@.contains_key(o) == before@.contains_key(o) && after@[o]
                == before@[o]),
{
}

} // verus!
