//! Configuration and the list of pairings between Roon outputs and FSCT devices.
use vstd::prelude::*;
use crate::text::{owned, same_text};

verus! {

/// Main application configuration.
#[derive(Debug)]
pub struct AppConfig {
    /// Path to store device mappings.
    pub mappings_path: String,
    /// Path to store Roon state.
    pub roon_state_path: String,
}

/// The mappings path used when the configuration names none.
pub open spec fn spec_default_mappings_path() -> Seq<char> {
    seq!['.', '/', 'm', 'a', 'p', 'p', 'i', 'n', 'g', 's', '.', 'j', 's', 'o', 'n']
}

/// The Roon state path used when the configuration names none.
pub open spec fn spec_default_roon_state_path() -> Seq<char> {
    seq![
        '.', '/', 'r', 'o', 'o', 'n', '_', 's', 't', 'a', 't', 'e', '.', 'j', 's', 'o', 'n',
    ]
}

fn default_mappings_path() -> (p: String)
    ensures
        p@ == spec_default_mappings_path(),
{
    let p = owned("./mappings.json");
    proof {
        reveal_strlit("./mappings.json");
        assert(p@ =~= spec_default_mappings_path());
    }
    p
}

fn default_roon_state_path() -> (p: String)
    ensures
        p@ == spec_default_roon_state_path(),
{
    let p = owned("./roon_state.json");
    proof {
        reveal_strlit("./roon_state.json");
        assert(p@ =~= spec_default_roon_state_path());
    }
    p
}

impl Default for AppConfig {
    fn default() -> (c: Self)
        ensures
            c.mappings_path@ == spec_default_mappings_path(),
            c.roon_state_path@ == spec_default_roon_state_path(),
    {
        AppConfig {
            mappings_path: default_mappings_path(),
            roon_state_path: default_roon_state_path(),
        }
    }
}

/// Represents a Roon output device.
#[derive(Debug, PartialEq, Eq, Hash)]
pub struct RoonOutput {
    pub output_id: String,
    pub display_name: String,
}

impl Clone for RoonOutput {
    fn clone(&self) -> (r: Self)
        ensures
            r == *self,
    {
        RoonOutput { output_id: self.output_id.clone(), display_name: self.display_name.clone() }
    }
}

/// Represents an FSCT device.
#[derive(Debug, PartialEq, Eq, Hash)]
pub struct FsctDevice {
    pub device_id: String,
    pub display_name: String,
}

impl Clone for FsctDevice {
    fn clone(&self) -> (r: Self)
        ensures
            r == *self,
    {
        FsctDevice { device_id: self.device_id.clone(), display_name: self.display_name.clone() }
    }
}

/// Represents a mapping between Roon output and FSCT device.
#[derive(Debug)]
pub struct DeviceMapping {
    pub roon_output: RoonOutput,
    pub fsct_device: FsctDevice,
    /// Indicates if both devices are currently available.
    pub is_active: bool,
}

impl Clone for DeviceMapping {
    fn clone(&self) -> (r: Self)
        ensures
            r == *self,
    {
        DeviceMapping {
            roon_output: self.roon_output.clone(),
            fsct_device: self.fsct_device.clone(),
            is_active: self.is_active,
        }
    }
}

/// The Roon output id of a mapping.
pub open spec fn roon_key(m: DeviceMapping) -> Seq<char> {
    m.roon_output.output_id@
}

/// The FSCT device id of a mapping.
pub open spec fn fsct_key(m: DeviceMapping) -> Seq<char> {
    m.fsct_device.device_id@
}

/// `i` is the first position of `s` whose element satisfies `p`.
pub open spec fn is_first_where<T>(s: Seq<T>, p: spec_fn(T) -> bool, i: int) -> bool {
    &&& 0 <= i < s.len()
    &&& p(s[i])
    &&& forall|j: int| 0 <= j < i ==> !p(#[trigger] s[j])
}

/// The first position of `s` whose element satisfies `p`, if any.
pub open spec fn first_where<T>(s: Seq<T>, p: spec_fn(T) -> bool) -> Option<int> {
    if exists|i: int| is_first_where(s, p, i) {
        Some(choose|i: int| is_first_where(s, p, i))
    } else {
        None
    }
}

/// The first position is unique.
pub proof fn lemma_first_where<T>(s: Seq<T>, p: spec_fn(T) -> bool, i: int)
    requires
        is_first_where(s, p, i),
    ensures
        first_where(s, p) == Some(i),
{
    let c = choose|i: int| is_first_where(s, p, i);
    assert(is_first_where(s, p, c));
    if c < i {
        assert(!p(s[c]));
    } else if i < c {
        assert(!p(s[i]));
    }
}

/// When no element satisfies `p` there is no first position.
pub proof fn lemma_first_where_none<T>(s: Seq<T>, p: spec_fn(T) -> bool)
    requires
        forall|j: int| 0 <= j < s.len() ==> !p(#[trigger] s[j]),
    ensures
        first_where(s, p) is None,
{
    if exists|i: int| is_first_where(s, p, i) {
        let c = choose|i: int| is_first_where(s, p, i);
        assert(p(s[c]));
    }
}

/// Mappings of the Roon output `id`.
pub open spec fn for_roon(id: Seq<char>) -> spec_fn(DeviceMapping) -> bool {
    |m: DeviceMapping| roon_key(m) == id
}

/// Mappings of the FSCT device `id`.
pub open spec fn for_fsct(id: Seq<char>) -> spec_fn(DeviceMapping) -> bool {
    |m: DeviceMapping| fsct_key(m) == id
}

/// Mappings of any Roon output but `id`.
pub open spec fn not_for_roon(id: Seq<char>) -> spec_fn(DeviceMapping) -> bool {
    |m: DeviceMapping| roon_key(m) != id
}

/// The device of the first mapping of Roon output `id`.
pub open spec fn spec_find_fsct_by_roon(s: Seq<DeviceMapping>, id: Seq<char>) -> Option<FsctDevice> {
    match first_where(s, for_roon(id)) {
        Some(i) => Some(s[i].fsct_device),
        None => None,
    }
}

/// The output of the first mapping of FSCT device `id`.
pub open spec fn spec_find_roon_by_fsct(s: Seq<DeviceMapping>, id: Seq<char>) -> Option<RoonOutput> {
    match first_where(s, for_fsct(id)) {
        Some(i) => Some(s[i].roon_output),
        None => None,
    }
}

/// The mappings after adding or replacing the mapping of `m`'s output.
pub open spec fn spec_upsert(s: Seq<DeviceMapping>, m: DeviceMapping) -> Seq<DeviceMapping> {
    s.filter(not_for_roon(roon_key(m))).push(m)
}

/// The mappings after removing every mapping of Roon output `id`.
pub open spec fn spec_remove_by_roon(s: Seq<DeviceMapping>, id: Seq<char>) -> Seq<DeviceMapping> {
    s.filter(not_for_roon(id))
}

/// `m` with its activity flag set to `b`.
pub open spec fn with_active(m: DeviceMapping, b: bool) -> DeviceMapping {
    DeviceMapping { is_active: b, ..m }
}

/// The mappings after setting the activity flag of the first mapping that satisfies `p`.
pub open spec fn spec_set_first_active(
    s: Seq<DeviceMapping>,
    p: spec_fn(DeviceMapping) -> bool,
    b: bool,
) -> Seq<DeviceMapping> {
    match first_where(s, p) {
        Some(i) => s.update(i, with_active(s[i], b)),
        None => s,
    }
}

/// Collection of all device mappings.
#[derive(Debug)]
pub struct DeviceMappings {
    pub mappings: Vec<DeviceMapping>,
}

impl Clone for DeviceMappings {
    fn clone(&self) -> (r: Self)
        ensures
            r.mappings@ == self.mappings@,
    {
        let copied = self.mappings.clone();
        assert(copied@ =~= self.mappings@);
        DeviceMappings { mappings: copied }
    }
}

impl Default for DeviceMappings {
    fn default() -> (r: Self)
        ensures
            r.mappings@ == Seq::<DeviceMapping>::empty(),
    {
        DeviceMappings::new()
    }
}

impl DeviceMappings {
    pub fn new() -> (r: Self)
        ensures
            r.mappings@ == Seq::<DeviceMapping>::empty(),
    {
        DeviceMappings { mappings: Vec::new() }
    }

    /// Position of the first mapping of Roon output `id`.
    fn first_roon_index(&self, id: &str) -> (r: Option<usize>)
        ensures
            match r {
                Some(i) => first_where(self.mappings@, for_roon(id@)) == Some(i as int),
                None => first_where(self.mappings@, for_roon(id@)) is None,
            },
    {
        let n = self.mappings.len();
        let mut i: usize = 0;
        while i < n
            invariant
                n == self.mappings@.len(),
                i <= n,
                forall|j: int| 0 <= j < i ==> !for_roon(id@)(#[trigger] self.mappings@[j]),
            decreases n - i,
        {
            if same_text(self.mappings[i].roon_output.output_id.as_str(), id) {
                proof {
                    lemma_first_where(self.mappings@, for_roon(id@), i as int);
                }
                return Some(i);
            }
            i = i + 1;
        }
        proof {
            lemma_first_where_none(self.mappings@, for_roon(id@));
        }
        None
    }

    /// Position of the first mapping of FSCT device `id`.
    fn first_fsct_index(&self, id: &str) -> (r: Option<usize>)
        ensures
            match r {
                Some(i) => first_where(self.mappings@, for_fsct(id@)) == Some(i as int),
                None => first_where(self.mappings@, for_fsct(id@)) is None,
            },
    {
        let n = self.mappings.len();
        let mut i: usize = 0;
        while i < n
            invariant
                n == self.mappings@.len(),
                i <= n,
                forall|j: int| 0 <= j < i ==> !for_fsct(id@)(#[trigger] self.mappings@[j]),
            decreases n - i,
        {
            if same_text(self.mappings[i].fsct_device.device_id.as_str(), id) {
                proof {
                    lemma_first_where(self.mappings@, for_fsct(id@), i as int);
                }
                return Some(i);
            }
            i = i + 1;
        }
        proof {
            lemma_first_where_none(self.mappings@, for_fsct(id@));
        }
        None
    }

    /// Find FSCT device by Roon output ID.
    pub fn find_fsct_by_roon(&self, roon_output_id: &str) -> (r: Option<&FsctDevice>)
        ensures
            match r {
                Some(d) => spec_find_fsct_by_roon(self.mappings@, roon_output_id@) == Some(*d),
                None => spec_find_fsct_by_roon(self.mappings@, roon_output_id@) is None,
            },
    {
        match self.first_roon_index(roon_output_id) {
            Some(i) => Some(&self.mappings[i].fsct_device),
            None => None,
        }
    }

    /// Find Roon output by FSCT device ID.
    pub fn find_roon_by_fsct(&self, fsct_device_id: &str) -> (r: Option<&RoonOutput>)
        ensures
            match r {
                Some(o) => spec_find_roon_by_fsct(self.mappings@, fsct_device_id@) == Some(*o),
                None => spec_find_roon_by_fsct(self.mappings@, fsct_device_id@) is None,
            },
    {
        match self.first_fsct_index(fsct_device_id) {
            Some(i) => Some(&self.mappings[i].roon_output),
            None => None,
        }
    }

    /// Removes every mapping of Roon output `id`, keeping the order of the rest.
    /// Returns whether any mapping was removed.
    fn retain_other_roon(&mut self, id: &str) -> (removed: bool)
        ensures
            final(self).mappings@ == spec_remove_by_roon(old(self).mappings@, id@),
            removed == exists|j: int|
                0 <= j < old(self).mappings@.len() && #[trigger] roon_key(old(self).mappings@[j])
                    == id@,
    {
        let ghost orig = self.mappings@;
        let ghost p = not_for_roon(id@);
        let mut i: usize = 0;
        let ghost mut k: int = 0;
        let mut removed = false;
        assert(self.mappings@.take(0) =~= orig.take(0).filter(p)) by {
            reveal(Seq::filter);
        }
        while i < self.mappings.len()
            invariant
                0 <= i <= self.mappings@.len(),
                0 <= k <= orig.len(),
                p == not_for_roon(id@),
                self.mappings@.take(i as int) == orig.take(k).filter(p),
                self.mappings@.skip(i as int) == orig.skip(k),
                removed == exists|j: int| 0 <= j < k && #[trigger] roon_key(orig[j]) == id@,
            decreases self.mappings@.len() - i,
        {
            proof {
                assert(self.mappings@.skip(i as int).len() > 0);
                assert(orig.skip(k).len() > 0);
                assert(orig.skip(k)[0] == self.mappings@.skip(i as int)[0]);
                assert(orig.take(k + 1) =~= orig.take(k).push(orig[k]));
                orig.take(k).lemma_filter_push(orig[k], p);
            }
            if same_text(self.mappings[i].roon_output.output_id.as_str(), id) {
                let ghost before = self.mappings@;
                self.mappings.remove(i);
                proof {
                    assert(self.mappings@.take(i as int) =~= before.take(i as int));
                    assert(self.mappings@.skip(i as int) =~= before.skip(i as int).drop_first());
                    assert(orig.skip(k + 1) =~= orig.skip(k).drop_first());
                    k = k + 1;
                }
                removed = true;
            } else {
                let ghost before = self.mappings@;
                proof {
                    assert(before.take(i + 1) =~= before.take(i as int).push(before[i as int]));
                    assert(before.skip(i + 1) =~= before.skip(i as int).drop_first());
                    assert(orig.skip(k + 1) =~= orig.skip(k).drop_first());
                    k = k + 1;
                }
                i = i + 1;
            }
        }
        proof {
            assert(orig.skip(k).len() == 0);
            assert(orig.take(k) =~= orig);
            assert(self.mappings@.take(i as int) =~= self.mappings@);
        }
        removed
    }

    /// Add or update a mapping.
    pub fn upsert(&mut self, mapping: DeviceMapping)
        ensures
            final(self).mappings@ == spec_upsert(old(self).mappings@, mapping),
    {
        self.retain_other_roon(mapping.roon_output.output_id.as_str());
        self.mappings.push(mapping);
    }

    /// Remove mapping by Roon output ID.
    pub fn remove_by_roon(&mut self, roon_output_id: &str) -> (removed: bool)
        ensures
            final(self).mappings@ == spec_remove_by_roon(old(self).mappings@, roon_output_id@),
            removed == exists|j: int|
                0 <= j < old(self).mappings@.len() && #[trigger] roon_key(old(self).mappings@[j])
                    == roon_output_id@,
    {
        self.retain_other_roon(roon_output_id)
    }

    /// Update active status for a Roon output.
    pub fn update_roon_status(&mut self, roon_output_id: &str, is_available: bool)
        ensures
            final(self).mappings@ == spec_set_first_active(
                old(self).mappings@,
                for_roon(roon_output_id@),
                is_available,
            ),
    {
        match self.first_roon_index(roon_output_id) {
            Some(i) => {
                self.mappings[i].is_active = is_available;
                assert(self.mappings@ =~= spec_set_first_active(
                    old(self).mappings@,
                    for_roon(roon_output_id@),
                    is_available,
                ));
            },
            None => {},
        }
    }

    /// Update active status for an FSCT device.
    pub fn update_fsct_status(&mut self, fsct_device_id: &str, is_available: bool)
        ensures
            final(self).mappings@ == spec_set_first_active(
                old(self).mappings@,
                for_fsct(fsct_device_id@),
                is_available,
            ),
    {
        match self.first_fsct_index(fsct_device_id) {
            Some(i) => {
                self.mappings[i].is_active = is_available;
                assert(self.mappings@ =~= spec_set_first_active(
                    old(self).mappings@,
                    for_fsct(fsct_device_id@),
                    is_available,
                ));
            },
            None => {},
        }
    }
}

/// A first position in a prefix is a first position in the whole sequence.
pub proof fn lemma_first_where_prefix<T>(t: Seq<T>, s: Seq<T>, p: spec_fn(T) -> bool, j: int)
    requires
        t.len() <= s.len(),
        forall|k: int| 0 <= k < t.len() ==> #[trigger] t[k] == s[k],
        is_first_where(t, p, j),
    ensures
        is_first_where(s, p, j),
        first_where(s, p) == Some(j),
{
    assert forall|k: int| 0 <= k < j implies !p(#[trigger] s[k]) by {
        assert(t[k] == s[k]);
    }
    assert(t[j] == s[j]);
    lemma_first_where(s, p, j);
}

/// Some element of `s` satisfies `p`, so a first such element exists.
pub proof fn lemma_first_where_exists<T>(s: Seq<T>, p: spec_fn(T) -> bool, i: int)
    requires
        0 <= i < s.len(),
        p(s[i]),
    ensures
        first_where(s, p) is Some,
    decreases s.len(),
{
    let t = s.drop_last();
    if i < t.len() {
        lemma_first_where_exists(t, p, i);
        let j = first_where(t, p)->0;
        lemma_first_where(t, p, j);
        lemma_first_where_prefix(t, s, p, j);
    } else if exists|j: int| 0 <= j < t.len() && p(#[trigger] t[j]) {
        let j = choose|j: int| 0 <= j < t.len() && p(#[trigger] t[j]);
        lemma_first_where_exists(t, p, j);
        let f = first_where(t, p)->0;
        lemma_first_where(t, p, f);
        lemma_first_where_prefix(t, s, p, f);
    } else {
        assert forall|j: int| 0 <= j < i implies !p(#[trigger] s[j]) by {
            assert(s[j] == t[j]);
        }
        assert(is_first_where(s, p, i));
        lemma_first_where(s, p, i);
    }
}

/// Filtering by a predicate that every `q`-element satisfies keeps the first `q`-element.
pub proof fn lemma_filter_keeps_first<T>(s: Seq<T>, p: spec_fn(T) -> bool, q: spec_fn(T) -> bool)
    requires
        forall|x: T| #[trigger] q(x) ==> p(x),
    ensures
        match first_where(s, q) {
            Some(i) => first_where(s.filter(p), q) is Some && s.filter(p)[first_where(
                s.filter(p),
                q,
            )->0] == s[i],
            None => first_where(s.filter(p), q) is None,
        },
    decreases s.len(),
{
    reveal(Seq::filter);
    if s.len() == 0 {
        lemma_first_where_none(s, q);
        lemma_first_where_none(s.filter(p), q);
    } else {
        let t = s.drop_last();
        let x = s.last();
        let ft = t.filter(p);
        let fs = s.filter(p);
        assert(fs == if p(x) { ft.push(x) } else { ft });
        lemma_filter_keeps_first(t, p, q);
        match first_where(t, q) {
            Some(i) => {
                lemma_first_where(t, q, i);
                lemma_first_where_prefix(t, s, q, i);
                let j = first_where(ft, q)->0;
                lemma_first_where(ft, q, j);
                lemma_first_where_prefix(ft, fs, q, j);
            },
            None => {
                assert forall|j: int| 0 <= j < t.len() implies !q(#[trigger] t[j]) by {
                    if q(t[j]) {
                        lemma_first_where_exists(t, q, j);
                    }
                }
                assert forall|j: int| 0 <= j < ft.len() implies !q(#[trigger] ft[j]) by {
                    if q(ft[j]) {
                        lemma_first_where_exists(ft, q, j);
                    }
                }
                if q(x) {
                    assert forall|j: int| 0 <= j < s.len() - 1 implies !q(#[trigger] s[j]) by {
                        assert(s[j] == t[j]);
                    }
                    assert(is_first_where(s, q, s.len() - 1));
                    lemma_first_where(s, q, s.len() - 1);
                    assert(is_first_where(fs, q, fs.len() - 1));
                    lemma_first_where(fs, q, fs.len() - 1);
                } else {
                    assert forall|j: int| 0 <= j < s.len() implies !q(#[trigger] s[j]) by {
                        if j < t.len() {
                            assert(s[j] == t[j]);
                        }
                    }
                    lemma_first_where_none(s, q);
                    lemma_first_where_none(fs, q);
                }
            },
        }
    }
}

/// Elements kept by a filter satisfy its predicate.
pub proof fn lemma_filter_all<T>(s: Seq<T>, p: spec_fn(T) -> bool)
    ensures
        forall|j: int| 0 <= j < s.filter(p).len() ==> p(#[trigger] s.filter(p)[j]),
{
    broadcast use vstd::seq_lib::group_filter_ensures;
}

/// After `upsert(m)`, looking up `m`'s output finds `m`'s device.
pub proof fn law_upsert_then_find(s: Seq<DeviceMapping>, m: DeviceMapping)
    ensures
        spec_find_fsct_by_roon(spec_upsert(s, m), roon_key(m)) == Some(m.fsct_device),
{
    let f = s.filter(not_for_roon(roon_key(m)));
    let t = spec_upsert(s, m);
    lemma_filter_all(s, not_for_roon(roon_key(m)));
    assert forall|j: int| 0 <= j < f.len() implies !for_roon(roon_key(m))(#[trigger] t[j]) by {
        assert(t[j] == f[j]);
        assert(not_for_roon(roon_key(m))(f[j]));
    }
    assert(is_first_where(t, for_roon(roon_key(m)), f.len() as int));
    lemma_first_where(t, for_roon(roon_key(m)), f.len() as int);
}

/// After `upsert(m)`, exactly one mapping belongs to `m`'s output: the last one, `m`.
pub proof fn law_upsert_single(s: Seq<DeviceMapping>, m: DeviceMapping)
    ensures
        spec_upsert(s, m).last() == m,
        forall|j: int|
            0 <= j < spec_upsert(s, m).len() && roon_key(#[trigger] spec_upsert(s, m)[j]) == roon_key(
                m,
            ) ==> j == spec_upsert(s, m).len() - 1,
{
    let f = s.filter(not_for_roon(roon_key(m)));
    lemma_filter_all(s, not_for_roon(roon_key(m)));
    assert forall|j: int|
        0 <= j < spec_upsert(s, m).len() && roon_key(#[trigger] spec_upsert(s, m)[j]) == roon_key(m)
        implies j == spec_upsert(s, m).len() - 1 by {
        if j < f.len() {
            assert(spec_upsert(s, m)[j] == f[j]);
            assert(not_for_roon(roon_key(m))(f[j]));
        }
    }
}

/// `upsert(m)` leaves the device found for every other output unchanged.
pub proof fn law_upsert_keeps_others(s: Seq<DeviceMapping>, m: DeviceMapping, id: Seq<char>)
    requires
        id != roon_key(m),
    ensures
        spec_find_fsct_by_roon(spec_upsert(s, m), id) == spec_find_fsct_by_roon(s, id),
{
    let p = not_for_roon(roon_key(m));
    let q = for_roon(id);
    let f = s.filter(p);
    let t = f.push(m);
    lemma_filter_keeps_first(s, p, q);
    match first_where(f, q) {
        Some(j) => {
            lemma_first_where(f, q, j);
            assert(is_first_where(t, q, j));
            lemma_first_where(t, q, j);
        },
        None => {
            assert forall|j: int| 0 <= j < t.len() implies !q(#[trigger] t[j]) by {
                if j < f.len() {
                    assert(t[j] == f[j]);
                    if q(f[j]) {
                        lemma_first_where_exists(f, q, j);
                    }
                }
            }
            lemma_first_where_none(t, q);
        },
    }
}

/// After `remove_by_roon(id)`, no mapping of `id` is left.
pub proof fn law_remove_then_find(s: Seq<DeviceMapping>, id: Seq<char>)
    ensures
        spec_find_fsct_by_roon(spec_remove_by_roon(s, id), id) is None,
        forall|j: int|
            0 <= j < spec_remove_by_roon(s, id).len() ==> roon_key(
                #[trigger] spec_remove_by_roon(s, id)[j],
            ) != id,
{
    let f = spec_remove_by_roon(s, id);
    lemma_filter_all(s, not_for_roon(id));
    assert forall|j: int| 0 <= j < f.len() implies !for_roon(id)(#[trigger] f[j]) by {
        assert(not_for_roon(id)(f[j]));
    }
    lemma_first_where_none(f, for_roon(id));
}

/// `remove_by_roon(id)` leaves the device found for every other output unchanged.
pub proof fn law_remove_keeps_others(s: Seq<DeviceMapping>, id: Seq<char>, other: Seq<char>)
    requires
        other != id,
    ensures
        spec_find_fsct_by_roon(spec_remove_by_roon(s, id), other) == spec_find_fsct_by_roon(s, other),
{
    lemma_filter_keeps_first(s, not_for_roon(id), for_roon(other));
}

/// Setting an activity flag never changes which device an output is mapped to,
/// nor which output a device is mapped to.
pub proof fn law_status_keeps_pairings(
    s: Seq<DeviceMapping>,
    p: spec_fn(DeviceMapping) -> bool,
    b: bool,
    roon_id: Seq<char>,
    fsct_id: Seq<char>,
)
    ensures
        spec_find_fsct_by_roon(spec_set_first_active(s, p, b), roon_id) == spec_find_fsct_by_roon(
            s,
            roon_id,
        ),
        spec_find_roon_by_fsct(spec_set_first_active(s, p, b), fsct_id) == spec_find_roon_by_fsct(
            s,
            fsct_id,
        ),
{
    let t = spec_set_first_active(s, p, b);
    assert(t.len() == s.len());
    assert forall|j: int| 0 <= j < s.len() implies #[trigger] t[j].roon_output == s[j].roon_output
        && t[j].fsct_device == s[j].fsct_device by {}
    lemma_same_keys_same_first(s, t, for_roon(roon_id));
    lemma_same_keys_same_first(s, t, for_fsct(fsct_id));
}

/// Two sequences whose elements agree on `q` have the same first `q`-position.
pub proof fn lemma_same_keys_same_first<T>(s: Seq<T>, t: Seq<T>, q: spec_fn(T) -> bool)
    requires
        s.len() == t.len(),
        forall|j: int| 0 <= j < s.len() ==> q(#[trigger] t[j]) == q(s[j]),
    ensures
        first_where(t, q) == first_where(s, q),
{
    match first_where(s, q) {
        Some(i) => {
            lemma_first_where(s, q, i);
            assert forall|k: int| 0 <= k < i implies !q(#[trigger] t[k]) by {
                assert(q(t[k]) == q(s[k]));
            }
            assert(q(t[i]) == q(s[i]));
            lemma_first_where(t, q, i);
        },
        None => {
            assert forall|j: int| 0 <= j < t.len() implies !q(#[trigger] t[j]) by {
                assert(q(t[j]) == q(s[j]));
                if q(s[j]) {
                    lemma_first_where_exists(s, q, j);
                }
            }
            lemma_first_where_none(t, q);
        },
    }
}

} // verus!
