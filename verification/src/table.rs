//! An ordered association table with unique keys.
//!
//! Entries keep the order in which their keys were first inserted; replacing
//! the value of a present key keeps its position. The abstract view is the
//! finite map from key views to values.
use vstd::prelude::*;

verus! {

/// Keys that can be compared and copied with a known outcome.
pub trait TableKey: View + Sized {
    fn same_key(&self, other: &Self) -> (r: bool)
        ensures
            r == (self@ == other@),
    ;

    fn copy_key(&self) -> (r: Self)
        ensures
            r@ == self@,
    ;
}

impl TableKey for String {
    fn same_key(&self, other: &Self) -> (r: bool) {
        *self == *other
    }

    fn copy_key(&self) -> (r: Self) {
        self.clone()
    }
}

impl TableKey for u128 {
    fn same_key(&self, other: &Self) -> (r: bool) {
        *self == *other
    }

    fn copy_key(&self) -> (r: Self) {
        *self
    }
}

/// No two entries of `s` have keys with the same view.
pub open spec fn keys_distinct<K: View, T>(s: Seq<(K, T)>) -> bool {
    forall|i: int, j: int|
        0 <= i < s.len() && 0 <= j < s.len() && i != j ==> #[trigger] s[i].0@ != #[trigger] s[j].0@
}

/// Some entry of `s` has a key whose view is `k`.
pub open spec fn seq_has_key<K: View, T>(s: Seq<(K, T)>, k: K::V) -> bool {
    exists|i: int| 0 <= i < s.len() && #[trigger] s[i].0@ == k
}

/// The position of an entry of `s` whose key view is `k`.
pub open spec fn seq_key_index<K: View, T>(s: Seq<(K, T)>, k: K::V) -> int {
    choose|i: int| 0 <= i < s.len() && #[trigger] s[i].0@ == k
}

/// The map that a sequence of entries stands for.
pub open spec fn seq_to_map<K: View, T>(s: Seq<(K, T)>) -> Map<K::V, T> {
    Map::new(|k: K::V| seq_has_key(s, k), |k: K::V| s[seq_key_index(s, k)].1)
}

/// The key views of `s`, in order.
pub open spec fn seq_keys<K: View, T>(s: Seq<(K, T)>) -> Seq<K::V> {
    s.map_values(|e: (K, T)| e.0@)
}

/// The entries of `s` with their keys taken by view.
pub open spec fn entry_views_of<K: View, T>(s: Seq<(K, T)>) -> Seq<(K::V, T)> {
    s.map_values(|e: (K, T)| (e.0@, e.1))
}

/// Some entry of `s` has key `k`.
pub open spec fn views_has<A, T>(s: Seq<(A, T)>, k: A) -> bool {
    exists|i: int| 0 <= i < s.len() && #[trigger] s[i].0 == k
}

/// The position of an entry of `s` with key `k`.
pub open spec fn views_index<A, T>(s: Seq<(A, T)>, k: A) -> int {
    choose|i: int| 0 <= i < s.len() && #[trigger] s[i].0 == k
}

/// The entries after storing `v` under `k`: a present key keeps its position, a new key
/// goes last.
pub open spec fn views_insert<A, T>(s: Seq<(A, T)>, k: A, v: T) -> Seq<(A, T)> {
    if views_has(s, k) {
        s.update(views_index(s, k), (k, v))
    } else {
        s.push((k, v))
    }
}

/// The map built by storing the entries of `s` one after another.
pub open spec fn views_fold_insert<A, T>(s: Seq<(A, T)>) -> Map<A, T>
    decreases s.len(),
{
    if s.len() == 0 {
        Map::empty()
    } else {
        views_fold_insert(s.drop_last()).insert(s.last().0, s.last().1)
    }
}

/// Storing the entries of a table one after another builds the table's map.
pub proof fn lemma_fold_insert_is_map<K: View, T>(s: Seq<(K, T)>)
    requires
        keys_distinct(s),
    ensures
        views_fold_insert(entry_views_of(s)) == seq_to_map(s),
    decreases s.len(),
{
    if s.len() > 0 {
        let t = s.drop_last();
        assert(keys_distinct(t)) by {
            assert forall|a: int, b: int|
                0 <= a < t.len() && 0 <= b < t.len() && a != b implies #[trigger] t[a].0@
                != #[trigger] t[b].0@ by {
                assert(s[a].0@ != s[b].0@);
            }
        }
        lemma_fold_insert_is_map(t);
        assert(entry_views_of(s).drop_last() =~= entry_views_of(t));
        assert(s =~= t.push(s.last()));
        if seq_has_key(t, s.last().0@) {
            let j = seq_key_index(t, s.last().0@);
            assert(s[j].0@ == s[s.len() - 1].0@);
        }
        lemma_map_push(t, s.last());
    }
}

/// With distinct keys, the chosen position of a key is its only position.
pub proof fn lemma_key_index_unique<K: View, T>(s: Seq<(K, T)>, i: int)
    requires
        keys_distinct(s),
        0 <= i < s.len(),
    ensures
        seq_has_key(s, s[i].0@),
        seq_key_index(s, s[i].0@) == i,
{
    let k = s[i].0@;
    assert(seq_has_key(s, k));
    let j = seq_key_index(s, k);
    assert(0 <= j < s.len() && s[j].0@ == k);
}

/// The map of `s` with the value at a present key replaced.
pub proof fn lemma_map_update<K: View, T>(s: Seq<(K, T)>, i: int, e: (K, T))
    requires
        keys_distinct(s),
        0 <= i < s.len(),
        e.0@ == s[i].0@,
    ensures
        keys_distinct(s.update(i, e)),
        seq_to_map(s.update(i, e)) =~= seq_to_map(s).insert(e.0@, e.1),
{
    let t = s.update(i, e);
    assert forall|a: int, b: int|
        0 <= a < t.len() && 0 <= b < t.len() && a != b implies #[trigger] t[a].0@ != #[trigger] t[b].0@ by {
        assert(t[a].0@ == s[a].0@);
        assert(t[b].0@ == s[b].0@);
    }
    assert forall|k: K::V| #[trigger] seq_has_key(t, k) == seq_has_key(s, k) by {
        if seq_has_key(s, k) {
            let j = seq_key_index(s, k);
            assert(t[j].0@ == k);
        }
        if seq_has_key(t, k) {
            let j = seq_key_index(t, k);
            assert(s[j].0@ == k);
        }
    }
    assert forall|k: K::V| seq_has_key(t, k) implies #[trigger] t[seq_key_index(t, k)].1 == (
    if k == e.0@ {
        e.1
    } else {
        s[seq_key_index(s, k)].1
    }) by {
        let j = seq_key_index(t, k);
        lemma_key_index_unique(t, j);
        if k != e.0@ {
            assert(j != i);
            lemma_key_index_unique(s, j);
        } else {
            lemma_key_index_unique(t, i);
        }
    }
    lemma_key_index_unique(t, i);
}

/// The map of `s` with an entry for a new key appended.
pub proof fn lemma_map_push<K: View, T>(s: Seq<(K, T)>, e: (K, T))
    requires
        keys_distinct(s),
        !seq_has_key(s, e.0@),
    ensures
        keys_distinct(s.push(e)),
        seq_to_map(s.push(e)) =~= seq_to_map(s).insert(e.0@, e.1),
{
    let t = s.push(e);
    assert forall|a: int, b: int|
        0 <= a < t.len() && 0 <= b < t.len() && a != b implies #[trigger] t[a].0@ != #[trigger] t[b].0@ by {
        if a == s.len() {
            assert(s[b].0@ == t[b].0@);
        } else if b == s.len() {
            assert(s[a].0@ == t[a].0@);
        }
    }
    assert forall|k: K::V| #[trigger] seq_has_key(t, k) == (seq_has_key(s, k) || k == e.0@) by {
        if seq_has_key(s, k) {
            let j = seq_key_index(s, k);
            assert(t[j].0@ == k);
        }
        if k == e.0@ {
            assert(t[s.len() as int].0@ == k);
        }
        if seq_has_key(t, k) && k != e.0@ {
            let j = seq_key_index(t, k);
            assert(j < s.len());
            assert(s[j].0@ == k);
        }
    }
    assert forall|k: K::V| seq_has_key(t, k) implies #[trigger] t[seq_key_index(t, k)].1 == (
    if k == e.0@ {
        e.1
    } else {
        s[seq_key_index(s, k)].1
    }) by {
        let j = seq_key_index(t, k);
        lemma_key_index_unique(t, j);
        if k != e.0@ {
            assert(j < s.len());
            lemma_key_index_unique(s, j);
        } else {
            lemma_key_index_unique(t, s.len() as int);
        }
    }
}

/// The map of `s` with the entry at position `i` removed.
pub proof fn lemma_map_remove<K: View, T>(s: Seq<(K, T)>, i: int)
    requires
        keys_distinct(s),
        0 <= i < s.len(),
    ensures
        keys_distinct(s.remove(i)),
        seq_to_map(s.remove(i)) =~= seq_to_map(s).remove(s[i].0@),
{
    let t = s.remove(i);
    let ki = s[i].0@;
    assert forall|a: int, b: int|
        0 <= a < t.len() && 0 <= b < t.len() && a != b implies #[trigger] t[a].0@ != #[trigger] t[b].0@ by {
        let sa = if a < i { a } else { a + 1 };
        let sb = if b < i { b } else { b + 1 };
        assert(t[a] == s[sa]);
        assert(t[b] == s[sb]);
    }
    assert forall|k: K::V| #[trigger] seq_has_key(t, k) == (seq_has_key(s, k) && k != ki) by {
        if seq_has_key(s, k) && k != ki {
            let j = seq_key_index(s, k);
            assert(j != i);
            if j < i {
                assert(t[j].0@ == k);
            } else {
                assert(t[j - 1].0@ == k);
            }
        }
        if seq_has_key(t, k) {
            let j = seq_key_index(t, k);
            let sj = if j < i { j } else { j + 1 };
            assert(t[j] == s[sj]);
            assert(s[sj].0@ == k);
            assert(sj != i);
        }
    }
    assert forall|k: K::V| seq_has_key(t, k) implies #[trigger] t[seq_key_index(t, k)].1 == s[seq_key_index(s, k)].1 by {
        let j = seq_key_index(t, k);
        let sj = if j < i { j } else { j + 1 };
        assert(t[j] == s[sj]);
        lemma_key_index_unique(s, sj);
    }
}

/// Two entry sequences that agree on key views and values stand for the same map.
pub proof fn lemma_same_views_same_map<K: View, T>(s: Seq<(K, T)>, t: Seq<(K, T)>)
    requires
        keys_distinct(s),
        s.len() == t.len(),
        forall|i: int| 0 <= i < s.len() ==> #[trigger] t[i].0@ == s[i].0@ && t[i].1 == s[i].1,
    ensures
        keys_distinct(t),
        seq_to_map(t) =~= seq_to_map(s),
        seq_keys(t) =~= seq_keys(s),
{
    assert forall|a: int, b: int|
        0 <= a < t.len() && 0 <= b < t.len() && a != b implies #[trigger] t[a].0@ != #[trigger] t[b].0@ by {
        assert(t[a].0@ == s[a].0@);
        assert(t[b].0@ == s[b].0@);
    }
    assert forall|k: K::V| #[trigger] seq_has_key(t, k) == seq_has_key(s, k) by {
        if seq_has_key(s, k) {
            let j = seq_key_index(s, k);
            assert(t[j].0@ == k);
        }
        if seq_has_key(t, k) {
            let j = seq_key_index(t, k);
            assert(s[j].0@ == k);
        }
    }
    assert forall|k: K::V| seq_has_key(t, k) implies #[trigger] t[seq_key_index(t, k)].1 == s[seq_key_index(
        s,
        k,
    )].1 by {
        let j = seq_key_index(t, k);
        lemma_key_index_unique(t, j);
        assert(s[j].0@ == k);
        lemma_key_index_unique(s, j);
    }
}

/// An association table whose entries have pairwise distinct keys.
pub struct KeyedTable<K, T> {
    entries: Vec<(K, T)>,
}

impl<K: TableKey, T> View for KeyedTable<K, T> {
    type V = Map<K::V, T>;

    open spec fn view(&self) -> Map<K::V, T> {
        seq_to_map(self.entries())
    }
}

impl<K: TableKey, T> KeyedTable<K, T> {
    /// The entries, in table order.
    pub closed spec fn entries(&self) -> Seq<(K, T)> {
        self.entries@
    }

    /// The key views, in table order.
    pub open spec fn key_views(&self) -> Seq<K::V> {
        seq_keys(self.entries())
    }

    pub open spec fn wf(&self) -> bool {
        keys_distinct(self.entries())
    }

    /// The entries with their keys taken by view, in table order.
    pub open spec fn entry_views(&self) -> Seq<(K::V, T)> {
        entry_views_of(self.entries())
    }

    /// An empty table.
    pub fn new() -> (t: Self)
        ensures
            t.wf(),
            t.entries() == Seq::<(K, T)>::empty(),
            t@ == Map::<K::V, T>::empty(),
    {
        let t = KeyedTable { entries: Vec::new() };
        assert(t@ =~= Map::<K::V, T>::empty());
        t
    }

    pub fn len(&self) -> (n: usize)
        ensures
            n == self.entries().len(),
    {
        self.entries.len()
    }

    /// The entries as a vector, in table order.
    pub fn as_vec(&self) -> (v: &Vec<(K, T)>)
        ensures
            v@ == self.entries(),
    {
        &self.entries
    }

    /// The position of the entry with key `k`, if there is one.
    pub fn index_of(&self, k: &K) -> (r: Option<usize>)
        requires
            self.wf(),
        ensures
            match r {
                Some(i) => i < self.entries().len() && self.entries()[i as int].0@ == k@
                    && seq_key_index(self.entries(), k@) == i,
                None => !seq_has_key(self.entries(), k@),
            },
            r is Some <==> self@.contains_key(k@),
    {
        let n = self.entries.len();
        let mut i: usize = 0;
        while i < n
            invariant
                n == self.entries@.len(),
                i <= n,
                keys_distinct(self.entries@),
                forall|j: int| 0 <= j < i ==> self.entries@[j].0@ != k@,
            decreases n - i,
        {
            if self.entries[i].0.same_key(k) {
                proof {
                    lemma_key_index_unique(self.entries@, i as int);
                }
                return Some(i);
            }
            i = i + 1;
        }
        None
    }

    pub fn contains_key(&self, k: &K) -> (r: bool)
        requires
            self.wf(),
        ensures
            r == self@.contains_key(k@),
    {
        self.index_of(k).is_some()
    }

    /// The value stored under `k`, if any.
    pub fn get(&self, k: &K) -> (r: Option<&T>)
        requires
            self.wf(),
        ensures
            match r {
                Some(v) => self@.contains_key(k@) && *v == self@[k@],
                None => !self@.contains_key(k@),
            },
    {
        match self.index_of(k) {
            Some(i) => Some(&self.entries[i].1),
            None => None,
        }
    }

    /// Stores `v` under `k`. A present key keeps its position; a new key goes last.
    pub fn insert(&mut self, k: K, v: T)
        requires
            old(self).wf(),
        ensures
            final(self).wf(),
            final(self)@ == old(self)@.insert(k@, v),
            old(self)@.contains_key(k@) ==> final(self).entries() == old(self).entries().update(
                seq_key_index(old(self).entries(), k@),
                (k, v),
            ),
            !old(self)@.contains_key(k@) ==> final(self).entries() == old(self).entries().push(
                (k, v),
            ),
            final(self).entry_views() == views_insert(old(self).entry_views(), k@, v),
    {
        let ghost ev = self.entry_views();
        let ghost kv = k@;
        match self.index_of(&k) {
            Some(i) => {
                proof {
                    lemma_map_update(self.entries@, i as int, (k, v));
                    assert(ev[i as int].0 == kv);
                    assert(views_has(ev, kv));
                    let c = views_index(ev, kv);
                    assert(ev[c].0 == kv);
                    assert(self.entries@[c].0@ == kv);
                }
                self.entries.set(i, (k, v));
                assert(self.entry_views() =~= views_insert(ev, kv, v));
            },
            None => {
                proof {
                    lemma_map_push(self.entries@, (k, v));
                    if views_has(ev, kv) {
                        let c = views_index(ev, kv);
                        assert(self.entries@[c].0@ == kv);
                    }
                }
                self.entries.push((k, v));
                assert(self.entry_views() =~= views_insert(ev, kv, v));
            },
        }
    }

    /// Removes the entry with key `k` and hands back its value, if there was one.
    pub fn remove(&mut self, k: &K) -> (r: Option<T>)
        requires
            old(self).wf(),
        ensures
            final(self).wf(),
            final(self)@ == old(self)@.remove(k@),
            match r {
                Some(v) => old(self)@.contains_key(k@) && v == old(self)@[k@],
                None => !old(self)@.contains_key(k@),
            },
            old(self)@.contains_key(k@) ==> final(self).entries() == old(self).entries().remove(
                seq_key_index(old(self).entries(), k@),
            ),
            !old(self)@.contains_key(k@) ==> final(self).entries() == old(self).entries(),
    {
        match self.index_of(k) {
            Some(i) => {
                proof {
                    lemma_map_remove(self.entries@, i as int);
                }
                let e = self.entries.remove(i);
                Some(e.1)
            },
            None => {
                assert(old(self)@.remove(k@) =~= old(self)@);
                None
            },
        }
    }

    /// Removes every entry.
    pub fn clear(&mut self)
        ensures
            final(self).wf(),
            final(self).entries() == Seq::<(K, T)>::empty(),
            final(self)@ == Map::<K::V, T>::empty(),
    {
        self.entries.clear();
        assert(final(self)@ =~= Map::<K::V, T>::empty());
    }

    /// Copies of the keys, in table order.
    pub fn keys(&self) -> (ks: Vec<K>)
        ensures
            ks@.len() == self.entries().len(),
            forall|i: int| 0 <= i < ks@.len() ==> #[trigger] ks@[i]@ == self.entries()[i].0@,
    {
        let mut ks: Vec<K> = Vec::new();
        let n = self.entries.len();
        let mut i: usize = 0;
        while i < n
            invariant
                n == self.entries@.len(),
                i <= n,
                ks@.len() == i,
                forall|j: int| 0 <= j < i ==> #[trigger] ks@[j]@ == self.entries@[j].0@,
            decreases n - i,
        {
            ks.push(self.entries[i].0.copy_key());
            i = i + 1;
        }
        ks
    }
}

impl<K: TableKey, T: Copy> KeyedTable<K, T> {
    /// A table with copies of the same keys and values, in the same order.
    #[verifier::spinoff_prover]
    pub fn copy(&self) -> (r: Self)
        requires
            self.wf(),
        ensures
            r.wf(),
            r@ == self@,
            r.key_views() == self.key_views(),
            r.entries().len() == self.entries().len(),
            forall|i: int|
                0 <= i < r.entries().len() ==> #[trigger] r.entries()[i].0@ == self.entries()[i].0@
                    && r.entries()[i].1 == self.entries()[i].1,
    {
        let mut v: Vec<(K, T)> = Vec::new();
        let n = self.entries.len();
        let mut i: usize = 0;
        while i < n
            invariant
                n == self.entries@.len(),
                i <= n,
                v@.len() == i,
                forall|j: int|
                    0 <= j < i ==> #[trigger] v@[j].0@ == self.entries@[j].0@ && v@[j].1
                        == self.entries@[j].1,
            decreases n - i,
        {
            let k = self.entries[i].0.copy_key();
            let val: T = self.entries[i].1;
            v.push((k, val));
            i = i + 1;
        }
        proof {
            assert forall|j: int| 0 <= j < self.entries@.len() implies (#[trigger] v@[j].0@
                == self.entries@[j].0@) && (v@[j].1 == self.entries@[j].1) by {
                assert(v@[j].0@ == self.entries@[j].0@);
                assert(v@[j].1 == self.entries@[j].1);
            }
            lemma_same_views_same_map(self.entries@, v@);
        }
        KeyedTable { entries: v }
    }
}

} // verus!
