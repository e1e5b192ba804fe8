//! A map from byte-string keys to values, held as a vector sorted by key.
//!
//! Hash maps walk their entries in an order that differs from process to
//! process. State commitments must not depend on such an order, so the
//! ledger keeps its mappings sorted: the sequence of entries is a function
//! of the mapping alone.

use vstd::prelude::*;
use crate::byte_order::{
    bytes_lt, compare_bytes, lemma_lt_asymmetric, lemma_lt_irreflexive, lemma_lt_transitive,
    Relation,
};

verus! {

/// A key that is ordered by the bytes it stands for.
pub trait ByteKey {
    /// The bytes of the key.
    spec fn key_bytes(&self) -> Seq<u8>;

    /// The bytes of the key.
    fn as_key(&self) -> (bytes: &[u8])
        ensures
            bytes@ == self.key_bytes(),
    ;
}

impl ByteKey for [u8; 32] {
    open spec fn key_bytes(&self) -> Seq<u8> {
        self@
    }

    fn as_key(&self) -> (bytes: &[u8]) {
        self.as_slice()
    }
}

impl ByteKey for Vec<u8> {
    open spec fn key_bytes(&self) -> Seq<u8> {
        self@
    }

    fn as_key(&self) -> (bytes: &[u8]) {
        self.as_slice()
    }
}

/// The entries with each key replaced by its bytes.
pub open spec fn listing<K: ByteKey, T>(entries: Seq<(K, T)>) -> Seq<(Seq<u8>, T)> {
    entries.map_values(|e: (K, T)| (e.0.key_bytes(), e.1))
}

/// Keys ascend strictly along the sequence.
pub open spec fn strictly_sorted<T>(s: Seq<(Seq<u8>, T)>) -> bool {
    forall|i: int, j: int| 0 <= i < j < s.len() ==> bytes_lt(
        (#[trigger] s[i]).0,
        (#[trigger] s[j]).0,
    )
}

/// `s` lists exactly the entries of `m`, in ascending order of key.
pub open spec fn lists<T>(s: Seq<(Seq<u8>, T)>, m: Map<Seq<u8>, T>) -> bool {
    &&& strictly_sorted(s)
    &&& forall|i: int|
        0 <= i < s.len() ==> m.contains_key((#[trigger] s[i]).0) && m[s[i].0] == s[i].1
    &&& forall|k: Seq<u8>|
        m.contains_key(k) ==> exists|i: int| 0 <= i < s.len() && (#[trigger] s[i]).0 == k
}

/// The entries of `m` in ascending order of key.
pub open spec fn canonical_order<T>(m: Map<Seq<u8>, T>) -> Seq<(Seq<u8>, T)> {
    choose|s: Seq<(Seq<u8>, T)>| lists(s, m)
}

/// Whether some entry of `s` has the key `k`.
pub open spec fn has_key<T>(s: Seq<(Seq<u8>, T)>, k: Seq<u8>) -> bool {
    exists|i: int| 0 <= i < s.len() && (#[trigger] s[i]).0 == k
}

/// The mapping that a sequence of entries stands for.
pub open spec fn map_of<T>(s: Seq<(Seq<u8>, T)>) -> Map<Seq<u8>, T> {
    Map::new(
        |k: Seq<u8>| has_key(s, k),
        |k: Seq<u8>| s[choose|i: int| 0 <= i < s.len() && (#[trigger] s[i]).0 == k].1,
    )
}

/// A sorted sequence lists the mapping it stands for.
pub proof fn lemma_map_of_lists<T>(s: Seq<(Seq<u8>, T)>)
    requires
        strictly_sorted(s),
    ensures
        lists(s, map_of(s)),
{
    let m = map_of(s);
    assert forall|i: int| 0 <= i < s.len() implies m.contains_key((#[trigger] s[i]).0) && m[s[i].0]
        == s[i].1 by {
        let k = s[i].0;
        assert(has_key(s, k));
        let c = choose|c: int| 0 <= c < s.len() && (#[trigger] s[c]).0 == k;
        if c != i {
            lemma_lt_irreflexive(k);
        }
    }
}

/// A mapping is determined by a sequence that lists it.
pub proof fn lemma_lists_determines_map<T>(s: Seq<(Seq<u8>, T)>, m: Map<Seq<u8>, T>)
    requires
        lists(s, m),
    ensures
        map_of(s) == m,
{
    lemma_map_of_lists(s);
    let n = map_of(s);
    assert forall|k: Seq<u8>| n.contains_key(k) == m.contains_key(k) by {
        if n.contains_key(k) {
            let i = choose|i: int| 0 <= i < s.len() && (#[trigger] s[i]).0 == k;
            assert(m.contains_key(s[i].0));
        }
        if m.contains_key(k) {
            assert(has_key(s, k));
        }
    }
    assert forall|k: Seq<u8>| n.contains_key(k) implies n[k] == m[k] by {
        let i = choose|i: int| 0 <= i < s.len() && (#[trigger] s[i]).0 == k;
        assert(m[s[i].0] == s[i].1);
        assert(n[s[i].0] == s[i].1);
    }
    assert(n =~= m);
}

/// Only one sequence lists a given mapping: the order of the entries is a
/// function of the mapping, whatever the order in which they were inserted.
pub proof fn lemma_listing_unique<T>(
    s1: Seq<(Seq<u8>, T)>,
    s2: Seq<(Seq<u8>, T)>,
    m: Map<Seq<u8>, T>,
)
    requires
        lists(s1, m),
        lists(s2, m),
    ensures
        s1 == s2,
    decreases s1.len(),
{
    if s1.len() == 0 {
        if s2.len() > 0 {
            assert(m.contains_key(s2[0].0));
        }
        assert(s1 =~= s2);
    } else {
        assert(m.contains_key(s1[0].0));
        let k1 = s1[0].0;
        let j = choose|j: int| 0 <= j < s2.len() && (#[trigger] s2[j]).0 == k1;
        let k2 = s2[0].0;
        assert(m.contains_key(s2[0].0));
        let i = choose|i: int| 0 <= i < s1.len() && (#[trigger] s1[i]).0 == k2;
        if j > 0 {
            assert(bytes_lt(s2[0].0, s2[j].0));
            if i > 0 {
                assert(bytes_lt(s1[0].0, s1[i].0));
                lemma_lt_asymmetric(k1, k2);
            } else {
                lemma_lt_irreflexive(k1);
            }
        }
        assert(k1 == k2);
        assert(s1[0] == s2[0]);
        let t1 = s1.subrange(1, s1.len() as int);
        let t2 = s2.subrange(1, s2.len() as int);
        let rest = m.remove(k1);
        lemma_tail_lists(s1, m);
        lemma_tail_lists(s2, m);
        lemma_listing_unique(t1, t2, rest);
        assert(s1 =~= seq![s1[0]] + t1);
        assert(s2 =~= seq![s2[0]] + t2);
    }
}

/// The listing of a mapping without its first entry lists the mapping
/// without the key of that entry.
proof fn lemma_tail_lists<T>(s: Seq<(Seq<u8>, T)>, m: Map<Seq<u8>, T>)
    requires
        lists(s, m),
        s.len() > 0,
    ensures
        lists(s.subrange(1, s.len() as int), m.remove(s[0].0)),
{
    let t = s.subrange(1, s.len() as int);
    let k0 = s[0].0;
    let rest = m.remove(k0);
    assert forall|i: int, j: int| 0 <= i < j < t.len() implies bytes_lt(
        (#[trigger] t[i]).0,
        (#[trigger] t[j]).0,
    ) by {
        assert(bytes_lt(s[i + 1].0, s[j + 1].0));
    }
    assert forall|i: int| 0 <= i < t.len() implies rest.contains_key((#[trigger] t[i]).0)
        && rest[t[i].0] == t[i].1 by {
        assert(bytes_lt(s[0].0, s[i + 1].0));
        lemma_lt_irreflexive(k0);
        assert(m.contains_key(s[i + 1].0));
    }
    assert forall|k: Seq<u8>| rest.contains_key(k) implies exists|i: int|
        0 <= i < t.len() && (#[trigger] t[i]).0 == k by {
        let i = choose|i: int| 0 <= i < s.len() && (#[trigger] s[i]).0 == k;
        assert(i != 0);
        assert(t[i - 1].0 == k);
    }
}

/// A listing stays one when every value is replaced by its image under a
/// function.
pub proof fn lemma_lists_map_values<T, U>(
    s: Seq<(Seq<u8>, T)>,
    m: Map<Seq<u8>, T>,
    f: spec_fn(T) -> U,
)
    requires
        lists(s, m),
    ensures
        lists(s.map_values(|e: (Seq<u8>, T)| (e.0, f(e.1))), m.map_values(f)),
{
    let t = s.map_values(|e: (Seq<u8>, T)| (e.0, f(e.1)));
    let n = m.map_values(f);
    assert forall|i: int, j: int| 0 <= i < j < t.len() implies bytes_lt(
        (#[trigger] t[i]).0,
        (#[trigger] t[j]).0,
    ) by {
        assert(bytes_lt(s[i].0, s[j].0));
    }
    assert forall|i: int| 0 <= i < t.len() implies n.contains_key((#[trigger] t[i]).0) && n[t[i].0]
        == t[i].1 by {
        assert(m.contains_key(s[i].0));
    }
    assert forall|k: Seq<u8>| n.contains_key(k) implies exists|i: int|
        0 <= i < t.len() && (#[trigger] t[i]).0 == k by {
        let i = choose|i: int| 0 <= i < s.len() && (#[trigger] s[i]).0 == k;
        assert(t[i].0 == k);
    }
}

/// Putting an entry at the place that its key has in the order gives the
/// mapping with that entry added.
pub proof fn lemma_insert_lists<T>(s: Seq<(Seq<u8>, T)>, i: int, k: Seq<u8>, v: T)
    requires
        strictly_sorted(s),
        0 <= i <= s.len(),
        forall|j: int| 0 <= j < i ==> bytes_lt((#[trigger] s[j]).0, k),
        forall|j: int| i <= j < s.len() ==> bytes_lt(k, (#[trigger] s[j]).0),
    ensures
        strictly_sorted(s.insert(i, (k, v))),
        map_of(s.insert(i, (k, v))) == map_of(s).insert(k, v),
{
    let t = s.insert(i, (k, v));
    let m = map_of(s).insert(k, v);
    lemma_map_of_lists(s);
    assert forall|a: int, b: int| 0 <= a < b < t.len() implies bytes_lt(
        (#[trigger] t[a]).0,
        (#[trigger] t[b]).0,
    ) by {
        let a0 = if a < i { a } else { a - 1 };
        let b0 = if b < i { b } else { b - 1 };
        if a == i {
            assert(t[b] == s[b0]);
        } else if b == i {
            assert(t[a] == s[a0]);
        } else {
            assert(t[a] == s[a0]);
            assert(t[b] == s[b0]);
            assert(bytes_lt(s[a0].0, s[b0].0));
        }
    }
    assert forall|a: int| 0 <= a < t.len() implies m.contains_key((#[trigger] t[a]).0) && m[t[a].0]
        == t[a].1 by {
        if a != i {
            let a0 = if a < i { a } else { a - 1 };
            assert(t[a] == s[a0]);
            assert(map_of(s).contains_key(s[a0].0));
            lemma_lt_irreflexive(k);
        }
    }
    assert forall|q: Seq<u8>| m.contains_key(q) implies exists|a: int|
        0 <= a < t.len() && (#[trigger] t[a]).0 == q by {
        if q == k {
            assert(t[i].0 == q);
        } else {
            let a0 = choose|a0: int| 0 <= a0 < s.len() && (#[trigger] s[a0]).0 == q;
            let a = if a0 < i { a0 } else { a0 + 1 };
            assert(t[a] == s[a0]);
        }
    }
    lemma_lists_determines_map(t, m);
}

/// Replacing the value of an entry gives the mapping with the new value at
/// its key.
pub proof fn lemma_update_lists<T>(s: Seq<(Seq<u8>, T)>, i: int, v: T)
    requires
        strictly_sorted(s),
        0 <= i < s.len(),
    ensures
        strictly_sorted(s.update(i, (s[i].0, v))),
        map_of(s.update(i, (s[i].0, v))) == map_of(s).insert(s[i].0, v),
{
    let k = s[i].0;
    let t = s.update(i, (k, v));
    let m = map_of(s).insert(k, v);
    lemma_map_of_lists(s);
    assert forall|a: int, b: int| 0 <= a < b < t.len() implies bytes_lt(
        (#[trigger] t[a]).0,
        (#[trigger] t[b]).0,
    ) by {
        assert(bytes_lt(s[a].0, s[b].0));
    }
    assert forall|a: int| 0 <= a < t.len() implies m.contains_key((#[trigger] t[a]).0) && m[t[a].0]
        == t[a].1 by {
        if a != i {
            assert(t[a] == s[a]);
            assert(map_of(s).contains_key(s[a].0));
            if a < i {
                assert(bytes_lt(s[a].0, s[i].0));
            } else {
                assert(bytes_lt(s[i].0, s[a].0));
            }
            lemma_lt_irreflexive(k);
        }
    }
    assert forall|q: Seq<u8>| m.contains_key(q) implies exists|a: int|
        0 <= a < t.len() && (#[trigger] t[a]).0 == q by {
        if q == k {
            assert(t[i].0 == q);
        } else {
            let a = choose|a: int| 0 <= a < s.len() && (#[trigger] s[a]).0 == q;
            assert(t[a] == s[a]);
        }
    }
    lemma_lists_determines_map(t, m);
}

/// Taking an entry out gives the mapping without its key.
pub proof fn lemma_remove_lists<T>(s: Seq<(Seq<u8>, T)>, i: int)
    requires
        strictly_sorted(s),
        0 <= i < s.len(),
    ensures
        strictly_sorted(s.remove(i)),
        map_of(s.remove(i)) == map_of(s).remove(s[i].0),
{
    let k = s[i].0;
    let t = s.remove(i);
    let m = map_of(s).remove(k);
    lemma_map_of_lists(s);
    assert forall|a: int, b: int| 0 <= a < b < t.len() implies bytes_lt(
        (#[trigger] t[a]).0,
        (#[trigger] t[b]).0,
    ) by {
        let a0 = if a < i { a } else { a + 1 };
        let b0 = if b < i { b } else { b + 1 };
        assert(t[a] == s[a0]);
        assert(t[b] == s[b0]);
        assert(bytes_lt(s[a0].0, s[b0].0));
    }
    assert forall|a: int| 0 <= a < t.len() implies m.contains_key((#[trigger] t[a]).0) && m[t[a].0]
        == t[a].1 by {
        let a0 = if a < i { a } else { a + 1 };
        assert(t[a] == s[a0]);
        assert(map_of(s).contains_key(s[a0].0));
        if a0 < i {
            assert(bytes_lt(s[a0].0, s[i].0));
        } else {
            assert(bytes_lt(s[i].0, s[a0].0));
        }
        lemma_lt_irreflexive(k);
    }
    assert forall|q: Seq<u8>| m.contains_key(q) implies exists|a: int|
        0 <= a < t.len() && (#[trigger] t[a]).0 == q by {
        let a0 = choose|a0: int| 0 <= a0 < s.len() && (#[trigger] s[a0]).0 == q;
        assert(a0 != i);
        let a = if a0 < i { a0 } else { a0 - 1 };
        assert(t[a] == s[a0]);
    }
    lemma_lists_determines_map(t, m);
}

/// A map with byte-string keys whose entries are kept in ascending order of
/// key.
#[derive(Debug)]
pub struct SortedMap<K: ByteKey, T> {
    entries: Vec<(K, T)>,
}

impl<K: ByteKey, T> View for SortedMap<K, T> {
    type V = Map<Seq<u8>, T>;

    closed spec fn view(&self) -> Map<Seq<u8>, T> {
        map_of(listing(self.entries@))
    }
}

impl<K: ByteKey, T> SortedMap<K, T> {
    #[verifier::type_invariant]
    spec fn ordered(&self) -> bool {
        strictly_sorted(listing(self.entries@))
    }

    /// The empty map.
    pub fn new() -> (map: Self)
        ensures
            map@ == Map::<Seq<u8>, T>::empty(),
    {
        let map = SortedMap { entries: Vec::new() };
        assert(map@ =~= Map::<Seq<u8>, T>::empty());
        map
    }

    /// The entries in ascending order of key.
    pub fn entries(&self) -> (entries: &Vec<(K, T)>)
        ensures
            lists(listing(entries@), self@),
            listing(entries@) == canonical_order(self@),
    {
        proof {
            use_type_invariant(self);
            lemma_map_of_lists(listing(self.entries@));
            lemma_listing_unique(listing(self.entries@), canonical_order(self@), self@);
        }
        &self.entries
    }

    /// The number of entries.
    pub fn len(&self) -> (n: usize)
        ensures
            n == canonical_order(self@).len(),
    {
        proof {
            use_type_invariant(self);
            lemma_map_of_lists(listing(self.entries@));
            lemma_listing_unique(listing(self.entries@), canonical_order(self@), self@);
        }
        self.entries.len()
    }

    /// Whether the map has no entries.
    pub fn is_empty(&self) -> (empty: bool)
        ensures
            empty == (self@ == Map::<Seq<u8>, T>::empty()),
    {
        proof {
            use_type_invariant(self);
            lemma_map_of_lists(listing(self.entries@));
            if self.entries@.len() > 0 {
                assert(self@.contains_key(listing(self.entries@)[0].0));
            } else {
                assert(self@ =~= Map::<Seq<u8>, T>::empty());
            }
        }
        self.entries.len() == 0
    }

    /// Where `key` stands in the order: the index of its entry if it has
    /// one, else the index at which an entry for it would be inserted.
    fn position(&self, key: &[u8]) -> (place: (usize, bool))
        ensures
            place.0 <= self.entries@.len(),
            place.1 ==> place.0 < self.entries@.len() && self.entries@[place.0 as int].0.key_bytes()
                == key@,
            forall|j: int|
                0 <= j < place.0 ==> bytes_lt((#[trigger] listing(self.entries@)[j]).0, key@),
            forall|j: int|
                place.0 + (if place.1 { 1int } else { 0int }) <= j < self.entries@.len()
                    ==> bytes_lt(key@, (#[trigger] listing(self.entries@)[j]).0),
    {
        proof {
            use_type_invariant(self);
        }
        let ghost s = listing(self.entries@);
        let mut low: usize = 0;
        let mut high: usize = self.entries.len();
        while low < high
            invariant
                low <= high <= self.entries@.len(),
                s == listing(self.entries@),
                strictly_sorted(s),
                forall|j: int| 0 <= j < low ==> bytes_lt((#[trigger] s[j]).0, key@),
                forall|j: int| high <= j < s.len() ==> bytes_lt(key@, (#[trigger] s[j]).0),
            decreases high - low,
        {
            let middle = low + (high - low) / 2;
            let relation = compare_bytes(self.entries[middle].0.as_key(), key);
            assert(s[middle as int].0 == self.entries@[middle as int].0.key_bytes());
            match relation {
                Relation::Same => {
                    proof {
                        assert forall|j: int| 0 <= j < middle implies bytes_lt(
                            (#[trigger] s[j]).0,
                            key@,
                        ) by {
                            assert(bytes_lt(s[j].0, s[middle as int].0));
                        }
                        assert forall|j: int| middle + 1 <= j < s.len() implies bytes_lt(
                            key@,
                            (#[trigger] s[j]).0,
                        ) by {
                            assert(bytes_lt(s[middle as int].0, s[j].0));
                        }
                    }
                    return (middle, true);
                },
                Relation::Before => {
                    proof {
                        assert forall|j: int| 0 <= j < middle + 1 implies bytes_lt(
                            (#[trigger] s[j]).0,
                            key@,
                        ) by {
                            if j < middle {
                                assert(bytes_lt(s[j].0, s[middle as int].0));
                                lemma_lt_transitive(s[j].0, s[middle as int].0, key@);
                            }
                        }
                    }
                    low = middle + 1;
                },
                Relation::After => {
                    proof {
                        assert forall|j: int| middle <= j < s.len() implies bytes_lt(
                            key@,
                            (#[trigger] s[j]).0,
                        ) by {
                            if middle < j {
                                assert(bytes_lt(s[middle as int].0, s[j].0));
                                lemma_lt_transitive(key@, s[middle as int].0, s[j].0);
                            }
                        }
                    }
                    high = middle;
                },
            }
        }
        (low, false)
    }

    /// The value stored under `key`, if there is one.
    pub fn get(&self, key: &[u8]) -> (value: Option<&T>)
        ensures
            match value {
                Some(v) => self@.contains_key(key@) && self@[key@] == *v,
                None => !self@.contains_key(key@),
            },
    {
        let place = self.position(key);
        proof {
            use_type_invariant(self);
            let s = listing(self.entries@);
            lemma_map_of_lists(s);
            if place.1 {
                assert(self@.contains_key(s[place.0 as int].0));
            } else if self@.contains_key(key@) {
                let i = choose|i: int| 0 <= i < s.len() && (#[trigger] s[i]).0 == key@;
                lemma_lt_irreflexive(key@);
            }
        }
        if place.1 {
            Some(&self.entries[place.0].1)
        } else {
            None
        }
    }

    /// Whether a value is stored under `key`.
    pub fn contains_key(&self, key: &[u8]) -> (present: bool)
        ensures
            present == self@.contains_key(key@),
    {
        self.get(key).is_some()
    }

    /// Stores `value` under `key`, replacing what was stored there.
    pub fn insert(&mut self, key: K, value: T)
        ensures
            final(self)@ == old(self)@.insert(key.key_bytes(), value),
    {
        let place = self.position(key.as_key());
        proof {
            use_type_invariant(&*self);
        }
        let ghost s = listing(self.entries@);
        let ghost k = key.key_bytes();
        let mut entries: Vec<(K, T)> = Vec::new();
        core::mem::swap(&mut self.entries, &mut entries);
        if place.1 {
            proof {
                lemma_update_lists(s, place.0 as int, value);
                assert(listing(entries@.update(place.0 as int, (key, value))) =~= s.update(
                    place.0 as int,
                    (k, value),
                ));
            }
            entries.set(place.0, (key, value));
        } else {
            proof {
                lemma_insert_lists(s, place.0 as int, k, value);
                assert(listing(entries@.insert(place.0 as int, (key, value))) =~= s.insert(
                    place.0 as int,
                    (k, value),
                ));
            }
            entries.insert(place.0, (key, value));
        }
        self.entries = entries;
    }

    /// Removes what is stored under `key`, if anything, and returns it.
    pub fn remove(&mut self, key: &[u8]) -> (removed: Option<T>)
        ensures
            final(self)@ == old(self)@.remove(key@),
            removed == (if old(self)@.contains_key(key@) {
                Some(old(self)@[key@])
            } else {
                None::<T>
            }),
    {
        let place = self.position(key);
        proof {
            use_type_invariant(&*self);
        }
        let ghost s = listing(self.entries@);
        proof {
            lemma_map_of_lists(s);
        }
        if place.1 {
            let mut entries: Vec<(K, T)> = Vec::new();
            core::mem::swap(&mut self.entries, &mut entries);
            proof {
                lemma_remove_lists(s, place.0 as int);
                assert(listing(entries@.remove(place.0 as int)) =~= s.remove(place.0 as int));
                assert(old(self)@.contains_key(s[place.0 as int].0));
            }
            let entry = entries.remove(place.0);
            self.entries = entries;
            Some(entry.1)
        } else {
            proof {
                if self@.contains_key(key@) {
                    let i = choose|i: int| 0 <= i < s.len() && (#[trigger] s[i]).0 == key@;
                    lemma_lt_irreflexive(key@);
                }
                assert(self@ =~= self@.remove(key@));
            }
            None
        }
    }
}

} // verus!
