//! The wire format of mappings: the number of entries, then the entries in
//! ascending order of key.

use vstd::prelude::*;
use crate::byte_order::bytes_lt;
use crate::sorted_map::{
    ByteKey, canonical_order, lemma_insert_lists, lemma_listing_unique, lemma_lists_determines_map,
    lemma_lists_map_values, listing, map_of, SortedMap, strictly_sorted,
};
use crate::wire::{
    dec_bytes, dec_raw, dec_u64, enc_bytes, enc_u64, holds_at, lemma_holds_split, lemma_read_raw,
    lemma_read_u64, lemma_read_vec, put_bytes, put_raw, put_u64, read_bytes, read_hash, read_u64,
};
use crate::wire_list::Wire;

verus! {

/// A key with a wire format.
pub trait WireKey: ByteKey + Sized {
    /// The encoding of the bytes of a key.
    spec fn enc_key(key: Seq<u8>) -> Seq<u8>;

    /// What is read as the bytes of a key at `pos`.
    spec fn dec_key(s: Seq<u8>, pos: int) -> Option<(Seq<u8>, int)>;

    /// A key that stands at `pos` is read back.
    proof fn lemma_read_key(s: Seq<u8>, pos: int, key: Self)
        requires
            holds_at(s, pos, Self::enc_key(key.key_bytes())),
        ensures
            Self::dec_key(s, pos) == Some(
                (key.key_bytes(), pos + Self::enc_key(key.key_bytes()).len()),
            ),
    ;

    /// Appends the encoding of the key.
    fn put_key(&self, out: &mut Vec<u8>)
        ensures
            final(out)@ == old(out)@ + Self::enc_key(self.key_bytes()),
    ;

    /// Reads a key at `pos`.
    fn read_key(input: &[u8], pos: usize) -> (read: Option<(Self, usize)>)
        ensures
            match read {
                Some((key, next)) => Self::dec_key(input@, pos as int) == Some(
                    (key.key_bytes(), next as int),
                ),
                None => Self::dec_key(input@, pos as int) is None,
            },
    ;
}

/// A 32-byte key is its bytes.
impl WireKey for [u8; 32] {
    open spec fn enc_key(key: Seq<u8>) -> Seq<u8> {
        key
    }

    open spec fn dec_key(s: Seq<u8>, pos: int) -> Option<(Seq<u8>, int)> {
        dec_raw(s, pos, 32)
    }

    proof fn lemma_read_key(s: Seq<u8>, pos: int, key: [u8; 32]) {
        lemma_read_raw(s, pos, key@);
    }

    fn put_key(&self, out: &mut Vec<u8>) {
        put_raw(out, self.as_slice());
    }

    fn read_key(input: &[u8], pos: usize) -> (read: Option<(Self, usize)>) {
        read_hash(input, pos)
    }
}

/// A key of any length is a byte string.
impl WireKey for Vec<u8> {
    open spec fn enc_key(key: Seq<u8>) -> Seq<u8> {
        enc_bytes(key)
    }

    open spec fn dec_key(s: Seq<u8>, pos: int) -> Option<(Seq<u8>, int)> {
        dec_bytes(s, pos)
    }

    proof fn lemma_read_key(s: Seq<u8>, pos: int, key: Vec<u8>) {
        lemma_read_vec(s, pos, key);
    }

    fn put_key(&self, out: &mut Vec<u8>) {
        put_bytes(out, self.as_slice());
    }

    fn read_key(input: &[u8], pos: usize) -> (read: Option<(Self, usize)>) {
        read_bytes(input, pos)
    }
}

/// The values of a mapping of items.
pub open spec fn value_map<T: Wire>(m: Map<Seq<u8>, T>) -> Map<Seq<u8>, T::Value> {
    m.map_values(|item: T| item.value())
}

/// The encodings of entries, one after the other: of each the key, then
/// the value.
pub open spec fn enc_entries<K: WireKey, T: Wire>(entries: Seq<(Seq<u8>, T::Value)>) -> Seq<u8>
    decreases entries.len(),
{
    if entries.len() == 0 {
        Seq::empty()
    } else {
        enc_entries::<K, T>(entries.drop_last()) + (K::enc_key(entries.last().0) + T::enc(
            entries.last().1,
        ))
    }
}

/// The encoding of a mapping: the number of its entries, then the entries
/// in ascending order of key.
pub open spec fn enc_map<K: WireKey, T: Wire>(m: Map<Seq<u8>, T::Value>) -> Seq<u8> {
    enc_u64(canonical_order(m).len() as u64) + enc_entries::<K, T>(canonical_order(m))
}

/// What is read as an entry at `pos`.
pub open spec fn dec_entry<K: WireKey, T: Wire>(s: Seq<u8>, pos: int) -> Option<
    ((Seq<u8>, T::Value), int),
> {
    match K::dec_key(s, pos) {
        Some((key, next)) => match T::dec(s, next) {
            Some((value, end)) => Some(((key, value), end)),
            None => None,
        },
        None => None,
    }
}

/// What is read as `count` entries at `pos`: the mapping that holds them,
/// a later entry replacing an earlier one with the same key.
pub open spec fn dec_entries<K: WireKey, T: Wire>(s: Seq<u8>, pos: int, count: nat) -> Option<
    (Map<Seq<u8>, T::Value>, int),
>
    decreases count,
{
    if count == 0 {
        Some((Map::empty(), pos))
    } else {
        match dec_entries::<K, T>(s, pos, (count - 1) as nat) {
            Some((m, next)) => match dec_entry::<K, T>(s, next) {
                Some((entry, end)) => Some((m.insert(entry.0, entry.1), end)),
                None => None,
            },
            None => None,
        }
    }
}

/// What is read as a mapping at `pos`.
pub open spec fn dec_map<K: WireKey, T: Wire>(s: Seq<u8>, pos: int) -> Option<
    (Map<Seq<u8>, T::Value>, int),
> {
    match dec_u64(s, pos) {
        Some((count, next)) => dec_entries::<K, T>(s, next, count as nat),
        None => None,
    }
}

/// The entries of a list with each item replaced by its value.
pub open spec fn entry_values<K: ByteKey, T: Wire>(entries: Seq<(K, T)>) -> Seq<
    (Seq<u8>, T::Value),
> {
    entries.map_values(|e: (K, T)| (e.0.key_bytes(), e.1.value()))
}

/// Entries in ascending order of key that stand one after the other at
/// `pos` are read back as the mapping that they list.
pub proof fn lemma_read_entries<K: WireKey, T: Wire>(s: Seq<u8>, pos: int, entries: Seq<(K, T)>)
    requires
        strictly_sorted(entry_values(entries)),
        holds_at(s, pos, enc_entries::<K, T>(entry_values(entries))),
    ensures
        dec_entries::<K, T>(s, pos, entries.len()) == Some(
            (
                map_of(entry_values(entries)),
                pos + enc_entries::<K, T>(entry_values(entries)).len(),
            ),
        ),
    decreases entries.len(),
{
    let shown = entry_values(entries);
    if entries.len() == 0 {
        assert(map_of(shown) =~= Map::empty());
    } else {
        let front = entries.drop_last();
        let last = entries.last();
        let before = entry_values(front);
        assert(shown.drop_last() =~= before);
        assert(shown.last() == (last.0.key_bytes(), last.1.value()));
        assert forall|i: int, j: int| 0 <= i < j < before.len() implies bytes_lt(
            (#[trigger] before[i]).0,
            (#[trigger] before[j]).0,
        ) by {
            assert(bytes_lt(shown[i].0, shown[j].0));
        }
        let entry = K::enc_key(last.0.key_bytes()) + T::enc(last.1.value());
        lemma_holds_split(s, pos, enc_entries::<K, T>(before), entry);
        lemma_read_entries::<K, T>(s, pos, front);
        let at = pos + enc_entries::<K, T>(before).len();
        lemma_holds_split(s, at, K::enc_key(last.0.key_bytes()), T::enc(last.1.value()));
        K::lemma_read_key(s, at, last.0);
        T::lemma_read(s, at + K::enc_key(last.0.key_bytes()).len(), last.1);
        assert forall|j: int| 0 <= j < before.len() implies bytes_lt(
            (#[trigger] before[j]).0,
            last.0.key_bytes(),
        ) by {
            assert(bytes_lt(shown[j].0, shown[shown.len() - 1].0));
        }
        lemma_insert_lists(before, before.len() as int, last.0.key_bytes(), last.1.value());
        assert(before.insert(before.len() as int, (last.0.key_bytes(), last.1.value()))
            =~= shown);
    }
}

/// Where reading `count` entries fails, reading more of them fails too.
pub proof fn lemma_entries_fail<K: WireKey, T: Wire>(s: Seq<u8>, pos: int, count: nat, more: nat)
    requires
        dec_entries::<K, T>(s, pos, count) is None,
        count <= more,
    ensures
        dec_entries::<K, T>(s, pos, more) is None,
    decreases more,
{
    if count < more {
        lemma_entries_fail::<K, T>(s, pos, count, (more - 1) as nat);
    }
}

/// The encoding of a mapping, wherever it stands, is read back as the
/// mapping.
pub open spec fn map_reads_back<K: WireKey, T: Wire>(m: Map<Seq<u8>, T::Value>) -> bool {
    forall|s: Seq<u8>, pos: int|
        holds_at(s, pos, enc_map::<K, T>(m)) ==> #[trigger] dec_map::<K, T>(s, pos) == Some(
            (m, pos + enc_map::<K, T>(m).len()),
        )
}

/// Appends the encoding of a mapping.
pub fn put_map<K: WireKey, T: Wire>(out: &mut Vec<u8>, map: &SortedMap<K, T>)
    ensures
        final(out)@ == old(out)@ + enc_map::<K, T>(value_map(map@)),
        map_reads_back::<K, T>(value_map(map@)),
{
    let listed = map.entries();
    let ghost shown = entry_values(listed@);
    let ghost target = value_map(map@);
    proof {
        let plain = listing(listed@);
        let f = |item: T| item.value();
        lemma_lists_map_values(plain, map@, f);
        assert(shown =~= plain.map_values(|e: (Seq<u8>, T)| (e.0, f(e.1))));
        assert(target =~= map@.map_values(f));
        lemma_listing_unique(shown, canonical_order(target), target);
        lemma_lists_determines_map(shown, target);
        assert(listed@.len() == listed.len());
        assert forall|s: Seq<u8>, pos: int| holds_at(s, pos, enc_map::<K, T>(target)) implies (
        #[trigger] dec_map::<K, T>(s, pos)) == Some((target, pos + enc_map::<K, T>(target).len())) by {
            lemma_holds_split(s, pos, enc_u64(shown.len() as u64), enc_entries::<K, T>(shown));
            lemma_read_u64(s, pos, shown.len() as u64);
            lemma_read_entries::<K, T>(s, pos + 8, listed@);
        }
    }
    put_u64(out, listed.len() as u64);
    let mut i: usize = 0;
    assert(shown.subrange(0, 0) =~= Seq::empty());
    while i < listed.len()
        invariant
            i <= listed.len(),
            shown == entry_values(listed@),
            out@ == old(out)@ + enc_u64(listed@.len() as u64) + enc_entries::<K, T>(
                shown.subrange(0, i as int),
            ),
        decreases listed.len() - i,
    {
        let ghost before = out@;
        listed[i].0.put_key(out);
        listed[i].1.put(out);
        proof {
            let grown = shown.subrange(0, i + 1);
            assert(grown.drop_last() =~= shown.subrange(0, i as int));
            assert(grown.last() == (listed@[i as int].0.key_bytes(), listed@[i as int].1.value()));
            assert(out@ =~= before + (K::enc_key(listed@[i as int].0.key_bytes()) + T::enc(
                listed@[i as int].1.value(),
            )));
            assert(out@ =~= old(out)@ + enc_u64(listed@.len() as u64) + enc_entries::<K, T>(
                grown,
            ));
        }
        i += 1;
    }
    assert(shown.subrange(0, i as int) =~= shown);
    assert(out@ =~= old(out)@ + enc_map::<K, T>(target));
}

/// Reads a mapping at `pos`.
pub fn read_map<K: WireKey, T: Wire>(input: &[u8], pos: usize) -> (read: Option<
    (SortedMap<K, T>, usize),
>)
    ensures
        match read {
            Some((map, next)) => dec_map::<K, T>(input@, pos as int) == Some(
                (value_map(map@), next as int),
            ),
            None => dec_map::<K, T>(input@, pos as int) is None,
        },
{
    let (count, start) = match read_u64(input, pos) {
        Some(read) => read,
        None => {
            return None;
        },
    };
    let mut map: SortedMap<K, T> = SortedMap::new();
    let mut at: usize = start;
    let mut i: u64 = 0;
    assert(value_map(map@) =~= Map::<Seq<u8>, T::Value>::empty());
    while i < count
        invariant
            i <= count,
            dec_u64(input@, pos as int) == Some((count, start as int)),
            dec_entries::<K, T>(input@, start as int, i as nat) == Some(
                (value_map(map@), at as int),
            ),
        decreases count - i,
    {
        let entry = match K::read_key(input, at) {
            Some((key, next)) => match T::read(input, next) {
                Some((value, end)) => Some((key, value, end)),
                None => None,
            },
            None => None,
        };
        match entry {
            Some((key, value, end)) => {
                proof {
                    assert(value_map(map@.insert(key.key_bytes(), value)) =~= value_map(
                        map@,
                    ).insert(key.key_bytes(), value.value()));
                }
                map.insert(key, value);
                at = end;
            },
            None => {
                proof {
                    assert(dec_entries::<K, T>(input@, start as int, (i + 1) as nat) is None);
                    lemma_entries_fail::<K, T>(input@, start as int, (i + 1) as nat, count as nat);
                }
                return None;
            },
        }
        i += 1;
    }
    Some((map, at))
}

} // verus!
