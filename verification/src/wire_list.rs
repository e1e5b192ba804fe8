//! Values that have a wire format, and lists of them.

use vstd::prelude::*;
use crate::views::list_bytes;
use crate::wire::{
    dec_raw, dec_u64, enc_u64, holds_at, lemma_holds_split, lemma_read_raw, lemma_read_u64, put_raw,
    put_u64, read_hash, read_u64,
};

verus! {

/// A value with a wire format: an encoding, a way to read it, and the
/// proof that what was encoded is read back.
pub trait Wire: Sized {
    /// The mathematical value that is encoded.
    type Value;

    /// The mathematical value of `self`.
    spec fn value(&self) -> Self::Value;

    /// The encoding of a value.
    spec fn enc(value: Self::Value) -> Seq<u8>;

    /// What is read as a value at `pos`, and where reading goes on.
    spec fn dec(s: Seq<u8>, pos: int) -> Option<(Self::Value, int)>;

    /// A value that stands at `pos` is read back.
    proof fn lemma_read(s: Seq<u8>, pos: int, item: Self)
        requires
            holds_at(s, pos, Self::enc(item.value())),
        ensures
            Self::dec(s, pos) == Some((item.value(), pos + Self::enc(item.value()).len())),
    ;

    /// Appends the encoding of `self`.
    fn put(&self, out: &mut Vec<u8>)
        ensures
            final(out)@ == old(out)@ + Self::enc(self.value()),
    ;

    /// Reads a value at `pos`.
    fn read(input: &[u8], pos: usize) -> (read: Option<(Self, usize)>)
        ensures
            match read {
                Some((item, next)) => Self::dec(input@, pos as int) == Some(
                    (item.value(), next as int),
                ),
                None => Self::dec(input@, pos as int) is None,
            },
    ;
}

/// The values of a list of items.
pub open spec fn values<T: Wire>(items: Seq<T>) -> Seq<T::Value> {
    items.map_values(|item: T| item.value())
}

/// The encodings of values, one after the other.
pub open spec fn enc_items<T: Wire>(items: Seq<T::Value>) -> Seq<u8>
    decreases items.len(),
{
    if items.len() == 0 {
        Seq::empty()
    } else {
        enc_items::<T>(items.drop_last()) + T::enc(items.last())
    }
}

/// The encoding of a list: its length, then its items.
pub open spec fn enc_list<T: Wire>(items: Seq<T::Value>) -> Seq<u8> {
    enc_u64(items.len() as u64) + enc_items::<T>(items)
}

/// What is read as `count` items at `pos`.
pub open spec fn dec_items<T: Wire>(s: Seq<u8>, pos: int, count: nat) -> Option<
    (Seq<T::Value>, int),
>
    decreases count,
{
    if count == 0 {
        Some((Seq::empty(), pos))
    } else {
        match dec_items::<T>(s, pos, (count - 1) as nat) {
            Some((items, next)) => match T::dec(s, next) {
                Some((item, end)) => Some((items.push(item), end)),
                None => None,
            },
            None => None,
        }
    }
}

/// What is read as a list at `pos`.
pub open spec fn dec_list<T: Wire>(s: Seq<u8>, pos: int) -> Option<(Seq<T::Value>, int)> {
    match dec_u64(s, pos) {
        Some((count, next)) => dec_items::<T>(s, next, count as nat),
        None => None,
    }
}

/// Items that stand one after the other at `pos` are read back.
pub proof fn lemma_read_items<T: Wire>(s: Seq<u8>, pos: int, items: Seq<T>)
    requires
        holds_at(s, pos, enc_items::<T>(values(items))),
    ensures
        dec_items::<T>(s, pos, items.len()) == Some(
            (values(items), pos + enc_items::<T>(values(items)).len()),
        ),
    decreases items.len(),
{
    let shown = values(items);
    if items.len() == 0 {
        assert(shown =~= Seq::empty());
    } else {
        let front = items.drop_last();
        assert(shown.drop_last() =~= values(front));
        assert(shown.last() == items.last().value());
        lemma_holds_split(s, pos, enc_items::<T>(values(front)), T::enc(items.last().value()));
        lemma_read_items::<T>(s, pos, front);
        T::lemma_read(s, pos + enc_items::<T>(values(front)).len(), items.last());
        assert(values(front).push(items.last().value()) =~= shown);
    }
}

/// A list that stands at `pos` is read back.
pub proof fn lemma_read_list<T: Wire>(s: Seq<u8>, pos: int, items: Vec<T>)
    requires
        holds_at(s, pos, enc_list::<T>(values(items@))),
    ensures
        dec_list::<T>(s, pos) == Some(
            (values(items@), pos + enc_list::<T>(values(items@)).len()),
        ),
{
    assert(items@.len() == items.len());
    lemma_holds_split(s, pos, enc_u64(items@.len() as u64), enc_items::<T>(values(items@)));
    lemma_read_u64(s, pos, items@.len() as u64);
    lemma_read_items::<T>(s, pos + 8, items@);
}

/// Where reading `count` items fails, reading more of them fails too.
pub proof fn lemma_items_fail<T: Wire>(s: Seq<u8>, pos: int, count: nat, more: nat)
    requires
        dec_items::<T>(s, pos, count) is None,
        count <= more,
    ensures
        dec_items::<T>(s, pos, more) is None,
    decreases more,
{
    if count < more {
        lemma_items_fail::<T>(s, pos, count, (more - 1) as nat);
    }
}

/// Appends the encoding of a list.
pub fn put_list<T: Wire>(out: &mut Vec<u8>, items: &Vec<T>)
    ensures
        final(out)@ == old(out)@ + enc_list::<T>(values(items@)),
{
    let ghost shown = values(items@);
    put_u64(out, items.len() as u64);
    let mut i: usize = 0;
    assert(shown.subrange(0, 0) =~= Seq::empty());
    while i < items.len()
        invariant
            i <= items.len(),
            shown == values(items@),
            out@ == old(out)@ + enc_u64(items@.len() as u64) + enc_items::<T>(
                shown.subrange(0, i as int),
            ),
        decreases items.len() - i,
    {
        items[i].put(out);
        proof {
            let grown = shown.subrange(0, i + 1);
            assert(grown.drop_last() =~= shown.subrange(0, i as int));
            assert(grown.last() == items@[i as int].value());
            assert(out@ =~= old(out)@ + enc_u64(items@.len() as u64) + enc_items::<T>(grown));
        }
        i += 1;
    }
    assert(shown.subrange(0, i as int) =~= shown);
    assert(out@ =~= old(out)@ + enc_list::<T>(shown));
}

/// Reads a list at `pos`.
pub fn read_list<T: Wire>(input: &[u8], pos: usize) -> (read: Option<(Vec<T>, usize)>)
    ensures
        match read {
            Some((items, next)) => dec_list::<T>(input@, pos as int) == Some(
                (values(items@), next as int),
            ),
            None => dec_list::<T>(input@, pos as int) is None,
        },
{
    let (count, start) = match read_u64(input, pos) {
        Some(read) => read,
        None => {
            return None;
        },
    };
    let mut items: Vec<T> = Vec::new();
    let mut at: usize = start;
    let mut i: u64 = 0;
    assert(values(items@) =~= Seq::<T::Value>::empty());
    while i < count
        invariant
            i <= count,
            dec_u64(input@, pos as int) == Some((count, start as int)),
            dec_items::<T>(input@, start as int, i as nat) == Some((values(items@), at as int)),
        decreases count - i,
    {
        match T::read(input, at) {
            Some((item, next)) => {
                proof {
                    assert(values(items@.push(item)) =~= values(items@).push(item.value()));
                }
                items.push(item);
                at = next;
            },
            None => {
                proof {
                    assert(dec_items::<T>(input@, start as int, (i + 1) as nat) is None);
                    lemma_items_fail::<T>(input@, start as int, (i + 1) as nat, count as nat);
                }
                return None;
            },
        }
        i += 1;
    }
    Some((items, at))
}

/// A hash is its 32 bytes.
impl Wire for [u8; 32] {
    type Value = Seq<u8>;

    open spec fn value(&self) -> Seq<u8> {
        self@
    }

    open spec fn enc(value: Seq<u8>) -> Seq<u8> {
        value
    }

    open spec fn dec(s: Seq<u8>, pos: int) -> Option<(Seq<u8>, int)> {
        dec_raw(s, pos, 32)
    }

    proof fn lemma_read(s: Seq<u8>, pos: int, item: [u8; 32]) {
        lemma_read_raw(s, pos, item@);
    }

    fn put(&self, out: &mut Vec<u8>) {
        put_raw(out, self.as_slice());
    }

    fn read(input: &[u8], pos: usize) -> (read: Option<(Self, usize)>) {
        read_hash(input, pos)
    }
}

/// The encoding of a list of hashes.
pub open spec fn enc_hash_list(hashes: Seq<Seq<u8>>) -> Seq<u8> {
    enc_list::<[u8; 32]>(hashes)
}

/// What is read as a list of hashes at `pos`.
pub open spec fn dec_hash_list(s: Seq<u8>, pos: int) -> Option<(Seq<Seq<u8>>, int)> {
    dec_list::<[u8; 32]>(s, pos)
}

/// The hashes of a vector, standing at `pos`, are read back as a list of
/// hashes.
pub proof fn lemma_read_hash_vec(s: Seq<u8>, pos: int, hashes: Vec<[u8; 32]>)
    requires
        holds_at(s, pos, enc_hash_list(list_bytes(hashes@))),
    ensures
        dec_hash_list(s, pos) == Some(
            (list_bytes(hashes@), pos + enc_hash_list(list_bytes(hashes@)).len()),
        ),
{
    assert(values(hashes@) =~= list_bytes(hashes@));
    lemma_read_list::<[u8; 32]>(s, pos, hashes);
}

/// Appends a list of hashes with its length.
pub fn put_hash_list(out: &mut Vec<u8>, hashes: &Vec<[u8; 32]>)
    ensures
        final(out)@ == old(out)@ + enc_hash_list(list_bytes(hashes@)),
{
    put_list(out, hashes);
    assert(values(hashes@) =~= list_bytes(hashes@));
}

/// Reads a list of hashes at `pos`.
pub fn read_hash_list(input: &[u8], pos: usize) -> (read: Option<(Vec<[u8; 32]>, usize)>)
    ensures
        match read {
            Some((hashes, next)) => dec_hash_list(input@, pos as int) == Some(
                (list_bytes(hashes@), next as int),
            ),
            None => dec_hash_list(input@, pos as int) is None,
        },
{
    match read_list::<[u8; 32]>(input, pos) {
        Some((hashes, next)) => {
            assert(values(hashes@) =~= list_bytes(hashes@));
            Some((hashes, next))
        },
        None => None,
    }
}

} // verus!
