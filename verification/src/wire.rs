//! The wire format of the ledger's values.
//!
//! Integers are little-endian and of fixed width. A byte string is its
//! length, as a 64-bit integer, and then its bytes; a hash is its 32 bytes
//! alone. An optional value is the byte 0, or the byte 1 and then the value.
//! A variant is its 32-bit tag and then its fields.

use vstd::prelude::*;
use vstd::bytes::{
    lemma_auto_spec_u16_to_from_le_bytes, lemma_auto_spec_u32_to_from_le_bytes,
    lemma_auto_spec_u64_to_from_le_bytes, spec_u16_from_le_bytes, spec_u16_to_le_bytes,
    spec_u32_from_le_bytes, spec_u32_to_le_bytes, spec_u64_from_le_bytes, spec_u64_to_le_bytes,
    u16_from_le_bytes, u16_to_le_bytes, u32_from_le_bytes, u32_to_le_bytes, u64_from_le_bytes,
    u64_to_le_bytes,
};
use vstd::slice::slice_subrange;
use crate::byte_order::copy_bytes;
use crate::views::{optional_bytes, optional_hash};

verus! {

/// The encoding of a byte.
pub open spec fn enc_u8(x: u8) -> Seq<u8> {
    seq![x]
}

/// The encoding of a truth value.
pub open spec fn enc_bool(b: bool) -> Seq<u8> {
    seq![if b { 1u8 } else { 0u8 }]
}

/// The encoding of a 16-bit integer.
pub open spec fn enc_u16(x: u16) -> Seq<u8> {
    spec_u16_to_le_bytes(x)
}

/// The encoding of a 32-bit integer.
pub open spec fn enc_u32(x: u32) -> Seq<u8> {
    spec_u32_to_le_bytes(x)
}

/// The encoding of a 64-bit integer.
pub open spec fn enc_u64(x: u64) -> Seq<u8> {
    spec_u64_to_le_bytes(x)
}

/// The encoding of a byte string.
pub open spec fn enc_bytes(bytes: Seq<u8>) -> Seq<u8> {
    enc_u64(bytes.len() as u64) + bytes
}

/// The encoding of an optional byte string.
pub open spec fn enc_option_bytes(bytes: Option<Seq<u8>>) -> Seq<u8> {
    match bytes {
        Some(b) => enc_u8(1) + enc_bytes(b),
        None => enc_u8(0),
    }
}

/// The encoding of an optional hash.
pub open spec fn enc_option_hash(hash: Option<Seq<u8>>) -> Seq<u8> {
    match hash {
        Some(h) => enc_u8(1) + h,
        None => enc_u8(0),
    }
}

/// `part` stands in `s` at `pos`.
pub open spec fn holds_at(s: Seq<u8>, pos: int, part: Seq<u8>) -> bool {
    0 <= pos && pos + part.len() <= s.len() && s.subrange(pos, pos + part.len()) == part
}

/// Where two parts stand one after the other, each stands in its place.
pub proof fn lemma_holds_split(s: Seq<u8>, pos: int, a: Seq<u8>, b: Seq<u8>)
    requires
        holds_at(s, pos, a + b),
    ensures
        holds_at(s, pos, a),
        holds_at(s, pos + a.len(), b),
{
    let whole = s.subrange(pos, pos + (a + b).len());
    assert(s.subrange(pos, pos + a.len()) =~= whole.subrange(0, a.len() as int));
    assert((a + b).subrange(0, a.len() as int) =~= a);
    assert(s.subrange(pos + a.len(), pos + a.len() + b.len()) =~= whole.subrange(
        a.len() as int,
        (a + b).len() as int,
    ));
    assert((a + b).subrange(a.len() as int, (a + b).len() as int) =~= b);
}

/// A sequence stands in itself from its start.
pub proof fn lemma_holds_whole(s: Seq<u8>)
    ensures
        holds_at(s, 0, s),
{
    assert(s.subrange(0, s.len() as int) =~= s);
}

/// What is read as a byte at `pos`, and where reading goes on.
pub open spec fn dec_u8(s: Seq<u8>, pos: int) -> Option<(u8, int)> {
    if 0 <= pos < s.len() {
        Some((s[pos], pos + 1))
    } else {
        None
    }
}

/// What is read as a truth value at `pos`: the byte must be 0 or 1.
pub open spec fn dec_bool(s: Seq<u8>, pos: int) -> Option<(bool, int)> {
    if 0 <= pos < s.len() && s[pos] <= 1 {
        Some((s[pos] == 1, pos + 1))
    } else {
        None
    }
}

/// What is read as a 16-bit integer at `pos`.
pub open spec fn dec_u16(s: Seq<u8>, pos: int) -> Option<(u16, int)> {
    if 0 <= pos && pos + 2 <= s.len() {
        Some((spec_u16_from_le_bytes(s.subrange(pos, pos + 2)), pos + 2))
    } else {
        None
    }
}

/// What is read as a 32-bit integer at `pos`.
pub open spec fn dec_u32(s: Seq<u8>, pos: int) -> Option<(u32, int)> {
    if 0 <= pos && pos + 4 <= s.len() {
        Some((spec_u32_from_le_bytes(s.subrange(pos, pos + 4)), pos + 4))
    } else {
        None
    }
}

/// What is read as a 64-bit integer at `pos`.
pub open spec fn dec_u64(s: Seq<u8>, pos: int) -> Option<(u64, int)> {
    if 0 <= pos && pos + 8 <= s.len() {
        Some((spec_u64_from_le_bytes(s.subrange(pos, pos + 8)), pos + 8))
    } else {
        None
    }
}

/// What is read as `n` raw bytes at `pos`.
pub open spec fn dec_raw(s: Seq<u8>, pos: int, n: int) -> Option<(Seq<u8>, int)> {
    if 0 <= pos && 0 <= n && pos + n <= s.len() {
        Some((s.subrange(pos, pos + n), pos + n))
    } else {
        None
    }
}

/// What is read as a byte string at `pos`.
pub open spec fn dec_bytes(s: Seq<u8>, pos: int) -> Option<(Seq<u8>, int)> {
    match dec_u64(s, pos) {
        Some((len, next)) => dec_raw(s, next, len as int),
        None => None,
    }
}

/// What is read as an optional byte string at `pos`.
pub open spec fn dec_option_bytes(s: Seq<u8>, pos: int) -> Option<(Option<Seq<u8>>, int)> {
    match dec_bool(s, pos) {
        Some((true, next)) => match dec_bytes(s, next) {
            Some((bytes, end)) => Some((Some(bytes), end)),
            None => None,
        },
        Some((false, next)) => Some((None, next)),
        None => None,
    }
}

/// What is read as an optional hash at `pos`.
pub open spec fn dec_option_hash(s: Seq<u8>, pos: int) -> Option<(Option<Seq<u8>>, int)> {
    match dec_bool(s, pos) {
        Some((true, next)) => match dec_raw(s, next, 32) {
            Some((hash, end)) => Some((Some(hash), end)),
            None => None,
        },
        Some((false, next)) => Some((None, next)),
        None => None,
    }
}

/// A byte that stands at `pos` is read back.
pub proof fn lemma_read_u8(s: Seq<u8>, pos: int, x: u8)
    requires
        holds_at(s, pos, enc_u8(x)),
    ensures
        dec_u8(s, pos) == Some((x, pos + 1)),
{
    assert(s.subrange(pos, pos + 1)[0] == x);
}

/// A truth value that stands at `pos` is read back.
pub proof fn lemma_read_bool(s: Seq<u8>, pos: int, b: bool)
    requires
        holds_at(s, pos, enc_bool(b)),
    ensures
        dec_bool(s, pos) == Some((b, pos + 1)),
{
    assert(s.subrange(pos, pos + 1)[0] == enc_bool(b)[0]);
}

/// A 16-bit integer that stands at `pos` is read back.
pub proof fn lemma_read_u16(s: Seq<u8>, pos: int, x: u16)
    requires
        holds_at(s, pos, enc_u16(x)),
    ensures
        enc_u16(x).len() == 2,
        dec_u16(s, pos) == Some((x, pos + 2)),
{
    lemma_auto_spec_u16_to_from_le_bytes();
}

/// A 32-bit integer that stands at `pos` is read back.
pub proof fn lemma_read_u32(s: Seq<u8>, pos: int, x: u32)
    requires
        holds_at(s, pos, enc_u32(x)),
    ensures
        enc_u32(x).len() == 4,
        dec_u32(s, pos) == Some((x, pos + 4)),
{
    lemma_auto_spec_u32_to_from_le_bytes();
}

/// A 64-bit integer that stands at `pos` is read back.
pub proof fn lemma_read_u64(s: Seq<u8>, pos: int, x: u64)
    requires
        holds_at(s, pos, enc_u64(x)),
    ensures
        enc_u64(x).len() == 8,
        dec_u64(s, pos) == Some((x, pos + 8)),
{
    lemma_auto_spec_u64_to_from_le_bytes();
}

/// Raw bytes that stand at `pos` are read back.
pub proof fn lemma_read_raw(s: Seq<u8>, pos: int, bytes: Seq<u8>)
    requires
        holds_at(s, pos, bytes),
    ensures
        dec_raw(s, pos, bytes.len() as int) == Some((bytes, pos + bytes.len())),
{
}

/// A byte string that stands at `pos` is read back.
pub proof fn lemma_read_bytes(s: Seq<u8>, pos: int, bytes: Seq<u8>)
    requires
        bytes.len() <= u64::MAX,
        holds_at(s, pos, enc_bytes(bytes)),
    ensures
        enc_bytes(bytes).len() == 8 + bytes.len(),
        dec_bytes(s, pos) == Some((bytes, pos + 8 + bytes.len())),
{
    lemma_auto_spec_u64_to_from_le_bytes();
    lemma_holds_split(s, pos, enc_u64(bytes.len() as u64), bytes);
}

/// An optional byte string that stands at `pos` is read back.
pub proof fn lemma_read_option_bytes(s: Seq<u8>, pos: int, bytes: Option<Seq<u8>>)
    requires
        bytes matches Some(b) ==> b.len() <= u64::MAX,
        holds_at(s, pos, enc_option_bytes(bytes)),
    ensures
        dec_option_bytes(s, pos) == Some((bytes, pos + enc_option_bytes(bytes).len())),
{
    match bytes {
        Some(b) => {
            lemma_holds_split(s, pos, enc_u8(1), enc_bytes(b));
            assert(enc_u8(1) =~= enc_bool(true));
            lemma_read_bool(s, pos, true);
            lemma_read_bytes(s, pos + 1, b);
        },
        None => {
            assert(enc_u8(0) =~= enc_bool(false));
            lemma_read_bool(s, pos, false);
        },
    }
}

/// An optional hash that stands at `pos` is read back.
pub proof fn lemma_read_option_hash(s: Seq<u8>, pos: int, hash: Option<Seq<u8>>)
    requires
        hash matches Some(h) ==> h.len() == 32,
        holds_at(s, pos, enc_option_hash(hash)),
    ensures
        dec_option_hash(s, pos) == Some((hash, pos + enc_option_hash(hash).len())),
{
    match hash {
        Some(h) => {
            lemma_holds_split(s, pos, enc_u8(1), h);
            assert(enc_u8(1) =~= enc_bool(true));
            lemma_read_bool(s, pos, true);
        },
        None => {
            assert(enc_u8(0) =~= enc_bool(false));
            lemma_read_bool(s, pos, false);
        },
    }
}

/// The bytes of a vector, standing at `pos`, are read back as a byte
/// string.
pub proof fn lemma_read_vec(s: Seq<u8>, pos: int, bytes: Vec<u8>)
    requires
        holds_at(s, pos, enc_bytes(bytes@)),
    ensures
        enc_bytes(bytes@).len() == 8 + bytes@.len(),
        dec_bytes(s, pos) == Some((bytes@, pos + 8 + bytes@.len())),
{
    assert(bytes@.len() == bytes.len());
    lemma_read_bytes(s, pos, bytes@);
}

/// An optional vector of bytes, standing at `pos`, is read back as an
/// optional byte string.
pub proof fn lemma_read_option_vec(s: Seq<u8>, pos: int, bytes: Option<Vec<u8>>)
    requires
        holds_at(s, pos, enc_option_bytes(optional_bytes(bytes))),
    ensures
        dec_option_bytes(s, pos) == Some(
            (
                optional_bytes(bytes),
                pos + enc_option_bytes(optional_bytes(bytes)).len(),
            ),
        ),
{
    match bytes {
        Some(b) => {
            assert(b@.len() == b.len());
        },
        None => {},
    }
    lemma_read_option_bytes(s, pos, optional_bytes(bytes));
}

/// Appends raw bytes.
pub fn put_raw(out: &mut Vec<u8>, bytes: &[u8])
    ensures
        final(out)@ == old(out)@ + bytes@,
{
    let mut i: usize = 0;
    while i < bytes.len()
        invariant
            i <= bytes.len(),
            out@ == old(out)@ + bytes@.subrange(0, i as int),
        decreases bytes.len() - i,
    {
        out.push(bytes[i]);
        i += 1;
    }
    assert(bytes@.subrange(0, bytes.len() as int) == bytes@);
}

/// Appends a byte.
pub fn put_u8(out: &mut Vec<u8>, x: u8)
    ensures
        final(out)@ == old(out)@ + enc_u8(x),
{
    out.push(x);
}

/// Appends a truth value.
pub fn put_bool(out: &mut Vec<u8>, b: bool)
    ensures
        final(out)@ == old(out)@ + enc_bool(b),
{
    out.push(if b { 1u8 } else { 0u8 });
}

/// Appends a 16-bit integer.
pub fn put_u16(out: &mut Vec<u8>, x: u16)
    ensures
        final(out)@ == old(out)@ + enc_u16(x),
{
    let mut bytes = u16_to_le_bytes(x);
    out.append(&mut bytes);
}

/// Appends a 32-bit integer.
pub fn put_u32(out: &mut Vec<u8>, x: u32)
    ensures
        final(out)@ == old(out)@ + enc_u32(x),
{
    let mut bytes = u32_to_le_bytes(x);
    out.append(&mut bytes);
}

/// Appends a 64-bit integer.
pub fn put_u64(out: &mut Vec<u8>, x: u64)
    ensures
        final(out)@ == old(out)@ + enc_u64(x),
{
    let mut bytes = u64_to_le_bytes(x);
    out.append(&mut bytes);
}

/// Appends a byte string with its length.
pub fn put_bytes(out: &mut Vec<u8>, bytes: &[u8])
    ensures
        final(out)@ == old(out)@ + enc_bytes(bytes@),
{
    put_u64(out, bytes.len() as u64);
    put_raw(out, bytes);
    assert(out@ =~= old(out)@ + enc_bytes(bytes@));
}

/// Appends an optional byte string.
pub fn put_option_bytes(out: &mut Vec<u8>, bytes: &Option<Vec<u8>>)
    ensures
        final(out)@ == old(out)@ + enc_option_bytes(optional_bytes(*bytes)),
{
    match bytes {
        Some(b) => {
            put_u8(out, 1);
            put_bytes(out, b.as_slice());
            assert(out@ =~= old(out)@ + (enc_u8(1) + enc_bytes(b@)));
        },
        None => {
            put_u8(out, 0);
        },
    }
}

/// Appends an optional hash.
pub fn put_option_hash(out: &mut Vec<u8>, hash: &Option<[u8; 32]>)
    ensures
        final(out)@ == old(out)@ + enc_option_hash(optional_hash(*hash)),
{
    match hash {
        Some(h) => {
            put_u8(out, 1);
            put_raw(out, h.as_slice());
            assert(out@ =~= old(out)@ + (enc_u8(1) + h@));
        },
        None => {
            put_u8(out, 0);
        },
    }
}

/// Reads a byte at `pos`.
pub fn read_u8(input: &[u8], pos: usize) -> (read: Option<(u8, usize)>)
    ensures
        match read {
            Some((x, next)) => dec_u8(input@, pos as int) == Some((x, next as int)),
            None => dec_u8(input@, pos as int) is None,
        },
{
    if pos < input.len() {
        Some((input[pos], pos + 1))
    } else {
        None
    }
}

/// Reads a truth value at `pos`.
pub fn read_bool(input: &[u8], pos: usize) -> (read: Option<(bool, usize)>)
    ensures
        match read {
            Some((b, next)) => dec_bool(input@, pos as int) == Some((b, next as int)),
            None => dec_bool(input@, pos as int) is None,
        },
{
    if pos < input.len() && input[pos] <= 1 {
        Some((input[pos] == 1, pos + 1))
    } else {
        None
    }
}

/// Reads a 16-bit integer at `pos`.
pub fn read_u16(input: &[u8], pos: usize) -> (read: Option<(u16, usize)>)
    ensures
        match read {
            Some((x, next)) => dec_u16(input@, pos as int) == Some((x, next as int)),
            None => dec_u16(input@, pos as int) is None,
        },
{
    if pos <= input.len() && input.len() - pos >= 2 {
        Some((u16_from_le_bytes(slice_subrange(input, pos, pos + 2)), pos + 2))
    } else {
        None
    }
}

/// Reads a 32-bit integer at `pos`.
pub fn read_u32(input: &[u8], pos: usize) -> (read: Option<(u32, usize)>)
    ensures
        match read {
            Some((x, next)) => dec_u32(input@, pos as int) == Some((x, next as int)),
            None => dec_u32(input@, pos as int) is None,
        },
{
    if pos <= input.len() && input.len() - pos >= 4 {
        Some((u32_from_le_bytes(slice_subrange(input, pos, pos + 4)), pos + 4))
    } else {
        None
    }
}

/// Reads a 64-bit integer at `pos`.
pub fn read_u64(input: &[u8], pos: usize) -> (read: Option<(u64, usize)>)
    ensures
        match read {
            Some((x, next)) => dec_u64(input@, pos as int) == Some((x, next as int)),
            None => dec_u64(input@, pos as int) is None,
        },
{
    if pos <= input.len() && input.len() - pos >= 8 {
        Some((u64_from_le_bytes(slice_subrange(input, pos, pos + 8)), pos + 8))
    } else {
        None
    }
}

/// Reads `n` raw bytes at `pos`.
pub fn read_raw(input: &[u8], pos: usize, n: usize) -> (read: Option<(Vec<u8>, usize)>)
    ensures
        match read {
            Some((bytes, next)) => dec_raw(input@, pos as int, n as int) == Some(
                (bytes@, next as int),
            ),
            None => dec_raw(input@, pos as int, n as int) is None,
        },
{
    if pos <= input.len() && input.len() - pos >= n {
        let bytes = copy_bytes(slice_subrange(input, pos, pos + n));
        Some((bytes, pos + n))
    } else {
        None
    }
}

/// Reads a hash at `pos`.
pub fn read_hash(input: &[u8], pos: usize) -> (read: Option<([u8; 32], usize)>)
    ensures
        match read {
            Some((hash, next)) => dec_raw(input@, pos as int, 32) == Some((hash@, next as int)),
            None => dec_raw(input@, pos as int, 32) is None,
        },
{
    if pos <= input.len() && input.len() - pos >= 32 {
        let mut hash = [0u8; 32];
        let mut i: usize = 0;
        while i < 32
            invariant
                i <= 32,
                pos + 32 <= input@.len(),
                pos + 32 <= usize::MAX,
                forall|j: int| 0 <= j < i ==> hash@[j] == input@[pos + j],
            decreases 32 - i,
        {
            hash[i] = input[pos + i];
            i += 1;
        }
        assert(hash@ =~= input@.subrange(pos as int, pos + 32));
        Some((hash, pos + 32))
    } else {
        None
    }
}

/// Reads a byte string at `pos`.
pub fn read_bytes(input: &[u8], pos: usize) -> (read: Option<(Vec<u8>, usize)>)
    ensures
        match read {
            Some((bytes, next)) => dec_bytes(input@, pos as int) == Some((bytes@, next as int)),
            None => dec_bytes(input@, pos as int) is None,
        },
{
    match read_u64(input, pos) {
        Some((len, next)) => {
            if len > (input.len() - next) as u64 {
                return None;
            }
            read_raw(input, next, len as usize)
        },
        None => None,
    }
}

/// Reads an optional byte string at `pos`.
pub fn read_option_bytes(input: &[u8], pos: usize) -> (read: Option<(Option<Vec<u8>>, usize)>)
    ensures
        match read {
            Some((bytes, next)) => dec_option_bytes(input@, pos as int) == Some(
                (optional_bytes(bytes), next as int),
            ),
            None => dec_option_bytes(input@, pos as int) is None,
        },
{
    match read_bool(input, pos) {
        Some((true, next)) => match read_bytes(input, next) {
            Some((bytes, end)) => Some((Some(bytes), end)),
            None => None,
        },
        Some((false, next)) => Some((None, next)),
        None => None,
    }
}

/// Reads an optional hash at `pos`.
pub fn read_option_hash(input: &[u8], pos: usize) -> (read: Option<(Option<[u8; 32]>, usize)>)
    ensures
        match read {
            Some((hash, next)) => dec_option_hash(input@, pos as int) == Some(
                (optional_hash(hash), next as int),
            ),
            None => dec_option_hash(input@, pos as int) is None,
        },
{
    match read_bool(input, pos) {
        Some((true, next)) => match read_hash(input, next) {
            Some((hash, end)) => Some((Some(hash), end)),
            None => None,
        },
        Some((false, next)) => Some((None, next)),
        None => None,
    }
}

} // verus!
