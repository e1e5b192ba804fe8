//! BLAKE3 digests.

use vstd::prelude::*;

verus! {

/// The BLAKE3 digest of `input`, as a function of the input bytes alone.
pub uninterp spec fn blake3_digest(input: Seq<u8>) -> Seq<u8>;

/// Calls `blake3::hash` and copies the 32 bytes of the resulting `Hash`.
/// The contract claims only that the result is the digest named
/// [`blake3_digest`] of the input: the same bytes always hash alike.
#[verifier::external_body]
fn blake3_hash(input: &[u8]) -> (digest: [u8; 32])
    ensures
        digest@ == blake3_digest(input@),
{
    *blake3::hash(input).as_bytes()
}

/// Hashes `data` with BLAKE3.
pub fn hash(data: &[u8]) -> (digest: [u8; 32])
    ensures
        digest@ == blake3_digest(data@),
{
    blake3_hash(data)
}

/// Hashes the concatenation of two byte strings.
pub fn hash_pair(first: &[u8], second: &[u8]) -> (digest: [u8; 32])
    ensures
        digest@ == blake3_digest(first@ + second@),
{
    let mut buffer: Vec<u8> = Vec::new();
    let mut i: usize = 0;
    while i < first.len()
        invariant
            i <= first.len(),
            buffer@ == first@.subrange(0, i as int),
        decreases first.len() - i,
    {
        buffer.push(first[i]);
        i += 1;
    }
    let mut j: usize = 0;
    while j < second.len()
        invariant
            j <= second.len(),
            buffer@ == first@ + second@.subrange(0, j as int),
        decreases second.len() - j,
    {
        buffer.push(second[j]);
        j += 1;
    }
    assert(second@.subrange(0, second.len() as int) == second@);
    blake3_hash(buffer.as_slice())
}

} // verus!
