//! The keys under which a node persists the state and the blocks.
//!
//! The state snapshot is kept under `global_state`, each block under
//! `block:` followed by its height as a big-endian 64-bit integer, and the
//! height of a block under `block_by_hash:` followed by the hash of the
//! block.

use vstd::prelude::*;
use vstd::bytes::u64_to_le_bytes;
use crate::wire::{enc_u64, put_raw};

verus! {

/// The text `global_state`.
pub open spec fn state_key() -> Seq<u8> {
    seq![103u8, 108u8, 111u8, 98u8, 97u8, 108u8, 95u8, 115u8, 116u8, 97u8, 116u8, 101u8]
}

/// The text `block:`.
pub open spec fn block_prefix() -> Seq<u8> {
    seq![98u8, 108u8, 111u8, 99u8, 107u8, 58u8]
}

/// The text `block_by_hash:`.
pub open spec fn block_by_hash_prefix() -> Seq<u8> {
    seq![
        98u8,
        108u8,
        111u8,
        99u8,
        107u8,
        95u8,
        98u8,
        121u8,
        95u8,
        104u8,
        97u8,
        115u8,
        104u8,
        58u8,
    ]
}

/// The eight bytes of a 64-bit integer, the most significant first.
pub open spec fn big_endian(x: u64) -> Seq<u8> {
    Seq::new(8, |i: int| enc_u64(x)[7 - i])
}

/// The key of the block at a height.
pub open spec fn block_key(height: u64) -> Seq<u8> {
    block_prefix() + big_endian(height)
}

/// The key of the entry that leads from the hash of a block to the block.
pub open spec fn block_by_hash_key(hash: Seq<u8>) -> Seq<u8> {
    block_by_hash_prefix() + hash
}

/// The key of the state snapshot.
pub fn state_key_bytes() -> (key: Vec<u8>)
    ensures
        key@ == state_key(),
{
    let text: [u8; 12] = [103, 108, 111, 98, 97, 108, 95, 115, 116, 97, 116, 101];
    let mut key: Vec<u8> = Vec::new();
    put_raw(&mut key, text.as_slice());
    assert(key@ =~= state_key());
    key
}

/// A 64-bit integer as eight bytes, the most significant first.
pub fn big_endian_bytes(x: u64) -> (bytes: Vec<u8>)
    ensures
        bytes@ == big_endian(x),
{
    let little = u64_to_le_bytes(x);
    let mut bytes: Vec<u8> = Vec::new();
    let mut i: usize = 0;
    while i < 8
        invariant
            i <= 8,
            little@ == enc_u64(x),
            little@.len() == 8,
            bytes@.len() == i,
            forall|j: int| 0 <= j < i ==> bytes@[j] == little@[7 - j],
        decreases 8 - i,
    {
        bytes.push(little[7 - i]);
        i += 1;
    }
    assert(bytes@ =~= big_endian(x));
    bytes
}

/// The key of the block at a height.
pub fn block_key_bytes(height: u64) -> (key: Vec<u8>)
    ensures
        key@ == block_key(height),
{
    let text: [u8; 6] = [98, 108, 111, 99, 107, 58];
    let mut key: Vec<u8> = Vec::new();
    put_raw(&mut key, text.as_slice());
    let number = big_endian_bytes(height);
    put_raw(&mut key, number.as_slice());
    assert(key@ =~= block_key(height));
    key
}

/// The key of the entry that leads from the hash of a block to the block.
pub fn block_by_hash_key_bytes(hash: &[u8; 32]) -> (key: Vec<u8>)
    ensures
        key@ == block_by_hash_key(hash@),
{
    let text: [u8; 14] = [98, 108, 111, 99, 107, 95, 98, 121, 95, 104, 97, 115, 104, 58];
    let mut key: Vec<u8> = Vec::new();
    put_raw(&mut key, text.as_slice());
    put_raw(&mut key, hash.as_slice());
    assert(key@ =~= block_by_hash_key(hash@));
    key
}

} // verus!
