//! How the byte strings that values hold show in their mathematical
//! values.

use vstd::prelude::*;

verus! {

/// The bytes of each 32-byte item of a list.
pub open spec fn list_bytes(items: Seq<[u8; 32]>) -> Seq<Seq<u8>> {
    items.map_values(|item: [u8; 32]| item@)
}

/// The bytes of an optional byte string.
pub open spec fn optional_bytes(bytes: Option<Vec<u8>>) -> Option<Seq<u8>> {
    match bytes {
        Some(b) => Some(b@),
        None => None,
    }
}

/// The bytes of an optional 32-byte value.
pub open spec fn optional_hash(hash: Option<[u8; 32]>) -> Option<Seq<u8>> {
    match hash {
        Some(h) => Some(h@),
        None => None,
    }
}

/// The address that 32 bytes stand for.
pub open spec fn address_of(bytes: Seq<u8>) -> [u8; 32] {
    choose|address: [u8; 32]| address@ == bytes
}

/// The address that the bytes of an address stand for is that address.
pub proof fn lemma_address_of(address: [u8; 32])
    ensures
        address_of(address@) == address,
{
    assert(address_of(address@)@ == address@);
    assert(address_of(address@) =~= address);
}

} // verus!
