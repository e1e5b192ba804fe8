//! The nodes of the Merkle Patricia Trie and the trie that a set of
//! entries stands for.
//!
//! Keys are strings of nibbles. A set of entries that all begin with the
//! same `depth` nibbles stands for one node: nothing for no entry, a leaf
//! for one, an extension where all entries go on with the same nibbles, and
//! otherwise a branch with one child for each nibble that entries go on
//! with.

use vstd::prelude::*;
use crate::hashing::{blake3_digest, hash};
use crate::views::{optional_bytes, optional_hash};
use crate::wire::{
    enc_bytes, enc_option_bytes, enc_option_hash, enc_u32, put_bytes, put_option_bytes,
    put_option_hash, put_raw, put_u32,
};

verus! {

/// A node of the trie, as a proof shows it.
#[derive(Clone, Debug, PartialEq, Eq)]
#[allow(inconsistent_fields)]
pub enum ProofNode {
    /// The rest of a key and the value stored under the key.
    Leaf { path: Vec<u8>, value: Vec<u8> },
    /// Nibbles that all keys below share, and the hash of the node below.
    Extension { path: Vec<u8>, child: [u8; 32] },
    /// For each nibble the hash of the node below it, if there is one, and
    /// the value of the key that ends here, if there is one.
    Branch { children: [Option<[u8; 32]>; 16], value: Option<Vec<u8>> },
}

/// The mathematical value of a [`ProofNode`].
#[allow(inconsistent_fields)]
pub enum NodeView {
    Leaf { path: Seq<u8>, value: Seq<u8> },
    Extension { path: Seq<u8>, child: Seq<u8> },
    Branch { children: Seq<Option<Seq<u8>>>, value: Option<Seq<u8>> },
}

/// The child hashes of a branch, each as bytes.
pub open spec fn child_views(children: Seq<Option<[u8; 32]>>) -> Seq<Option<Seq<u8>>> {
    children.map_values(|c: Option<[u8; 32]>| optional_hash(c))
}

impl View for ProofNode {
    type V = NodeView;

    open spec fn view(&self) -> NodeView {
        match self {
            ProofNode::Leaf { path, value } => NodeView::Leaf { path: path@, value: value@ },
            ProofNode::Extension { path, child } => NodeView::Extension {
                path: path@,
                child: child@,
            },
            ProofNode::Branch { children, value } => NodeView::Branch {
                children: child_views(children@),
                value: optional_bytes(*value),
            },
        }
    }
}

/// The encodings of the child hashes of a branch, one after the other.
pub open spec fn enc_children(children: Seq<Option<Seq<u8>>>) -> Seq<u8>
    decreases children.len(),
{
    if children.len() == 0 {
        Seq::empty()
    } else {
        enc_children(children.drop_last()) + enc_option_hash(children.last())
    }
}

/// The canonical encoding of a node: the tag of the variant, then its
/// fields in order.
pub open spec fn enc_node(node: NodeView) -> Seq<u8> {
    match node {
        NodeView::Leaf { path, value } => enc_u32(0) + enc_bytes(path) + enc_bytes(value),
        NodeView::Extension { path, child } => enc_u32(1) + enc_bytes(path) + child,
        NodeView::Branch { children, value } => enc_u32(2) + enc_children(children)
            + enc_option_bytes(value),
    }
}

/// The hash of a node: the digest of its canonical encoding.
pub open spec fn node_hash(node: NodeView) -> Seq<u8> {
    blake3_digest(enc_node(node))
}

/// Encodes a node.
pub fn encode_node(node: &ProofNode) -> (bytes: Vec<u8>)
    ensures
        bytes@ == enc_node(node@),
{
    let mut out: Vec<u8> = Vec::new();
    match node {
        ProofNode::Leaf { path, value } => {
            put_u32(&mut out, 0);
            put_bytes(&mut out, path.as_slice());
            put_bytes(&mut out, value.as_slice());
            assert(out@ =~= enc_node(node@));
        },
        ProofNode::Extension { path, child } => {
            put_u32(&mut out, 1);
            put_bytes(&mut out, path.as_slice());
            put_raw(&mut out, child.as_slice());
            assert(out@ =~= enc_node(node@));
        },
        ProofNode::Branch { children, value } => {
            put_u32(&mut out, 2);
            let ghost views = child_views(children@);
            let mut i: usize = 0;
            assert(views.subrange(0, 0) =~= Seq::empty());
            while i < 16
                invariant
                    i <= 16,
                    views == child_views(children@),
                    out@ == enc_u32(2) + enc_children(views.subrange(0, i as int)),
                decreases 16 - i,
            {
                put_option_hash(&mut out, &children[i]);
                proof {
                    let grown = views.subrange(0, i + 1);
                    assert(grown.drop_last() =~= views.subrange(0, i as int));
                    assert(grown.last() == optional_hash(children@[i as int]));
                    assert(out@ =~= enc_u32(2) + enc_children(grown));
                }
                i += 1;
            }
            assert(views.subrange(0, 16) =~= views);
            put_option_bytes(&mut out, value);
            assert(out@ =~= enc_node(node@));
        },
    }
    out
}

/// Hashes a node.
pub fn hash_proof_node(node: &ProofNode) -> (digest: [u8; 32])
    ensures
        digest@ == node_hash(node@),
{
    let encoded = encode_node(node);
    hash(encoded.as_slice())
}

/// The nibbles of a byte string: of each byte the high half, then the low.
pub open spec fn nibbles(bytes: Seq<u8>) -> Seq<u8> {
    Seq::new(
        2 * bytes.len(),
        |i: int|
            if i % 2 == 0 {
                (bytes[i / 2] >> 4) & 0x0f
            } else {
                bytes[i / 2] & 0x0f
            },
    )
}

/// Every nibble is below 16.
pub proof fn lemma_nibbles_small(bytes: Seq<u8>)
    ensures
        nibbles(bytes).len() == 2 * bytes.len(),
        forall|i: int| 0 <= i < nibbles(bytes).len() ==> #[trigger] nibbles(bytes)[i] < 16,
{
    assert forall|i: int| 0 <= i < nibbles(bytes).len() implies #[trigger] nibbles(bytes)[i]
        < 16 by {
        let b = bytes[i / 2];
        assert((b >> 4) & 0x0f < 16) by (bit_vector);
        assert(b & 0x0f < 16) by (bit_vector);
    }
}

/// The bytes are determined by their nibbles.
pub proof fn lemma_nibbles_injective(a: Seq<u8>, b: Seq<u8>)
    requires
        nibbles(a) == nibbles(b),
    ensures
        a == b,
{
    assert(nibbles(a).len() == 2 * a.len());
    assert(nibbles(b).len() == 2 * b.len());
    assert(a.len() == b.len());
    assert forall|i: int| 0 <= i < a.len() implies a[i] == b[i] by {
        let x = a[i];
        let y = b[i];
        assert(nibbles(a)[2 * i] == nibbles(b)[2 * i]);
        assert(nibbles(a)[2 * i + 1] == nibbles(b)[2 * i + 1]);
        assert(nibbles(a)[2 * i] == (x >> 4) & 0x0f);
        assert(nibbles(a)[2 * i + 1] == x & 0x0f);
        assert(nibbles(b)[2 * i] == (y >> 4) & 0x0f);
        assert(nibbles(b)[2 * i + 1] == y & 0x0f);
        assert(((x >> 4) & 0x0f == (y >> 4) & 0x0f && x & 0x0f == y & 0x0f) ==> x == y)
            by (bit_vector);
    }
    assert(a =~= b);
}

/// Expands a 32-byte key into its 64 nibbles.
pub fn bytes_to_nibbles(bytes: &[u8; 32]) -> (out: Vec<u8>)
    ensures
        out@ == nibbles(bytes@),
{
    let mut out: Vec<u8> = Vec::new();
    let mut i: usize = 0;
    while i < 32
        invariant
            i <= 32,
            out@.len() == 2 * i,
            forall|j: int| 0 <= j < 2 * i ==> out@[j] == nibbles(bytes@)[j],
        decreases 32 - i,
    {
        let b = bytes[i];
        out.push((b >> 4) & 0x0f);
        out.push(b & 0x0f);
        i += 1;
    }
    assert(out@ =~= nibbles(bytes@));
    out
}

/// An entry of the trie: a key in nibbles and the value stored under it.
pub type Entry = (Seq<u8>, Seq<u8>);

/// The entries of a vector, each by its mathematical value.
pub open spec fn entry_views(entries: Seq<(Vec<u8>, Vec<u8>)>) -> Seq<Entry> {
    entries.map_values(|e: (Vec<u8>, Vec<u8>)| (e.0@, e.1@))
}

/// What is left of a key below `depth`.
pub open spec fn key_tail(key: Seq<u8>, depth: int) -> Seq<u8> {
    if 0 <= depth <= key.len() {
        key.subrange(depth, key.len() as int)
    } else {
        Seq::empty()
    }
}

/// Some key ends at `depth`.
pub open spec fn has_exact(entries: Seq<Entry>, depth: int) -> bool {
    exists|i: int| 0 <= i < entries.len() && (#[trigger] entries[i]).0.len() == depth
}

/// The value of the first entry whose key ends at `depth`.
pub open spec fn exact_value(entries: Seq<Entry>, depth: int) -> Option<Seq<u8>>
    decreases entries.len(),
{
    if entries.len() == 0 {
        None
    } else if entries[0].0.len() == depth {
        Some(entries[0].1)
    } else {
        exact_value(entries.subrange(1, entries.len() as int), depth)
    }
}

/// All keys have a nibble at `index`, the one that the first key has.
pub open spec fn agree_at(entries: Seq<Entry>, index: int) -> bool {
    &&& entries.len() > 0
    &&& 0 <= index < entries[0].0.len()
    &&& forall|i: int|
        0 <= i < entries.len() ==> index < (#[trigger] entries[i]).0.len() && entries[i].0[index]
            == entries[0].0[index]
}

/// The longest string of nibbles with which all keys go on from `start`.
pub open spec fn common_extension(entries: Seq<Entry>, start: int) -> Seq<u8>
    decreases
        (if entries.len() > 0 {
            entries[0].0.len() - start
        } else {
            0
        }),
{
    if agree_at(entries, start) {
        seq![entries[0].0[start]] + common_extension(entries, start + 1)
    } else {
        Seq::empty()
    }
}

/// Whether a key goes on with the nibble `nib` at `depth`.
pub open spec fn continues_with(key: Seq<u8>, depth: int, nib: u8) -> bool {
    0 <= depth < key.len() && key[depth] == nib
}

/// The entries whose keys go on with the nibble `nib` at `depth`, in their
/// order.
pub open spec fn subset(entries: Seq<Entry>, depth: int, nib: u8) -> Seq<Entry>
    decreases entries.len(),
{
    if entries.len() == 0 {
        Seq::empty()
    } else if continues_with(entries.last().0, depth, nib) {
        subset(entries.drop_last(), depth, nib).push(entries.last())
    } else {
        subset(entries.drop_last(), depth, nib)
    }
}

/// No more entries go on with a nibble than there are entries.
pub proof fn lemma_subset_len(entries: Seq<Entry>, depth: int, nib: u8)
    ensures
        subset(entries, depth, nib).len() <= entries.len(),
    decreases entries.len(),
{
    if entries.len() > 0 {
        lemma_subset_len(entries.drop_last(), depth, nib);
    }
}

/// The hash of a node, if there is a node.
pub open spec fn hash_of(node: Option<NodeView>) -> Option<Seq<u8>> {
    match node {
        Some(n) => Some(node_hash(n)),
        None => None,
    }
}

/// The node that the entries stand for below `depth`, if there are entries.
pub open spec fn trie_node(entries: Seq<Entry>, depth: int) -> Option<NodeView>
    decreases entries.len(), 2int,
{
    if entries.len() == 0 {
        None
    } else if entries.len() == 1 {
        Some(NodeView::Leaf { path: key_tail(entries[0].0, depth), value: entries[0].1 })
    } else {
        let extension = if has_exact(entries, depth) {
            Seq::empty()
        } else {
            common_extension(entries, depth)
        };
        if extension.len() > 0 {
            Some(
                NodeView::Extension {
                    path: extension,
                    child: node_hash(branch_of(entries, depth + extension.len())),
                },
            )
        } else {
            Some(branch_of(entries, depth))
        }
    }
}

/// The hash of the node below the nibble `nib` of a branch at `depth`, if
/// entries go on with that nibble. A branch stands only where the entries
/// part ways, so the entries below each nibble are fewer.
pub open spec fn child_hash(entries: Seq<Entry>, depth: int, nib: u8) -> Option<Seq<u8>>
    decreases entries.len(), 0int,
{
    let below = subset(entries, depth, nib);
    if below.len() < entries.len() {
        hash_of(trie_node(below, depth + 1))
    } else {
        None
    }
}

/// The branch that the entries stand for at `depth`.
pub open spec fn branch_of(entries: Seq<Entry>, depth: int) -> NodeView
    decreases entries.len(), 1int,
{
    NodeView::Branch {
        children: seq![
            child_hash(entries, depth, 0),
            child_hash(entries, depth, 1),
            child_hash(entries, depth, 2),
            child_hash(entries, depth, 3),
            child_hash(entries, depth, 4),
            child_hash(entries, depth, 5),
            child_hash(entries, depth, 6),
            child_hash(entries, depth, 7),
            child_hash(entries, depth, 8),
            child_hash(entries, depth, 9),
            child_hash(entries, depth, 10),
            child_hash(entries, depth, 11),
            child_hash(entries, depth, 12),
            child_hash(entries, depth, 13),
            child_hash(entries, depth, 14),
            child_hash(entries, depth, 15),
        ],
        value: exact_value(entries, depth),
    }
}

/// The hash that stands for no node: 32 zero bytes.
pub open spec fn empty_root() -> Seq<u8> {
    Seq::new(32, |i: int| 0u8)
}

/// The root hash of the trie that the entries stand for.
pub open spec fn root_of(entries: Seq<Entry>) -> Seq<u8> {
    match trie_node(entries, 0) {
        Some(node) => node_hash(node),
        None => empty_root(),
    }
}

} // verus!
