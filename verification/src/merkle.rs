//! The Merkle Patricia Trie: a mapping from 32-byte keys to byte strings,
//! committed to by a 32-byte root hash, with proofs of what it holds.

use vstd::prelude::*;
use vstd::bytes::u64_to_le_bytes;
use vstd::slice::slice_subrange;
use crate::byte_order::{bytes_equal, bytes_lt, copy_bytes, lemma_lt_irreflexive};
use crate::sorted_map::{
    canonical_order, lemma_listing_unique, lemma_lists_map_values, listing, lists, SortedMap,
};
use crate::state::{AccountState, AccountView, GlobalState, GlobalStateView};
use crate::state_codec::{enc_account, encode_account};
use crate::trie_build::{build_branch, build_hashed_node, collect_subset, HashedNode};
use crate::trie_laws::lemma_proof_complete;
use crate::trie_node::{
    branch_of, bytes_to_nibbles, child_hash, child_views, empty_root, Entry, entry_views,
    exact_value, hash_proof_node, key_tail, lemma_nibbles_small, nibbles, node_hash, NodeView,
    ProofNode, root_of, subset, trie_node,
};
use crate::views::{list_bytes, optional_bytes, optional_hash};
use crate::wire::enc_u64;

verus! {

/// A proof that a key holds a value in a trie: the nodes from the root down
/// to the node that holds the value.
#[derive(Clone, Debug, PartialEq, Eq)]
pub struct MerkleProof {
    pub key: [u8; 32],
    pub value: Vec<u8>,
    pub nodes: Vec<ProofNode>,
}

/// The mathematical value of a [`MerkleProof`].
pub struct MerkleProofView {
    pub key: Seq<u8>,
    pub value: Seq<u8>,
    pub nodes: Seq<NodeView>,
}

/// The nodes of a list, each by its mathematical value.
pub open spec fn node_views(nodes: Seq<ProofNode>) -> Seq<NodeView> {
    nodes.map_values(|n: ProofNode| n@)
}

impl View for MerkleProof {
    type V = MerkleProofView;

    open spec fn view(&self) -> MerkleProofView {
        MerkleProofView { key: self.key@, value: self.value@, nodes: node_views(self.nodes@) }
    }
}

/// `s` begins with `prefix`.
pub open spec fn starts_with(s: Seq<u8>, prefix: Seq<u8>) -> bool {
    prefix.len() <= s.len() && s.subrange(0, prefix.len() as int) == prefix
}

/// Whether the nodes from `index` on lead along the nibbles `remaining` to
/// `value`: a leaf must hold exactly the remaining nibbles and the value; an
/// extension must spell the next nibbles and name the hash of the next
/// node; a branch must hold the value where no nibble remains, and
/// otherwise name, under the next nibble, the hash of the next node.
pub open spec fn walk(nodes: Seq<NodeView>, index: int, remaining: Seq<u8>, value: Seq<u8>) -> bool
    decreases nodes.len() - index,
{
    if index < 0 || index >= nodes.len() {
        false
    } else {
        match nodes[index] {
            NodeView::Leaf { path, value: stored } => path == remaining && stored == value,
            NodeView::Extension { path, child } => {
                &&& starts_with(remaining, path)
                &&& index + 1 < nodes.len()
                &&& node_hash(nodes[index + 1]) == child
                &&& walk(
                    nodes,
                    index + 1,
                    remaining.subrange(path.len() as int, remaining.len() as int),
                    value,
                )
            },
            NodeView::Branch { children, value: stored } => if remaining.len() == 0 {
                stored == Some(value)
            } else {
                &&& (remaining[0] as int) < children.len()
                &&& index + 1 < nodes.len()
                &&& children[remaining[0] as int] == Some(node_hash(nodes[index + 1]))
                &&& walk(nodes, index + 1, remaining.subrange(1, remaining.len() as int), value)
            },
        }
    }
}

/// Whether a proof shows that its key holds its value in the trie with the
/// given root: the first node hashes to the root, and the nodes lead along
/// the nibbles of the key to the value.
pub open spec fn proof_verifies(root: Seq<u8>, proof: MerkleProofView) -> bool {
    &&& proof.nodes.len() > 0
    &&& node_hash(proof.nodes[0]) == root
    &&& walk(proof.nodes, 0, nibbles(proof.key), proof.value)
}

/// The nodes from the node of the entries below `depth` down to the node
/// that holds the value of `key`, if `key` is found along them.
pub open spec fn proof_path(entries: Seq<Entry>, depth: int, key: Seq<u8>) -> Option<Seq<NodeView>>
    decreases entries.len(), 1int,
{
    match trie_node(entries, depth) {
        None => None,
        Some(NodeView::Leaf { path, value }) => if path == key_tail(key, depth) {
            Some(seq![NodeView::Leaf { path, value }])
        } else {
            None
        },
        Some(NodeView::Extension { path, child }) => if starts_with(key_tail(key, depth), path) {
            match branch_path(entries, depth + path.len(), key) {
                Some(rest) => Some(seq![NodeView::Extension { path, child }] + rest),
                None => None,
            }
        } else {
            None
        },
        Some(NodeView::Branch { children, value }) => branch_path(entries, depth, key),
    }
}

/// The nodes from the branch of the entries at `depth` down to the node
/// that holds the value of `key`.
pub open spec fn branch_path(entries: Seq<Entry>, depth: int, key: Seq<u8>) -> Option<
    Seq<NodeView>,
>
    decreases entries.len(), 0int,
{
    let node = branch_of(entries, depth);
    if depth < 0 || key.len() <= depth {
        if exact_value(entries, depth) is Some {
            Some(seq![node])
        } else {
            None
        }
    } else {
        let below = subset(entries, depth, key[depth]);
        if key[depth] < 16 && below.len() < entries.len() && child_hash(entries, depth, key[depth])
            is Some {
            match proof_path(below, depth + 1, key) {
                Some(rest) => Some(seq![node] + rest),
                None => None,
            }
        } else {
            None
        }
    }
}

/// Whether two hashes are the same.
fn same_hash(a: &[u8; 32], b: &[u8; 32]) -> (same: bool)
    ensures
        same == (a@ == b@),
{
    bytes_equal(a.as_slice(), b.as_slice())
}

/// Whether the nibbles of `key` from `pos` on begin with `path`.
fn prefix_at(key: &Vec<u8>, pos: usize, path: &Vec<u8>) -> (matches: bool)
    requires
        pos <= key@.len(),
    ensures
        matches == starts_with(key@.subrange(pos as int, key@.len() as int), path@),
{
    let rest = slice_subrange(key.as_slice(), pos, key.len());
    if path.len() > rest.len() {
        return false;
    }
    bytes_equal(slice_subrange(rest, 0, path.len()), path.as_slice())
}

/// Walks from the branch `node` of the entries at `depth` towards `key`,
/// appending the nodes passed to `out`.
fn collect_branch_nodes(
    entries: &Vec<(Vec<u8>, Vec<u8>)>,
    depth: usize,
    key: &Vec<u8>,
    node: ProofNode,
    out: &mut Vec<ProofNode>,
) -> (found: bool)
    requires
        node@ == branch_of(entry_views(entries@), depth as int),
    ensures
        found == (branch_path(entry_views(entries@), depth as int, key@) is Some),
        found ==> node_views(final(out)@) == node_views(old(out)@) + branch_path(
            entry_views(entries@),
            depth as int,
            key@,
        )->Some_0,
    decreases entries@.len(), 0int,
{
    let ghost views = entry_views(entries@);
    let ghost before = node_views(out@);
    let (has_value, child) = match &node {
        ProofNode::Branch { children, value } => {
            let child = if depth < key.len() && key[depth] < 16 {
                let nib = key[depth];
                assert(child_views(children@)[nib as int] == optional_hash(
                    children@[nib as int],
                ));
                children[nib as usize].is_some()
            } else {
                false
            };
            (value.is_some(), child)
        },
        _ => (false, false),
    };
    proof {
        assert(node_views(out@.push(node)) =~= before + seq![node@]);
    }
    out.push(node);
    if key.len() <= depth {
        return has_value;
    }
    if !child {
        return false;
    }
    let below = collect_subset(entries, depth, key[depth]);
    let ghost onward = proof_path(entry_views(below@), depth + 1, key@);
    let found = collect_proof_nodes(&below, depth + 1, key, out);
    proof {
        if found {
            assert(before + seq![node@] + onward->Some_0 =~= before + (seq![node@]
                + onward->Some_0));
        }
    }
    found
}

/// Walks from the node of the entries below `depth` towards `key`,
/// appending the nodes passed to `out`. Returns whether `key` was found.
fn collect_proof_nodes(
    entries: &Vec<(Vec<u8>, Vec<u8>)>,
    depth: usize,
    key: &Vec<u8>,
    out: &mut Vec<ProofNode>,
) -> (found: bool)
    ensures
        found == (proof_path(entry_views(entries@), depth as int, key@) is Some),
        found ==> node_views(final(out)@) == node_views(old(out)@) + proof_path(
            entry_views(entries@),
            depth as int,
            key@,
        )->Some_0,
    decreases entries@.len(), 1int,
{
    let ghost views = entry_views(entries@);
    let ghost before = node_views(out@);
    let built = match build_hashed_node(entries, depth) {
        Some(built) => built,
        None => {
            return false;
        },
    };
    match built.node {
        ProofNode::Leaf { path, value } => {
            let matches = if depth <= key.len() {
                bytes_equal(path.as_slice(), slice_subrange(key.as_slice(), depth, key.len()))
            } else {
                path.len() == 0
            };
            if !matches {
                assert(path@ != key_tail(key@, depth as int)) by {
                    if path@.len() == 0 && key_tail(key@, depth as int).len() == 0 {
                        assert(path@ =~= key_tail(key@, depth as int));
                    }
                }
                return false;
            }
            assert(path@ == key_tail(key@, depth as int)) by {
                assert(path@ =~= key_tail(key@, depth as int));
            }
            let node = ProofNode::Leaf { path, value };
            proof {
                assert(node_views(out@.push(node)) =~= before + seq![node@]);
            }
            out.push(node);
            true
        },
        ProofNode::Extension { path, child } => {
            let matches = if depth <= key.len() {
                prefix_at(key, depth, &path)
            } else {
                path.len() == 0
            };
            if !matches {
                return false;
            }
            let below = depth + path.len();
            let branch = build_branch(entries, below);
            let node = ProofNode::Extension { path, child };
            let ghost shown = node@;
            proof {
                assert(node_views(out@.push(node)) =~= before + seq![node@]);
            }
            out.push(node);
            let ghost onward = branch_path(views, below as int, key@);
            let found = collect_branch_nodes(entries, below, key, branch.node, out);
            proof {
                if found {
                    assert(before + seq![shown] + onward->Some_0 =~= before + (seq![shown]
                        + onward->Some_0));
                }
            }
            found
        },
        ProofNode::Branch { children, value } => collect_branch_nodes(
            entries,
            depth,
            key,
            ProofNode::Branch { children, value },
            out,
        ),
    }
}

/// The entries of a trie with each key expanded into nibbles.
pub open spec fn nibble_entries(entries: Seq<(Seq<u8>, Seq<u8>)>) -> Seq<Entry> {
    entries.map_values(|e: (Seq<u8>, Seq<u8>)| (nibbles(e.0), e.1))
}

/// The entries of the trie that a mapping stands for: in ascending order of
/// key, each key in nibbles.
pub open spec fn trie_entries(contents: Map<Seq<u8>, Seq<u8>>) -> Seq<Entry> {
    nibble_entries(canonical_order(contents))
}

/// The root hash of the trie that holds exactly `contents`. It is a
/// function of the mapping alone: the order in which entries were inserted
/// leaves no trace in it.
pub open spec fn trie_root(contents: Map<Seq<u8>, Seq<u8>>) -> Seq<u8> {
    root_of(trie_entries(contents))
}

/// `proof` is the proof that a trie with the given contents gives for
/// `key`: the key is in the trie, the proof names the key and its value,
/// its nodes are the path from the root to the key, and it verifies
/// against the root of the trie.
pub open spec fn proof_of(contents: Map<Seq<u8>, Seq<u8>>, key: Seq<u8>, proof: MerkleProofView) -> bool {
    &&& contents.contains_key(key)
    &&& proof.key == key
    &&& proof.value == contents[key]
    &&& proof_path(trie_entries(contents), 0, nibbles(key)) == Some(proof.nodes)
    &&& proof_verifies(trie_root(contents), proof)
}

/// The values of a map, each by its bytes.
pub open spec fn value_views(entries: Map<Seq<u8>, Vec<u8>>) -> Map<Seq<u8>, Seq<u8>> {
    entries.map_values(|v: Vec<u8>| v@)
}

/// The accounts of a mapping, each by its encoding.
pub open spec fn account_encodings(accounts: Map<Seq<u8>, AccountView>) -> Map<Seq<u8>, Seq<u8>> {
    accounts.map_values(|a: AccountView| enc_account(a))
}

/// The state root: the root of the trie that holds the encoding of each
/// account under the address of the account.
pub open spec fn state_root(s: GlobalStateView) -> Seq<u8> {
    trie_root(account_encodings(s.accounts))
}

/// The key under which the trie of a list holds the item at `index`: the
/// index as a little-endian 64-bit integer, then 24 zero bytes.
pub open spec fn ordinal_key(index: u64) -> Seq<u8> {
    Seq::new(
        32,
        |i: int|
            if i < 8 {
                enc_u64(index)[i]
            } else {
                0u8
            },
    )
}

/// The mapping that holds each item of a list under the key of its index.
pub open spec fn ordinal_map(items: Seq<Seq<u8>>) -> Map<Seq<u8>, Seq<u8>>
    decreases items.len(),
{
    if items.len() == 0 {
        Map::empty()
    } else {
        ordinal_map(items.drop_last()).insert(
            ordinal_key((items.len() - 1) as u64),
            items.last(),
        )
    }
}

/// The key under which the trie of a list holds the item at `index`.
fn ordinal_key_of(index: u64) -> (key: [u8; 32])
    ensures
        key@ == ordinal_key(index),
{
    let bytes = u64_to_le_bytes(index);
    let mut key = [0u8; 32];
    let mut i: usize = 0;
    while i < 8
        invariant
            i <= 8,
            bytes@ == enc_u64(index),
            bytes@.len() == 8,
            forall|j: int| 0 <= j < i ==> key@[j] == bytes@[j],
            forall|j: int| i <= j < 32 ==> key@[j] == 0u8,
        decreases 8 - i,
    {
        key[i] = bytes[i];
        i += 1;
    }
    assert(key@ =~= ordinal_key(index));
    key
}

/// A Merkle Patricia Trie over 32-byte keys.
#[derive(Debug)]
pub struct MerklePatriciaTrie {
    entries: SortedMap<[u8; 32], Vec<u8>>,
    root: [u8; 32],
}

impl View for MerklePatriciaTrie {
    type V = Map<Seq<u8>, Seq<u8>>;

    closed spec fn view(&self) -> Map<Seq<u8>, Seq<u8>> {
        value_views(self.entries@)
    }
}

/// The entries of a sorted map as the trie takes them: keys in nibbles,
/// in ascending order of key.
fn nibble_data(entries: &SortedMap<[u8; 32], Vec<u8>>) -> (data: Vec<(Vec<u8>, Vec<u8>)>)
    ensures
        entry_views(data@) == trie_entries(value_views(entries@)),
{
    let listed = entries.entries();
    let ghost plain = listing(listed@);
    let ghost shown = plain.map_values(|e: (Seq<u8>, Vec<u8>)| (e.0, e.1@));
    proof {
        let f = |v: Vec<u8>| v@;
        lemma_lists_map_values(plain, entries@, f);
        assert(shown =~= plain.map_values(|e: (Seq<u8>, Vec<u8>)| (e.0, f(e.1))));
        assert(value_views(entries@) =~= entries@.map_values(f));
        lemma_listing_unique(
            shown,
            canonical_order(value_views(entries@)),
            value_views(entries@),
        );
    }
    let mut data: Vec<(Vec<u8>, Vec<u8>)> = Vec::new();
    let mut i: usize = 0;
    while i < listed.len()
        invariant
            i <= listed.len(),
            plain == listing(listed@),
            shown == plain.map_values(|e: (Seq<u8>, Vec<u8>)| (e.0, e.1@)),
            entry_views(data@) == nibble_entries(shown.subrange(0, i as int)),
        decreases listed.len() - i,
    {
        let entry = (bytes_to_nibbles(&listed[i].0), copy_bytes(listed[i].1.as_slice()));
        proof {
            assert(plain[i as int] == (listed@[i as int].0@, listed@[i as int].1));
            assert(shown[i as int] == (listed@[i as int].0@, listed@[i as int].1@));
            let grown = shown.subrange(0, i + 1);
            assert(grown =~= shown.subrange(0, i as int).push(shown[i as int]));
            assert(nibble_entries(grown) =~= nibble_entries(shown.subrange(0, i as int)).push(
                (nibbles(shown[i as int].0), shown[i as int].1),
            ));
            assert(
                entry_views(data@.push(entry)) =~= entry_views(data@).push((entry.0@, entry.1@))
            );
        }
        data.push(entry);
        i += 1;
    }
    assert(shown.subrange(0, i as int) =~= shown);
    data
}

/// Computes the root hash of the trie that holds the entries.
fn recompute_root(entries: &SortedMap<[u8; 32], Vec<u8>>) -> (root: [u8; 32])
    ensures
        root@ == trie_root(value_views(entries@)),
{
    let data = nibble_data(entries);
    match build_hashed_node(&data, 0) {
        Some(node) => node.hash,
        None => {
            let zero = [0u8; 32];
            assert(zero@ =~= empty_root());
            zero
        },
    }
}

impl MerklePatriciaTrie {
    #[verifier::type_invariant]
    spec fn committed(&self) -> bool {
        self.root@ == trie_root(value_views(self.entries@))
    }

    /// The empty trie.
    pub fn new() -> (trie: Self)
        ensures
            trie@ == Map::<Seq<u8>, Seq<u8>>::empty(),
    {
        let entries: SortedMap<[u8; 32], Vec<u8>> = SortedMap::new();
        let root = recompute_root(&entries);
        let trie = MerklePatriciaTrie { entries, root };
        assert(trie@ =~= Map::<Seq<u8>, Seq<u8>>::empty());
        trie
    }

    /// The trie of the accounts of a state: under each address the
    /// encoding of its account.
    pub fn from_global_state(state: &GlobalState) -> (trie: Self)
        ensures
            trie@ == account_encodings(state@.accounts),
    {
        let listed = state.accounts.entries();
        let ghost plain = listing(listed@);
        let ghost target = account_encodings(state@.accounts);
        let mut entries: SortedMap<[u8; 32], Vec<u8>> = SortedMap::new();
        let mut i: usize = 0;
        while i < listed.len()
            invariant
                i <= listed.len(),
                plain == listing(listed@),
                lists(plain, state.accounts@),
                target == account_encodings(state@.accounts),
                forall|j: int|
                    0 <= j < i ==> value_views(entries@).contains_key((#[trigger] plain[j]).0)
                        && value_views(entries@)[plain[j].0] == enc_account(plain[j].1@),
                forall|k: Seq<u8>|
                    value_views(entries@).contains_key(k) ==> exists|j: int|
                        0 <= j < i && (#[trigger] plain[j]).0 == k,
            decreases listed.len() - i,
        {
            let ghost before = value_views(entries@);
            let encoded = encode_account(&listed[i].1);
            proof {
                assert(plain[i as int] == (listed@[i as int].0@, listed@[i as int].1));
                assert(value_views(entries@.insert(listed@[i as int].0@, encoded))
                    =~= before.insert(plain[i as int].0, encoded@));
            }
            entries.insert(listed[i].0, encoded);
            proof {
                let after = value_views(entries@);
                assert forall|j: int| 0 <= j < i + 1 implies after.contains_key(
                    (#[trigger] plain[j]).0,
                ) && after[plain[j].0] == enc_account(plain[j].1@) by {
                    if j < i {
                        assert(before.contains_key(plain[j].0));
                        assert(bytes_lt(plain[j].0, plain[i as int].0));
                        lemma_lt_irreflexive(plain[j].0);
                    }
                }
                assert forall|k: Seq<u8>| after.contains_key(k) implies exists|j: int|
                    0 <= j < i + 1 && (#[trigger] plain[j]).0 == k by {
                    if k == plain[i as int].0 {
                    } else {
                        assert(before.contains_key(k));
                        let j = choose|j: int| 0 <= j < i && (#[trigger] plain[j]).0 == k;
                        assert(plain[j].0 == k);
                    }
                }
            }
            i += 1;
        }
        let root = recompute_root(&entries);
        let trie = MerklePatriciaTrie { entries, root };
        proof {
            let held = trie@;
            assert forall|k: Seq<u8>| held.contains_key(k) == target.contains_key(k) by {
                if held.contains_key(k) {
                    let j = choose|j: int| 0 <= j < i && (#[trigger] plain[j]).0 == k;
                    assert(state.accounts@.contains_key(plain[j].0));
                }
                if target.contains_key(k) {
                    assert(state.accounts@.contains_key(k));
                    let j = choose|j: int| 0 <= j < plain.len() && (#[trigger] plain[j]).0 == k;
                    assert(held.contains_key(plain[j].0));
                }
            }
            assert forall|k: Seq<u8>| held.contains_key(k) implies held[k] == target[k] by {
                let j = choose|j: int| 0 <= j < i && (#[trigger] plain[j]).0 == k;
                assert(state.accounts@[plain[j].0] == plain[j].1);
                assert(held[plain[j].0] == enc_account(plain[j].1@));
            }
            assert(held =~= target);
        }
        trie
    }

    /// The trie of a list of hashes: each hash under the key of its index.
    pub fn from_list(items: &Vec<[u8; 32]>) -> (trie: Self)
        ensures
            trie@ == ordinal_map(list_bytes(items@)),
    {
        let ghost list = list_bytes(items@);
        let mut entries: SortedMap<[u8; 32], Vec<u8>> = SortedMap::new();
        let mut i: usize = 0;
        assert(list.subrange(0, 0) =~= Seq::empty());
        assert(value_views(entries@) =~= Map::empty());
        while i < items.len()
            invariant
                i <= items.len(),
                list == list_bytes(items@),
                value_views(entries@) == ordinal_map(list.subrange(0, i as int)),
            decreases items.len() - i,
        {
            let key = ordinal_key_of(i as u64);
            let value = copy_bytes(items[i].as_slice());
            proof {
                let grown = list.subrange(0, i + 1);
                assert(grown.drop_last() =~= list.subrange(0, i as int));
                assert(grown.last() == items@[i as int]@);
                assert(value_views(entries@.insert(key@, value)) =~= value_views(entries@).insert(
                    key@,
                    value@,
                ));
            }
            entries.insert(key, value);
            i += 1;
        }
        assert(list.subrange(0, i as int) =~= list);
        let root = recompute_root(&entries);
        MerklePatriciaTrie { entries, root }
    }

    /// Stores the encoding of an account under `key`.
    pub fn insert_account(&mut self, key: [u8; 32], account: &AccountState)
        ensures
            final(self)@ == old(self)@.insert(key@, enc_account(account@)),
    {
        let value = encode_account(account);
        self.insert(key, value);
    }

    /// Stores `value` under `key` and brings the root hash up to date.
    pub fn insert(&mut self, key: [u8; 32], value: Vec<u8>)
        ensures
            final(self)@ == old(self)@.insert(key@, value@),
    {
        let mut taken = MerklePatriciaTrie::new();
        core::mem::swap(self, &mut taken);
        let MerklePatriciaTrie { entries, root } = taken;
        let mut entries = entries;
        entries.insert(key, value);
        let root = recompute_root(&entries);
        *self = MerklePatriciaTrie { entries, root };
        assert(self@ =~= old(self)@.insert(key@, value@));
    }

    /// The value stored under `key`, if there is one.
    pub fn get(&self, key: &[u8; 32]) -> (value: Option<Vec<u8>>)
        ensures
            optional_bytes(value) == (if self@.contains_key(key@) {
                Some(self@[key@])
            } else {
                None::<Seq<u8>>
            }),
    {
        match self.entries.get(key.as_slice()) {
            Some(value) => Some(copy_bytes(value.as_slice())),
            None => None,
        }
    }

    /// Removes what is stored under `key` and brings the root hash up to
    /// date.
    pub fn delete(&mut self, key: &[u8; 32])
        ensures
            final(self)@ == old(self)@.remove(key@),
    {
        let mut taken = MerklePatriciaTrie::new();
        core::mem::swap(self, &mut taken);
        let MerklePatriciaTrie { entries, root } = taken;
        let mut entries = entries;
        entries.remove(key.as_slice());
        let root = recompute_root(&entries);
        *self = MerklePatriciaTrie { entries, root };
        assert(self@ =~= old(self)@.remove(key@));
    }

    /// The root hash: 32 zero bytes for the empty trie, else the hash of
    /// the top node.
    pub fn root_hash(&self) -> (root: [u8; 32])
        ensures
            root@ == trie_root(self@),
    {
        proof {
            use_type_invariant(self);
        }
        self.root
    }

    /// Builds the top node of the trie, if the trie holds anything.
    pub fn build_trie(&self) -> (top: Option<HashedNode>)
        ensures
            match top {
                Some(node) => trie_node(trie_entries(self@), 0) == Some(node.node@)
                    && node.consistent(),
                None => trie_node(trie_entries(self@), 0) is None,
            },
    {
        let data = nibble_data(&self.entries);
        build_hashed_node(&data, 0)
    }

    /// A proof of the value stored under `key`: it exists for every key of
    /// the trie and for no other, and it verifies against the root hash.
    pub fn prove(&self, key: &[u8; 32]) -> (shown: Option<MerkleProof>)
        ensures
            match shown {
                Some(p) => proof_of(self@, key@, p@),
                None => !self@.contains_key(key@),
            },
    {
        let value = match self.entries.get(key.as_slice()) {
            Some(value) => copy_bytes(value.as_slice()),
            None => {
                return None;
            },
        };
        let nibble_key = bytes_to_nibbles(key);
        let data = nibble_data(&self.entries);
        let listed = self.entries.entries();
        proof {
            let plain = listing(listed@);
            let f = |v: Vec<u8>| v@;
            let shown = plain.map_values(|e: (Seq<u8>, Vec<u8>)| (e.0, f(e.1)));
            lemma_lists_map_values(plain, self.entries@, f);
            assert(value_views(self.entries@) =~= self.entries@.map_values(f));
            assert forall|i: int| 0 <= i < shown.len() implies (#[trigger] shown[i]).0.len()
                == 32 by {
                assert(shown[i].0 == listed@[i].0@);
            }
            lemma_proof_complete(shown, self@, key@);
        }
        let mut nodes: Vec<ProofNode> = Vec::new();
        let found = collect_proof_nodes(&data, 0, &nibble_key, &mut nodes);
        if !found {
            return None;
        }
        proof {
            let path = proof_path(trie_entries(self@), 0, nibbles(key@))->Some_0;
            assert(node_views(Seq::<ProofNode>::empty()) + path =~= path);
        }
        Some(MerkleProof { key: *key, value, nodes })
    }

    /// Checks a proof against a root hash.
    pub fn verify_proof(root: [u8; 32], proof: &MerkleProof) -> (valid: bool)
        ensures
            valid == proof_verifies(root@, proof@),
    {
        if proof.nodes.len() == 0 {
            return false;
        }
        let key = bytes_to_nibbles(&proof.key);
        proof {
            lemma_nibbles_small(proof.key@);
        }
        let ghost nodes = node_views(proof.nodes@);
        let ghost value = proof.value@;
        let first = hash_proof_node(&proof.nodes[0]);
        assert(nodes[0] == proof.nodes@[0]@);
        if !same_hash(&first, &root) {
            return false;
        }
        let mut pos: usize = 0;
        let mut index: usize = 0;
        assert(key@.subrange(0, key@.len() as int) =~= key@);
        assert(proof_verifies(root@, proof@) == walk(nodes, 0, key@, value));
        while index < proof.nodes.len()
            invariant
                index <= proof.nodes@.len(),
                pos <= key@.len(),
                nodes == node_views(proof.nodes@),
                value == proof.value@,
                forall|i: int| 0 <= i < key@.len() ==> #[trigger] key@[i] < 16,
                proof_verifies(root@, proof@) == walk(
                    nodes,
                    index as int,
                    key@.subrange(pos as int, key@.len() as int),
                    value,
                ),
            decreases proof.nodes.len() - index,
        {
            let ghost remaining = key@.subrange(pos as int, key@.len() as int);
            assert(nodes[index as int] == proof.nodes@[index as int]@);
            match &proof.nodes[index] {
                ProofNode::Leaf { path, value: stored } => {
                    return bytes_equal(
                        path.as_slice(),
                        slice_subrange(key.as_slice(), pos, key.len()),
                    ) && bytes_equal(stored.as_slice(), proof.value.as_slice());
                },
                ProofNode::Extension { path, child } => {
                    if !prefix_at(&key, pos, path) {
                        return false;
                    }
                    if index + 1 >= proof.nodes.len() {
                        return false;
                    }
                    let next = hash_proof_node(&proof.nodes[index + 1]);
                    assert(nodes[index + 1] == proof.nodes@[index + 1]@);
                    if !same_hash(&next, child) {
                        return false;
                    }
                    proof {
                        assert(remaining.subrange(path@.len() as int, remaining.len() as int)
                            =~= key@.subrange(pos + path@.len(), key@.len() as int));
                    }
                    let limit = key.len();
                    assert(pos + path@.len() <= limit);
                    pos = pos + path.len();
                },
                ProofNode::Branch { children, value: stored } => {
                    if pos == key.len() {
                        return match stored {
                            Some(held) => bytes_equal(held.as_slice(), proof.value.as_slice()),
                            None => false,
                        };
                    }
                    let nib = key[pos];
                    assert(remaining[0] == nib);
                    assert(child_views(children@)[nib as int] == optional_hash(
                        children@[nib as int],
                    ));
                    if index + 1 >= proof.nodes.len() {
                        return false;
                    }
                    let next = hash_proof_node(&proof.nodes[index + 1]);
                    assert(nodes[index + 1] == proof.nodes@[index + 1]@);
                    match &children[nib as usize] {
                        Some(expected) => {
                            if !same_hash(&next, expected) {
                                return false;
                            }
                        },
                        None => {
                            return false;
                        },
                    }
                    proof {
                        assert(remaining.subrange(1, remaining.len() as int) =~= key@.subrange(
                            pos + 1,
                            key@.len() as int,
                        ));
                    }
                    pos = pos + 1;
                },
            }
            index += 1;
        }
        false
    }
}

/// The state root of a state.
pub fn state_root_from_global_state(state: &GlobalState) -> (root: [u8; 32])
    ensures
        root@ == state_root(state@),
{
    MerklePatriciaTrie::from_global_state(state).root_hash()
}

impl GlobalState {
    /// The state root: it commits to every account of the state, and is
    /// the same for every state with the same accounts.
    pub fn root_hash(&self) -> (root: [u8; 32])
        ensures
            root@ == state_root(self@),
    {
        state_root_from_global_state(self)
    }
}

} // verus!
