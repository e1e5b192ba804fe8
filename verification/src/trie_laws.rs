//! Every key of a trie has a proof, and the proof verifies.

use vstd::prelude::*;
use crate::byte_order::{bytes_lt, lemma_lt_irreflexive};
use crate::merkle::{
    branch_path, MerkleProofView, nibble_entries, proof_path, proof_verifies, trie_entries,
    trie_root, walk,
};
use crate::sorted_map::{canonical_order, lemma_listing_unique, lists};
use crate::trie_build::lemma_subset_elements;
use crate::trie_node::{
    agree_at, branch_of, child_hash, common_extension, continues_with, empty_root, Entry, has_exact,
    key_tail, lemma_nibbles_injective, lemma_nibbles_small, lemma_subset_len, nibbles, node_hash,
    NodeView, subset, trie_node,
};

verus! {

/// No two entries have the same key.
pub open spec fn distinct_keys(entries: Seq<Entry>) -> bool {
    forall|i: int, j: int|
        0 <= i < j < entries.len() ==> (#[trigger] entries[i]).0 != (#[trigger] entries[j]).0
}

/// All keys have the length `len`.
pub open spec fn uniform(entries: Seq<Entry>, len: nat) -> bool {
    forall|i: int| 0 <= i < entries.len() ==> (#[trigger] entries[i]).0.len() == len
}

/// All keys begin with the first `depth` nibbles of `key`.
pub open spec fn share_prefix(entries: Seq<Entry>, key: Seq<u8>, depth: int) -> bool {
    &&& 0 <= depth <= key.len()
    &&& forall|i: int|
        0 <= i < entries.len() ==> depth <= (#[trigger] entries[i]).0.len() && entries[i].0.subrange(
            0,
            depth,
        ) == key.subrange(0, depth)
}

/// Walking a list of nodes from its second node on is walking the rest of
/// the list.
pub proof fn lemma_walk_shift(
    first: NodeView,
    rest: Seq<NodeView>,
    index: int,
    remaining: Seq<u8>,
    value: Seq<u8>,
)
    requires
        0 <= index,
    ensures
        walk(seq![first] + rest, index + 1, remaining, value) == walk(
            rest,
            index,
            remaining,
            value,
        ),
    decreases rest.len() - index,
{
    let nodes = seq![first] + rest;
    if index < rest.len() {
        assert(nodes[index + 1] == rest[index]);
        if index + 1 < rest.len() {
            assert(nodes[index + 2] == rest[index + 1]);
        }
        match rest[index] {
            NodeView::Leaf { path, value: stored } => {},
            NodeView::Extension { path, child } => {
                lemma_walk_shift(
                    first,
                    rest,
                    index + 1,
                    remaining.subrange(path.len() as int, remaining.len() as int),
                    value,
                );
            },
            NodeView::Branch { children, value: stored } => {
                lemma_walk_shift(
                    first,
                    rest,
                    index + 1,
                    remaining.subrange(1, remaining.len() as int),
                    value,
                );
            },
        }
    }
}

/// Every key spells the common extension.
pub proof fn lemma_common_extension_at(entries: Seq<Entry>, start: int, i: int, j: int)
    requires
        0 <= start,
        0 <= i < entries.len(),
        0 <= j < common_extension(entries, start).len(),
    ensures
        start + j < entries[i].0.len(),
        entries[i].0[start + j] == common_extension(entries, start)[j],
    decreases j,
{
    let all = common_extension(entries, start);
    assert(agree_at(entries, start));
    let rest = common_extension(entries, start + 1);
    assert(all =~= seq![entries[0].0[start]] + rest);
    if j > 0 {
        lemma_common_extension_at(entries, start + 1, i, j - 1);
        assert(all[j] == rest[j - 1]);
    }
}

/// Beyond the common extension the keys part ways.
pub proof fn lemma_common_extension_maximal(entries: Seq<Entry>, start: int)
    requires
        0 <= start,
    ensures
        !agree_at(entries, start + common_extension(entries, start).len()),
    decreases
        (if entries.len() > 0 {
            entries[0].0.len() - start
        } else {
            0
        }),
{
    if agree_at(entries, start) {
        lemma_common_extension_maximal(entries, start + 1);
        assert(common_extension(entries, start) =~= seq![entries[0].0[start]] + common_extension(
            entries,
            start + 1,
        ));
    }
}

/// An entry that goes on with a nibble is among the entries below it.
pub proof fn lemma_subset_contains(entries: Seq<Entry>, depth: int, nib: u8, entry: Entry)
    requires
        entries.contains(entry),
        continues_with(entry.0, depth, nib),
    ensures
        subset(entries, depth, nib).contains(entry),
    decreases entries.len(),
{
    let i = choose|i: int| 0 <= i < entries.len() && entries[i] == entry;
    let front = entries.drop_last();
    let below = subset(entries, depth, nib);
    if i == entries.len() - 1 {
        assert(below[below.len() - 1] == entry);
    } else {
        assert(front[i] == entry);
        lemma_subset_contains(front, depth, nib, entry);
        let k = choose|k: int|
            0 <= k < subset(front, depth, nib).len() && subset(front, depth, nib)[k] == entry;
        assert(below[k] == entry);
    }
}

/// Where some entry does not go on with a nibble, fewer entries are below
/// the nibble than there are entries.
pub proof fn lemma_subset_strict(entries: Seq<Entry>, depth: int, nib: u8, i: int)
    requires
        0 <= i < entries.len(),
        !continues_with(entries[i].0, depth, nib),
    ensures
        subset(entries, depth, nib).len() < entries.len(),
    decreases entries.len(),
{
    let front = entries.drop_last();
    lemma_subset_len(front, depth, nib);
    if i < entries.len() - 1 {
        assert(front[i] == entries[i]);
        lemma_subset_strict(front, depth, nib, i);
    }
}

/// Entries below a nibble have different keys where the entries have.
pub proof fn lemma_subset_distinct(entries: Seq<Entry>, depth: int, nib: u8)
    requires
        distinct_keys(entries),
    ensures
        distinct_keys(subset(entries, depth, nib)),
    decreases entries.len(),
{
    if entries.len() > 0 {
        let front = entries.drop_last();
        assert forall|i: int, j: int| 0 <= i < j < front.len() implies (#[trigger] front[i]).0 != (
        #[trigger] front[j]).0 by {
            assert(entries[i].0 != entries[j].0);
        }
        lemma_subset_distinct(front, depth, nib);
        lemma_subset_elements(front, depth, nib);
        let below = subset(entries, depth, nib);
        let before = subset(front, depth, nib);
        assert forall|i: int, j: int| 0 <= i < j < below.len() implies (#[trigger] below[i]).0 != (
        #[trigger] below[j]).0 by {
            if j < before.len() {
                assert(before[i].0 != before[j].0);
            } else {
                assert(front.contains(before[i]));
                let k = choose|k: int| 0 <= k < front.len() && front[k] == before[i];
                assert(entries[k].0 != entries[entries.len() - 1].0);
            }
        }
    }
}

/// The child of a branch under a nibble is the child hash for that nibble.
pub proof fn lemma_branch_child(entries: Seq<Entry>, depth: int, nib: u8)
    requires
        nib < 16,
    ensures
        branch_of(entries, depth) matches NodeView::Branch { children, value } && children.len()
            == 16 && children[nib as int] == child_hash(entries, depth, nib),
{
    let children = branch_of(entries, depth)->Branch_children;
    if nib == 0 {
    } else if nib == 1 {
    } else if nib == 2 {
    } else if nib == 3 {
    } else if nib == 4 {
    } else if nib == 5 {
    } else if nib == 6 {
    } else if nib == 7 {
    } else if nib == 8 {
    } else if nib == 9 {
    } else if nib == 10 {
    } else if nib == 11 {
    } else if nib == 12 {
    } else if nib == 13 {
    } else if nib == 14 {
    } else {
        assert(nib == 15);
    }
}

/// Where keys of one length have different keys and share the whole key as
/// a prefix, there is at most one entry.
proof fn lemma_full_prefix_single(entries: Seq<Entry>, key: Seq<u8>)
    requires
        uniform(entries, key.len()),
        distinct_keys(entries),
        share_prefix(entries, key, key.len() as int),
    ensures
        entries.len() <= 1,
{
    if entries.len() >= 2 {
        assert(entries[0].0 =~= entries[0].0.subrange(0, key.len() as int));
        assert(entries[1].0 =~= entries[1].0.subrange(0, key.len() as int));
        assert(entries[0].0 != entries[1].0);
    }
}

/// From a branch at which the entries part ways, the path to a key of the
/// entries exists and leads to its value.
pub proof fn lemma_branch_complete(entries: Seq<Entry>, depth: int, key: Seq<u8>, value: Seq<u8>)
    requires
        entries.contains((key, value)),
        uniform(entries, key.len()),
        distinct_keys(entries),
        share_prefix(entries, key, depth),
        forall|i: int| 0 <= i < key.len() ==> #[trigger] key[i] < 16,
        depth < key.len(),
        !agree_at(entries, depth),
    ensures
        branch_path(entries, depth, key) matches Some(nodes) && nodes.len() > 0 && nodes[0]
            == branch_of(entries, depth) && walk(nodes, 0, key_tail(key, depth), value),
    decreases entries.len(), 0int,
{
    let nib = key[depth];
    let below = subset(entries, depth, nib);
    let node = branch_of(entries, depth);
    lemma_subset_contains(entries, depth, nib, (key, value));
    lemma_subset_len(entries, depth, nib);
    assert(entries.len() > 0);
    assert(entries[0].0.len() == key.len());
    let i = choose|i: int|
        0 <= i < entries.len() && !(depth < (#[trigger] entries[i]).0.len() && entries[i].0[depth]
            == entries[0].0[depth]);
    assert(entries[i].0.len() == key.len());
    if entries[0].0[depth] == nib {
        lemma_subset_strict(entries, depth, nib, i);
    } else {
        lemma_subset_strict(entries, depth, nib, 0);
    }
    lemma_subset_elements(entries, depth, nib);
    lemma_subset_distinct(entries, depth, nib);
    assert forall|k: int| 0 <= k < below.len() implies (#[trigger] below[k]).0.len() == key.len()
        && depth + 1 <= below[k].0.len() && below[k].0.subrange(0, depth + 1) == key.subrange(
        0,
        depth + 1,
    ) by {
        let e = below[k];
        assert(entries.contains(e));
        let j = choose|j: int| 0 <= j < entries.len() && entries[j] == e;
        assert(entries[j].0.subrange(0, depth) == key.subrange(0, depth));
        assert(e.0.subrange(0, depth + 1) =~= e.0.subrange(0, depth).push(e.0[depth]));
        assert(key.subrange(0, depth + 1) =~= key.subrange(0, depth).push(key[depth]));
    }
    lemma_path_complete(below, depth + 1, key, value);
    let rest = proof_path(below, depth + 1, key)->Some_0;
    lemma_branch_child(entries, depth, nib);
    let nodes = seq![node] + rest;
    assert(branch_path(entries, depth, key) == Some(nodes));
    let remaining = key_tail(key, depth);
    assert(remaining[0] == nib);
    assert(nodes[0] == node);
    assert(nodes[1] == rest[0]);
    assert(remaining.subrange(1, remaining.len() as int) =~= key_tail(key, depth + 1));
    lemma_walk_shift(node, rest, 0, key_tail(key, depth + 1), value);
}

/// From the node of the entries below `depth`, the path to a key of the
/// entries exists and leads to its value.
pub proof fn lemma_path_complete(entries: Seq<Entry>, depth: int, key: Seq<u8>, value: Seq<u8>)
    requires
        entries.contains((key, value)),
        uniform(entries, key.len()),
        distinct_keys(entries),
        share_prefix(entries, key, depth),
        forall|i: int| 0 <= i < key.len() ==> #[trigger] key[i] < 16,
    ensures
        proof_path(entries, depth, key) matches Some(nodes) && nodes.len() > 0 && Some(nodes[0])
            == trie_node(entries, depth) && walk(nodes, 0, key_tail(key, depth), value),
    decreases entries.len(), 1int,
{
    let found = choose|i: int| 0 <= i < entries.len() && entries[i] == (key, value);
    if entries.len() == 1 {
        assert(entries[0] == (key, value));
    } else {
        if depth == key.len() {
            lemma_full_prefix_single(entries, key);
        }
        assert(!has_exact(entries, depth)) by {
            if has_exact(entries, depth) {
                let i = choose|i: int|
                    0 <= i < entries.len() && (#[trigger] entries[i]).0.len() == depth;
            }
        }
        let extension = common_extension(entries, depth);
        lemma_common_extension_maximal(entries, depth);
        if extension.len() > 0 {
            let below = depth + extension.len();
            assert(below <= key.len()) by {
                lemma_common_extension_at(entries, depth, found, extension.len() - 1);
            }
            let remaining = key_tail(key, depth);
            assert(remaining.subrange(0, extension.len() as int) =~= extension) by {
                assert forall|j: int| 0 <= j < extension.len() implies remaining[j]
                    == extension[j] by {
                    lemma_common_extension_at(entries, depth, found, j);
                }
            }
            assert forall|i: int| 0 <= i < entries.len() implies below <= (
            #[trigger] entries[i]).0.len() && entries[i].0.subrange(0, below) == key.subrange(
                0,
                below,
            ) by {
                lemma_common_extension_at(entries, depth, i, extension.len() - 1);
                assert(entries[i].0.subrange(0, depth) == key.subrange(0, depth));
                assert forall|j: int| 0 <= j < below implies entries[i].0[j] == key[j] by {
                    if j < depth {
                        assert(entries[i].0.subrange(0, depth)[j] == key.subrange(0, depth)[j]);
                    } else {
                        lemma_common_extension_at(entries, depth, i, j - depth);
                        lemma_common_extension_at(entries, depth, found, j - depth);
                    }
                }
                assert(entries[i].0.subrange(0, below) =~= key.subrange(0, below));
            }
            if below == key.len() {
                lemma_full_prefix_single(entries, key);
            }
            lemma_branch_complete(entries, below, key, value);
            let rest = branch_path(entries, below, key)->Some_0;
            let node = NodeView::Extension {
                path: extension,
                child: node_hash(branch_of(entries, below)),
            };
            let nodes = seq![node] + rest;
            assert(trie_node(entries, depth) == Some(node));
            assert(proof_path(entries, depth, key) == Some(nodes));
            assert(nodes[0] == node);
            assert(nodes[1] == rest[0]);
            assert(remaining.subrange(extension.len() as int, remaining.len() as int) =~= key_tail(
                key,
                below,
            ));
            lemma_walk_shift(node, rest, 0, key_tail(key, below), value);
        } else {
            lemma_branch_complete(entries, depth, key, value);
        }
    }
}

/// Every key of a trie has a proof, and the proof verifies against the
/// root of the trie: for the entries `listed` of a mapping with 32-byte
/// keys, the path to a key of the mapping exists, begins at the root and
/// leads to the value of the key.
pub proof fn lemma_proof_complete(
    listed: Seq<(Seq<u8>, Seq<u8>)>,
    contents: Map<Seq<u8>, Seq<u8>>,
    key: Seq<u8>,
)
    requires
        lists(listed, contents),
        forall|i: int| 0 <= i < listed.len() ==> (#[trigger] listed[i]).0.len() == 32,
        contents.contains_key(key),
    ensures
        proof_path(trie_entries(contents), 0, nibbles(key)) matches Some(nodes) && proof_verifies(
            trie_root(contents),
            MerkleProofView { key, value: contents[key], nodes },
        ),
{
    lemma_listing_unique(listed, canonical_order(contents), contents);
    let entries = trie_entries(contents);
    let value = contents[key];
    let path = nibbles(key);
    let at = choose|i: int| 0 <= i < listed.len() && (#[trigger] listed[i]).0 == key;
    assert(contents[listed[at].0] == listed[at].1);
    assert(entries[at] == (path, value));
    lemma_nibbles_small(key);
    assert forall|i: int| 0 <= i < entries.len() implies (#[trigger] entries[i]).0.len()
        == path.len() by {
        lemma_nibbles_small(listed[i].0);
    }
    assert forall|i: int, j: int| 0 <= i < j < entries.len() implies (#[trigger] entries[i]).0 != (
    #[trigger] entries[j]).0 by {
        assert(bytes_lt(listed[i].0, listed[j].0));
        if entries[i].0 == entries[j].0 {
            lemma_nibbles_injective(listed[i].0, listed[j].0);
            lemma_lt_irreflexive(listed[i].0);
        }
    }
    assert forall|i: int| 0 <= i < entries.len() implies 0 <= (#[trigger] entries[i]).0.len()
        && entries[i].0.subrange(0, 0) == path.subrange(0, 0) by {
        assert(entries[i].0.subrange(0, 0) =~= path.subrange(0, 0));
    }
    lemma_path_complete(entries, 0, path, value);
    assert(key_tail(path, 0) =~= path);
}

/// The root of the trie that holds nothing is 32 zero bytes.
pub proof fn lemma_empty_trie_root()
    ensures
        trie_root(Map::<Seq<u8>, Seq<u8>>::empty()) == empty_root(),
{
    let none = Seq::<(Seq<u8>, Seq<u8>)>::empty();
    let contents = Map::<Seq<u8>, Seq<u8>>::empty();
    assert(lists(none, contents));
    lemma_listing_unique(none, canonical_order(contents), contents);
    assert(nibble_entries(none) =~= Seq::<Entry>::empty());
}

/// No node hashes like a node of the list without being that node.
pub open spec fn collision_free(nodes: Seq<NodeView>) -> bool {
    forall|node: NodeView, i: int|
        #![trigger node_hash(node), nodes[i]]
        0 <= i < nodes.len() && node_hash(node) == node_hash(nodes[i]) ==> node == nodes[i]
}

/// A key that shares its first `depth` nibbles with another key of the
/// same length, and the rest too, is that key.
proof fn lemma_same_key(a: Seq<u8>, b: Seq<u8>, depth: int)
    requires
        a.len() == b.len(),
        0 <= depth <= a.len(),
        a.subrange(0, depth) == b.subrange(0, depth),
        key_tail(a, depth) == key_tail(b, depth),
    ensures
        a == b,
{
    assert(a =~= a.subrange(0, depth) + key_tail(a, depth));
    assert(b =~= b.subrange(0, depth) + key_tail(b, depth));
}

/// Where the nodes from a branch of the entries on lead along a key to a
/// value, the entries hold the value under the key.
pub proof fn lemma_branch_sound(
    entries: Seq<Entry>,
    depth: int,
    key: Seq<u8>,
    value: Seq<u8>,
    nodes: Seq<NodeView>,
    index: int,
)
    requires
        uniform(entries, key.len()),
        distinct_keys(entries),
        share_prefix(entries, key, depth),
        depth < key.len(),
        0 <= index < nodes.len(),
        nodes[index] == branch_of(entries, depth),
        walk(nodes, index, key_tail(key, depth), value),
        collision_free(nodes),
    ensures
        entries.contains((key, value)),
    decreases entries.len(), 0int,
{
    let remaining = key_tail(key, depth);
    let nib = key[depth];
    assert(remaining[0] == nib);
    let children = branch_of(entries, depth)->Branch_children;
    assert(children.len() == 16);
    lemma_branch_child(entries, depth, nib);
    let below = subset(entries, depth, nib);
    let next = trie_node(below, depth + 1)->Some_0;
    assert(trie_node(below, depth + 1) == Some(next));
    assert(node_hash(next) == node_hash(nodes[index + 1]));
    assert(next == nodes[index + 1]);
    assert(remaining.subrange(1, remaining.len() as int) =~= key_tail(key, depth + 1));
    lemma_subset_elements(entries, depth, nib);
    lemma_subset_distinct(entries, depth, nib);
    assert forall|k: int| 0 <= k < below.len() implies (#[trigger] below[k]).0.len() == key.len()
        && depth + 1 <= below[k].0.len() && below[k].0.subrange(0, depth + 1) == key.subrange(
        0,
        depth + 1,
    ) by {
        let e = below[k];
        assert(entries.contains(e));
        let j = choose|j: int| 0 <= j < entries.len() && entries[j] == e;
        assert(entries[j].0.subrange(0, depth) == key.subrange(0, depth));
        assert(e.0.subrange(0, depth + 1) =~= e.0.subrange(0, depth).push(e.0[depth]));
        assert(key.subrange(0, depth + 1) =~= key.subrange(0, depth).push(key[depth]));
    }
    lemma_walk_sound(below, depth + 1, key, value, nodes, index + 1);
    let found = choose|k: int| 0 <= k < below.len() && below[k] == (key, value);
    assert(entries.contains(below[found]));
}

/// Where the nodes from the node of the entries on lead along a key to a
/// value, the entries hold the value under the key.
pub proof fn lemma_walk_sound(
    entries: Seq<Entry>,
    depth: int,
    key: Seq<u8>,
    value: Seq<u8>,
    nodes: Seq<NodeView>,
    index: int,
)
    requires
        uniform(entries, key.len()),
        distinct_keys(entries),
        share_prefix(entries, key, depth),
        0 <= index < nodes.len(),
        trie_node(entries, depth) == Some(nodes[index]),
        walk(nodes, index, key_tail(key, depth), value),
        collision_free(nodes),
    ensures
        entries.contains((key, value)),
    decreases entries.len(), 1int,
{
    if entries.len() == 1 {
        lemma_same_key(entries[0].0, key, depth);
        assert(entries[0] == (key, value));
    } else {
        if depth == key.len() {
            lemma_full_prefix_single(entries, key);
        }
        assert(!has_exact(entries, depth)) by {
            if has_exact(entries, depth) {
                let i = choose|i: int|
                    0 <= i < entries.len() && (#[trigger] entries[i]).0.len() == depth;
            }
        }
        let extension = common_extension(entries, depth);
        lemma_common_extension_maximal(entries, depth);
        if extension.len() > 0 {
            let below = depth + extension.len();
            let remaining = key_tail(key, depth);
            assert(branch_of(entries, below) == nodes[index + 1]);
            assert forall|i: int| 0 <= i < entries.len() implies below <= (
            #[trigger] entries[i]).0.len() && entries[i].0.subrange(0, below) == key.subrange(
                0,
                below,
            ) by {
                lemma_common_extension_at(entries, depth, i, extension.len() - 1);
                assert(entries[i].0.subrange(0, depth) == key.subrange(0, depth));
                assert forall|j: int| 0 <= j < below implies entries[i].0[j] == key[j] by {
                    if j < depth {
                        assert(entries[i].0.subrange(0, depth)[j] == key.subrange(0, depth)[j]);
                    } else {
                        lemma_common_extension_at(entries, depth, i, j - depth);
                        assert(remaining.subrange(0, extension.len() as int)[j - depth]
                            == extension[j - depth]);
                    }
                }
                assert(entries[i].0.subrange(0, below) =~= key.subrange(0, below));
            }
            if below == key.len() {
                lemma_full_prefix_single(entries, key);
            }
            assert(remaining.subrange(extension.len() as int, remaining.len() as int) =~= key_tail(
                key,
                below,
            ));
            lemma_branch_sound(entries, below, key, value, nodes, index + 1);
        } else {
            lemma_branch_sound(entries, depth, key, value, nodes, index);
        }
    }
}

/// A proof that verifies against the root of a trie shows what the trie
/// holds: its key is in the trie, with its value. This holds unless a node
/// of the proof hashes like another node, or like the empty trie: where
/// the hash function has such collisions, a proof can verify for what the
/// trie does not hold.
pub proof fn lemma_proof_sound(
    listed: Seq<(Seq<u8>, Seq<u8>)>,
    contents: Map<Seq<u8>, Seq<u8>>,
    shown: MerkleProofView,
)
    requires
        lists(listed, contents),
        forall|i: int| 0 <= i < listed.len() ==> (#[trigger] listed[i]).0.len() == 32,
        shown.key.len() == 32,
        proof_verifies(trie_root(contents), shown),
        collision_free(shown.nodes),
        node_hash(shown.nodes[0]) != empty_root(),
    ensures
        contents.contains_key(shown.key),
        contents[shown.key] == shown.value,
{
    lemma_listing_unique(listed, canonical_order(contents), contents);
    let entries = trie_entries(contents);
    let path = nibbles(shown.key);
    lemma_nibbles_small(shown.key);
    assert forall|i: int| 0 <= i < entries.len() implies (#[trigger] entries[i]).0.len()
        == path.len() by {
        lemma_nibbles_small(listed[i].0);
    }
    assert forall|i: int, j: int| 0 <= i < j < entries.len() implies (#[trigger] entries[i]).0 != (
    #[trigger] entries[j]).0 by {
        assert(bytes_lt(listed[i].0, listed[j].0));
        if entries[i].0 == entries[j].0 {
            lemma_nibbles_injective(listed[i].0, listed[j].0);
            lemma_lt_irreflexive(listed[i].0);
        }
    }
    assert forall|i: int| 0 <= i < entries.len() implies 0 <= (#[trigger] entries[i]).0.len()
        && entries[i].0.subrange(0, 0) == path.subrange(0, 0) by {
        assert(entries[i].0.subrange(0, 0) =~= path.subrange(0, 0));
    }
    let top = trie_node(entries, 0)->Some_0;
    assert(trie_node(entries, 0) == Some(top));
    assert(top == shown.nodes[0]);
    assert(key_tail(path, 0) =~= path);
    lemma_walk_sound(entries, 0, path, shown.value, shown.nodes, 0);
    let at = choose|i: int| 0 <= i < entries.len() && entries[i] == (path, shown.value);
    lemma_nibbles_injective(listed[at].0, shown.key);
    assert(contents.contains_key(listed[at].0));
}

/// The root of a trie does not depend on the order in which its entries
/// were inserted.
pub proof fn lemma_root_ignores_insertion_order(
    contents: Map<Seq<u8>, Seq<u8>>,
    first_key: Seq<u8>,
    first_value: Seq<u8>,
    second_key: Seq<u8>,
    second_value: Seq<u8>,
)
    requires
        first_key != second_key,
    ensures
        trie_root(contents.insert(first_key, first_value).insert(second_key, second_value))
            == trie_root(contents.insert(second_key, second_value).insert(first_key, first_value)),
{
    assert(contents.insert(first_key, first_value).insert(second_key, second_value)
        =~= contents.insert(second_key, second_value).insert(first_key, first_value));
}

} // verus!
