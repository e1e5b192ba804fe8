//! Building the nodes of the trie from its entries.

use vstd::prelude::*;
use vstd::slice::slice_subrange;
use crate::byte_order::copy_bytes;
use crate::trie_node::{
    agree_at, branch_of, child_hash, child_views, common_extension, continues_with, Entry,
    entry_views, exact_value, has_exact, hash_proof_node, node_hash, ProofNode, subset, trie_node,
};
use crate::views::{optional_bytes, optional_hash};

verus! {

/// A node together with its hash.
#[derive(Clone, Debug)]
pub struct HashedNode {
    pub hash: [u8; 32],
    pub node: ProofNode,
}

impl HashedNode {
    /// The hash is the hash of the node.
    pub open spec fn consistent(&self) -> bool {
        self.hash@ == node_hash(self.node@)
    }
}

/// Whether all keys have a nibble at `index`, the one that the first key
/// has.
fn all_agree(entries: &Vec<(Vec<u8>, Vec<u8>)>, index: usize) -> (agree: bool)
    ensures
        agree == agree_at(entry_views(entries@), index as int),
{
    let ghost views = entry_views(entries@);
    if entries.len() == 0 || index >= entries[0].0.len() {
        return false;
    }
    let first = entries[0].0[index];
    let mut i: usize = 0;
    while i < entries.len()
        invariant
            i <= entries.len(),
            views == entry_views(entries@),
            entries@.len() > 0,
            index < entries@[0].0@.len(),
            first == entries@[0].0@[index as int],
            forall|j: int|
                0 <= j < i ==> index < (#[trigger] views[j]).0.len() && views[j].0[index as int]
                    == first,
        decreases entries.len() - i,
    {
        if index >= entries[i].0.len() || entries[i].0[index] != first {
            assert(views[i as int].0 == entries@[i as int].0@);
            return false;
        }
        assert(views[i as int].0 == entries@[i as int].0@);
        i += 1;
    }
    true
}

/// The longest string of nibbles with which all keys go on from `start`.
pub fn longest_common_extension(entries: &Vec<(Vec<u8>, Vec<u8>)>, start: usize) -> (out: Vec<u8>)
    ensures
        out@ == common_extension(entry_views(entries@), start as int),
        out@.len() > 0 ==> entries@.len() > 0 && start + out@.len() <= entries@[0].0@.len(),
{
    let ghost views = entry_views(entries@);
    let mut out: Vec<u8> = Vec::new();
    let mut index: usize = start;
    loop
        invariant
            views == entry_views(entries@),
            index == start + out@.len(),
            out@.len() > 0 ==> entries@.len() > 0 && index <= entries@[0].0@.len(),
            common_extension(views, start as int) == out@ + common_extension(views, index as int),
        ensures
            out@ == common_extension(views, start as int),
            out@.len() > 0 ==> entries@.len() > 0 && start + out@.len() <= entries@[0].0@.len(),
        decreases
                (if entries@.len() > 0 {
                    entries@[0].0@.len() - index
                } else {
                    0
                }) + (if agree_at(views, index as int) {
                    1int
                } else {
                    0int
                }),
    {
        if !all_agree(entries, index) {
            assert(out@ + Seq::<u8>::empty() =~= out@);
            break ;
        }
        let nibble = entries[0].0[index];
        let limit = entries[0].0.len();
        proof {
            assert(views[0].0 == entries@[0].0@);
            assert(index < limit);
            assert(out@.push(nibble) + common_extension(views, index + 1) =~= out@ + (seq![nibble]
                + common_extension(views, index + 1)));
        }
        out.push(nibble);
        index += 1;
    }
    out
}

/// The entries whose keys go on with `nib` at `depth`, copied in their
/// order.
pub fn collect_subset(entries: &Vec<(Vec<u8>, Vec<u8>)>, depth: usize, nib: u8) -> (out: Vec<
    (Vec<u8>, Vec<u8>),
>)
    ensures
        entry_views(out@) == subset(entry_views(entries@), depth as int, nib),
{
    let ghost views = entry_views(entries@);
    let mut out: Vec<(Vec<u8>, Vec<u8>)> = Vec::new();
    let mut i: usize = 0;
    assert(views.subrange(0, 0) =~= Seq::empty());
    assert(entry_views(out@) =~= Seq::empty());
    while i < entries.len()
        invariant
            i <= entries.len(),
            views == entry_views(entries@),
            entry_views(out@) == subset(views.subrange(0, i as int), depth as int, nib),
        decreases entries.len() - i,
    {
        proof {
            let grown = views.subrange(0, i + 1);
            assert(grown.drop_last() =~= views.subrange(0, i as int));
            assert(grown.last() == views[i as int]);
            assert(views[i as int].0 == entries@[i as int].0@);
        }
        let key = &entries[i].0;
        if depth < key.len() && key[depth] == nib {
            let entry = (copy_bytes(key.as_slice()), copy_bytes(entries[i].1.as_slice()));
            proof {
                assert(entry_views(out@.push(entry)) =~= entry_views(out@).push(views[i as int]));
            }
            out.push(entry);
        }
        i += 1;
    }
    assert(views.subrange(0, i as int) =~= views);
    out
}

/// Whether some key ends at `depth`.
fn some_key_ends(entries: &Vec<(Vec<u8>, Vec<u8>)>, depth: usize) -> (found: bool)
    ensures
        found == has_exact(entry_views(entries@), depth as int),
{
    let ghost views = entry_views(entries@);
    let mut i: usize = 0;
    while i < entries.len()
        invariant
            i <= entries.len(),
            views == entry_views(entries@),
            forall|j: int| 0 <= j < i ==> (#[trigger] views[j]).0.len() != depth,
        decreases entries.len() - i,
    {
        assert(views[i as int].0 == entries@[i as int].0@);
        if entries[i].0.len() == depth {
            return true;
        }
        i += 1;
    }
    false
}

/// Unfolds the search for the key that ends at `depth` by one step.
proof fn lemma_exact_value_step(entries: Seq<Entry>, depth: int, i: int)
    requires
        0 <= i < entries.len(),
        entries[i].0.len() != depth,
    ensures
        exact_value(entries.subrange(i, entries.len() as int), depth) == exact_value(
            entries.subrange(i + 1, entries.len() as int),
            depth,
        ),
{
    let tail = entries.subrange(i, entries.len() as int);
    assert(tail.subrange(1, tail.len() as int) =~= entries.subrange(i + 1, entries.len() as int));
}

/// The value of the first entry whose key ends at `depth`.
fn value_ending_at(entries: &Vec<(Vec<u8>, Vec<u8>)>, depth: usize) -> (value: Option<Vec<u8>>)
    ensures
        optional_bytes(value) == exact_value(entry_views(entries@), depth as int),
{
    let ghost views = entry_views(entries@);
    let mut i: usize = 0;
    assert(views.subrange(0, views.len() as int) =~= views);
    while i < entries.len()
        invariant
            i <= entries.len(),
            views == entry_views(entries@),
            exact_value(views, depth as int) == exact_value(
                views.subrange(i as int, views.len() as int),
                depth as int,
            ),
        decreases entries.len() - i,
    {
        assert(views[i as int] == (entries@[i as int].0@, entries@[i as int].1@));
        if entries[i].0.len() == depth {
            return Some(copy_bytes(entries[i].1.as_slice()));
        }
        proof {
            lemma_exact_value_step(views, depth as int, i as int);
        }
        i += 1;
    }
    None
}

/// Every entry that goes on with a nibble is an entry, and goes on with
/// that nibble.
pub proof fn lemma_subset_elements(entries: Seq<Entry>, depth: int, nib: u8)
    ensures
        forall|k: int|
            0 <= k < subset(entries, depth, nib).len() ==> continues_with(
                (#[trigger] subset(entries, depth, nib)[k]).0,
                depth,
                nib,
            ) && entries.contains(subset(entries, depth, nib)[k]),
    decreases entries.len(),
{
    if entries.len() > 0 {
        let front = entries.drop_last();
        lemma_subset_elements(front, depth, nib);
        let below = subset(entries, depth, nib);
        assert forall|k: int| 0 <= k < below.len() implies continues_with(
            (#[trigger] below[k]).0,
            depth,
            nib,
        ) && entries.contains(below[k]) by {
            if k < subset(front, depth, nib).len() {
                let e = subset(front, depth, nib)[k];
                assert(front.contains(e));
                let i = choose|i: int| 0 <= i < front.len() && front[i] == e;
                assert(entries[i] == e);
            } else {
                assert(below[k] == entries.last());
                assert(entries[entries.len() - 1] == entries.last());
            }
        }
    }
}

/// Builds the branch that the entries stand for at `depth`.
pub fn build_branch(entries: &Vec<(Vec<u8>, Vec<u8>)>, depth: usize) -> (built: HashedNode)
    ensures
        built.node@ == branch_of(entry_views(entries@), depth as int),
        built.consistent(),
    decreases entries@.len(), 1int,
{
    let ghost views = entry_views(entries@);
    let mut children: [Option<[u8; 32]>; 16] = [None; 16];
    let mut nib: u8 = 0;
    while nib < 16
        invariant
            nib <= 16,
            views == entry_views(entries@),
            forall|j: int|
                0 <= j < nib ==> optional_hash(#[trigger] children@[j]) == child_hash(
                    views,
                    depth as int,
                    j as u8,
                ),
        decreases 16 - nib,
    {
        let below = collect_subset(entries, depth, nib);
        let mut child: Option<[u8; 32]> = None;
        if below.len() > 0 && below.len() < entries.len() {
            proof {
                lemma_subset_elements(views, depth as int, nib);
                assert(continues_with(entry_views(below@)[0].0, depth as int, nib));
                assert(entry_views(below@)[0].0 == below@[0].0@);
            }
            let limit = below[0].0.len();
            assert(depth < limit);
            match build_hashed_node(&below, depth + 1) {
                Some(node) => {
                    child = Some(node.hash);
                },
                None => {},
            }
        }
        children[nib as usize] = child;
        nib += 1;
    }
    let value = value_ending_at(entries, depth);
    let node = ProofNode::Branch { children, value };
    proof {
        let expected = branch_of(views, depth as int);
        assert(child_views(children@) =~= expected->Branch_children);
    }
    let hash = hash_proof_node(&node);
    HashedNode { hash, node }
}

/// Builds the node that the entries stand for below `depth`: nothing for no
/// entry, a leaf for one, an extension where all keys go on alike, else a
/// branch.
pub fn build_hashed_node(entries: &Vec<(Vec<u8>, Vec<u8>)>, depth: usize) -> (built: Option<
    HashedNode,
>)
    ensures
        match built {
            Some(node) => trie_node(entry_views(entries@), depth as int) == Some(node.node@)
                && node.consistent(),
            None => trie_node(entry_views(entries@), depth as int) is None,
        },
    decreases entries@.len(), 2int,
{
    let ghost views = entry_views(entries@);
    if entries.len() == 0 {
        return None;
    }
    if entries.len() == 1 {
        let key = &entries[0].0;
        assert(views[0] == (entries@[0].0@, entries@[0].1@));
        let path = if depth <= key.len() {
            copy_bytes(slice_subrange(key.as_slice(), depth, key.len()))
        } else {
            Vec::new()
        };
        let node = ProofNode::Leaf { path, value: copy_bytes(entries[0].1.as_slice()) };
        let hash = hash_proof_node(&node);
        return Some(HashedNode { hash, node });
    }
    let extension = if some_key_ends(entries, depth) {
        Vec::new()
    } else {
        longest_common_extension(entries, depth)
    };
    if extension.len() > 0 {
        let limit = entries[0].0.len();
        assert(depth + extension@.len() <= limit);
        let below = build_branch(entries, depth + extension.len());
        let node = ProofNode::Extension { path: extension, child: below.hash };
        let hash = hash_proof_node(&node);
        return Some(HashedNode { hash, node });
    }
    Some(build_branch(entries, depth))
}

} // verus!
