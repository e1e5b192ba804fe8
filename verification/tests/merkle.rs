use lumina_core::merkle::{MerklePatriciaTrie, MerkleProof};
use lumina_core::trie_node::ProofNode;

#[test]
fn test_mpt_insert_update_get_delete() {
    let mut trie = MerklePatriciaTrie::new();
    let key = [1u8; 32];

    trie.insert(key, b"hello".to_vec());
    assert_eq!(trie.get(&key), Some(b"hello".to_vec()));

    let before = trie.root_hash();
    trie.insert(key, b"world".to_vec());
    assert_eq!(trie.get(&key), Some(b"world".to_vec()));
    assert_ne!(before, trie.root_hash());

    trie.delete(&key);
    assert_eq!(trie.get(&key), None);
}

#[test]
fn test_deterministic_root() {
    let mut trie1 = MerklePatriciaTrie::new();
    trie1.insert([1u8; 32], b"a".to_vec());
    trie1.insert([2u8; 32], b"b".to_vec());

    let mut trie2 = MerklePatriciaTrie::new();
    trie2.insert([2u8; 32], b"b".to_vec());
    trie2.insert([1u8; 32], b"a".to_vec());

    assert_eq!(trie1.root_hash(), trie2.root_hash());
}

#[test]
fn test_proof_generation_and_verification() {
    let mut trie = MerklePatriciaTrie::new();
    let key = [3u8; 32];
    trie.insert(key, b"proof_data".to_vec());

    let proof = trie.prove(&key).expect("proof exists");
    assert!(MerklePatriciaTrie::verify_proof(trie.root_hash(), &proof));
}

#[test]
fn empty_trie_root_is_all_zeros() {
    let trie = MerklePatriciaTrie::new();
    assert_eq!(trie.root_hash(), [0u8; 32]);
}

#[test]
fn roots_are_equal_and_not_zero_whatever_the_order() {
    let mut first = MerklePatriciaTrie::new();
    first.insert([1u8; 32], b"a".to_vec());
    first.insert([2u8; 32], b"b".to_vec());
    let mut second = MerklePatriciaTrie::new();
    second.insert([2u8; 32], b"b".to_vec());
    second.insert([1u8; 32], b"a".to_vec());
    assert_eq!(first.root_hash(), second.root_hash());
    assert_ne!(first.root_hash(), [0u8; 32]);
}

#[test]
fn single_leaf_root_is_hash_of_bincode_layout() {
    let mut trie = MerklePatriciaTrie::new();
    let key = [3u8; 32];
    trie.insert(key, b"proof_data".to_vec());
    let mut path = Vec::new();
    for b in key.iter() {
        path.push(b >> 4);
        path.push(b & 0x0f);
    }
    let encoded = bincode::serialize(&(0u32, path, b"proof_data".to_vec())).unwrap();
    assert_eq!(trie.root_hash(), *blake3::hash(&encoded).as_bytes());
}

#[test]
fn tampered_proofs_fail() {
    let mut trie = MerklePatriciaTrie::new();
    let key = [3u8; 32];
    trie.insert(key, b"proof_data".to_vec());
    trie.insert([4u8; 32], b"other".to_vec());
    trie.insert([0x35u8; 32], b"third".to_vec());
    let root = trie.root_hash();
    let proof = trie.prove(&key).expect("proof exists");
    assert!(MerklePatriciaTrie::verify_proof(root, &proof));
    assert!(proof.nodes.len() >= 2);

    for i in 0..proof.value.len() {
        let mut value = proof.value.clone();
        value[i] ^= 1;
        let tampered = MerkleProof { key, value, nodes: copy_nodes(&proof.nodes) };
        assert!(!MerklePatriciaTrie::verify_proof(root, &tampered));
    }

    let mut nodes = copy_nodes(&proof.nodes);
    let mut changed = false;
    for node in nodes.iter_mut() {
        match node {
            ProofNode::Branch { children, .. } => {
                for child in children.iter_mut() {
                    if let Some(hash) = child {
                        hash[0] ^= 1;
                        changed = true;
                    }
                }
            }
            ProofNode::Extension { child, .. } => {
                child[0] ^= 1;
                changed = true;
            }
            ProofNode::Leaf { .. } => {}
        }
    }
    assert!(changed);
    let tampered = MerkleProof { key, value: proof.value.clone(), nodes };
    assert!(!MerklePatriciaTrie::verify_proof(root, &tampered));

    let wrong_root = [9u8; 32];
    assert!(!MerklePatriciaTrie::verify_proof(wrong_root, &proof));
}

#[test]
fn absent_keys_have_no_proof() {
    let mut trie = MerklePatriciaTrie::new();
    trie.insert([3u8; 32], b"proof_data".to_vec());
    assert!(trie.prove(&[5u8; 32]).is_none());
    let empty = MerklePatriciaTrie::new();
    assert!(empty.prove(&[3u8; 32]).is_none());
}

#[test]
fn every_key_of_a_larger_trie_proves() {
    let mut trie = MerklePatriciaTrie::new();
    let mut keys = Vec::new();
    for i in 0..40u8 {
        let mut key = [0u8; 32];
        key[0] = i.wrapping_mul(37);
        key[1] = i;
        key[31] = 255 - i;
        keys.push(key);
        trie.insert(key, vec![i; (i as usize) % 5]);
    }
    let root = trie.root_hash();
    for (i, key) in keys.iter().enumerate() {
        let proof = trie.prove(key).expect("proof exists");
        assert_eq!(proof.value, vec![i as u8; i % 5]);
        assert!(MerklePatriciaTrie::verify_proof(root, &proof));
    }
}

fn copy_nodes(nodes: &[ProofNode]) -> Vec<ProofNode> {
    nodes
        .iter()
        .map(|node| match node {
            ProofNode::Leaf { path, value } => ProofNode::Leaf { path: path.clone(), value: value.clone() },
            ProofNode::Extension { path, child } => ProofNode::Extension { path: path.clone(), child: *child },
            ProofNode::Branch { children, value } => ProofNode::Branch { children: *children, value: value.clone() },
        })
        .collect()
}
