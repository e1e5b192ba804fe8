use ed25519_dalek::{Signer, SigningKey};
use lumina_core::consensus::{ConsensusService, LuminaApp};
use lumina_core::instruction::{AssetType, StablecoinInstruction};
use lumina_core::merkle::MerklePatriciaTrie;
use lumina_core::state::GlobalState;
use lumina_core::transaction::Transaction;

fn signed(key: &SigningKey, nonce: u64, instruction: StablecoinInstruction) -> Transaction {
    let mut tx = Transaction {
        sender: key.verifying_key().to_bytes(),
        nonce,
        instruction,
        signature: vec![],
        gas_limit: 1000,
        gas_price: 1,
    };
    tx.signature = key.sign(&tx.signing_bytes()).to_bytes().to_vec();
    tx
}

fn stream(a: &SigningKey, b: &SigningKey) -> Vec<Transaction> {
    let to_b = b.verifying_key().to_bytes();
    vec![
        signed(a, 0, StablecoinInstruction::MintSenior { amount: 1000, collateral_amount: 1200, proof: vec![] }),
        signed(a, 1, StablecoinInstruction::Transfer { to: to_b, amount: 200, asset: AssetType::LUSD }),
        signed(b, 5, StablecoinInstruction::RedeemSenior { amount: 1 }),
        signed(b, 0, StablecoinInstruction::RedeemSenior { amount: 200 }),
        signed(a, 2, StablecoinInstruction::Transfer { to: to_b, amount: 10_000, asset: AssetType::LUSD }),
    ]
}

#[test]
fn empty_mempool_tick_does_nothing() {
    let mut service = ConsensusService::new();
    let mut state = GlobalState::default();
    assert!(service.tick(&mut state, 100).is_none());
    assert_eq!(service.height, 1);
    assert_eq!(service.prev_hash, [0u8; 32]);
    assert_eq!(state.root_hash(), [0u8; 32]);
}

#[test]
fn tick_builds_a_block_of_the_accepted_transactions() {
    let a = SigningKey::from_bytes(&[1u8; 32]);
    let b = SigningKey::from_bytes(&[2u8; 32]);
    let mut service = ConsensusService::new();
    service.proposer = [7u8; 32];
    let mut state = GlobalState::default();
    for tx in stream(&a, &b) {
        service.submit(tx);
    }
    assert_eq!(service.mempool.len(), 5);

    let block = service.tick(&mut state, 1234).expect("a block");
    assert_eq!(service.mempool.len(), 0);
    assert_eq!(block.transactions.len(), 3);
    assert_eq!(block.votes.len(), 0);
    assert_eq!(block.transactions[0].nonce, 0);
    assert_eq!(block.transactions[1].nonce, 1);
    assert_eq!(block.transactions[2].sender, b.verifying_key().to_bytes());
    assert_eq!(block.header.height, 1);
    assert_eq!(block.header.prev_hash, [0u8; 32]);
    assert_eq!(block.header.timestamp, 1234);
    assert_eq!(block.header.proposer, [7u8; 32]);
    assert_eq!(block.header.state_root, state.root_hash());
    assert_eq!(state.total_lusd_supply, 750);

    let mut ids = MerklePatriciaTrie::new();
    for (i, tx) in block.transactions.iter().enumerate() {
        let mut key = [0u8; 32];
        key[..8].copy_from_slice(&(i as u64).to_le_bytes());
        ids.insert(key, tx.id().to_vec());
    }
    assert_eq!(block.header.transactions_root, ids.root_hash());

    assert_eq!(service.height, 2);
    assert_eq!(service.prev_hash, block.hash());

    service.submit(signed(&a, 2, StablecoinInstruction::TriggerStabilizer));
    let next = service.tick(&mut state, 1240).expect("a block");
    assert_eq!(next.header.height, 2);
    assert_eq!(next.header.prev_hash, block.hash());
    assert_eq!(service.height, 3);
}

#[test]
fn tick_without_an_accepted_transaction_builds_no_block() {
    let a = SigningKey::from_bytes(&[1u8; 32]);
    let mut service = ConsensusService::new();
    let mut state = GlobalState::default();
    service.submit(signed(&a, 9, StablecoinInstruction::TriggerStabilizer));
    service.submit(signed(&a, 0, StablecoinInstruction::RedeemSenior { amount: 5 }));
    assert!(service.tick(&mut state, 100).is_none());
    assert_eq!(service.mempool.len(), 0);
    assert_eq!(service.height, 1);
    assert_eq!(state.accounts.len(), 0);
}

#[test]
fn two_executors_agree_at_every_height() {
    let a = SigningKey::from_bytes(&[1u8; 32]);
    let b = SigningKey::from_bytes(&[2u8; 32]);
    let mut first = (ConsensusService::new(), GlobalState::default());
    let mut second = (ConsensusService::new(), GlobalState::default());
    let batches: Vec<Vec<usize>> = vec![vec![0, 1], vec![2, 3], vec![4]];
    for (round, batch) in batches.iter().enumerate() {
        for replica in [&mut first, &mut second] {
            let all = stream(&a, &b);
            for (i, tx) in all.into_iter().enumerate() {
                if batch.contains(&i) {
                    replica.0.submit(tx);
                }
            }
        }
        let one = first.0.tick(&mut first.1, 100 + round as u64);
        let two = second.0.tick(&mut second.1, 100 + round as u64);
        assert_eq!(one.is_some(), two.is_some());
        if let (Some(x), Some(y)) = (one, two) {
            assert_eq!(x.header.state_root, y.header.state_root);
            assert_eq!(x.hash(), y.hash());
            assert_eq!(x.to_bytes(), y.to_bytes());
        }
        assert_eq!(first.1.root_hash(), second.1.root_hash());
        assert_eq!(first.0.prev_hash, second.0.prev_hash);
    }
    assert_eq!(first.0.height, 3);
}

#[test]
fn application_applies_what_decodes_and_is_accepted() {
    let a = SigningKey::from_bytes(&[1u8; 32]);
    let b = SigningKey::from_bytes(&[2u8; 32]);
    let mut app = LuminaApp::new(GlobalState::default());
    assert_eq!(app.height, 0);

    let mut encoded: Vec<Vec<u8>> = stream(&a, &b).iter().map(|tx| tx.to_bytes()).collect();
    encoded.insert(1, vec![1, 2, 3]);
    assert!(app.check_tx(&encoded[0]));
    assert!(!app.check_tx(&encoded[1]));
    assert!(!app.check_tx(&[]));

    let root = app.apply_block(&encoded, 1234);
    assert_eq!(app.height, 1);
    assert_eq!(root, app.state.root_hash());
    assert_eq!(app.state.total_lusd_supply, 750);

    let mut service = ConsensusService::new();
    let mut state = GlobalState::default();
    for tx in stream(&a, &b) {
        service.submit(tx);
    }
    let block = service.tick(&mut state, 1234).expect("a block");
    assert_eq!(block.header.state_root, root);

    let empty_block_root = app.apply_block(&Vec::new(), 1240);
    assert_eq!(app.height, 2);
    assert_eq!(empty_block_root, root);
}
