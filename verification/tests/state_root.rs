use lumina_core::genesis::{allocate, build_genesis};
use lumina_core::execution::ExecutionError;
use lumina_core::merkle::{state_root_from_global_state, MerklePatriciaTrie};
use lumina_core::state::{AccountState, GlobalState};

#[test]
fn test_global_state_root_matches_trie() {
    let mut state = GlobalState::default();
    let mut account = AccountState::default();
    account.lusd_balance = 42;
    state.accounts.insert([9u8; 32], account);

    let trie = MerklePatriciaTrie::from_global_state(&state);
    assert_eq!(state.root_hash(), trie.root_hash());
    assert_eq!(state_root_from_global_state(&state), state.root_hash());
}

#[test]
fn state_root_does_not_depend_on_insertion_order() {
    let mut first = GlobalState::default();
    let mut second = GlobalState::default();
    for i in 0..20u8 {
        first.accounts.insert([i; 32], AccountState { lusd_balance: i as u64, ..Default::default() });
    }
    for i in (0..20u8).rev() {
        second.accounts.insert([i; 32], AccountState { lusd_balance: i as u64, ..Default::default() });
    }
    assert_eq!(first.root_hash(), second.root_hash());
    assert_ne!(first.root_hash(), [0u8; 32]);
    assert_eq!(GlobalState::default().root_hash(), [0u8; 32]);
}

#[test]
fn state_root_is_the_trie_of_account_encodings() {
    let mut state = GlobalState::default();
    let account = AccountState {
        nonce: 3,
        lusd_balance: 42,
        ljun_balance: 1,
        lumina_balance: 2,
        commitment: Some([8u8; 32]),
        passkey_device_key: Some(vec![1, 2, 3]),
        guardians: vec![[4u8; 32]],
        pq_pubkey: None,
        epoch_tx_volume: 5,
        last_reward_epoch: 6,
        credit_score: 700,
        active_streams: vec![],
        yield_positions: vec![],
    };
    let expected = bincode::serialize(&(
        (3u64, 42u64, 1u64, 2u64),
        (Some([8u8; 32]), Some(vec![1u8, 2, 3]), vec![[4u8; 32]], None::<Vec<u8>>),
        (5u64, 6u64, 700u16, Vec::<u64>::new(), Vec::<u64>::new()),
    ))
    .unwrap();
    state.accounts.insert([9u8; 32], account);
    let mut trie = MerklePatriciaTrie::new();
    trie.insert([9u8; 32], expected);
    assert_eq!(state.root_hash(), trie.root_hash());
}

#[test]
fn genesis_allocations() {
    let state = build_genesis(vec![([1u8; 32], 10), ([2u8; 32], 20), ([1u8; 32], 5)]).unwrap();
    assert_eq!(state.accounts.get(&[1u8; 32]).unwrap().lusd_balance, 15);
    assert_eq!(state.accounts.get(&[2u8; 32]).unwrap().lusd_balance, 20);
    assert_eq!(state.total_lusd_supply, 35);
    assert_eq!(state.accounts.len(), 2);
    assert!(matches!(build_genesis(vec![([1u8; 32], u64::MAX), ([2u8; 32], 1)]), Err(ExecutionError::Overflow)));
    assert_eq!(build_genesis(vec![]).unwrap().total_lusd_supply, 0);
}

#[test]
fn allocations_add_to_balance_and_supply() {
    let mut state = GlobalState::default();
    assert_eq!(allocate(&mut state, &[3u8; 32], 10_000), Ok(()));
    assert_eq!(allocate(&mut state, &[3u8; 32], 5), Ok(()));
    assert_eq!(state.accounts.get(&[3u8; 32]).unwrap().lusd_balance, 10_005);
    assert_eq!(state.total_lusd_supply, 10_005);
    let before = state.to_bytes();
    assert_eq!(allocate(&mut state, &[4u8; 32], u64::MAX), Err(ExecutionError::Overflow));
    assert_eq!(state.to_bytes(), before);
}
