use lumina_core::execution::{execute_si, ExecutionContext, ExecutionError};
use lumina_core::instruction::StablecoinInstruction;
use lumina_core::layout::{big_endian_bytes, block_by_hash_key_bytes, block_key_bytes, state_key_bytes};
use lumina_core::sorted_map::SortedMap;
use lumina_core::state::{
    AccountState, ComplianceCircuit, CustodianState, GlobalState, RWAListing, RedemptionRequest, StreamState,
    ValidatorState, YieldPosition,
};

fn busy_state() -> GlobalState {
    let mut state = GlobalState::default();
    state.accounts.insert(
        [9u8; 32],
        AccountState {
            nonce: 3,
            lusd_balance: 42,
            ljun_balance: 1,
            lumina_balance: 2,
            commitment: Some([8u8; 32]),
            passkey_device_key: Some(vec![1, 2, 3]),
            guardians: vec![[4u8; 32], [5u8; 32]],
            pq_pubkey: None,
            epoch_tx_volume: 5,
            last_reward_epoch: 6,
            credit_score: 700,
            active_streams: vec![StreamState {
                recipient: [6u8; 32],
                amount_per_sec: 1,
                start_timestamp: 2,
                end_timestamp: 3,
                withdrawn: 4,
            }],
            yield_positions: vec![YieldPosition { token_id: 0, principal: 10, maturity_height: 20, issued_height: 5 }],
        },
    );
    state.accounts.insert([1u8; 32], AccountState { lusd_balance: 7, ..Default::default() });
    state.total_lusd_supply = 49 + 11;
    state.total_ljun_supply = 1;
    state.stabilization_pool_balance = 10;
    state.reserve_ratio_ppm = 1_200_000;
    state.oracle_prices.insert(b"ETH-USD".to_vec(), 3_000_000_000);
    state.oracle_prices.insert(b"BTC-USD".to_vec(), 5);
    state.validators.push(ValidatorState { pubkey: [2u8; 32], stake: 5, power: 5, is_green: true, energy_proof: Some(vec![9; 40]) });
    state.circuit_breaker_active = true;
    state.fair_redeem_queue.push(RedemptionRequest { address: [9u8; 32], amount: 11, timestamp: 99 });
    state.last_rebalance_height = 12;
    state.insurance_fund_balance = 13;
    state.custodians.push(CustodianState { pubkey: [3u8; 32], stake: 8, mpc_pubkeys: vec![[4u8; 32]], registered_height: 2 });
    state.last_reserve_rotation_height = 14;
    state.compliance_circuits.push(ComplianceCircuit { id: 1, circuit: vec![1, 2] });
    state.rwa_listings.insert(
        [7u8; 32],
        RWAListing { owner: [9u8; 32], attestation_proof: vec![3; 3], collateral_value: 100, is_active: true, collateralized_amount: 50 },
    );
    state.next_yield_token_id = 1;
    state.health_index = 9000;
    state.pending_flash_mints = 15;
    state.current_epoch = 16;
    state.velocity_reward_pool = 17;
    state
}

#[test]
fn states_round_trip() {
    let state = busy_state();
    let bytes = state.to_bytes();
    let back = GlobalState::from_bytes(&bytes).expect("decodes");
    assert_eq!(back.to_bytes(), bytes);
    assert_eq!(back.root_hash(), state.root_hash());
    assert_eq!(back.accounts.len(), 2);
    assert_eq!(back.accounts.get(&[9u8; 32]).unwrap().guardians, vec![[4u8; 32], [5u8; 32]]);
    assert_eq!(back.accounts.get(&[9u8; 32]).unwrap().yield_positions[0].maturity_height, 20);
    assert_eq!(back.oracle_prices.get(b"ETH-USD"), Some(&3_000_000_000));
    assert_eq!(back.validators[0].energy_proof, Some(vec![9; 40]));
    assert_eq!(back.fair_redeem_queue[0].amount, 11);
    assert_eq!(back.custodians[0].mpc_pubkeys, vec![[4u8; 32]]);
    assert_eq!(back.compliance_circuits[0].circuit, vec![1, 2]);
    assert_eq!(back.rwa_listings.get(&[7u8; 32]).unwrap().collateral_value, 100);
    assert_eq!(back.velocity_reward_pool, 17);
    assert!(back.circuit_breaker_active);

    for cut in 0..bytes.len() {
        assert!(GlobalState::from_bytes(&bytes[..cut]).is_none());
    }

    let empty = GlobalState::default();
    assert_eq!(GlobalState::from_bytes(&empty.to_bytes()).unwrap().to_bytes(), empty.to_bytes());
}

#[test]
fn state_layout_lists_mappings_in_key_order() {
    let mut state = GlobalState::default();
    state.accounts.insert([9u8; 32], AccountState { lusd_balance: 42, ..Default::default() });
    state.accounts.insert([1u8; 32], AccountState { nonce: 1, ..Default::default() });
    state.total_lusd_supply = 42;
    state.reserve_ratio_ppm = 7;
    state.oracle_prices.insert(b"ETH-USD".to_vec(), 5);
    state.oracle_prices.insert(b"BTC-USD".to_vec(), 6);
    state.fair_redeem_queue.push(RedemptionRequest { address: [9u8; 32], amount: 11, timestamp: 99 });

    let account = |nonce: u64, lusd: u64| {
        (
            (nonce, lusd, 0u64, 0u64),
            (None::<[u8; 32]>, None::<Vec<u8>>, Vec::<[u8; 32]>::new(), None::<Vec<u8>>),
            (0u64, 0u64, 0u16, Vec::<u64>::new(), Vec::<u64>::new()),
        )
    };
    let expected = bincode::serialize(&(
        (vec![([1u8; 32], account(1, 0)), ([9u8; 32], account(0, 42))], 42u64, 0u64, 0u64, 7u64),
        (
            vec![("BTC-USD", 6u64), ("ETH-USD", 5u64)],
            Vec::<u64>::new(),
            false,
            vec![([9u8; 32], 11u64, 99u64)],
            0u64,
            0u64,
        ),
        (Vec::<u64>::new(), 0u64, Vec::<u64>::new(), Vec::<u64>::new(), (0u64, 0u64, 0u64, 0u64, 0u64)),
    ))
    .unwrap();
    assert_eq!(state.to_bytes(), expected);
}

#[test]
fn rejected_instructions_leave_the_encoding_as_it_was() {
    let mut state = busy_state();
    let before = state.to_bytes();
    let sender = [9u8; 32];
    let rejected = vec![
        StablecoinInstruction::MintSenior { amount: 5, collateral_amount: 5, proof: vec![] },
        StablecoinInstruction::RedeemSenior { amount: 43 },
        StablecoinInstruction::UnwrapYieldToken { token_id: 0 },
        StablecoinInstruction::UnwrapYieldToken { token_id: 1 },
        StablecoinInstruction::FairRedeemQueue { batch_size: 1 },
        StablecoinInstruction::WrapToYieldToken { amount: 43, maturity_blocks: 1 },
        StablecoinInstruction::InstantFiatBridge { amount: u64::MAX, target_bank_id: [0u8; 16], mpc_sig: vec![] },
        StablecoinInstruction::DistributeYield { total_yield: u64::MAX },
    ];
    for si in rejected {
        let result = execute_si(&si, &sender, ExecutionContext { state: &mut state, height: 10, timestamp: 1 });
        assert!(result.is_err());
        assert_eq!(state.to_bytes(), before);
    }
    let accepted = StablecoinInstruction::RedeemSenior { amount: 1 };
    assert_eq!(execute_si(&accepted, &sender, ExecutionContext { state: &mut state, height: 10, timestamp: 1 }), Ok::<(), ExecutionError>(()));
    assert_ne!(state.to_bytes(), before);
}

#[test]
fn sorted_map_keeps_its_entries_in_key_order() {
    let mut map: SortedMap<Vec<u8>, u64> = SortedMap::new();
    assert!(map.is_empty());
    for (i, key) in [&b"b"[..], b"a", b"ab", b"", b"c", b"a"].iter().enumerate() {
        map.insert(key.to_vec(), i as u64);
    }
    let keys: Vec<Vec<u8>> = map.entries().iter().map(|e| e.0.clone()).collect();
    assert_eq!(keys, vec![b"".to_vec(), b"a".to_vec(), b"ab".to_vec(), b"b".to_vec(), b"c".to_vec()]);
    assert_eq!(map.get(b"a"), Some(&5));
    assert_eq!(map.len(), 5);
    assert_eq!(map.remove(b"ab"), Some(2));
    assert_eq!(map.remove(b"ab"), None);
    assert!(!map.contains_key(b"ab"));
    assert!(map.contains_key(b""));
    assert_eq!(map.len(), 4);
}

#[test]
fn persisted_keys() {
    assert_eq!(state_key_bytes(), b"global_state".to_vec());
    let mut expected = b"block:".to_vec();
    expected.extend_from_slice(&0x0102_0304_0506_0708u64.to_be_bytes());
    assert_eq!(block_key_bytes(0x0102_0304_0506_0708), expected);
    assert_eq!(big_endian_bytes(1), vec![0, 0, 0, 0, 0, 0, 0, 1]);
    let mut by_hash = b"block_by_hash:".to_vec();
    by_hash.extend_from_slice(&[7u8; 32]);
    assert_eq!(block_by_hash_key_bytes(&[7u8; 32]), by_hash);
}
