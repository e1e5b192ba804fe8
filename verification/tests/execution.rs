use ed25519_dalek::{Signer, SigningKey};
use lumina_core::execution::{execute_si, execute_transaction, ExecutionContext, ExecutionError};
use lumina_core::instruction::{AssetType, StablecoinInstruction};
use lumina_core::state::{AccountState, GlobalState, ValidatorState};
use lumina_core::transaction::Transaction;

fn new_sender(seed: u8) -> ([u8; 32], SigningKey) {
    let kp = SigningKey::from_bytes(&[seed; 32]);
    (kp.verifying_key().to_bytes(), kp)
}

fn sign(key: &SigningKey, message: &[u8]) -> Vec<u8> {
    key.sign(message).to_bytes().to_vec()
}

fn signed(key: &SigningKey, nonce: u64, instruction: StablecoinInstruction) -> Transaction {
    let mut tx = Transaction {
        sender: key.verifying_key().to_bytes(),
        nonce,
        instruction,
        signature: vec![0u8; 64],
        gas_limit: 1000,
        gas_price: 1,
    };
    tx.signature = sign(key, &tx.signing_bytes());
    tx
}

fn run(state: &mut GlobalState, sender: &[u8; 32], si: StablecoinInstruction, height: u64, timestamp: u64) -> Result<(), ExecutionError> {
    execute_si(&si, sender, ExecutionContext { state, height, timestamp })
}

fn lusd(state: &GlobalState, address: &[u8; 32]) -> u64 {
    state.accounts.get(address).map(|a| a.lusd_balance).unwrap_or(0)
}

#[test]
fn test_stabilization_rebalance() {
    let mut state = GlobalState::default();
    let (sender, _kp) = new_sender(1);

    state.total_lusd_supply = 1_000_000;
    state.reserve_ratio_ppm = 900_000;
    state.stabilization_pool_balance = 500_000;
    state.oracle_prices.insert(b"ETH-USD".to_vec(), 3000_000_000);

    {
        let ctx = ExecutionContext { state: &mut state, height: 1, timestamp: 100 };
        let si = StablecoinInstruction::TriggerStabilizer;
        assert!(execute_si(&si, &sender, ctx).is_ok());
    }

    assert!(state.reserve_ratio_ppm > 0);
    assert_eq!(state.reserve_ratio_ppm, 1_000_000);
    assert_eq!(state.stabilization_pool_balance, 400_000);
}

#[test]
fn test_circuit_breaker_logic() {
    let mut state = GlobalState::default();
    let (sender, kp) = new_sender(2);

    state.total_lusd_supply = 1_000_000;
    state.stabilization_pool_balance = 100_000;
    state.oracle_prices.insert(b"ETH-USD".to_vec(), 2_000_000_000);

    {
        let ctx = ExecutionContext { state: &mut state, height: 1, timestamp: 100 };
        let mint_si = StablecoinInstruction::MintSenior { amount: 1, collateral_amount: 1, proof: vec![] };
        assert!(execute_si(&mint_si, &sender, ctx).is_ok());
    }

    assert!(state.reserve_ratio_ppm < 850_000);
    assert!(state.circuit_breaker_active);

    let mut tx = Transaction {
        sender,
        nonce: 0,
        instruction: StablecoinInstruction::MintSenior { amount: 1, collateral_amount: 1, proof: vec![] },
        signature: vec![0u8; 64],
        gas_limit: 1000,
        gas_price: 1,
    };
    tx.signature = sign(&kp, &tx.signing_bytes());
    let ctx = ExecutionContext { state: &mut state, height: 2, timestamp: 200 };
    let result = execute_transaction(&tx, ctx);
    assert!(result.is_err());
    assert_eq!(result, Err(ExecutionError::BreakerActive));
}

#[test]
fn test_redemption_queueing() {
    let mut state = GlobalState::default();
    let sender = [1u8; 32];

    state.accounts.insert(sender, AccountState { nonce: 0, lusd_balance: 5000, ..Default::default() });
    state.total_lusd_supply = 5000;
    state.reserve_ratio_ppm = 900_000;

    {
        let ctx = ExecutionContext { state: &mut state, height: 1, timestamp: 100 };
        let redeem_si = StablecoinInstruction::RedeemSenior { amount: 1000 };
        assert!(execute_si(&redeem_si, &sender, ctx).is_ok());
    }

    assert_eq!(state.accounts.get(&sender).unwrap().lusd_balance, 4000);
    assert_eq!(state.total_lusd_supply, 5000);
    assert_eq!(state.fair_redeem_queue.len(), 1);

    {
        let ctx = ExecutionContext { state: &mut state, height: 1, timestamp: 100 };
        let process_si = StablecoinInstruction::FairRedeemQueue { batch_size: 1 };
        assert!(execute_si(&process_si, &sender, ctx).is_ok());
    }

    assert_eq!(state.total_lusd_supply, 4000);
    assert_eq!(state.fair_redeem_queue.len(), 0);
}

#[test]
fn test_passkey_account_creation() {
    let mut state = GlobalState::default();
    let sender = [2u8; 32];

    let ctx = ExecutionContext { state: &mut state, height: 1, timestamp: 100 };

    let si = StablecoinInstruction::CreatePasskeyAccount {
        device_key: vec![1u8; 65],
        guardians: vec![[3u8; 32], [4u8; 32], [5u8; 32]],
    };
    assert!(execute_si(&si, &sender, ctx).is_ok());

    let acct = state.accounts.get(&sender).unwrap();
    assert!(acct.passkey_device_key.is_some());
    assert_eq!(acct.guardians.len(), 3);
}

#[test]
fn test_insurance_fund_mechanics() {
    let mut state = GlobalState::default();
    let sender = [6u8; 32];

    let ctx = ExecutionContext { state: &mut state, height: 1, timestamp: 100 };

    let si = StablecoinInstruction::MintSenior { amount: 1000, collateral_amount: 1200, proof: vec![] };
    assert!(execute_si(&si, &sender, ctx).is_ok());

    assert_eq!(state.insurance_fund_balance, 50);
    assert_eq!(state.accounts.get(&sender).unwrap().lusd_balance, 950);
    assert_eq!(state.total_lusd_supply, 950);
}

#[test]
fn test_yield_token_wrap_unwrap() {
    let mut state = GlobalState::default();
    let sender = [7u8; 32];

    state.accounts.insert(sender, AccountState { lusd_balance: 10000, ..Default::default() });
    state.total_lusd_supply = 10000;
    state.stabilization_pool_balance = 10000;

    {
        let ctx = ExecutionContext { state: &mut state, height: 100, timestamp: 1000 };
        let si = StablecoinInstruction::WrapToYieldToken { amount: 5000, maturity_blocks: 100 };
        assert!(execute_si(&si, &sender, ctx).is_ok());
    }

    assert_eq!(state.accounts.get(&sender).unwrap().lusd_balance, 5000);
    assert_eq!(state.accounts.get(&sender).unwrap().yield_positions.len(), 1);

    {
        let ctx = ExecutionContext { state: &mut state, height: 250, timestamp: 2500 };
        let si = StablecoinInstruction::UnwrapYieldToken { token_id: 0 };
        assert!(execute_si(&si, &sender, ctx).is_ok());
    }

    assert!(state.accounts.get(&sender).unwrap().lusd_balance >= 10000);
    assert_eq!(state.accounts.get(&sender).unwrap().yield_positions.len(), 0);
}

#[test]
fn test_health_index_computation() {
    let mut state = GlobalState::default();
    state.total_lusd_supply = 1_000_000;
    state.stabilization_pool_balance = 1_000_000;
    state.reserve_ratio_ppm = 1_000_000;
    state.insurance_fund_balance = 50_000;
    state.oracle_prices.insert(b"LUSD-USD".to_vec(), 1_000_000);

    let sender = [8u8; 32];
    let ctx = ExecutionContext { state: &mut state, height: 1, timestamp: 100 };

    let si = StablecoinInstruction::ComputeHealthIndex;
    assert!(execute_si(&si, &sender, ctx).is_ok());

    assert!(state.health_index > 5000);
    assert_eq!(state.health_index, 9000);
}

#[test]
fn mint_transfer_redeem() {
    let mut state = GlobalState::default();
    let (a, key_a) = new_sender(1);
    let (b, key_b) = new_sender(2);

    let tx1 = signed(&key_a, 0, StablecoinInstruction::MintSenior { amount: 1000, collateral_amount: 1200, proof: vec![] });
    assert_eq!(execute_transaction(&tx1, ExecutionContext { state: &mut state, height: 1, timestamp: 10 }), Ok(()));
    assert_eq!(lusd(&state, &a), 950);
    assert_eq!(state.insurance_fund_balance, 50);
    assert_eq!(state.total_lusd_supply, 950);
    assert_eq!(state.reserve_ratio_ppm, 1_000_000);
    assert_eq!(state.accounts.get(&a).unwrap().nonce, 1);

    let tx2 = signed(&key_a, 1, StablecoinInstruction::Transfer { to: b, amount: 200, asset: AssetType::LUSD });
    assert_eq!(execute_transaction(&tx2, ExecutionContext { state: &mut state, height: 1, timestamp: 10 }), Ok(()));
    assert_eq!(lusd(&state, &a), 750);
    assert_eq!(lusd(&state, &b), 200);
    assert_eq!(state.accounts.get(&a).unwrap().nonce, 2);

    let tx3 = signed(&key_b, 0, StablecoinInstruction::RedeemSenior { amount: 200 });
    assert_eq!(execute_transaction(&tx3, ExecutionContext { state: &mut state, height: 1, timestamp: 10 }), Ok(()));
    assert_eq!(lusd(&state, &b), 0);
    assert_eq!(state.total_lusd_supply, 750);
    assert_eq!(state.fair_redeem_queue.len(), 0);
    assert_eq!(state.accounts.get(&b).unwrap().nonce, 1);
}

#[test]
fn supply_is_the_sum_of_balances_and_queue() {
    let mut state = GlobalState::default();
    let a = [1u8; 32];
    let b = [2u8; 32];
    let steps = vec![
        (a, StablecoinInstruction::MintSenior { amount: 10_000, collateral_amount: 1, proof: vec![] }),
        (a, StablecoinInstruction::Transfer { to: b, amount: 2_500, asset: AssetType::LUSD }),
        (b, StablecoinInstruction::RunCircuitBreaker { active: true }),
        (b, StablecoinInstruction::RedeemSenior { amount: 700 }),
        (a, StablecoinInstruction::RedeemSenior { amount: 300 }),
        (a, StablecoinInstruction::RunCircuitBreaker { active: false }),
        (a, StablecoinInstruction::FairRedeemQueue { batch_size: 1 }),
        (a, StablecoinInstruction::RedeemSenior { amount: 100 }),
        (b, StablecoinInstruction::MintJunior { amount: 5, collateral_amount: 5 }),
    ];
    for (sender, si) in steps {
        assert_eq!(run(&mut state, &sender, si, 1, 1), Ok(()));
        let held: u64 = lusd(&state, &a) + lusd(&state, &b);
        let queued: u64 = state.fair_redeem_queue.iter().map(|r| r.amount).sum();
        assert_eq!(state.total_lusd_supply, held + queued);
    }
    assert_eq!(state.total_lusd_supply, 9_500 - 700 - 100);
    assert_eq!(state.fair_redeem_queue.len(), 1);
    assert_eq!(state.fair_redeem_queue[0].amount, 300);
    assert_eq!(state.fair_redeem_queue[0].address, a);
}

#[test]
fn rejected_transactions_leave_the_state_as_it_was() {
    let mut state = GlobalState::default();
    let (a, key_a) = new_sender(1);
    let (_, key_b) = new_sender(2);
    state.accounts.insert(a, AccountState { lusd_balance: 100, ..Default::default() });
    state.total_lusd_supply = 100;
    state.reserve_ratio_ppm = 1_000_000;
    let root = state.root_hash();

    let mut bad_signature = signed(&key_a, 0, StablecoinInstruction::RedeemSenior { amount: 10 });
    bad_signature.signature[0] ^= 1;
    assert_eq!(
        execute_transaction(&bad_signature, ExecutionContext { state: &mut state, height: 1, timestamp: 1 }),
        Err(ExecutionError::InvalidSignature)
    );
    let short_signature = Transaction { signature: vec![1, 2, 3], ..signed(&key_a, 0, StablecoinInstruction::TriggerStabilizer) };
    assert_eq!(
        execute_transaction(&short_signature, ExecutionContext { state: &mut state, height: 1, timestamp: 1 }),
        Err(ExecutionError::InvalidSignature)
    );
    let wrong_nonce = signed(&key_a, 1, StablecoinInstruction::RedeemSenior { amount: 10 });
    assert_eq!(
        execute_transaction(&wrong_nonce, ExecutionContext { state: &mut state, height: 1, timestamp: 1 }),
        Err(ExecutionError::InvalidNonce)
    );
    let too_much = signed(&key_a, 0, StablecoinInstruction::RedeemSenior { amount: 101 });
    assert_eq!(
        execute_transaction(&too_much, ExecutionContext { state: &mut state, height: 1, timestamp: 1 }),
        Err(ExecutionError::InsufficientBalance)
    );
    let from_nobody = signed(&key_b, 0, StablecoinInstruction::Transfer { to: a, amount: 1, asset: AssetType::LJUN });
    assert_eq!(
        execute_transaction(&from_nobody, ExecutionContext { state: &mut state, height: 1, timestamp: 1 }),
        Err(ExecutionError::InsufficientBalance)
    );

    assert_eq!(state.root_hash(), root);
    assert_eq!(state.accounts.len(), 1);
    assert_eq!(state.accounts.get(&a).unwrap().nonce, 0);
    assert_eq!(lusd(&state, &a), 100);
    assert_eq!(state.total_lusd_supply, 100);
    assert_eq!(state.fair_redeem_queue.len(), 0);
}

#[test]
fn every_error_has_an_input() {
    let mut state = GlobalState::default();
    let a = [1u8; 32];
    let b = [2u8; 32];
    state.accounts.insert(a, AccountState { lusd_balance: u64::MAX, lumina_balance: 5, ..Default::default() });
    state.total_lusd_supply = u64::MAX;
    state.reserve_ratio_ppm = 1_000_000;

    assert_eq!(run(&mut state, &a, StablecoinInstruction::Transfer { to: b, amount: 0, asset: AssetType::LUSD }, 1, 1), Err(ExecutionError::MalformedInstruction));
    assert_eq!(run(&mut state, &a, StablecoinInstruction::Transfer { to: b, amount: 1, asset: AssetType::Custom(b"XYZ".to_vec()) }, 1, 1), Err(ExecutionError::MalformedInstruction));
    assert_eq!(run(&mut state, &a, StablecoinInstruction::Transfer { to: b, amount: 6, asset: AssetType::Lumina(0) }, 1, 1), Err(ExecutionError::InsufficientBalance));
    assert_eq!(run(&mut state, &a, StablecoinInstruction::MintSenior { amount: 100, collateral_amount: 100, proof: vec![] }, 1, 1), Err(ExecutionError::Overflow));
    assert_eq!(run(&mut state, &b, StablecoinInstruction::MintSenior { amount: 100, collateral_amount: 0, proof: vec![7u8; 3] }, 1, 1), Err(ExecutionError::InvalidProof));
    assert_eq!(run(&mut state, &b, StablecoinInstruction::ConfidentialTransfer { commitment: [9u8; 32], proof: vec![] }, 1, 1), Err(ExecutionError::InvalidProof));
    assert_eq!(run(&mut state, &a, StablecoinInstruction::UnwrapYieldToken { token_id: 0 }, 1, 1), Err(ExecutionError::NotFound));
    assert_eq!(run(&mut state, &b, StablecoinInstruction::UnwrapYieldToken { token_id: 0 }, 1, 1), Err(ExecutionError::NotFound));
    assert_eq!(run(&mut state, &a, StablecoinInstruction::WrapToYieldToken { amount: 10, maturity_blocks: 5 }, 10, 1), Ok(()));
    assert_eq!(run(&mut state, &a, StablecoinInstruction::UnwrapYieldToken { token_id: 0 }, 14, 1), Err(ExecutionError::NotMatured));
    assert_eq!(run(&mut state, &a, StablecoinInstruction::WrapToYieldToken { amount: 10, maturity_blocks: u64::MAX }, 10, 1), Err(ExecutionError::Overflow));
    assert_eq!(run(&mut state, &a, StablecoinInstruction::RunCircuitBreaker { active: true }, 1, 1), Ok(()));
    assert_eq!(run(&mut state, &b, StablecoinInstruction::MintSenior { amount: 1, collateral_amount: 1, proof: vec![] }, 1, 1), Err(ExecutionError::BreakerActive));
    assert_eq!(run(&mut state, &b, StablecoinInstruction::FairRedeemQueue { batch_size: 1 }, 1, 1), Err(ExecutionError::BreakerActive));
}

#[test]
fn breaker_gates_transactions() {
    let mut state = GlobalState::default();
    let (a, key) = new_sender(3);
    state.accounts.insert(a, AccountState { lusd_balance: 100, ljun_balance: 7, ..Default::default() });
    state.total_lusd_supply = 100;
    state.circuit_breaker_active = true;

    let transfer = signed(&key, 0, StablecoinInstruction::Transfer { to: [9u8; 32], amount: 1, asset: AssetType::LJUN });
    assert_eq!(execute_transaction(&transfer, ExecutionContext { state: &mut state, height: 1, timestamp: 1 }), Err(ExecutionError::BreakerActive));
    let oracle = signed(&key, 0, StablecoinInstruction::UpdateOracle { asset: b"ETH-USD".to_vec(), price: 1, timestamp: 1, signature: vec![] });
    assert_eq!(execute_transaction(&oracle, ExecutionContext { state: &mut state, height: 1, timestamp: 1 }), Err(ExecutionError::BreakerActive));

    let redeem = signed(&key, 0, StablecoinInstruction::RedeemSenior { amount: 40 });
    assert_eq!(execute_transaction(&redeem, ExecutionContext { state: &mut state, height: 1, timestamp: 77 }), Ok(()));
    assert_eq!(state.total_lusd_supply, 100);
    assert_eq!(state.fair_redeem_queue.len(), 1);
    assert_eq!(state.fair_redeem_queue[0].timestamp, 77);
    assert_eq!(lusd(&state, &a), 60);

    let stabilizer = signed(&key, 1, StablecoinInstruction::TriggerStabilizer);
    assert_eq!(execute_transaction(&stabilizer, ExecutionContext { state: &mut state, height: 1, timestamp: 1 }), Ok(()));
    let open = signed(&key, 2, StablecoinInstruction::RunCircuitBreaker { active: false });
    assert_eq!(execute_transaction(&open, ExecutionContext { state: &mut state, height: 1, timestamp: 1 }), Ok(()));
    assert!(!state.circuit_breaker_active);
    assert_eq!(state.accounts.get(&a).unwrap().nonce, 3);
}

#[test]
fn breaker_set_twice_is_set_once() {
    let mut once = GlobalState::default();
    let mut twice = GlobalState::default();
    let a = [1u8; 32];
    assert_eq!(run(&mut once, &a, StablecoinInstruction::RunCircuitBreaker { active: true }, 1, 1), Ok(()));
    assert_eq!(run(&mut twice, &a, StablecoinInstruction::RunCircuitBreaker { active: true }, 1, 1), Ok(()));
    assert_eq!(run(&mut twice, &a, StablecoinInstruction::RunCircuitBreaker { active: true }, 2, 2), Ok(()));
    assert!(once.circuit_breaker_active);
    assert_eq!(once.circuit_breaker_active, twice.circuit_breaker_active);
    assert_eq!(once.root_hash(), twice.root_hash());
    assert_eq!(once.reserve_ratio_ppm, twice.reserve_ratio_ppm);
}

#[test]
fn wrap_then_unwrap_pays_principal_and_yield_once() {
    let mut state = GlobalState::default();
    let a = [7u8; 32];
    state.accounts.insert(a, AccountState { lusd_balance: 10_000, ..Default::default() });
    state.total_lusd_supply = 10_000;
    state.stabilization_pool_balance = 10_000;

    assert_eq!(run(&mut state, &a, StablecoinInstruction::WrapToYieldToken { amount: 5000, maturity_blocks: 100 }, 100, 1), Ok(()));
    assert_eq!(state.stabilization_pool_balance, 15_000);
    assert_eq!(state.next_yield_token_id, 1);
    let position = state.accounts.get(&a).unwrap().yield_positions[0];
    assert_eq!((position.token_id, position.principal, position.issued_height, position.maturity_height), (0, 5000, 100, 200));
    assert_eq!(run(&mut state, &a, StablecoinInstruction::UnwrapYieldToken { token_id: 0 }, 199, 1), Err(ExecutionError::NotMatured));
    assert_eq!(run(&mut state, &a, StablecoinInstruction::UnwrapYieldToken { token_id: 0 }, 250, 1), Ok(()));
    // 150 blocks at one basis point each: 5000 * 150 / 10000 = 75.
    assert_eq!(lusd(&state, &a), 10_075);
    assert_eq!(state.stabilization_pool_balance, 15_000 - 5_075);
    assert_eq!(run(&mut state, &a, StablecoinInstruction::UnwrapYieldToken { token_id: 0 }, 260, 1), Err(ExecutionError::NotFound));
}

#[test]
fn reserve_ratio_and_breaker_formula() {
    let mut state = GlobalState::default();
    let a = [1u8; 32];
    state.total_lusd_supply = 1_000_000;
    state.stabilization_pool_balance = 100_000;
    // 2.7e9 / 3e9 = 0.9, plus 0.1 of pool over supply.
    assert_eq!(run(&mut state, &a, StablecoinInstruction::UpdateOracle { asset: b"ETH-USD".to_vec(), price: 2_700_000_000, timestamp: 0, signature: vec![] }, 1, 1), Ok(()));
    assert_eq!(state.reserve_ratio_ppm, 1_000_000);
    assert!(!state.circuit_breaker_active);
    assert_eq!(run(&mut state, &a, StablecoinInstruction::UpdateOracle { asset: b"ETH-USD".to_vec(), price: 2_250_000_000, timestamp: 0, signature: vec![] }, 1, 1), Ok(()));
    assert_eq!(state.reserve_ratio_ppm, 850_000);
    assert!(!state.circuit_breaker_active);
    assert_eq!(run(&mut state, &a, StablecoinInstruction::UpdateOracle { asset: b"ETH-USD".to_vec(), price: 2_249_997_000, timestamp: 0, signature: vec![] }, 1, 1), Ok(()));
    assert_eq!(state.reserve_ratio_ppm, 849_999);
    assert!(state.circuit_breaker_active);
    // Another ticker leaves the ratio alone.
    assert_eq!(run(&mut state, &a, StablecoinInstruction::UpdateOracle { asset: b"BTC-USD".to_vec(), price: 7, timestamp: 0, signature: vec![] }, 1, 1), Ok(()));
    assert_eq!(state.reserve_ratio_ppm, 849_999);
    assert_eq!(state.oracle_prices.get(b"BTC-USD"), Some(&7));
    // A bridge fills the pool.
    assert_eq!(run(&mut state, &a, StablecoinInstruction::InstantFiatBridge { amount: 400_000, target_bank_id: [0u8; 16], mpc_sig: vec![] }, 1, 1), Ok(()));
    assert_eq!(state.stabilization_pool_balance, 500_000);
    assert_eq!(state.reserve_ratio_ppm, 749_999 + 500_000);
    assert!(state.circuit_breaker_active);
}

#[test]
fn other_instructions() {
    let mut state = GlobalState::default();
    let a = [1u8; 32];
    assert_eq!(run(&mut state, &a, StablecoinInstruction::RegisterValidator { pubkey: [4u8; 32], stake: 77 }, 1, 1), Ok(()));
    assert_eq!(state.validators.len(), 1);
    assert_eq!((state.validators[0].pubkey, state.validators[0].stake, state.validators[0].power, state.validators[0].is_green), ([4u8; 32], 77, 77, false));
    assert_eq!(run(&mut state, &a, StablecoinInstruction::DistributeYield { total_yield: 12 }, 1, 1), Ok(()));
    assert_eq!(state.velocity_reward_pool, 12);
    assert_eq!(run(&mut state, &a, StablecoinInstruction::MintJunior { amount: 9, collateral_amount: 1 }, 1, 1), Ok(()));
    assert_eq!(run(&mut state, &a, StablecoinInstruction::RedeemJunior { amount: 4 }, 1, 1), Ok(()));
    assert_eq!(state.accounts.get(&a).unwrap().ljun_balance, 5);
    assert_eq!(state.total_ljun_supply, 5);
    assert_eq!(run(&mut state, &a, StablecoinInstruction::RedeemJunior { amount: 6 }, 1, 1), Err(ExecutionError::InsufficientBalance));
    let before = state.root_hash();
    assert_eq!(run(&mut state, &a, StablecoinInstruction::Vote { proposal_id: 1, vote: true }, 1, 1), Ok(()));
    assert_eq!(run(&mut state, &a, StablecoinInstruction::DynamicHedge { ratio_bits: 1.5f64.to_bits() }, 1, 1), Ok(()));
    assert_eq!(state.root_hash(), before);
    let mut proof = vec![1u8; 128];
    proof[0] = 3;
    assert_eq!(run(&mut state, &a, StablecoinInstruction::ConfidentialTransfer { commitment: [5u8; 32], proof }, 1, 1), Ok(()));
    assert_eq!(state.accounts.get(&a).unwrap().commitment, Some([5u8; 32]));
    assert_ne!(state.root_hash(), before);
}

#[test]
fn stabilizer_moves_the_deficit() {
    let mut state = GlobalState::default();
    let a = [1u8; 32];
    state.total_lusd_supply = 1_000_000;
    state.reserve_ratio_ppm = 900_000;
    state.stabilization_pool_balance = 60_000;
    assert_eq!(run(&mut state, &a, StablecoinInstruction::TriggerStabilizer, 1, 1), Ok(()));
    assert_eq!(state.stabilization_pool_balance, 0);
    assert_eq!(state.reserve_ratio_ppm, 960_000);
    assert_eq!(run(&mut state, &a, StablecoinInstruction::TriggerStabilizer, 1, 1), Ok(()));
    assert_eq!(state.reserve_ratio_ppm, 960_000);
}

#[test]
fn health_index_weighs_peg_coverage_breaker_and_green_share() {
    let mut state = GlobalState::default();
    state.oracle_prices.insert(b"LUSD-USD".to_vec(), 990_000);
    state.reserve_ratio_ppm = 500_000;
    state.circuit_breaker_active = true;
    for i in 0..4u8 {
        state.validators.push(ValidatorState { pubkey: [i; 32], stake: 1, power: 1, is_green: i == 2, energy_proof: None });
    }
    assert_eq!(run(&mut state, &[1u8; 32], StablecoinInstruction::ComputeHealthIndex, 1, 1), Ok(()));
    // peg 9900, coverage 5000, breaker 0, green 2500: (4*9900 + 3*5000 + 0 + 2500) / 10.
    assert_eq!(state.health_index, 5710);

    let mut far = GlobalState::default();
    far.oracle_prices.insert(b"LUSD-USD".to_vec(), 2_000_000);
    assert_eq!(run(&mut far, &[1u8; 32], StablecoinInstruction::ComputeHealthIndex, 1, 1), Ok(()));
    // peg 0, coverage 0, breaker open 10000, no validators.
    assert_eq!(far.health_index, 2000);
}
