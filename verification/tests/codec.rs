use lumina_core::block::{Block, BlockHeader, Vote};
use lumina_core::instruction::{AssetType, StablecoinInstruction};
use lumina_core::transaction::{Transaction, UnsignedTransaction};

fn every_instruction() -> Vec<StablecoinInstruction> {
    vec![
        StablecoinInstruction::RegisterAsset { ticker: b"LUSD".to_vec(), decimals: 6 },
        StablecoinInstruction::MintSenior { amount: 1000, collateral_amount: 1200, proof: vec![1, 2, 3] },
        StablecoinInstruction::RedeemSenior { amount: 7 },
        StablecoinInstruction::MintJunior { amount: 8, collateral_amount: 9 },
        StablecoinInstruction::RedeemJunior { amount: 10 },
        StablecoinInstruction::Burn { amount: 11, asset: AssetType::LJUN },
        StablecoinInstruction::Transfer { to: [2u8; 32], amount: 200, asset: AssetType::LUSD },
        StablecoinInstruction::Transfer { to: [2u8; 32], amount: 200, asset: AssetType::Lumina(5) },
        StablecoinInstruction::Transfer { to: [2u8; 32], amount: 200, asset: AssetType::Custom(b"XAU".to_vec()) },
        StablecoinInstruction::RebalanceTranches,
        StablecoinInstruction::DistributeYield { total_yield: 12 },
        StablecoinInstruction::TriggerStabilizer,
        StablecoinInstruction::RunCircuitBreaker { active: true },
        StablecoinInstruction::FairRedeemQueue { batch_size: 13 },
        StablecoinInstruction::ConfidentialTransfer { commitment: [3u8; 32], proof: vec![4; 5] },
        StablecoinInstruction::ProveCompliance { tx_hash: [5u8; 32], proof: vec![] },
        StablecoinInstruction::ZkTaxAttest { period: 14, proof: vec![6] },
        StablecoinInstruction::MultiJurisdictionalCheck { jurisdiction_id: 15, proof: vec![7, 7] },
        StablecoinInstruction::UpdateOracle { asset: b"ETH-USD".to_vec(), price: 16, timestamp: 17, signature: vec![8; 64] },
        StablecoinInstruction::SubmitZkPoR { proof: vec![9; 3], total_reserves: 18, timestamp: 19 },
        StablecoinInstruction::InstantFiatBridge { amount: 20, target_bank_id: [10u8; 16], mpc_sig: vec![11] },
        StablecoinInstruction::ZeroSlipBatchMatch { orders: vec![[12u8; 32], [13u8; 32]] },
        StablecoinInstruction::DynamicHedge { ratio_bits: 0.75f64.to_bits() },
        StablecoinInstruction::GeoRebalance { zone_id: 21 },
        StablecoinInstruction::VelocityIncentive { multiplier_bits: 1.5f32.to_bits() },
        StablecoinInstruction::StreamPayment { to: [14u8; 32], amount_per_sec: 22, duration: 23 },
        StablecoinInstruction::RegisterValidator { pubkey: [15u8; 32], stake: 24 },
        StablecoinInstruction::Vote { proposal_id: 25, vote: false },
        StablecoinInstruction::WrapToYieldToken { amount: 26, maturity_blocks: 27 },
        StablecoinInstruction::UnwrapYieldToken { token_id: 28 },
        StablecoinInstruction::ComputeHealthIndex,
        StablecoinInstruction::CreatePasskeyAccount { device_key: vec![16; 65], guardians: vec![[17u8; 32]] },
    ]
}

fn transaction(instruction: StablecoinInstruction) -> Transaction {
    Transaction { sender: [1u8; 32], nonce: 42, instruction, signature: vec![9u8; 64], gas_limit: 1000, gas_price: 3 }
}

#[test]
fn transactions_round_trip() {
    for instruction in every_instruction() {
        let tx = transaction(instruction);
        let bytes = tx.to_bytes();
        let back = Transaction::from_bytes(&bytes).expect("decodes");
        assert_eq!(back, tx);
        assert_eq!(back.to_bytes(), bytes);
    }
}

#[test]
fn truncated_transactions_do_not_decode() {
    for instruction in every_instruction() {
        let bytes = transaction(instruction).to_bytes();
        for cut in 0..bytes.len() {
            assert!(Transaction::from_bytes(&bytes[..cut]).is_none());
        }
    }
    assert!(Transaction::from_bytes(&[]).is_none());
}

#[test]
fn unknown_tags_and_truth_values_do_not_decode() {
    let mut bytes = transaction(StablecoinInstruction::RunCircuitBreaker { active: true }).to_bytes();
    // sender, nonce, tag: the truth value stands at byte 44.
    assert_eq!(bytes[44], 1);
    bytes[44] = 2;
    assert!(Transaction::from_bytes(&bytes).is_none());
    bytes[44] = 0;
    assert!(Transaction::from_bytes(&bytes).is_some());
    bytes[40] = 30;
    assert!(Transaction::from_bytes(&bytes).is_none());
}

#[test]
fn transaction_layout_is_little_endian_with_length_prefixes() {
    let tx = Transaction {
        sender: [1u8; 32],
        nonce: 0x0102,
        instruction: StablecoinInstruction::MintSenior { amount: 1000, collateral_amount: 1200, proof: vec![0xaa, 0xbb] },
        signature: vec![7u8; 3],
        gas_limit: 5,
        gas_price: 6,
    };
    let expected = bincode::serialize(&(
        [1u8; 32],
        0x0102u64,
        (1u32, 1000u64, 1200u64, vec![0xaau8, 0xbb]),
        vec![7u8; 3],
        5u64,
        6u64,
    ))
    .unwrap();
    assert_eq!(tx.to_bytes(), expected);
    assert_eq!(&expected[32..40], &[2, 1, 0, 0, 0, 0, 0, 0]);

    let oracle = StablecoinInstruction::UpdateOracle { asset: b"ETH-USD".to_vec(), price: 16, timestamp: 17, signature: vec![8; 2] };
    let expected = bincode::serialize(&([0u8; 32], 0u64, (16u32, "ETH-USD", 16u64, 17u64, vec![8u8; 2]), Vec::<u8>::new(), 0u64, 0u64)).unwrap();
    let tx = Transaction { sender: [0u8; 32], nonce: 0, instruction: oracle, signature: vec![], gas_limit: 0, gas_price: 0 };
    assert_eq!(tx.to_bytes(), expected);

    let hedge = StablecoinInstruction::DynamicHedge { ratio_bits: 0.75f64.to_bits() };
    let expected = bincode::serialize(&([0u8; 32], 0u64, (20u32, 0.75f64), Vec::<u8>::new(), 0u64, 0u64)).unwrap();
    let tx = Transaction { sender: [0u8; 32], nonce: 0, instruction: hedge, signature: vec![], gas_limit: 0, gas_price: 0 };
    assert_eq!(tx.to_bytes(), expected);
}

#[test]
fn signing_preimage_leaves_the_signature_empty() {
    let tx = transaction(StablecoinInstruction::RedeemSenior { amount: 7 });
    let blank = Transaction { signature: vec![], ..transaction(StablecoinInstruction::RedeemSenior { amount: 7 }) };
    assert_eq!(tx.signable_bytes(), blank.to_bytes());
    assert_ne!(tx.signable_bytes(), tx.to_bytes());
    assert_eq!(tx.signing_bytes(), blake3::hash(&blank.to_bytes()).as_bytes().to_vec());
    assert_eq!(tx.id(), *blake3::hash(&tx.to_bytes()).as_bytes());

    let unsigned = UnsignedTransaction {
        sender: [1u8; 32],
        nonce: 42,
        instruction: StablecoinInstruction::RedeemSenior { amount: 7 },
        gas_limit: 1000,
        gas_price: 3,
    };
    assert_eq!(unsigned.signable_bytes(), tx.signable_bytes());
    assert_eq!(unsigned.signing_bytes(), tx.signing_bytes());
    let signed = unsigned.into_signed(vec![9u8; 64]);
    assert_eq!(signed.to_bytes(), tx.to_bytes());
}

#[test]
fn blocks_round_trip() {
    let header = BlockHeader {
        height: 5,
        prev_hash: [1u8; 32],
        transactions_root: [2u8; 32],
        state_root: [3u8; 32],
        timestamp: 99,
        proposer: [4u8; 32],
    };
    let block = Block {
        header,
        transactions: every_instruction().into_iter().map(transaction).collect(),
        votes: vec![Vote { validator: [5u8; 32], signature: vec![6u8; 64] }, Vote { validator: [7u8; 32], signature: vec![] }],
    };
    let bytes = block.to_bytes();
    let back = Block::from_bytes(&bytes).expect("decodes");
    assert_eq!(back, block);
    assert_eq!(back.to_bytes(), bytes);
    assert!(Block::from_bytes(&bytes[..bytes.len() - 1]).is_none());

    let empty = Block { header, transactions: vec![], votes: vec![] };
    assert_eq!(empty.to_bytes().len(), 144 + 16);
    assert!(Block::from_bytes(&empty.to_bytes()).is_some());
}

#[test]
fn block_hash_is_the_hash_of_the_header() {
    let header = BlockHeader {
        height: 5,
        prev_hash: [1u8; 32],
        transactions_root: [2u8; 32],
        state_root: [3u8; 32],
        timestamp: 99,
        proposer: [4u8; 32],
    };
    let encoded = bincode::serialize(&(5u64, [1u8; 32], [2u8; 32], [3u8; 32], 99u64, [4u8; 32])).unwrap();
    assert_eq!(header.hash(), *blake3::hash(&encoded).as_bytes());
    let with_body = Block { header, transactions: vec![transaction(StablecoinInstruction::TriggerStabilizer)], votes: vec![] };
    let without = Block { header, transactions: vec![], votes: vec![] };
    assert_eq!(with_body.hash(), without.hash());
    assert_eq!(with_body.hash(), header.hash());
}
