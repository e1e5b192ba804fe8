//! The instructions that a transaction can carry.

use vstd::prelude::*;
use crate::views::list_bytes;

verus! {

/// An asset that the ledger accounts for.
#[derive(Clone, Debug, PartialEq, Eq)]
pub enum AssetType {
    /// The senior, peg-targeted unit.
    LUSD,
    /// The junior, risk-absorbing unit.
    LJUN,
    /// The native gas unit.
    Lumina(u64),
    /// An asset named by its ticker, given as UTF-8 bytes.
    Custom(Vec<u8>),
}

/// The mathematical value of an [`AssetType`].
pub enum AssetView {
    LUSD,
    LJUN,
    Lumina(u64),
    Custom(Seq<u8>),
}

impl View for AssetType {
    type V = AssetView;

    open spec fn view(&self) -> AssetView {
        match self {
            AssetType::LUSD => AssetView::LUSD,
            AssetType::LJUN => AssetView::LJUN,
            AssetType::Lumina(units) => AssetView::Lumina(*units),
            AssetType::Custom(ticker) => AssetView::Custom(ticker@),
        }
    }
}

/// One instruction of the ledger. The position of a variant in this list is
/// its tag on the wire, so new variants are only ever appended.
///
/// Tickers are UTF-8 bytes. The two ratios that the wire carries as binary
/// floating point are held as their bit patterns: no instruction computes
/// with them.
#[derive(Clone, Debug, PartialEq, Eq)]
#[allow(inconsistent_fields)]
pub enum StablecoinInstruction {
    RegisterAsset { ticker: Vec<u8>, decimals: u8 },
    MintSenior { amount: u64, collateral_amount: u64, proof: Vec<u8> },
    RedeemSenior { amount: u64 },
    MintJunior { amount: u64, collateral_amount: u64 },
    RedeemJunior { amount: u64 },
    Burn { amount: u64, asset: AssetType },
    Transfer { to: [u8; 32], amount: u64, asset: AssetType },
    RebalanceTranches,
    DistributeYield { total_yield: u64 },
    TriggerStabilizer,
    RunCircuitBreaker { active: bool },
    FairRedeemQueue { batch_size: u32 },
    ConfidentialTransfer { commitment: [u8; 32], proof: Vec<u8> },
    ProveCompliance { tx_hash: [u8; 32], proof: Vec<u8> },
    ZkTaxAttest { period: u64, proof: Vec<u8> },
    MultiJurisdictionalCheck { jurisdiction_id: u32, proof: Vec<u8> },
    UpdateOracle { asset: Vec<u8>, price: u64, timestamp: u64, signature: Vec<u8> },
    SubmitZkPoR { proof: Vec<u8>, total_reserves: u64, timestamp: u64 },
    InstantFiatBridge { amount: u64, target_bank_id: [u8; 16], mpc_sig: Vec<u8> },
    ZeroSlipBatchMatch { orders: Vec<[u8; 32]> },
    DynamicHedge { ratio_bits: u64 },
    GeoRebalance { zone_id: u32 },
    VelocityIncentive { multiplier_bits: u32 },
    StreamPayment { to: [u8; 32], amount_per_sec: u64, duration: u64 },
    RegisterValidator { pubkey: [u8; 32], stake: u64 },
    Vote { proposal_id: u64, vote: bool },
    WrapToYieldToken { amount: u64, maturity_blocks: u64 },
    UnwrapYieldToken { token_id: u64 },
    ComputeHealthIndex,
    CreatePasskeyAccount { device_key: Vec<u8>, guardians: Vec<[u8; 32]> },
}

/// The mathematical value of a [`StablecoinInstruction`].
#[allow(inconsistent_fields)]
pub enum InstructionView {
    RegisterAsset { ticker: Seq<u8>, decimals: u8 },
    MintSenior { amount: u64, collateral_amount: u64, proof: Seq<u8> },
    RedeemSenior { amount: u64 },
    MintJunior { amount: u64, collateral_amount: u64 },
    RedeemJunior { amount: u64 },
    Burn { amount: u64, asset: AssetView },
    Transfer { to: Seq<u8>, amount: u64, asset: AssetView },
    RebalanceTranches,
    DistributeYield { total_yield: u64 },
    TriggerStabilizer,
    RunCircuitBreaker { active: bool },
    FairRedeemQueue { batch_size: u32 },
    ConfidentialTransfer { commitment: Seq<u8>, proof: Seq<u8> },
    ProveCompliance { tx_hash: Seq<u8>, proof: Seq<u8> },
    ZkTaxAttest { period: u64, proof: Seq<u8> },
    MultiJurisdictionalCheck { jurisdiction_id: u32, proof: Seq<u8> },
    UpdateOracle { asset: Seq<u8>, price: u64, timestamp: u64, signature: Seq<u8> },
    SubmitZkPoR { proof: Seq<u8>, total_reserves: u64, timestamp: u64 },
    InstantFiatBridge { amount: u64, target_bank_id: Seq<u8>, mpc_sig: Seq<u8> },
    ZeroSlipBatchMatch { orders: Seq<Seq<u8>> },
    DynamicHedge { ratio_bits: u64 },
    GeoRebalance { zone_id: u32 },
    VelocityIncentive { multiplier_bits: u32 },
    StreamPayment { to: Seq<u8>, amount_per_sec: u64, duration: u64 },
    RegisterValidator { pubkey: Seq<u8>, stake: u64 },
    Vote { proposal_id: u64, vote: bool },
    WrapToYieldToken { amount: u64, maturity_blocks: u64 },
    UnwrapYieldToken { token_id: u64 },
    ComputeHealthIndex,
    CreatePasskeyAccount { device_key: Seq<u8>, guardians: Seq<Seq<u8>> },
}

impl View for StablecoinInstruction {
    type V = InstructionView;

    open spec fn view(&self) -> InstructionView {
        match self {
            StablecoinInstruction::RegisterAsset { ticker, decimals } => InstructionView::RegisterAsset {
                ticker: ticker@,
                decimals: *decimals,
            },
            StablecoinInstruction::MintSenior {
                amount,
                collateral_amount,
                proof,
            } => InstructionView::MintSenior {
                amount: *amount,
                collateral_amount: *collateral_amount,
                proof: proof@,
            },
            StablecoinInstruction::RedeemSenior { amount } => InstructionView::RedeemSenior {
                amount: *amount,
            },
            StablecoinInstruction::MintJunior { amount, collateral_amount } => InstructionView::MintJunior {
                amount: *amount,
                collateral_amount: *collateral_amount,
            },
            StablecoinInstruction::RedeemJunior { amount } => InstructionView::RedeemJunior {
                amount: *amount,
            },
            StablecoinInstruction::Burn { amount, asset } => InstructionView::Burn {
                amount: *amount,
                asset: asset@,
            },
            StablecoinInstruction::Transfer { to, amount, asset } => InstructionView::Transfer {
                to: to@,
                amount: *amount,
                asset: asset@,
            },
            StablecoinInstruction::RebalanceTranches => InstructionView::RebalanceTranches,
            StablecoinInstruction::DistributeYield { total_yield } => InstructionView::DistributeYield {
                total_yield: *total_yield,
            },
            StablecoinInstruction::TriggerStabilizer => InstructionView::TriggerStabilizer,
            StablecoinInstruction::RunCircuitBreaker { active } => InstructionView::RunCircuitBreaker {
                active: *active,
            },
            StablecoinInstruction::FairRedeemQueue { batch_size } => InstructionView::FairRedeemQueue {
                batch_size: *batch_size,
            },
            StablecoinInstruction::ConfidentialTransfer {
                commitment,
                proof,
            } => InstructionView::ConfidentialTransfer { commitment: commitment@, proof: proof@ },
            StablecoinInstruction::ProveCompliance { tx_hash, proof } => InstructionView::ProveCompliance {
                tx_hash: tx_hash@,
                proof: proof@,
            },
            StablecoinInstruction::ZkTaxAttest { period, proof } => InstructionView::ZkTaxAttest {
                period: *period,
                proof: proof@,
            },
            StablecoinInstruction::MultiJurisdictionalCheck {
                jurisdiction_id,
                proof,
            } => InstructionView::MultiJurisdictionalCheck {
                jurisdiction_id: *jurisdiction_id,
                proof: proof@,
            },
            StablecoinInstruction::UpdateOracle {
                asset,
                price,
                timestamp,
                signature,
            } => InstructionView::UpdateOracle {
                asset: asset@,
                price: *price,
                timestamp: *timestamp,
                signature: signature@,
            },
            StablecoinInstruction::SubmitZkPoR {
                proof,
                total_reserves,
                timestamp,
            } => InstructionView::SubmitZkPoR {
                proof: proof@,
                total_reserves: *total_reserves,
                timestamp: *timestamp,
            },
            StablecoinInstruction::InstantFiatBridge {
                amount,
                target_bank_id,
                mpc_sig,
            } => InstructionView::InstantFiatBridge {
                amount: *amount,
                target_bank_id: target_bank_id@,
                mpc_sig: mpc_sig@,
            },
            StablecoinInstruction::ZeroSlipBatchMatch { orders } => InstructionView::ZeroSlipBatchMatch {
                orders: list_bytes(orders@),
            },
            StablecoinInstruction::DynamicHedge { ratio_bits } => InstructionView::DynamicHedge {
                ratio_bits: *ratio_bits,
            },
            StablecoinInstruction::GeoRebalance { zone_id } => InstructionView::GeoRebalance {
                zone_id: *zone_id,
            },
            StablecoinInstruction::VelocityIncentive { multiplier_bits } => InstructionView::VelocityIncentive {
                multiplier_bits: *multiplier_bits,
            },
            StablecoinInstruction::StreamPayment {
                to,
                amount_per_sec,
                duration,
            } => InstructionView::StreamPayment {
                to: to@,
                amount_per_sec: *amount_per_sec,
                duration: *duration,
            },
            StablecoinInstruction::RegisterValidator { pubkey, stake } => InstructionView::RegisterValidator {
                pubkey: pubkey@,
                stake: *stake,
            },
            StablecoinInstruction::Vote { proposal_id, vote } => InstructionView::Vote {
                proposal_id: *proposal_id,
                vote: *vote,
            },
            StablecoinInstruction::WrapToYieldToken {
                amount,
                maturity_blocks,
            } => InstructionView::WrapToYieldToken {
                amount: *amount,
                maturity_blocks: *maturity_blocks,
            },
            StablecoinInstruction::UnwrapYieldToken { token_id } => InstructionView::UnwrapYieldToken {
                token_id: *token_id,
            },
            StablecoinInstruction::ComputeHealthIndex => InstructionView::ComputeHealthIndex,
            StablecoinInstruction::CreatePasskeyAccount {
                device_key,
                guardians,
            } => InstructionView::CreatePasskeyAccount {
                device_key: device_key@,
                guardians: list_bytes(guardians@),
            },
        }
    }
}

} // verus!
