//! The wire format of instructions.

use vstd::prelude::*;
use crate::instruction::{AssetType, AssetView, InstructionView, StablecoinInstruction};
use crate::views::list_bytes;
use crate::wire::{
    dec_bool, dec_bytes, dec_raw, dec_u32, dec_u64, dec_u8, enc_bool, enc_bytes, enc_u32, enc_u64,
    enc_u8, holds_at, lemma_holds_split, lemma_read_bool, lemma_read_raw, lemma_read_u32,
    lemma_read_u64, lemma_read_u8, lemma_read_vec, put_bool, put_bytes, put_raw, put_u32, put_u64,
    put_u8, read_bool, read_bytes, read_hash, read_u32, read_u64, read_u8,
};
use crate::wire_list::{
    dec_hash_list, enc_hash_list, lemma_read_hash_vec, put_hash_list, read_hash_list,
};

verus! {

/// The encoding of an asset: the tag of its variant, then what it carries.
pub open spec fn enc_asset(asset: AssetView) -> Seq<u8> {
    match asset {
        AssetView::LUSD => enc_u32(0),
        AssetView::LJUN => enc_u32(1),
        AssetView::Lumina(units) => enc_u32(2) + enc_u64(units),
        AssetView::Custom(ticker) => enc_u32(3) + enc_bytes(ticker),
    }
}

/// What is read as an asset at `pos`, and where reading goes on.
pub open spec fn dec_asset(s: Seq<u8>, pos: int) -> Option<(AssetView, int)> {
    match dec_u32(s, pos) {
        Some((tag, next)) => if tag == 0 {
            Some((AssetView::LUSD, next))
        } else if tag == 1 {
            Some((AssetView::LJUN, next))
        } else if tag == 2 {
            match dec_u64(s, next) {
                Some((units, end)) => Some((AssetView::Lumina(units), end)),
                None => None,
            }
        } else if tag == 3 {
            match dec_bytes(s, next) {
                Some((ticker, end)) => Some((AssetView::Custom(ticker), end)),
                None => None,
            }
        } else {
            None
        },
        None => None,
    }
}

/// An asset that stands at `pos` is read back.
pub proof fn lemma_read_asset(s: Seq<u8>, pos: int, asset: AssetType)
    requires
        holds_at(s, pos, enc_asset(asset@)),
    ensures
        dec_asset(s, pos) == Some((asset@, pos + enc_asset(asset@).len())),
{
    match asset {
        AssetType::LUSD => {
            lemma_read_u32(s, pos, 0);
        },
        AssetType::LJUN => {
            lemma_read_u32(s, pos, 1);
        },
        AssetType::Lumina(units) => {
            lemma_holds_split(s, pos, enc_u32(2), enc_u64(units));
            lemma_read_u32(s, pos, 2);
            lemma_read_u64(s, pos + 4, units);
        },
        AssetType::Custom(ticker) => {
            lemma_holds_split(s, pos, enc_u32(3), enc_bytes(ticker@));
            lemma_read_u32(s, pos, 3);
            lemma_read_vec(s, pos + 4, ticker);
        },
    }
}

/// Appends the encoding of an asset.
pub fn put_asset(out: &mut Vec<u8>, asset: &AssetType)
    ensures
        final(out)@ == old(out)@ + enc_asset(asset@),
{
    match asset {
        AssetType::LUSD => {
            put_u32(out, 0);
        },
        AssetType::LJUN => {
            put_u32(out, 1);
        },
        AssetType::Lumina(units) => {
            put_u32(out, 2);
            put_u64(out, *units);
        },
        AssetType::Custom(ticker) => {
            put_u32(out, 3);
            put_bytes(out, ticker.as_slice());
        },
    }
    assert(out@ =~= old(out)@ + enc_asset(asset@));
}

/// Reads an asset at `pos`.
pub fn read_asset(input: &[u8], pos: usize) -> (read: Option<(AssetType, usize)>)
    ensures
        match read {
            Some((asset, next)) => dec_asset(input@, pos as int) == Some((asset@, next as int)),
            None => dec_asset(input@, pos as int) is None,
        },
{
    let (tag, start) = match read_u32(input, pos) {
        Some(read) => read,
        None => {
            return None;
        },
    };
    if tag == 0 {
        Some((AssetType::LUSD, start))
    } else if tag == 1 {
        Some((AssetType::LJUN, start))
    } else if tag == 2 {
        match read_u64(input, start) {
            Some((units, end)) => Some((AssetType::Lumina(units), end)),
            None => None,
        }
    } else if tag == 3 {
        match read_bytes(input, start) {
            Some((ticker, end)) => Some((AssetType::Custom(ticker), end)),
            None => None,
        }
    } else {
        None
    }
}

/// Reads the 16 bytes that name a bank at `pos`.
pub fn read_bank_id(input: &[u8], pos: usize) -> (read: Option<([u8; 16], usize)>)
    ensures
        match read {
            Some((id, next)) => dec_raw(input@, pos as int, 16) == Some((id@, next as int)),
            None => dec_raw(input@, pos as int, 16) is None,
        },
{
    if pos <= input.len() && input.len() - pos >= 16 {
        let mut id = [0u8; 16];
        let mut i: usize = 0;
        while i < 16
            invariant
                i <= 16,
                pos + 16 <= input@.len(),
                pos + 16 <= usize::MAX,
                forall|j: int| 0 <= j < i ==> id@[j] == input@[pos + j],
            decreases 16 - i,
        {
            id[i] = input[pos + i];
            i += 1;
        }
        assert(id@ =~= input@.subrange(pos as int, pos + 16));
        Some((id, pos + 16))
    } else {
        None
    }
}

/// The encoding of an instruction: the tag of its variant, then its fields
/// in order.
pub open spec fn enc_instruction(instruction: InstructionView) -> Seq<u8> {
    match instruction {
        InstructionView::RegisterAsset { ticker, decimals } => enc_u32(0) + (
            enc_bytes(ticker) + enc_u8(decimals)
        ),
        InstructionView::MintSenior { amount, collateral_amount, proof: evidence } => enc_u32(1) + (
            enc_u64(amount) + (enc_u64(collateral_amount) + enc_bytes(evidence))
        ),
        InstructionView::RedeemSenior { amount } => enc_u32(2) + enc_u64(amount),
        InstructionView::MintJunior { amount, collateral_amount } => enc_u32(3) + (
            enc_u64(amount) + enc_u64(collateral_amount)
        ),
        InstructionView::RedeemJunior { amount } => enc_u32(4) + enc_u64(amount),
        InstructionView::Burn { amount, asset } => enc_u32(5) + (
            enc_u64(amount) + enc_asset(asset)
        ),
        InstructionView::Transfer { to, amount, asset } => enc_u32(6) + (
            to + (enc_u64(amount) + enc_asset(asset))
        ),
        InstructionView::RebalanceTranches => enc_u32(7),
        InstructionView::DistributeYield { total_yield } => enc_u32(8) + enc_u64(total_yield),
        InstructionView::TriggerStabilizer => enc_u32(9),
        InstructionView::RunCircuitBreaker { active } => enc_u32(10) + enc_bool(active),
        InstructionView::FairRedeemQueue { batch_size } => enc_u32(11) + enc_u32(batch_size),
        InstructionView::ConfidentialTransfer { commitment, proof: evidence } => enc_u32(12) + (
            commitment + enc_bytes(evidence)
        ),
        InstructionView::ProveCompliance { tx_hash, proof: evidence } => enc_u32(13) + (
            tx_hash + enc_bytes(evidence)
        ),
        InstructionView::ZkTaxAttest { period, proof: evidence } => enc_u32(14) + (
            enc_u64(period) + enc_bytes(evidence)
        ),
        InstructionView::MultiJurisdictionalCheck { jurisdiction_id, proof: evidence } => enc_u32(
            15,
        ) + (
            enc_u32(jurisdiction_id) + enc_bytes(evidence)
        ),
        InstructionView::UpdateOracle { asset, price, timestamp, signature } => enc_u32(16) + (
            enc_bytes(asset) + (enc_u64(price) + (enc_u64(timestamp) + enc_bytes(signature)))
        ),
        InstructionView::SubmitZkPoR { proof: evidence, total_reserves, timestamp } => enc_u32(
            17,
        ) + (
            enc_bytes(evidence) + (enc_u64(total_reserves) + enc_u64(timestamp))
        ),
        InstructionView::InstantFiatBridge { amount, target_bank_id, mpc_sig } => enc_u32(18) + (
            enc_u64(amount) + (target_bank_id + enc_bytes(mpc_sig))
        ),
        InstructionView::ZeroSlipBatchMatch { orders } => enc_u32(19) + enc_hash_list(orders),
        InstructionView::DynamicHedge { ratio_bits } => enc_u32(20) + enc_u64(ratio_bits),
        InstructionView::GeoRebalance { zone_id } => enc_u32(21) + enc_u32(zone_id),
        InstructionView::VelocityIncentive { multiplier_bits } => enc_u32(22) + enc_u32(
            multiplier_bits,
        ),
        InstructionView::StreamPayment { to, amount_per_sec, duration } => enc_u32(23) + (
            to + (enc_u64(amount_per_sec) + enc_u64(duration))
        ),
        InstructionView::RegisterValidator { pubkey, stake } => enc_u32(24) + (
            pubkey + enc_u64(stake)
        ),
        InstructionView::Vote { proposal_id, vote } => enc_u32(25) + (
            enc_u64(proposal_id) + enc_bool(vote)
        ),
        InstructionView::WrapToYieldToken { amount, maturity_blocks } => enc_u32(26) + (
            enc_u64(amount) + enc_u64(maturity_blocks)
        ),
        InstructionView::UnwrapYieldToken { token_id } => enc_u32(27) + enc_u64(token_id),
        InstructionView::ComputeHealthIndex => enc_u32(28),
        InstructionView::CreatePasskeyAccount { device_key, guardians } => enc_u32(29) + (
            enc_bytes(device_key) + enc_hash_list(guardians)
        ),
    }
}

/// The fields of the variant with the given tag, read at `pos`.
#[verifier::opaque]
pub open spec fn dec_fields(s: Seq<u8>, tag: u32, pos: int) -> Option<(InstructionView, int)> {
    if tag == 0 {
        match dec_bytes(s, pos) {
            Some((ticker, at1)) => match dec_u8(s, at1) {
                Some((decimals, at2)) => Some(
                    (InstructionView::RegisterAsset { ticker, decimals }, at2),
                ),
                None => None,
            },
            None => None,
        }
    } else if tag == 1 {
        match dec_u64(s, pos) {
            Some((amount, at1)) => match dec_u64(s, at1) {
                Some((collateral_amount, at2)) => match dec_bytes(s, at2) {
                    Some((evidence, at3)) => Some(
                        (
                            InstructionView::MintSenior {
                                amount,
                                collateral_amount,
                                proof: evidence,
                            },
                            at3,
                        ),
                    ),
                    None => None,
                },
                None => None,
            },
            None => None,
        }
    } else if tag == 2 {
        match dec_u64(s, pos) {
            Some((amount, at1)) => Some((InstructionView::RedeemSenior { amount }, at1)),
            None => None,
        }
    } else if tag == 3 {
        match dec_u64(s, pos) {
            Some((amount, at1)) => match dec_u64(s, at1) {
                Some((collateral_amount, at2)) => Some(
                    (InstructionView::MintJunior { amount, collateral_amount }, at2),
                ),
                None => None,
            },
            None => None,
        }
    } else if tag == 4 {
        match dec_u64(s, pos) {
            Some((amount, at1)) => Some((InstructionView::RedeemJunior { amount }, at1)),
            None => None,
        }
    } else if tag == 5 {
        match dec_u64(s, pos) {
            Some((amount, at1)) => match dec_asset(s, at1) {
                Some((asset, at2)) => Some((InstructionView::Burn { amount, asset }, at2)),
                None => None,
            },
            None => None,
        }
    } else if tag == 6 {
        match dec_raw(s, pos, 32) {
            Some((to, at1)) => match dec_u64(s, at1) {
                Some((amount, at2)) => match dec_asset(s, at2) {
                    Some((asset, at3)) => Some(
                        (InstructionView::Transfer { to, amount, asset }, at3),
                    ),
                    None => None,
                },
                None => None,
            },
            None => None,
        }
    } else if tag == 7 {
        Some((InstructionView::RebalanceTranches, pos))
    } else if tag == 8 {
        match dec_u64(s, pos) {
            Some((total_yield, at1)) => Some((InstructionView::DistributeYield { total_yield }, at1)),
            None => None,
        }
    } else if tag == 9 {
        Some((InstructionView::TriggerStabilizer, pos))
    } else if tag == 10 {
        match dec_bool(s, pos) {
            Some((active, at1)) => Some((InstructionView::RunCircuitBreaker { active }, at1)),
            None => None,
        }
    } else if tag == 11 {
        match dec_u32(s, pos) {
            Some((batch_size, at1)) => Some((InstructionView::FairRedeemQueue { batch_size }, at1)),
            None => None,
        }
    } else if tag == 12 {
        match dec_raw(s, pos, 32) {
            Some((commitment, at1)) => match dec_bytes(s, at1) {
                Some((evidence, at2)) => Some(
                    (InstructionView::ConfidentialTransfer { commitment, proof: evidence }, at2),
                ),
                None => None,
            },
            None => None,
        }
    } else if tag == 13 {
        match dec_raw(s, pos, 32) {
            Some((tx_hash, at1)) => match dec_bytes(s, at1) {
                Some((evidence, at2)) => Some(
                    (InstructionView::ProveCompliance { tx_hash, proof: evidence }, at2),
                ),
                None => None,
            },
            None => None,
        }
    } else if tag == 14 {
        match dec_u64(s, pos) {
            Some((period, at1)) => match dec_bytes(s, at1) {
                Some((evidence, at2)) => Some(
                    (InstructionView::ZkTaxAttest { period, proof: evidence }, at2),
                ),
                None => None,
            },
            None => None,
        }
    } else if tag == 15 {
        match dec_u32(s, pos) {
            Some((jurisdiction_id, at1)) => match dec_bytes(s, at1) {
                Some((evidence, at2)) => Some(
                    (
                        InstructionView::MultiJurisdictionalCheck {
                            jurisdiction_id,
                            proof: evidence,
                        },
                        at2,
                    ),
                ),
                None => None,
            },
            None => None,
        }
    } else if tag == 16 {
        match dec_bytes(s, pos) {
            Some((asset, at1)) => match dec_u64(s, at1) {
                Some((price, at2)) => match dec_u64(s, at2) {
                    Some((timestamp, at3)) => match dec_bytes(s, at3) {
                        Some((signature, at4)) => Some(
                            (
                                InstructionView::UpdateOracle {
                                    asset,
                                    price,
                                    timestamp,
                                    signature,
                                },
                                at4,
                            ),
                        ),
                        None => None,
                    },
                    None => None,
                },
                None => None,
            },
            None => None,
        }
    } else if tag == 17 {
        match dec_bytes(s, pos) {
            Some((evidence, at1)) => match dec_u64(s, at1) {
                Some((total_reserves, at2)) => match dec_u64(s, at2) {
                    Some((timestamp, at3)) => Some(
                        (
                            InstructionView::SubmitZkPoR {
                                proof: evidence,
                                total_reserves,
                                timestamp,
                            },
                            at3,
                        ),
                    ),
                    None => None,
                },
                None => None,
            },
            None => None,
        }
    } else if tag == 18 {
        match dec_u64(s, pos) {
            Some((amount, at1)) => match dec_raw(s, at1, 16) {
                Some((target_bank_id, at2)) => match dec_bytes(s, at2) {
                    Some((mpc_sig, at3)) => Some(
                        (
                            InstructionView::InstantFiatBridge { amount, target_bank_id, mpc_sig },
                            at3,
                        ),
                    ),
                    None => None,
                },
                None => None,
            },
            None => None,
        }
    } else if tag == 19 {
        match dec_hash_list(s, pos) {
            Some((orders, at1)) => Some((InstructionView::ZeroSlipBatchMatch { orders }, at1)),
            None => None,
        }
    } else if tag == 20 {
        match dec_u64(s, pos) {
            Some((ratio_bits, at1)) => Some((InstructionView::DynamicHedge { ratio_bits }, at1)),
            None => None,
        }
    } else if tag == 21 {
        match dec_u32(s, pos) {
            Some((zone_id, at1)) => Some((InstructionView::GeoRebalance { zone_id }, at1)),
            None => None,
        }
    } else if tag == 22 {
        match dec_u32(s, pos) {
            Some((multiplier_bits, at1)) => Some(
                (InstructionView::VelocityIncentive { multiplier_bits }, at1),
            ),
            None => None,
        }
    } else if tag == 23 {
        match dec_raw(s, pos, 32) {
            Some((to, at1)) => match dec_u64(s, at1) {
                Some((amount_per_sec, at2)) => match dec_u64(s, at2) {
                    Some((duration, at3)) => Some(
                        (InstructionView::StreamPayment { to, amount_per_sec, duration }, at3),
                    ),
                    None => None,
                },
                None => None,
            },
            None => None,
        }
    } else if tag == 24 {
        match dec_raw(s, pos, 32) {
            Some((pubkey, at1)) => match dec_u64(s, at1) {
                Some((stake, at2)) => Some(
                    (InstructionView::RegisterValidator { pubkey, stake }, at2),
                ),
                None => None,
            },
            None => None,
        }
    } else if tag == 25 {
        match dec_u64(s, pos) {
            Some((proposal_id, at1)) => match dec_bool(s, at1) {
                Some((vote, at2)) => Some((InstructionView::Vote { proposal_id, vote }, at2)),
                None => None,
            },
            None => None,
        }
    } else if tag == 26 {
        match dec_u64(s, pos) {
            Some((amount, at1)) => match dec_u64(s, at1) {
                Some((maturity_blocks, at2)) => Some(
                    (InstructionView::WrapToYieldToken { amount, maturity_blocks }, at2),
                ),
                None => None,
            },
            None => None,
        }
    } else if tag == 27 {
        match dec_u64(s, pos) {
            Some((token_id, at1)) => Some((InstructionView::UnwrapYieldToken { token_id }, at1)),
            None => None,
        }
    } else if tag == 28 {
        Some((InstructionView::ComputeHealthIndex, pos))
    } else if tag == 29 {
        match dec_bytes(s, pos) {
            Some((device_key, at1)) => match dec_hash_list(s, at1) {
                Some((guardians, at2)) => Some(
                    (InstructionView::CreatePasskeyAccount { device_key, guardians }, at2),
                ),
                None => None,
            },
            None => None,
        }
    } else {
        None
    }
}

/// What is read as an instruction at `pos`, and where reading goes on.
pub open spec fn dec_instruction(s: Seq<u8>, pos: int) -> Option<(InstructionView, int)> {
    match dec_u32(s, pos) {
        Some((tag, next)) => dec_fields(s, tag, next),
        None => None,
    }
}

/// The fields of `RegisterAsset`, standing at `pos`, are read back.
proof fn lemma_fields_register_asset(s: Seq<u8>, pos: int, ticker: Vec<u8>, decimals: u8)
    requires
        holds_at(s, pos, enc_bytes(ticker@) + enc_u8(decimals)),
    ensures
        dec_fields(s, 0, pos) == Some(
            (
                InstructionView::RegisterAsset { ticker: ticker@, decimals },
                pos + (enc_bytes(ticker@) + enc_u8(decimals)).len(),
            ),
        ),
{
    reveal(dec_fields);
    lemma_holds_split(s, pos, enc_bytes(ticker@), enc_u8(decimals));
    lemma_read_vec(s, pos, ticker);
    lemma_read_u8(s, pos + enc_bytes(ticker@).len(), decimals);
}

/// The fields of `MintSenior`, standing at `pos`, are read back.
proof fn lemma_fields_mint_senior(
    s: Seq<u8>,
    pos: int,
    amount: u64,
    collateral_amount: u64,
    evidence: Vec<u8>,
)
    requires
        holds_at(s, pos, enc_u64(amount) + (enc_u64(collateral_amount) + enc_bytes(evidence@))),
    ensures
        dec_fields(s, 1, pos) == Some(
            (
                InstructionView::MintSenior { amount, collateral_amount, proof: evidence@ },
                pos + (enc_u64(amount) + (enc_u64(collateral_amount) + enc_bytes(evidence@))).len(),
            ),
        ),
{
    reveal(dec_fields);
    lemma_holds_split(s, pos, enc_u64(amount), enc_u64(collateral_amount) + enc_bytes(evidence@));
    lemma_read_u64(s, pos, amount);
    lemma_holds_split(
        s,
        pos + enc_u64(amount).len(),
        enc_u64(collateral_amount),
        enc_bytes(evidence@),
    );
    lemma_read_u64(s, pos + enc_u64(amount).len(), collateral_amount);
    lemma_read_vec(s, pos + enc_u64(amount).len() + enc_u64(collateral_amount).len(), evidence);
}

/// The fields of `RedeemSenior`, standing at `pos`, are read back.
proof fn lemma_fields_redeem_senior(s: Seq<u8>, pos: int, amount: u64)
    requires
        holds_at(s, pos, enc_u64(amount)),
    ensures
        dec_fields(s, 2, pos) == Some(
            (InstructionView::RedeemSenior { amount }, pos + enc_u64(amount).len()),
        ),
{
    reveal(dec_fields);
    lemma_read_u64(s, pos, amount);
}

/// The fields of `MintJunior`, standing at `pos`, are read back.
proof fn lemma_fields_mint_junior(s: Seq<u8>, pos: int, amount: u64, collateral_amount: u64)
    requires
        holds_at(s, pos, enc_u64(amount) + enc_u64(collateral_amount)),
    ensures
        dec_fields(s, 3, pos) == Some(
            (
                InstructionView::MintJunior { amount, collateral_amount },
                pos + (enc_u64(amount) + enc_u64(collateral_amount)).len(),
            ),
        ),
{
    reveal(dec_fields);
    lemma_holds_split(s, pos, enc_u64(amount), enc_u64(collateral_amount));
    lemma_read_u64(s, pos, amount);
    lemma_read_u64(s, pos + enc_u64(amount).len(), collateral_amount);
}

/// The fields of `RedeemJunior`, standing at `pos`, are read back.
proof fn lemma_fields_redeem_junior(s: Seq<u8>, pos: int, amount: u64)
    requires
        holds_at(s, pos, enc_u64(amount)),
    ensures
        dec_fields(s, 4, pos) == Some(
            (InstructionView::RedeemJunior { amount }, pos + enc_u64(amount).len()),
        ),
{
    reveal(dec_fields);
    lemma_read_u64(s, pos, amount);
}

/// The fields of `Burn`, standing at `pos`, are read back.
proof fn lemma_fields_burn(s: Seq<u8>, pos: int, amount: u64, asset: AssetType)
    requires
        holds_at(s, pos, enc_u64(amount) + enc_asset(asset@)),
    ensures
        dec_fields(s, 5, pos) == Some(
            (
                InstructionView::Burn { amount, asset: asset@ },
                pos + (enc_u64(amount) + enc_asset(asset@)).len(),
            ),
        ),
{
    reveal(dec_fields);
    lemma_holds_split(s, pos, enc_u64(amount), enc_asset(asset@));
    lemma_read_u64(s, pos, amount);
    lemma_read_asset(s, pos + enc_u64(amount).len(), asset);
}

/// The fields of `Transfer`, standing at `pos`, are read back.
proof fn lemma_fields_transfer(s: Seq<u8>, pos: int, to: [u8; 32], amount: u64, asset: AssetType)
    requires
        holds_at(s, pos, to@ + (enc_u64(amount) + enc_asset(asset@))),
    ensures
        dec_fields(s, 6, pos) == Some(
            (
                InstructionView::Transfer { to: to@, amount, asset: asset@ },
                pos + (to@ + (enc_u64(amount) + enc_asset(asset@))).len(),
            ),
        ),
{
    reveal(dec_fields);
    lemma_holds_split(s, pos, to@, enc_u64(amount) + enc_asset(asset@));
    lemma_read_raw(s, pos, to@);
    lemma_holds_split(s, pos + to@.len(), enc_u64(amount), enc_asset(asset@));
    lemma_read_u64(s, pos + to@.len(), amount);
    lemma_read_asset(s, pos + to@.len() + enc_u64(amount).len(), asset);
}

/// The fields of `DistributeYield`, standing at `pos`, are read back.
proof fn lemma_fields_distribute_yield(s: Seq<u8>, pos: int, total_yield: u64)
    requires
        holds_at(s, pos, enc_u64(total_yield)),
    ensures
        dec_fields(s, 8, pos) == Some(
            (InstructionView::DistributeYield { total_yield }, pos + enc_u64(total_yield).len()),
        ),
{
    reveal(dec_fields);
    lemma_read_u64(s, pos, total_yield);
}

/// The fields of `RunCircuitBreaker`, standing at `pos`, are read back.
proof fn lemma_fields_run_circuit_breaker(s: Seq<u8>, pos: int, active: bool)
    requires
        holds_at(s, pos, enc_bool(active)),
    ensures
        dec_fields(s, 10, pos) == Some(
            (InstructionView::RunCircuitBreaker { active }, pos + enc_bool(active).len()),
        ),
{
    reveal(dec_fields);
    lemma_read_bool(s, pos, active);
}

/// The fields of `FairRedeemQueue`, standing at `pos`, are read back.
proof fn lemma_fields_fair_redeem_queue(s: Seq<u8>, pos: int, batch_size: u32)
    requires
        holds_at(s, pos, enc_u32(batch_size)),
    ensures
        dec_fields(s, 11, pos) == Some(
            (InstructionView::FairRedeemQueue { batch_size }, pos + enc_u32(batch_size).len()),
        ),
{
    reveal(dec_fields);
    lemma_read_u32(s, pos, batch_size);
}

/// The fields of `ConfidentialTransfer`, standing at `pos`, are read back.
proof fn lemma_fields_confidential_transfer(
    s: Seq<u8>,
    pos: int,
    commitment: [u8; 32],
    evidence: Vec<u8>,
)
    requires
        holds_at(s, pos, commitment@ + enc_bytes(evidence@)),
    ensures
        dec_fields(s, 12, pos) == Some(
            (
                InstructionView::ConfidentialTransfer { commitment: commitment@, proof: evidence@ },
                pos + (commitment@ + enc_bytes(evidence@)).len(),
            ),
        ),
{
    reveal(dec_fields);
    lemma_holds_split(s, pos, commitment@, enc_bytes(evidence@));
    lemma_read_raw(s, pos, commitment@);
    lemma_read_vec(s, pos + commitment@.len(), evidence);
}

/// The fields of `ProveCompliance`, standing at `pos`, are read back.
proof fn lemma_fields_prove_compliance(s: Seq<u8>, pos: int, tx_hash: [u8; 32], evidence: Vec<u8>)
    requires
        holds_at(s, pos, tx_hash@ + enc_bytes(evidence@)),
    ensures
        dec_fields(s, 13, pos) == Some(
            (
                InstructionView::ProveCompliance { tx_hash: tx_hash@, proof: evidence@ },
                pos + (tx_hash@ + enc_bytes(evidence@)).len(),
            ),
        ),
{
    reveal(dec_fields);
    lemma_holds_split(s, pos, tx_hash@, enc_bytes(evidence@));
    lemma_read_raw(s, pos, tx_hash@);
    lemma_read_vec(s, pos + tx_hash@.len(), evidence);
}

/// The fields of `ZkTaxAttest`, standing at `pos`, are read back.
proof fn lemma_fields_zk_tax_attest(s: Seq<u8>, pos: int, period: u64, evidence: Vec<u8>)
    requires
        holds_at(s, pos, enc_u64(period) + enc_bytes(evidence@)),
    ensures
        dec_fields(s, 14, pos) == Some(
            (
                InstructionView::ZkTaxAttest { period, proof: evidence@ },
                pos + (enc_u64(period) + enc_bytes(evidence@)).len(),
            ),
        ),
{
    reveal(dec_fields);
    lemma_holds_split(s, pos, enc_u64(period), enc_bytes(evidence@));
    lemma_read_u64(s, pos, period);
    lemma_read_vec(s, pos + enc_u64(period).len(), evidence);
}

/// The fields of `MultiJurisdictionalCheck`, standing at `pos`, are read back.
proof fn lemma_fields_multi_jurisdictional_check(
    s: Seq<u8>,
    pos: int,
    jurisdiction_id: u32,
    evidence: Vec<u8>,
)
    requires
        holds_at(s, pos, enc_u32(jurisdiction_id) + enc_bytes(evidence@)),
    ensures
        dec_fields(s, 15, pos) == Some(
            (
                InstructionView::MultiJurisdictionalCheck { jurisdiction_id, proof: evidence@ },
                pos + (enc_u32(jurisdiction_id) + enc_bytes(evidence@)).len(),
            ),
        ),
{
    reveal(dec_fields);
    lemma_holds_split(s, pos, enc_u32(jurisdiction_id), enc_bytes(evidence@));
    lemma_read_u32(s, pos, jurisdiction_id);
    lemma_read_vec(s, pos + enc_u32(jurisdiction_id).len(), evidence);
}

/// The fields of `UpdateOracle`, standing at `pos`, are read back.
proof fn lemma_fields_update_oracle(
    s: Seq<u8>,
    pos: int,
    asset: Vec<u8>,
    price: u64,
    timestamp: u64,
    signature: Vec<u8>,
)
    requires
        holds_at(
            s,
            pos,
            enc_bytes(asset@) + (enc_u64(price) + (enc_u64(timestamp) + enc_bytes(signature@))),
        ),
    ensures
        dec_fields(s, 16, pos) == Some(
            (
                InstructionView::UpdateOracle {
                    asset: asset@,
                    price,
                    timestamp,
                    signature: signature@,
                },
                pos
                    + (enc_bytes(asset@) + (enc_u64(price) + (enc_u64(timestamp) + enc_bytes(signature@)))).len(),
            ),
        ),
{
    reveal(dec_fields);
    lemma_holds_split(
        s,
        pos,
        enc_bytes(asset@),
        enc_u64(price) + (enc_u64(timestamp) + enc_bytes(signature@)),
    );
    lemma_read_vec(s, pos, asset);
    lemma_holds_split(
        s,
        pos + enc_bytes(asset@).len(),
        enc_u64(price),
        enc_u64(timestamp) + enc_bytes(signature@),
    );
    lemma_read_u64(s, pos + enc_bytes(asset@).len(), price);
    lemma_holds_split(
        s,
        pos + enc_bytes(asset@).len() + enc_u64(price).len(),
        enc_u64(timestamp),
        enc_bytes(signature@),
    );
    lemma_read_u64(s, pos + enc_bytes(asset@).len() + enc_u64(price).len(), timestamp);
    lemma_read_vec(
        s,
        pos + enc_bytes(asset@).len() + enc_u64(price).len() + enc_u64(timestamp).len(),
        signature,
    );
}

/// The fields of `SubmitZkPoR`, standing at `pos`, are read back.
proof fn lemma_fields_submit_zk_por(
    s: Seq<u8>,
    pos: int,
    evidence: Vec<u8>,
    total_reserves: u64,
    timestamp: u64,
)
    requires
        holds_at(s, pos, enc_bytes(evidence@) + (enc_u64(total_reserves) + enc_u64(timestamp))),
    ensures
        dec_fields(s, 17, pos) == Some(
            (
                InstructionView::SubmitZkPoR { proof: evidence@, total_reserves, timestamp },
                pos + (enc_bytes(evidence@) + (enc_u64(total_reserves) + enc_u64(timestamp))).len(),
            ),
        ),
{
    reveal(dec_fields);
    lemma_holds_split(s, pos, enc_bytes(evidence@), enc_u64(total_reserves) + enc_u64(timestamp));
    lemma_read_vec(s, pos, evidence);
    lemma_holds_split(
        s,
        pos + enc_bytes(evidence@).len(),
        enc_u64(total_reserves),
        enc_u64(timestamp),
    );
    lemma_read_u64(s, pos + enc_bytes(evidence@).len(), total_reserves);
    lemma_read_u64(s, pos + enc_bytes(evidence@).len() + enc_u64(total_reserves).len(), timestamp);
}

/// The fields of `InstantFiatBridge`, standing at `pos`, are read back.
proof fn lemma_fields_instant_fiat_bridge(
    s: Seq<u8>,
    pos: int,
    amount: u64,
    target_bank_id: [u8; 16],
    mpc_sig: Vec<u8>,
)
    requires
        holds_at(s, pos, enc_u64(amount) + (target_bank_id@ + enc_bytes(mpc_sig@))),
    ensures
        dec_fields(s, 18, pos) == Some(
            (
                InstructionView::InstantFiatBridge {
                    amount,
                    target_bank_id: target_bank_id@,
                    mpc_sig: mpc_sig@,
                },
                pos + (enc_u64(amount) + (target_bank_id@ + enc_bytes(mpc_sig@))).len(),
            ),
        ),
{
    reveal(dec_fields);
    lemma_holds_split(s, pos, enc_u64(amount), target_bank_id@ + enc_bytes(mpc_sig@));
    lemma_read_u64(s, pos, amount);
    lemma_holds_split(s, pos + enc_u64(amount).len(), target_bank_id@, enc_bytes(mpc_sig@));
    lemma_read_raw(s, pos + enc_u64(amount).len(), target_bank_id@);
    lemma_read_vec(s, pos + enc_u64(amount).len() + target_bank_id@.len(), mpc_sig);
}

/// The fields of `ZeroSlipBatchMatch`, standing at `pos`, are read back.
proof fn lemma_fields_zero_slip_batch_match(s: Seq<u8>, pos: int, orders: Vec<[u8; 32]>)
    requires
        holds_at(s, pos, enc_hash_list(list_bytes(orders@))),
    ensures
        dec_fields(s, 19, pos) == Some(
            (
                InstructionView::ZeroSlipBatchMatch { orders: list_bytes(orders@) },
                pos + enc_hash_list(list_bytes(orders@)).len(),
            ),
        ),
{
    reveal(dec_fields);
    lemma_read_hash_vec(s, pos, orders);
}

/// The fields of `DynamicHedge`, standing at `pos`, are read back.
proof fn lemma_fields_dynamic_hedge(s: Seq<u8>, pos: int, ratio_bits: u64)
    requires
        holds_at(s, pos, enc_u64(ratio_bits)),
    ensures
        dec_fields(s, 20, pos) == Some(
            (InstructionView::DynamicHedge { ratio_bits }, pos + enc_u64(ratio_bits).len()),
        ),
{
    reveal(dec_fields);
    lemma_read_u64(s, pos, ratio_bits);
}

/// The fields of `GeoRebalance`, standing at `pos`, are read back.
proof fn lemma_fields_geo_rebalance(s: Seq<u8>, pos: int, zone_id: u32)
    requires
        holds_at(s, pos, enc_u32(zone_id)),
    ensures
        dec_fields(s, 21, pos) == Some(
            (InstructionView::GeoRebalance { zone_id }, pos + enc_u32(zone_id).len()),
        ),
{
    reveal(dec_fields);
    lemma_read_u32(s, pos, zone_id);
}

/// The fields of `VelocityIncentive`, standing at `pos`, are read back.
proof fn lemma_fields_velocity_incentive(s: Seq<u8>, pos: int, multiplier_bits: u32)
    requires
        holds_at(s, pos, enc_u32(multiplier_bits)),
    ensures
        dec_fields(s, 22, pos) == Some(
            (
                InstructionView::VelocityIncentive { multiplier_bits },
                pos + enc_u32(multiplier_bits).len(),
            ),
        ),
{
    reveal(dec_fields);
    lemma_read_u32(s, pos, multiplier_bits);
}

/// The fields of `StreamPayment`, standing at `pos`, are read back.
proof fn lemma_fields_stream_payment(
    s: Seq<u8>,
    pos: int,
    to: [u8; 32],
    amount_per_sec: u64,
    duration: u64,
)
    requires
        holds_at(s, pos, to@ + (enc_u64(amount_per_sec) + enc_u64(duration))),
    ensures
        dec_fields(s, 23, pos) == Some(
            (
                InstructionView::StreamPayment { to: to@, amount_per_sec, duration },
                pos + (to@ + (enc_u64(amount_per_sec) + enc_u64(duration))).len(),
            ),
        ),
{
    reveal(dec_fields);
    lemma_holds_split(s, pos, to@, enc_u64(amount_per_sec) + enc_u64(duration));
    lemma_read_raw(s, pos, to@);
    lemma_holds_split(s, pos + to@.len(), enc_u64(amount_per_sec), enc_u64(duration));
    lemma_read_u64(s, pos + to@.len(), amount_per_sec);
    lemma_read_u64(s, pos + to@.len() + enc_u64(amount_per_sec).len(), duration);
}

/// The fields of `RegisterValidator`, standing at `pos`, are read back.
proof fn lemma_fields_register_validator(s: Seq<u8>, pos: int, pubkey: [u8; 32], stake: u64)
    requires
        holds_at(s, pos, pubkey@ + enc_u64(stake)),
    ensures
        dec_fields(s, 24, pos) == Some(
            (
                InstructionView::RegisterValidator { pubkey: pubkey@, stake },
                pos + (pubkey@ + enc_u64(stake)).len(),
            ),
        ),
{
    reveal(dec_fields);
    lemma_holds_split(s, pos, pubkey@, enc_u64(stake));
    lemma_read_raw(s, pos, pubkey@);
    lemma_read_u64(s, pos + pubkey@.len(), stake);
}

/// The fields of `Vote`, standing at `pos`, are read back.
proof fn lemma_fields_vote(s: Seq<u8>, pos: int, proposal_id: u64, vote: bool)
    requires
        holds_at(s, pos, enc_u64(proposal_id) + enc_bool(vote)),
    ensures
        dec_fields(s, 25, pos) == Some(
            (
                InstructionView::Vote { proposal_id, vote },
                pos + (enc_u64(proposal_id) + enc_bool(vote)).len(),
            ),
        ),
{
    reveal(dec_fields);
    lemma_holds_split(s, pos, enc_u64(proposal_id), enc_bool(vote));
    lemma_read_u64(s, pos, proposal_id);
    lemma_read_bool(s, pos + enc_u64(proposal_id).len(), vote);
}

/// The fields of `WrapToYieldToken`, standing at `pos`, are read back.
proof fn lemma_fields_wrap_to_yield_token(s: Seq<u8>, pos: int, amount: u64, maturity_blocks: u64)
    requires
        holds_at(s, pos, enc_u64(amount) + enc_u64(maturity_blocks)),
    ensures
        dec_fields(s, 26, pos) == Some(
            (
                InstructionView::WrapToYieldToken { amount, maturity_blocks },
                pos + (enc_u64(amount) + enc_u64(maturity_blocks)).len(),
            ),
        ),
{
    reveal(dec_fields);
    lemma_holds_split(s, pos, enc_u64(amount), enc_u64(maturity_blocks));
    lemma_read_u64(s, pos, amount);
    lemma_read_u64(s, pos + enc_u64(amount).len(), maturity_blocks);
}

/// The fields of `UnwrapYieldToken`, standing at `pos`, are read back.
proof fn lemma_fields_unwrap_yield_token(s: Seq<u8>, pos: int, token_id: u64)
    requires
        holds_at(s, pos, enc_u64(token_id)),
    ensures
        dec_fields(s, 27, pos) == Some(
            (InstructionView::UnwrapYieldToken { token_id }, pos + enc_u64(token_id).len()),
        ),
{
    reveal(dec_fields);
    lemma_read_u64(s, pos, token_id);
}

/// The fields of `CreatePasskeyAccount`, standing at `pos`, are read back.
proof fn lemma_fields_create_passkey_account(
    s: Seq<u8>,
    pos: int,
    device_key: Vec<u8>,
    guardians: Vec<[u8; 32]>,
)
    requires
        holds_at(s, pos, enc_bytes(device_key@) + enc_hash_list(list_bytes(guardians@))),
    ensures
        dec_fields(s, 29, pos) == Some(
            (
                InstructionView::CreatePasskeyAccount {
                    device_key: device_key@,
                    guardians: list_bytes(guardians@),
                },
                pos + (enc_bytes(device_key@) + enc_hash_list(list_bytes(guardians@))).len(),
            ),
        ),
{
    reveal(dec_fields);
    lemma_holds_split(s, pos, enc_bytes(device_key@), enc_hash_list(list_bytes(guardians@)));
    lemma_read_vec(s, pos, device_key);
    lemma_read_hash_vec(s, pos + enc_bytes(device_key@).len(), guardians);
}

/// A variant without fields is read back from its tag alone.
proof fn lemma_fields_none(s: Seq<u8>, pos: int, tag: u32)
    requires
        tag == 7 || tag == 9 || tag == 28,
    ensures
        dec_fields(s, tag, pos) == Some(
            (
                if tag == 7 {
                    InstructionView::RebalanceTranches
                } else if tag == 9 {
                    InstructionView::TriggerStabilizer
                } else {
                    InstructionView::ComputeHealthIndex
                },
                pos,
            ),
        ),
{
    reveal(dec_fields);
}

/// An instruction that stands at `pos` is read back.
#[verifier::rlimit(40)]
pub proof fn lemma_read_instruction(s: Seq<u8>, pos: int, instruction: StablecoinInstruction)
    requires
        holds_at(s, pos, enc_instruction(instruction@)),
    ensures
        dec_instruction(s, pos) == Some(
            (instruction@, pos + enc_instruction(instruction@).len()),
        ),
{
    match instruction {
        StablecoinInstruction::RegisterAsset { ticker, decimals } => {
            lemma_holds_split(s, pos, enc_u32(0), enc_bytes(ticker@) + enc_u8(decimals));
            lemma_read_u32(s, pos, 0);
            lemma_fields_register_asset(s, pos + 4, ticker, decimals);
        },
        StablecoinInstruction::MintSenior { amount, collateral_amount, proof: evidence } => {
            lemma_holds_split(
                s,
                pos,
                enc_u32(1),
                enc_u64(amount) + (enc_u64(collateral_amount) + enc_bytes(evidence@)),
            );
            lemma_read_u32(s, pos, 1);
            lemma_fields_mint_senior(s, pos + 4, amount, collateral_amount, evidence);
        },
        StablecoinInstruction::RedeemSenior { amount } => {
            lemma_holds_split(s, pos, enc_u32(2), enc_u64(amount));
            lemma_read_u32(s, pos, 2);
            lemma_fields_redeem_senior(s, pos + 4, amount);
        },
        StablecoinInstruction::MintJunior { amount, collateral_amount } => {
            lemma_holds_split(s, pos, enc_u32(3), enc_u64(amount) + enc_u64(collateral_amount));
            lemma_read_u32(s, pos, 3);
            lemma_fields_mint_junior(s, pos + 4, amount, collateral_amount);
        },
        StablecoinInstruction::RedeemJunior { amount } => {
            lemma_holds_split(s, pos, enc_u32(4), enc_u64(amount));
            lemma_read_u32(s, pos, 4);
            lemma_fields_redeem_junior(s, pos + 4, amount);
        },
        StablecoinInstruction::Burn { amount, asset } => {
            lemma_holds_split(s, pos, enc_u32(5), enc_u64(amount) + enc_asset(asset@));
            lemma_read_u32(s, pos, 5);
            lemma_fields_burn(s, pos + 4, amount, asset);
        },
        StablecoinInstruction::Transfer { to, amount, asset } => {
            lemma_holds_split(s, pos, enc_u32(6), to@ + (enc_u64(amount) + enc_asset(asset@)));
            lemma_read_u32(s, pos, 6);
            lemma_fields_transfer(s, pos + 4, to, amount, asset);
        },
        StablecoinInstruction::RebalanceTranches => {
            lemma_read_u32(s, pos, 7);
            lemma_fields_none(s, pos + 4, 7);
        },
        StablecoinInstruction::DistributeYield { total_yield } => {
            lemma_holds_split(s, pos, enc_u32(8), enc_u64(total_yield));
            lemma_read_u32(s, pos, 8);
            lemma_fields_distribute_yield(s, pos + 4, total_yield);
        },
        StablecoinInstruction::TriggerStabilizer => {
            lemma_read_u32(s, pos, 9);
            lemma_fields_none(s, pos + 4, 9);
        },
        StablecoinInstruction::RunCircuitBreaker { active } => {
            lemma_holds_split(s, pos, enc_u32(10), enc_bool(active));
            lemma_read_u32(s, pos, 10);
            lemma_fields_run_circuit_breaker(s, pos + 4, active);
        },
        StablecoinInstruction::FairRedeemQueue { batch_size } => {
            lemma_holds_split(s, pos, enc_u32(11), enc_u32(batch_size));
            lemma_read_u32(s, pos, 11);
            lemma_fields_fair_redeem_queue(s, pos + 4, batch_size);
        },
        StablecoinInstruction::ConfidentialTransfer { commitment, proof: evidence } => {
            lemma_holds_split(s, pos, enc_u32(12), commitment@ + enc_bytes(evidence@));
            lemma_read_u32(s, pos, 12);
            lemma_fields_confidential_transfer(s, pos + 4, commitment, evidence);
        },
        StablecoinInstruction::ProveCompliance { tx_hash, proof: evidence } => {
            lemma_holds_split(s, pos, enc_u32(13), tx_hash@ + enc_bytes(evidence@));
            lemma_read_u32(s, pos, 13);
            lemma_fields_prove_compliance(s, pos + 4, tx_hash, evidence);
        },
        StablecoinInstruction::ZkTaxAttest { period, proof: evidence } => {
            lemma_holds_split(s, pos, enc_u32(14), enc_u64(period) + enc_bytes(evidence@));
            lemma_read_u32(s, pos, 14);
            lemma_fields_zk_tax_attest(s, pos + 4, period, evidence);
        },
        StablecoinInstruction::MultiJurisdictionalCheck { jurisdiction_id, proof: evidence } => {
            lemma_holds_split(s, pos, enc_u32(15), enc_u32(jurisdiction_id) + enc_bytes(evidence@));
            lemma_read_u32(s, pos, 15);
            lemma_fields_multi_jurisdictional_check(s, pos + 4, jurisdiction_id, evidence);
        },
        StablecoinInstruction::UpdateOracle { asset, price, timestamp, signature } => {
            lemma_holds_split(
                s,
                pos,
                enc_u32(16),
                enc_bytes(asset@) + (enc_u64(price) + (enc_u64(timestamp) + enc_bytes(signature@))),
            );
            lemma_read_u32(s, pos, 16);
            lemma_fields_update_oracle(s, pos + 4, asset, price, timestamp, signature);
        },
        StablecoinInstruction::SubmitZkPoR { proof: evidence, total_reserves, timestamp } => {
            lemma_holds_split(
                s,
                pos,
                enc_u32(17),
                enc_bytes(evidence@) + (enc_u64(total_reserves) + enc_u64(timestamp)),
            );
            lemma_read_u32(s, pos, 17);
            lemma_fields_submit_zk_por(s, pos + 4, evidence, total_reserves, timestamp);
        },
        StablecoinInstruction::InstantFiatBridge { amount, target_bank_id, mpc_sig } => {
            lemma_holds_split(
                s,
                pos,
                enc_u32(18),
                enc_u64(amount) + (target_bank_id@ + enc_bytes(mpc_sig@)),
            );
            lemma_read_u32(s, pos, 18);
            lemma_fields_instant_fiat_bridge(s, pos + 4, amount, target_bank_id, mpc_sig);
        },
        StablecoinInstruction::ZeroSlipBatchMatch { orders } => {
            lemma_holds_split(s, pos, enc_u32(19), enc_hash_list(list_bytes(orders@)));
            lemma_read_u32(s, pos, 19);
            lemma_fields_zero_slip_batch_match(s, pos + 4, orders);
        },
        StablecoinInstruction::DynamicHedge { ratio_bits } => {
            lemma_holds_split(s, pos, enc_u32(20), enc_u64(ratio_bits));
            lemma_read_u32(s, pos, 20);
            lemma_fields_dynamic_hedge(s, pos + 4, ratio_bits);
        },
        StablecoinInstruction::GeoRebalance { zone_id } => {
            lemma_holds_split(s, pos, enc_u32(21), enc_u32(zone_id));
            lemma_read_u32(s, pos, 21);
            lemma_fields_geo_rebalance(s, pos + 4, zone_id);
        },
        StablecoinInstruction::VelocityIncentive { multiplier_bits } => {
            lemma_holds_split(s, pos, enc_u32(22), enc_u32(multiplier_bits));
            lemma_read_u32(s, pos, 22);
            lemma_fields_velocity_incentive(s, pos + 4, multiplier_bits);
        },
        StablecoinInstruction::StreamPayment { to, amount_per_sec, duration } => {
            lemma_holds_split(
                s,
                pos,
                enc_u32(23),
                to@ + (enc_u64(amount_per_sec) + enc_u64(duration)),
            );
            lemma_read_u32(s, pos, 23);
            lemma_fields_stream_payment(s, pos + 4, to, amount_per_sec, duration);
        },
        StablecoinInstruction::RegisterValidator { pubkey, stake } => {
            lemma_holds_split(s, pos, enc_u32(24), pubkey@ + enc_u64(stake));
            lemma_read_u32(s, pos, 24);
            lemma_fields_register_validator(s, pos + 4, pubkey, stake);
        },
        StablecoinInstruction::Vote { proposal_id, vote } => {
            lemma_holds_split(s, pos, enc_u32(25), enc_u64(proposal_id) + enc_bool(vote));
            lemma_read_u32(s, pos, 25);
            lemma_fields_vote(s, pos + 4, proposal_id, vote);
        },
        StablecoinInstruction::WrapToYieldToken { amount, maturity_blocks } => {
            lemma_holds_split(s, pos, enc_u32(26), enc_u64(amount) + enc_u64(maturity_blocks));
            lemma_read_u32(s, pos, 26);
            lemma_fields_wrap_to_yield_token(s, pos + 4, amount, maturity_blocks);
        },
        StablecoinInstruction::UnwrapYieldToken { token_id } => {
            lemma_holds_split(s, pos, enc_u32(27), enc_u64(token_id));
            lemma_read_u32(s, pos, 27);
            lemma_fields_unwrap_yield_token(s, pos + 4, token_id);
        },
        StablecoinInstruction::ComputeHealthIndex => {
            lemma_read_u32(s, pos, 28);
            lemma_fields_none(s, pos + 4, 28);
        },
        StablecoinInstruction::CreatePasskeyAccount { device_key, guardians } => {
            lemma_holds_split(
                s,
                pos,
                enc_u32(29),
                enc_bytes(device_key@) + enc_hash_list(list_bytes(guardians@)),
            );
            lemma_read_u32(s, pos, 29);
            lemma_fields_create_passkey_account(s, pos + 4, device_key, guardians);
        },
    }
}

/// Appends the encoding of an instruction.
pub fn put_instruction(out: &mut Vec<u8>, instruction: &StablecoinInstruction)
    ensures
        final(out)@ == old(out)@ + enc_instruction(instruction@),
{
    match instruction {
        StablecoinInstruction::RegisterAsset { ticker, decimals } => {
            put_u32(out, 0);
            put_bytes(out, ticker.as_slice());
            put_u8(out, *decimals);
        },
        StablecoinInstruction::MintSenior { amount, collateral_amount, proof: evidence } => {
            put_u32(out, 1);
            put_u64(out, *amount);
            put_u64(out, *collateral_amount);
            put_bytes(out, evidence.as_slice());
        },
        StablecoinInstruction::RedeemSenior { amount } => {
            put_u32(out, 2);
            put_u64(out, *amount);
        },
        StablecoinInstruction::MintJunior { amount, collateral_amount } => {
            put_u32(out, 3);
            put_u64(out, *amount);
            put_u64(out, *collateral_amount);
        },
        StablecoinInstruction::RedeemJunior { amount } => {
            put_u32(out, 4);
            put_u64(out, *amount);
        },
        StablecoinInstruction::Burn { amount, asset } => {
            put_u32(out, 5);
            put_u64(out, *amount);
            put_asset(out, asset);
        },
        StablecoinInstruction::Transfer { to, amount, asset } => {
            put_u32(out, 6);
            put_raw(out, to.as_slice());
            put_u64(out, *amount);
            put_asset(out, asset);
        },
        StablecoinInstruction::RebalanceTranches => {
            put_u32(out, 7);
        },
        StablecoinInstruction::DistributeYield { total_yield } => {
            put_u32(out, 8);
            put_u64(out, *total_yield);
        },
        StablecoinInstruction::TriggerStabilizer => {
            put_u32(out, 9);
        },
        StablecoinInstruction::RunCircuitBreaker { active } => {
            put_u32(out, 10);
            put_bool(out, *active);
        },
        StablecoinInstruction::FairRedeemQueue { batch_size } => {
            put_u32(out, 11);
            put_u32(out, *batch_size);
        },
        StablecoinInstruction::ConfidentialTransfer { commitment, proof: evidence } => {
            put_u32(out, 12);
            put_raw(out, commitment.as_slice());
            put_bytes(out, evidence.as_slice());
        },
        StablecoinInstruction::ProveCompliance { tx_hash, proof: evidence } => {
            put_u32(out, 13);
            put_raw(out, tx_hash.as_slice());
            put_bytes(out, evidence.as_slice());
        },
        StablecoinInstruction::ZkTaxAttest { period, proof: evidence } => {
            put_u32(out, 14);
            put_u64(out, *period);
            put_bytes(out, evidence.as_slice());
        },
        StablecoinInstruction::MultiJurisdictionalCheck { jurisdiction_id, proof: evidence } => {
            put_u32(out, 15);
            put_u32(out, *jurisdiction_id);
            put_bytes(out, evidence.as_slice());
        },
        StablecoinInstruction::UpdateOracle { asset, price, timestamp, signature } => {
            put_u32(out, 16);
            put_bytes(out, asset.as_slice());
            put_u64(out, *price);
            put_u64(out, *timestamp);
            put_bytes(out, signature.as_slice());
        },
        StablecoinInstruction::SubmitZkPoR { proof: evidence, total_reserves, timestamp } => {
            put_u32(out, 17);
            put_bytes(out, evidence.as_slice());
            put_u64(out, *total_reserves);
            put_u64(out, *timestamp);
        },
        StablecoinInstruction::InstantFiatBridge { amount, target_bank_id, mpc_sig } => {
            put_u32(out, 18);
            put_u64(out, *amount);
            put_raw(out, target_bank_id.as_slice());
            put_bytes(out, mpc_sig.as_slice());
        },
        StablecoinInstruction::ZeroSlipBatchMatch { orders } => {
            put_u32(out, 19);
            put_hash_list(out, orders);
        },
        StablecoinInstruction::DynamicHedge { ratio_bits } => {
            put_u32(out, 20);
            put_u64(out, *ratio_bits);
        },
        StablecoinInstruction::GeoRebalance { zone_id } => {
            put_u32(out, 21);
            put_u32(out, *zone_id);
        },
        StablecoinInstruction::VelocityIncentive { multiplier_bits } => {
            put_u32(out, 22);
            put_u32(out, *multiplier_bits);
        },
        StablecoinInstruction::StreamPayment { to, amount_per_sec, duration } => {
            put_u32(out, 23);
            put_raw(out, to.as_slice());
            put_u64(out, *amount_per_sec);
            put_u64(out, *duration);
        },
        StablecoinInstruction::RegisterValidator { pubkey, stake } => {
            put_u32(out, 24);
            put_raw(out, pubkey.as_slice());
            put_u64(out, *stake);
        },
        StablecoinInstruction::Vote { proposal_id, vote } => {
            put_u32(out, 25);
            put_u64(out, *proposal_id);
            put_bool(out, *vote);
        },
        StablecoinInstruction::WrapToYieldToken { amount, maturity_blocks } => {
            put_u32(out, 26);
            put_u64(out, *amount);
            put_u64(out, *maturity_blocks);
        },
        StablecoinInstruction::UnwrapYieldToken { token_id } => {
            put_u32(out, 27);
            put_u64(out, *token_id);
        },
        StablecoinInstruction::ComputeHealthIndex => {
            put_u32(out, 28);
        },
        StablecoinInstruction::CreatePasskeyAccount { device_key, guardians } => {
            put_u32(out, 29);
            put_bytes(out, device_key.as_slice());
            put_hash_list(out, guardians);
        },
    }
    assert(out@ =~= old(out)@ + enc_instruction(instruction@));
}

/// Reads an instruction at `pos`.
pub fn read_instruction(input: &[u8], pos: usize) -> (read: Option<(StablecoinInstruction, usize)>)
    ensures
        match read {
            Some((instruction, next)) => dec_instruction(input@, pos as int) == Some(
                (instruction@, next as int),
            ),
            None => dec_instruction(input@, pos as int) is None,
        },
{
    proof {
        reveal(dec_fields);
    }
    let (tag, start) = match read_u32(input, pos) {
        Some(read) => read,
        None => {
            return None;
        },
    };
    if tag == 0 {
        let (ticker, at1) = match read_bytes(input, start) {
            Some(read) => read,
            None => {
                return None;
            },
        };
        let (decimals, at2) = match read_u8(input, at1) {
            Some(read) => read,
            None => {
                return None;
            },
        };
        Some((StablecoinInstruction::RegisterAsset { ticker, decimals }, at2))
    } else if tag == 1 {
        let (amount, at1) = match read_u64(input, start) {
            Some(read) => read,
            None => {
                return None;
            },
        };
        let (collateral_amount, at2) = match read_u64(input, at1) {
            Some(read) => read,
            None => {
                return None;
            },
        };
        let (evidence, at3) = match read_bytes(input, at2) {
            Some(read) => read,
            None => {
                return None;
            },
        };
        Some((StablecoinInstruction::MintSenior { amount, collateral_amount, proof: evidence }, at3))
    } else if tag == 2 {
        let (amount, at1) = match read_u64(input, start) {
            Some(read) => read,
            None => {
                return None;
            },
        };
        Some((StablecoinInstruction::RedeemSenior { amount }, at1))
    } else if tag == 3 {
        let (amount, at1) = match read_u64(input, start) {
            Some(read) => read,
            None => {
                return None;
            },
        };
        let (collateral_amount, at2) = match read_u64(input, at1) {
            Some(read) => read,
            None => {
                return None;
            },
        };
        Some((StablecoinInstruction::MintJunior { amount, collateral_amount }, at2))
    } else if tag == 4 {
        let (amount, at1) = match read_u64(input, start) {
            Some(read) => read,
            None => {
                return None;
            },
        };
        Some((StablecoinInstruction::RedeemJunior { amount }, at1))
    } else if tag == 5 {
        let (amount, at1) = match read_u64(input, start) {
            Some(read) => read,
            None => {
                return None;
            },
        };
        let (asset, at2) = match read_asset(input, at1) {
            Some(read) => read,
            None => {
                return None;
            },
        };
        Some((StablecoinInstruction::Burn { amount, asset }, at2))
    } else if tag == 6 {
        let (to, at1) = match read_hash(input, start) {
            Some(read) => read,
            None => {
                return None;
            },
        };
        let (amount, at2) = match read_u64(input, at1) {
            Some(read) => read,
            None => {
                return None;
            },
        };
        let (asset, at3) = match read_asset(input, at2) {
            Some(read) => read,
            None => {
                return None;
            },
        };
        Some((StablecoinInstruction::Transfer { to, amount, asset }, at3))
    } else if tag == 7 {
        Some((StablecoinInstruction::RebalanceTranches, start))
    } else if tag == 8 {
        let (total_yield, at1) = match read_u64(input, start) {
            Some(read) => read,
            None => {
                return None;
            },
        };
        Some((StablecoinInstruction::DistributeYield { total_yield }, at1))
    } else if tag == 9 {
        Some((StablecoinInstruction::TriggerStabilizer, start))
    } else if tag == 10 {
        let (active, at1) = match read_bool(input, start) {
            Some(read) => read,
            None => {
                return None;
            },
        };
        Some((StablecoinInstruction::RunCircuitBreaker { active }, at1))
    } else if tag == 11 {
        let (batch_size, at1) = match read_u32(input, start) {
            Some(read) => read,
            None => {
                return None;
            },
        };
        Some((StablecoinInstruction::FairRedeemQueue { batch_size }, at1))
    } else if tag == 12 {
        let (commitment, at1) = match read_hash(input, start) {
            Some(read) => read,
            None => {
                return None;
            },
        };
        let (evidence, at2) = match read_bytes(input, at1) {
            Some(read) => read,
            None => {
                return None;
            },
        };
        Some((StablecoinInstruction::ConfidentialTransfer { commitment, proof: evidence }, at2))
    } else if tag == 13 {
        let (tx_hash, at1) = match read_hash(input, start) {
            Some(read) => read,
            None => {
                return None;
            },
        };
        let (evidence, at2) = match read_bytes(input, at1) {
            Some(read) => read,
            None => {
                return None;
            },
        };
        Some((StablecoinInstruction::ProveCompliance { tx_hash, proof: evidence }, at2))
    } else if tag == 14 {
        let (period, at1) = match read_u64(input, start) {
            Some(read) => read,
            None => {
                return None;
            },
        };
        let (evidence, at2) = match read_bytes(input, at1) {
            Some(read) => read,
            None => {
                return None;
            },
        };
        Some((StablecoinInstruction::ZkTaxAttest { period, proof: evidence }, at2))
    } else if tag == 15 {
        let (jurisdiction_id, at1) = match read_u32(input, start) {
            Some(read) => read,
            None => {
                return None;
            },
        };
        let (evidence, at2) = match read_bytes(input, at1) {
            Some(read) => read,
            None => {
                return None;
            },
        };
        Some(
            (
                StablecoinInstruction::MultiJurisdictionalCheck {
                    jurisdiction_id,
                    proof: evidence,
                },
                at2,
            ),
        )
    } else if tag == 16 {
        let (asset, at1) = match read_bytes(input, start) {
            Some(read) => read,
            None => {
                return None;
            },
        };
        let (price, at2) = match read_u64(input, at1) {
            Some(read) => read,
            None => {
                return None;
            },
        };
        let (timestamp, at3) = match read_u64(input, at2) {
            Some(read) => read,
            None => {
                return None;
            },
        };
        let (signature, at4) = match read_bytes(input, at3) {
            Some(read) => read,
            None => {
                return None;
            },
        };
        Some((StablecoinInstruction::UpdateOracle { asset, price, timestamp, signature }, at4))
    } else if tag == 17 {
        let (evidence, at1) = match read_bytes(input, start) {
            Some(read) => read,
            None => {
                return None;
            },
        };
        let (total_reserves, at2) = match read_u64(input, at1) {
            Some(read) => read,
            None => {
                return None;
            },
        };
        let (timestamp, at3) = match read_u64(input, at2) {
            Some(read) => read,
            None => {
                return None;
            },
        };
        Some(
            (StablecoinInstruction::SubmitZkPoR { proof: evidence, total_reserves, timestamp }, at3),
        )
    } else if tag == 18 {
        let (amount, at1) = match read_u64(input, start) {
            Some(read) => read,
            None => {
                return None;
            },
        };
        let (target_bank_id, at2) = match read_bank_id(input, at1) {
            Some(read) => read,
            None => {
                return None;
            },
        };
        let (mpc_sig, at3) = match read_bytes(input, at2) {
            Some(read) => read,
            None => {
                return None;
            },
        };
        Some((StablecoinInstruction::InstantFiatBridge { amount, target_bank_id, mpc_sig }, at3))
    } else if tag == 19 {
        let (orders, at1) = match read_hash_list(input, start) {
            Some(read) => read,
            None => {
                return None;
            },
        };
        Some((StablecoinInstruction::ZeroSlipBatchMatch { orders }, at1))
    } else if tag == 20 {
        let (ratio_bits, at1) = match read_u64(input, start) {
            Some(read) => read,
            None => {
                return None;
            },
        };
        Some((StablecoinInstruction::DynamicHedge { ratio_bits }, at1))
    } else if tag == 21 {
        let (zone_id, at1) = match read_u32(input, start) {
            Some(read) => read,
            None => {
                return None;
            },
        };
        Some((StablecoinInstruction::GeoRebalance { zone_id }, at1))
    } else if tag == 22 {
        let (multiplier_bits, at1) = match read_u32(input, start) {
            Some(read) => read,
            None => {
                return None;
            },
        };
        Some((StablecoinInstruction::VelocityIncentive { multiplier_bits }, at1))
    } else if tag == 23 {
        let (to, at1) = match read_hash(input, start) {
            Some(read) => read,
            None => {
                return None;
            },
        };
        let (amount_per_sec, at2) = match read_u64(input, at1) {
            Some(read) => read,
            None => {
                return None;
            },
        };
        let (duration, at3) = match read_u64(input, at2) {
            Some(read) => read,
            None => {
                return None;
            },
        };
        Some((StablecoinInstruction::StreamPayment { to, amount_per_sec, duration }, at3))
    } else if tag == 24 {
        let (pubkey, at1) = match read_hash(input, start) {
            Some(read) => read,
            None => {
                return None;
            },
        };
        let (stake, at2) = match read_u64(input, at1) {
            Some(read) => read,
            None => {
                return None;
            },
        };
        Some((StablecoinInstruction::RegisterValidator { pubkey, stake }, at2))
    } else if tag == 25 {
        let (proposal_id, at1) = match read_u64(input, start) {
            Some(read) => read,
            None => {
                return None;
            },
        };
        let (vote, at2) = match read_bool(input, at1) {
            Some(read) => read,
            None => {
                return None;
            },
        };
        Some((StablecoinInstruction::Vote { proposal_id, vote }, at2))
    } else if tag == 26 {
        let (amount, at1) = match read_u64(input, start) {
            Some(read) => read,
            None => {
                return None;
            },
        };
        let (maturity_blocks, at2) = match read_u64(input, at1) {
            Some(read) => read,
            None => {
                return None;
            },
        };
        Some((StablecoinInstruction::WrapToYieldToken { amount, maturity_blocks }, at2))
    } else if tag == 27 {
        let (token_id, at1) = match read_u64(input, start) {
            Some(read) => read,
            None => {
                return None;
            },
        };
        Some((StablecoinInstruction::UnwrapYieldToken { token_id }, at1))
    } else if tag == 28 {
        Some((StablecoinInstruction::ComputeHealthIndex, start))
    } else if tag == 29 {
        let (device_key, at1) = match read_bytes(input, start) {
            Some(read) => read,
            None => {
                return None;
            },
        };
        let (guardians, at2) = match read_hash_list(input, at1) {
            Some(read) => read,
            None => {
                return None;
            },
        };
        Some((StablecoinInstruction::CreatePasskeyAccount { device_key, guardians }, at2))
    } else {
        None
    }
}


} // verus!
