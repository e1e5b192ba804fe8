//! Boolean verdicts on the proofs that instructions bundle.
//!
//! Each verdict is a pure function of the proof and of the public values it
//! is bound to: replicas that see the same transaction reach the same
//! verdict.

use vstd::prelude::*;
use vstd::bytes::{spec_u32_to_le_bytes, spec_u64_to_le_bytes, u32_to_le_bytes, u64_to_le_bytes};
use crate::hashing::{blake3_digest, hash_pair};

verus! {

/// The first byte of the digest of `binding` followed by `proof`.
pub open spec fn leading_digest_byte(binding: Seq<u8>, proof: Seq<u8>) -> u8 {
    blake3_digest(binding + proof)[0]
}

/// The first byte of the digest of `binding` followed by `proof`.
fn leading_byte(binding: &[u8], proof: &[u8]) -> (byte: u8)
    ensures
        byte == leading_digest_byte(binding@, proof@),
{
    let digest = hash_pair(binding, proof);
    digest[0]
}

/// When a confidential-transfer proof is accepted for a commitment.
pub open spec fn confidential_proof_valid(commitment: Seq<u8>, proof: Seq<u8>) -> bool {
    proof.len() > 0 && (leading_digest_byte(commitment, proof) % 2 == 0 || proof.len() >= 128)
}

/// Verifies the proof of a confidential transfer against its commitment.
pub fn verify_confidential_proof(commitment: &[u8; 32], proof: &[u8]) -> (valid: bool)
    ensures
        valid == confidential_proof_valid(commitment@, proof@),
{
    if proof.len() == 0 {
        return false;
    }
    leading_byte(commitment.as_slice(), proof) % 2 == 0 || proof.len() >= 128
}

/// When a compliance proof is accepted for a transaction hash.
pub open spec fn compliance_proof_valid(tx_hash: Seq<u8>, proof: Seq<u8>) -> bool {
    proof.len() > 0 && (leading_digest_byte(tx_hash, proof) < 240 || proof.len() >= 64)
}

/// Verifies a compliance proof against the hash of a transaction.
pub fn verify_compliance_proof(tx_hash: &[u8; 32], proof: &[u8]) -> (valid: bool)
    ensures
        valid == compliance_proof_valid(tx_hash@, proof@),
{
    if proof.len() == 0 {
        return false;
    }
    leading_byte(tx_hash.as_slice(), proof) < 240 || proof.len() >= 64
}

/// When a tax attestation is accepted for a period.
pub open spec fn tax_attestation_valid(period: u64, proof: Seq<u8>) -> bool {
    proof.len() > 0 && period != 0 && (leading_digest_byte(spec_u64_to_le_bytes(period), proof)
        < 240 || proof.len() >= 64)
}

/// Verifies a tax attestation for a period.
pub fn verify_tax_attestation_proof(period: u64, proof: &[u8]) -> (valid: bool)
    ensures
        valid == tax_attestation_valid(period, proof@),
{
    if proof.len() == 0 || period == 0 {
        return false;
    }
    let binding = u64_to_le_bytes(period);
    leading_byte(binding.as_slice(), proof) < 240 || proof.len() >= 64
}

/// When a multi-jurisdictional proof is accepted for a jurisdiction.
pub open spec fn multi_jurisdictional_valid(jurisdiction_id: u32, proof: Seq<u8>) -> bool {
    proof.len() > 0 && jurisdiction_id != 0 && (leading_digest_byte(
        spec_u32_to_le_bytes(jurisdiction_id),
        proof,
    ) < 240 || proof.len() >= 64)
}

/// Verifies a multi-jurisdictional compliance proof.
pub fn verify_multi_jurisdictional_proof(jurisdiction_id: u32, proof: &[u8]) -> (valid: bool)
    ensures
        valid == multi_jurisdictional_valid(jurisdiction_id, proof@),
{
    if proof.len() == 0 || jurisdiction_id == 0 {
        return false;
    }
    let binding = u32_to_le_bytes(jurisdiction_id);
    leading_byte(binding.as_slice(), proof) < 240 || proof.len() >= 64
}

/// When an insurance loss proof is accepted for a claimed amount.
pub open spec fn insurance_loss_valid(proof: Seq<u8>, claimed_amount: u64) -> bool {
    proof.len() > 0 && claimed_amount != 0 && (leading_digest_byte(
        spec_u64_to_le_bytes(claimed_amount),
        proof,
    ) < 200 || proof.len() >= 128)
}

/// Verifies an insurance loss proof.
pub fn verify_insurance_loss_proof(proof: &[u8], claimed_amount: u64) -> (valid: bool)
    ensures
        valid == insurance_loss_valid(proof@, claimed_amount),
{
    if proof.len() == 0 || claimed_amount == 0 {
        return false;
    }
    let binding = u64_to_le_bytes(claimed_amount);
    leading_byte(binding.as_slice(), proof) < 200 || proof.len() >= 128
}

/// Verifies a credit score proof: it must hold at least 32 bytes.
pub fn verify_credit_score_proof(proof: &[u8]) -> (valid: bool)
    ensures
        valid == (proof@.len() >= 32),
{
    proof.len() >= 32
}

/// When an attestation of collateral is accepted for a collateral value.
pub open spec fn rwa_attestation_valid(proof: Seq<u8>, collateral_value: u64) -> bool {
    proof.len() > 0 && collateral_value != 0 && (leading_digest_byte(
        spec_u64_to_le_bytes(collateral_value),
        proof,
    ) < 240 || proof.len() >= 64)
}

/// Verifies an attestation of collateral.
pub fn verify_rwa_attestation(proof: &[u8], collateral_value: u64) -> (valid: bool)
    ensures
        valid == rwa_attestation_valid(proof@, collateral_value),
{
    if proof.len() == 0 || collateral_value == 0 {
        return false;
    }
    let binding = u64_to_le_bytes(collateral_value);
    leading_byte(binding.as_slice(), proof) < 240 || proof.len() >= 64
}

/// Verifies a green energy proof: it must hold at least 32 bytes.
pub fn verify_green_energy_proof(proof: &[u8]) -> (valid: bool)
    ensures
        valid == (proof@.len() >= 32),
{
    proof.len() >= 32
}

} // verus!
