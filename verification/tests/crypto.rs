use ed25519_dalek::{Signer, SigningKey};
use lumina_core::hashing::{hash, hash_pair};
use lumina_core::oracles::PriceFeed;
use lumina_core::signatures::{verify_pq_signature, verify_signature, SignatureError};
use lumina_core::zk::{
    verify_compliance_proof, verify_confidential_proof, verify_credit_score_proof,
    verify_green_energy_proof, verify_insurance_loss_proof, verify_multi_jurisdictional_proof,
    verify_rwa_attestation, verify_tax_attestation_proof,
};

#[test]
fn hash_is_blake3() {
    // The digest of the empty input, from the BLAKE3 specification.
    let empty = [
        0xaf, 0x13, 0x49, 0xb9, 0xf5, 0xf9, 0xa1, 0xa6, 0xa0, 0x40, 0x4d, 0xea, 0x36, 0xdc, 0xc9, 0x49, 0x9b, 0xcb,
        0x25, 0xc9, 0xad, 0xc1, 0x12, 0xb7, 0xcc, 0x9a, 0x93, 0xca, 0xe4, 0x1f, 0x32, 0x62,
    ];
    assert_eq!(hash(b""), empty);
    assert_ne!(hash(b"a"), *b"a\0\0\0\0\0\0\0\0\0\0\0\0\0\0\0\0\0\0\0\0\0\0\0\0\0\0\0\0\0\0\0");
    assert_eq!(hash_pair(b"foo", b"bar"), hash(b"foobar"));
    assert_eq!(hash_pair(b"", b""), empty);
}

#[test]
fn signatures_verify() {
    let key = SigningKey::from_bytes(&[5u8; 32]);
    let public = key.verifying_key().to_bytes();
    let signature = key.sign(b"message").to_bytes().to_vec();
    assert_eq!(verify_signature(&public, b"message", &signature), Ok(()));
    assert_eq!(verify_signature(&public, b"massage", &signature), Err(SignatureError::VerificationFailed));
    assert_eq!(verify_signature(&public, b"message", &signature[..63]), Err(SignatureError::InvalidLength));
    let other = SigningKey::from_bytes(&[6u8; 32]).verifying_key().to_bytes();
    assert_eq!(verify_signature(&other, b"message", &signature), Err(SignatureError::VerificationFailed));
    // y = 2 is the ordinate of no point of the curve.
    let mut not_a_key = [0u8; 32];
    not_a_key[0] = 2;
    assert_eq!(verify_signature(&not_a_key, b"message", &signature), Err(SignatureError::InvalidPublicKey));
    assert_eq!(verify_signature(&not_a_key, b"message", &[]), Err(SignatureError::InvalidPublicKey));
}

#[test]
fn post_quantum_signatures_verify() {
    let key = b"pq-key".to_vec();
    let mut signature = hash_pair(&key, b"message").to_vec();
    signature.extend_from_slice(b"tail");
    assert_eq!(verify_pq_signature(&key, b"message", &signature), Ok(()));
    assert_eq!(verify_pq_signature(&key, b"other", &signature), Err(SignatureError::VerificationFailed));
    assert_eq!(verify_pq_signature(&key, b"message", &signature[..31]), Err(SignatureError::TooShort));
    assert_eq!(verify_pq_signature(&[], b"message", &signature), Err(SignatureError::EmptyInput));
    assert_eq!(verify_pq_signature(&key, b"message", &[]), Err(SignatureError::EmptyInput));
}

fn first_byte(binding: &[u8], proof: &[u8]) -> u8 {
    let mut input = binding.to_vec();
    input.extend_from_slice(proof);
    blake3::hash(&input).as_bytes()[0]
}

#[test]
fn proof_stubs_follow_the_digest() {
    assert!(!verify_confidential_proof(&[1u8; 32], &[]));
    assert!(verify_confidential_proof(&[1u8; 32], &[0u8; 128]));
    assert!(!verify_compliance_proof(&[1u8; 32], &[]));
    assert!(verify_compliance_proof(&[1u8; 32], &[0u8; 64]));
    assert!(!verify_tax_attestation_proof(0, &[1]));
    assert!(!verify_multi_jurisdictional_proof(0, &[1]));
    assert!(!verify_insurance_loss_proof(&[1], 0));
    assert!(!verify_rwa_attestation(&[1], 0));
    assert!(verify_insurance_loss_proof(&[1u8; 128], 1));
    for i in 0..=255u8 {
        let proof = [i, 1, 2];
        assert_eq!(verify_confidential_proof(&[1u8; 32], &proof), first_byte(&[1u8; 32], &proof) % 2 == 0);
        assert_eq!(verify_compliance_proof(&[2u8; 32], &proof), first_byte(&[2u8; 32], &proof) < 240);
        assert_eq!(verify_tax_attestation_proof(7, &proof), first_byte(&7u64.to_le_bytes(), &proof) < 240);
        assert_eq!(verify_multi_jurisdictional_proof(8, &proof), first_byte(&8u32.to_le_bytes(), &proof) < 240);
        assert_eq!(verify_insurance_loss_proof(&proof, 9), first_byte(&9u64.to_le_bytes(), &proof) < 200);
        assert_eq!(verify_rwa_attestation(&proof, 10), first_byte(&10u64.to_le_bytes(), &proof) < 240);
    }
    assert!(!verify_credit_score_proof(&[]));
    assert!(!verify_credit_score_proof(&[0u8; 31]));
    assert!(verify_credit_score_proof(&[0u8; 32]));
    assert!(!verify_green_energy_proof(&[0u8; 31]));
    assert!(verify_green_energy_proof(&[0u8; 32]));
}

#[test]
fn price_feed_keeps_its_symbol() {
    assert_eq!(PriceFeed::new("LUSD-USD").symbol, "LUSD-USD");
}
