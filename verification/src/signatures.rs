//! Signature verification.

use vstd::prelude::*;
use ed25519_dalek::Verifier;
use crate::byte_order::bytes_equal;
use crate::hashing::{blake3_digest, hash_pair};

verus! {

/// Why a signature was not accepted.
#[derive(Clone, Copy, Debug, PartialEq, Eq, Structural)]
pub enum SignatureError {
    /// The 32 bytes are not the encoding of a public key.
    InvalidPublicKey,
    /// The signature does not hold 64 bytes.
    InvalidLength,
    /// The signature does not bind the message under the key.
    VerificationFailed,
    /// A post-quantum key or signature was empty.
    EmptyInput,
    /// A post-quantum signature holds fewer than 32 bytes.
    TooShort,
}

/// Whether 32 bytes decode to an Ed25519 public key.
pub uninterp spec fn ed25519_key_decodes(key: Seq<u8>) -> bool;

/// Whether Ed25519 verification accepts a 64-byte signature of a message
/// under a key.
pub uninterp spec fn ed25519_accepts(key: Seq<u8>, message: Seq<u8>, signature: Seq<u8>) -> bool;

/// Calls `ed25519_dalek::VerifyingKey::from_bytes` and tells whether the
/// bytes decode to a key. The contract gives that answer a name: it depends
/// on the bytes alone.
#[verifier::external_body]
fn key_decodes(key: &[u8; 32]) -> (decodes: bool)
    ensures
        decodes == ed25519_key_decodes(key@),
{
    ed25519_dalek::VerifyingKey::from_bytes(key).is_ok()
}

/// Calls `verify` of `ed25519_dalek::VerifyingKey` (its `Verifier` impl) on
/// the key and the signature decoded from these bytes, and tells whether
/// the signature was accepted; bytes that decode to no key are not
/// accepted. The contract gives that answer a name: it depends on the key,
/// the message and the signature alone.
#[verifier::external_body]
fn signature_accepted(key: &[u8; 32], message: &[u8], signature: &[u8; 64]) -> (accepted: bool)
    ensures
        accepted == ed25519_accepts(key@, message@, signature@),
{
    match ed25519_dalek::VerifyingKey::from_bytes(key) {
        Ok(verifying_key) => verifying_key.verify(
            message,
            &ed25519_dalek::Signature::from_bytes(signature),
        ).is_ok(),
        Err(_) => false,
    }
}

/// What [`verify_signature`] returns for a key, a message and a signature.
pub open spec fn signature_verdict(
    pubkey: Seq<u8>,
    message: Seq<u8>,
    signature: Seq<u8>,
) -> Result<(), SignatureError> {
    if !ed25519_key_decodes(pubkey) {
        Err(SignatureError::InvalidPublicKey)
    } else if signature.len() != 64 {
        Err(SignatureError::InvalidLength)
    } else if !ed25519_accepts(pubkey, message, signature) {
        Err(SignatureError::VerificationFailed)
    } else {
        Ok(())
    }
}

/// Verifies an Ed25519 signature of `message` under a 32-byte public key.
pub fn verify_signature(pubkey_bytes: &[u8; 32], message: &[u8], signature_bytes: &[u8]) -> (verdict:
    Result<(), SignatureError>)
    ensures
        verdict == signature_verdict(pubkey_bytes@, message@, signature_bytes@),
{
    if !key_decodes(pubkey_bytes) {
        return Err(SignatureError::InvalidPublicKey);
    }
    if signature_bytes.len() != 64 {
        return Err(SignatureError::InvalidLength);
    }
    let mut signature = [0u8; 64];
    let mut i: usize = 0;
    while i < 64
        invariant
            i <= 64,
            signature_bytes@.len() == 64,
            forall|j: int| 0 <= j < i ==> signature@[j] == signature_bytes@[j],
        decreases 64 - i,
    {
        signature[i] = signature_bytes[i];
        i += 1;
    }
    assert(signature@ =~= signature_bytes@);
    if signature_accepted(pubkey_bytes, message, &signature) {
        Ok(())
    } else {
        Err(SignatureError::VerificationFailed)
    }
}

/// What [`verify_pq_signature`] returns: the first 32 bytes of the signature
/// must be the digest of the key followed by the message.
pub open spec fn pq_signature_verdict(
    pq_pubkey: Seq<u8>,
    message: Seq<u8>,
    signature: Seq<u8>,
) -> Result<(), SignatureError> {
    if pq_pubkey.len() == 0 || signature.len() == 0 {
        Err(SignatureError::EmptyInput)
    } else if signature.len() < 32 {
        Err(SignatureError::TooShort)
    } else if signature.subrange(0, 32) != blake3_digest(pq_pubkey + message) {
        Err(SignatureError::VerificationFailed)
    } else {
        Ok(())
    }
}

/// Verifies a hash-based post-quantum signature.
pub fn verify_pq_signature(pq_pubkey: &[u8], message: &[u8], signature: &[u8]) -> (verdict: Result<
    (),
    SignatureError,
>)
    ensures
        verdict == pq_signature_verdict(pq_pubkey@, message@, signature@),
{
    if pq_pubkey.len() == 0 || signature.len() == 0 {
        return Err(SignatureError::EmptyInput);
    }
    if signature.len() < 32 {
        return Err(SignatureError::TooShort);
    }
    let expected = hash_pair(pq_pubkey, message);
    let mut prefix: Vec<u8> = Vec::new();
    let mut i: usize = 0;
    while i < 32
        invariant
            i <= 32,
            signature@.len() >= 32,
            prefix@ == signature@.subrange(0, i as int),
        decreases 32 - i,
    {
        prefix.push(signature[i]);
        i += 1;
    }
    if bytes_equal(prefix.as_slice(), expected.as_slice()) {
        Ok(())
    } else {
        Err(SignatureError::VerificationFailed)
    }
}

} // verus!
