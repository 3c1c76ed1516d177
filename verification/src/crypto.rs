//! SHA-256 and Ed25519, both taken from outside implementations.

use vstd::prelude::*;

verus! {

/// The SHA-256 digest of a byte string.
pub uninterp spec fn sha256(data: Seq<u8>) -> Seq<u8>;

/// Whether the bytes are an Ed25519 public key: 32 bytes that are the
/// compressed form of a point of the curve.
pub uninterp spec fn ed25519_key_valid(key: Seq<u8>) -> bool;

/// Whether Ed25519 verification of `signature` over `message` under the
/// public key `key` succeeds.
pub uninterp spec fn ed25519_verifies(key: Seq<u8>, message: Seq<u8>, signature: Seq<u8>) -> bool;

/// Length in bytes of an Ed25519 signature.
pub const SIGNATURE_LENGTH: usize = 64;

/// The form every Ed25519 signature has: 64 bytes, the top three bits of the
/// last one clear.
pub open spec fn signature_well_formed(signature: Seq<u8>) -> bool {
    &&& signature.len() == SIGNATURE_LENGTH
    &&& signature[SIGNATURE_LENGTH - 1] & 0xe0 == 0
}

/// Calls `sha2::Sha256::digest`. Trusted: the result is the SHA-256 digest of
/// `data`, 32 bytes long.
#[verifier::external_body]
pub(crate) fn sha256_digest(data: &[u8]) -> (digest: Vec<u8>)
    ensures
        digest@ == sha256(data@),
        digest@.len() == 32,
{
    <sha2::Sha256 as sha2::Digest>::digest(data).to_vec()
}

/// Calls `ed25519_dalek::PublicKey::from_bytes` and reports whether it
/// accepted the bytes. Trusted: acceptance depends on the bytes alone.
#[verifier::external_body]
pub(crate) fn public_key_parses(key: &[u8]) -> (ok: bool)
    ensures
        ok == ed25519_key_valid(key@),
{
    ed25519_dalek::PublicKey::from_bytes(key).is_ok()
}

/// Calls `ed25519_dalek::Signature::from_bytes` and reports whether it
/// accepted the bytes. Trusted: it accepts exactly the 64-byte strings whose
/// last byte has its top three bits clear.
#[verifier::external_body]
pub(crate) fn signature_parses(signature: &[u8]) -> (ok: bool)
    ensures
        ok == signature_well_formed(signature@),
{
    ed25519_dalek::Signature::from_bytes(signature).is_ok()
}

/// Calls `ed25519_dalek::PublicKey::verify` on a key and a signature that
/// both parse. Trusted: the outcome depends on the three byte strings alone.
#[verifier::external_body]
pub(crate) fn ed25519_verify(key: &[u8], message: &[u8], signature: &[u8]) -> (ok: bool)
    requires
        ed25519_key_valid(key@),
        signature_well_formed(signature@),
    ensures
        ok == ed25519_verifies(key@, message@, signature@),
{
    match (
        ed25519_dalek::PublicKey::from_bytes(key),
        ed25519_dalek::Signature::from_bytes(signature),
    ) {
        (Ok(public_key), Ok(parsed)) => ed25519_dalek::Verifier::verify(
            &public_key,
            message,
            &parsed,
        ).is_ok(),
        _ => false,
    }
}

} // verus!
