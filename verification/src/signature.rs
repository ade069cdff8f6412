//! Checking a signature under a published key.

use vstd::prelude::*;

use crate::keyset::{Algorithm, Key, KeyView};

verus! {

/// Whether `ed25519_dalek` accepts `signature` as a strict Ed25519 signature
/// of `message` under the public key `public_key`; false where the key or
/// the signature is not of the right length or does not decode.
pub uninterp spec fn ed25519_accepts(public_key: Seq<u8>, message: Seq<u8>, signature: Seq<u8>) -> bool;

/// Calls `ed25519_dalek::VerifyingKey::verify_strict`, with the key and the
/// signature converted from bytes.
///
/// Trusted: the answer is a function of the three byte strings.
#[verifier::external_body]
fn ed25519_verify(public_key: &[u8], message: &[u8], signature: &[u8]) -> (ok: bool)
    ensures
        ok == ed25519_accepts(public_key@, message@, signature@),
{
    let key = ed25519_dalek::VerifyingKey::try_from(public_key);
    let sig = ed25519_dalek::Signature::from_slice(signature);
    match (key, sig) {
        (Ok(key), Ok(sig)) => key.verify_strict(message, &sig).is_ok(),
        _ => false,
    }
}

/// Whether `signature` signs `message` under `key`, by the key's own
/// algorithm.
pub open spec fn spec_signature_valid(key: KeyView, message: Seq<u8>, signature: Seq<u8>) -> bool {
    match key.algorithm {
        Algorithm::Ed25519 => ed25519_accepts(key.material, message, signature),
    }
}

/// Checks `signature` over `message` with the algorithm that `key` names,
/// whatever the token itself claims.
pub fn signature_valid(key: &Key, message: &[u8], signature: &[u8]) -> (ok: bool)
    ensures
        ok == spec_signature_valid(key@, message@, signature@),
{
    match key.algorithm {
        Algorithm::Ed25519 => ed25519_verify(key.material.as_slice(), message, signature),
    }
}

} // verus!
