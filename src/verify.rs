//! Checking a confirmation against the authority's public key: the
//! signature must be a valid secp256k1 ECDSA signature over the Merkle root,
//! and the proof must place the digest among the batch's leaves.
use vstd::prelude::*;
use crate::digest::hex_text;
use crate::merkle::{merkle_proof_accepts, merkle_proof_verifies};
use crate::signer::{Confirmation, CONFIRMATION_BATCH_SIZE};

verus! {

/// The bytes that a hexadecimal string stands for, if it is one.
pub uninterp spec fn hex_decoded(s: Seq<char>) -> Option<Seq<u8>>;

/// Whether `signature` (64 bytes, compact form) is a valid ECDSA signature
/// over the 32-byte `message` under the SEC1-encoded `public_key`.
pub uninterp spec fn ecdsa_accepts(public_key: Seq<u8>, message: [u8; 32], signature: Seq<u8>) -> bool;

/// Relies on `hex::decode`: the bytes that a hexadecimal string stands for,
/// and in particular the bytes whose lower-case rendering it is.
#[verifier::external_body]
pub fn hex_decode(s: &String) -> (r: Option<Vec<u8>>)
    ensures
        r matches Some(v) ==> hex_decoded(s@) == Some(v@),
        r is None ==> hex_decoded(s@) is None,
        r is None ==> forall|b: Seq<u8>| s@ != hex_text(b),
        r matches Some(v) ==> (forall|b: Seq<u8>| s@ == hex_text(b) ==> v@ == b),
{
    hex::decode(s).ok()
}

/// Relies on `secp256k1::Secp256k1::verify_ecdsa`, after
/// `PublicKey::from_slice` and `ecdsa::Signature::from_compact`: a key or
/// signature that does not parse is rejected, and the answer depends on
/// the arguments alone.
#[verifier::external_body]
pub fn ecdsa_verify(public_key: &Vec<u8>, message: [u8; 32], signature: &Vec<u8>) -> (r: bool)
    ensures
        r == ecdsa_accepts(public_key@, message, signature@),
{
    let key = match secp256k1::PublicKey::from_slice(public_key) {
        Ok(k) => k,
        Err(_) => return false,
    };
    let sig = match secp256k1::ecdsa::Signature::from_compact(signature) {
        Ok(s) => s,
        Err(_) => return false,
    };
    let msg = secp256k1::Message::from_digest(message);
    secp256k1::Secp256k1::verification_only().verify_ecdsa(&msg, &sig, &key).is_ok()
}

/// The outcome of checking a confirmation.
#[derive(Clone, Copy, Debug, PartialEq, Eq, Structural)]
pub enum VerifyResult {
    /// The signature is not hexadecimal, or not a valid signature over the root.
    InvalidSignature,
    /// The proof does not place the digest among the root's leaves.
    InvalidProof,
    Valid,
}

/// Whether the confirmation's signature checks out under the key.
pub open spec fn signature_ok(public_key: Seq<u8>, c: Confirmation) -> bool {
    match hex_decoded(c.signature@) {
        None => false,
        Some(sig) => ecdsa_accepts(public_key, c.root, sig),
    }
}

/// Whether the confirmation's proof places its digest under its root, in a
/// batch of `CONFIRMATION_BATCH_SIZE` leaves.
pub open spec fn proof_ok(c: Confirmation) -> bool {
    &&& c.proof.leaf_index < CONFIRMATION_BATCH_SIZE
    &&& merkle_proof_accepts(
        c.proof.proof_bytes@,
        c.root,
        c.proof.leaf_index as int,
        c.proof.leaf_digest,
        CONFIRMATION_BATCH_SIZE as int,
    )
}

/// Checks the signature over the root first, then the inclusion proof.
pub fn verify_confirmation(public_key: &Vec<u8>, confirmation: &Confirmation) -> (r: VerifyResult)
    requires
        public_key@.len() > 0,
    ensures
        !signature_ok(public_key@, *confirmation) ==> r == VerifyResult::InvalidSignature,
        signature_ok(public_key@, *confirmation) && !proof_ok(*confirmation) ==> r
            == VerifyResult::InvalidProof,
        signature_ok(public_key@, *confirmation) && proof_ok(*confirmation) ==> r
            == VerifyResult::Valid,
{
    let sig = match hex_decode(&confirmation.signature) {
        None => {
            return VerifyResult::InvalidSignature;
        },
        Some(sig) => sig,
    };
    if !ecdsa_verify(public_key, confirmation.root, &sig) {
        return VerifyResult::InvalidSignature;
    }
    let total = CONFIRMATION_BATCH_SIZE as usize;
    if confirmation.proof.leaf_index >= total {
        return VerifyResult::InvalidProof;
    }
    if merkle_proof_verifies(
        &confirmation.proof.proof_bytes,
        confirmation.root,
        confirmation.proof.leaf_index,
        confirmation.proof.leaf_digest,
        total,
    ) {
        VerifyResult::Valid
    } else {
        VerifyResult::InvalidProof
    }
}

} // verus!
