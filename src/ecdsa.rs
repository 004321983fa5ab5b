//! Requests to and replies from the threshold-ECDSA service that signs
//! batch roots, and a queue of signatures awaiting use.
use vstd::prelude::*;
use std::collections::VecDeque;
use crate::digest::{hex_encode, hex_text};

verus! {

/// Cycles attached to each signing request.
pub const SIGN_CYCLES: u64 = 27000000000;

/// The curve of a signing key.
#[derive(Clone, Copy, Debug, PartialEq, Eq, Structural)]
pub enum EcdsaCurve {
    Secp256k1,
}

/// A signing key, by curve and name.
#[derive(Clone, Debug)]
pub struct EcdsaKeyId {
    pub curve: EcdsaCurve,
    pub name: String,
}

/// The keys that the service offers.
#[derive(Clone, Copy, Debug, PartialEq, Eq, Structural)]
pub enum EcdsaKeyIds {
    TestKeyLocalDevelopment,
    TestKey1,
    ProductionKey1,
}

impl EcdsaKeyIds {
    /// The key's name as the service knows it.
    pub open spec fn key_name(self) -> Seq<char> {
        match self {
            EcdsaKeyIds::TestKeyLocalDevelopment => seq!['d', 'f', 'x', '_', 't', 'e', 's', 't', '_', 'k', 'e', 'y'],
            EcdsaKeyIds::TestKey1 => seq!['t', 'e', 's', 't', '_', 'k', 'e', 'y', '_', '1'],
            EcdsaKeyIds::ProductionKey1 => seq!['k', 'e', 'y', '_', '1'],
        }
    }

    pub fn to_key_id(&self) -> (r: EcdsaKeyId)
        ensures
            r.curve == EcdsaCurve::Secp256k1,
            r.name@ == self.key_name(),
    {
        let name = match self {
            EcdsaKeyIds::TestKeyLocalDevelopment => {
                proof {
                    reveal_strlit("dfx_test_key");
                }
                let n = "dfx_test_key".to_owned();
                assert(n@ =~= self.key_name());
                n
            },
            EcdsaKeyIds::TestKey1 => {
                proof {
                    reveal_strlit("test_key_1");
                }
                let n = "test_key_1".to_owned();
                assert(n@ =~= self.key_name());
                n
            },
            EcdsaKeyIds::ProductionKey1 => {
                proof {
                    reveal_strlit("key_1");
                }
                let n = "key_1".to_owned();
                assert(n@ =~= self.key_name());
                n
            },
        };
        EcdsaKeyId { curve: EcdsaCurve::Secp256k1, name }
    }
}

/// A request to sign a 32-byte hash.
#[derive(Clone, Debug)]
pub struct SignWithECDSA {
    pub message_hash: Vec<u8>,
    pub derivation_path: Vec<Vec<u8>>,
    pub key_id: EcdsaKeyId,
}

/// The service's answer to a signing request.
#[derive(Clone, Debug)]
pub struct SignWithECDSAReply {
    pub signature: Vec<u8>,
}

/// The service's answer to a public-key request.
#[derive(Clone, Debug)]
pub struct ECDSAPublicKeyReply {
    pub public_key: Vec<u8>,
    pub chain_code: Vec<u8>,
}

/// A public key, hex-encoded.
#[derive(Clone, Debug)]
pub struct PublicKeyReply {
    pub public_key_hex: String,
}

/// A signature, hex-encoded.
#[derive(Clone, Debug)]
pub struct SignatureReply {
    pub signature_hex: String,
}

/// The request that signs `hash` with the production key, under the empty
/// derivation path.
pub fn sign_request(hash: Vec<u8>) -> (r: SignWithECDSA)
    ensures
        r.message_hash@ == hash@,
        r.derivation_path@.len() == 0,
        r.key_id.curve == EcdsaCurve::Secp256k1,
        r.key_id.name@ == EcdsaKeyIds::ProductionKey1.key_name(),
{
    SignWithECDSA {
        message_hash: hash,
        derivation_path: Vec::new(),
        key_id: EcdsaKeyIds::ProductionKey1.to_key_id(),
    }
}

/// The signature of a reply, hex-encoded.
pub fn signature_reply(reply: &SignWithECDSAReply) -> (r: SignatureReply)
    ensures
        r.signature_hex@ == hex_text(reply.signature@),
{
    SignatureReply { signature_hex: hex_encode(reply.signature.as_slice()) }
}

/// The public key of a reply, hex-encoded.
pub fn public_key_reply(reply: &ECDSAPublicKeyReply) -> (r: PublicKeyReply)
    ensures
        r.public_key_hex@ == hex_text(reply.public_key@),
{
    PublicKeyReply { public_key_hex: hex_encode(reply.public_key.as_slice()) }
}

/// Hex-encoded signatures, first in first out.
#[derive(Clone, Debug)]
pub struct SignatureQueue {
    queue: VecDeque<String>,
}

impl SignatureQueue {
    /// The queued signatures, oldest first.
    pub closed spec fn items(self) -> Seq<String> {
        self.queue@
    }

    pub fn new() -> (r: SignatureQueue)
        ensures
            r.items().len() == 0,
    {
        SignatureQueue { queue: VecDeque::new() }
    }

    /// Queues a signature behind the others.
    pub fn insert(&mut self, hex_sig: String)
        ensures
            final(self).items() == old(self).items().push(hex_sig),
    {
        self.queue.push_back(hex_sig);
    }

    /// Takes the oldest signature, if any.
    pub fn pop(&mut self) -> (r: Option<String>)
        ensures
            old(self).items().len() == 0 ==> r is None && final(self).items() == old(self).items(),
            old(self).items().len() > 0 ==> r == Some(old(self).items()[0]) && final(self).items()
                == old(self).items().subrange(1, old(self).items().len() as int),
    {
        self.queue.pop_front()
    }
}

} // verus!
