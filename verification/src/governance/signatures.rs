//! Governance keys and signatures: ECDSA over secp256k1 on the SHA-256 of
//! the message, keys as 33-byte compressed points and signatures in their
//! 64-byte compact form.

use vstd::prelude::*;

use secp256k1::{ecdsa, Message, Secp256k1, SecretKey};

use crate::governance::bip32::{secret_key_error, secret_valid, sha256, sha256_digest};
use crate::governance::error::{GovernanceError, GovernanceResult};
use crate::text::string_of;

verus! {

/// Whether the bytes are a compressed or uncompressed point of the curve.
pub uninterp spec fn secp_point_parses(bytes: Seq<u8>) -> bool;

/// Whether 64 bytes are a compact ECDSA signature (both halves below the
/// curve order).
pub uninterp spec fn secp_compact_parses(bytes: Seq<u8>) -> bool;

/// Whether a compact signature is valid for a 32-byte digest under a
/// compressed public key; false where either does not parse.
pub uninterp spec fn secp_ecdsa_valid(signature: Seq<u8>, digest: Seq<u8>, public_key: Seq<u8>) -> bool;

/// The compact ECDSA signature (RFC 6979 nonce) of a 32-byte digest under
/// a valid secret key.
pub uninterp spec fn secp_ecdsa_sign(secret: Seq<u8>, digest: Seq<u8>) -> Seq<u8>;

/// `secp256k1::PublicKey::from_slice(bytes)`: whether the bytes parse as a
/// point.
#[verifier::external_body]
fn point_parses(bytes: &[u8]) -> (r: bool)
    ensures
        r == secp_point_parses(bytes@),
{
    secp256k1::PublicKey::from_slice(bytes).is_ok()
}

/// `ecdsa::Signature::from_compact(bytes)`: whether the bytes parse as a
/// compact signature.
#[verifier::external_body]
fn compact_parses(bytes: &[u8]) -> (r: bool)
    ensures
        r == secp_compact_parses(bytes@),
{
    ecdsa::Signature::from_compact(bytes).is_ok()
}

/// `Secp256k1::verify_ecdsa` on `Message::from_digest(digest)`, the parsed
/// compact signature and the parsed key: whether the signature is valid;
/// false where the signature or the key does not parse.
#[verifier::external_body]
fn ecdsa_verify(signature: &[u8; 64], digest: &[u8; 32], public_key: &[u8; 33]) -> (r: bool)
    ensures
        r == secp_ecdsa_valid(signature@, digest@, public_key@),
{
    let sig = match ecdsa::Signature::from_compact(signature) {
        Ok(s) => s,
        Err(_) => return false,
    };
    let pk = match secp256k1::PublicKey::from_slice(public_key) {
        Ok(p) => p,
        Err(_) => return false,
    };
    Secp256k1::verification_only().verify_ecdsa(&Message::from_digest(*digest), &sig, &pk).is_ok()
}

/// `Secp256k1::sign_ecdsa` on `Message::from_digest(digest)` with a valid
/// secret key, serialized compact.
#[verifier::external_body]
fn ecdsa_sign(secret: &[u8; 32], digest: &[u8; 32]) -> (r: Option<[u8; 64]>)
    requires
        secret_valid(secret@),
    ensures
        r is Some,
        r matches Some(s) ==> s@ == secp_ecdsa_sign(secret@, digest@),
{
    match SecretKey::from_slice(secret) {
        Ok(k) => Some(
            Secp256k1::signing_only().sign_ecdsa(&Message::from_digest(*digest), &k).serialize_compact(),
        ),
        Err(_) => None,
    }
}

/// A public key for governance operations (33-byte compressed point).
#[derive(Debug, Clone, Copy)]
pub struct PublicKey {
    bytes: [u8; 33],
}

impl View for PublicKey {
    type V = Seq<u8>;

    closed spec fn view(&self) -> Seq<u8> {
        self.bytes@
    }
}

impl PublicKey {
    /// Create from the 33 bytes of a compressed point.
    pub fn from_bytes(bytes: &[u8]) -> (r: GovernanceResult<Self>)
        ensures
            (bytes@.len() == 33 && secp_point_parses(bytes@)) ==> (r matches Ok(k) && k@ == bytes@),
            !(bytes@.len() == 33 && secp_point_parses(bytes@)) ==> (r matches Err(
                GovernanceError::InvalidKey(m),
            ) && m@ == "Invalid public key"@),
    {
        if bytes.len() != 33 || !point_parses(bytes) {
            return Err(GovernanceError::InvalidKey(string_of("Invalid public key")));
        }
        let mut out = [0u8; 33];
        let mut i: usize = 0;
        while i < 33
            invariant
                i <= 33,
                bytes@.len() == 33,
                forall|j: int| 0 <= j < i ==> out@[j] == bytes@[j],
            decreases 33 - i,
        {
            out[i] = bytes[i];
            i = i + 1;
        }
        assert(out@ =~= bytes@);
        Ok(PublicKey { bytes: out })
    }

    /// Get compressed public key bytes.
    pub fn to_bytes(&self) -> (r: [u8; 33])
        ensures
            r@ == self@,
    {
        self.bytes
    }
}

/// A governance signature (64-byte compact ECDSA signature).
#[derive(Debug, Clone, Copy)]
pub struct Signature {
    bytes: [u8; 64],
}

impl View for Signature {
    type V = Seq<u8>;

    closed spec fn view(&self) -> Seq<u8> {
        self.bytes@
    }
}

impl Signature {
    /// Create from the 64 bytes of a compact signature.
    pub fn from_bytes(bytes: &[u8]) -> (r: GovernanceResult<Self>)
        ensures
            (bytes@.len() == 64 && secp_compact_parses(bytes@)) ==> (r matches Ok(s) && s@
                == bytes@),
            !(bytes@.len() == 64 && secp_compact_parses(bytes@)) ==> (r matches Err(
                GovernanceError::InvalidSignatureFormat(m),
            ) && m@ == "Invalid signature"@),
    {
        if bytes.len() != 64 || !compact_parses(bytes) {
            return Err(GovernanceError::InvalidSignatureFormat(string_of("Invalid signature")));
        }
        let mut out = [0u8; 64];
        let mut i: usize = 0;
        while i < 64
            invariant
                i <= 64,
                bytes@.len() == 64,
                forall|j: int| 0 <= j < i ==> out@[j] == bytes@[j],
            decreases 64 - i,
        {
            out[i] = bytes[i];
            i = i + 1;
        }
        assert(out@ =~= bytes@);
        Ok(Signature { bytes: out })
    }

    /// Get signature bytes.
    pub fn to_bytes(&self) -> (r: [u8; 64])
        ensures
            r@ == self@,
    {
        self.bytes
    }
}

/// Sign a message with a secret key: the ECDSA signature of its SHA-256.
pub fn sign_message(secret_key: &[u8], message: &[u8]) -> (r: GovernanceResult<Signature>)
    ensures
        secret_valid(secret_key@) ==> (r matches Ok(s) && s@ == secp_ecdsa_sign(
            secret_key@,
            sha256_digest(message@),
        )),
        !secret_valid(secret_key@) ==> (r matches Err(GovernanceError::InvalidKey(m)) && m@
            == "Invalid secret key"@),
{
    if secret_key.len() != 32 {
        return Err(GovernanceError::InvalidKey(string_of("Invalid secret key")));
    }
    let mut key = [0u8; 32];
    let mut i: usize = 0;
    while i < 32
        invariant
            i <= 32,
            secret_key@.len() == 32,
            forall|j: int| 0 <= j < i ==> key@[j] == secret_key@[j],
        decreases 32 - i,
    {
        key[i] = secret_key[i];
        i = i + 1;
    }
    assert(key@ =~= secret_key@);
    if secret_key_error(&key).is_some() {
        return Err(GovernanceError::InvalidKey(string_of("Invalid secret key")));
    }
    let digest = sha256(message);
    let bytes = ecdsa_sign(&key, &digest).unwrap();
    Ok(Signature { bytes })
}

/// Verify a signature against a message and public key: whether the
/// signature is valid for the SHA-256 of the message.
pub fn verify_signature(signature: &Signature, message: &[u8], public_key: &PublicKey) -> (r:
    GovernanceResult<bool>)
    ensures
        r matches Ok(b) && b == secp_ecdsa_valid(signature@, sha256_digest(message@), public_key@),
{
    let digest = sha256(message);
    Ok(ecdsa_verify(&signature.bytes, &digest, &public_key.bytes))
}

} // verus!
