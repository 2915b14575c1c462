//! BIP32 hierarchical deterministic keys: a master key from a seed by
//! HMAC-SHA512 under the key "Bitcoin seed", and child keys from a parent's
//! chain code and key.
//!
//! Keys are held as bytes: a secret key as its 32 big-endian bytes, a
//! public key as its 33-byte compressed encoding. The hashes and the curve
//! arithmetic are done by the `hmac`, `sha2`, `ripemd` and `secp256k1`
//! crates.

use vstd::prelude::*;

use hmac::{Hmac, Mac};
use secp256k1::{PublicKey, Scalar, Secp256k1, SecretKey};
use sha2::{Digest, Sha256, Sha512};
use ripemd::Ripemd160;

use crate::governance::error::{is_input_error, is_key_error, GovernanceError, GovernanceResult};
use crate::governance::psbt::u32_be;
use crate::governance::psbt_wire::{append_bytes, pow256};
use crate::text::{concat_str, string_of};

verus! {

/// The order of the secp256k1 group.
pub open spec fn curve_order() -> nat {
    0xFFFFFFFFFFFFFFFFFFFFFFFFFFFFFFFEBAAEDCE6AF48A03BBFD25E8CD0364141nat
}

/// The number that bytes denote read as a big-endian integer.
pub open spec fn be_value(s: Seq<u8>) -> nat
    decreases s.len(),
{
    if s.len() == 0 {
        0
    } else {
        be_value(s.drop_last()) * 256 + s.last() as nat
    }
}

/// The 32 big-endian bytes of a number below 2^256.
pub open spec fn be32(v: nat) -> Seq<u8> {
    Seq::new(32, |i: int| ((v / pow256((31 - i) as nat)) % 256) as u8)
}

/// A valid secret key: 32 bytes whose value is neither 0 nor below the
/// curve order.
pub open spec fn secret_valid(s: Seq<u8>) -> bool {
    s.len() == 32 && 0 < be_value(s) < curve_order()
}

/// HMAC-SHA512 of `data` under `key` (64 bytes).
pub uninterp spec fn hmac_sha512_digest(key: Seq<u8>, data: Seq<u8>) -> Seq<u8>;

/// SHA-256 of `data` (32 bytes).
pub uninterp spec fn sha256_digest(data: Seq<u8>) -> Seq<u8>;

/// RIPEMD-160 of `data` (20 bytes).
pub uninterp spec fn ripemd160_digest(data: Seq<u8>) -> Seq<u8>;

/// The compressed public key of a valid secret key.
pub uninterp spec fn secp_public_key(secret: Seq<u8>) -> Seq<u8>;

/// The compressed point `public_key + tweak·G`, or none where the bytes
/// encode no point or the sum is the point at infinity.
pub uninterp spec fn secp_exp_tweak(public_key: Seq<u8>, tweak: Seq<u8>) -> Option<Seq<u8>>;

/// The HMAC key of master key derivation: "Bitcoin seed".
pub open spec fn master_hmac_key() -> Seq<u8> {
    seq![0x42u8, 0x69, 0x74, 0x63, 0x6f, 0x69, 0x6e, 0x20, 0x73, 0x65, 0x65, 0x64]
}

/// The fingerprint of a public key: the first 4 bytes of
/// RIPEMD160(SHA256(key)).
pub open spec fn fingerprint_of(public_key: Seq<u8>) -> Seq<u8> {
    ripemd160_digest(sha256_digest(public_key)).take(4)
}

/// What a private key derivation hashes: `0x00 || secret` for a hardened
/// index, the compressed public key otherwise, then the index big-endian.
pub open spec fn child_data(secret: Seq<u8>, index: u32) -> Seq<u8> {
    if index >= 0x80000000 {
        seq![0u8] + secret + u32_be(index)
    } else {
        secp_public_key(secret) + u32_be(index)
    }
}

/// An extended private key as values: depth, parent fingerprint, child
/// number, chain code, secret key.
pub type XprvModel = (u8, Seq<u8>, u32, Seq<u8>, Seq<u8>);

/// An extended public key as values: depth, parent fingerprint, child
/// number, chain code, compressed public key.
pub type XpubModel = (u8, Seq<u8>, u32, Seq<u8>, Seq<u8>);

/// The extended public key of an extended private key.
pub open spec fn xpub_of(x: XprvModel) -> XpubModel {
    (x.0, x.1, x.2, x.3, secp_public_key(x.4))
}

/// The master key of a seed, or the message of the error.
pub open spec fn master_key(seed: Seq<u8>) -> Result<XprvModel, Seq<char>> {
    let h = hmac_sha512_digest(master_hmac_key(), seed);
    let il = h.subrange(0, 32);
    if seed.len() < 16 || seed.len() > 64 {
        Err("Seed must be 16-64 bytes"@)
    } else if !secret_valid(il) {
        Err("Invalid master private key: "@ + "malformed or out-of-range secret key"@)
    } else {
        Ok((0u8, seq![0u8, 0, 0, 0], 0u32, h.subrange(32, 64), il))
    }
}

/// The child of an extended private key at `index`, or the message of the
/// error: the left half of the HMAC added to the parent key modulo the
/// curve order, the right half as chain code.
pub open spec fn private_child(x: XprvModel, index: u32) -> Result<XprvModel, Seq<char>> {
    let h = hmac_sha512_digest(x.3, child_data(x.4, index));
    let il = h.subrange(0, 32);
    let sum = (be_value(x.4) + be_value(il)) % curve_order();
    if be_value(il) >= curve_order() {
        Err("IL cannot be converted to scalar"@)
    } else if sum == 0 {
        Err("Key addition resulted in zero or invalid key"@)
    } else {
        Ok(((x.0 + 1) as u8, fingerprint_of(secp_public_key(x.4)), index, h.subrange(32, 64), be32(sum)))
    }
}

/// Derivation through each index in turn, or the message of the first
/// error.
pub open spec fn private_path(x: XprvModel, indices: Seq<u32>) -> Result<XprvModel, Seq<char>>
    decreases indices.len(),
{
    if indices.len() == 0 {
        Ok(x)
    } else {
        match private_path(x, indices.drop_last()) {
            Err(m) => Err(m),
            Ok(y) => private_child(y, indices.last()),
        }
    }
}

/// The child of an extended public key at a non-hardened `index`, or the
/// message of the error: the compressed point `parent + IL·G`, the right
/// half of the HMAC as chain code. A hardened index is refused.
pub open spec fn public_child(x: XpubModel, index: u32) -> Result<XpubModel, Seq<char>> {
    let h = hmac_sha512_digest(x.3, x.4 + u32_be(index));
    let il = h.subrange(0, 32);
    if index >= 0x80000000 {
        Err("Hardened derivation requires private key"@)
    } else if be_value(il) >= curve_order() {
        Err("Invalid scalar"@)
    } else {
        match secp_exp_tweak(x.4, il) {
            None => Err("Point addition failed"@),
            Some(pk) => Ok(((x.0 + 1) as u8, fingerprint_of(x.4), index, h.subrange(32, 64), pk)),
        }
    }
}

/// The error of a public child derivation: `InvalidInput` for a hardened
/// index, `InvalidKey` otherwise.
pub open spec fn public_child_error(index: u32, e: GovernanceError, m: Seq<char>) -> bool {
    if index >= 0x80000000 {
        is_input_error(e, m)
    } else {
        is_key_error(e, m)
    }
}

/// Whether public derivation from `x` at `index` agrees with private
/// derivation from the secret `sk` behind it: at a non-hardened index both
/// succeed or both fail, and the public child is the extended public key of
/// the private child.
pub open spec fn agrees_with_private(x: XpubModel, sk: Seq<u8>, index: u32) -> bool {
    let priv_child = private_child((x.0, x.1, x.2, x.3, sk), index);
    &&& index < 0x80000000 ==> (public_child(x, index) is Ok <==> priv_child is Ok)
    &&& index < 0x80000000 ==> match priv_child {
        Ok(c) => public_child(x, index) == Ok::<XpubModel, Seq<char>>(xpub_of(c)),
        Err(_) => true,
    }
}

/// Each step of a derivation goes one level deeper and records its index:
/// the key at the end of a path is as many levels below the start as the
/// path has indices, with the last index as its child number.
pub proof fn lemma_private_path_depth(x: XprvModel, indices: Seq<u32>)
    requires
        x.0 + indices.len() <= 255,
        private_path(x, indices) is Ok,
    ensures
        private_path(x, indices) matches Ok(c) && c.0 == x.0 + indices.len() && (indices.len() > 0
            ==> c.2 == indices.last()),
    decreases indices.len(),
{
    if indices.len() > 0 {
        lemma_private_path_depth(x, indices.drop_last());
    }
}

/// Derivation through a prefix of the indices that fails fails the whole
/// derivation with the same message.
pub proof fn lemma_private_path_err(x: XprvModel, indices: Seq<u32>, k: int)
    requires
        0 <= k <= indices.len(),
        private_path(x, indices.take(k)) is Err,
    ensures
        private_path(x, indices) == private_path(x, indices.take(k)),
    decreases indices.len(),
{
    if k == indices.len() {
        assert(indices.take(k) =~= indices);
    } else {
        assert(indices.drop_last().take(k) =~= indices.take(k));
        lemma_private_path_err(x, indices.drop_last(), k);
    }
}

/// Derivation through one more index is one more child derivation.
pub proof fn lemma_private_path_step(x: XprvModel, indices: Seq<u32>, k: int)
    requires
        0 <= k < indices.len(),
    ensures
        private_path(x, indices.take(k + 1)) == (match private_path(x, indices.take(k)) {
            Err(m) => Err(m),
            Ok(y) => private_child(y, indices[k]),
        }),
{
    assert(indices.take(k + 1).drop_last() =~= indices.take(k));
    assert(indices.take(k + 1).last() == indices[k]);
}

/// Extended private key (xprv).
#[derive(Debug, Clone, Copy)]
pub struct ExtendedPrivateKey {
    /// Depth in derivation tree (0 = master)
    pub depth: u8,
    /// Parent fingerprint (4 bytes)
    pub parent_fingerprint: [u8; 4],
    /// Child number (index)
    pub child_number: u32,
    /// Chain code (32 bytes)
    pub chain_code: [u8; 32],
    /// Private key (32 big-endian bytes)
    pub private_key: [u8; 32],
}

/// Extended public key (xpub).
#[derive(Debug, Clone, Copy)]
pub struct ExtendedPublicKey {
    /// Depth in derivation tree (0 = master)
    pub depth: u8,
    /// Parent fingerprint (4 bytes)
    pub parent_fingerprint: [u8; 4],
    /// Child number (index)
    pub child_number: u32,
    /// Chain code (32 bytes)
    pub chain_code: [u8; 32],
    /// Public key (33 bytes compressed)
    pub public_key: [u8; 33],
}

impl View for ExtendedPrivateKey {
    type V = XprvModel;

    open spec fn view(&self) -> XprvModel {
        (self.depth, self.parent_fingerprint@, self.child_number, self.chain_code@, self.private_key@)
    }
}

impl View for ExtendedPublicKey {
    type V = XpubModel;

    open spec fn view(&self) -> XpubModel {
        (self.depth, self.parent_fingerprint@, self.child_number, self.chain_code@, self.public_key@)
    }
}

/// `Hmac::<Sha512>::new_from_slice(key)`, `update(data)` and `finalize()`:
/// the HMAC-SHA512 of `data` under `key`. HMAC accepts a key of any
/// length, so the result is always present.
#[verifier::external_body]
fn hmac_sha512(key: &[u8], data: &[u8]) -> (r: Option<[u8; 64]>)
    ensures
        r is Some,
        r matches Some(h) ==> h@ == hmac_sha512_digest(key@, data@),
{
    match Hmac::<Sha512>::new_from_slice(key) {
        Ok(mut mac) => {
            mac.update(data);
            let mut out = [0u8; 64];
            out.copy_from_slice(&mac.finalize().into_bytes());
            Some(out)
        },
        Err(_) => None,
    }
}

/// `Sha256::digest(data)`: the SHA-256 of `data`.
#[verifier::external_body]
pub(crate) fn sha256(data: &[u8]) -> (r: [u8; 32])
    ensures
        r@ == sha256_digest(data@),
{
    let mut out = [0u8; 32];
    out.copy_from_slice(&Sha256::digest(data));
    out
}

/// `Ripemd160::digest(data)`: the RIPEMD-160 of `data`.
#[verifier::external_body]
fn ripemd160(data: &[u8]) -> (r: [u8; 20])
    ensures
        r@ == ripemd160_digest(data@),
{
    let mut out = [0u8; 20];
    out.copy_from_slice(&Ripemd160::digest(data));
    out
}

/// `SecretKey::from_slice(bytes)`: the key is accepted when its value is
/// neither 0 nor below the curve order; the one error it gives,
/// `InvalidSecretKey`, displays as "malformed or out-of-range secret key".
#[verifier::external_body]
pub(crate) fn secret_key_error(bytes: &[u8; 32]) -> (r: Option<String>)
    ensures
        r is None <==> secret_valid(bytes@),
        r matches Some(t) ==> t@ == "malformed or out-of-range secret key"@,
{
    match SecretKey::from_slice(bytes) {
        Ok(_) => None,
        Err(e) => Some(e.to_string()),
    }
}

/// `SecretKey::public_key` followed by `PublicKey::serialize`: the
/// compressed public key of a valid secret key.
#[verifier::external_body]
fn public_key_of(secret: &[u8; 32]) -> (r: Option<[u8; 33]>)
    requires
        secret_valid(secret@),
    ensures
        r is Some,
        r matches Some(p) ==> p@ == secp_public_key(secret@),
{
    let secp = Secp256k1::new();
    match SecretKey::from_slice(secret) {
        Ok(k) => Some(k.public_key(&secp).serialize()),
        Err(_) => None,
    }
}

/// `Scalar::from_be_bytes(bytes)`: accepted when the big-endian value is
/// below the curve order.
#[verifier::external_body]
fn scalar_in_range(bytes: &[u8; 32]) -> (r: bool)
    ensures
        r == (be_value(bytes@) < curve_order()),
{
    Scalar::from_be_bytes(*bytes).is_ok()
}

/// `SecretKey::add_tweak`: the secret key plus the tweak modulo the curve
/// order, as 32 big-endian bytes; an error where that sum is 0. The key it
/// gives is a valid secret key.
#[verifier::external_body]
fn secret_add_tweak(secret: &[u8; 32], tweak: &[u8; 32]) -> (r: Option<[u8; 32]>)
    requires
        secret_valid(secret@),
        be_value(tweak@) < curve_order(),
    ensures
        r is Some <==> (be_value(secret@) + be_value(tweak@)) % curve_order() != 0,
        r matches Some(k) ==> k@ == be32((be_value(secret@) + be_value(tweak@)) % curve_order())
            && secret_valid(k@),
{
    let key = match SecretKey::from_slice(secret) {
        Ok(k) => k,
        Err(_) => return None,
    };
    let t = match Scalar::from_be_bytes(*tweak) {
        Ok(t) => t,
        Err(_) => return None,
    };
    match key.add_tweak(&t) {
        Ok(k) => Some(k.secret_bytes()),
        Err(_) => None,
    }
}

/// `PublicKey::from_slice`, `PublicKey::add_exp_tweak` and `serialize`:
/// the compressed point `public_key + tweak·G`, none where the bytes are
/// no point or the sum is the point at infinity. Where the key is the
/// public key `s·G` of a secret `s`, the documented sum is `(s + tweak)·G`,
/// the public key of the secret `(s + tweak) mod n`, and the point at
/// infinity exactly where that is 0.
#[verifier::external_body]
fn public_key_add_exp_tweak(public_key: &[u8; 33], tweak: &[u8; 32]) -> (r: Option<[u8; 33]>)
    requires
        be_value(tweak@) < curve_order(),
    ensures
        r is Some <==> secp_exp_tweak(public_key@, tweak@) is Some,
        r matches Some(p) ==> secp_exp_tweak(public_key@, tweak@) == Some(p@),
        forall|sk: Seq<u8>|
            secret_valid(sk) && public_key@ == #[trigger] secp_public_key(sk) ==> if (be_value(sk)
                + be_value(tweak@)) % curve_order() == 0 {
                r is None
            } else {
                r matches Some(p) && p@ == secp_public_key(
                    be32((be_value(sk) + be_value(tweak@)) % curve_order()),
                )
            },
{
    let secp = Secp256k1::new();
    let pk = match PublicKey::from_slice(public_key) {
        Ok(p) => p,
        Err(_) => return None,
    };
    let t = match Scalar::from_be_bytes(*tweak) {
        Ok(t) => t,
        Err(_) => return None,
    };
    match pk.add_exp_tweak(&secp, &t) {
        Ok(p) => Some(p.serialize()),
        Err(_) => None,
    }
}

/// Append a `u32` in big-endian order.
fn push_u32_be(out: &mut Vec<u8>, x: u32)
    ensures
        final(out)@ == old(out)@ + u32_be(x),
{
    out.push((x / 0x1000000) as u8);
    out.push(((x / 0x10000) % 256) as u8);
    out.push(((x / 0x100) % 256) as u8);
    out.push((x % 256) as u8);
    proof {
        assert(final(out)@ =~= old(out)@ + u32_be(x));
    }
}

/// The two halves of a 64-byte digest.
fn split_digest(h: &[u8; 64]) -> (r: ([u8; 32], [u8; 32]))
    ensures
        r.0@ == h@.subrange(0, 32),
        r.1@ == h@.subrange(32, 64),
{
    let mut left = [0u8; 32];
    let mut right = [0u8; 32];
    let mut i: usize = 0;
    while i < 32
        invariant
            i <= 32,
            forall|j: int| 0 <= j < i ==> left@[j] == h@[j] && right@[j] == h@[j + 32],
        decreases 32 - i,
    {
        left[i] = h[i];
        right[i] = h[i + 32];
        i = i + 1;
    }
    assert(left@ =~= h@.subrange(0, 32));
    assert(right@ =~= h@.subrange(32, 64));
    (left, right)
}

/// Calculate key fingerprint (first 4 bytes of RIPEMD160(SHA256(pubkey))).
fn calculate_fingerprint(pubkey: &[u8]) -> (r: [u8; 4])
    ensures
        r@ == fingerprint_of(pubkey@),
{
    let s = sha256(pubkey);
    let h = ripemd160(s.as_slice());
    let mut fingerprint = [0u8; 4];
    fingerprint[0] = h[0];
    fingerprint[1] = h[1];
    fingerprint[2] = h[2];
    fingerprint[3] = h[3];
    assert(fingerprint@ =~= fingerprint_of(pubkey@));
    fingerprint
}

/// The HMAC key of master key derivation, "Bitcoin seed".
pub const MASTER_HMAC_KEY: [u8; 12] = [
    0x42,
    0x69,
    0x74,
    0x63,
    0x6f,
    0x69,
    0x6e,
    0x20,
    0x73,
    0x65,
    0x65,
    0x64,
];

/// Derive master key from seed: I = HMAC-SHA512(Key = "Bitcoin seed",
/// Data = seed), the left half the master private key and the right half
/// the master chain code.
pub fn derive_master_key(seed: &[u8]) -> (r: GovernanceResult<(ExtendedPrivateKey, ExtendedPublicKey)>)
    ensures
        (seed@.len() < 16 || seed@.len() > 64) ==> (r matches Err(GovernanceError::InvalidInput(m))
            && m@ == "Seed must be 16-64 bytes"@),
        master_key(seed@) matches Ok(x) ==> (r matches Ok((k, p)) && k@ == x && p@ == xpub_of(x)
            && secret_valid(k.private_key@)),
        master_key(seed@) matches Err(e) ==> (16 <= seed@.len() <= 64 ==> (r matches Err(
            GovernanceError::InvalidKey(m),
        ) && m@ == e)),
{
    if seed.len() < 16 || seed.len() > 64 {
        return Err(GovernanceError::InvalidInput(string_of("Seed must be 16-64 bytes")));
    }
    assert(MASTER_HMAC_KEY@ =~= master_hmac_key());
    let h = hmac_sha512(MASTER_HMAC_KEY.as_slice(), seed).unwrap();
    let (private_key, chain_code) = split_digest(&h);
    match secret_key_error(&private_key) {
        Some(e) => {
            return Err(
                GovernanceError::InvalidKey(concat_str("Invalid master private key: ", e.as_str())),
            );
        },
        None => {},
    }
    let public_key = public_key_of(&private_key).unwrap();
    let xprv = ExtendedPrivateKey {
        depth: 0,
        parent_fingerprint: [0u8; 4],
        child_number: 0,
        chain_code,
        private_key,
    };
    let xpub = ExtendedPublicKey {
        depth: 0,
        parent_fingerprint: [0u8; 4],
        child_number: 0,
        chain_code,
        public_key,
    };
    assert(xprv.parent_fingerprint@ =~= seq![0u8, 0, 0, 0]);
    Ok((xprv, xpub))
}

/// Derive child private key (BIP32): hardened for an index of 2^31 or
/// more (hashing the private key), normal below (hashing the public key).
pub fn derive_child_private(parent: &ExtendedPrivateKey, child_number: u32) -> (r: GovernanceResult<
    (ExtendedPrivateKey, ExtendedPublicKey),
>)
    requires
        parent.depth < 255,
        secret_valid(parent.private_key@),
    ensures
        private_child(parent@, child_number) matches Ok(c) ==> (r matches Ok((k, p)) && k@ == c
            && p@ == xpub_of(c) && secret_valid(k.private_key@)),
        private_child(parent@, child_number) matches Err(e) ==> (r matches Err(
            GovernanceError::InvalidKey(m),
        ) && m@ == e),
{
    let parent_pubkey = public_key_of(&parent.private_key).unwrap();
    let mut data: Vec<u8> = Vec::new();
    if child_number >= 0x80000000 {
        data.push(0);
        append_bytes(&mut data, parent.private_key.as_slice());
    } else {
        append_bytes(&mut data, parent_pubkey.as_slice());
    }
    push_u32_be(&mut data, child_number);
    assert(data@ =~= child_data(parent.private_key@, child_number));
    let parent_fingerprint = calculate_fingerprint(parent_pubkey.as_slice());
    let h = hmac_sha512(parent.chain_code.as_slice(), data.as_slice()).unwrap();
    let (il, child_chain_code) = split_digest(&h);
    if !scalar_in_range(&il) {
        return Err(GovernanceError::InvalidKey(string_of("IL cannot be converted to scalar")));
    }
    let child_private = match secret_add_tweak(&parent.private_key, &il) {
        Some(k) => k,
        None => {
            return Err(
                GovernanceError::InvalidKey(
                    string_of("Key addition resulted in zero or invalid key"),
                ),
            );
        },
    };
    let child_public = public_key_of(&child_private).unwrap();
    let child_xprv = ExtendedPrivateKey {
        depth: parent.depth + 1,
        parent_fingerprint,
        child_number,
        chain_code: child_chain_code,
        private_key: child_private,
    };
    let child_xpub = ExtendedPublicKey {
        depth: parent.depth + 1,
        parent_fingerprint,
        child_number,
        chain_code: child_chain_code,
        public_key: child_public,
    };
    Ok((child_xprv, child_xpub))
}

/// Derive child public key from parent public key (non-hardened only):
/// hardened derivation needs the private key.
pub fn derive_child_public(parent: &ExtendedPublicKey, child_number: u32) -> (r: GovernanceResult<
    ExtendedPublicKey,
>)
    requires
        parent.depth < 255,
    ensures
        public_child(parent@, child_number) matches Ok(c) ==> (r matches Ok(p) && p@ == c),
        public_child(parent@, child_number) matches Err(e) ==> (r matches Err(err)
            && public_child_error(child_number, err, e)),
        forall|sk: Seq<u8>|
            secret_valid(sk) && parent.public_key@ == #[trigger] secp_public_key(sk) ==> agrees_with_private(
                parent@,
                sk,
                child_number,
            ),
{
    if child_number >= 0x80000000 {
        return Err(
            GovernanceError::InvalidInput(string_of("Hardened derivation requires private key")),
        );
    }
    let mut data: Vec<u8> = Vec::new();
    append_bytes(&mut data, parent.public_key.as_slice());
    push_u32_be(&mut data, child_number);
    let parent_fingerprint = calculate_fingerprint(parent.public_key.as_slice());
    let h = hmac_sha512(parent.chain_code.as_slice(), data.as_slice()).unwrap();
    let (il, child_chain_code) = split_digest(&h);
    if !scalar_in_range(&il) {
        return Err(GovernanceError::InvalidKey(string_of("Invalid scalar")));
    }
    let child_public = match public_key_add_exp_tweak(&parent.public_key, &il) {
        Some(p) => p,
        None => {
            return Err(GovernanceError::InvalidKey(string_of("Point addition failed")));
        },
    };
    Ok(
        ExtendedPublicKey {
            depth: parent.depth + 1,
            parent_fingerprint,
            child_number,
            chain_code: child_chain_code,
            public_key: child_public,
        },
    )
}

impl ExtendedPrivateKey {
    /// Get the corresponding extended public key.
    pub fn to_extended_public(&self) -> (r: ExtendedPublicKey)
        requires
            secret_valid(self.private_key@),
        ensures
            r@ == xpub_of(self@),
    {
        ExtendedPublicKey {
            depth: self.depth,
            parent_fingerprint: self.parent_fingerprint,
            child_number: self.child_number,
            chain_code: self.chain_code,
            public_key: public_key_of(&self.private_key).unwrap(),
        }
    }

    /// Derive a child key.
    pub fn derive_child(&self, child_number: u32) -> (r: GovernanceResult<
        (ExtendedPrivateKey, ExtendedPublicKey),
    >)
        requires
            self.depth < 255,
            secret_valid(self.private_key@),
        ensures
            private_child(self@, child_number) matches Ok(c) ==> (r matches Ok((k, p)) && k@ == c
                && p@ == xpub_of(c) && secret_valid(k.private_key@)),
            private_child(self@, child_number) matches Err(e) ==> (r matches Err(err)
                && is_key_error(err, e)),
    {
        derive_child_private(self, child_number)
    }

    /// Get private key bytes.
    pub fn private_key_bytes(&self) -> (r: [u8; 32])
        ensures
            r == self.private_key,
    {
        self.private_key
    }
}

impl ExtendedPublicKey {
    /// Derive a non-hardened child public key: the extended public key of
    /// the child that private derivation gives from the secret behind this
    /// key.
    pub fn derive_child(&self, child_number: u32) -> (r: GovernanceResult<ExtendedPublicKey>)
        requires
            self.depth < 255,
        ensures
            public_child(self@, child_number) matches Ok(c) ==> (r matches Ok(p) && p@ == c),
            public_child(self@, child_number) matches Err(e) ==> (r matches Err(err)
                && public_child_error(child_number, err, e)),
            forall|sk: Seq<u8>|
                secret_valid(sk) && self.public_key@ == #[trigger] secp_public_key(sk) ==> agrees_with_private(
                    self@,
                    sk,
                    child_number,
                ),
    {
        derive_child_public(self, child_number)
    }

    /// Get public key bytes (compressed).
    pub fn public_key_bytes(&self) -> (r: [u8; 33])
        ensures
            r == self.public_key,
    {
        self.public_key
    }
}

} // verus!
