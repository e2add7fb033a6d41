//! Hash functions, keys and signatures, as the `bitcoin` crate and its
//! `secp256k1` provide them.
//!
//! Everything outside is reached through the functions of this module. Values
//! go in and out as plain bytes: a digest is its bytes in hashing order, a
//! public key its serialization, and an ECDSA signature its 64-byte compact
//! form (`r`, then `s`, both big-endian).

use bitcoin::Script;
use bitcoin::hashes::{hash160, ripemd160, sha1, sha256, sha256d, Hash as _};
use bitcoin::secp256k1::{ecdsa, schnorr, Message, PublicKey, Secp256k1, XOnlyPublicKey};
use bitcoin::taproot::{ControlBlock, LeafVersion, TapLeafHash};
use crate::num::{be_bytes, be_value, lemma_be_bytes, lemma_be_value_injective, pow256};
use crate::spend::same_bytes;
use crate::text::dec;
use vstd::prelude::*;

verus! {

/// The RIPEMD-160 digest of a message.
pub uninterp spec fn ripemd160_of(data: Seq<u8>) -> Seq<u8>;

/// The SHA-1 digest of a message.
pub uninterp spec fn sha1_of(data: Seq<u8>) -> Seq<u8>;

/// The SHA-256 digest of a message.
pub uninterp spec fn sha256_of(data: Seq<u8>) -> Seq<u8>;

/// `bitcoin::hashes::ripemd160::Hash::hash`: a digest of the data alone.
#[verifier::external_body]
pub(crate) fn ripemd160_hash(data: &[u8]) -> (r: [u8; 20])
    ensures
        r@ == ripemd160_of(data@),
{
    ripemd160::Hash::hash(data).to_byte_array()
}

/// `bitcoin::hashes::sha1::Hash::hash`: a digest of the data alone.
#[verifier::external_body]
pub(crate) fn sha1_hash(data: &[u8]) -> (r: [u8; 20])
    ensures
        r@ == sha1_of(data@),
{
    sha1::Hash::hash(data).to_byte_array()
}

/// `bitcoin::hashes::sha256::Hash::hash`: a digest of the data alone.
#[verifier::external_body]
pub(crate) fn sha256_hash(data: &[u8]) -> (r: [u8; 32])
    ensures
        r@ == sha256_of(data@),
{
    sha256::Hash::hash(data).to_byte_array()
}

/// `bitcoin::hashes::sha256d::Hash::hash`: SHA-256 of the SHA-256 digest.
#[verifier::external_body]
pub(crate) fn sha256d_hash(data: &[u8]) -> (r: [u8; 32])
    ensures
        r@ == sha256_of(sha256_of(data@)),
{
    sha256d::Hash::hash(data).to_byte_array()
}

/// `bitcoin::hashes::hash160::Hash::hash`: RIPEMD-160 of the SHA-256 digest.
#[verifier::external_body]
pub(crate) fn hash160_hash(data: &[u8]) -> (r: [u8; 20])
    ensures
        r@ == ripemd160_of(sha256_of(data@)),
{
    hash160::Hash::hash(data).to_byte_array()
}

/// Whether bytes are a serialized point of the curve, compressed or not.
pub uninterp spec fn valid_public_key(key: Seq<u8>) -> bool;

/// Whether 32 bytes are the x coordinate of a point of the curve.
pub uninterp spec fn valid_xonly_key(key: Seq<u8>) -> bool;

/// `secp256k1::PublicKey::from_slice`: whether the bytes parse depends on them
/// alone, and its only error reads "malformed public key".
#[verifier::external_body]
pub(crate) fn check_public_key(key: &[u8]) -> (r: Result<(), String>)
    ensures
        r is Ok == valid_public_key(key@),
        r matches Err(e) ==> e@ == "malformed public key"@,
{
    match PublicKey::from_slice(key) {
        Ok(_) => Ok(()),
        Err(e) => Err(e.to_string()),
    }
}

/// `secp256k1::XOnlyPublicKey::from_slice`: whether the bytes parse depends on
/// them alone, and its only error reads "malformed public key".
#[verifier::external_body]
pub(crate) fn check_xonly_key(key: &[u8]) -> (r: Result<(), String>)
    ensures
        r is Ok == valid_xonly_key(key@),
        r matches Err(e) ==> e@ == "malformed public key"@,
{
    match XOnlyPublicKey::from_slice(key) {
        Ok(_) => Ok(()),
        Err(e) => Err(e.to_string()),
    }
}

/// The order of the secp256k1 group.
pub open spec fn group_order() -> nat {
    0xffff_ffff_ffff_ffff_ffff_ffff_ffff_fffe * 0x1_0000_0000_0000_0000 * 0x1_0000_0000_0000_0000
        + 0xbaae_dce6_af48_a03b_bfd2_5e8c_d036_4141
}

/// The `s` half of a compact signature.
pub open spec fn s_value(compact: Seq<u8>) -> int {
    be_value(compact.subrange(32, 64)) as int
}

/// A compact signature whose halves are both below the group order.
pub open spec fn compact_form(compact: Seq<u8>) -> bool {
    &&& compact.len() == 64
    &&& be_value(compact.subrange(0, 32)) < group_order()
    &&& s_value(compact) < group_order()
}

/// A signature whose `s` lies in the upper half of its range.
pub open spec fn high_s(compact: Seq<u8>) -> bool {
    s_value(compact) > group_order() / 2
}

/// The signature that strict DER bytes encode, in compact form.
pub uninterp spec fn der_signature(der: Seq<u8>) -> Option<Seq<u8>>;

/// The signature that a lenient reading of DER bytes gives, in compact form.
pub uninterp spec fn lax_der_signature(der: Seq<u8>) -> Option<Seq<u8>>;

/// The view of an optional compact signature.
pub open spec fn opt_compact(c: Option<[u8; 64]>) -> Option<Seq<u8>> {
    match c {
        Some(c) => Some(c@),
        None => None,
    }
}

/// `ecdsa::Signature::from_der`, then `serialize_compact`: what is parsed
/// depends on the bytes alone, and both halves come out below the group order.
#[verifier::external_body]
pub(crate) fn parse_der(der: &[u8]) -> (r: Option<[u8; 64]>)
    ensures
        opt_compact(r) == der_signature(der@),
        r matches Some(c) ==> compact_form(c@),
{
    match ecdsa::Signature::from_der(der) {
        Ok(s) => Some(s.serialize_compact()),
        Err(_) => None,
    }
}

/// `ecdsa::Signature::from_der_lax`, then `serialize_compact`: what is parsed
/// depends on the bytes alone, and both halves come out below the group order.
#[verifier::external_body]
pub(crate) fn parse_der_lax(der: &[u8]) -> (r: Option<[u8; 64]>)
    ensures
        opt_compact(r) == lax_der_signature(der@),
        r matches Some(c) ==> compact_form(c@),
{
    match ecdsa::Signature::from_der_lax(der) {
        Ok(s) => Some(s.serialize_compact()),
        Err(_) => None,
    }
}

/// `ecdsa::Signature::normalize_s`: `s` in the upper half of its range is
/// replaced by the group order less `s`; nothing else changes.
#[verifier::external_body]
fn normalize_s(compact: &[u8; 64]) -> (r: [u8; 64])
    requires
        compact_form(compact@),
    ensures
        r@.subrange(0, 32) == compact@.subrange(0, 32),
        s_value(r@) == if high_s(compact@) {
            group_order() - s_value(compact@)
        } else {
            s_value(compact@)
        },
{
    let mut s = ecdsa::Signature::from_compact(compact).expect("both halves are in range");
    s.normalize_s();
    s.serialize_compact()
}

/// The low-S form of a signature: `r` as it is, and the group order less `s`
/// where `s` lies in the upper half of its range.
pub open spec fn low_s(compact: Seq<u8>) -> Seq<u8> {
    if high_s(compact) {
        compact.subrange(0, 32) + be_bytes((group_order() - s_value(compact)) as nat, 32)
    } else {
        compact
    }
}

proof fn lemma_group_order_fits()
    ensures
        group_order() < pow256(32),
        group_order() % 2 == 1,
{
    reveal_with_fuel(pow256, 33);
}

/// A compact signature is its `r` half and the value of its `s` half.
proof fn lemma_same_halves(a: Seq<u8>, b: Seq<u8>)
    requires
        a.len() == 64,
        b.len() == 64,
        a.subrange(0, 32) == b.subrange(0, 32),
        s_value(a) == s_value(b),
    ensures
        a == b,
{
    lemma_be_value_injective(a.subrange(32, 64), b.subrange(32, 64));
    assert(a =~= a.subrange(0, 32) + a.subrange(32, 64));
    assert(b =~= b.subrange(0, 32) + b.subrange(32, 64));
}

pub proof fn lemma_low_s_halves(compact: Seq<u8>)
    requires
        compact_form(compact),
    ensures
        low_s(compact).len() == 64,
        low_s(compact).subrange(0, 32) == compact.subrange(0, 32),
        s_value(low_s(compact)) == if high_s(compact) {
            group_order() - s_value(compact)
        } else {
            s_value(compact)
        },
{
    if high_s(compact) {
        let m = (group_order() - s_value(compact)) as nat;
        lemma_group_order_fits();
        lemma_be_bytes(m, 32);
        assert(low_s(compact).subrange(32, 64) =~= be_bytes(m, 32));
        assert(low_s(compact).subrange(0, 32) =~= compact.subrange(0, 32));
    }
}

/// Two signatures with the same `r` whose `s` halves add up to the group order
/// have the same low-S form.
pub proof fn lemma_mirrored_signatures_normalize_alike(a: Seq<u8>, b: Seq<u8>)
    requires
        compact_form(a),
        compact_form(b),
        a.subrange(0, 32) == b.subrange(0, 32),
        s_value(a) + s_value(b) == group_order(),
    ensures
        low_s(a) == low_s(b),
{
    lemma_group_order_fits();
    lemma_low_s_halves(a);
    lemma_low_s_halves(b);
    lemma_same_halves(low_s(a), low_s(b));
}

/// The low-S form of a signature, and whether that is another one.
pub(crate) fn to_low_s(compact: &[u8; 64]) -> (r: ([u8; 64], bool))
    requires
        compact_form(compact@),
    ensures
        r.0@ == low_s(compact@),
        r.1 == high_s(compact@),
{
    let normalized = normalize_s(compact);
    let changed = !same_bytes(normalized.as_slice(), compact.as_slice());
    proof {
        lemma_group_order_fits();
        lemma_low_s_halves(compact@);
        lemma_same_halves(normalized@, low_s(compact@));
    }
    (normalized, changed)
}

/// Whether an ECDSA signature in compact form is valid for a digest and a
/// serialized public key.
pub uninterp spec fn ecdsa_verifies(digest: Seq<u8>, compact: Seq<u8>, key: Seq<u8>) -> bool;

/// Whether a BIP340 signature is valid for a digest and an x-only key.
pub uninterp spec fn schnorr_verifies(digest: Seq<u8>, sig: Seq<u8>, key: Seq<u8>) -> bool;

/// `Secp256k1::verify_ecdsa`: the verdict depends on the digest, the signature
/// and the key alone. Nothing verifies when the signature or the key does not
/// parse.
#[verifier::external_body]
pub(crate) fn verify_ecdsa(digest: &[u8; 32], compact: &[u8; 64], key: &[u8]) -> (r: bool)
    ensures
        r == ecdsa_verifies(digest@, compact@, key@),
{
    match (ecdsa::Signature::from_compact(compact), PublicKey::from_slice(key)) {
        (Ok(s), Ok(k)) => Secp256k1::verification_only().verify_ecdsa(
            &Message::from_digest(*digest),
            &s,
            &k,
        ).is_ok(),
        _ => false,
    }
}

/// `Secp256k1::verify_schnorr`: the verdict depends on the digest, the
/// signature and the key alone. Nothing verifies when the signature or the key
/// does not parse.
#[verifier::external_body]
pub(crate) fn verify_schnorr(digest: &[u8; 32], sig: &[u8], key: &[u8]) -> (r: bool)
    ensures
        r == schnorr_verifies(digest@, sig@, key@),
{
    match (schnorr::Signature::from_slice(sig), XOnlyPublicKey::from_slice(key)) {
        (Ok(s), Ok(k)) => Secp256k1::verification_only().verify_schnorr(
            &s,
            &Message::from_digest(*digest),
            &k,
        ).is_ok(),
        _ => false,
    }
}

/// The BIP341 hash of a leaf: its version byte and its script.
pub uninterp spec fn tap_leaf(script: Seq<u8>, version: u8) -> Seq<u8>;

/// A leaf version that BIP341 admits: even, and not the annex prefix.
pub open spec fn leaf_version_ok(version: u8) -> bool {
    version % 2 == 0 && version != 0x50
}

/// `TapLeafHash::from_script`: a digest of the script and the leaf version.
#[verifier::external_body]
pub(crate) fn tap_leaf_hash(script: &[u8], version: u8) -> (r: [u8; 32])
    requires
        leaf_version_ok(version),
    ensures
        r@ == tap_leaf(script@, version),
{
    let version = LeafVersion::from_consensus(version).expect("an even leaf version");
    TapLeafHash::from_script(Script::from_bytes(script), version).to_byte_array()
}

/// What a BIP341 control block says.
pub struct Control {
    pub leaf_version: u8,
    /// The number of hashes on the way to the root.
    pub merkle_steps: usize,
    pub internal_key: Vec<u8>,
}

/// The leaf version of a control block: its first byte without the parity bit.
pub open spec fn control_leaf_version(control: Seq<u8>) -> u8 {
    (control[0] - control[0] % 2) as u8
}

/// What is wrong with a control block, if anything.
pub open spec fn control_error(control: Seq<u8>) -> Option<Seq<char>> {
    if control.len() < 33 || (control.len() - 33) % 32 != 0 {
        Some(
            "Control Block size("@ + dec(control.len() as int)
                + ") must be of the form 33 + 32*m where  0 <= m <= 128 "@,
        )
    } else if control_leaf_version(control) == 0x50 {
        Some("Leaf version(80) must have the least significant bit 0"@)
    } else if !valid_xonly_key(control.subrange(1, 33)) {
        Some("invalid internal x-only key"@)
    } else if control.len() > 33 + 32 * 128 {
        Some("Merkle Tree depth("@ + dec((control.len() - 33) / 32) + ") must be less than 128"@)
    } else {
        None
    }
}

/// `ControlBlock::decode`: 33 bytes and at most 128 hashes of 32 bytes, with a
/// leaf version that BIP341 admits and an internal key on the curve; the first
/// of these that fails is reported.
#[verifier::external_body]
pub(crate) fn decode_control(control: &[u8]) -> (r: Result<Control, String>)
    ensures
        match r {
            Ok(c) => {
                &&& control_error(control@) is None
                &&& c.leaf_version == control_leaf_version(control@)
                &&& c.merkle_steps == (control@.len() - 33) / 32
                &&& c.internal_key@ == control@.subrange(1, 33)
            },
            Err(e) => control_error(control@) == Some(e@),
        },
{
    match ControlBlock::decode(control) {
        Ok(c) => Ok(
            Control {
                leaf_version: c.leaf_version.to_consensus(),
                merkle_steps: c.merkle_branch.len(),
                internal_key: c.internal_key.serialize().to_vec(),
            },
        ),
        Err(e) => Err(e.to_string()),
    }
}

/// Whether a control block and a leaf script commit to an output key.
pub uninterp spec fn commitment_holds(control: Seq<u8>, key: Seq<u8>, script: Seq<u8>) -> bool;

/// `ControlBlock::verify_taproot_commitment`: the verdict depends on the
/// control block, the output key and the leaf script alone. Nothing is
/// committed to when the control block or the key does not parse.
#[verifier::external_body]
pub(crate) fn verify_commitment(control: &[u8], key: &[u8], script: &[u8]) -> (r: bool)
    ensures
        r == commitment_holds(control@, key@, script@),
{
    match (ControlBlock::decode(control), XOnlyPublicKey::from_slice(key)) {
        (Ok(c), Ok(k)) => c.verify_taproot_commitment(
            &Secp256k1::verification_only(),
            k,
            Script::from_bytes(script),
        ),
        _ => false,
    }
}

} // verus!
