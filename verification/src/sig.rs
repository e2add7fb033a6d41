//! Signature checking: sighash construction (delegated to rust-bitcoin) plus
//! ECDSA / BIP340 Schnorr verification.

use crate::assembly::{
    copy_texts, ins_at, instructions, law_push_decodes_to_its_data, le_usize, lemma_instruction_at,
    opt_text, push_data, push_header_len, push_of, push_text, texts,
};
use crate::crypto::{
    check_public_key, check_xonly_key, compact_form, der_signature, ecdsa_verifies, group_order,
    high_s, lax_der_signature, lemma_mirrored_signatures_normalize_alike, low_s, parse_der,
    parse_der_lax, s_value, schnorr_verifies, to_low_s, valid_public_key, valid_xonly_key,
    verify_ecdsa, verify_schnorr,
};
use crate::hexcodec::{hex_encode, law_hex_roundtrip};
use crate::text::{dec, dec_u64, dec_usize, hex_byte, hex_text, hex_u8, text};
use crate::tx::{
    digest_or_message, legacy_sighash, legacy_sighash_of, opt_bytes, out_models, segwit_sighash,
    segwit_sighash_of, taproot_hash_type, taproot_sighash_of, tx_decoded, Tx, TxModel, TxOut,
    TxOutModel,
};
use vstd::prelude::*;
use vstd::slice::slice_subrange;
use vstd::string::StringExecFns;

verus! {

/// Outcome of a single signature check, verbose enough that the UI can explain
/// *why* something failed rather than just showing a red 0.
#[derive(Debug)]
pub struct SigResult {
    pub valid: bool,
    /// Sighash actually signed, hex, big-endian display order. Empty when the
    /// check never got far enough to build one.
    pub sighash: String,
    pub sighash_type: String,
    pub detail: String,
    pub warnings: Vec<String>,
    /// True when there is no transaction loaded, so verification was skipped
    /// rather than performed.
    pub assumed: bool,
    /// The exact pair this check ran against, hex, as it sat on the stack.
    /// Multisig performs several checks per op, so without these the UI cannot
    /// say *which* signature went with *which* key.
    pub pubkey: String,
    pub signature: String,
}

/// The outcome of a check as mathematical values.
#[verifier::ext_equal]
pub struct SigModel {
    pub valid: bool,
    pub sighash: Seq<char>,
    pub sighash_type: Seq<char>,
    pub detail: Seq<char>,
    pub warnings: Seq<Seq<char>>,
    pub assumed: bool,
    pub pubkey: Seq<char>,
    pub signature: Seq<char>,
}

impl View for SigResult {
    type V = SigModel;

    open spec fn view(&self) -> SigModel {
        SigModel {
            valid: self.valid,
            sighash: self.sighash@,
            sighash_type: self.sighash_type@,
            detail: self.detail@,
            warnings: texts(self.warnings@),
            assumed: self.assumed,
            pubkey: self.pubkey@,
            signature: self.signature@,
        }
    }
}

impl Clone for SigResult {
    fn clone(&self) -> (r: SigResult)
        ensures
            r@ == self@,
    {
        SigResult {
            valid: self.valid,
            sighash: self.sighash.clone(),
            sighash_type: self.sighash_type.clone(),
            detail: self.detail.clone(),
            warnings: copy_texts(&self.warnings),
            assumed: self.assumed,
            pubkey: self.pubkey.clone(),
            signature: self.signature.clone(),
        }
    }
}

impl Default for SigResult {
    fn default() -> (r: SigResult)
        ensures
            !r.valid,
            r.sighash@.len() == 0,
            r.sighash_type@.len() == 0,
            r.detail@.len() == 0,
            r.warnings@.len() == 0,
            !r.assumed,
            r.pubkey@.len() == 0,
            r.signature@.len() == 0,
    {
        SigResult {
            valid: false,
            sighash: String::new(),
            sighash_type: String::new(),
            detail: String::new(),
            warnings: Vec::new(),
            assumed: false,
            pubkey: String::new(),
            signature: String::new(),
        }
    }
}

/// A failure before any digest was built.
pub open spec fn failed(
    hash_type: Seq<char>,
    detail: Seq<char>,
    warnings: Seq<Seq<char>>,
) -> SigModel {
    SigModel {
        valid: false,
        sighash: Seq::empty(),
        sighash_type: hash_type,
        detail,
        warnings,
        assumed: false,
        pubkey: Seq::empty(),
        signature: Seq::empty(),
    }
}

/// The outcome of holding a signature against a digest.
pub open spec fn verdict(
    valid: bool,
    digest: Seq<u8>,
    hash_type: Seq<char>,
    detail: Seq<char>,
    warnings: Seq<Seq<char>>,
) -> SigModel {
    SigModel {
        valid,
        sighash: hex_text(digest.reverse()),
        sighash_type: hash_type,
        detail,
        warnings,
        assumed: false,
        pubkey: Seq::empty(),
        signature: Seq::empty(),
    }
}

/// An outcome that names the pair that was checked.
pub open spec fn paired(m: SigModel, sig: Seq<u8>, pubkey: Seq<u8>) -> SigModel {
    SigModel { signature: hex_text(sig), pubkey: hex_text(pubkey), ..m }
}

impl SigResult {
    fn fail(detail: &str) -> (r: SigResult)
        ensures
            r@ == failed(Seq::empty(), detail@, Seq::empty()),
    {
        SigResult::fail_with(String::new(), text(detail), Vec::new())
    }

    fn fail_with(sighash_type: String, detail: String, warnings: Vec<String>) -> (r: SigResult)
        ensures
            r@ == failed(sighash_type@, detail@, texts(warnings@)),
    {
        let r = SigResult {
            valid: false,
            sighash: String::new(),
            sighash_type,
            detail,
            warnings,
            assumed: false,
            pubkey: String::new(),
            signature: String::new(),
        };
        assert(r@ =~= failed(sighash_type@, detail@, texts(warnings@)));
        r
    }

    /// The outcome of a check that got as far as a digest, which is shown
    /// big-endian as sighashes conventionally are.
    fn decided(
        valid: bool,
        digest: &[u8; 32],
        sighash_type: String,
        detail: String,
        warnings: Vec<String>,
    ) -> (r: SigResult)
        ensures
            r@ == verdict(valid, digest@, sighash_type@, detail@, texts(warnings@)),
            r@.sighash.len() == 64,
    {
        let display = reversed(digest.as_slice());
        let r = SigResult {
            valid,
            sighash: hex_encode(display.as_slice()),
            sighash_type,
            detail,
            warnings,
            assumed: false,
            pubkey: String::new(),
            signature: String::new(),
        };
        assert(r@ =~= verdict(valid, digest@, sighash_type@, detail@, texts(warnings@)));
        r
    }

    /// Record the pair that was checked. Every result leaves `check_ecdsa` /
    /// `check_schnorr` through here, including the early failures.
    fn with_pair(self, sig: &[u8], pubkey: &[u8]) -> (r: SigResult)
        ensures
            r@ == paired(self@, sig@, pubkey@),
    {
        SigResult {
            valid: self.valid,
            sighash: self.sighash,
            sighash_type: self.sighash_type,
            detail: self.detail,
            warnings: self.warnings,
            assumed: self.assumed,
            pubkey: hex_encode(pubkey),
            signature: hex_encode(sig),
        }
    }
}

/// Bytes back to front.
pub fn reversed(bytes: &[u8]) -> (r: Vec<u8>)
    ensures
        r@ == bytes@.reverse(),
{
    let mut out: Vec<u8> = Vec::new();
    let mut i: usize = bytes.len();
    while i > 0
        invariant
            i <= bytes@.len(),
            out@ =~= bytes@.reverse().take(bytes@.len() - i),
        decreases i,
    {
        i = i - 1;
        out.push(bytes[i]);
    }
    assert(out@ =~= bytes@.reverse());
    out
}

/// What a signature is checked against: the transaction, which of its inputs,
/// and the outputs that its inputs spend.
pub struct SigContext {
    pub tx: Tx,
    pub input_index: usize,
    pub prevouts: Vec<TxOut>,
}

/// A signing context as mathematical values.
#[verifier::ext_equal]
pub struct ContextModel {
    pub raw: Seq<u8>,
    pub index: int,
    pub prevouts: Seq<TxOutModel>,
}

impl ContextModel {
    /// The transaction.
    pub open spec fn tx(self) -> TxModel {
        tx_decoded(self.raw)->Ok_0
    }
}

impl View for SigContext {
    type V = ContextModel;

    open spec fn view(&self) -> ContextModel {
        ContextModel {
            raw: self.tx.raw(),
            index: self.input_index as int,
            prevouts: out_models(self.prevouts@),
        }
    }
}

/// How the sighash for this check should be built.
pub enum SigMode<'a> {
    Legacy { script_code: &'a [u8] },
    WitnessV0 { script_code: &'a [u8] },
    Tapscript { leaf_hash: [u8; 32], codesep_pos: u32, annex: Option<&'a [u8]> },
    TaprootKeyPath { annex: Option<&'a [u8]> },
}

/// A sighash mode as mathematical values.
pub enum ModeModel {
    Legacy { script_code: Seq<u8> },
    WitnessV0 { script_code: Seq<u8> },
    Tapscript { leaf_hash: Seq<u8>, codesep_pos: u32, annex: Option<Seq<u8>> },
    TaprootKeyPath { annex: Option<Seq<u8>> },
}

impl<'a> View for SigMode<'a> {
    type V = ModeModel;

    open spec fn view(&self) -> ModeModel {
        match *self {
            SigMode::Legacy { script_code } => ModeModel::Legacy { script_code: script_code@ },
            SigMode::WitnessV0 { script_code } => ModeModel::WitnessV0 {
                script_code: script_code@,
            },
            SigMode::Tapscript { leaf_hash, codesep_pos, annex } => ModeModel::Tapscript {
                leaf_hash: leaf_hash@,
                codesep_pos,
                annex: opt_bytes(annex),
            },
            SigMode::TaprootKeyPath { annex } => ModeModel::TaprootKeyPath {
                annex: opt_bytes(annex),
            },
        }
    }
}

/// The low five bits of a hash type name what is signed of the outputs.
pub open spec fn hashtype_base_name(b: u8) -> Seq<char> {
    if b % 32 == 1 {
        "SIGHASH_ALL"@
    } else if b % 32 == 2 {
        "SIGHASH_NONE"@
    } else if b % 32 == 3 {
        "SIGHASH_SINGLE"@
    } else {
        "SIGHASH_INVALID"@
    }
}

/// How an ECDSA hash type is shown.
pub open spec fn ecdsa_hashtype(b: u8) -> Seq<char> {
    hashtype_base_name(b) + (if b >= 0x80 {
        "|SIGHASH_ANYONECANPAY (0x"@
    } else {
        " (0x"@
    }) + hex_byte(b) + ")"@
}

fn describe_ecdsa_hashtype(b: u8) -> (r: String)
    ensures
        r@ == ecdsa_hashtype(b),
{
    let base: u8 = b % 32;
    let name = if base == 1 {
        "SIGHASH_ALL"
    } else if base == 2 {
        "SIGHASH_NONE"
    } else if base == 3 {
        "SIGHASH_SINGLE"
    } else {
        "SIGHASH_INVALID"
    };
    let mid = if b >= 0x80 {
        "|SIGHASH_ANYONECANPAY (0x"
    } else {
        " (0x"
    };
    text(name).concat(mid).concat(hex_u8(b).as_str()).concat(")")
}

/// The digest that an ECDSA signature must sign, or why there is none.
pub open spec fn ecdsa_digest(ctx: ContextModel, mode: ModeModel, hash_type: u32) -> Result<
    Seq<u8>,
    Seq<char>,
> {
    match mode {
        ModeModel::Legacy { script_code } => match legacy_sighash_of(
            ctx.raw,
            ctx.index,
            script_code,
            hash_type,
        ) {
            Ok(h) => Ok(h),
            Err(e) => Err("legacy sighash failed: "@ + e),
        },
        ModeModel::WitnessV0 { script_code } => if ctx.index < ctx.prevouts.len() {
            match segwit_sighash_of(
                ctx.raw,
                ctx.index,
                script_code,
                ctx.prevouts[ctx.index].value,
                hash_type,
            ) {
                Ok(h) => Ok(h),
                Err(e) => Err("BIP143 sighash failed: "@ + e),
            }
        } else {
            Err("missing prevout for this input"@)
        },
        _ => Err("taproot sighash requested for an ECDSA check"@),
    }
}

/// Whether there is something for an ECDSA signature to sign: the input exists,
/// and its value is known where that is signed too.
pub open spec fn ecdsa_signable(ctx: ContextModel, mode: ModeModel) -> bool {
    &&& 0 <= ctx.index < ctx.tx().inputs.len()
    &&& mode is Legacy || mode is WitnessV0 && ctx.index < ctx.prevouts.len()
}

/// The warnings about the hash type byte of an ECDSA signature.
pub open spec fn hashtype_warnings(b: u8) -> Seq<Seq<char>> {
    if 1 <= b % 32 <= 3 {
        Seq::empty()
    } else {
        seq!["sighash type byte 0x"@ + hex_byte(b) + " is not ALL/NONE/SINGLE"@]
    }
}

/// `w` with one more warning when `b` holds.
pub open spec fn warn_if(w: Seq<Seq<char>>, b: bool, msg: Seq<char>) -> Seq<Seq<char>> {
    if b {
        w.push(msg)
    } else {
        w
    }
}

/// The signature that an ECDSA stack element carries in front of its hash type
/// byte: strict DER where it parses, read leniently otherwise.
pub open spec fn ecdsa_parsed(sig: Seq<u8>) -> Option<Seq<u8>> {
    if der_signature(sig.drop_last()) is Some {
        der_signature(sig.drop_last())
    } else {
        lax_der_signature(sig.drop_last())
    }
}

/// What the parsers, the sighash and the curve say of an ECDSA check.
pub struct EcdsaFindings {
    /// The signature is strict DER.
    pub strict_der: bool,
    /// The signature could be read at all.
    pub parsed: bool,
    pub high_s: bool,
    /// Why the public key does not parse, if it does not.
    pub key_error: Option<String>,
    /// The digest to be signed, or why there is none.
    pub digest: Result<[u8; 32], String>,
    /// The signature is valid for the key and the digest.
    pub verifies: bool,
}

/// The findings of an ECDSA check as mathematical values.
#[verifier::ext_equal]
pub struct EcdsaModel {
    pub strict_der: bool,
    pub parsed: bool,
    pub high_s: bool,
    pub key_error: Option<Seq<char>>,
    pub digest: Result<Seq<u8>, Seq<char>>,
    pub verifies: bool,
}

impl View for EcdsaFindings {
    type V = EcdsaModel;

    open spec fn view(&self) -> EcdsaModel {
        EcdsaModel {
            strict_der: self.strict_der,
            parsed: self.parsed,
            high_s: self.high_s,
            key_error: opt_text(self.key_error),
            digest: digest_or_message(self.digest),
            verifies: self.verifies,
        }
    }
}

/// What is said of a key that does not parse.
pub open spec fn key_complaint(valid: bool) -> Option<Seq<char>> {
    if valid {
        None
    } else {
        Some("malformed public key"@)
    }
}

/// What is found of an ECDSA check.
pub open spec fn ecdsa_found(
    ctx: ContextModel,
    sig: Seq<u8>,
    pubkey: Seq<u8>,
    mode: ModeModel,
) -> EcdsaModel {
    let compact = ecdsa_parsed(sig);
    let digest = ecdsa_digest(ctx, mode, sig.last() as u32);
    EcdsaModel {
        strict_der: der_signature(sig.drop_last()) is Some,
        parsed: compact is Some,
        high_s: compact is Some && high_s(compact->0),
        key_error: key_complaint(valid_public_key(pubkey)),
        digest,
        verifies: compact is Some && digest is Ok && ecdsa_verifies(
            digest->Ok_0,
            low_s(compact->0),
            pubkey,
        ),
    }
}

/// The outcome of an ECDSA check with these findings. The rules are tried in
/// order, and the first that fails is reported.
pub open spec fn ecdsa_judged(
    sig: Seq<u8>,
    pubkey: Seq<u8>,
    found: EcdsaModel,
    require_strict_der: bool,
    require_low_s: bool,
) -> SigModel {
    if sig.len() == 0 {
        failed(
            Seq::empty(),
            "empty signature (this is a normal way to fail a check)"@,
            Seq::empty(),
        )
    } else {
        let hash_type = ecdsa_hashtype(sig.last());
        let w0 = hashtype_warnings(sig.last());
        let w1 = warn_if(w0, !found.strict_der, "signature is not strict DER; parsed leniently"@);
        let w2 = warn_if(
            w1,
            found.high_s,
            "signature has a high S value (non-standard, BIP62)"@,
        );
        let w3 = warn_if(
            w2,
            pubkey.len() == 65,
            "uncompressed public key (not allowed under segwit)"@,
        );
        if !found.strict_der && require_strict_der {
            failed(hash_type, "signature is not strict DER (SCRIPT_VERIFY_DERSIG)"@, w0)
        } else if !found.parsed {
            failed(hash_type, "could not parse ECDSA signature"@, w1)
        } else if found.high_s && require_low_s {
            failed(hash_type, "signature has high S value (SCRIPT_VERIFY_LOW_S)"@, w1)
        } else if found.key_error is Some {
            failed(hash_type, "invalid public key: "@ + found.key_error->0, w2)
        } else {
            match found.digest {
                Err(e) => failed(hash_type, e, w3),
                Ok(digest) => verdict(
                    found.verifies,
                    digest,
                    hash_type,
                    if found.verifies {
                        "signature is valid for this pubkey and sighash"@
                    } else {
                        "signature does not verify against this pubkey and sighash"@
                    },
                    w3,
                ),
            }
        }
    }
}

/// The outcome of an ECDSA check.
pub open spec fn ecdsa_checked(
    ctx: ContextModel,
    sig: Seq<u8>,
    pubkey: Seq<u8>,
    mode: ModeModel,
    require_strict_der: bool,
    require_low_s: bool,
) -> SigModel {
    paired(
        ecdsa_judged(
            sig,
            pubkey,
            ecdsa_found(ctx, sig, pubkey, mode),
            require_strict_der,
            require_low_s,
        ),
        sig,
        pubkey,
    )
}

/// Append one warning when `b` holds.
fn warn(warnings: &mut Vec<String>, b: bool, msg: &str)
    ensures
        texts(final(warnings)@) == warn_if(texts(old(warnings)@), b, msg@),
{
    if b {
        push_text(warnings, text(msg));
    }
}

/// Turn the findings of an ECDSA check into its outcome.
pub fn judge_ecdsa(
    sig: &[u8],
    pubkey: &[u8],
    found: EcdsaFindings,
    require_strict_der: bool,
    require_low_s: bool,
) -> (r: SigResult)
    ensures
        r@ == ecdsa_judged(sig@, pubkey@, found@, require_strict_der, require_low_s),
        r@.valid ==> r@.sighash.len() == 64,
{
    if sig.len() == 0 {
        return SigResult::fail("empty signature (this is a normal way to fail a check)");
    }
    let mut warnings: Vec<String> = Vec::new();
    assert(texts(warnings@) =~= Seq::empty());
    let hash_type_byte: u8 = sig[sig.len() - 1];
    let hash_type = describe_ecdsa_hashtype(hash_type_byte);

    let base: u8 = hash_type_byte % 32;
    if base < 1 || base > 3 {
        push_text(
            &mut warnings,
            text("sighash type byte 0x").concat(hex_u8(hash_type_byte).as_str()).concat(
                " is not ALL/NONE/SINGLE",
            ),
        );
        assert(texts(warnings@) =~= hashtype_warnings(hash_type_byte));
    }
    if !found.strict_der && require_strict_der {
        return SigResult::fail_with(
            hash_type,
            text("signature is not strict DER (SCRIPT_VERIFY_DERSIG)"),
            warnings,
        );
    }
    warn(&mut warnings, !found.strict_der, "signature is not strict DER; parsed leniently");
    if !found.parsed {
        return SigResult::fail_with(hash_type, text("could not parse ECDSA signature"), warnings);
    }
    if found.high_s && require_low_s {
        return SigResult::fail_with(
            hash_type,
            text("signature has high S value (SCRIPT_VERIFY_LOW_S)"),
            warnings,
        );
    }
    warn(&mut warnings, found.high_s, "signature has a high S value (non-standard, BIP62)");
    match found.key_error {
        Some(e) => {
            return SigResult::fail_with(
                hash_type,
                text("invalid public key: ").concat(e.as_str()),
                warnings,
            );
        },
        None => {},
    }
    warn(
        &mut warnings,
        pubkey.len() == 65,
        "uncompressed public key (not allowed under segwit)",
    );
    match found.digest {
        Err(e) => SigResult::fail_with(hash_type, e, warnings),
        Ok(digest) => {
            let detail = if found.verifies {
                text("signature is valid for this pubkey and sighash")
            } else {
                text("signature does not verify against this pubkey and sighash")
            };
            SigResult::decided(found.verifies, &digest, hash_type, detail, warnings)
        },
    }
}

impl SigContext {
    fn value(&self) -> (r: Result<u64, String>)
        ensures
            match r {
                Ok(v) => self@.index < self@.prevouts.len() && v
                    == self@.prevouts[self@.index].value,
                Err(e) => self@.index >= self@.prevouts.len() && e@
                    == "missing prevout for this input"@,
            },
    {
        if self.input_index < self.prevouts.len() {
            Ok(self.prevouts[self.input_index].value)
        } else {
            Err(text("missing prevout for this input"))
        }
    }

    /// ECDSA check (`OP_CHECKSIG` family, legacy and segwit v0).
    ///
    /// `sig` is the raw stack element: DER signature with the sighash byte
    /// appended.
    pub fn check_ecdsa(
        &self,
        sig: &[u8],
        pubkey: &[u8],
        mode: &SigMode,
        require_strict_der: bool,
        require_low_s: bool,
    ) -> (r: SigResult)
        ensures
            r@ == ecdsa_checked(self@, sig@, pubkey@, mode@, require_strict_der, require_low_s),
            r@.valid ==> r@.sighash.len() == 64,
            sig@.len() > 0 && ecdsa_signable(self@, mode@) ==> ecdsa_digest(
                self@,
                mode@,
                sig@.last() as u32,
            ) is Ok,
    {
        self.check_ecdsa_inner(sig, pubkey, mode, require_strict_der, require_low_s).with_pair(
            sig,
            pubkey,
        )
    }

    fn check_ecdsa_inner(
        &self,
        sig: &[u8],
        pubkey: &[u8],
        mode: &SigMode,
        require_strict_der: bool,
        require_low_s: bool,
    ) -> (r: SigResult)
        ensures
            r@ == ecdsa_judged(
                sig@,
                pubkey@,
                ecdsa_found(self@, sig@, pubkey@, mode@),
                require_strict_der,
                require_low_s,
            ),
            r@.valid ==> r@.sighash.len() == 64,
            sig@.len() > 0 && ecdsa_signable(self@, mode@) ==> ecdsa_digest(
                self@,
                mode@,
                sig@.last() as u32,
            ) is Ok,
    {
        if sig.len() == 0 {
            return SigResult::fail("empty signature (this is a normal way to fail a check)");
        }
        let der = slice_subrange(sig, 0, sig.len() - 1);
        assert(der@ =~= sig@.drop_last());
        let strict = parse_der(der);
        let strict_der = strict.is_some();
        let compact: Option<[u8; 64]> = match strict {
            Some(c) => Some(c),
            None => parse_der_lax(der),
        };
        let digest = self.ecdsa_sighash(mode, sig[sig.len() - 1] as u32);
        // A high S is only non-standard: what is verified is the low-S form,
        // the only one that the curve library accepts.
        let low: Option<([u8; 64], bool)> = match &compact {
            Some(c) => Some(to_low_s(c)),
            None => None,
        };
        let high_s = match &low {
            Some(l) => l.1,
            None => false,
        };
        let verifies = match (&low, &digest) {
            (Some(l), Ok(h)) => verify_ecdsa(h, &l.0, pubkey),
            _ => false,
        };
        let found = EcdsaFindings {
            strict_der,
            parsed: compact.is_some(),
            high_s,
            key_error: check_public_key(pubkey).err(),
            digest,
            verifies,
        };
        assert(found@ =~= ecdsa_found(self@, sig@, pubkey@, mode@));
        judge_ecdsa(sig, pubkey, found, require_strict_der, require_low_s)
    }

    fn ecdsa_sighash(&self, mode: &SigMode, hash_type: u32) -> (r: Result<[u8; 32], String>)
        ensures
            digest_or_message(r) == ecdsa_digest(self@, mode@, hash_type),
            ecdsa_signable(self@, mode@) ==> r is Ok,
    {
        let _parts = self.tx.parts();
        match mode {
            SigMode::Legacy { script_code } => match legacy_sighash(
                self.tx.bytes().as_slice(),
                self.input_index,
                script_code,
                hash_type,
            ) {
                Ok(h) => Ok(h),
                Err(e) => Err(text("legacy sighash failed: ").concat(e.as_str())),
            },
            SigMode::WitnessV0 { script_code } => {
                let value = match self.value() {
                    Ok(v) => v,
                    Err(e) => {
                        return Err(e);
                    },
                };
                match segwit_sighash(
                    self.tx.bytes().as_slice(),
                    self.input_index,
                    script_code,
                    value,
                    hash_type,
                ) {
                    Ok(h) => Ok(h),
                    Err(e) => Err(text("BIP143 sighash failed: ").concat(e.as_str())),
                }
            },
            _ => Err(text("taproot sighash requested for an ECDSA check")),
        }
    }
}

/// The name of a BIP341 signature hash type.
pub open spec fn taproot_hashtype_name(b: u8) -> Seq<char> {
    if b == 0 {
        "Default"@
    } else if b == 1 {
        "All"@
    } else if b == 2 {
        "None"@
    } else if b == 3 {
        "Single"@
    } else if b == 0x81 {
        "AllPlusAnyoneCanPay"@
    } else if b == 0x82 {
        "NonePlusAnyoneCanPay"@
    } else {
        "SinglePlusAnyoneCanPay"@
    }
}

fn name_taproot_hashtype(b: u8) -> (r: String)
    ensures
        r@ == taproot_hashtype_name(b),
{
    text(
        if b == 0 {
            "Default"
        } else if b == 1 {
            "All"
        } else if b == 2 {
            "None"
        } else if b == 3 {
            "Single"
        } else if b == 0x81 {
            "AllPlusAnyoneCanPay"
        } else if b == 0x82 {
            "NonePlusAnyoneCanPay"
        } else {
            "SinglePlusAnyoneCanPay"
        },
    )
}

/// Why bytes cannot be an annex.
pub open spec fn annex_error(annex: Option<Seq<u8>>) -> Option<Seq<char>> {
    match annex {
        Some(a) => if a.len() == 0 {
            Some("invalid annex: Empty"@)
        } else if a[0] != 0x50 {
            Some("invalid annex: IncorrectPrefix("@ + dec(a[0] as int) + ")"@)
        } else {
            None
        },
        None => None,
    }
}

/// The BIP341 digest, or why there is none.
pub open spec fn tap_digest(
    ctx: ContextModel,
    annex: Option<Seq<u8>>,
    leaf: Option<(Seq<u8>, u32)>,
    hash_type: u8,
) -> Result<Seq<u8>, Seq<char>> {
    if annex_error(annex) is Some {
        Err(annex_error(annex)->0)
    } else {
        match taproot_sighash_of(ctx.raw, ctx.index, ctx.prevouts, annex, leaf, hash_type) {
            Ok(h) => Ok(h),
            Err(e) => Err("BIP341 sighash failed: "@ + e),
        }
    }
}

/// The digest that a Schnorr signature must sign, or why there is none.
pub open spec fn schnorr_digest(ctx: ContextModel, mode: ModeModel, hash_type: u8) -> Result<
    Seq<u8>,
    Seq<char>,
> {
    match mode {
        ModeModel::Tapscript { leaf_hash, codesep_pos, annex } => tap_digest(
            ctx,
            annex,
            Some((leaf_hash, codesep_pos)),
            hash_type,
        ),
        ModeModel::TaprootKeyPath { annex } => tap_digest(ctx, annex, None, hash_type),
        _ => Err("non-taproot sighash requested for a Schnorr check"@),
    }
}

/// Whether there is something for a Schnorr signature with this hash type to
/// sign: every input has a prevout, the annex is one, and what is signed of the
/// inputs and outputs exists.
pub open spec fn schnorr_signable(ctx: ContextModel, mode: ModeModel, hash_type: u8) -> bool {
    &&& ctx.prevouts.len() == ctx.tx().inputs.len()
    &&& match mode {
        ModeModel::Tapscript { leaf_hash, codesep_pos, annex } => annex_error(annex) is None,
        ModeModel::TaprootKeyPath { annex } => annex_error(annex) is None,
        _ => false,
    }
    &&& 0 <= ctx.index
    &&& hash_type >= 0x81 ==> ctx.index < ctx.tx().inputs.len()
    &&& hash_type == 0x03 || hash_type == 0x83 ==> ctx.index < ctx.tx().outputs.len()
}

/// The hash type of a Schnorr signature: its 65th byte, where it has one.
pub open spec fn schnorr_hash_type(sig: Seq<u8>) -> u8 {
    if sig.len() == 65 {
        sig[64]
    } else {
        0
    }
}

/// Why a signature or a key has not the form of a Schnorr check.
pub open spec fn schnorr_form_error(sig: Seq<u8>, pubkey: Seq<u8>) -> Option<Seq<char>> {
    if sig.len() == 0 {
        Some("empty signature (this is a normal way to fail a check)"@)
    } else if sig.len() != 64 && sig.len() != 65 {
        Some(
            "invalid Schnorr signature length "@ + dec(sig.len() as int) + " (must be 64 or 65)"@,
        )
    } else if pubkey.len() != 32 {
        Some(
            "invalid x-only public key length "@ + dec(pubkey.len() as int) + " (must be 32)"@,
        )
    } else if sig.len() == 65 && sig[64] == 0 {
        Some("explicit sighash byte 0x00 is invalid; omit it for SIGHASH_DEFAULT"@)
    } else if sig.len() == 65 && !taproot_hash_type(sig[64]) {
        Some("invalid taproot sighash type 0x"@ + hex_byte(sig[64]))
    } else {
        None
    }
}

/// What the sighash and the curve say of a Schnorr check.
pub struct SchnorrFindings {
    /// Why the public key does not parse, if it does not.
    pub key_error: Option<String>,
    /// The digest to be signed, or why there is none.
    pub digest: Result<[u8; 32], String>,
    /// The signature is valid for the key and the digest.
    pub verifies: bool,
}

/// The findings of a Schnorr check as mathematical values.
#[verifier::ext_equal]
pub struct SchnorrModel {
    pub key_error: Option<Seq<char>>,
    pub digest: Result<Seq<u8>, Seq<char>>,
    pub verifies: bool,
}

impl View for SchnorrFindings {
    type V = SchnorrModel;

    open spec fn view(&self) -> SchnorrModel {
        SchnorrModel {
            key_error: opt_text(self.key_error),
            digest: digest_or_message(self.digest),
            verifies: self.verifies,
        }
    }
}

/// What is found of a Schnorr check on a signature and a key of the right form.
pub open spec fn schnorr_found(
    ctx: ContextModel,
    sig: Seq<u8>,
    pubkey: Seq<u8>,
    mode: ModeModel,
) -> SchnorrModel {
    let digest = schnorr_digest(ctx, mode, schnorr_hash_type(sig));
    SchnorrModel {
        key_error: key_complaint(valid_xonly_key(pubkey)),
        digest,
        verifies: digest is Ok && schnorr_verifies(digest->Ok_0, sig.take(64), pubkey),
    }
}

/// The outcome of a Schnorr check with these findings. The rules are tried in
/// order, and the first that fails is reported.
pub open spec fn schnorr_judged(sig: Seq<u8>, pubkey: Seq<u8>, found: SchnorrModel) -> SigModel {
    if schnorr_form_error(sig, pubkey) is Some {
        failed(Seq::empty(), schnorr_form_error(sig, pubkey)->0, Seq::empty())
    } else if found.key_error is Some {
        failed(Seq::empty(), "invalid x-only public key: "@ + found.key_error->0, Seq::empty())
    } else {
        let name = taproot_hashtype_name(schnorr_hash_type(sig));
        match found.digest {
            Err(e) => failed(Seq::empty(), e, Seq::empty()),
            Ok(digest) => verdict(
                found.verifies,
                digest,
                name,
                if found.verifies {
                    "BIP340 signature is valid"@
                } else {
                    "BIP340 signature does not verify"@
                },
                warn_if(Seq::empty(), sig.len() == 65, "explicit sighash type "@ + name),
            ),
        }
    }
}

/// The outcome of a Schnorr check.
pub open spec fn schnorr_checked(
    ctx: ContextModel,
    sig: Seq<u8>,
    pubkey: Seq<u8>,
    mode: ModeModel,
) -> SigModel {
    paired(schnorr_judged(sig, pubkey, schnorr_found(ctx, sig, pubkey, mode)), sig, pubkey)
}

/// Whether a byte is a BIP341 signature hash type.
fn is_taproot_hash_type(b: u8) -> (r: bool)
    ensures
        r == taproot_hash_type(b),
{
    b <= 3 || (0x81 <= b && b <= 0x83)
}

/// Hold a signature and a key to the form of a Schnorr check.
fn check_schnorr_form(sig: &[u8], pubkey: &[u8]) -> (r: Option<String>)
    ensures
        opt_text(r) == schnorr_form_error(sig@, pubkey@),
{
    if sig.len() == 0 {
        return Some(text("empty signature (this is a normal way to fail a check)"));
    }
    if sig.len() != 64 && sig.len() != 65 {
        return Some(
            text("invalid Schnorr signature length ").concat(dec_usize(sig.len()).as_str()).concat(
                " (must be 64 or 65)",
            ),
        );
    }
    if pubkey.len() != 32 {
        return Some(
            text("invalid x-only public key length ").concat(
                dec_usize(pubkey.len()).as_str(),
            ).concat(" (must be 32)"),
        );
    }
    if sig.len() == 65 {
        let b: u8 = sig[64];
        if b == 0 {
            return Some(
                text("explicit sighash byte 0x00 is invalid; omit it for SIGHASH_DEFAULT"),
            );
        }
        if !is_taproot_hash_type(b) {
            return Some(text("invalid taproot sighash type 0x").concat(hex_u8(b).as_str()));
        }
    }
    None
}

/// Turn the findings of a Schnorr check into its outcome.
pub fn judge_schnorr(sig: &[u8], pubkey: &[u8], found: SchnorrFindings) -> (r: SigResult)
    ensures
        r@ == schnorr_judged(sig@, pubkey@, found@),
        r@.valid ==> r@.sighash.len() == 64,
{
    match check_schnorr_form(sig, pubkey) {
        Some(e) => {
            return SigResult::fail(e.as_str());
        },
        None => {},
    }
    match found.key_error {
        Some(e) => {
            return SigResult::fail(
                text("invalid x-only public key: ").concat(e.as_str()).as_str(),
            );
        },
        None => {},
    }
    let mut warnings: Vec<String> = Vec::new();
    assert(texts(warnings@) =~= Seq::empty());
    let explicit = sig.len() == 65;
    let name = name_taproot_hashtype(
        if explicit {
            sig[64]
        } else {
            0
        },
    );
    match found.digest {
        Err(e) => SigResult::fail(e.as_str()),
        Ok(digest) => {
            warn(
                &mut warnings,
                explicit,
                text("explicit sighash type ").concat(name.as_str()).as_str(),
            );
            let detail = if found.verifies {
                text("BIP340 signature is valid")
            } else {
                text("BIP340 signature does not verify")
            };
            SigResult::decided(found.verifies, &digest, name, detail, warnings)
        },
    }
}

impl SigContext {
    /// Schnorr check (`OP_CHECKSIG` in tapscript, and key-path spends).
    ///
    /// `sig` is 64 bytes for implicit SIGHASH_DEFAULT, or 65 with an explicit
    /// sighash type byte.
    pub fn check_schnorr(&self, sig: &[u8], pubkey: &[u8], mode: &SigMode) -> (r: SigResult)
        ensures
            r@ == schnorr_checked(self@, sig@, pubkey@, mode@),
            r@.valid ==> r@.sighash.len() == 64,
            schnorr_form_error(sig@, pubkey@) is None && schnorr_signable(
                self@,
                mode@,
                schnorr_hash_type(sig@),
            ) ==> schnorr_digest(self@, mode@, schnorr_hash_type(sig@)) is Ok,
    {
        self.check_schnorr_inner(sig, pubkey, mode).with_pair(sig, pubkey)
    }

    fn check_schnorr_inner(&self, sig: &[u8], pubkey: &[u8], mode: &SigMode) -> (r: SigResult)
        ensures
            r@ == schnorr_judged(sig@, pubkey@, schnorr_found(self@, sig@, pubkey@, mode@)),
            r@.valid ==> r@.sighash.len() == 64,
            schnorr_form_error(sig@, pubkey@) is None && schnorr_signable(
                self@,
                mode@,
                schnorr_hash_type(sig@),
            ) ==> schnorr_digest(self@, mode@, schnorr_hash_type(sig@)) is Ok,
    {
        match check_schnorr_form(sig, pubkey) {
            Some(e) => {
                return SigResult::fail(e.as_str());
            },
            None => {},
        }
        let hash_type: u8 = if sig.len() == 65 {
            sig[64]
        } else {
            0
        };
        let sig_bytes = slice_subrange(sig, 0, 64);
        assert(sig_bytes@ =~= sig@.take(64));
        let digest = self.taproot_sighash(mode, hash_type);
        let verifies = match &digest {
            Ok(h) => verify_schnorr(h, sig_bytes, pubkey),
            Err(_) => false,
        };
        let found = SchnorrFindings {
            key_error: check_xonly_key(pubkey).err(),
            digest,
            verifies,
        };
        assert(found@ =~= schnorr_found(self@, sig@, pubkey@, mode@));
        judge_schnorr(sig, pubkey, found)
    }

    fn taproot_sighash(&self, mode: &SigMode, hash_type: u8) -> (r: Result<[u8; 32], String>)
        requires
            taproot_hash_type(hash_type),
        ensures
            digest_or_message(r) == schnorr_digest(self@, mode@, hash_type),
            schnorr_signable(self@, mode@, hash_type) ==> r is Ok,
    {
        let _parts = self.tx.parts();
        let leaf: Option<([u8; 32], u32)>;
        let annex: Option<&[u8]>;
        match mode {
            SigMode::Tapscript { leaf_hash, codesep_pos, annex: a } => {
                leaf = Some((*leaf_hash, *codesep_pos));
                annex = *a;
            },
            SigMode::TaprootKeyPath { annex: a } => {
                leaf = None;
                annex = *a;
            },
            _ => {
                return Err(text("non-taproot sighash requested for a Schnorr check"));
            },
        }
        // BIP341 commits to the annex when one is present; omitting it would
        // silently produce the wrong sighash.
        match annex {
            Some(a) => {
                if a.len() == 0 {
                    return Err(text("invalid annex: Empty"));
                }
                if a[0] != 0x50 {
                    return Err(
                        text("invalid annex: IncorrectPrefix(").concat(
                            dec_u64(a[0] as u64).as_str(),
                        ).concat(")"),
                    );
                }
            },
            None => {},
        }
        match crate::tx::taproot_sighash(
            self.tx.bytes().as_slice(),
            self.input_index,
            self.prevouts.as_slice(),
            annex,
            leaf,
            hash_type,
        ) {
            Ok(h) => Ok(h),
            Err(e) => Err(text("BIP341 sighash failed: ").concat(e.as_str())),
        }
    }
}

/// A check that passes has held the signature, in its low-S form, against a
/// digest of the loaded transaction, shows that digest, and was not assumed.
pub proof fn law_valid_means_verified(
    ctx: ContextModel,
    sig: Seq<u8>,
    pubkey: Seq<u8>,
    mode: ModeModel,
    require_strict_der: bool,
    require_low_s: bool,
)
    ensures
        ({
            let r = ecdsa_checked(ctx, sig, pubkey, mode, require_strict_der, require_low_s);
            let digest = ecdsa_digest(ctx, mode, sig.last() as u32);
            r.valid ==> {
                &&& digest is Ok
                &&& ecdsa_parsed(sig) is Some
                &&& ecdsa_verifies(digest->Ok_0, low_s(ecdsa_parsed(sig)->0), pubkey)
                &&& r.sighash == hex_text(digest->Ok_0.reverse())
                &&& !r.assumed
            }
        }),
        ({
            let r = schnorr_checked(ctx, sig, pubkey, mode);
            let digest = schnorr_digest(ctx, mode, schnorr_hash_type(sig));
            r.valid ==> {
                &&& digest is Ok
                &&& schnorr_verifies(digest->Ok_0, sig.take(64), pubkey)
                &&& r.sighash == hex_text(digest->Ok_0.reverse())
                &&& !r.assumed
            }
        }),
{
}

proof fn lemma_shown_digests_differ(a: Seq<u8>, b: Seq<u8>)
    requires
        a != b,
    ensures
        hex_text(a.reverse()) != hex_text(b.reverse()),
{
    law_hex_roundtrip(a.reverse());
    law_hex_roundtrip(b.reverse());
    if hex_text(a.reverse()) == hex_text(b.reverse()) {
        assert(a.reverse() == b.reverse());
        assert(a =~= a.reverse().reverse());
        assert(b =~= b.reverse().reverse());
    }
}

/// A signature is bound to the digest of the transaction it was checked in.
/// Where it passes in one context, it passes in another exactly if the curve
/// accepts it for the digest of that one; if the digests differ, so do the
/// sighashes shown, and if they are the same, so are the outcomes. That a
/// changed transaction has another digest, which the curve refuses, rests on
/// the hash and the curve and is not claimed.
pub proof fn law_signatures_are_bound_to_their_digest(
    ctx: ContextModel,
    other: ContextModel,
    sig: Seq<u8>,
    pubkey: Seq<u8>,
    mode: ModeModel,
    require_strict_der: bool,
    require_low_s: bool,
)
    ensures
        ({
            let r = ecdsa_checked(ctx, sig, pubkey, mode, require_strict_der, require_low_s);
            let r2 = ecdsa_checked(other, sig, pubkey, mode, require_strict_der, require_low_s);
            let d = ecdsa_digest(ctx, mode, sig.last() as u32);
            let d2 = ecdsa_digest(other, mode, sig.last() as u32);
            r.valid ==> {
                &&& r2.valid == (d2 is Ok && ecdsa_verifies(
                    d2->Ok_0,
                    low_s(ecdsa_parsed(sig)->0),
                    pubkey,
                ))
                &&& d2 is Ok && d2 != d ==> r2.sighash != r.sighash
                &&& d2 is Err ==> !r2.valid && r2.sighash.len() == 0
                &&& d2 == d ==> r2 == r
            }
        }),
        ({
            let r = schnorr_checked(ctx, sig, pubkey, mode);
            let r2 = schnorr_checked(other, sig, pubkey, mode);
            let d = schnorr_digest(ctx, mode, schnorr_hash_type(sig));
            let d2 = schnorr_digest(other, mode, schnorr_hash_type(sig));
            r.valid ==> {
                &&& r2.valid == (d2 is Ok && schnorr_verifies(d2->Ok_0, sig.take(64), pubkey))
                &&& d2 is Ok && d2 != d ==> r2.sighash != r.sighash
                &&& d2 is Err ==> !r2.valid && r2.sighash.len() == 0
                &&& d2 == d ==> r2 == r
            }
        }),
{
    let d = ecdsa_digest(ctx, mode, sig.last() as u32);
    let d2 = ecdsa_digest(other, mode, sig.last() as u32);
    if d is Ok && d2 is Ok && d != d2 {
        lemma_shown_digests_differ(d->Ok_0, d2->Ok_0);
    }
    let e = schnorr_digest(ctx, mode, schnorr_hash_type(sig));
    let e2 = schnorr_digest(other, mode, schnorr_hash_type(sig));
    if e is Ok && e2 is Ok && e != e2 {
        lemma_shown_digests_differ(e->Ok_0, e2->Ok_0);
    }
}

/// Every outcome, whatever it says, names the exact signature and key that the
/// check ran against.
pub proof fn law_outcomes_carry_their_pair(
    ctx: ContextModel,
    sig: Seq<u8>,
    pubkey: Seq<u8>,
    mode: ModeModel,
    require_strict_der: bool,
    require_low_s: bool,
)
    ensures
        ({
            let r = ecdsa_checked(ctx, sig, pubkey, mode, require_strict_der, require_low_s);
            r.signature == hex_text(sig) && r.pubkey == hex_text(pubkey)
        }),
        ({
            let r = schnorr_checked(ctx, sig, pubkey, mode);
            r.signature == hex_text(sig) && r.pubkey == hex_text(pubkey)
        }),
{
}

/// A policy flag can only make a check fail: what passes with it passes without.
pub proof fn law_flags_only_restrict(
    ctx: ContextModel,
    sig: Seq<u8>,
    pubkey: Seq<u8>,
    mode: ModeModel,
    require_strict_der: bool,
    require_low_s: bool,
)
    ensures
        ecdsa_checked(ctx, sig, pubkey, mode, require_strict_der, require_low_s).valid
            ==> ecdsa_checked(ctx, sig, pubkey, mode, false, false).valid,
{
}

/// A low S is policy only: where it is not required, a signature and the one
/// with the same `r`, the group order less `s`, and the same hash type are
/// equally valid.
pub proof fn law_high_s_is_only_non_standard(
    ctx: ContextModel,
    sig: Seq<u8>,
    mirrored: Seq<u8>,
    pubkey: Seq<u8>,
    mode: ModeModel,
    require_strict_der: bool,
)
    requires
        sig.len() > 0,
        mirrored.len() > 0,
        sig.last() == mirrored.last(),
        der_signature(sig.drop_last()) is Some == der_signature(mirrored.drop_last()) is Some,
        ecdsa_parsed(sig) is Some,
        ecdsa_parsed(mirrored) is Some,
        compact_form(ecdsa_parsed(sig)->0),
        compact_form(ecdsa_parsed(mirrored)->0),
        ecdsa_parsed(sig)->0.subrange(0, 32) == ecdsa_parsed(mirrored)->0.subrange(0, 32),
        s_value(ecdsa_parsed(sig)->0) + s_value(ecdsa_parsed(mirrored)->0) == group_order(),
    ensures
        ecdsa_checked(ctx, sig, pubkey, mode, require_strict_der, false).valid == ecdsa_checked(
            ctx,
            mirrored,
            pubkey,
            mode,
            require_strict_der,
            false,
        ).valid,
{
    lemma_mirrored_signatures_normalize_alike(ecdsa_parsed(sig)->0, ecdsa_parsed(mirrored)->0);
}

/// The length of the opcode that a script starts with, push data included, or
/// `None` if its push data is truncated.
pub open spec fn first_op_len(s: Seq<u8>) -> Option<nat> {
    if s.len() == 0 || ins_at(s, 0).error is Some {
        None
    } else {
        Some(ins_at(s, 0).len as nat)
    }
}

/// A script without the opcodes that are exactly `pattern`. A truncated tail is
/// kept as it is.
pub open spec fn without_pattern(s: Seq<u8>, pattern: Seq<u8>) -> Seq<u8>
    decreases s.len(),
{
    if s.len() == 0 {
        s
    } else if pattern.len() > 0 && pattern.is_prefix_of(s) {
        without_pattern(s.skip(pattern.len() as int), pattern)
    } else {
        match first_op_len(s) {
            None => s,
            Some(n) => if 0 < n <= s.len() {
                s.take(n as int) + without_pattern(s.skip(n as int), pattern)
            } else {
                s
            },
        }
    }
}

/// A script without the pushes of a signature. Only a signature of one to
/// `2^32 - 1` bytes can be pushed; nothing is removed for others.
pub open spec fn without_signature(s: Seq<u8>, sig: Seq<u8>) -> Seq<u8> {
    if 0 < sig.len() < 0x1_0000_0000 {
        without_pattern(s, push_of(sig))
    } else {
        s
    }
}

/// Legacy `FindAndDelete`: `OP_CHECKSIG` strips any push of the signature from
/// the scriptCode before hashing. Only reachable in pre-segwit scripts.
///
/// Core only matches at opcode boundaries: a signature embedded inside some
/// larger push's data stays put.
pub fn find_and_delete(script: &[u8], sig: &[u8]) -> (r: Vec<u8>)
    ensures
        r@ == without_signature(script@, sig@),
{
    let mut out: Vec<u8> = Vec::new();
    if sig.len() == 0 || sig.len() as u64 >= 0x1_0000_0000 {
        out.extend_from_slice(script);
        assert(out@ =~= script@);
        return out;
    }
    let pat = push_data(sig);
    let ghost pattern = push_of(sig@);
    let mut i: usize = 0;
    assert(script@.skip(0) =~= script@);
    assert(out@ + without_pattern(script@.skip(0), pattern) =~= without_pattern(script@, pattern));
    while i < script.len()
        invariant
            i <= script@.len(),
            0 < sig@.len() < 0x1_0000_0000,
            pattern == push_of(sig@),
            pat@ == pattern,
            pattern.len() > 0,
            out@ + without_pattern(script@.skip(i as int), pattern) == without_pattern(
                script@,
                pattern,
            ),
        decreases script@.len() - i,
    {
        let ghost s = script@.skip(i as int);
        if starts_with_at(script, i, pat.as_slice()) {
            assert(s.skip(pattern.len() as int) =~= script@.skip(i + pattern.len()));
            i = i + pat.len();
        } else {
            // Copy one opcode, push data included.
            match next_opcode(script, i) {
                None => {
                    // Truncated push at the tail: Core copies the remainder verbatim.
                    out.extend_from_slice(slice_subrange(script, i, script.len()));
                    assert(script@.subrange(i as int, script@.len() as int) =~= s);
                    assert(out@ =~= without_pattern(script@, pattern));
                    return out;
                },
                Some(next) => {
                    let ghost before = out@;
                    out.extend_from_slice(slice_subrange(script, i, next));
                    proof {
                        lemma_ins_fits_suffix(script@, i as int);
                        assert(s.take(next - i) =~= script@.subrange(i as int, next as int));
                        assert(s.skip(next - i) =~= script@.skip(next as int));
                        assert(out@ =~= before + s.take(next - i));
                        assert(out@ + without_pattern(script@.skip(next as int), pattern)
                            =~= before + without_pattern(s, pattern));
                    }
                    i = next;
                },
            }
        }
    }
    assert(script@.skip(i as int) =~= Seq::empty());
    assert(out@ =~= without_pattern(script@, pattern));
    out
}

/// Whether `pat` stands in `hay` from byte `i` on.
fn starts_with_at(hay: &[u8], i: usize, pat: &[u8]) -> (r: bool)
    requires
        i <= hay@.len(),
    ensures
        r == pat@.is_prefix_of(hay@.skip(i as int)),
{
    if hay.len() - i < pat.len() {
        return false;
    }
    let ghost s = hay@.skip(i as int);
    let mut k: usize = 0;
    while k < pat.len()
        invariant
            k <= pat@.len(),
            i + pat@.len() <= hay@.len() <= usize::MAX,
            s == hay@.skip(i as int),
            forall|j: int| 0 <= j < k ==> #[trigger] pat@[j] == s[j],
        decreases pat@.len() - k,
    {
        assert(s[k as int] == hay@[i + k]);
        if pat[k] != hay[i + k] {
            assert(s.subrange(0, pat@.len() as int)[k as int] != pat@[k as int]);
            return false;
        }
        k = k + 1;
    }
    assert(pat@ =~= s.subrange(0, pat@.len() as int));
    true
}

/// What stands at byte `i` of a script is what its suffix from there starts
/// with.
proof fn lemma_ins_fits_suffix(s: Seq<u8>, i: int)
    requires
        0 <= i < s.len(),
    ensures
        ins_at(s.skip(i), 0).error is Some == ins_at(s, i).error is Some,
        ins_at(s.skip(i), 0).len == ins_at(s, i).len,
        ins_at(s, i).len >= 1,
        i + ins_at(s, i).len <= s.len(),
{
    let t = s.skip(i);
    let op = s[i];
    assert(t[0] == op);
    let h = push_header_len(op);
    if i + h <= s.len() {
        assert(t.subrange(1, h) =~= s.subrange(i + 1, i + h));
    }
}

/// The offset just past the opcode at byte `i`, or `None` if there is none or
/// its push data is truncated.
pub open spec fn op_end(hay: Seq<u8>, i: int) -> Option<int> {
    if i >= hay.len() {
        None
    } else {
        match first_op_len(hay.skip(i)) {
            Some(n) => Some(i + n),
            None => None,
        }
    }
}

/// Offset just past the opcode at `i`, or `None` if its push data is truncated.
pub fn next_opcode(hay: &[u8], i: usize) -> (r: Option<usize>)
    ensures
        match r {
            Some(n) => op_end(hay@, i as int) == Some(n as int),
            None => op_end(hay@, i as int) is None,
        },
        r matches Some(n) ==> i < n <= hay@.len(),
{
    if i >= hay.len() {
        return None;
    }
    proof {
        lemma_ins_fits_suffix(hay@, i as int);
    }
    let op: u8 = hay[i];
    let header: usize = if op == 0x4c {
        2
    } else if op == 0x4d {
        3
    } else if op == 0x4e {
        5
    } else {
        1
    };
    let room: usize = hay.len() - i;
    if room < header {
        return None;
    }
    let len: usize = if op <= 0x4b {
        op as usize
    } else if header == 1 {
        0
    } else {
        le_usize(slice_subrange(hay, i + 1, i + header))
    };
    if room - header < len {
        return None;
    }
    Some(i + header + len)
}

/// Finding the next opcode agrees with decoding: from where an instruction
/// starts it leads to where the instruction ends, and nowhere if it is
/// truncated; and from any byte it leads forward within the script.
pub proof fn law_next_opcode_follows_the_instructions(hay: Seq<u8>, i: int)
    requires
        0 <= i,
    ensures
        forall|k: int|
            0 <= k < instructions(hay).len() ==> op_end(
                hay,
                (#[trigger] instructions(hay)[k]).offset,
            ) == if instructions(hay)[k].error is None {
                Some(instructions(hay)[k].offset + instructions(hay)[k].len)
            } else {
                None
            },
        i >= hay.len() ==> op_end(hay, i) is None,
        op_end(hay, i) matches Some(j) ==> i < j <= hay.len(),
{
    let ins = instructions(hay);
    assert forall|k: int| 0 <= k < ins.len() implies op_end(hay, (#[trigger] ins[k]).offset)
        == if ins[k].error is None {
        Some(ins[k].offset + ins[k].len)
    } else {
        None
    } by {
        lemma_instruction_at(hay, k);
        lemma_ins_fits_suffix(hay, ins[k].offset);
    }
    if i < hay.len() {
        lemma_ins_fits_suffix(hay, i);
    }
}

proof fn lemma_first_op_len_prefix(s: Seq<u8>, t: Seq<u8>, n: nat)
    requires
        first_op_len(s) == Some(n),
        s.take(n as int).is_prefix_of(t),
    ensures
        0 < n <= s.len(),
        first_op_len(t) == Some(n),
{
    lemma_ins_fits_suffix(s, 0);
    assert(s.skip(0) =~= s);
    let p = s.take(n as int);
    assert(p == t.subrange(0, n as int));
    assert(p[0] == s[0] && p[0] == t[0]);
    let h = push_header_len(s[0]);
    if 0x4c <= s[0] <= 0x4e {
        assert(t.subrange(1, h) =~= s.subrange(1, h)) by {
            assert forall|k: int| 1 <= k < h implies t[k] == s[k] by {
                assert(p[k] == s[k] && p[k] == t[k]);
            }
        }
    }
}

/// Deleting a signature's pushes leaves none of them behind: doing it again
/// changes nothing.
pub proof fn law_find_and_delete_is_idempotent(s: Seq<u8>, sig: Seq<u8>)
    ensures
        without_signature(without_signature(s, sig), sig) == without_signature(s, sig),
{
    if 0 < sig.len() < 0x1_0000_0000 {
        lemma_without_pattern_again(s, sig);
    }
}

proof fn lemma_without_pattern_again(s: Seq<u8>, sig: Seq<u8>)
    requires
        0 < sig.len() < 0x1_0000_0000,
    ensures
        ({
            let p = push_of(sig);
            let w = without_pattern(s, p);
            without_pattern(w, p) == w
        }),
    decreases s.len(),
{
    let p = push_of(sig);
    if s.len() > 0 {
        if p.is_prefix_of(s) {
            lemma_without_pattern_again(s.skip(p.len() as int), sig);
        } else if first_op_len(s) is Some {
            let n = first_op_len(s)->0;
            lemma_ins_fits_suffix(s, 0);
            assert(s.skip(0) =~= s);
            let rest = without_pattern(s.skip(n as int), p);
            lemma_without_pattern_again(s.skip(n as int), sig);
            let w = s.take(n as int) + rest;
            assert(s.take(n as int).is_prefix_of(w)) by {
                assert(w.subrange(0, n as int) =~= s.take(n as int));
            }
            lemma_first_op_len_prefix(s, w, n);
            if p.is_prefix_of(w) {
                lemma_push_is_one_op(sig);
                assert(p.take(p.len() as int) =~= p);
                lemma_first_op_len_prefix(p, w, p.len());
                assert(p =~= w.subrange(0, n as int));
                assert(p =~= s.subrange(0, n as int));
                assert(false);
            }
            assert(w.take(n as int) =~= s.take(n as int));
            assert(w.skip(n as int) =~= rest);
        }
    }
}

proof fn lemma_push_is_one_op(sig: Seq<u8>)
    requires
        0 < sig.len() < 0x1_0000_0000,
    ensures
        first_op_len(push_of(sig)) == Some(push_of(sig).len()),
{
    law_push_decodes_to_its_data(sig);
    let p = push_of(sig);
    assert(instructions(p)[0] == ins_at(p, 0));
}

/// A signature is only found at opcode boundaries: an opcode that is not itself
/// the push of the signature stays, whatever its data holds.
pub proof fn law_only_whole_pushes_are_deleted(op: Seq<u8>, rest: Seq<u8>, sig: Seq<u8>)
    requires
        first_op_len(op) == Some(op.len()),
        0 < sig.len() < 0x1_0000_0000,
    ensures
        op != push_of(sig) ==> without_signature(op + rest, sig) == op + without_signature(
            rest,
            sig,
        ),
        op == push_of(sig) ==> without_signature(op + rest, sig) == without_signature(rest, sig),
{
    let p = push_of(sig);
    let s = op + rest;
    assert(op.is_prefix_of(s)) by {
        assert(s.subrange(0, op.len() as int) =~= op);
    }
    assert(op.take(op.len() as int) =~= op);
    lemma_first_op_len_prefix(op, s, op.len());
    assert(s.skip(op.len() as int) =~= rest);
    assert(s.take(op.len() as int) =~= op);
    if p.is_prefix_of(s) {
        lemma_push_is_one_op(sig);
        assert(p.take(p.len() as int) =~= p);
        lemma_first_op_len_prefix(p, s, p.len());
        assert(p =~= s.subrange(0, op.len() as int));
        assert(p =~= op);
    }
}

} // verus!
