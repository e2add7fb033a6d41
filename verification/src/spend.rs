//! Spend-type resolution: turn (scriptSig, witness, scriptPubKey) into the
//! ordered list of scripts the interpreter should walk, the way Bitcoin Core's
//! VerifyScript decides what to execute.

use bitcoin::Script;
use crate::assembly::{
    copy_text, copy_texts, decode_error, decode_script, ins_models, instructions, opt_text,
    push_text, texts, Ins, InsModel,
};
use crate::crypto::{
    check_xonly_key, commitment_holds, control_error, control_leaf_version, decode_control,
    sha256_hash, sha256_of, tap_leaf, tap_leaf_hash, valid_xonly_key, verify_commitment, Control,
};
use crate::hexcodec::{hex_encode, hex_parsed, law_hex_roundtrip};
use crate::sig::key_complaint;
use crate::text::{dec, dec_u64, dec_usize, hex_byte, hex_text, hex_u8, text};
use crate::tx::byte_strings;
use vstd::prelude::*;
use vstd::slice::{slice_subrange, slice_to_vec};
use vstd::string::StringExecFns;

verus! {

#[derive(Clone, Copy, PartialEq, Eq, Debug, Structural)]
pub enum SigVersion {
    Legacy,
    WitnessV0,
    Tapscript,
    TaprootKeyPath,
}

#[derive(Debug)]
pub enum EnterAction {
    /// Continue with the stack as-is.
    Keep,
    /// P2SH: the top element is the serialized redeem script; drop it.
    PopRedeem,
    /// Segwit: execution restarts from the witness stack.
    ResetStack(Vec<String>),
}

/// An enter action as mathematical values.
pub enum EnterModel {
    Keep,
    PopRedeem,
    ResetStack(Seq<Seq<char>>),
}

impl View for EnterAction {
    type V = EnterModel;

    open spec fn view(&self) -> EnterModel {
        match *self {
            EnterAction::Keep => EnterModel::Keep,
            EnterAction::PopRedeem => EnterModel::PopRedeem,
            EnterAction::ResetStack(items) => EnterModel::ResetStack(texts(items@)),
        }
    }
}

#[derive(Debug)]
pub struct Frame {
    pub label: String,
    pub script_hex: String,
    pub sigversion: SigVersion,
    pub enter: EnterAction,
    /// Set for tapscript frames; needed for the BIP341 sighash.
    pub leaf_hash: Option<String>,
    /// A key-path spend has no script — it is a single Schnorr check.
    pub key_path: bool,
}

/// A frame as mathematical values.
#[verifier::ext_equal]
pub struct FrameModel {
    pub label: Seq<char>,
    pub script_hex: Seq<char>,
    pub sigversion: SigVersion,
    pub enter: EnterModel,
    pub leaf_hash: Option<Seq<char>>,
    pub key_path: bool,
}

impl View for Frame {
    type V = FrameModel;

    open spec fn view(&self) -> FrameModel {
        FrameModel {
            label: self.label@,
            script_hex: self.script_hex@,
            sigversion: self.sigversion,
            enter: self.enter@,
            leaf_hash: opt_text(self.leaf_hash),
            key_path: self.key_path,
        }
    }
}

/// The models of a list of frames.
pub open spec fn frame_models(frames: Seq<Frame>) -> Seq<FrameModel> {
    frames.map_values(|f: Frame| f@)
}

#[derive(Debug)]
pub struct SpendInfo {
    /// Human-readable spend type, e.g. "P2SH-P2WSH" or "P2TR (script path)".
    pub kind: String,
    pub frames: Vec<Frame>,
    pub initial_stack: Vec<String>,
    pub notes: Vec<String>,
    pub errors: Vec<String>,
    /// x-only output key for taproot spends, hex.
    pub output_key: Option<String>,
    pub annex: Option<String>,
}

/// A resolved spend as mathematical values.
#[verifier::ext_equal]
pub struct SpendModel {
    pub kind: Seq<char>,
    pub frames: Seq<FrameModel>,
    pub initial_stack: Seq<Seq<char>>,
    pub notes: Seq<Seq<char>>,
    pub errors: Seq<Seq<char>>,
    pub output_key: Option<Seq<char>>,
    pub annex: Option<Seq<char>>,
}

impl View for SpendInfo {
    type V = SpendModel;

    open spec fn view(&self) -> SpendModel {
        SpendModel {
            kind: self.kind@,
            frames: frame_models(self.frames@),
            initial_stack: texts(self.initial_stack@),
            notes: texts(self.notes@),
            errors: texts(self.errors@),
            output_key: opt_text(self.output_key),
            annex: opt_text(self.annex),
        }
    }
}

impl Clone for EnterAction {
    fn clone(&self) -> (r: EnterAction)
        ensures
            r@ == self@,
    {
        match self {
            EnterAction::Keep => EnterAction::Keep,
            EnterAction::PopRedeem => EnterAction::PopRedeem,
            EnterAction::ResetStack(items) => EnterAction::ResetStack(copy_texts(items)),
        }
    }
}

impl Clone for Frame {
    fn clone(&self) -> (r: Frame)
        ensures
            r@ == self@,
    {
        Frame {
            label: self.label.clone(),
            script_hex: self.script_hex.clone(),
            sigversion: self.sigversion,
            enter: self.enter.clone(),
            leaf_hash: copy_text(&self.leaf_hash),
            key_path: self.key_path,
        }
    }
}

/// Copy a list of frames.
pub(crate) fn copy_frames(v: &Vec<Frame>) -> (r: Vec<Frame>)
    ensures
        frame_models(r@) == frame_models(v@),
{
    let mut out: Vec<Frame> = Vec::new();
    let mut i: usize = 0;
    while i < v.len()
        invariant
            i <= v@.len(),
            frame_models(out@) =~= frame_models(v@).take(i as int),
        decreases v@.len() - i,
    {
        push_frame(&mut out, v[i].clone());
        i = i + 1;
    }
    assert(frame_models(out@) =~= frame_models(v@));
    out
}

impl Clone for SpendInfo {
    fn clone(&self) -> (r: SpendInfo)
        ensures
            r@ == self@,
    {
        SpendInfo {
            kind: self.kind.clone(),
            frames: copy_frames(&self.frames),
            initial_stack: copy_texts(&self.initial_stack),
            notes: copy_texts(&self.notes),
            errors: copy_texts(&self.errors),
            output_key: copy_text(&self.output_key),
            annex: copy_text(&self.annex),
        }
    }
}

/// Nothing known of a spend yet.
pub open spec fn unresolved() -> SpendModel {
    SpendModel {
        kind: "unknown"@,
        frames: Seq::empty(),
        initial_stack: Seq::empty(),
        notes: Seq::empty(),
        errors: Seq::empty(),
        output_key: None,
        annex: None,
    }
}

/// The hexadecimal text of each item.
pub open spec fn hex_texts(items: Seq<Seq<u8>>) -> Seq<Seq<char>> {
    items.map_values(|b: Seq<u8>| hex_text(b))
}

pub(crate) fn hexv(items: &[Vec<u8>]) -> (r: Vec<String>)
    ensures
        texts(r@) == hex_texts(byte_strings(items@)),
{
    let mut out: Vec<String> = Vec::new();
    let mut i: usize = 0;
    while i < items.len()
        invariant
            i <= items@.len(),
            texts(out@) =~= hex_texts(byte_strings(items@)).take(i as int),
        decreases items@.len() - i,
    {
        push_text(&mut out, hex_encode(items[i].as_slice()));
        i = i + 1;
    }
    assert(texts(out@) =~= hex_texts(byte_strings(items@)));
    out
}

/// Append one frame.
fn push_frame(frames: &mut Vec<Frame>, f: Frame)
    ensures
        frame_models(final(frames)@) == frame_models(old(frames)@).push(f@),
{
    frames.push(f);
    assert(frame_models(frames@) =~= frame_models(old(frames)@).push(f@));
}

/// A frame that runs a script.
pub open spec fn script_frame(
    label: Seq<char>,
    script: Seq<u8>,
    sigversion: SigVersion,
    enter: EnterModel,
) -> FrameModel {
    FrameModel {
        label,
        script_hex: hex_text(script),
        sigversion,
        enter,
        leaf_hash: None,
        key_path: false,
    }
}

pub(crate) fn new_frame(label: &str, script: &[u8], sigversion: SigVersion, enter: EnterAction) -> (r:
    Frame)
    ensures
        r@ == script_frame(label@, script@, sigversion, enter@),
{
    Frame {
        label: text(label),
        script_hex: hex_encode(script),
        sigversion,
        enter,
        leaf_hash: None,
        key_path: false,
    }
}

/// A pay-to-script-hash output script.
pub open spec fn p2sh_script(s: Seq<u8>) -> bool {
    s.len() == 23 && s[0] == 0xa9 && s[1] == 0x14 && s[22] == 0x87
}

/// A pay-to-public-key-hash output script.
pub open spec fn p2pkh_script(s: Seq<u8>) -> bool {
    s.len() == 25 && s[0] == 0x76 && s[1] == 0xa9 && s[2] == 0x14 && s[23] == 0x88 && s[24] == 0xac
}

/// A pay-to-public-key output script, uncompressed or compressed.
pub open spec fn p2pk_script(s: Seq<u8>) -> bool {
    ||| s.len() == 67 && s[0] == 65 && s[66] == 0xac
    ||| s.len() == 35 && s[0] == 33 && s[34] == 0xac
}

/// A witness program: a version opcode, and one push of 2 to 40 bytes.
pub open spec fn witness_script(s: Seq<u8>) -> bool {
    &&& 4 <= s.len() <= 42
    &&& s[0] == 0 || 0x51 <= s[0] <= 0x60
    &&& s[1] == s.len() - 2
}

/// The version of a witness program.
pub open spec fn witness_version(s: Seq<u8>) -> int {
    if s[0] == 0 {
        0
    } else {
        s[0] - 0x50
    }
}

fn is_p2sh(s: &[u8]) -> (r: bool)
    ensures
        r == p2sh_script(s@),
{
    s.len() == 23 && s[0] == 0xa9 && s[1] == 0x14 && s[22] == 0x87
}

fn is_p2pkh(s: &[u8]) -> (r: bool)
    ensures
        r == p2pkh_script(s@),
{
    s.len() == 25 && s[0] == 0x76 && s[1] == 0xa9 && s[2] == 0x14 && s[23] == 0x88 && s[24] == 0xac
}

fn is_p2pk(s: &[u8]) -> (r: bool)
    ensures
        r == p2pk_script(s@),
{
    (s.len() == 67 && s[0] == 65 && s[66] == 0xac) || (s.len() == 35 && s[0] == 33 && s[34] == 0xac)
}

fn is_witness_program(s: &[u8]) -> (r: bool)
    ensures
        r == witness_script(s@),
{
    4 <= s.len() && s.len() <= 42 && (s[0] == 0 || (0x51 <= s[0] && s[0] <= 0x60)) && s[1] as usize
        == s.len() - 2
}

/// The number of pushes in a row from instruction `i` on.
pub open spec fn run_of_pushes(ins: Seq<InsModel>, i: int) -> nat
    decreases ins.len() - i,
{
    if 0 <= i < ins.len() && ins[i].data is Some {
        1 + run_of_pushes(ins, i + 1)
    } else {
        0
    }
}

/// An opcode that pushes a number from 1 to 16.
pub open spec fn pushes_number(op: u8) -> bool {
    0x51 <= op <= 0x60
}

/// A bare multisig output script: a number, keys, their number, and
/// `OP_CHECKMULTISIG`. Any opcode is taken for the number of keys; one that
/// pushes a number has to push the right one.
pub open spec fn multisig_script(s: Seq<u8>) -> bool {
    let ins = instructions(s);
    let k = run_of_pushes(ins, 1) as int;
    &&& ins.len() == k + 3
    &&& decode_error(s) is None
    &&& pushes_number(ins[0].opcode)
    &&& ins[0].opcode - 0x50 <= k <= 255
    &&& pushes_number(ins[k + 1].opcode) ==> ins[k + 1].opcode - 0x50 == k
    &&& ins[k + 2].opcode == 0xae
}

/// `Script::is_multisig`: a bare multisig script. It counts keys in a byte, so
/// it is not asked about more than 255 of them.
#[verifier::external_body]
fn is_multisig(s: &[u8]) -> (r: bool)
    requires
        run_of_pushes(instructions(s@), 1) <= 255,
    ensures
        r == multisig_script(s@),
{
    Script::from_bytes(s).is_multisig()
}

/// Count the pushes in a row from instruction `i` on.
fn count_pushes(ins: &Vec<Ins>, i: usize) -> (r: usize)
    requires
        i <= ins@.len(),
    ensures
        r == run_of_pushes(ins_models(ins@), i as int),
{
    let ghost models = ins_models(ins@);
    let mut k: usize = i;
    while k < ins.len() && ins[k].data.is_some()
        invariant
            i <= k <= ins@.len(),
            models == ins_models(ins@),
            run_of_pushes(models, i as int) == (k - i) + run_of_pushes(models, k as int),
        decreases ins@.len() - k,
    {
        assert(models[k as int] == ins@[k as int]@);
        k = k + 1;
    }
    if k < ins.len() {
        assert(models[k as int] == ins@[k as int]@);
    }
    k - i
}

/// The type of an output script that is neither P2SH nor a witness program.
pub open spec fn legacy_kind(spk: Seq<u8>) -> Seq<char> {
    if p2pkh_script(spk) {
        "P2PKH"@
    } else if p2pk_script(spk) {
        "P2PK"@
    } else if multisig_script(spk) {
        "bare multisig"@
    } else if spk.len() > 0 && spk[0] == 0x6a {
        "OP_RETURN (unspendable)"@
    } else {
        "bare script"@
    }
}

fn classify_legacy(spk: &[u8]) -> (r: String)
    ensures
        r@ == legacy_kind(spk@),
{
    let (ins, _) = decode_script(spk);
    let keys: usize = if ins.len() == 0 {
        0
    } else {
        count_pushes(&ins, 1)
    };
    assert(run_of_pushes(instructions(spk@), 1) == keys);
    if is_p2pkh(spk) {
        text("P2PKH")
    } else if is_p2pk(spk) {
        text("P2PK")
    } else if keys <= 255 && is_multisig(spk) {
        text("bare multisig")
    } else if spk.len() > 0 && spk[0] == 0x6a {
        text("OP_RETURN (unspendable)")
    } else {
        text("bare script")
    }
}

/// The data of the last instruction of a script, if it is a push and the whole
/// script decodes.
pub open spec fn final_push(script: Seq<u8>) -> Option<Seq<u8>> {
    let ins = instructions(script);
    if ins.len() == 0 || decode_error(script) is Some {
        None
    } else {
        ins.last().data
    }
}

/// The view of an optional byte string.
pub open spec fn opt_vec(b: Option<Vec<u8>>) -> Option<Seq<u8>> {
    match b {
        Some(v) => Some(v@),
        None => None,
    }
}

/// Recover the redeem script from a P2SH scriptSig: it is the final push.
fn last_push(script: &[u8]) -> (r: Option<Vec<u8>>)
    ensures
        opt_vec(r) == final_push(script@),
{
    let (ins, err) = decode_script(script);
    if ins.len() == 0 || err.is_some() {
        return None;
    }
    let last = &ins[ins.len() - 1];
    assert(ins_models(ins@).last() == last@);
    match &last.data {
        Some(d) => Some(slice_to_vec(d.as_slice())),
        None => None,
    }
}

/// The P2PKH script that a version 0 key hash stands for.
pub open spec fn implied_p2pkh(hash: Seq<u8>) -> Seq<u8> {
    seq![0x76u8, 0xa9u8, hash.len() as u8] + hash + seq![0x88u8, 0xacu8]
}

fn p2wpkh_script(hash: &[u8]) -> (r: Vec<u8>)
    requires
        hash@.len() == 20,
    ensures
        r@ == implied_p2pkh(hash@),
{
    let mut out: Vec<u8> = Vec::new();
    out.push(0x76);
    out.push(0xa9);
    out.push(20);
    out.extend_from_slice(hash);
    out.push(0x88);
    out.push(0xac);
    assert(out@ =~= implied_p2pkh(hash@));
    out
}

/// The witness without its annex: BIP341 sets a final element that starts with
/// 0x50 apart when it is not the only one.
pub open spec fn has_annex(wit: Seq<Seq<u8>>) -> bool {
    wit.len() >= 2 && wit.last().len() > 0 && wit.last()[0] == 0x50
}

/// The stack that the witness leaves once the annex is set apart.
pub open spec fn witness_stack(wit: Seq<Seq<u8>>) -> Seq<Seq<u8>> {
    if has_annex(wit) {
        wit.drop_last()
    } else {
        wit
    }
}

/// `items` where the witness program itself is the output script; a nested
/// spend starts with an empty stack.
pub open spec fn initial_items(items: Seq<Seq<u8>>, nested: bool) -> Seq<Seq<char>> {
    if nested {
        Seq::empty()
    } else {
        hex_texts(items)
    }
}

/// A spend of a version 0 key hash.
pub open spec fn key_hash_spend(
    base: SpendModel,
    stack: Seq<Seq<u8>>,
    program: Seq<u8>,
    nested: bool,
) -> SpendModel {
    SpendModel {
        kind: if nested {
            "P2SH-P2WPKH"@
        } else {
            "P2WPKH"@
        },
        errors: if stack.len() != 2 {
            base.errors.push(
                "P2WPKH requires exactly 2 witness elements, found "@ + dec(stack.len() as int),
            )
        } else {
            base.errors
        },
        notes: base.notes.push(
            "scriptPubKey is a v0 witness program; executing the implied P2PKH script"@,
        ),
        frames: base.frames.push(
            script_frame(
                "witness (implied P2PKH)"@,
                implied_p2pkh(program),
                SigVersion::WitnessV0,
                EnterModel::ResetStack(hex_texts(stack)),
            ),
        ),
        initial_stack: initial_items(stack, nested),
        ..base
    }
}

/// A spend of a version 0 script hash, where `hash` is the SHA-256 digest of
/// the last witness element.
pub open spec fn script_hash_spend(
    base: SpendModel,
    stack: Seq<Seq<u8>>,
    program: Seq<u8>,
    nested: bool,
    hash: Seq<u8>,
) -> SpendModel {
    let kind = if nested {
        "P2SH-P2WSH"@
    } else {
        "P2WSH"@
    };
    if stack.len() == 0 {
        SpendModel { kind, errors: base.errors.push("P2WSH witness stack is empty"@), ..base }
    } else {
        SpendModel {
            kind,
            errors: if hash == program {
                base.errors
            } else {
                base.errors.push("witness script does not hash to the witness program"@)
            },
            frames: base.frames.push(
                script_frame(
                    "witnessScript"@,
                    stack.last(),
                    SigVersion::WitnessV0,
                    EnterModel::ResetStack(hex_texts(stack.drop_last())),
                ),
            ),
            initial_stack: initial_items(stack.drop_last(), nested),
            ..base
        }
    }
}

/// A taproot spend by the output key.
pub open spec fn key_path_spend(base: SpendModel, stack: Seq<Seq<u8>>) -> SpendModel {
    SpendModel {
        kind: "P2TR (key path)"@,
        notes: base.notes.push(
            "key-path spend: one Schnorr signature checked against the output key"@,
        ),
        frames: base.frames.push(
            FrameModel {
                label: "taproot key path"@,
                script_hex: Seq::empty(),
                sigversion: SigVersion::TaprootKeyPath,
                enter: EnterModel::ResetStack(hex_texts(stack)),
                leaf_hash: None,
                key_path: true,
            },
        ),
        initial_stack: hex_texts(stack),
        ..base
    }
}

/// Every leaf hash has the 64 digits of a digest.
pub open spec fn leaf_hashes_whole(m: SpendModel) -> bool {
    forall|k: int|
        0 <= k < m.frames.len() ==> ((#[trigger] m.frames[k]).leaf_hash matches Some(h)
            ==> h.len() == 64)
}

/// What is found of a taproot leaf and its control block.
pub struct LeafFindings {
    /// The control block, or why it does not parse.
    pub control: Result<Control, String>,
    pub leaf_hash: [u8; 32],
    /// Why the output key does not parse, if it does not.
    pub key_error: Option<String>,
    /// The control block and the leaf tweak to the output key.
    pub committed: bool,
}

/// What a control block says, as mathematical values.
pub struct ControlModel {
    pub leaf_version: u8,
    pub merkle_steps: int,
    pub internal_key: Seq<u8>,
}

/// The findings on a leaf as mathematical values.
pub struct LeafModel {
    pub control: Result<ControlModel, Seq<char>>,
    pub leaf_hash: Seq<u8>,
    pub key_error: Option<Seq<char>>,
    pub committed: bool,
}

impl View for LeafFindings {
    type V = LeafModel;

    open spec fn view(&self) -> LeafModel {
        LeafModel {
            control: match self.control {
                Ok(c) => Ok(
                    ControlModel {
                        leaf_version: c.leaf_version,
                        merkle_steps: c.merkle_steps as int,
                        internal_key: c.internal_key@,
                    },
                ),
                Err(e) => Err(e@),
            },
            leaf_hash: self.leaf_hash@,
            key_error: opt_text(self.key_error),
            committed: self.committed,
        }
    }
}

/// What is found of a leaf script and a control block under an output key.
pub open spec fn leaf_found(program: Seq<u8>, script: Seq<u8>, control: Seq<u8>) -> LeafModel {
    LeafModel {
        control: match control_error(control) {
            Some(e) => Err(e),
            None => Ok(
                ControlModel {
                    leaf_version: control_leaf_version(control),
                    merkle_steps: (control.len() - 33) / 32,
                    internal_key: control.subrange(1, 33),
                },
            ),
        },
        leaf_hash: tap_leaf(script, control_leaf_version(control)),
        key_error: key_complaint(valid_xonly_key(program)),
        committed: commitment_holds(control, program, script),
    }
}

/// A taproot spend by a leaf script, with what is left of the stack as its
/// arguments.
pub open spec fn leaf_spend(
    base: SpendModel,
    args: Seq<Seq<u8>>,
    script: Seq<u8>,
    found: LeafModel,
) -> SpendModel {
    let kind = "P2TR (script path)"@;
    match found.control {
        Err(e) => SpendModel {
            kind,
            errors: base.errors.push("invalid control block: "@ + e),
            ..base
        },
        Ok(c) => {
            let n1 = base.notes.push(
                "control block: leaf version 0x"@ + hex_byte(c.leaf_version) + ", "@ + dec(
                    c.merkle_steps,
                ) + " merkle step(s), internal key "@ + hex_text(c.internal_key),
            );
            let n2 = if found.key_error is None && found.committed {
                n1.push("taproot commitment verified: this leaf is in the tree"@)
            } else {
                n1
            };
            let n3 = if c.leaf_version != 0xc0 {
                n2.push("unknown leaf version: consensus treats this as anyone-can-spend"@)
            } else {
                n2
            };
            SpendModel {
                kind,
                notes: n3,
                errors: match found.key_error {
                    Some(e) => base.errors.push("output key is not a valid x-only key: "@ + e),
                    None => if found.committed {
                        base.errors
                    } else {
                        base.errors.push(
                            "taproot commitment INVALID: leaf/path does not tweak to the output key"@,
                        )
                    },
                },
                frames: base.frames.push(
                    FrameModel {
                        leaf_hash: Some(hex_text(found.leaf_hash)),
                        ..script_frame(
                            "tapscript leaf"@,
                            script,
                            SigVersion::Tapscript,
                            EnterModel::ResetStack(hex_texts(args)),
                        )
                    },
                ),
                initial_stack: hex_texts(args),
                ..base
            }
        },
    }
}

/// A spend of a taproot output.
pub open spec fn taproot_spend(
    base: SpendModel,
    stack: Seq<Seq<u8>>,
    program: Seq<u8>,
) -> SpendModel {
    let keyed = SpendModel { output_key: Some(hex_text(program)), ..base };
    if stack.len() == 1 {
        key_path_spend(keyed, stack)
    } else if stack.len() >= 2 {
        let n = stack.len() as int;
        leaf_spend(
            keyed,
            stack.take(n - 2),
            stack[n - 2],
            leaf_found(program, stack[n - 2], stack[n - 1]),
        )
    } else {
        SpendModel { errors: base.errors.push("empty witness for a P2TR input"@), ..keyed }
    }
}

/// A spend of a witness program.
pub open spec fn witness_spend(
    script_sig: Seq<u8>,
    wit: Seq<Seq<u8>>,
    spk: Seq<u8>,
    effective: Seq<u8>,
    nested: bool,
) -> SpendModel {
    let version = witness_version(effective);
    let program = effective.skip(2);
    let stack = witness_stack(wit);
    let base = SpendModel {
        annex: if has_annex(wit) {
            Some(hex_text(wit.last()))
        } else {
            None
        },
        frames: if nested {
            seq![
                script_frame("scriptSig"@, script_sig, SigVersion::Legacy, EnterModel::Keep),
                script_frame("scriptPubKey (P2SH)"@, spk, SigVersion::Legacy, EnterModel::Keep),
            ]
        } else {
            Seq::empty()
        },
        ..unresolved()
    };
    if version == 0 && program.len() == 20 {
        key_hash_spend(base, stack, program, nested)
    } else if version == 0 && program.len() == 32 {
        script_hash_spend(base, stack, program, nested, sha256_of(stack.last()))
    } else if version == 1 && program.len() == 32 && !nested {
        taproot_spend(base, stack, program)
    } else {
        SpendModel {
            kind: "witness v"@ + dec(version) + " program ("@ + dec(program.len() as int)
                + " bytes)"@,
            notes: base.notes.push(
                "unknown witness version: consensus treats this as anyone-can-spend"@,
            ),
            initial_stack: hex_texts(stack),
            ..base
        }
    }
}

/// A spend without a witness.
pub open spec fn bare_spend(
    script_sig: Seq<u8>,
    spk: Seq<u8>,
    redeem: Option<Seq<u8>>,
) -> SpendModel {
    let frames = seq![
        script_frame("scriptSig"@, script_sig, SigVersion::Legacy, EnterModel::Keep),
        script_frame("scriptPubKey"@, spk, SigVersion::Legacy, EnterModel::Keep),
    ];
    match redeem {
        Some(script) => SpendModel {
            kind: "P2SH"@,
            notes: seq![
                "P2SH: after scriptPubKey succeeds, the redeem script is deserialized and run"@,
            ],
            frames: frames.push(
                script_frame(
                    "redeemScript"@,
                    script,
                    SigVersion::Legacy,
                    EnterModel::PopRedeem,
                ),
            ),
            ..unresolved()
        },
        None => SpendModel {
            kind: legacy_kind(spk),
            errors: if p2sh_script(spk) {
                seq!["P2SH scriptPubKey but scriptSig has no redeem script push"@]
            } else {
                Seq::empty()
            },
            frames,
            ..unresolved()
        },
    }
}

/// The redeem script of a spend: the last push of the scriptSig, where the
/// output script is P2SH.
pub open spec fn redeem_script(script_sig: Seq<u8>, spk: Seq<u8>) -> Option<Seq<u8>> {
    if p2sh_script(spk) {
        final_push(script_sig)
    } else {
        None
    }
}

/// What there is to execute for an input. A P2SH output script may wrap a
/// witness program, which is then the one that is spent.
pub open spec fn resolved(script_sig: Seq<u8>, wit: Seq<Seq<u8>>, spk: Seq<u8>) -> SpendModel {
    let redeem = redeem_script(script_sig, spk);
    let effective = match redeem {
        Some(script) => script,
        None => spk,
    };
    if witness_script(effective) && wit.len() > 0 {
        witness_spend(script_sig, wit, spk, effective, redeem is Some)
    } else {
        bare_spend(script_sig, spk, redeem)
    }
}

fn new_info() -> (r: SpendInfo)
    ensures
        r@ == unresolved(),
{
    let r = SpendInfo {
        kind: text("unknown"),
        frames: Vec::new(),
        initial_stack: Vec::new(),
        notes: Vec::new(),
        errors: Vec::new(),
        output_key: None,
        annex: None,
    };
    assert(r@ =~= unresolved());
    r
}

fn resolve_key_hash(base: SpendInfo, stack: &[Vec<u8>], program: &[u8], nested: bool) -> (r:
    SpendInfo)
    requires
        program@.len() == 20,
    ensures
        r@ == key_hash_spend(base@, byte_strings(stack@), program@, nested),
{
    let mut info = base;
    info.kind = text(
        if nested {
            "P2SH-P2WPKH"
        } else {
            "P2WPKH"
        },
    );
    if stack.len() != 2 {
        push_text(
            &mut info.errors,
            text("P2WPKH requires exactly 2 witness elements, found ").concat(
                dec_usize(stack.len()).as_str(),
            ),
        );
    }
    push_text(
        &mut info.notes,
        text("scriptPubKey is a v0 witness program; executing the implied P2PKH script"),
    );
    push_frame(
        &mut info.frames,
        new_frame(
            "witness (implied P2PKH)",
            p2wpkh_script(program).as_slice(),
            SigVersion::WitnessV0,
            EnterAction::ResetStack(hexv(stack)),
        ),
    );
    info.initial_stack = initial_stack(stack, nested);
    assert(info@ =~= key_hash_spend(base@, byte_strings(stack@), program@, nested));
    info
}

fn initial_stack(items: &[Vec<u8>], nested: bool) -> (r: Vec<String>)
    ensures
        texts(r@) == initial_items(byte_strings(items@), nested),
{
    if nested {
        let none: Vec<String> = Vec::new();
        assert(texts(none@) =~= Seq::empty());
        none
    } else {
        hexv(items)
    }
}

/// Resolve a P2WSH spend, given the SHA-256 digest of the last witness element.
pub fn resolve_script_hash(
    base: SpendInfo,
    stack: &[Vec<u8>],
    program: &[u8],
    nested: bool,
    hash: &[u8],
) -> (r: SpendInfo)
    ensures
        r@ == script_hash_spend(base@, byte_strings(stack@), program@, nested, hash@),
{
    let mut info = base;
    info.kind = text(
        if nested {
            "P2SH-P2WSH"
        } else {
            "P2WSH"
        },
    );
    if stack.len() == 0 {
        push_text(&mut info.errors, text("P2WSH witness stack is empty"));
        return info;
    }
    if !same_bytes(hash, program) {
        push_text(
            &mut info.errors,
            text("witness script does not hash to the witness program"),
        );
    }
    let args = slice_subrange(stack, 0, stack.len() - 1);
    assert(byte_strings(args@) =~= byte_strings(stack@).drop_last());
    push_frame(
        &mut info.frames,
        new_frame(
            "witnessScript",
            stack[stack.len() - 1].as_slice(),
            SigVersion::WitnessV0,
            EnterAction::ResetStack(hexv(args)),
        ),
    );
    info.initial_stack = initial_stack(args, nested);
    assert(info@ =~= script_hash_spend(base@, byte_strings(stack@), program@, nested, hash@));
    info
}

/// Whether two byte strings are the same.
pub fn same_bytes(a: &[u8], b: &[u8]) -> (r: bool)
    ensures
        r == (a@ == b@),
{
    if a.len() != b.len() {
        return false;
    }
    let mut i: usize = 0;
    while i < a.len()
        invariant
            i <= a@.len() == b@.len(),
            forall|k: int| 0 <= k < i ==> a@[k] == b@[k],
        decreases a@.len() - i,
    {
        if a[i] != b[i] {
            return false;
        }
        i = i + 1;
    }
    assert(a@ =~= b@);
    true
}

fn resolve_key_path(base: SpendInfo, stack: &[Vec<u8>]) -> (r: SpendInfo)
    ensures
        r@ == key_path_spend(base@, byte_strings(stack@)),
{
    let mut info = base;
    info.kind = text("P2TR (key path)");
    push_text(
        &mut info.notes,
        text("key-path spend: one Schnorr signature checked against the output key"),
    );
    let frame = Frame {
        label: text("taproot key path"),
        script_hex: String::new(),
        sigversion: SigVersion::TaprootKeyPath,
        enter: EnterAction::ResetStack(hexv(stack)),
        leaf_hash: None,
        key_path: true,
    };
    push_frame(&mut info.frames, frame);
    info.initial_stack = hexv(stack);
    assert(info@ =~= key_path_spend(base@, byte_strings(stack@)));
    info
}

/// Resolve a taproot script-path spend from what was found of its leaf.
pub fn resolve_leaf(base: SpendInfo, args: &[Vec<u8>], script: &[u8], found: LeafFindings) -> (r:
    SpendInfo)
    ensures
        r@ == leaf_spend(base@, byte_strings(args@), script@, found@),
        leaf_hashes_whole(base@) ==> leaf_hashes_whole(r@),
{
    let mut info = base;
    info.kind = text("P2TR (script path)");
    let control = match found.control {
        Ok(c) => c,
        Err(e) => {
            push_text(&mut info.errors, text("invalid control block: ").concat(e.as_str()));
            assert(info@ =~= leaf_spend(base@, byte_strings(args@), script@, found@));
            return info;
        },
    };
    push_text(
        &mut info.notes,
        text("control block: leaf version 0x").concat(hex_u8(control.leaf_version).as_str()).concat(
            ", ",
        ).concat(dec_usize(control.merkle_steps).as_str()).concat(
            " merkle step(s), internal key ",
        ).concat(hex_encode(control.internal_key.as_slice()).as_str()),
    );
    match &found.key_error {
        None => {
            if found.committed {
                push_text(
                    &mut info.notes,
                    text("taproot commitment verified: this leaf is in the tree"),
                );
            } else {
                push_text(
                    &mut info.errors,
                    text("taproot commitment INVALID: leaf/path does not tweak to the output key"),
                );
            }
        },
        Some(e) => {
            push_text(
                &mut info.errors,
                text("output key is not a valid x-only key: ").concat(e.as_str()),
            );
        },
    }
    if control.leaf_version != 0xc0 {
        push_text(
            &mut info.notes,
            text("unknown leaf version: consensus treats this as anyone-can-spend"),
        );
    }
    let frame = Frame {
        label: text("tapscript leaf"),
        script_hex: hex_encode(script),
        sigversion: SigVersion::Tapscript,
        enter: EnterAction::ResetStack(hexv(args)),
        leaf_hash: Some(hex_encode(found.leaf_hash.as_slice())),
        key_path: false,
    };
    push_frame(&mut info.frames, frame);
    info.initial_stack = hexv(args);
    assert(info@ =~= leaf_spend(base@, byte_strings(args@), script@, found@));
    info
}

/// Look at a leaf and its control block under an output key.
fn find_leaf(program: &[u8], script: &[u8], control: &[u8]) -> (r: LeafFindings)
    ensures
        ({
            let want = leaf_found(program@, script@, control@);
            &&& r@.control == want.control
            &&& want.control is Ok ==> r@ == want
        }),
{
    let decoded = decode_control(control);
    let leaf_hash: [u8; 32] = match &decoded {
        Ok(c) => tap_leaf_hash(script, c.leaf_version),
        Err(_) => [0u8;32],
    };
    LeafFindings {
        control: decoded,
        leaf_hash,
        key_error: check_xonly_key(program).err(),
        committed: verify_commitment(control, program, script),
    }
}

fn resolve_taproot(base: SpendInfo, stack: &[Vec<u8>], program: &[u8]) -> (r: SpendInfo)
    ensures
        r@ == taproot_spend(base@, byte_strings(stack@), program@),
        leaf_hashes_whole(base@) ==> leaf_hashes_whole(r@),
{
    let mut info = base;
    info.output_key = Some(hex_encode(program));
    let ghost keyed = SpendModel { output_key: Some(hex_text(program@)), ..base@ };
    assert(info@ =~= keyed);
    let n: usize = stack.len();
    if n == 1 {
        resolve_key_path(info, stack)
    } else if n >= 2 {
        let args = slice_subrange(stack, 0, n - 2);
        let script = &stack[n - 2];
        let control = &stack[n - 1];
        let found = find_leaf(program, script.as_slice(), control.as_slice());
        assert(byte_strings(args@) =~= byte_strings(stack@).take(n - 2));
        resolve_leaf(info, args, script.as_slice(), found)
    } else {
        push_text(&mut info.errors, text("empty witness for a P2TR input"));
        info
    }
}

fn resolve_witness(
    script_sig: &[u8],
    wit: &[Vec<u8>],
    spk: &[u8],
    effective: &[u8],
    nested: bool,
) -> (r: SpendInfo)
    requires
        witness_script(effective@),
        wit@.len() > 0,
    ensures
        r@ == witness_spend(script_sig@, byte_strings(wit@), spk@, effective@, nested),
        leaf_hashes_whole(r@),
{
    let mut info = new_info();
    let version: u8 = if effective[0] == 0 {
        0
    } else {
        effective[0] - 0x50
    };
    let program = slice_subrange(effective, 2, effective.len());
    assert(program@ =~= effective@.skip(2));

    // BIP341: a final element starting with 0x50 is the annex, not a stack item.
    let last = &wit[wit.len() - 1];
    let annexed = wit.len() >= 2 && last.len() > 0 && last[0] == 0x50;
    let stack = if annexed {
        info.annex = Some(hex_encode(last.as_slice()));
        slice_subrange(wit, 0, wit.len() - 1)
    } else {
        wit
    };
    assert(byte_strings(wit@).last() == last@);
    assert(byte_strings(stack@) =~= witness_stack(byte_strings(wit@)));

    if nested {
        push_frame(
            &mut info.frames,
            new_frame("scriptSig", script_sig, SigVersion::Legacy, EnterAction::Keep),
        );
        push_frame(
            &mut info.frames,
            new_frame("scriptPubKey (P2SH)", spk, SigVersion::Legacy, EnterAction::Keep),
        );
    }
    let ghost base = info@;
    assert(base =~= SpendModel {
        annex: if has_annex(byte_strings(wit@)) {
            Some(hex_text(byte_strings(wit@).last()))
        } else {
            None
        },
        frames: if nested {
            seq![
                script_frame("scriptSig"@, script_sig@, SigVersion::Legacy, EnterModel::Keep),
                script_frame("scriptPubKey (P2SH)"@, spk@, SigVersion::Legacy, EnterModel::Keep),
            ]
        } else {
            Seq::empty()
        },
        ..unresolved()
    });
    if version == 0 && program.len() == 20 {
        resolve_key_hash(info, stack, program, nested)
    } else if version == 0 && program.len() == 32 {
        let hash = sha256_hash(stack[stack.len() - 1].as_slice());
        assert(byte_strings(stack@).last() == stack@.last()@);
        resolve_script_hash(info, stack, program, nested, hash.as_slice())
    } else if version == 1 && program.len() == 32 && !nested {
        resolve_taproot(info, stack, program)
    } else {
        info.kind = text("witness v").concat(dec_u64(version as u64).as_str()).concat(
            " program (",
        ).concat(dec_usize(program.len()).as_str()).concat(" bytes)");
        push_text(
            &mut info.notes,
            text("unknown witness version: consensus treats this as anyone-can-spend"),
        );
        info.initial_stack = hexv(stack);
        info
    }
}

fn resolve_bare(script_sig: &[u8], spk: &[u8], redeem: Option<Vec<u8>>) -> (r: SpendInfo)
    ensures
        r@ == bare_spend(script_sig@, spk@, opt_vec(redeem)),
{
    let mut info = new_info();
    push_frame(
        &mut info.frames,
        new_frame("scriptSig", script_sig, SigVersion::Legacy, EnterAction::Keep),
    );
    push_frame(
        &mut info.frames,
        new_frame("scriptPubKey", spk, SigVersion::Legacy, EnterAction::Keep),
    );
    match &redeem {
        Some(script) => {
            info.kind = text("P2SH");
            push_text(
                &mut info.notes,
                text(
                    "P2SH: after scriptPubKey succeeds, the redeem script is deserialized and run",
                ),
            );
            push_frame(
                &mut info.frames,
                new_frame(
                    "redeemScript",
                    script.as_slice(),
                    SigVersion::Legacy,
                    EnterAction::PopRedeem,
                ),
            );
        },
        None => {
            if is_p2sh(spk) {
                push_text(
                    &mut info.errors,
                    text("P2SH scriptPubKey but scriptSig has no redeem script push"),
                );
            }
            info.kind = classify_legacy(spk);
        },
    }
    assert(info@ =~= bare_spend(script_sig@, spk@, opt_vec(redeem)));
    info
}

/// Decide what to execute for this input.
pub fn resolve(script_sig: &[u8], witness: &[Vec<u8>], spk: &[u8]) -> (r: SpendInfo)
    ensures
        r@ == resolved(script_sig@, byte_strings(witness@), spk@),
        leaf_hashes_whole(r@),
{
    // A P2SH scriptPubKey may wrap a witness program, so peel that first.
    let redeem = if is_p2sh(spk) {
        last_push(script_sig)
    } else {
        None
    };
    let effective = match &redeem {
        Some(script) => script.as_slice(),
        None => spk,
    };
    if is_witness_program(effective) && witness.len() > 0 {
        resolve_witness(script_sig, witness, spk, effective, redeem.is_some())
    } else {
        resolve_bare(script_sig, spk, redeem)
    }
}

/// A script-path spend is reported without an error exactly if its control
/// block parses, the output key is on the curve, and the leaf is committed to.
pub proof fn law_script_path_is_clean_iff_committed(
    base: SpendModel,
    args: Seq<Seq<u8>>,
    script: Seq<u8>,
    found: LeafModel,
)
    requires
        base.errors.len() == 0,
    ensures
        leaf_spend(base, args, script, found).errors.len() == 0 <==> (found.control is Ok
            && found.key_error is None && found.committed),
        leaf_spend(base, args, script, found).errors.len() <= 1,
{
}

/// What there is to execute is always readable: the script of every frame that
/// a spend resolves to is hexadecimal.
pub proof fn law_resolved_scripts_are_hex(script_sig: Seq<u8>, wit: Seq<Seq<u8>>, spk: Seq<u8>)
    ensures
        forall|k: int|
            0 <= k < resolved(script_sig, wit, spk).frames.len() ==> hex_parsed(
                (#[trigger] resolved(script_sig, wit, spk).frames[k]).script_hex,
            ) is Ok,
{
    let redeem = redeem_script(script_sig, spk);
    let effective = match redeem {
        Some(script) => script,
        None => spk,
    };
    let stack = witness_stack(wit);
    law_hex_roundtrip(script_sig);
    law_hex_roundtrip(spk);
    law_hex_roundtrip(effective);
    law_hex_roundtrip(implied_p2pkh(effective.skip(2)));
    law_hex_roundtrip(stack.last());
    law_hex_roundtrip(stack[stack.len() - 2]);
    law_hex_roundtrip(Seq::empty());
    assert(hex_text(Seq::empty()) =~= Seq::empty());
}

} // verus!
