//! A debugging session over a real spend or a bare script.

use crate::assembly::{
    assemble, assembled, copy_text, decode_script, hexish, ins_models, instructions, is_hexish,
    opt_text, push_text, texts, tokens, Ins, InsModel,
};
use crate::hexcodec::{hex_decode, hex_encode, hex_parsed, law_hex_roundtrip};
use crate::interp::{
    compiled, initial_vm, parse_items, parsed_items, single_frame, Machine, MachineModel,
    MachineState,
};
use crate::laws::{law_stack_items_roundtrip, law_steps_use_up_work, steps};
use crate::multisig::items_or_message;
use crate::opnames::{op_name, opcode_name};
use crate::sig::{ContextModel, SigContext};
use crate::spend::{
    copy_frames, frame_models, hex_texts, hexv, opt_vec, resolve, resolved, script_frame,
    witness_stack, EnterModel, Frame, FrameModel, SigVersion, SpendInfo, SpendModel,
};
use crate::steplaws::law_frames_compile_in_order;
use crate::text::{
    bytes_or_message, chars_of, dec, dec_usize, hex_digit, hex_text, is_white, is_whitespace,
    lemma_hex_text_is_bare, lemma_trimmed_already, same_text, strip_0x, text, to_upper, trim,
    trimmed, upper, without_0x,
};
use crate::tx::{byte_strings, out_models, tx_decoded, witness_size, Tx, TxOut, TxOutModel};
use crate::vm::{record_models, EnvModel, RecordModel, StepRecord};
use vstd::prelude::*;
use vstd::string::StringExecFns;

verus! {

/// An output that the examined transaction spends, as a caller hands it over.
pub struct PrevoutInput {
    /// Value in satoshis.
    pub value: u64,
    /// scriptPubKey, hex.
    pub script_pubkey: String,
}

/// A spent output as mathematical values.
#[verifier::ext_equal]
pub struct PrevoutModel {
    pub value: u64,
    pub script_pubkey: Seq<char>,
}

impl View for PrevoutInput {
    type V = PrevoutModel;

    open spec fn view(&self) -> PrevoutModel {
        PrevoutModel { value: self.value, script_pubkey: self.script_pubkey@ }
    }
}

/// The models of a list of spent outputs.
pub open spec fn prevout_models(v: Seq<PrevoutInput>) -> Seq<PrevoutModel> {
    v.map_values(|p: PrevoutInput| p@)
}

/// Spent outputs, or why they could not be read.
pub open spec fn prevouts_or_message(r: Result<Vec<PrevoutInput>, String>) -> Result<
    Seq<PrevoutModel>,
    Seq<char>,
> {
    match r {
        Ok(v) => Ok(prevout_models(v@)),
        Err(e) => Err(e@),
    }
}

/// Spent outputs with their scripts as bytes, or what is wrong with the first
/// bad script.
pub open spec fn decoded_prevouts(v: Seq<PrevoutModel>) -> Result<Seq<TxOutModel>, Seq<char>>
    decreases v.len(),
{
    if v.len() == 0 {
        Ok(Seq::empty())
    } else {
        match decoded_prevouts(v.drop_last()) {
            Err(e) => Err(e),
            Ok(head) => match hex_parsed(v.last().script_pubkey) {
                Err(e) => Err("bad prevout scriptPubKey hex: "@ + e),
                Ok(spk) => Ok(
                    head.push(TxOutModel { value: v.last().value, script_pubkey: spk }),
                ),
            },
        }
    }
}

/// The spent outputs of a transaction with `inputs` inputs, of which input
/// `index` is examined, or why they will not do.
pub open spec fn matched_prevouts(
    inputs: int,
    index: int,
    prevouts: Result<Seq<PrevoutModel>, Seq<char>>,
) -> Result<Seq<TxOutModel>, Seq<char>> {
    if index >= inputs {
        Err(
            "input index "@ + dec(index) + " out of range; this tx has "@ + dec(inputs)
                + " input(s)"@,
        )
    } else {
        match prevouts {
            Err(e) => Err("bad prevouts: "@ + e),
            Ok(v) => match decoded_prevouts(v) {
                Err(e) => Err(e),
                Ok(outs) => if outs.len() != inputs {
                    Err(
                        "got "@ + dec(outs.len() as int) + " prevouts for a tx with "@ + dec(inputs)
                            + " inputs; taproot sighashes need all of them"@,
                    )
                } else {
                    Ok(outs)
                },
            },
        }
    }
}

/// The view of outputs or a message.
pub open spec fn outs_or_message(r: Result<Vec<TxOut>, String>) -> Result<
    Seq<TxOutModel>,
    Seq<char>,
> {
    match r {
        Ok(v) => Ok(out_models(v@)),
        Err(e) => Err(e@),
    }
}

proof fn lemma_first_bad_prevout(v: Seq<PrevoutModel>, i: int)
    requires
        0 <= i <= v.len(),
        decoded_prevouts(v.take(i)) is Err,
    ensures
        decoded_prevouts(v) == decoded_prevouts(v.take(i)),
    decreases v.len() - i,
{
    if i < v.len() {
        assert(v.take(i + 1).drop_last() =~= v.take(i));
        lemma_first_bad_prevout(v, i + 1);
    } else {
        assert(v.take(i) =~= v);
    }
}

fn decode_prevouts(v: &Vec<PrevoutInput>) -> (r: Result<Vec<TxOut>, String>)
    ensures
        outs_or_message(r) == decoded_prevouts(prevout_models(v@)),
{
    let ghost all = prevout_models(v@);
    let mut outs: Vec<TxOut> = Vec::new();
    let mut i: usize = 0;
    assert(out_models(outs@) =~= Seq::empty());
    assert(all.take(0) =~= Seq::empty());
    while i < v.len()
        invariant
            i <= v@.len(),
            all == prevout_models(v@),
            decoded_prevouts(all.take(i as int)) == Ok::<Seq<TxOutModel>, Seq<char>>(
                out_models(outs@),
            ),
        decreases v@.len() - i,
    {
        proof {
            assert(all.take(i + 1).drop_last() =~= all.take(i as int));
            assert(all.take(i + 1).last() == v@[i as int]@);
        }
        match hex_decode(v[i].script_pubkey.as_str()) {
            Ok(spk) => {
                let ghost before = outs@;
                let out = TxOut { value: v[i].value, script_pubkey: spk };
                outs.push(out);
                assert(out_models(outs@) =~= out_models(before).push(out@));
            },
            Err(e) => {
                proof {
                    lemma_first_bad_prevout(all, i + 1);
                }
                return Err(text("bad prevout scriptPubKey hex: ").concat(e.as_str()));
            },
        }
        i = i + 1;
    }
    assert(all.take(all.len() as int) =~= all);
    Ok(outs)
}

/// Hold the spent outputs to what a transaction with so many inputs needs.
pub fn match_prevouts(
    inputs: usize,
    index: usize,
    prevouts: Result<Vec<PrevoutInput>, String>,
) -> (r: Result<Vec<TxOut>, String>)
    ensures
        outs_or_message(r) == matched_prevouts(
            inputs as int,
            index as int,
            prevouts_or_message(prevouts),
        ),
{
    if index >= inputs {
        return Err(
            text("input index ").concat(dec_usize(index).as_str()).concat(
                " out of range; this tx has ",
            ).concat(dec_usize(inputs).as_str()).concat(" input(s)"),
        );
    }
    let parsed = match prevouts {
        Ok(v) => v,
        Err(e) => {
            return Err(text("bad prevouts: ").concat(e.as_str()));
        },
    };
    let outs = match decode_prevouts(&parsed) {
        Ok(v) => v,
        Err(e) => {
            return Err(e);
        },
    };
    if outs.len() != inputs {
        return Err(
            text("got ").concat(dec_usize(outs.len()).as_str()).concat(
                " prevouts for a tx with ",
            ).concat(dec_usize(inputs).as_str()).concat(
                " inputs; taproot sighashes need all of them",
            ),
        );
    }
    Ok(outs)
}

/// A raw transaction as text, or why it is none.
pub open spec fn raw_tx(tx_hex: Seq<char>) -> Result<Seq<u8>, Seq<char>> {
    match hex_parsed(trimmed(tx_hex)) {
        Err(e) => Err("bad tx hex: "@ + e),
        Ok(raw) => match tx_decoded(raw) {
            Err(e) => Err("could not parse transaction: "@ + e),
            Ok(_) => Ok(raw),
        },
    }
}

/// Read a transaction from its hexadecimal text.
pub(crate) fn load_tx(tx_hex: &str) -> (r: Result<Tx, String>)
    ensures
        match r {
            Ok(tx) => {
                &&& raw_tx(tx_hex@) == Ok::<Seq<u8>, Seq<char>>(tx.raw())
                &&& tx_decoded(tx.raw()) is Ok
                &&& tx.raw().len() <= i64::MAX
            },
            Err(e) => raw_tx(tx_hex@) == Err::<Seq<u8>, Seq<char>>(e@),
        },
{
    let t = trim(tx_hex);
    let digits: usize = t.as_str().as_bytes().len();
    let raw = match hex_decode(t.as_str()) {
        Ok(b) => b,
        Err(e) => {
            return Err(text("bad tx hex: ").concat(e.as_str()));
        },
    };
    assert(raw@.len() == digits / 2);
    match Tx::decode(raw) {
        Ok(tx) => Ok(tx),
        Err(e) => Err(text("could not parse transaction: ").concat(e.as_str())),
    }
}

/// A debugging session over one spend.
pub struct Debugger {
    machine: Machine,
    info: SpendInfo,
    frames: Vec<Frame>,
}

/// A debugging session over one spend, as mathematical values.
#[verifier::ext_equal]
pub struct DebuggerModel {
    pub machine: MachineModel,
    pub info: SpendModel,
    pub frames: Seq<FrameModel>,
}

impl View for Debugger {
    type V = DebuggerModel;

    closed spec fn view(&self) -> DebuggerModel {
        DebuggerModel {
            machine: self.machine@,
            info: self.info@,
            frames: frame_models(self.frames@),
        }
    }
}

/// A session that has not begun.
pub open spec fn fresh_machine(
    frames: Seq<crate::vm::CodeModel>,
    stack: Seq<Seq<u8>>,
    flags: u32,
    ctx: Option<ContextModel>,
    assume_valid_sigs: bool,
    size: int,
    annex: Option<Seq<u8>>,
) -> MachineModel {
    MachineModel {
        env: EnvModel { frames, flags, ctx, assume_valid_sigs, annex },
        vm: initial_vm(stack, size),
        history: Seq::empty(),
        records: Seq::empty(),
    }
}

/// The bytes of an optional hexadecimal text.
pub open spec fn parsed_annex(annex: Option<Seq<char>>) -> Result<Option<Seq<u8>>, Seq<char>> {
    match annex {
        None => Ok(None),
        Some(a) => match hex_parsed(a) {
            Err(e) => Err(e),
            Ok(b) => Ok(Some(b)),
        },
    }
}

/// A session over a spend whose transaction and spent outputs are known.
pub open spec fn spend_session(
    raw: Seq<u8>,
    index: int,
    prevouts: Seq<TxOutModel>,
    flags: u32,
    assume_valid_sigs: bool,
) -> Result<DebuggerModel, Seq<char>> {
    let input = tx_decoded(raw)->Ok_0.inputs[index];
    let info = resolved(input.script_sig, input.witness, prevouts[index].script_pubkey);
    match parsed_items(info.initial_stack) {
        Err(e) => Err(e),
        Ok(stack) => match parsed_annex(info.annex) {
            Err(e) => Err(e),
            Ok(annex) => match compiled(info.frames, flags) {
                Err(e) => Err(e),
                Ok(codes) => Ok(
                    DebuggerModel {
                        machine: fresh_machine(
                            codes,
                            stack,
                            flags,
                            Some(ContextModel { raw, index, prevouts }),
                            assume_valid_sigs,
                            witness_size(input.witness) as int,
                            annex,
                        ),
                        info,
                        frames: info.frames,
                    },
                ),
            },
        },
    }
}

/// A session over a real spend.
pub open spec fn tx_session(
    tx_hex: Seq<char>,
    index: int,
    prevouts: Result<Seq<PrevoutModel>, Seq<char>>,
    flags: u32,
    assume_valid_sigs: bool,
) -> Result<DebuggerModel, Seq<char>> {
    match raw_tx(tx_hex) {
        Err(e) => Err(e),
        Ok(raw) => match matched_prevouts(
            tx_decoded(raw)->Ok_0.inputs.len() as int,
            index,
            prevouts,
        ) {
            Err(e) => Err(e),
            Ok(outs) => spend_session(raw, index, outs, flags, assume_valid_sigs),
        },
    }
}

/// The view of a session or a message.
pub open spec fn session_or_message(r: Result<Debugger, String>) -> Result<
    DebuggerModel,
    Seq<char>,
> {
    match r {
        Ok(d) => Ok(d@),
        Err(e) => Err(e@),
    }
}

/// The size of a witness.
fn measure_witness(wit: &Vec<Vec<u8>>) -> (r: usize)
    requires
        witness_size(byte_strings(wit@)) <= usize::MAX,
    ensures
        r == witness_size(byte_strings(wit@)),
{
    let ghost all = byte_strings(wit@);
    let mut total: usize = 0;
    let mut i: usize = 0;
    assert(all.take(0) =~= Seq::empty());
    while i < wit.len()
        invariant
            i <= wit@.len(),
            all == byte_strings(wit@),
            total == witness_size(all.take(i as int)),
            witness_size(all) <= usize::MAX,
        decreases wit@.len() - i,
    {
        proof {
            assert(all.take(i + 1).drop_last() =~= all.take(i as int));
            assert(all.take(i + 1).last() == wit@[i as int]@);
            lemma_witness_size_grows(all, i + 1);
        }
        total = total + wit[i].len() + 1;
        i = i + 1;
    }
    assert(all.take(all.len() as int) =~= all);
    total
}

proof fn lemma_witness_size_grows(wit: Seq<Seq<u8>>, i: int)
    requires
        0 <= i <= wit.len(),
    ensures
        witness_size(wit.take(i)) <= witness_size(wit),
    decreases wit.len() - i,
{
    if i < wit.len() {
        assert(wit.take(i + 1).drop_last() =~= wit.take(i));
        lemma_witness_size_grows(wit, i + 1);
    } else {
        assert(wit.take(i) =~= wit);
    }
}

fn parse_annex(annex: &Option<String>) -> (r: Result<Option<Vec<u8>>, String>)
    ensures
        match r {
            Ok(a) => parsed_annex(opt_text(*annex)) == Ok::<Option<Seq<u8>>, Seq<char>>(
                opt_vec(a),
            ),
            Err(e) => parsed_annex(opt_text(*annex)) == Err::<Option<Seq<u8>>, Seq<char>>(e@),
        },
{
    match annex {
        None => Ok(None),
        Some(a) => match hex_decode(a.as_str()) {
            Ok(b) => Ok(Some(b)),
            Err(e) => Err(e),
        },
    }
}

/// Open a session over a spend whose transaction and spent outputs are known.
fn open_spend(
    tx: Tx,
    input_index: usize,
    outs: Vec<TxOut>,
    flags: u32,
    assume_valid_sigs: bool,
) -> (r: Result<Debugger, String>)
    requires
        tx_decoded(tx.raw()) is Ok,
        tx.raw().len() <= i64::MAX,
        input_index < tx.model().inputs.len(),
        outs@.len() == tx.model().inputs.len(),
    ensures
        session_or_message(r) == spend_session(
            tx.raw(),
            input_index as int,
            out_models(outs@),
            flags,
            assume_valid_sigs,
        ),
        r matches Ok(d) ==> d.wf(),
{
    let ghost raw = tx.raw();
    let ghost prevouts = out_models(outs@);
    let total: usize = tx.bytes().len();
    let parts = tx.parts();
    let input = &parts.inputs[input_index];
    assert(parts@.inputs[input_index as int] == input@);
    assert(prevouts[input_index as int] == outs@[input_index as int]@);
    let info = resolve(
        input.script_sig.as_slice(),
        input.witness.as_slice(),
        outs[input_index].script_pubkey.as_slice(),
    );
    let initial = match parse_items(&info.initial_stack) {
        Ok(v) => v,
        Err(e) => {
            return Err(e);
        },
    };
    let size: usize = measure_witness(&input.witness);
    let annex = match parse_annex(&info.annex) {
        Ok(a) => a,
        Err(e) => {
            return Err(e);
        },
    };
    let ctx = SigContext { tx, input_index, prevouts: outs };
    assert(ctx@ =~= ContextModel { raw, index: input_index as int, prevouts });
    let machine = match Machine::new(
        info.frames.as_slice(),
        initial,
        flags,
        Some(ctx),
        assume_valid_sigs,
        size,
        annex,
    ) {
        Ok(m) => m,
        Err(e) => {
            return Err(e);
        },
    };
    let frames = copy_frames(&info.frames);
    let d = Debugger { machine, info, frames };
    assert(d@ =~= spend_session(
        raw,
        input_index as int,
        prevouts,
        flags,
        assume_valid_sigs,
    )->Ok_0);
    Ok(d)
}

impl Debugger {
    /// The session's machine can run.
    pub closed spec fn wf(&self) -> bool {
        self.machine.wf()
    }

    /// Debug a real spend: a transaction, which input to examine, and the
    /// prevouts being spent (needed for segwit and taproot sighashes), or why
    /// they could not be read.
    pub fn from_tx(
        tx_hex: &str,
        input_index: usize,
        prevouts: Result<Vec<PrevoutInput>, String>,
        flags: u32,
        assume_valid_sigs: bool,
    ) -> (r: Result<Debugger, String>)
        ensures
            session_or_message(r) == tx_session(
                tx_hex@,
                input_index as int,
                prevouts_or_message(prevouts),
                flags,
                assume_valid_sigs,
            ),
            r matches Ok(d) ==> d.wf(),
    {
        let tx = match load_tx(tx_hex) {
            Ok(tx) => tx,
            Err(e) => {
                return Err(e);
            },
        };
        let inputs: usize = tx.parts().inputs.len();
        assert(tx.model().inputs.len() == inputs);
        let outs = match match_prevouts(inputs, input_index, prevouts) {
            Ok(v) => v,
            Err(e) => {
                return Err(e);
            },
        };
        open_spend(tx, input_index, outs, flags, assume_valid_sigs)
    }
}

/// Text without its white space.
pub open spec fn without_white(s: Seq<char>) -> Seq<char>
    decreases s.len(),
{
    if s.len() == 0 {
        s
    } else if is_white(s.last()) {
        without_white(s.drop_last())
    } else {
        without_white(s.drop_last()).push(s.last())
    }
}

/// `OP_` stands somewhere in the text.
pub open spec fn mentions_op(s: Seq<char>) -> bool {
    exists|i: int|
        0 <= i && i + 3 <= s.len() && #[trigger] s[i] == 'O' && s[i + 1] == 'P' && s[i + 2] == '_'
}

/// The script that a source text means: hex, if it reads as hex and names no
/// opcode, and assembly otherwise.
pub open spec fn source_script(source: Seq<char>) -> Result<Seq<u8>, Seq<char>> {
    let s = trimmed(source);
    if s.len() == 0 {
        Err("empty script"@)
    } else if hexish(without_white(s)) && !mentions_op(upper(s)) {
        hex_parsed(without_0x(without_white(s)))
    } else {
        assembled(tokens(s))
    }
}

fn drop_white(s: &str) -> (r: String)
    ensures
        r@ == without_white(s@),
{
    let chars = chars_of(s);
    let mut out = String::new();
    let mut i: usize = 0;
    assert(chars@.take(0) =~= Seq::empty());
    while i < chars.len()
        invariant
            i <= chars@.len(),
            out@ == without_white(chars@.take(i as int)),
        decreases chars@.len() - i,
    {
        assert(chars@.take(i + 1).drop_last() =~= chars@.take(i as int));
        assert(chars@.take(i + 1).last() == chars@[i as int]);
        if !is_whitespace(chars[i]) {
            out.push(chars[i]);
        }
        i = i + 1;
    }
    assert(chars@.take(chars@.len() as int) =~= chars@);
    out
}

fn has_op_prefix(s: &str) -> (r: bool)
    ensures
        r == mentions_op(s@),
{
    let chars = chars_of(s);
    let n: usize = chars.len();
    if n < 3 {
        return false;
    }
    let mut i: usize = 0;
    while i < n - 2
        invariant
            i <= n - 2,
            n == chars@.len(),
            3 <= n,
            chars@ == s@,
            forall|k: int|
                0 <= k < i ==> !(#[trigger] s@[k] == 'O' && s@[k + 1] == 'P' && s@[k + 2] == '_'),
        decreases n - i,
    {
        if chars[i] == 'O' && chars[i + 1] == 'P' && chars[i + 2] == '_' {
            assert(s@[i as int] == 'O');
            return true;
        }
        i = i + 1;
    }
    false
}

fn parse_script_source(source: &str) -> (r: Result<Vec<u8>, String>)
    ensures
        bytes_or_message(r) == source_script(source@),
{
    let s = trim(source);
    if chars_of(s.as_str()).len() == 0 {
        return Err(text("empty script"));
    }
    let compact = drop_white(s.as_str());
    if is_hexish(compact.as_str()) && !has_op_prefix(to_upper(s.as_str()).as_str()) {
        return hex_decode(strip_0x(compact.as_str()).as_str());
    }
    assemble(s.as_str())
}

/// The signature version that a name means.
pub open spec fn named_sigversion(name: Seq<char>) -> SigVersion {
    if name == "witness_v0"@ {
        SigVersion::WitnessV0
    } else if name == "tapscript"@ {
        SigVersion::Tapscript
    } else {
        SigVersion::Legacy
    }
}

fn sigversion_from_str(name: &str) -> (r: SigVersion)
    ensures
        r == named_sigversion(name@),
{
    if same_text(name, "witness_v0") {
        SigVersion::WitnessV0
    } else if same_text(name, "tapscript") {
        SigVersion::Tapscript
    } else {
        SigVersion::Legacy
    }
}

/// The stack item that a text means: hex, with or without `0x`, or nothing.
pub open spec fn stack_item(item: Seq<char>) -> Result<Seq<u8>, Seq<char>> {
    let t = trimmed(item);
    if t.len() == 0 {
        Ok(Seq::empty())
    } else {
        match hex_parsed(without_0x(t)) {
            Err(e) => Err("stack item '"@ + t + "' is not hex: "@ + e),
            Ok(b) => Ok(b),
        }
    }
}

/// The stack that a list of texts means, or what is wrong with the first bad
/// one.
pub open spec fn stack_items(items: Seq<Seq<char>>) -> Result<Seq<Seq<u8>>, Seq<char>>
    decreases items.len(),
{
    if items.len() == 0 {
        Ok(Seq::empty())
    } else {
        match stack_items(items.drop_last()) {
            Err(e) => Err(e),
            Ok(head) => match stack_item(items.last()) {
                Err(e) => Err(e),
                Ok(b) => Ok(head.push(b)),
            },
        }
    }
}

proof fn lemma_first_bad_stack_item(items: Seq<Seq<char>>, i: int)
    requires
        0 <= i <= items.len(),
        stack_items(items.take(i)) is Err,
    ensures
        stack_items(items) == stack_items(items.take(i)),
    decreases items.len() - i,
{
    if i < items.len() {
        assert(items.take(i + 1).drop_last() =~= items.take(i));
        lemma_first_bad_stack_item(items, i + 1);
    } else {
        assert(items.take(i) =~= items);
    }
}

fn parse_stack_item(item: &str) -> (r: Result<Vec<u8>, String>)
    ensures
        bytes_or_message(r) == stack_item(item@),
{
    let t = trim(item);
    if chars_of(t.as_str()).len() == 0 {
        let none: Vec<u8> = Vec::new();
        assert(none@ =~= Seq::empty());
        return Ok(none);
    }
    match hex_decode(strip_0x(t.as_str()).as_str()) {
        Ok(b) => Ok(b),
        Err(e) => Err(
            text("stack item '").concat(t.as_str()).concat("' is not hex: ").concat(e.as_str()),
        ),
    }
}

fn parse_stack(items: &Vec<String>) -> (r: Result<Vec<Vec<u8>>, String>)
    ensures
        items_or_message(r) == stack_items(texts(items@)),
{
    let ghost all = texts(items@);
    let mut out: Vec<Vec<u8>> = Vec::new();
    let mut i: usize = 0;
    assert(byte_strings(out@) =~= Seq::empty());
    assert(all.take(0) =~= Seq::empty());
    while i < items.len()
        invariant
            i <= items@.len(),
            all == texts(items@),
            stack_items(all.take(i as int)) == Ok::<Seq<Seq<u8>>, Seq<char>>(byte_strings(out@)),
        decreases items@.len() - i,
    {
        proof {
            assert(all.take(i + 1).drop_last() =~= all.take(i as int));
            assert(all.take(i + 1).last() == items@[i as int]@);
        }
        match parse_stack_item(items[i].as_str()) {
            Ok(b) => {
                let ghost before = out@;
                out.push(b);
                assert(byte_strings(out@) =~= byte_strings(before).push(b@));
            },
            Err(e) => {
                proof {
                    lemma_first_bad_stack_item(all, i + 1);
                }
                return Err(e);
            },
        }
        i = i + 1;
    }
    assert(all.take(all.len() as int) =~= all);
    Ok(out)
}

/// Texts, or why they could not be read.
pub open spec fn texts_or_message(r: Result<Vec<String>, String>) -> Result<
    Seq<Seq<char>>,
    Seq<char>,
> {
    match r {
        Ok(v) => Ok(texts(v@)),
        Err(e) => Err(e@),
    }
}

/// What is said of a script without a transaction.
pub open spec fn script_info(frame: FrameModel, stack: Seq<Seq<u8>>) -> SpendModel {
    SpendModel {
        kind: "bare script (no transaction)"@,
        frames: seq![frame],
        initial_stack: hex_texts(stack),
        notes: seq!["no transaction loaded: signature checks cannot compute a real sighash"@],
        errors: Seq::empty(),
        output_key: None,
        annex: None,
    }
}

/// A session over a bare script.
pub open spec fn script_session(
    source: Seq<char>,
    stack: Result<Seq<Seq<char>>, Seq<char>>,
    sigversion: Seq<char>,
    flags: u32,
    assume_valid_sigs: bool,
) -> Result<DebuggerModel, Seq<char>> {
    match source_script(source) {
        Err(e) => Err(e),
        Ok(script) => match stack {
            Err(e) => Err("bad stack: "@ + e),
            Ok(items) => match stack_items(items) {
                Err(e) => Err(e),
                Ok(initial) => {
                    let frame = script_frame(
                        "script"@,
                        script,
                        named_sigversion(sigversion),
                        EnterModel::Keep,
                    );
                    match compiled(seq![frame], flags) {
                        Err(e) => Err(e),
                        Ok(codes) => Ok(
                            DebuggerModel {
                                machine: fresh_machine(
                                    codes,
                                    initial,
                                    flags,
                                    None,
                                    assume_valid_sigs,
                                    0,
                                    None,
                                ),
                                info: script_info(frame, initial),
                                frames: seq![frame],
                            },
                        ),
                    }
                },
            },
        },
    }
}

/// The records of up to `n` steps.
pub open spec fn run_records(m: MachineModel, n: nat) -> Seq<RecordModel>
    decreases n,
{
    if n == 0 {
        Seq::empty()
    } else {
        let before = steps(m, (n - 1) as nat);
        let head = run_records(m, (n - 1) as nat);
        if before.vm.finished {
            head
        } else {
            head.push(before.step_record())
        }
    }
}

proof fn lemma_finished_run(m: MachineModel, k: nat, n: nat)
    requires
        k <= n,
        steps(m, k).vm.finished,
    ensures
        steps(m, n) == steps(m, k),
        run_records(m, n) == run_records(m, k),
    decreases n - k,
{
    if k < n {
        lemma_finished_run(m, k, (n - 1) as nat);
    }
}

impl Debugger {
    /// Debug a bare script with a hand-made initial stack — no transaction, so
    /// signature checks are reported as unverified unless `assume_valid_sigs`.
    ///
    /// `source` accepts hex or assembly. `sigversion` is one of
    /// `legacy`, `witness_v0`, `tapscript`.
    pub fn from_script(
        source: &str,
        stack: Result<Vec<String>, String>,
        sigversion: &str,
        flags: u32,
        assume_valid_sigs: bool,
    ) -> (r: Result<Debugger, String>)
        ensures
            session_or_message(r) == script_session(
                source@,
                texts_or_message(stack),
                sigversion@,
                flags,
                assume_valid_sigs,
            ),
            r matches Ok(d) ==> d.wf(),
    {
        let script = match parse_script_source(source) {
            Ok(s) => s,
            Err(e) => {
                return Err(e);
            },
        };
        let sv = sigversion_from_str(sigversion);
        let items = match stack {
            Ok(v) => v,
            Err(e) => {
                return Err(text("bad stack: ").concat(e.as_str()));
            },
        };
        let initial = match parse_stack(&items) {
            Ok(v) => v,
            Err(e) => {
                return Err(e);
            },
        };
        let frame = single_frame(script.as_slice(), "script", sv);
        let ghost model = frame@;
        let mut frames: Vec<Frame> = Vec::new();
        frames.push(frame);
        assert(frame_models(frames@) =~= seq![model]);
        let mut notes: Vec<String> = Vec::new();
        push_text(
            &mut notes,
            text("no transaction loaded: signature checks cannot compute a real sighash"),
        );
        let info = SpendInfo {
            kind: text("bare script (no transaction)"),
            frames: copy_frames(&frames),
            initial_stack: hexv(initial.as_slice()),
            notes,
            errors: Vec::new(),
            output_key: None,
            annex: None,
        };
        assert(info@ =~= script_info(model, byte_strings(initial@)));
        let machine = match Machine::new(
            frames.as_slice(),
            initial,
            flags,
            None,
            assume_valid_sigs,
            0,
            None,
        ) {
            Ok(m) => m,
            Err(e) => {
                return Err(e);
            },
        };
        Ok(Debugger { machine, info, frames })
    }

    /// Execute one instruction.
    pub fn step(&mut self) -> (r: StepRecord)
        requires
            old(self).wf(),
            old(self)@.machine.vm.finished || old(self)@.machine.vm.step_n < usize::MAX,
        ensures
            final(self).wf(),
            r@ == old(self)@.machine.step_record(),
            final(self)@ == (DebuggerModel {
                machine: old(self)@.machine.stepped(),
                ..old(self)@
            }),
    {
        self.machine.step()
    }

    /// Run up to `max` steps, stopping on completion or error.
    pub fn run(&mut self, max: usize) -> (r: Vec<StepRecord>)
        requires
            old(self).wf(),
            old(self)@.machine.can_count(max as int),
        ensures
            final(self).wf(),
            record_models(r@) == run_records(old(self)@.machine, max as nat),
            final(self)@ == (DebuggerModel {
                machine: steps(old(self)@.machine, max as nat),
                ..old(self)@
            }),
    {
        let ghost m = self@.machine;
        let ghost before = self@;
        let mut out: Vec<StepRecord> = Vec::new();
        let mut k: usize = 0;
        assert(record_models(out@) =~= Seq::empty());
        while k < max
            invariant
                k <= max,
                self.wf(),
                self@ == (DebuggerModel { machine: steps(m, k as nat), ..before }),
                before == old(self)@,
                m == old(self)@.machine,
                record_models(out@) == run_records(m, k as nat),
                steps(m, k as nat).can_count(max - k),
            decreases max - k,
        {
            if self.machine.state().finished {
                proof {
                    lemma_finished_run(m, k as nat, max as nat);
                }
                return out;
            }
            proof {
                self.lemma_wf();
                law_steps_use_up_work(self@.machine.env, self@.machine.vm);
                crate::interp::law_steps_keep_the_invariant(
                    self@.machine.env,
                    self@.machine.vm,
                );
            }
            let ghost done = out@;
            let rec = self.machine.step();
            out.push(rec);
            assert(record_models(out@) =~= record_models(done).push(rec@));
            k = k + 1;
        }
        out
    }

    proof fn lemma_wf(&self)
        requires
            self.wf(),
        ensures
            self@.machine.wf(),
    {
        self.machine.lemma_model_wf();
    }

    /// Undo the last step.
    pub fn rewind(&mut self) -> (r: Result<MachineState, String>)
        requires
            old(self).wf(),
        ensures
            final(self).wf(),
            match r {
                Ok(s) => {
                    &&& old(self)@.machine.rewound() == Ok::<MachineModel, Seq<char>>(
                        final(self)@.machine,
                    )
                    &&& final(self)@ == (DebuggerModel {
                        machine: final(self)@.machine,
                        ..old(self)@
                    })
                    &&& s@ == final(self)@.machine.state()
                },
                Err(e) => {
                    &&& old(self)@.machine.rewound() == Err::<MachineModel, Seq<char>>(e@)
                    &&& final(self)@ == old(self)@
                },
            },
    {
        match self.machine.rewind() {
            Ok(_) => Ok(self.machine.state()),
            Err(e) => Err(e),
        }
    }

    pub fn state(&self) -> (r: MachineState)
        requires
            self.wf(),
        ensures
            r@ == self@.machine.state(),
    {
        self.machine.state()
    }

    /// Everything the UI needs to render the script listing.
    pub fn listing(&self) -> (r: Vec<FrameView>)
        ensures
            view_models(r@) == frame_listing(self@.frames),
    {
        frame_views(&self.frames)
    }

    /// Detected spend type, notes, and any structural errors.
    pub fn info(&self) -> (r: &SpendInfo)
        ensures
            r@ == self@.info,
    {
        &self.info
    }

    /// All step records so far.
    pub fn records(&self) -> (r: &Vec<StepRecord>)
        ensures
            record_models(r@) == self@.machine.records,
    {
        self.machine.step_records()
    }
}

/// One line of a script listing.
pub struct InsView {
    pub offset: usize,
    pub text: String,
    pub opcode: u8,
    pub op_name: String,
    pub is_push: bool,
    pub data: Option<String>,
    pub minimal: bool,
    pub error: Option<String>,
}

/// One line of a script listing as mathematical values.
#[verifier::ext_equal]
pub struct InsViewModel {
    pub offset: int,
    pub text: Seq<char>,
    pub opcode: u8,
    pub op_name: Seq<char>,
    pub is_push: bool,
    pub data: Option<Seq<char>>,
    pub minimal: bool,
    pub error: Option<Seq<char>>,
}

impl View for InsView {
    type V = InsViewModel;

    open spec fn view(&self) -> InsViewModel {
        InsViewModel {
            offset: self.offset as int,
            text: self.text@,
            opcode: self.opcode,
            op_name: self.op_name@,
            is_push: self.is_push,
            data: opt_text(self.data),
            minimal: self.minimal,
            error: opt_text(self.error),
        }
    }
}

/// The listing of one script.
pub struct FrameView {
    pub label: String,
    pub sigversion: SigVersion,
    pub key_path: bool,
    pub script_hex: String,
    pub instructions: Vec<InsView>,
}

/// The listing of one script as mathematical values.
#[verifier::ext_equal]
pub struct FrameViewModel {
    pub label: Seq<char>,
    pub sigversion: SigVersion,
    pub key_path: bool,
    pub script_hex: Seq<char>,
    pub instructions: Seq<InsViewModel>,
}

/// The models of the lines of a listing.
pub open spec fn line_models(v: Seq<InsView>) -> Seq<InsViewModel> {
    v.map_values(|i: InsView| i@)
}

impl View for FrameView {
    type V = FrameViewModel;

    open spec fn view(&self) -> FrameViewModel {
        FrameViewModel {
            label: self.label@,
            sigversion: self.sigversion,
            key_path: self.key_path,
            script_hex: self.script_hex@,
            instructions: line_models(self.instructions@),
        }
    }
}

/// The models of a list of listings.
pub open spec fn view_models(v: Seq<FrameView>) -> Seq<FrameViewModel> {
    v.map_values(|f: FrameView| f@)
}

/// How an instruction is listed.
pub open spec fn listed_ins(i: InsModel) -> InsViewModel {
    InsViewModel {
        offset: i.offset,
        text: i.text,
        opcode: i.opcode,
        op_name: opcode_name(i.opcode),
        is_push: i.data is Some,
        data: match i.data {
            Some(d) => Some(hex_text(d)),
            None => None,
        },
        minimal: i.minimal_push,
        error: i.error,
    }
}

/// How a frame is listed; one whose script is no hex is listed without lines.
pub open spec fn listed_frame(f: FrameModel) -> FrameViewModel {
    FrameViewModel {
        label: f.label,
        sigversion: f.sigversion,
        key_path: f.key_path,
        script_hex: f.script_hex,
        instructions: match hex_parsed(f.script_hex) {
            Ok(b) => instructions(b).map_values(|i: InsModel| listed_ins(i)),
            Err(_) => Seq::empty(),
        },
    }
}

/// How frames are listed.
pub open spec fn frame_listing(frames: Seq<FrameModel>) -> Seq<FrameViewModel> {
    frames.map_values(|f: FrameModel| listed_frame(f))
}

fn view_ins(i: &Ins) -> (r: InsView)
    ensures
        r@ == listed_ins(i@),
{
    InsView {
        offset: i.offset,
        text: i.text.clone(),
        opcode: i.opcode,
        op_name: op_name(i.opcode),
        is_push: i.data.is_some(),
        data: match &i.data {
            Some(d) => Some(hex_encode(d.as_slice())),
            None => None,
        },
        minimal: i.minimal_push,
        error: copy_text(&i.error),
    }
}

fn view_frame(f: &Frame) -> (r: FrameView)
    ensures
        r@ == listed_frame(f@),
{
    let bytes = match hex_decode(f.script_hex.as_str()) {
        Ok(b) => b,
        Err(_) => Vec::new(),
    };
    let (ins, _) = decode_script(bytes.as_slice());
    let ghost models = instructions(bytes@);
    let ghost want = models.map_values(|i: InsModel| listed_ins(i));
    let mut lines: Vec<InsView> = Vec::new();
    let mut k: usize = 0;
    while k < ins.len()
        invariant
            k <= ins@.len(),
            ins_models(ins@) == models,
            want == models.map_values(|i: InsModel| listed_ins(i)),
            line_models(lines@) =~= want.take(k as int),
        decreases ins@.len() - k,
    {
        let ghost before = lines@;
        let line = view_ins(&ins[k]);
        lines.push(line);
        assert(line_models(lines@) =~= line_models(before).push(line@));
        assert(models[k as int] == ins@[k as int]@);
        k = k + 1;
    }
    assert(line_models(lines@) =~= want);
    let r = FrameView {
        label: f.label.clone(),
        sigversion: f.sigversion,
        key_path: f.key_path,
        script_hex: f.script_hex.clone(),
        instructions: lines,
    };
    assert(hex_parsed(f.script_hex@) is Err ==> want =~= Seq::empty());
    assert(r@ =~= listed_frame(f@));
    r
}

fn frame_views(frames: &Vec<Frame>) -> (r: Vec<FrameView>)
    ensures
        view_models(r@) == frame_listing(frame_models(frames@)),
{
    let ghost want = frame_listing(frame_models(frames@));
    let mut out: Vec<FrameView> = Vec::new();
    let mut i: usize = 0;
    while i < frames.len()
        invariant
            i <= frames@.len(),
            want == frame_listing(frame_models(frames@)),
            view_models(out@) =~= want.take(i as int),
        decreases frames@.len() - i,
    {
        let ghost before = out@;
        let v = view_frame(&frames[i]);
        out.push(v);
        assert(view_models(out@) =~= view_models(before).push(v@));
        i = i + 1;
    }
    assert(view_models(out@) =~= want);
    out
}

/// A spend whose transaction and prevouts are in order can be debugged unless
/// its scripts cannot be built: the stack and the annex that it resolves to
/// always read back.
pub proof fn law_resolved_spends_open(
    raw: Seq<u8>,
    index: int,
    prevouts: Seq<TxOutModel>,
    flags: u32,
    assume_valid_sigs: bool,
)
    ensures
        ({
            let input = tx_decoded(raw)->Ok_0.inputs[index];
            let info = resolved(input.script_sig, input.witness, prevouts[index].script_pubkey);
            spend_session(raw, index, prevouts, flags, assume_valid_sigs) is Ok <==> compiled(
                info.frames,
                flags,
            ) is Ok
        }),
{
    let input = tx_decoded(raw)->Ok_0.inputs[index];
    lemma_resolved_items_read_back(
        input.script_sig,
        input.witness,
        prevouts[index].script_pubkey,
    );
}

proof fn lemma_resolved_items_read_back(
    script_sig: Seq<u8>,
    wit: Seq<Seq<u8>>,
    spk: Seq<u8>,
)
    ensures
        parsed_items(resolved(script_sig, wit, spk).initial_stack) is Ok,
        parsed_annex(resolved(script_sig, wit, spk).annex) is Ok,
{
    let stack = witness_stack(wit);
    law_hex_roundtrip(wit.last());
    law_stack_items_roundtrip(stack);
    law_stack_items_roundtrip(stack.drop_last());
    law_stack_items_roundtrip(stack.take(stack.len() - 2));
    assert(parsed_items(Seq::empty()) is Ok);
}

/// The prevouts of a transaction will do exactly if the examined input exists,
/// they could be read, every script is hex, and there is one for each input.
/// They come out in order, with their values and the bytes of their scripts.
pub proof fn law_prevouts_match_the_inputs(
    inputs: int,
    index: int,
    prevouts: Result<Seq<PrevoutModel>, Seq<char>>,
)
    ensures
        matched_prevouts(inputs, index, prevouts) is Ok <==> {
            &&& index < inputs
            &&& prevouts is Ok
            &&& prevouts->Ok_0.len() == inputs
            &&& forall|i: int|
                0 <= i < prevouts->Ok_0.len() ==> hex_parsed(
                    (#[trigger] prevouts->Ok_0[i]).script_pubkey,
                ) is Ok
        },
        matched_prevouts(inputs, index, prevouts) matches Ok(outs) ==> {
            &&& outs.len() == prevouts->Ok_0.len()
            &&& forall|i: int|
                0 <= i < outs.len() ==> (#[trigger] outs[i]).value == prevouts->Ok_0[i].value
                    && hex_parsed(prevouts->Ok_0[i].script_pubkey) == Ok::<Seq<u8>, Seq<char>>(
                    outs[i].script_pubkey,
                )
        },
{
    if prevouts is Ok {
        lemma_decoded_prevouts(prevouts->Ok_0);
    }
}

proof fn lemma_decoded_prevouts(v: Seq<PrevoutModel>)
    ensures
        decoded_prevouts(v) is Ok <==> forall|i: int|
            0 <= i < v.len() ==> hex_parsed((#[trigger] v[i]).script_pubkey) is Ok,
        decoded_prevouts(v) matches Ok(outs) ==> {
            &&& outs.len() == v.len()
            &&& forall|i: int|
                0 <= i < outs.len() ==> (#[trigger] outs[i]).value == v[i].value && hex_parsed(
                    v[i].script_pubkey,
                ) == Ok::<Seq<u8>, Seq<char>>(outs[i].script_pubkey)
        },
    decreases v.len(),
{
    if v.len() > 0 {
        let init = v.drop_last();
        lemma_decoded_prevouts(init);
        assert(forall|i: int| 0 <= i < init.len() ==> init[i] == v[i]);
        assert(v.last() == v[v.len() - 1]);
        if decoded_prevouts(init) is Err {
            let i = choose|i: int|
                0 <= i < init.len() && hex_parsed((#[trigger] init[i]).script_pubkey) is Err;
            assert(hex_parsed(v[i].script_pubkey) is Err);
        }
        if decoded_prevouts(v) is Ok {
            let head = decoded_prevouts(init)->Ok_0;
            let outs = decoded_prevouts(v)->Ok_0;
            assert forall|i: int| 0 <= i < outs.len() implies (#[trigger] outs[i]).value
                == v[i].value && hex_parsed(v[i].script_pubkey) == Ok::<Seq<u8>, Seq<char>>(
                outs[i].script_pubkey,
            ) by {
                if i < head.len() {
                    assert(outs[i] == head[i]);
                    assert(v[i] == init[i]);
                }
            }
            assert forall|i: int| 0 <= i < v.len() implies hex_parsed(
                (#[trigger] v[i]).script_pubkey,
            ) is Ok by {
                assert(outs[i].value == v[i].value);
            }
        }
    }
}

/// A session over a real spend examines the input that was asked for: it runs
/// what that input's scriptSig and witness and the output it spends resolve to,
/// checks signatures against that transaction, that input and all prevouts, and
/// has a budget of 50 and the weight of that input's witness. It starts on the
/// stack that the spend resolves to, with the annex that its witness carried.
pub proof fn law_spend_sessions(
    tx_hex: Seq<char>,
    index: int,
    prevouts: Result<Seq<PrevoutModel>, Seq<char>>,
    flags: u32,
    assume_valid_sigs: bool,
)
    requires
        0 <= index,
    ensures
        tx_session(tx_hex, index, prevouts, flags, assume_valid_sigs) matches Ok(d) ==> {
            let raw = hex_parsed(trimmed(tx_hex))->Ok_0;
            let tx = tx_decoded(raw)->Ok_0;
            let input = tx.inputs[index];
            let ctx = d.machine.env.ctx->0;
            let env = d.machine.env;
            &&& hex_parsed(trimmed(tx_hex)) is Ok && tx_decoded(raw) is Ok
            &&& index < tx.inputs.len() && prevouts is Ok
            &&& env.ctx is Some && ctx.raw == raw && ctx.index == index
            &&& ctx.prevouts.len() == tx.inputs.len()
            &&& forall|i: int|
                0 <= i < ctx.prevouts.len() ==> (#[trigger] ctx.prevouts[i]).value
                    == prevouts->Ok_0[i].value && hex_parsed(prevouts->Ok_0[i].script_pubkey)
                    == Ok::<Seq<u8>, Seq<char>>(ctx.prevouts[i].script_pubkey)
            &&& d.info == resolved(
                input.script_sig,
                input.witness,
                ctx.prevouts[index].script_pubkey,
            )
            &&& d.frames == d.info.frames
            &&& compiled(d.frames, flags) == Ok::<Seq<crate::vm::CodeModel>, Seq<char>>(env.frames)
            &&& env.flags == flags && env.assume_valid_sigs == assume_valid_sigs
            &&& hex_texts(d.machine.vm.stack) == d.info.initial_stack
            &&& d.machine.vm.budget == 50 + witness_size(input.witness)
            &&& d.info.annex is None <==> env.annex is None
            &&& env.annex matches Some(a) ==> d.info.annex == Some(hex_text(a))
            &&& d.machine.history.len() == 0 && d.machine.records.len() == 0
        },
{
    if tx_session(tx_hex, index, prevouts, flags, assume_valid_sigs) is Ok {
        let raw = hex_parsed(trimmed(tx_hex))->Ok_0;
        let tx = tx_decoded(raw)->Ok_0;
        let input = tx.inputs[index];
        law_prevouts_match_the_inputs(tx.inputs.len() as int, index, prevouts);
        let outs = matched_prevouts(tx.inputs.len() as int, index, prevouts)->Ok_0;
        lemma_resolved_items_are_hex(
            input.script_sig,
            input.witness,
            outs[index].script_pubkey,
        );
    }
}

proof fn lemma_resolved_items_are_hex(script_sig: Seq<u8>, wit: Seq<Seq<u8>>, spk: Seq<u8>)
    ensures
        ({
            let r = resolved(script_sig, wit, spk);
            &&& parsed_items(r.initial_stack) matches Ok(st) && hex_texts(st) == r.initial_stack
            &&& match r.annex {
                None => true,
                Some(a) => hex_parsed(a) matches Ok(b) && hex_text(b) == a,
            }
        }),
{
    let stack = witness_stack(wit);
    law_hex_roundtrip(wit.last());
    law_stack_items_roundtrip(stack);
    law_stack_items_roundtrip(stack.drop_last());
    law_stack_items_roundtrip(stack.take(stack.len() - 2));
    law_stack_items_roundtrip(Seq::empty());
    assert(hex_texts(Seq::empty()) =~= Seq::empty());
}

/// A session over a bare script runs that one script, on the given stack, under
/// the rules that were named and without a transaction.
pub proof fn law_script_sessions(
    source: Seq<char>,
    items: Seq<Seq<char>>,
    sigversion: Seq<char>,
    flags: u32,
    assume_valid_sigs: bool,
)
    ensures
        script_session(
            source,
            Ok(items),
            sigversion,
            flags,
            assume_valid_sigs,
        ) matches Ok(d) ==> {
            let env = d.machine.env;
            &&& source_script(source) is Ok && stack_items(items) is Ok
            &&& env.frames.len() == 1
            &&& env.frames[0].script == source_script(source)->Ok_0
            &&& env.frames[0].enter == EnterModel::Keep
            &&& env.frames[0].leaf_hash is None && !env.frames[0].key_path
            &&& env.frames[0].sigversion == if sigversion == "witness_v0"@ {
                SigVersion::WitnessV0
            } else if sigversion == "tapscript"@ {
                SigVersion::Tapscript
            } else {
                SigVersion::Legacy
            }
            &&& env.ctx is None && env.annex is None
            &&& env.flags == flags && env.assume_valid_sigs == assume_valid_sigs
            &&& d.machine.vm.stack == stack_items(items)->Ok_0
            &&& d.machine.vm.budget == 50
            &&& d.info.frames == d.frames && d.frames.len() == 1
        },
{
    if source_script(source) is Ok && stack_items(items) is Ok {
        let script = source_script(source)->Ok_0;
        law_hex_roundtrip(script);
        let frame = script_frame("script"@, script, named_sigversion(sigversion), EnterModel::Keep);
        law_frames_compile_in_order(seq![frame], flags);
    }
}

/// Every stack item is read on its own: hex digits, with or without `0x` and
/// white space around them, as their bytes, and nothing as the empty element.
pub proof fn law_stack_items_are_read(items: Seq<Seq<char>>, b: Seq<u8>)
    ensures
        stack_items(items) matches Ok(st) ==> {
            &&& st.len() == items.len()
            &&& forall|i: int|
                0 <= i < st.len() ==> stack_item(items[i]) == Ok::<Seq<u8>, Seq<char>>(
                    #[trigger] st[i],
                )
        },
        stack_item(hex_text(b)) == Ok::<Seq<u8>, Seq<char>>(b),
        stack_item("0x"@ + hex_text(b)) == Ok::<Seq<u8>, Seq<char>>(b),
    decreases items.len(),
{
    lemma_hex_text_is_bare(b);
    law_hex_roundtrip(b);
    if b.len() == 0 {
        assert(hex_text(b) =~= Seq::empty());
        assert(b =~= Seq::empty());
    }
    reveal_strlit("0x");
    let x = "0x"@ + hex_text(b);
    assert("0x"@.len() == 2 && "0x"@[0] == '0' && "0x"@[1] == 'x');
    assert(x[0] == '0' && x[1] == 'x');
    assert(x.skip(2) =~= hex_text(b));
    if b.len() > 0 {
        let t = hex_text(b);
        assert(x.last() == t[t.len() - 1]);
        assert(t[t.len() - 1] == hex_digit(b[b.len() - 1] as int % 16));
    } else {
        assert(x.last() == 'x');
    }
    lemma_trimmed_already(x);
    if items.len() > 0 {
        law_stack_items_are_read(items.drop_last(), b);
        if stack_items(items) is Ok {
            let head = stack_items(items.drop_last())->Ok_0;
            let st = stack_items(items)->Ok_0;
            assert forall|i: int| 0 <= i < st.len() implies stack_item(items[i]) == Ok::<
                Seq<u8>,
                Seq<char>,
            >(#[trigger] st[i]) by {
                if i < head.len() {
                    assert(st[i] == head[i]);
                    assert(items[i] == items.drop_last()[i]);
                }
            }
        }
    }
}

/// A source that is hex is the script with those bytes, white space or not; a
/// source that names an opcode is never read as hex.
pub proof fn law_hex_sources(b: Seq<u8>, source: Seq<char>)
    requires
        b.len() > 0,
    ensures
        source_script(hex_text(b)) == Ok::<Seq<u8>, Seq<char>>(b),
        mentions_op(upper(trimmed(source))) ==> source_script(source) == assembled(
            tokens(trimmed(source)),
        ),
        without_white(trimmed(source)) == hex_text(b) && !mentions_op(upper(trimmed(source)))
            ==> source_script(source) == Ok::<Seq<u8>, Seq<char>>(b),
        trimmed(source).len() == 0 ==> source_script(source) is Err,
{
    let t = hex_text(b);
    lemma_hex_text_is_bare(b);
    law_hex_roundtrip(b);
    assert forall|i: int| 0 <= i < t.len() implies crate::assembly::hex_char(#[trigger] t[i]) by {
        let x = b[i / 2] as int;
        assert(t[i] == hex_digit(x / 16) || t[i] == hex_digit(x % 16));
    }
    assert(hexish(t));
    lemma_without_white_already(t);
    if mentions_op(upper(t)) {
        let i = choose|i: int|
            0 <= i && i + 3 <= upper(t).len() && #[trigger] upper(t)[i] == 'O' && upper(t)[i + 1]
                == 'P' && upper(t)[i + 2] == '_';
        assert(crate::assembly::hex_char(t[i]));
        assert(upper(t)[i] == crate::text::ascii_upper(t[i]));
    }
    if trimmed(source).len() == 0 {
    } else if without_white(trimmed(source)) == t {
        assert(trimmed(source).len() > 0);
    }
    if mentions_op(upper(trimmed(source))) {
        assert(upper(trimmed(source)).len() == trimmed(source).len());
    }
}

proof fn lemma_without_white_already(s: Seq<char>)
    requires
        forall|i: int| 0 <= i < s.len() ==> !is_white(#[trigger] s[i]),
    ensures
        without_white(s) == s,
    decreases s.len(),
{
    if s.len() > 0 {
        lemma_without_white_already(s.drop_last());
        assert(s.drop_last().push(s.last()) =~= s);
        assert(!is_white(s[s.len() - 1]));
    }
}

/// Running hands out the records of the steps it takes, and those are the ones
/// that the session keeps.
pub proof fn law_runs_hand_out_their_records(m: MachineModel, n: nat)
    ensures
        steps(m, n).records == m.records + run_records(m, n),
        run_records(m, n).len() <= n,
        steps(m, n).vm.finished || run_records(m, n).len() == n,
    decreases n,
{
    if n > 0 {
        law_runs_hand_out_their_records(m, (n - 1) as nat);
        let before = steps(m, (n - 1) as nat);
        let head = run_records(m, (n - 1) as nat);
        assert(m.records + head.push(before.step_record()) =~= (m.records + head).push(
            before.step_record(),
        ));
    }
    assert(m.records + run_records(m, 0) =~= m.records);
}

/// A frame is listed with one line for each instruction of its script, which
/// tells the instruction's place, name, text and data.
pub proof fn law_listings_follow_the_script(
    frames: Seq<FrameModel>,
    k: int,
    i: int,
    script: Seq<u8>,
)
    requires
        0 <= k < frames.len(),
        hex_parsed(frames[k].script_hex) == Ok::<Seq<u8>, Seq<char>>(script),
        0 <= i < instructions(script).len(),
    ensures
        frame_listing(frames).len() == frames.len(),
        ({
            let f = frame_listing(frames)[k];
            let ins = instructions(script)[i];
            let line = f.instructions[i];
            &&& f.label == frames[k].label && f.script_hex == frames[k].script_hex
            &&& f.sigversion == frames[k].sigversion && f.key_path == frames[k].key_path
            &&& f.instructions.len() == instructions(script).len()
            &&& line.offset == ins.offset && line.opcode == ins.opcode
            &&& line.text == ins.text && line.op_name == opcode_name(ins.opcode)
            &&& line.is_push <==> ins.data is Some
            &&& line.data is Some <==> ins.data is Some
            &&& ins.data matches Some(d) ==> line.data == Some(hex_text(d))
            &&& line.minimal == ins.minimal_push && line.error == ins.error
        }),
{
}

/// White space is dropped from a source wherever it stands, and nothing else.
pub proof fn law_white_space_is_dropped(a: Seq<char>, c: char, b: Seq<char>)
    ensures
        is_white(c) ==> without_white(a + seq![c] + b) == without_white(a) + without_white(b),
        !is_white(c) ==> without_white(a + seq![c] + b) == without_white(a) + seq![c]
            + without_white(b),
    decreases b.len(),
{
    let s = a + seq![c] + b;
    if b.len() == 0 {
        assert(s.drop_last() =~= a);
        assert(s.last() == c);
        assert(without_white(a) + without_white(b) =~= without_white(a));
        assert(without_white(a) + seq![c] + without_white(b) =~= without_white(a).push(c));
    } else {
        let init = b.drop_last();
        assert(s.drop_last() =~= a + seq![c] + init);
        assert(s.last() == b.last());
        law_white_space_is_dropped(a, c, init);
        if !is_white(b.last()) {
            assert(without_white(a) + without_white(b) =~= (without_white(a) + without_white(
                init,
            )).push(b.last()));
            assert(without_white(a) + seq![c] + without_white(b) =~= (without_white(a) + seq![c]
                + without_white(init)).push(b.last()));
        }
    }
}

/// A source that has `OP_` anywhere in it names an opcode.
pub proof fn law_opcodes_are_noticed(a: Seq<char>, b: Seq<char>)
    ensures
        mentions_op(a + "OP_"@ + b),
{
    reveal_strlit("OP_");
    let s = a + "OP_"@ + b;
    let i = a.len() as int;
    assert("OP_"@.len() == 3 && "OP_"@[0] == 'O' && "OP_"@[1] == 'P' && "OP_"@[2] == '_');
    assert(s[i] == 'O' && s[i + 1] == 'P' && s[i + 2] == '_');
}

/// A transaction is read from hex exactly if it decodes.
pub proof fn law_raw_transactions(raw: Seq<u8>)
    ensures
        raw_tx(hex_text(raw)) is Ok <==> tx_decoded(raw) is Ok,
        raw_tx(hex_text(raw)) matches Ok(r) ==> r == raw,
{
    law_hex_roundtrip(raw);
    lemma_hex_text_is_bare(raw);
}

} // verus!
