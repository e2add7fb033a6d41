//! What the interpreter works on: the compiled scripts and rules it runs under,
//! the state it changes, and the record it keeps of a step.

use crate::assembly::{
    copy_text, copy_texts, decode_error, ins_models, instructions, opt_text, push_text, texts, Ins,
    InsModel,
};
use crate::sig::{ContextModel, SigContext, SigModel, SigResult};
use crate::spend::{opt_vec, EnterAction, EnterModel, SigVersion};
use crate::stack::Stack;
use crate::text::text;
use crate::tx::opt_bytes;
use vstd::prelude::*;

verus! {

pub const MAX_SCRIPT_ELEMENT_SIZE: usize = 520;

pub const MAX_STACK_SIZE: usize = 1000;

pub const MAX_OPS_PER_SCRIPT: usize = 201;

pub const MAX_SCRIPT_SIZE: usize = 10_000;

pub const MAX_PUBKEYS_PER_MULTISIG: i64 = 20;

pub const VALIDATION_WEIGHT_PER_SIGOP_PASSED: i64 = 50;

pub const LOCKTIME_THRESHOLD: i64 = 500_000_000;

// Script verification flags, mirrored in the JS UI.
pub const VERIFY_P2SH: u32 = 0x0001;

pub const VERIFY_DERSIG: u32 = 0x0004;

pub const VERIFY_LOW_S: u32 = 0x0008;

pub const VERIFY_NULLDUMMY: u32 = 0x0010;

pub const VERIFY_MINIMALDATA: u32 = 0x0040;

pub const VERIFY_CLEANSTACK: u32 = 0x0100;

pub const VERIFY_CHECKLOCKTIMEVERIFY: u32 = 0x0200;

pub const VERIFY_CHECKSEQUENCEVERIFY: u32 = 0x0400;

pub const VERIFY_NULLFAIL: u32 = 0x4000;

/// Sandbox mode: run the pre-2010 disabled opcodes (OP_CAT, OP_SUBSTR, ...)
/// and lift the consensus resource limits (element size, script size, stack
/// size, op count). Purely for visualization — nothing here is valid on
/// mainnet. Defaults off.
pub const EXPERIMENTAL: u32 = 0x8000;

/// Whether a flag is set.
pub open spec fn has_flag(flags: u32, flag: u32) -> bool {
    flags & flag != 0
}

pub(crate) fn flag_set(flags: u32, flag: u32) -> (r: bool)
    ensures
        r == has_flag(flags, flag),
{
    flags & flag != 0
}

#[derive(Debug)]
pub struct StepRecord {
    /// Monotonic step number, 1-based, as btcdeb labels ops.
    pub n: usize,
    pub frame: usize,
    pub frame_label: String,
    /// Byte offset of this op within its script.
    pub offset: usize,
    pub op: String,
    /// Data pushed, if this was a push.
    pub data: Option<String>,
    /// True when the op was skipped because we are inside a false branch.
    pub skipped: bool,
    pub notes: Vec<String>,
    pub error: Option<String>,
    /// Every signature check this op performed. Multisig produces several.
    pub sigs: Vec<SigResult>,
    /// Set on the synthetic records emitted when execution moves between scripts.
    pub transition: bool,
}

/// A step record as mathematical values.
#[verifier::ext_equal]
pub struct RecordModel {
    pub n: int,
    pub frame: int,
    pub frame_label: Seq<char>,
    pub offset: int,
    pub op: Seq<char>,
    pub data: Option<Seq<char>>,
    pub skipped: bool,
    pub notes: Seq<Seq<char>>,
    pub error: Option<Seq<char>>,
    pub sigs: Seq<SigModel>,
    pub transition: bool,
}

/// The models of a list of signature checks.
pub open spec fn sig_models(sigs: Seq<SigResult>) -> Seq<SigModel> {
    sigs.map_values(|s: SigResult| s@)
}

impl View for StepRecord {
    type V = RecordModel;

    open spec fn view(&self) -> RecordModel {
        RecordModel {
            n: self.n as int,
            frame: self.frame as int,
            frame_label: self.frame_label@,
            offset: self.offset as int,
            op: self.op@,
            data: opt_text(self.data),
            skipped: self.skipped,
            notes: texts(self.notes@),
            error: opt_text(self.error),
            sigs: sig_models(self.sigs@),
            transition: self.transition,
        }
    }
}

/// The models of a list of records.
pub open spec fn record_models(records: Seq<StepRecord>) -> Seq<RecordModel> {
    records.map_values(|r: StepRecord| r@)
}

/// A record of which nothing is said yet but where it stands.
pub open spec fn new_record(
    n: int,
    frame: int,
    label: Seq<char>,
    offset: int,
    op: Seq<char>,
) -> RecordModel {
    RecordModel {
        n,
        frame,
        frame_label: label,
        offset,
        op,
        data: None,
        skipped: false,
        notes: Seq::empty(),
        error: None,
        sigs: Seq::empty(),
        transition: false,
    }
}

impl RecordModel {
    /// The record with one more note.
    pub open spec fn noted(self, msg: Seq<char>) -> RecordModel {
        RecordModel { notes: self.notes.push(msg), ..self }
    }

    /// The record with an error.
    pub open spec fn failed(self, msg: Seq<char>) -> RecordModel {
        RecordModel { error: Some(msg), ..self }
    }

    /// The record with one more signature check.
    pub open spec fn checked(self, sig: SigModel) -> RecordModel {
        RecordModel { sigs: self.sigs.push(sig), ..self }
    }
}

impl StepRecord {
    pub(crate) fn new(n: usize, frame: usize, label: &str, offset: usize, op: String) -> (r:
        StepRecord)
        ensures
            r@ == new_record(n as int, frame as int, label@, offset as int, op@),
    {
        let r = StepRecord {
            n,
            frame,
            frame_label: text(label),
            offset,
            op,
            data: None,
            skipped: false,
            notes: Vec::new(),
            error: None,
            sigs: Vec::new(),
            transition: false,
        };
        assert(r@ =~= new_record(n as int, frame as int, label@, offset as int, op@));
        r
    }

    pub(crate) fn note(&mut self, msg: String)
        ensures
            final(self)@ == old(self)@.noted(msg@),
    {
        push_text(&mut self.notes, msg);
        assert(self@ =~= old(self)@.noted(msg@));
    }

    pub(crate) fn fail(&mut self, msg: String)
        ensures
            final(self)@ == old(self)@.failed(msg@),
    {
        self.error = Some(msg);
        assert(self@ =~= old(self)@.failed(msg@));
    }

    pub(crate) fn add_sig(&mut self, sig: SigResult)
        ensures
            final(self)@ == old(self)@.checked(sig@),
    {
        self.sigs.push(sig);
        assert(sig_models(self.sigs@) =~= sig_models(old(self).sigs@).push(sig@));
        assert(self@ =~= old(self)@.checked(sig@));
    }
}

fn copy_sigs(v: &Vec<SigResult>) -> (r: Vec<SigResult>)
    ensures
        sig_models(r@) == sig_models(v@),
{
    let mut out: Vec<SigResult> = Vec::new();
    let mut i: usize = 0;
    while i < v.len()
        invariant
            i <= v@.len(),
            sig_models(out@) =~= sig_models(v@).take(i as int),
        decreases v@.len() - i,
    {
        let ghost before = out@;
        out.push(v[i].clone());
        assert(sig_models(out@) =~= sig_models(before).push(v@[i as int]@));
        i = i + 1;
    }
    assert(sig_models(out@) =~= sig_models(v@));
    out
}

impl Clone for StepRecord {
    fn clone(&self) -> (r: StepRecord)
        ensures
            r@ == self@,
    {
        StepRecord {
            n: self.n,
            frame: self.frame,
            frame_label: self.frame_label.clone(),
            offset: self.offset,
            op: self.op.clone(),
            data: copy_text(&self.data),
            skipped: self.skipped,
            notes: copy_texts(&self.notes),
            error: copy_text(&self.error),
            sigs: copy_sigs(&self.sigs),
            transition: self.transition,
        }
    }
}

/// A script that is ready to run.
pub struct CompiledFrame {
    pub label: String,
    pub script: Vec<u8>,
    pub ins: Vec<Ins>,
    pub decode_error: Option<String>,
    pub sigversion: SigVersion,
    pub enter: EnterAction,
    pub leaf_hash: Option<[u8; 32]>,
    pub key_path: bool,
}

/// A compiled script as mathematical values.
#[verifier::ext_equal]
pub struct CodeModel {
    pub label: Seq<char>,
    pub script: Seq<u8>,
    pub sigversion: SigVersion,
    pub enter: EnterModel,
    pub leaf_hash: Option<Seq<u8>>,
    pub key_path: bool,
}

impl CodeModel {
    /// The instructions of the script.
    pub open spec fn ins(self) -> Seq<InsModel> {
        instructions(self.script)
    }

    /// Whether BIP342's rules hold in the script.
    pub open spec fn tapscript(self) -> bool {
        self.sigversion == SigVersion::Tapscript
    }
}

/// The view of an optional leaf hash.
pub open spec fn opt_hash(h: Option<[u8; 32]>) -> Option<Seq<u8>> {
    match h {
        Some(h) => Some(h@),
        None => None,
    }
}

impl View for CompiledFrame {
    type V = CodeModel;

    open spec fn view(&self) -> CodeModel {
        CodeModel {
            label: self.label@,
            script: self.script@,
            sigversion: self.sigversion,
            enter: self.enter@,
            leaf_hash: opt_hash(self.leaf_hash),
            key_path: self.key_path,
        }
    }
}

impl CompiledFrame {
    /// The instructions are those of the script.
    pub open spec fn wf(&self) -> bool {
        &&& ins_models(self.ins@) == instructions(self.script@)
        &&& opt_text(self.decode_error) == decode_error(self.script@)
    }
}

/// The models of a list of compiled scripts.
pub open spec fn code_models(frames: Seq<CompiledFrame>) -> Seq<CodeModel> {
    frames.map_values(|f: CompiledFrame| f@)
}

/// What the machine's state is at a moment.
pub struct Vm {
    pub frame_idx: usize,
    pub ip: usize,
    pub stack: Stack,
    pub altstack: Stack,
    pub cond: Vec<bool>,
    pub op_count: usize,
    pub begin_codehash: usize,
    pub codesep_pos: u32,
    pub finished: bool,
    pub error: Option<String>,
    /// Whether the current frame's enter action has been applied.
    pub entered: bool,
    pub saved_sigstack: Stack,
    pub budget: i64,
    pub step_n: usize,
}

/// The machine's state as mathematical values.
#[verifier::ext_equal]
pub struct VmModel {
    pub frame_idx: int,
    pub ip: int,
    pub stack: Seq<Seq<u8>>,
    pub altstack: Seq<Seq<u8>>,
    pub cond: Seq<bool>,
    pub op_count: int,
    pub begin_codehash: int,
    pub codesep_pos: u32,
    pub finished: bool,
    pub error: Option<Seq<char>>,
    pub entered: bool,
    pub saved_sigstack: Seq<Seq<u8>>,
    pub budget: int,
    pub step_n: int,
}

impl View for Vm {
    type V = VmModel;

    open spec fn view(&self) -> VmModel {
        VmModel {
            frame_idx: self.frame_idx as int,
            ip: self.ip as int,
            stack: self.stack@,
            altstack: self.altstack@,
            cond: self.cond@,
            op_count: self.op_count as int,
            begin_codehash: self.begin_codehash as int,
            codesep_pos: self.codesep_pos,
            finished: self.finished,
            error: opt_text(self.error),
            entered: self.entered,
            saved_sigstack: self.saved_sigstack@,
            budget: self.budget as int,
            step_n: self.step_n as int,
        }
    }
}

impl VmModel {
    /// The state with another stack.
    pub open spec fn with_stack(self, stack: Seq<Seq<u8>>) -> VmModel {
        VmModel { stack, ..self }
    }

    /// Whether no enclosing branch is switched off.
    pub open spec fn exec_enabled(self) -> bool {
        forall|i: int| 0 <= i < self.cond.len() ==> #[trigger] self.cond[i]
    }
}

impl Vm {
    /// Copy the state.
    pub(crate) fn snapshot(&self) -> (r: Vm)
        ensures
            r@ == self@,
    {
        let mut cond: Vec<bool> = Vec::new();
        let mut i: usize = 0;
        while i < self.cond.len()
            invariant
                i <= self.cond@.len(),
                cond@ =~= self.cond@.take(i as int),
            decreases self.cond@.len() - i,
        {
            cond.push(self.cond[i]);
            i = i + 1;
        }
        let r = Vm {
            frame_idx: self.frame_idx,
            ip: self.ip,
            stack: self.stack.duplicate(),
            altstack: self.altstack.duplicate(),
            cond,
            op_count: self.op_count,
            begin_codehash: self.begin_codehash,
            codesep_pos: self.codesep_pos,
            finished: self.finished,
            error: copy_text(&self.error),
            entered: self.entered,
            saved_sigstack: self.saved_sigstack.duplicate(),
            budget: self.budget,
            step_n: self.step_n,
        };
        assert(r@ =~= self@);
        r
    }

    pub(crate) fn exec_enabled(&self) -> (r: bool)
        ensures
            r == self@.exec_enabled(),
    {
        let mut i: usize = 0;
        while i < self.cond.len()
            invariant
                i <= self.cond@.len(),
                forall|k: int| 0 <= k < i ==> #[trigger] self.cond@[k],
            decreases self.cond@.len() - i,
        {
            if !self.cond[i] {
                assert(!self@.cond[i as int]);
                return false;
            }
            i = i + 1;
        }
        true
    }
}

/// What stays fixed while the machine runs.
pub struct Env<'a> {
    pub frames: &'a Vec<CompiledFrame>,
    pub flags: u32,
    pub ctx: &'a Option<SigContext>,
    pub assume_valid_sigs: bool,
    pub annex: &'a Option<Vec<u8>>,
}

/// What stays fixed while the machine runs, as mathematical values.
#[verifier::ext_equal]
pub struct EnvModel {
    pub frames: Seq<CodeModel>,
    pub flags: u32,
    pub ctx: Option<ContextModel>,
    pub assume_valid_sigs: bool,
    pub annex: Option<Seq<u8>>,
}

/// The view of an optional signing context.
pub open spec fn opt_context(ctx: Option<SigContext>) -> Option<ContextModel> {
    match ctx {
        Some(c) => Some(c@),
        None => None,
    }
}

impl<'a> View for Env<'a> {
    type V = EnvModel;

    open spec fn view(&self) -> EnvModel {
        EnvModel {
            frames: code_models(self.frames@),
            flags: self.flags,
            ctx: opt_context(*self.ctx),
            assume_valid_sigs: self.assume_valid_sigs,
            annex: opt_vec(*self.annex),
        }
    }
}

impl EnvModel {
    /// Numbers must be minimally encoded.
    pub open spec fn minimal(self) -> bool {
        has_flag(self.flags, VERIFY_MINIMALDATA)
    }

    /// Sandbox mode.
    pub open spec fn experimental(self) -> bool {
        has_flag(self.flags, EXPERIMENTAL)
    }

    /// There is something to run, and the input that is examined exists.
    pub open spec fn wf(self) -> bool {
        &&& self.frames.len() > 0
        &&& self.ctx matches Some(c) ==> 0 <= c.index < c.tx().inputs.len()
    }

    /// A state that running can reach: it stands in one of the scripts, an error
    /// has ended it, and as long as it goes on, no limit has been passed.
    pub open spec fn admits(self, vm: VmModel) -> bool {
        &&& 0 <= vm.frame_idx < self.frames.len()
        &&& 0 <= vm.ip
        &&& 0 <= vm.budget
        &&& vm.error is Some ==> vm.finished
        &&& !vm.finished ==> 0 <= vm.op_count <= MAX_OPS_PER_SCRIPT
    }
}

impl<'a> Env<'a> {
    /// Every frame holds the instructions of its script.
    pub open spec fn frames_wf(&self) -> bool {
        forall|i: int| 0 <= i < self.frames@.len() ==> (#[trigger] self.frames@[i]).wf()
    }

    pub(crate) fn require_minimal(&self) -> (r: bool)
        ensures
            r == self@.minimal(),
    {
        flag_set(self.flags, VERIFY_MINIMALDATA)
    }

    pub(crate) fn experimental(&self) -> (r: bool)
        ensures
            r == self@.experimental(),
    {
        flag_set(self.flags, EXPERIMENTAL)
    }

    /// A frame by its position.
    pub(crate) fn frame(&self, i: usize) -> (r: &'a CompiledFrame)
        requires
            i < self@.frames.len(),
            self.frames_wf(),
        ensures
            r@ == self@.frames[i as int],
            r.wf(),
    {
        &self.frames[i]
    }
}

/// The annex as a slice.
pub(crate) fn annex_slice(annex: &Option<Vec<u8>>) -> (r: Option<&[u8]>)
    ensures
        opt_bytes(r) == opt_vec(*annex),
{
    match annex {
        Some(a) => Some(a.as_slice()),
        None => None,
    }
}

} // verus!
