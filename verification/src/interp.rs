//! The stepping interpreter.
//!
//! rust-bitcoin parses scripts and builds sighashes but has no script VM, so
//! this is a from-scratch evaluator that follows Bitcoin Core's
//! `EvalScript` closely enough to debug real spends. Every step snapshots
//! state so `rewind` can walk backwards.

use crate::assembly::{
    copy_text, copy_texts, decode_error, decode_script, ins_models, instructions,
    lemma_instructions_inside, opt_text, texts, Ins, InsModel,
};
use crate::checks::{attempt, Done};
use crate::exec::{cond_op, execute, executed};
use crate::hexcodec::{hex_decode, hex_encode, hex_parsed};
use crate::laws::{law_steps_use_up_work, work_left};
use crate::multisig::{taken_args, unmatched, walk, MatchModel};
use crate::num::{cast_to_bool, truthy};
use crate::opnames::{
    disabled_opcode, is_disabled, is_op_success, op_name, opcode_name, success_opcode,
};
use crate::sig::{
    schnorr_checked, ContextModel, ModeModel, SigContext, SigMode, SigModel, SigResult,
};
use crate::spend::{
    frame_models, hex_texts, hexv, new_frame, opt_vec, script_frame, EnterAction, EnterModel,
    Frame, FrameModel, SigVersion,
};
use crate::stack::{bool_item, popped, popped_number, Stack};
use crate::text::{dec, dec_usize, hex_text, same_text, text};
use crate::tx::byte_strings;
use crate::vm::{
    annex_slice, code_models, flag_set, has_flag, new_record, opt_context, record_models,
    CodeModel, CompiledFrame, Env, EnvModel, RecordModel, Vm, VmModel,
};
use vstd::prelude::*;
use vstd::slice::{slice_subrange, slice_to_vec};
use vstd::string::StringExecFns;

pub use crate::vm::{
    StepRecord, EXPERIMENTAL, LOCKTIME_THRESHOLD, MAX_OPS_PER_SCRIPT, MAX_PUBKEYS_PER_MULTISIG,
    MAX_SCRIPT_ELEMENT_SIZE, MAX_SCRIPT_SIZE, MAX_STACK_SIZE, VALIDATION_WEIGHT_PER_SIGOP_PASSED,
    VERIFY_CHECKLOCKTIMEVERIFY, VERIFY_CHECKSEQUENCEVERIFY, VERIFY_CLEANSTACK, VERIFY_DERSIG,
    VERIFY_LOW_S, VERIFY_MINIMALDATA, VERIFY_NULLDUMMY, VERIFY_NULLFAIL, VERIFY_P2SH,
};

verus! {

/// A state and the record of the step that led to it.
#[verifier::ext_equal]
pub struct Stepped {
    pub vm: VmModel,
    pub rec: RecordModel,
}

/// The label of the script that a spender provides.
pub open spec fn is_script_sig(label: Seq<char>) -> bool {
    label == "scriptSig"@
}

/// The last script has ended: the rules for the final stack.
pub open spec fn final_record(env: EnvModel, vm: VmModel, rec: RecordModel) -> RecordModel {
    let n = vm.stack.len();
    if n == 0 {
        rec.failed("script finished with an empty stack (evaluates to false)"@)
    } else if !truthy(vm.stack.last()) {
        rec.failed(
            "script finished with a false top stack element (0x"@ + hex_text(vm.stack.last())
                + ")"@,
        )
    } else if n != 1 && env.frames[vm.frame_idx].sigversion != SigVersion::Legacy {
        rec.failed(
            dec(n as int)
                + " elements left on the stack: witness scripts must finish with exactly 1"@,
        )
    } else if n != 1 && has_flag(env.flags, VERIFY_CLEANSTACK) {
        rec.failed(
            "CLEANSTACK: "@ + dec(n as int)
                + " elements left on the stack, expected exactly 1 (standardness rule; consensus allows this)"@,
        )
    } else {
        rec.noted("SCRIPT SUCCEEDED"@)
    }
}

/// A script has run off its end: either move to the next script or apply the
/// final result rules. Intermediate scripts but the scriptSig must leave a true
/// value behind.
pub open spec fn ended(env: EnvModel, vm: VmModel, rec: RecordModel) -> Stepped {
    let label = env.frames[vm.frame_idx].label;
    if vm.cond.len() > 0 {
        Stepped { vm, rec: rec.failed("unbalanced conditional: missing OP_ENDIF"@) }
    } else {
        let v1 = if is_script_sig(label) {
            VmModel { saved_sigstack: vm.stack, ..vm }
        } else {
            vm
        };
        if vm.frame_idx + 1 >= env.frames.len() {
            Stepped { vm: VmModel { finished: true, ..v1 }, rec: final_record(env, vm, rec) }
        } else if !is_script_sig(label) && vm.stack.len() == 0 {
            Stepped { vm: v1, rec: rec.failed(label + " finished with an empty stack"@) }
        } else if !is_script_sig(label) && !truthy(vm.stack.last()) {
            Stepped { vm: v1, rec: rec.failed(label + " evaluated to false"@) }
        } else {
            Stepped {
                vm: VmModel {
                    frame_idx: vm.frame_idx + 1,
                    ip: 0,
                    entered: false,
                    op_count: 0,
                    ..v1
                },
                rec: rec.noted("moving on to "@ + env.frames[vm.frame_idx + 1].label),
            }
        }
    }
}

fn finish(env: &Env, vm: &Vm, r: &mut StepRecord)
    requires
        env.frames_wf(),
        vm.frame_idx < env@.frames.len(),
    ensures
        final(r)@ == final_record(env@, vm@, old(r)@),
{
    let n: usize = vm.stack.len();
    if n == 0 {
        r.fail(text("script finished with an empty stack (evaluates to false)"));
        return ;
    }
    let top = vm.stack.at(n - 1);
    if !cast_to_bool(top.as_slice()) {
        r.fail(
            text("script finished with a false top stack element (0x").concat(
                hex_encode(top.as_slice()).as_str(),
            ).concat(")"),
        );
        return ;
    }
    if n != 1 {
        // BIP141/BIP342 make the one-element rule consensus for witness
        // scripts; for legacy it is only the CLEANSTACK standardness rule.
        if env.frame(vm.frame_idx).sigversion != SigVersion::Legacy {
            r.fail(
                dec_usize(n).concat(
                    " elements left on the stack: witness scripts must finish with exactly 1",
                ),
            );
            return ;
        }
        if flag_set(env.flags, VERIFY_CLEANSTACK) {
            r.fail(
                text("CLEANSTACK: ").concat(dec_usize(n).as_str()).concat(
                    " elements left on the stack, expected exactly 1 (standardness rule; consensus allows this)",
                ),
            );
            return ;
        }
    }
    r.note(text("SCRIPT SUCCEEDED"));
}

/// Called when a script runs off the end: either move to the next script or
/// apply the final result rules.
fn finish_or_advance(env: &Env, vm: &mut Vm, r: &mut StepRecord)
    requires
        env.frames_wf(),
        old(vm).frame_idx < env@.frames.len(),
    ensures
        ({
            let want = ended(env@, old(vm)@, old(r)@);
            final(vm)@ == want.vm && final(r)@ == want.rec
        }),
{
    let ghost before = vm@;
    let frame = env.frame(vm.frame_idx);
    if vm.cond.len() > 0 {
        r.fail(text("unbalanced conditional: missing OP_ENDIF"));
        return ;
    }
    let script_sig = same_text(frame.label.as_str(), "scriptSig");
    if script_sig {
        vm.saved_sigstack = vm.stack.duplicate();
    }
    if vm.frame_idx >= env.frames.len() - 1 {
        finish(env, vm, r);
        vm.finished = true;
        assert(vm@ =~= ended(env@, before, old(r)@).vm);
        return ;
    }
    // Intermediate scripts must leave a true value behind, exactly as
    // VerifyScript requires between scriptSig and scriptPubKey stages.
    if !script_sig {
        let n: usize = vm.stack.len();
        if n == 0 {
            r.fail(frame.label.clone().concat(" finished with an empty stack"));
            assert(vm@ =~= ended(env@, before, old(r)@).vm);
            return ;
        }
        if !cast_to_bool(vm.stack.at(n - 1).as_slice()) {
            r.fail(frame.label.clone().concat(" evaluated to false"));
            assert(vm@ =~= ended(env@, before, old(r)@).vm);
            return ;
        }
    }
    vm.frame_idx = vm.frame_idx + 1;
    vm.ip = 0;
    vm.entered = false;
    vm.op_count = 0;
    let next = env.frame(vm.frame_idx);
    r.note(text("moving on to ").concat(next.label.as_str()));
    assert(vm@ =~= ended(env@, before, old(r)@).vm);
}

/// The bytes of each hexadecimal item, or what is wrong with the first bad one.
pub open spec fn parsed_items(items: Seq<Seq<char>>) -> Result<Seq<Seq<u8>>, Seq<char>>
    decreases items.len(),
{
    if items.len() == 0 {
        Ok(Seq::empty())
    } else {
        match parsed_items(items.drop_last()) {
            Err(e) => Err(e),
            Ok(head) => match hex_parsed(items.last()) {
                Err(e) => Err(e),
                Ok(b) => Ok(head.push(b)),
            },
        }
    }
}

proof fn lemma_first_bad_item(items: Seq<Seq<char>>, i: int)
    requires
        0 <= i <= items.len(),
        parsed_items(items.take(i)) is Err,
    ensures
        parsed_items(items) == parsed_items(items.take(i)),
    decreases items.len() - i,
{
    if i < items.len() {
        assert(items.take(i + 1).drop_last() =~= items.take(i));
        lemma_first_bad_item(items, i + 1);
    } else {
        assert(items.take(i) =~= items);
    }
}

/// Decode every item.
pub(crate) fn parse_items(items: &Vec<String>) -> (r: Result<Vec<Vec<u8>>, String>)
    ensures
        crate::multisig::items_or_message(r) == parsed_items(texts(items@)),
{
    let ghost all = texts(items@);
    let mut out: Vec<Vec<u8>> = Vec::new();
    let mut i: usize = 0;
    assert(byte_strings(out@) =~= Seq::empty());
    assert(all.take(0) =~= Seq::empty());
    while i < items.len()
        invariant
            i <= items@.len(),
            all == texts(items@),
            parsed_items(all.take(i as int)) == Ok::<Seq<Seq<u8>>, Seq<char>>(byte_strings(out@)),
        decreases items@.len() - i,
    {
        proof {
            assert(all.take(i + 1).drop_last() =~= all.take(i as int));
            assert(all.take(i + 1).last() == items@[i as int]@);
        }
        match hex_decode(items[i].as_str()) {
            Ok(b) => {
                let ghost before = out@;
                out.push(b);
                assert(byte_strings(out@) =~= byte_strings(before).push(b@));
            },
            Err(e) => {
                proof {
                    lemma_first_bad_item(all, i + 1);
                }
                return Err(e);
            },
        }
        i = i + 1;
    }
    assert(all.take(all.len() as int) =~= all);
    Ok(out)
}

/// The stack that a script starts with, and what is said of it, or why it
/// cannot start.
pub open spec fn enter_action(vm: VmModel, enter: EnterModel) -> (Seq<Seq<u8>>, Result<
    Option<Seq<char>>,
    Seq<char>,
>) {
    match enter {
        EnterModel::Keep => (vm.stack, Ok(None)),
        EnterModel::PopRedeem => if vm.saved_sigstack.len() == 0 {
            (Seq::empty(), Err("no redeem script on the stack"@))
        } else {
            (
                vm.saved_sigstack.drop_last(),
                Ok(Some("popped the serialized redeem script off the stack"@)),
            )
        },
        EnterModel::ResetStack(items) => match parsed_items(items) {
            Err(e) => (vm.stack, Err("bad stack item hex: "@ + e)),
            Ok(stack) => (stack, Ok(Some("stack initialised from the witness"@))),
        },
    }
}

/// The notes on a script as it starts.
pub open spec fn start_notes(code: CodeModel, rec: RecordModel) -> RecordModel {
    let r1 = match decode_error(code.script) {
        Some(e) => rec.noted("script decode warning: "@ + e),
        None => rec,
    };
    if code.key_path {
        r1.noted("no script to execute; the next step performs the key-path check"@)
    } else {
        r1
    }
}

/// The step that enters a script: its enter action, as its own step so the
/// stack change is visible.
pub open spec fn enter_step(env: EnvModel, vm: VmModel) -> Stepped {
    let code = env.frames[vm.frame_idx];
    let rec = RecordModel {
        transition: true,
        ..new_record(
            vm.step_n + 1,
            vm.frame_idx,
            code.label,
            0,
            "── "@ + code.label + " ──"@,
        )
    };
    let (stack, said) = enter_action(vm, code.enter);
    let v1 = VmModel {
        entered: true,
        step_n: vm.step_n + 1,
        begin_codehash: 0,
        stack,
        ..vm
    };
    match said {
        Err(e) => Stepped { vm: v1, rec: rec.failed(e) },
        Ok(note) => Stepped {
            vm: v1,
            rec: start_notes(
                code,
                match note {
                    Some(n) => rec.noted(n),
                    None => rec,
                },
            ),
        },
    }
}

fn run_enter_action(vm: &mut Vm, enter: &EnterAction) -> (r: Result<Option<String>, String>)
    ensures
        ({
            let (stack, want) = enter_action(old(vm)@, enter@);
            &&& final(vm)@ == old(vm)@.with_stack(stack)
            &&& match r {
                Ok(note) => want == Ok::<Option<Seq<char>>, Seq<char>>(opt_text(note)),
                Err(e) => want == Err::<Option<Seq<char>>, Seq<char>>(e@),
            }
        }),
{
    let ghost before = vm@;
    match enter {
        EnterAction::Keep => {
            assert(vm@ =~= before.with_stack(vm.stack@));
            Ok(None)
        },
        EnterAction::PopRedeem => {
            // Core restores the stack left by scriptSig and pops the
            // serialized redeem script off it.
            vm.stack = vm.saved_sigstack.duplicate();
            match vm.stack.pop() {
                Ok(_) => {
                    assert(vm@ =~= before.with_stack(vm.stack@));
                    Ok(Some(text("popped the serialized redeem script off the stack")))
                },
                Err(_) => {
                    assert(vm.stack@ =~= Seq::empty());
                    assert(vm@ =~= before.with_stack(vm.stack@));
                    Err(text("no redeem script on the stack"))
                },
            }
        },
        EnterAction::ResetStack(items) => match parse_items(items) {
            Ok(decoded) => {
                vm.stack = Stack::from_items(decoded);
                assert(vm@ =~= before.with_stack(vm.stack@));
                Ok(Some(text("stack initialised from the witness")))
            },
            Err(e) => {
                assert(vm@ =~= before.with_stack(vm.stack@));
                Err(text("bad stack item hex: ").concat(e.as_str()))
            },
        },
    }
}

fn run_enter(env: &Env, vm: &mut Vm) -> (r: StepRecord)
    requires
        env.frames_wf(),
        old(vm).frame_idx < env@.frames.len(),
        old(vm).step_n < usize::MAX,
    ensures
        ({
            let want = enter_step(env@, old(vm)@);
            final(vm)@ == want.vm && r@ == want.rec
        }),
{
    let ghost before = vm@;
    let frame = env.frame(vm.frame_idx);
    vm.entered = true;
    vm.step_n = vm.step_n + 1;
    vm.begin_codehash = 0;
    let mut r = StepRecord::new(
        vm.step_n,
        vm.frame_idx,
        frame.label.as_str(),
        0,
        text("── ").concat(frame.label.as_str()).concat(" ──"),
    );
    r.transition = true;
    let said = run_enter_action(vm, &frame.enter);
    assert(vm@ =~= enter_step(env@, before).vm);
    match said {
        Err(e) => {
            r.fail(e);
            assert(r@ =~= enter_step(env@, before).rec);
            return r;
        },
        Ok(Some(note)) => {
            r.note(note);
        },
        Ok(None) => {},
    }
    match &frame.decode_error {
        Some(e) => {
            r.note(text("script decode warning: ").concat(e.as_str()));
        },
        None => {},
    }
    if frame.key_path {
        r.note(text("no script to execute; the next step performs the key-path check"));
    }
    assert(r@ =~= enter_step(env@, before).rec);
    r
}

/// The key that a key-path spend is checked against: the program of the output
/// that is spent.
pub open spec fn output_key(ctx: ContextModel) -> Option<Seq<u8>> {
    if 0 <= ctx.index < ctx.prevouts.len() && ctx.prevouts[ctx.index].script_pubkey.len() == 34 {
        Some(ctx.prevouts[ctx.index].script_pubkey.skip(2))
    } else {
        None
    }
}

/// What is recorded of a key-path check.
pub open spec fn key_path_record(rec: RecordModel, res: SigModel) -> RecordModel {
    if res.valid {
        rec.noted("key-path spend is valid"@).checked(res)
    } else {
        rec.failed("key-path signature check failed: "@ + res.detail).checked(res)
    }
}

/// Record a key-path check.
pub fn record_key_path(r: &mut StepRecord, res: SigResult)
    ensures
        final(r)@ == key_path_record(old(r)@, res@),
{
    if !res.valid {
        r.fail(text("key-path signature check failed: ").concat(res.detail.as_str()));
    } else {
        r.note(text("key-path spend is valid"));
    }
    r.add_sig(res);
}

/// A stack that holds nothing but true.
pub open spec fn true_stack() -> Seq<Seq<u8>> {
    seq![bool_item(true)]
}

/// Taproot key path: a single Schnorr check, no script.
pub open spec fn key_path_step(env: EnvModel, vm: VmModel) -> Stepped {
    let code = env.frames[vm.frame_idx];
    let v1 = VmModel { step_n: vm.step_n + 1, ..vm };
    let rec = new_record(
        vm.step_n + 1,
        vm.frame_idx,
        code.label,
        0,
        "CHECKSIG (BIP341 key path)"@,
    );
    let v2 = VmModel { stack: true_stack(), ip: 1, ..v1 };
    if vm.stack.len() == 0 {
        Stepped { vm: v1, rec: rec.failed("no signature on the witness stack"@) }
    } else if env.ctx is Some && output_key(env.ctx->0) is Some {
        let res = schnorr_checked(
            env.ctx->0,
            vm.stack.last(),
            output_key(env.ctx->0)->0,
            ModeModel::TaprootKeyPath { annex: env.annex },
        );
        ended(env, v2, key_path_record(rec, res))
    } else if env.assume_valid_sigs {
        ended(
            env,
            v2,
            rec.noted("no transaction context: assuming the key-path signature is valid"@),
        )
    } else {
        Stepped { vm: v1, rec: rec.failed("no transaction context for the key-path check"@) }
    }
}

fn find_output_key(ctx: &SigContext) -> (r: Option<Vec<u8>>)
    ensures
        opt_vec(r) == output_key(ctx@),
{
    if ctx.input_index < ctx.prevouts.len() {
        let spk = &ctx.prevouts[ctx.input_index].script_pubkey;
        assert(ctx@.prevouts[ctx@.index].script_pubkey == spk@);
        if spk.len() == 34 {
            let key = slice_to_vec(slice_subrange(spk.as_slice(), 2, 34));
            assert(key@ =~= spk@.skip(2));
            return Some(key);
        }
    }
    None
}

/// Leave nothing but true on the stack.
fn set_true(stack: &mut Stack)
    ensures
        final(stack)@ == true_stack(),
{
    stack.clear();
    stack.push_bool(true);
    assert(stack@ =~= true_stack());
}

fn run_key_path(env: &Env, vm: &mut Vm) -> (r: StepRecord)
    requires
        env.frames_wf(),
        old(vm).frame_idx < env@.frames.len(),
        old(vm).step_n < usize::MAX,
    ensures
        ({
            let want = key_path_step(env@, old(vm)@);
            final(vm)@ == want.vm && r@ == want.rec
        }),
{
    let ghost before = vm@;
    vm.step_n = vm.step_n + 1;
    let frame = env.frame(vm.frame_idx);
    let mut r = StepRecord::new(
        vm.step_n,
        vm.frame_idx,
        frame.label.as_str(),
        0,
        text("CHECKSIG (BIP341 key path)"),
    );
    let n: usize = vm.stack.len();
    if n == 0 {
        r.fail(text("no signature on the witness stack"));
        assert(vm@ =~= key_path_step(env@, before).vm);
        return r;
    }
    let key = match env.ctx {
        Some(ctx) => find_output_key(ctx),
        None => None,
    };
    match (env.ctx, key) {
        (Some(ctx), Some(key)) => {
            let res = ctx.check_schnorr(
                vm.stack.at(n - 1).as_slice(),
                key.as_slice(),
                &SigMode::TaprootKeyPath { annex: annex_slice(env.annex) },
            );
            record_key_path(&mut r, res);
        },
        _ => {
            if env.assume_valid_sigs {
                r.note(text("no transaction context: assuming the key-path signature is valid"));
            } else {
                r.fail(text("no transaction context for the key-path check"));
                assert(vm@ =~= key_path_step(env@, before).vm);
                return r;
            }
        },
    }
    set_true(&mut vm.stack);
    vm.ip = 1;  // mark the pseudo-script as consumed
    assert(vm@ =~= VmModel {
        stack: true_stack(),
        ip: 1,
        step_n: before.step_n + 1,
        ..before
    });
    finish_or_advance(env, vm, &mut r);
    r
}

/// The step at the end of a script.
pub open spec fn end_step(env: EnvModel, vm: VmModel) -> Stepped {
    let label = env.frames[vm.frame_idx].label;
    ended(
        env,
        VmModel { step_n: vm.step_n + 1, ..vm },
        RecordModel {
            transition: true,
            ..new_record(
                vm.step_n + 1,
                vm.frame_idx,
                label,
                0,
                "── end of "@ + label + " ──"@,
            )
        },
    )
}

fn run_end_step(env: &Env, vm: &mut Vm) -> (r: StepRecord)
    requires
        env.frames_wf(),
        old(vm).frame_idx < env@.frames.len(),
        old(vm).step_n < usize::MAX,
    ensures
        ({
            let want = end_step(env@, old(vm)@);
            final(vm)@ == want.vm && r@ == want.rec
        }),
{
    let ghost before = vm@;
    vm.step_n = vm.step_n + 1;
    assert(vm@ =~= VmModel { step_n: before.step_n + 1, ..before });
    let frame = env.frame(vm.frame_idx);
    let mut r = StepRecord::new(
        vm.step_n,
        vm.frame_idx,
        frame.label.as_str(),
        0,
        text("── end of ").concat(frame.label.as_str()).concat(" ──"),
    );
    r.transition = true;
    assert(r@ =~= RecordModel {
        transition: true,
        ..new_record(
            before.step_n + 1,
            before.frame_idx,
            frame.label@,
            0,
            "── end of "@ + frame.label@ + " ──"@,
        )
    });
    finish_or_advance(env, vm, &mut r);
    r
}

/// The record of an instruction before anything is done.
pub open spec fn ins_record(n: int, frame: int, label: Seq<char>, ins: InsModel) -> RecordModel {
    RecordModel {
        data: match ins.data {
            Some(d) => Some(hex_text(d)),
            None => None,
        },
        ..new_record(n, frame, label, ins.offset, ins.text)
    }
}

/// Whether an instruction counts towards the op limit: tapscript uses the
/// sigops budget instead, and sandbox mode has no limit.
pub open spec fn counted(env: EnvModel, code: CodeModel, op: u8) -> bool {
    !code.tapscript() && !env.experimental() && op > 0x60
}

/// The rules that hold after an instruction was executed.
pub open spec fn after_execution(env: EnvModel, d: Done) -> Stepped {
    match d.err {
        Some(e) => Stepped { vm: d.vm, rec: d.rec.failed(e) },
        None => if !env.experimental() && d.vm.stack.len() + d.vm.altstack.len() > MAX_STACK_SIZE {
            Stepped {
                vm: d.vm,
                rec: d.rec.failed(
                    "stack size exceeded "@ + dec(MAX_STACK_SIZE as int) + " elements"@,
                ),
            }
        } else {
            Stepped { vm: d.vm, rec: d.rec }
        },
    }
}

/// An instruction that is neither truncated, nor an `OP_SUCCESSx`, nor switched
/// off: it is counted, and skipped inside a false branch.
pub open spec fn live_step(env: EnvModel, vm: VmModel, rec: RecordModel, ins: InsModel) -> Stepped {
    let op = ins.opcode;
    let v = if counted(env, env.frames[vm.frame_idx], op) {
        VmModel { op_count: vm.op_count + 1, ..vm }
    } else {
        vm
    };
    if counted(env, env.frames[vm.frame_idx], op) && v.op_count > MAX_OPS_PER_SCRIPT {
        Stepped {
            vm: v,
            rec: rec.failed("op count exceeded "@ + dec(MAX_OPS_PER_SCRIPT as int)),
        }
    } else if !v.exec_enabled() && !cond_op(op) {
        Stepped {
            vm: v,
            rec: RecordModel {
                skipped: true,
                ..rec.noted("skipped (inside an unexecuted branch)"@)
            },
        }
    } else {
        after_execution(env, executed(env, v, rec, v.frame_idx, ins))
    }
}

/// The step of one instruction.
pub open spec fn op_step(env: EnvModel, vm: VmModel) -> Stepped {
    let code = env.frames[vm.frame_idx];
    let ins = code.ins()[vm.ip];
    let op = ins.opcode;
    let v1 = VmModel { ip: vm.ip + 1, step_n: vm.step_n + 1, ..vm };
    let rec = ins_record(vm.step_n + 1, vm.frame_idx, code.label, ins);
    if ins.error is Some {
        Stepped { vm: v1, rec: rec.failed(ins.error->0) }
    } else if code.tapscript() && success_opcode(op) {
        // BIP342 reserves a range of opcodes; encountering one makes the whole
        // script succeed immediately, whatever branch it stands in.
        ended(
            env,
            VmModel {
                stack: true_stack(),
                cond: Seq::empty(),
                ip: code.ins().len() as int,
                ..v1
            },
            rec.noted("OP_SUCCESSx in tapscript: the script succeeds immediately"@),
        )
    } else if disabled_opcode(op) && !env.experimental() {
        Stepped { vm: v1, rec: rec.failed(opcode_name(op) + " is disabled"@) }
    } else {
        live_step(env, v1, rec, ins)
    }
}

fn run_live(env: &Env, vm: &mut Vm, r: &mut StepRecord, ins: &Ins)
    requires
        env@.wf(),
        env.frames_wf(),
        old(vm).frame_idx < env@.frames.len(),
        old(vm).op_count <= MAX_OPS_PER_SCRIPT,
        old(vm).ip >= 1,
        ins.offset + ins.len <= usize::MAX,
    ensures
        ({
            let want = live_step(env@, old(vm)@, old(r)@, ins@);
            final(vm)@ == want.vm && final(r)@ == want.rec
        }),
{
    let ghost before = vm@;
    let op: u8 = ins.opcode;
    let frame_idx: usize = vm.frame_idx;
    let tapscript = env.frame(frame_idx).sigversion == SigVersion::Tapscript;
    // Op budget (not applied to tapscript, which uses the sigops budget,
    // nor to experimental mode).
    if !tapscript && !env.experimental() && op > 0x60 {
        vm.op_count = vm.op_count + 1;
        if vm.op_count > MAX_OPS_PER_SCRIPT {
            r.fail(text("op count exceeded ").concat(dec_usize(MAX_OPS_PER_SCRIPT).as_str()));
            assert(vm@ =~= live_step(env@, before, old(r)@, ins@).vm);
            return ;
        }
    }
    let ghost v = vm@;
    assert(v =~= if counted(env@, env@.frames[before.frame_idx], op) {
        VmModel { op_count: before.op_count + 1, ..before }
    } else {
        before
    });
    let exec = vm.exec_enabled();
    let is_cond_op = op == 0x63 || op == 0x64 || op == 0x67 || op == 0x68;
    if !exec && !is_cond_op {
        r.note(text("skipped (inside an unexecuted branch)"));
        r.skipped = true;
        assert(r@ =~= live_step(env@, before, old(r)@, ins@).rec);
        return ;
    }
    match execute(env, vm, r, frame_idx, ins) {
        Err(e) => {
            r.fail(e);
            return ;
        },
        Ok(_) => {},
    }
    let n: usize = vm.stack.len();
    let m: usize = vm.altstack.len();
    if !env.experimental() && (n > MAX_STACK_SIZE || m > MAX_STACK_SIZE - n) {
        r.fail(
            text("stack size exceeded ").concat(dec_usize(MAX_STACK_SIZE).as_str()).concat(
                " elements",
            ),
        );
    }
}

fn run_op_step(env: &Env, vm: &mut Vm) -> (r: StepRecord)
    requires
        env@.wf(),
        env.frames_wf(),
        old(vm).frame_idx < env@.frames.len(),
        old(vm).ip < env@.frames[old(vm).frame_idx as int].ins().len(),
        old(vm).op_count <= MAX_OPS_PER_SCRIPT,
        old(vm).step_n < usize::MAX,
    ensures
        ({
            let want = op_step(env@, old(vm)@);
            final(vm)@ == want.vm && r@ == want.rec
        }),
{
    let ghost before = vm@;
    let frame = env.frame(vm.frame_idx);
    let ins = &frame.ins[vm.ip];
    let count: usize = frame.ins.len();
    let total: usize = frame.script.len();
    proof {
        assert(ins_models(frame.ins@)[vm.ip as int] == ins@);
        lemma_instructions_inside(frame.script@);
    }
    vm.ip = vm.ip + 1;
    vm.step_n = vm.step_n + 1;
    assert(vm@ =~= VmModel { ip: before.ip + 1, step_n: before.step_n + 1, ..before });
    let mut r = StepRecord::new(
        vm.step_n,
        vm.frame_idx,
        frame.label.as_str(),
        ins.offset,
        ins.text.clone(),
    );
    match &ins.data {
        Some(d) => {
            r.data = Some(hex_encode(d.as_slice()));
        },
        None => {},
    }
    assert(r@ =~= ins_record(before.step_n + 1, before.frame_idx, frame.label@, ins@));
    match &ins.error {
        Some(e) => {
            r.fail(e.clone());
            return r;
        },
        None => {},
    }
    let op: u8 = ins.opcode;
    if frame.sigversion == SigVersion::Tapscript && is_op_success(op) {
        r.note(text("OP_SUCCESSx in tapscript: the script succeeds immediately"));
        set_true(&mut vm.stack);
        vm.cond = Vec::new();
        vm.ip = count;
        assert(vm@ =~= VmModel {
            stack: true_stack(),
            cond: Seq::empty(),
            ip: env@.frames[before.frame_idx].ins().len() as int,
            step_n: before.step_n + 1,
            ..before
        });
        finish_or_advance(env, vm, &mut r);
        return r;
    }
    if is_disabled(op) && !env.experimental() {
        r.fail(op_name(op).concat(" is disabled"));
        return r;
    }
    run_live(env, vm, &mut r, ins);
    r
}

/// One step, before its error is taken into the state.
pub open spec fn inner_step(env: EnvModel, vm: VmModel) -> Stepped {
    let code = env.frames[vm.frame_idx];
    if !vm.entered {
        enter_step(env, vm)
    } else if code.key_path {
        key_path_step(env, vm)
    } else if vm.ip >= code.ins().len() {
        end_step(env, vm)
    } else {
        op_step(env, vm)
    }
}

/// One step: an error ends the run.
pub open spec fn one_step(env: EnvModel, vm: VmModel) -> Stepped {
    let s = inner_step(env, vm);
    if s.rec.error is Some {
        Stepped { vm: VmModel { error: s.rec.error, finished: true, ..s.vm }, rec: s.rec }
    } else {
        s
    }
}

fn step_inner(env: &Env, vm: &mut Vm) -> (r: StepRecord)
    requires
        env@.wf(),
        env.frames_wf(),
        env@.admits(old(vm)@),
        !old(vm).finished,
        old(vm).step_n < usize::MAX,
    ensures
        ({
            let want = inner_step(env@, old(vm)@);
            final(vm)@ == want.vm && r@ == want.rec
        }),
{
    // Apply the pending enter action for this frame first, as its own step
    // so the stack change is visible.
    if !vm.entered {
        return run_enter(env, vm);
    }
    let frame = env.frame(vm.frame_idx);
    assert(ins_models(frame.ins@).len() == frame.ins@.len());
    if frame.key_path {
        return run_key_path(env, vm);
    }
    if vm.ip >= frame.ins.len() {
        return run_end_step(env, vm);
    }
    run_op_step(env, vm)
}

/// Take one step, with its error taken into the state.
fn advance(env: &Env, vm: &mut Vm) -> (r: StepRecord)
    requires
        env@.wf(),
        env.frames_wf(),
        env@.admits(old(vm)@),
        !old(vm).finished,
        old(vm).step_n < usize::MAX,
    ensures
        ({
            let want = one_step(env@, old(vm)@);
            final(vm)@ == want.vm && r@ == want.rec
        }),
{
    let rec = step_inner(env, vm);
    let ghost middle = vm@;
    match &rec.error {
        Some(e) => {
            vm.error = Some(e.clone());
            vm.finished = true;
            assert(vm@ =~= VmModel { error: rec@.error, finished: true, ..middle });
        },
        None => {},
    }
    rec
}

/// What executing an instruction never touches: where the machine stands and
/// what it remembers. The budget can only go down, and not below zero.
pub open spec fn stands_where(a: VmModel, b: VmModel) -> bool {
    &&& b.frame_idx == a.frame_idx
    &&& b.ip == a.ip
    &&& b.step_n == a.step_n
    &&& b.finished == a.finished
    &&& b.error == a.error
    &&& b.entered == a.entered
    &&& b.saved_sigstack == a.saved_sigstack
    &&& 0 <= b.budget <= a.budget
    &&& a.op_count <= b.op_count
}

pub proof fn lemma_walk_stands(
    env: EnvModel,
    vm: VmModel,
    rec: RecordModel,
    frame: int,
    sigs: Seq<Seq<u8>>,
    keys: Seq<Seq<u8>>,
    m: MatchModel,
)
    requires
        vm.budget >= 0,
    ensures
        ({
            let w = walk(env, vm, rec, frame, sigs, keys, m);
            stands_where(vm, w.vm) && w.vm.op_count == vm.op_count
        }),
    decreases keys.len() - m.tried,
{
    if m.open(sigs.len() as int, keys.len() as int) {
        let sig = sigs[m.matched];
        let key = keys[m.tried];
        let a = attempt(env, vm, rec, frame, sigs, sig, key);
        assert(stands_where(vm, a.vm) && a.vm.op_count == vm.op_count) by {
            reveal(attempt);
        }
        match a.ok {
            Err(_) => {},
            Ok(ok) => {
                lemma_walk_stands(env, a.vm, a.rec, frame, sigs, keys, m.after(ok, sig, key));
            },
        }
    }
}

proof fn lemma_attempt_stands(
    env: EnvModel,
    vm: VmModel,
    rec: RecordModel,
    frame: int,
    deleted: Seq<Seq<u8>>,
    sig: Seq<u8>,
    pubkey: Seq<u8>,
)
    requires
        vm.budget >= 0,
    ensures
        ({
            let a = attempt(env, vm, rec, frame, deleted, sig, pubkey);
            stands_where(vm, a.vm) && a.vm.op_count == vm.op_count
        }),
{
    reveal(attempt);
}

/// Executing an instruction leaves the machine where it stands, and within the
/// op limit unless it fails.
pub proof fn lemma_executed_stands(
    env: EnvModel,
    vm: VmModel,
    rec: RecordModel,
    frame: int,
    ins: InsModel,
)
    requires
        vm.budget >= 0,
        0 <= vm.op_count <= MAX_OPS_PER_SCRIPT,
    ensures
        ({
            let d = executed(env, vm, rec, frame, ins);
            &&& stands_where(vm, d.vm)
            &&& d.err is None ==> d.vm.op_count <= MAX_OPS_PER_SCRIPT
        }),
{
    let op = ins.opcode;
    let d = executed(env, vm, rec, frame, ins);
    if op == 0xac || op == 0xad {
        let (s1, pubkey) = popped(vm.stack);
        let (s2, sig) = popped(s1);
        if pubkey is Ok && sig is Ok {
            lemma_attempt_stands(
                env,
                vm.with_stack(s2),
                rec,
                frame,
                seq![sig->Ok_0],
                sig->Ok_0,
                pubkey->Ok_0,
            );
        }
    } else if op == 0xba {
        let (s1, pubkey) = popped(vm.stack);
        let (s2, n) = popped_number(s1, env.minimal());
        let (s3, sig) = popped(s2);
        if pubkey is Ok && sig is Ok {
            lemma_attempt_stands(
                env,
                vm.with_stack(s3),
                rec,
                frame,
                Seq::empty(),
                sig->Ok_0,
                pubkey->Ok_0,
            );
        }
    } else if op == 0xae || op == 0xaf {
        let (v, args) = taken_args(env, vm);
        if args is Ok {
            let a = args->Ok_0;
            let r1 = if a.dummy.len() > 0 {
                rec.noted("the off-by-one dummy element is non-empty (fine pre-NULLDUMMY)"@)
            } else {
                rec
            };
            lemma_walk_stands(env, v, r1, frame, a.sigs, a.keys, unmatched());
        }
    }
}

/// A step of a machine that can go on keeps the machine's invariant.
pub proof fn law_steps_keep_the_invariant(env: EnvModel, vm: VmModel)
    requires
        env.wf(),
        env.admits(vm),
        !vm.finished,
    ensures
        env.admits(one_step(env, vm).vm),
        one_step(env, vm).vm.step_n == vm.step_n + 1,
        one_step(env, vm).vm.budget <= vm.budget,
{
    let code = env.frames[vm.frame_idx];
    if vm.entered && !code.key_path && vm.ip < code.ins().len() {
        let ins = code.ins()[vm.ip];
        let v1 = VmModel { ip: vm.ip + 1, step_n: vm.step_n + 1, ..vm };
        let rec = ins_record(vm.step_n + 1, vm.frame_idx, code.label, ins);
        let v2 = if counted(env, code, ins.opcode) {
            VmModel { op_count: v1.op_count + 1, ..v1 }
        } else {
            v1
        };
        if v2.op_count <= MAX_OPS_PER_SCRIPT {
            lemma_executed_stands(env, v2, rec, v2.frame_idx, ins);
        }
    }
}

/// What a debugger shows of the machine.
#[derive(Debug)]
pub struct MachineState {
    pub frame_idx: usize,
    pub frame_label: String,
    pub sigversion: SigVersion,
    pub ip: usize,
    pub stack: Vec<String>,
    pub altstack: Vec<String>,
    pub cond: Vec<bool>,
    pub op_count: usize,
    pub finished: bool,
    pub error: Option<String>,
    pub success: bool,
    pub step_n: usize,
    pub can_rewind: bool,
    pub budget: i64,
}

/// What a debugger shows, as mathematical values.
#[verifier::ext_equal]
pub struct StateModel {
    pub frame_idx: int,
    pub frame_label: Seq<char>,
    pub sigversion: SigVersion,
    pub ip: int,
    pub stack: Seq<Seq<char>>,
    pub altstack: Seq<Seq<char>>,
    pub cond: Seq<bool>,
    pub op_count: int,
    pub finished: bool,
    pub error: Option<Seq<char>>,
    pub success: bool,
    pub step_n: int,
    pub can_rewind: bool,
    pub budget: int,
}

impl View for MachineState {
    type V = StateModel;

    open spec fn view(&self) -> StateModel {
        StateModel {
            frame_idx: self.frame_idx as int,
            frame_label: self.frame_label@,
            sigversion: self.sigversion,
            ip: self.ip as int,
            stack: texts(self.stack@),
            altstack: texts(self.altstack@),
            cond: self.cond@,
            op_count: self.op_count as int,
            finished: self.finished,
            error: opt_text(self.error),
            success: self.success,
            step_n: self.step_n as int,
            can_rewind: self.can_rewind,
            budget: self.budget as int,
        }
    }
}

impl Clone for MachineState {
    fn clone(&self) -> (r: MachineState)
        ensures
            r@ == self@,
    {
        let r = MachineState {
            frame_idx: self.frame_idx,
            frame_label: self.frame_label.clone(),
            sigversion: self.sigversion,
            ip: self.ip,
            stack: copy_texts(&self.stack),
            altstack: copy_texts(&self.altstack),
            cond: copy_bools(&self.cond),
            op_count: self.op_count,
            finished: self.finished,
            error: copy_text(&self.error),
            success: self.success,
            step_n: self.step_n,
            can_rewind: self.can_rewind,
            budget: self.budget,
        };
        assert(r@ =~= self@);
        r
    }
}

/// A debugging session: the scripts, the state, and the way that led there.
pub struct Machine {
    frames: Vec<CompiledFrame>,
    vm: Vm,
    history: Vec<Vm>,
    pub flags: u32,
    pub ctx: Option<SigContext>,
    /// Without a transaction there is nothing to sign, so signature checks are
    /// reported as assumed-valid instead of failing.
    pub assume_valid_sigs: bool,
    /// BIP341 annex for this input, if the witness carried one.
    pub annex: Option<Vec<u8>>,
    pub records: Vec<StepRecord>,
}

/// A debugging session as mathematical values.
#[verifier::ext_equal]
pub struct MachineModel {
    pub env: EnvModel,
    pub vm: VmModel,
    pub history: Seq<VmModel>,
    pub records: Seq<RecordModel>,
}

/// The models of a list of states.
pub open spec fn vm_models(v: Seq<Vm>) -> Seq<VmModel> {
    v.map_values(|m: Vm| m@)
}

impl View for Machine {
    type V = MachineModel;

    closed spec fn view(&self) -> MachineModel {
        MachineModel {
            env: EnvModel {
                frames: code_models(self.frames@),
                flags: self.flags,
                ctx: opt_context(self.ctx),
                assume_valid_sigs: self.assume_valid_sigs,
                annex: opt_vec(self.annex),
            },
            vm: self.vm@,
            history: vm_models(self.history@),
            records: record_models(self.records@),
        }
    }
}

impl MachineModel {
    /// The state and everything in the history can be reached, and whatever the
    /// history holds can go on.
    pub open spec fn wf(self) -> bool {
        &&& self.env.wf()
        &&& self.env.admits(self.vm)
        &&& forall|i: int|
            0 <= i < self.history.len() ==> self.env.admits(#[trigger] self.history[i])
                && !self.history[i].finished
    }

    /// The session after one step that is remembered.
    pub open spec fn stepped(self) -> MachineModel {
        if self.vm.finished {
            self
        } else {
            MachineModel {
                vm: one_step(self.env, self.vm).vm,
                history: self.history.push(self.vm),
                records: self.records.push(one_step(self.env, self.vm).rec),
                ..self
            }
        }
    }

    /// The record of a step.
    pub open spec fn step_record(self) -> RecordModel {
        if self.vm.finished {
            RecordModel {
                error: Some(
                    match self.vm.error {
                        Some(e) => e,
                        None => "execution already finished"@,
                    },
                ),
                ..new_record(self.vm.step_n, self.vm.frame_idx, Seq::empty(), 0, "(done)"@)
            }
        } else {
            one_step(self.env, self.vm).rec
        }
    }

    /// The session after the last remembered step is undone.
    pub open spec fn rewound(self) -> Result<MachineModel, Seq<char>> {
        if self.history.len() == 0 {
            Err("at the beginning; nothing to rewind"@)
        } else {
            Ok(
                MachineModel {
                    vm: self.history.last(),
                    history: self.history.drop_last(),
                    records: if self.records.len() == 0 {
                        self.records
                    } else {
                        self.records.drop_last()
                    },
                    ..self
                },
            )
        }
    }

    /// Up to `n` more steps can be numbered, because `n` is small enough or
    /// because the run ends before.
    pub open spec fn can_count(self, n: int) -> bool {
        ||| self.vm.step_n + n <= usize::MAX
        ||| self.vm.step_n + work_left(self.env, self.vm) <= usize::MAX
    }

    /// What a debugger shows.
    pub open spec fn state(self) -> StateModel {
        let code = self.env.frames[self.vm.frame_idx];
        StateModel {
            frame_idx: self.vm.frame_idx,
            frame_label: code.label,
            sigversion: code.sigversion,
            ip: self.vm.ip,
            stack: hex_texts(self.vm.stack),
            altstack: hex_texts(self.vm.altstack),
            cond: self.vm.cond,
            op_count: self.vm.op_count,
            finished: self.vm.finished,
            error: self.vm.error,
            success: self.vm.finished && self.vm.error is None,
            step_n: self.vm.step_n,
            can_rewind: self.history.len() > 0,
            budget: self.vm.budget,
        }
    }
}

/// The state after at most `n` steps, fewer if the run ends before.
pub open spec fn ran(env: EnvModel, vm: VmModel, n: nat) -> VmModel
    decreases n,
{
    if n == 0 || vm.finished {
        vm
    } else {
        ran(env, one_step(env, vm).vm, (n - 1) as nat)
    }
}

/// A frame ready to run, or why it cannot be. The 10,000-byte cap is a
/// legacy/v0 rule: tapscript has no script size limit (BIP342). Sandbox mode
/// lifts it everywhere.
pub open spec fn compiled_frame(f: FrameModel, flags: u32) -> Result<CodeModel, Seq<char>> {
    match hex_parsed(f.script_hex) {
        Err(e) => Err("bad script hex: "@ + e),
        Ok(script) => {
            let capped = (f.sigversion == SigVersion::Legacy || f.sigversion
                == SigVersion::WitnessV0) && !has_flag(flags, EXPERIMENTAL);
            let code = CodeModel {
                label: f.label,
                script,
                sigversion: f.sigversion,
                enter: f.enter,
                leaf_hash: None,
                key_path: f.key_path,
            };
            if capped && script.len() > MAX_SCRIPT_SIZE {
                Err(
                    "script "@ + f.label + " is "@ + dec(script.len() as int)
                        + " bytes, over the "@ + dec(MAX_SCRIPT_SIZE as int) + " byte limit"@,
                )
            } else {
                match f.leaf_hash {
                    None => Ok(code),
                    Some(h) => match hex_parsed(h) {
                        Err(e) => Err("bad leaf hash: "@ + e),
                        Ok(hash) => if hash.len() != 32 {
                            Err("leaf hash must be 32 bytes"@)
                        } else {
                            Ok(CodeModel { leaf_hash: Some(hash), ..code })
                        },
                    },
                }
            }
        },
    }
}

/// The frames ready to run, or what is wrong with the first that cannot be.
pub open spec fn compiled_frames(frames: Seq<FrameModel>, flags: u32) -> Result<
    Seq<CodeModel>,
    Seq<char>,
>
    decreases frames.len(),
{
    if frames.len() == 0 {
        Ok(Seq::empty())
    } else {
        match compiled_frames(frames.drop_last(), flags) {
            Err(e) => Err(e),
            Ok(head) => match compiled_frame(frames.last(), flags) {
                Err(e) => Err(e),
                Ok(code) => Ok(head.push(code)),
            },
        }
    }
}

/// The frames of a session, of which there must be one.
pub open spec fn compiled(frames: Seq<FrameModel>, flags: u32) -> Result<
    Seq<CodeModel>,
    Seq<char>,
> {
    match compiled_frames(frames, flags) {
        Err(e) => Err(e),
        Ok(codes) => if codes.len() == 0 {
            Err("nothing to execute"@)
        } else {
            Ok(codes)
        },
    }
}

/// The state that a session starts in.
pub open spec fn initial_vm(stack: Seq<Seq<u8>>, witness_size: int) -> VmModel {
    VmModel {
        frame_idx: 0,
        ip: 0,
        stack,
        altstack: Seq::empty(),
        cond: Seq::empty(),
        op_count: 0,
        begin_codehash: 0,
        codesep_pos: 0xffff_ffff,
        finished: false,
        error: None,
        entered: false,
        saved_sigstack: Seq::empty(),
        budget: 50 + witness_size,
        step_n: 0,
    }
}

/// Copy a list of truth values.
fn copy_bools(v: &Vec<bool>) -> (r: Vec<bool>)
    ensures
        r@ == v@,
{
    let mut out: Vec<bool> = Vec::new();
    let mut i: usize = 0;
    while i < v.len()
        invariant
            i <= v@.len(),
            out@ =~= v@.take(i as int),
        decreases v@.len() - i,
    {
        out.push(v[i]);
        i = i + 1;
    }
    assert(out@ =~= v@);
    out
}

/// The 32 bytes of a list as an array.
fn to_array(v: &Vec<u8>) -> (r: [u8; 32])
    requires
        v@.len() == 32,
    ensures
        r@ == v@,
{
    let mut out: [u8; 32] = [0u8;32];
    let mut i: usize = 0;
    while i < 32
        invariant
            i <= 32,
            v@.len() == 32,
            forall|k: int| 0 <= k < i ==> out@[k] == v@[k],
        decreases 32 - i,
    {
        out[i] = v[i];
        i = i + 1;
    }
    assert(out@ =~= v@);
    out
}

fn compile_frame(f: &Frame, flags: u32) -> (r: Result<CompiledFrame, String>)
    ensures
        match r {
            Ok(c) => compiled_frame(f@, flags) == Ok::<CodeModel, Seq<char>>(c@) && c.wf(),
            Err(e) => compiled_frame(f@, flags) == Err::<CodeModel, Seq<char>>(e@),
        },
{
    let script = match hex_decode(f.script_hex.as_str()) {
        Ok(b) => b,
        Err(e) => {
            return Err(text("bad script hex: ").concat(e.as_str()));
        },
    };
    // The 10,000-byte cap is a legacy/v0 rule: tapscript has no script
    // size limit (BIP342), only the block weight bound. Experimental
    // mode lifts it everywhere.
    let size_capped = (f.sigversion == SigVersion::Legacy || f.sigversion == SigVersion::WitnessV0)
        && !flag_set(flags, EXPERIMENTAL);
    if size_capped && script.len() > MAX_SCRIPT_SIZE {
        return Err(
            text("script ").concat(f.label.as_str()).concat(" is ").concat(
                dec_usize(script.len()).as_str(),
            ).concat(" bytes, over the ").concat(dec_usize(MAX_SCRIPT_SIZE).as_str()).concat(
                " byte limit",
            ),
        );
    }
    let (ins, decode_error) = decode_script(script.as_slice());
    let leaf_hash: Option<[u8; 32]> = match &f.leaf_hash {
        Some(h) => {
            let raw = match hex_decode(h.as_str()) {
                Ok(b) => b,
                Err(e) => {
                    return Err(text("bad leaf hash: ").concat(e.as_str()));
                },
            };
            if raw.len() != 32 {
                return Err(text("leaf hash must be 32 bytes"));
            }
            Some(to_array(&raw))
        },
        None => None,
    };
    let c = CompiledFrame {
        label: f.label.clone(),
        script,
        ins,
        decode_error,
        sigversion: f.sigversion,
        enter: f.enter.clone(),
        leaf_hash,
        key_path: f.key_path,
    };
    assert(c@ =~= compiled_frame(f@, flags)->Ok_0);
    Ok(c)
}

proof fn lemma_first_bad_frame(frames: Seq<FrameModel>, flags: u32, i: int)
    requires
        0 <= i <= frames.len(),
        compiled_frames(frames.take(i), flags) is Err,
    ensures
        compiled_frames(frames, flags) == compiled_frames(frames.take(i), flags),
    decreases frames.len() - i,
{
    if i < frames.len() {
        assert(frames.take(i + 1).drop_last() =~= frames.take(i));
        lemma_first_bad_frame(frames, flags, i + 1);
    } else {
        assert(frames.take(i) =~= frames);
    }
}

fn compile_frames(frames: &[Frame], flags: u32) -> (r: Result<Vec<CompiledFrame>, String>)
    ensures
        match r {
            Ok(v) => {
                &&& compiled_frames(frame_models(frames@), flags) == Ok::<
                    Seq<CodeModel>,
                    Seq<char>,
                >(code_models(v@))
                &&& forall|i: int| 0 <= i < v@.len() ==> (#[trigger] v@[i]).wf()
            },
            Err(e) => compiled_frames(frame_models(frames@), flags) == Err::<
                Seq<CodeModel>,
                Seq<char>,
            >(e@),
        },
{
    let ghost all = frame_models(frames@);
    let mut out: Vec<CompiledFrame> = Vec::new();
    let mut i: usize = 0;
    assert(code_models(out@) =~= Seq::empty());
    assert(all.take(0) =~= Seq::empty());
    while i < frames.len()
        invariant
            i <= frames@.len(),
            all == frame_models(frames@),
            compiled_frames(all.take(i as int), flags) == Ok::<Seq<CodeModel>, Seq<char>>(
                code_models(out@),
            ),
            forall|k: int| 0 <= k < out@.len() ==> (#[trigger] out@[k]).wf(),
        decreases frames@.len() - i,
    {
        proof {
            assert(all.take(i + 1).drop_last() =~= all.take(i as int));
            assert(all.take(i + 1).last() == frames@[i as int]@);
        }
        match compile_frame(&frames[i], flags) {
            Ok(c) => {
                let ghost before = out@;
                out.push(c);
                assert(code_models(out@) =~= code_models(before).push(c@));
            },
            Err(e) => {
                proof {
                    lemma_first_bad_frame(all, flags, i + 1);
                }
                return Err(e);
            },
        }
        i = i + 1;
    }
    assert(all.take(all.len() as int) =~= all);
    Ok(out)
}

impl Machine {
    /// The machine can run: every frame holds the instructions of its script,
    /// and the state can be reached.
    pub closed spec fn wf(&self) -> bool {
        &&& self@.wf()
        &&& forall|i: int| 0 <= i < self.frames@.len() ==> (#[trigger] self.frames@[i]).wf()
    }

    pub fn new(
        frames: &[Frame],
        initial_stack: Vec<Vec<u8>>,
        flags: u32,
        ctx: Option<SigContext>,
        assume_valid_sigs: bool,
        witness_size: usize,
        annex: Option<Vec<u8>>,
    ) -> (r: Result<Machine, String>)
        requires
            ctx matches Some(c) ==> c.input_index < c@.tx().inputs.len(),
            witness_size <= i64::MAX - 50,
        ensures
            match r {
                Ok(m) => {
                    &&& m.wf()
                    &&& compiled(frame_models(frames@), flags) == Ok::<Seq<CodeModel>, Seq<char>>(
                        m@.env.frames,
                    )
                    &&& m@ == MachineModel {
                        env: EnvModel {
                            frames: m@.env.frames,
                            flags,
                            ctx: opt_context(ctx),
                            assume_valid_sigs,
                            annex: opt_vec(annex),
                        },
                        vm: initial_vm(byte_strings(initial_stack@), witness_size as int),
                        history: Seq::empty(),
                        records: Seq::empty(),
                    }
                },
                Err(e) => compiled(frame_models(frames@), flags) == Err::<
                    Seq<CodeModel>,
                    Seq<char>,
                >(e@),
            },
    {
        let compiled_code = match compile_frames(frames, flags) {
            Ok(v) => v,
            Err(e) => {
                return Err(e);
            },
        };
        if compiled_code.len() == 0 {
            assert(code_models(compiled_code@) =~= Seq::empty());
            return Err(text("nothing to execute"));
        }
        let vm = Vm {
            frame_idx: 0,
            ip: 0,
            stack: Stack::from_items(initial_stack),
            altstack: Stack::new(),
            cond: Vec::new(),
            op_count: 0,
            begin_codehash: 0,
            codesep_pos: 0xffff_ffff,
            finished: false,
            error: None,
            entered: false,
            saved_sigstack: Stack::new(),
            budget: 50 + witness_size as i64,
            step_n: 0,
        };
        assert(vm@ =~= initial_vm(byte_strings(initial_stack@), witness_size as int));
        let m = Machine {
            frames: compiled_code,
            vm,
            history: Vec::new(),
            flags,
            ctx,
            assume_valid_sigs,
            annex,
            records: Vec::new(),
        };
        assert(m@.history =~= Seq::empty());
        assert(m@.records =~= Seq::empty());
        Ok(m)
    }

    /// What a machine that can run knows of its state.
    pub proof fn lemma_model_wf(&self)
        requires
            self.wf(),
        ensures
            self@.wf(),
    {
    }

    /// All step records so far.
    pub fn step_records(&self) -> (r: &Vec<StepRecord>)
        ensures
            record_models(r@) == self@.records,
    {
        &self.records
    }

    /// Undo the last step that was remembered.
    pub fn rewind(&mut self) -> (r: Result<(), String>)
        requires
            old(self).wf(),
        ensures
            final(self).wf(),
            match r {
                Ok(_) => old(self)@.rewound() == Ok::<MachineModel, Seq<char>>(final(self)@),
                Err(e) => {
                    &&& old(self)@.rewound() == Err::<MachineModel, Seq<char>>(e@)
                    &&& final(self)@ == old(self)@
                },
            },
    {
        let ghost before = self@;
        let snap = match self.history.pop() {
            Some(s) => s,
            None => {
                return Err(text("at the beginning; nothing to rewind"));
            },
        };
        self.vm = snap;
        let _ = self.records.pop();
        proof {
            assert(self@.history =~= before.history.drop_last());
            assert(before.history.last() == snap@);
            assert(self@.records =~= if before.records.len() == 0 {
                before.records
            } else {
                before.records.drop_last()
            });
            assert(self@ =~= before.rewound()->Ok_0);
            assert forall|i: int| 0 <= i < self@.history.len() implies self@.env.admits(
                #[trigger] self@.history[i],
            ) && !self@.history[i].finished by {
                assert(self@.history[i] == before.history[i]);
            }
        }
        Ok(())
    }

    pub fn state(&self) -> (r: MachineState)
        requires
            self.wf(),
        ensures
            r@ == self@.state(),
    {
        let frame = &self.frames[self.vm.frame_idx];
        assert(self@.env.frames[self@.vm.frame_idx] == frame@);
        let r = MachineState {
            frame_idx: self.vm.frame_idx,
            frame_label: frame.label.clone(),
            sigversion: frame.sigversion,
            ip: self.vm.ip,
            stack: hexv(self.vm.stack.as_items().as_slice()),
            altstack: hexv(self.vm.altstack.as_items().as_slice()),
            cond: copy_bools(&self.vm.cond),
            op_count: self.vm.op_count,
            finished: self.vm.finished,
            error: copy_text(&self.vm.error),
            success: self.vm.finished && self.vm.error.is_none(),
            step_n: self.vm.step_n,
            can_rewind: self.history.len() > 0,
            budget: self.vm.budget,
        };
        assert(r@ =~= self@.state());
        r
    }

    /// Take one step without remembering it.
    fn advance_vm(&mut self) -> (rec: StepRecord)
        requires
            old(self).wf(),
            !old(self)@.vm.finished,
            old(self)@.vm.step_n < usize::MAX,
        ensures
            final(self).wf(),
            final(self)@ == (MachineModel {
                vm: one_step(old(self)@.env, old(self)@.vm).vm,
                ..old(self)@
            }),
            rec@ == one_step(old(self)@.env, old(self)@.vm).rec,
            final(self).history == old(self).history,
            final(self).records == old(self).records,
    {
        proof {
            law_steps_keep_the_invariant(self@.env, self@.vm);
        }
        let env = Env {
            frames: &self.frames,
            flags: self.flags,
            ctx: &self.ctx,
            assume_valid_sigs: self.assume_valid_sigs,
            annex: &self.annex,
        };
        advance(&env, &mut self.vm)
    }

    /// Advance one step. Returns the record describing what happened.
    pub fn step(&mut self) -> (rec: StepRecord)
        requires
            old(self).wf(),
            old(self)@.vm.finished || old(self)@.vm.step_n < usize::MAX,
        ensures
            final(self).wf(),
            final(self)@ == old(self)@.stepped(),
            rec@ == old(self)@.step_record(),
    {
        if self.vm.finished {
            let mut r = StepRecord::new(
                self.vm.step_n,
                self.vm.frame_idx,
                "",
                0,
                text("(done)"),
            );
            r.error = Some(
                match &self.vm.error {
                    Some(e) => e.clone(),
                    None => text("execution already finished"),
                },
            );
            proof {
                reveal_strlit("");
                assert(""@ =~= Seq::empty());
                assert(r@ =~= self@.step_record());
            }
            return r;
        }
        let ghost before = self@;
        let snap = self.vm.snapshot();
        let rec = self.advance_vm();
        self.history.push(snap);
        self.records.push(rec.clone());
        proof {
            assert(self@.history =~= before.history.push(before.vm));
            assert(self@.records =~= before.records.push(rec@));
            assert(self@ =~= before.stepped());
        }
        rec
    }

    /// Drive execution to the end without recording history or step records,
    /// so batch validation does not pay the per-step snapshot cost. Steps
    /// taken here cannot be rewound. Returns whether execution finished
    /// within `max_steps`.
    pub fn run_to_completion(&mut self, max_steps: usize) -> (r: bool)
        requires
            old(self).wf(),
            old(self)@.can_count(max_steps as int),
        ensures
            final(self).wf(),
            final(self)@ == (MachineModel {
                vm: ran(old(self)@.env, old(self)@.vm, max_steps as nat),
                ..old(self)@
            }),
            r == final(self)@.vm.finished,
    {
        let ghost before = self@;
        let mut left: usize = max_steps;
        while left > 0 && !self.vm.finished
            invariant
                self.wf(),
                self@ == (MachineModel { vm: self@.vm, ..before }),
                ran(before.env, self@.vm, left as nat) == ran(
                    before.env,
                    before.vm,
                    max_steps as nat,
                ),
                self@.can_count(left as int),
            decreases left,
        {
            proof {
                law_steps_keep_the_invariant(self@.env, self@.vm);
                law_steps_use_up_work(self@.env, self@.vm);
            }
            let _ = self.advance_vm();
            left = left - 1;
        }
        self.vm.finished
    }
}

/// Convenience for the "just run a script" mode: no tx, no spend resolution.
pub fn single_frame(script: &[u8], label: &str, sigversion: SigVersion) -> (r: Frame)
    ensures
        r@ == script_frame(label@, script@, sigversion, EnterModel::Keep),
{
    new_frame(label, script, sigversion, EnterAction::Keep)
}

} // verus!
