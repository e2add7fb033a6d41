//! What a step of the machine is for: which instruction runs, when a script has
//! ended, and what the end of the last one means.

use crate::assembly::InsModel;
use crate::checks::script_code_of;
use crate::hexcodec::hex_parsed;
use crate::interp::{
    compiled, compiled_frame, compiled_frames, counted, initial_vm, ins_record, one_step,
    parsed_items, MachineModel,
};
use crate::laws::{at_instruction, law_stack_items_roundtrip};
use crate::num::truthy;
use crate::oplaws::{law_execution_follows_the_branches, lemma_runs_is_executed, live, Site};
use crate::opnames::{disabled_opcode, success_opcode};
use crate::sig::{schnorr_checked, ModeModel};
use crate::spend::{EnterModel, FrameModel, SigVersion};
use crate::text::hex_text;
use crate::vm::{CodeModel, EnvModel, VmModel};
use vstd::prelude::*;

verus! {

/// The opcodes that BIP342 reserves are the disabled ones, the reserved ones
/// that are not always invalid, and those without a meaning but the last.
pub proof fn law_success_opcodes(op: u8)
    ensures
        success_opcode(op) <==> disabled_opcode(op) || op == 0x50 || op == 0x62 || op == 0x89 || op
            == 0x8a || 0xbb <= op < 0xff,
        disabled_opcode(op) <==> op == 0x7e || op == 0x7f || op == 0x80 || op == 0x81 || op == 0x83
            || op == 0x84 || op == 0x85 || op == 0x86 || op == 0x8d || op == 0x8e || op == 0x95
            || op == 0x96 || op == 0x97 || op == 0x98 || op == 0x99,
{
}

/// What the flags switch on.
pub proof fn law_modes(env: EnvModel)
    ensures
        env.experimental() <==> env.flags & 0x8000 != 0,
        env.minimal() <==> env.flags & 0x40 != 0,
{
}

/// The machine stands before an instruction that is neither an `OP_SUCCESSx` in
/// tapscript nor switched off.
pub open spec fn at_live_instruction(env: EnvModel, vm: VmModel) -> bool {
    let code = env.frames[vm.frame_idx];
    let op = code.ins()[vm.ip].opcode;
    &&& at_instruction(env, vm)
    &&& !(code.sigversion == SigVersion::Tapscript && success_opcode(op))
    &&& !disabled_opcode(op) || env.flags & 0x8000 != 0
}

/// A step executes the instruction that it stands before, and moves one
/// instruction on. Outside tapscript and sandbox mode every opcode above 0x60
/// counts, executed or not, and the 202nd of a script ends the run. In a branch
/// that is switched off nothing is executed but what opens, turns and closes
/// branches. Otherwise the opcode does its work; its error, or more than 1000
/// elements on the two stacks outside sandbox mode, ends the run.
pub proof fn law_steps_execute(env: EnvModel, vm: VmModel)
    requires
        at_live_instruction(env, vm),
    ensures
        ({
            let code = env.frames[vm.frame_idx];
            let ins = code.ins()[vm.ip];
            let op = ins.opcode;
            let sandbox = env.flags & 0x8000 != 0;
            let counts = code.sigversion != SigVersion::Tapscript && !sandbox && op > 0x60;
            let v = VmModel {
                ip: vm.ip + 1,
                step_n: vm.step_n + 1,
                op_count: vm.op_count + (if counts {
                    1int
                } else {
                    0
                }),
                ..vm
            };
            let rec = ins_record(vm.step_n + 1, vm.frame_idx, code.label, ins);
            let at = Site { env, vm: v, rec, frame: vm.frame_idx, ins };
            let d = at.runs(op, vm.stack);
            let s = one_step(env, vm);
            let branching = op == 0x63 || op == 0x64 || op == 0x67 || op == 0x68;
            let deep = !sandbox && d.vm.stack.len() + d.vm.altstack.len() > 1000;
            if counts && vm.op_count >= 201 {
                &&& s.vm.finished && s.vm.error is Some
                &&& s.vm.stack == vm.stack
            } else if !live(vm.cond) && !branching {
                &&& s.vm == v
                &&& s.rec.skipped && s.rec.error is None && s.rec.sigs.len() == 0
            } else if d.err is Some {
                &&& s.vm.finished && s.vm.error == d.err
                &&& s.rec.error == d.err && s.rec.sigs == d.rec.sigs
            } else if deep {
                s.vm.finished && s.vm.error is Some
            } else {
                &&& s.vm == d.vm && !s.vm.finished
                &&& s.rec == d.rec && !s.rec.skipped
            }
        }),
{
    let code = env.frames[vm.frame_idx];
    let ins = code.ins()[vm.ip];
    let op = ins.opcode;
    let counts = code.sigversion != SigVersion::Tapscript && env.flags & 0x8000 == 0 && op > 0x60;
    let v = VmModel {
        ip: vm.ip + 1,
        step_n: vm.step_n + 1,
        op_count: vm.op_count + (if counts {
            1int
        } else {
            0
        }),
        ..vm
    };
    let rec = ins_record(vm.step_n + 1, vm.frame_idx, code.label, ins);
    let at = Site { env, vm: v, rec, frame: vm.frame_idx, ins };
    lemma_runs_is_executed(at, op, vm.stack);
    assert(InsModel { opcode: op, ..ins } =~= ins);
    assert(v.with_stack(vm.stack) =~= v);
    law_execution_follows_the_branches(v);
    if v.op_count <= 201 {
        crate::interp::lemma_executed_stands(env, v, rec, vm.frame_idx, ins);
        crate::laws::law_execution_extends_the_record(env, v, rec, vm.frame_idx, ins);
    }
}

/// A truncated push ends the run with what is wrong with it.
pub proof fn law_truncated_pushes_end_the_run(env: EnvModel, vm: VmModel)
    requires
        env.wf(),
        env.admits(vm),
        !vm.finished,
        vm.entered,
        !env.frames[vm.frame_idx].key_path,
        vm.ip < env.frames[vm.frame_idx].ins().len(),
        env.frames[vm.frame_idx].ins()[vm.ip].error is Some,
    ensures
        one_step(env, vm).vm.finished,
        one_step(env, vm).vm.error == env.frames[vm.frame_idx].ins()[vm.ip].error,
        one_step(env, vm).vm.stack == vm.stack,
{
}

/// The record of an instruction tells its place, its text and its data.
pub proof fn law_records_show_the_instruction(env: EnvModel, vm: VmModel)
    requires
        at_live_instruction(env, vm),
    ensures
        ({
            let ins = env.frames[vm.frame_idx].ins()[vm.ip];
            let r = one_step(env, vm).rec;
            &&& r.offset == ins.offset
            &&& r.op == ins.text
            &&& ins.data is None ==> r.data is None
            &&& ins.data matches Some(d) ==> r.data == Some(hex_text(d))
            &&& !r.transition
        }),
{
    let code = env.frames[vm.frame_idx];
    let ins = code.ins()[vm.ip];
    let v1 = VmModel { ip: vm.ip + 1, step_n: vm.step_n + 1, ..vm };
    let rec = ins_record(vm.step_n + 1, vm.frame_idx, code.label, ins);
    let v2 = VmModel { op_count: v1.op_count + 1, ..v1 };
    crate::laws::law_execution_extends_the_record(env, v1, rec, vm.frame_idx, ins);
    crate::laws::law_execution_extends_the_record(env, v2, rec, vm.frame_idx, ins);
}

/// The machine stands at the end of a script.
pub open spec fn at_end(env: EnvModel, vm: VmModel) -> bool {
    &&& env.wf()
    &&& env.admits(vm)
    &&& !vm.finished
    &&& vm.entered
    &&& !env.frames[vm.frame_idx].key_path
    &&& vm.ip >= env.frames[vm.frame_idx].ins().len()
}

/// The end of the last script ends the run. It is a success exactly if no
/// branch is open and the top element is there and true, and if nothing else is
/// on the stack where that is asked: always in a witness script, and under
/// CLEANSTACK in a legacy one.
pub proof fn law_end_of_the_last_script(env: EnvModel, vm: VmModel)
    requires
        at_end(env, vm),
        vm.frame_idx == env.frames.len() - 1,
    ensures
        ({
            let s = one_step(env, vm);
            let legacy = env.frames[vm.frame_idx].sigversion == SigVersion::Legacy;
            &&& s.vm.finished
            &&& s.vm.stack == vm.stack
            &&& s.vm.error is None <==> {
                &&& vm.cond.len() == 0
                &&& vm.stack.len() >= 1
                &&& truthy(vm.stack[vm.stack.len() - 1])
                &&& vm.stack.len() == 1 || (legacy && env.flags & 0x100 == 0)
            }
        }),
{
}

/// The end of another script moves on to the next one, with the stack as it is,
/// exactly if no branch is open and, but for the scriptSig, the top element is
/// there and true. Otherwise the run ends with an error. The stack that the
/// scriptSig leaves is kept.
pub proof fn law_end_of_another_script(env: EnvModel, vm: VmModel)
    requires
        at_end(env, vm),
        vm.frame_idx < env.frames.len() - 1,
    ensures
        ({
            let s = one_step(env, vm);
            let own = env.frames[vm.frame_idx].label == "scriptSig"@;
            let goes_on = vm.cond.len() == 0 && (own || vm.stack.len() >= 1 && truthy(
                vm.stack[vm.stack.len() - 1],
            ));
            &&& s.vm.stack == vm.stack
            &&& s.vm.altstack == vm.altstack
            &&& goes_on ==> {
                &&& !s.vm.finished && s.vm.error is None
                &&& s.vm.frame_idx == vm.frame_idx + 1
                &&& s.vm.ip == 0 && !s.vm.entered && s.vm.op_count == 0
                &&& own ==> s.vm.saved_sigstack == vm.stack
                &&& !own ==> s.vm.saved_sigstack == vm.saved_sigstack
            }
            &&& !goes_on ==> s.vm.finished && s.vm.error is Some
        }),
{
}

/// Entering a script is a step of its own. The script starts on the stack as it
/// is, on what the scriptSig left without its last element, or on the bytes of
/// the witness items, and with its scriptCode at its first instruction. It
/// cannot start where there is no redeem script or an item is no hex.
pub proof fn law_entering_a_script(env: EnvModel, vm: VmModel)
    requires
        env.wf(),
        env.admits(vm),
        !vm.finished,
        !vm.entered,
    ensures
        ({
            let s = one_step(env, vm);
            let stack = match env.frames[vm.frame_idx].enter {
                EnterModel::Keep => Some(vm.stack),
                EnterModel::PopRedeem => if vm.saved_sigstack.len() > 0 {
                    Some(vm.saved_sigstack.take(vm.saved_sigstack.len() - 1))
                } else {
                    None
                },
                EnterModel::ResetStack(items) => match parsed_items(items) {
                    Ok(st) => Some(st),
                    Err(_) => None,
                },
            };
            &&& s.rec.transition
            &&& s.vm.entered
            &&& s.vm.frame_idx == vm.frame_idx && s.vm.ip == vm.ip
            &&& stack is None ==> s.vm.finished && s.vm.error is Some
            &&& stack matches Some(st) ==> {
                &&& !s.vm.finished && s.vm.error is None
                &&& s.vm.stack == st
                &&& s.vm.begin_codehash == 0 && s.vm.codesep_pos == vm.codesep_pos
                &&& s.vm.cond == vm.cond && s.vm.altstack == vm.altstack
                &&& s.vm.op_count == vm.op_count && s.vm.budget == vm.budget
            }
        }),
{
    if vm.saved_sigstack.len() > 0 {
        assert(vm.saved_sigstack.drop_last() =~= vm.saved_sigstack.take(
            vm.saved_sigstack.len() - 1,
        ));
    }
}

/// A key-path spend that comes last succeeds exactly if the Schnorr check of the
/// top witness element against the program of the spent output passes. Where no
/// transaction is loaded, or the spent output is no such program, it succeeds
/// exactly if signatures are assumed valid. The outcome of the check is
/// recorded.
pub proof fn law_key_path_checks(env: EnvModel, vm: VmModel)
    requires
        env.wf(),
        env.admits(vm),
        !vm.finished,
        vm.entered,
        env.frames[vm.frame_idx].key_path,
        vm.frame_idx == env.frames.len() - 1,
        vm.cond.len() == 0,
    ensures
        ({
            let s = one_step(env, vm);
            let c = env.ctx->0;
            let known = env.ctx is Some && c.index < c.prevouts.len()
                && c.prevouts[c.index].script_pubkey.len() == 34;
            let outcome = schnorr_checked(
                c,
                vm.stack[vm.stack.len() - 1],
                c.prevouts[c.index].script_pubkey.skip(2),
                ModeModel::TaprootKeyPath { annex: env.annex },
            );
            &&& s.vm.finished
            &&& vm.stack.len() == 0 ==> s.vm.error is Some
            &&& vm.stack.len() > 0 && known ==> {
                &&& s.vm.error is None <==> outcome.valid
                &&& s.rec.sigs == seq![outcome]
            }
            &&& vm.stack.len() > 0 && !known ==> {
                &&& s.vm.error is None <==> env.assume_valid_sigs
                &&& s.rec.sigs.len() == 0
            }
        }),
{
    let top = crate::stack::bool_item(true);
    assert(top[0] == 1);
    assert(crate::interp::true_stack().last() == top);
    assert(truthy(top));
    if vm.stack.len() > 0 && one_step(env, vm).rec.sigs.len() > 0 {
        assert(one_step(env, vm).rec.sigs =~= seq![one_step(env, vm).rec.sigs[0]]);
    }
}

/// What a debugger shows of the stacks reads back as the stacks.
pub proof fn law_shown_stacks_read_back(m: MachineModel)
    ensures
        parsed_items(m.state().stack) == Ok::<Seq<Seq<u8>>, Seq<char>>(m.vm.stack),
        parsed_items(m.state().altstack) == Ok::<Seq<Seq<u8>>, Seq<char>>(m.vm.altstack),
        m.state().success <==> m.vm.finished && m.vm.error is None,
        m.state().can_rewind <==> m.history.len() > 0,
        m.state().ip == m.vm.ip && m.state().frame_idx == m.vm.frame_idx,
        m.state().step_n == m.vm.step_n && m.state().op_count == m.vm.op_count,
        m.state().cond == m.vm.cond && m.state().budget == m.vm.budget,
        m.state().finished == m.vm.finished && m.state().error == m.vm.error,
        m.state().sigversion == m.env.frames[m.vm.frame_idx].sigversion,
        m.state().frame_label == m.env.frames[m.vm.frame_idx].label,
{
    law_stack_items_roundtrip(m.vm.stack);
    law_stack_items_roundtrip(m.vm.altstack);
}

/// Every step that is taken is remembered with its record.
pub proof fn law_steps_are_recorded(m: MachineModel)
    requires
        !m.vm.finished,
    ensures
        m.stepped().records == m.records.push(m.step_record()),
        m.stepped().history == m.history.push(m.vm),
        m.stepped().env == m.env,
        m.step_record() == one_step(m.env, m.vm).rec,
        m.stepped().vm == one_step(m.env, m.vm).vm,
{
}

/// A compiled frame keeps what the frame says, with its script and leaf hash as
/// bytes.
pub open spec fn compiles_to(f: FrameModel, c: CodeModel) -> bool {
    &&& hex_parsed(f.script_hex) == Ok::<Seq<u8>, Seq<char>>(c.script)
    &&& c.label == f.label
    &&& c.sigversion == f.sigversion
    &&& c.enter == f.enter
    &&& c.key_path == f.key_path
    &&& match f.leaf_hash {
        None => c.leaf_hash is None,
        Some(h) => c.leaf_hash is Some && c.leaf_hash->0.len() == 32 && hex_parsed(h) == Ok::<
            Seq<u8>,
            Seq<char>,
        >(c.leaf_hash->0),
    }
}

/// The frames of a session compile one by one, in their order; there is at
/// least one.
pub proof fn law_frames_compile_in_order(frames: Seq<FrameModel>, flags: u32)
    ensures
        compiled(frames, flags) matches Ok(codes) ==> {
            &&& codes.len() == frames.len() > 0
            &&& forall|k: int|
                0 <= k < codes.len() ==> compiles_to(frames[k], #[trigger] codes[k])
        },
        frames.len() == 0 ==> compiled(frames, flags) is Err,
{
    lemma_frames_compile(frames, flags);
}

proof fn lemma_frames_compile(frames: Seq<FrameModel>, flags: u32)
    ensures
        compiled_frames(frames, flags) matches Ok(codes) ==> {
            &&& codes.len() == frames.len()
            &&& forall|k: int|
                0 <= k < codes.len() ==> compiles_to(frames[k], #[trigger] codes[k])
        },
    decreases frames.len(),
{
    if frames.len() > 0 {
        lemma_frames_compile(frames.drop_last(), flags);
        if compiled_frames(frames, flags) is Ok {
            let head = compiled_frames(frames.drop_last(), flags)->Ok_0;
            let codes = compiled_frames(frames, flags)->Ok_0;
            assert forall|k: int| 0 <= k < codes.len() implies compiles_to(
                frames[k],
                #[trigger] codes[k],
            ) by {
                if k < head.len() {
                    assert(codes[k] == head[k]);
                    assert(frames[k] == frames.drop_last()[k]);
                }
            }
        }
    }
}

/// A session starts before its first script, on the given stack, with nothing
/// done and 50 units of budget more than the witness weighs.
pub proof fn law_initial_state(stack: Seq<Seq<u8>>, size: int)
    ensures
        ({
            let vm = initial_vm(stack, size);
            &&& vm.stack == stack
            &&& vm.frame_idx == 0 && vm.ip == 0 && !vm.entered
            &&& !vm.finished && vm.error is None
            &&& vm.altstack.len() == 0 && vm.cond.len() == 0 && vm.saved_sigstack.len() == 0
            &&& vm.op_count == 0 && vm.step_n == 0
            &&& vm.budget - size == 50
            &&& vm.begin_codehash == 0 && vm.codesep_pos == u32::MAX
        }),
{
}

/// A legacy scriptCode is the bytes of the instructions from where it begins,
/// one after the other, without those of `OP_CODESEPARATOR`.
pub proof fn law_legacy_script_code(code: CodeModel, begin: int)
    requires
        code.sigversion == SigVersion::Legacy,
        0 <= begin < code.ins().len(),
        code.ins()[begin].error is None,
    ensures
        ({
            let i = code.ins()[begin];
            let rest = script_code_of(code, begin + 1);
            &&& i.opcode == 0xab ==> script_code_of(code, begin) == rest
            &&& i.opcode != 0xab ==> script_code_of(code, begin) == code.script.subrange(
                i.offset,
                i.offset + i.len,
            ) + rest
        }),
        script_code_of(code, code.ins().len() as int).len() == 0,
{
}

/// A frame compiles exactly if its script is hex and, in legacy and version 0
/// scripts outside sandbox mode, at most 10,000 bytes long, and if its leaf
/// hash, where it has one, is hex for 32 bytes.
pub proof fn law_frames_that_compile(f: FrameModel, flags: u32)
    ensures
        compiled_frame(f, flags) is Ok <==> {
            &&& hex_parsed(f.script_hex) is Ok
            &&& f.sigversion == SigVersion::Legacy || f.sigversion == SigVersion::WitnessV0
                ==> flags & 0x8000 != 0 || hex_parsed(f.script_hex)->Ok_0.len() <= 10_000
            &&& f.leaf_hash matches Some(h) ==> hex_parsed(h) is Ok && hex_parsed(h)->Ok_0.len()
                == 32
        },
        compiled_frame(f, flags) matches Ok(c) ==> compiles_to(f, c),
{
}

/// A step ends the run with an error exactly if its record has one, and the
/// error is the same.
pub proof fn law_errors_end_the_run(env: EnvModel, vm: VmModel)
    requires
        env.wf(),
        env.admits(vm),
        !vm.finished,
    ensures
        one_step(env, vm).vm.error == one_step(env, vm).rec.error,
        one_step(env, vm).rec.error is Some ==> one_step(env, vm).vm.finished,
{
    let code = env.frames[vm.frame_idx];
    if vm.entered && !code.key_path && vm.ip < code.ins().len() {
        let ins = code.ins()[vm.ip];
        let v1 = VmModel { ip: vm.ip + 1, step_n: vm.step_n + 1, ..vm };
        let rec = ins_record(vm.step_n + 1, vm.frame_idx, code.label, ins);
        let v2 = if counted(env, code, ins.opcode) {
            VmModel { op_count: v1.op_count + 1, ..v1 }
        } else {
            v1
        };
        if v2.op_count <= 201 {
            crate::interp::lemma_executed_stands(env, v2, rec, v2.frame_idx, ins);
        }
    }
}

/// A machine that has finished answers further steps with the error that ended
/// it, if there was one, and stays as it is.
pub proof fn law_steps_after_the_end(m: MachineModel)
    requires
        m.vm.finished,
    ensures
        m.stepped() == m,
        m.step_record().error is Some,
        m.vm.error is Some ==> m.step_record().error == m.vm.error,
        m.step_record().n == m.vm.step_n,
        m.step_record().sigs.len() == 0 && m.step_record().notes.len() == 0,
{
}

} // verus!
