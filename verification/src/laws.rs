//! What holds of the machine as a whole.

use crate::assembly::{
    instructions, law_instructions_cover_the_script, law_numbers_assemble_to_minimal_pushes,
    lemma_instruction_at, lemma_instructions_inside, number_push, InsModel,
};
use crate::checks::{
    assumed_outcome, attempt, code_from, ecdsa_in_script, ins_bytes, schnorr_in_script,
    script_code_of, Done,
};
use crate::exec::{cond_op, executed, push_run};
use crate::hexcodec::{hex_parsed, law_hex_roundtrip};
use crate::interp::{
    after_execution, compiled_frame, counted, ended, enter_action, ins_record,
    law_steps_keep_the_invariant, lemma_executed_stands, one_step, parsed_items, ran, true_stack,
    MachineModel,
};
use crate::multisig::{taken_args, unmatched, walk, MatchModel};
use crate::num::{law_encoded_size, pow256, script_num, truthy};
use crate::opnames::{disabled_opcode, opcode_name, success_opcode};
use crate::ops::done;
use crate::spend::{hex_texts, EnterModel, FrameModel, SigVersion};
use crate::stack::{bool_item, popped, popped_number};
use crate::text::hex_text;
use crate::vm::{
    has_flag, CodeModel, EnvModel, RecordModel, VmModel, EXPERIMENTAL, MAX_OPS_PER_SCRIPT,
    MAX_SCRIPT_ELEMENT_SIZE, MAX_SCRIPT_SIZE, MAX_STACK_SIZE, VALIDATION_WEIGHT_PER_SIGOP_PASSED,
    VERIFY_CLEANSTACK,
};
use vstd::prelude::*;

verus! {

/// Undoing a step gives back the session as it was, exactly.
pub proof fn law_rewind_undoes_a_step(m: MachineModel)
    requires
        !m.vm.finished,
    ensures
        m.stepped().rewound() == Ok::<MachineModel, Seq<char>>(m),
{
    let s = m.stepped();
    assert(s.history.drop_last() =~= m.history);
    assert(s.records.drop_last() =~= m.records);
}

/// The session after `n` steps.
pub open spec fn steps(m: MachineModel, n: nat) -> MachineModel
    decreases n,
{
    if n == 0 {
        m
    } else {
        steps(m, (n - 1) as nat).stepped()
    }
}

/// The session after `n` steps are undone.
pub open spec fn rewinds(m: MachineModel, n: nat) -> Result<MachineModel, Seq<char>>
    decreases n,
{
    if n == 0 {
        Ok(m)
    } else {
        match m.rewound() {
            Err(e) => Err(e),
            Ok(prev) => rewinds(prev, (n - 1) as nat),
        }
    }
}

/// However many steps are taken, undoing those that were remembered gives back
/// the session as it was, exactly.
pub proof fn law_rewinding_restores_the_session(m: MachineModel, n: nat)
    ensures
        m.history.len() <= steps(m, n).history.len() <= m.history.len() + n,
        rewinds(steps(m, n), (steps(m, n).history.len() - m.history.len()) as nat) == Ok::<
            MachineModel,
            Seq<char>,
        >(m),
    decreases n,
{
    if n > 0 {
        let before = steps(m, (n - 1) as nat);
        law_rewinding_restores_the_session(m, (n - 1) as nat);
        if !before.vm.finished {
            law_rewind_undoes_a_step(before);
        }
    }
}

/// At the beginning there is nothing to rewind.
pub proof fn law_nothing_to_rewind_at_the_start(m: MachineModel)
    requires
        m.history.len() == 0,
    ensures
        m.rewound() is Err,
        !m.state().can_rewind,
{
}

/// Running to completion leaves the state that as many single steps leave.
pub proof fn law_running_is_stepping(m: MachineModel, n: nat)
    ensures
        steps(m, n).env == m.env,
        steps(m, n).vm == ran(m.env, m.vm, n),
    decreases n,
{
    if n > 0 {
        law_running_is_stepping(m, (n - 1) as nat);
        lemma_ran_one_more(m.env, m.vm, (n - 1) as nat);
    }
}

proof fn lemma_ran_one_more(env: EnvModel, vm: VmModel, n: nat)
    ensures
        ran(env, vm, n + 1) == if ran(env, vm, n).finished {
            ran(env, vm, n)
        } else {
            one_step(env, ran(env, vm, n)).vm
        },
    decreases n,
{
    if n > 0 && !vm.finished {
        lemma_ran_one_more(env, one_step(env, vm).vm, (n - 1) as nat);
    } else if n == 0 && !vm.finished {
        assert(ran(env, one_step(env, vm).vm, 0) == one_step(env, vm).vm);
    }
}

/// A machine that has finished stays as it is: a step changes nothing and says
/// so. It reports success exactly if no error ended it.
pub proof fn law_finished_is_final(m: MachineModel)
    requires
        m.vm.finished,
    ensures
        m.stepped() == m,
        m.step_record().error is Some,
        m.state().success == (m.vm.error is None),
{
}

/// The steps that a script can still take, from entering it to its end.
pub open spec fn frame_work(code: CodeModel) -> int {
    2 + code.ins().len() as int
}

/// The steps that the scripts from `i` on can take.
pub open spec fn frames_work(frames: Seq<CodeModel>, i: int) -> int
    decreases frames.len() - i,
{
    if i < 0 || i >= frames.len() {
        0
    } else {
        frame_work(frames[i]) + frames_work(frames, i + 1)
    }
}

/// A bound on the steps that are left.
pub open spec fn work_left(env: EnvModel, vm: VmModel) -> int {
    let code = env.frames[vm.frame_idx];
    let rest = frames_work(env.frames, vm.frame_idx + 1);
    if vm.finished {
        0
    } else if !vm.entered {
        frame_work(code) + rest
    } else if vm.ip < code.ins().len() {
        1 + code.ins().len() - vm.ip + rest
    } else {
        1 + rest
    }
}

proof fn lemma_frames_work(frames: Seq<CodeModel>, i: int)
    ensures
        frames_work(frames, i) >= 0,
    decreases frames.len() - i,
{
    if 0 <= i < frames.len() {
        lemma_frames_work(frames, i + 1);
    }
}

/// Every step of a machine that has not finished brings it closer to its end.
pub proof fn law_steps_use_up_work(env: EnvModel, vm: VmModel)
    requires
        env.wf(),
        env.admits(vm),
        !vm.finished,
    ensures
        0 <= work_left(env, one_step(env, vm).vm) < work_left(env, vm),
{
    law_steps_keep_the_invariant(env, vm);
    let code = env.frames[vm.frame_idx];
    let after = one_step(env, vm).vm;
    lemma_frames_work(env.frames, vm.frame_idx + 1);
    lemma_frames_work(env.frames, vm.frame_idx + 2);
    if !after.finished {
        if vm.entered && !code.key_path && vm.ip < code.ins().len() {
            let ins = code.ins()[vm.ip];
            let v1 = VmModel { ip: vm.ip + 1, step_n: vm.step_n + 1, ..vm };
            let rec = ins_record(vm.step_n + 1, vm.frame_idx, code.label, ins);
            let v2 = if counted(env, code, ins.opcode) {
                VmModel { op_count: v1.op_count + 1, ..v1 }
            } else {
                v1
            };
            if v2.op_count <= MAX_OPS_PER_SCRIPT {
                lemma_executed_stands(env, v2, rec, v2.frame_idx, ins);
            }
        }
    }
}

/// Execution ends: the bound on the steps that are left is enough to finish.
pub proof fn law_execution_ends(env: EnvModel, vm: VmModel, n: nat)
    requires
        env.wf(),
        env.admits(vm),
        work_left(env, vm) <= n,
    ensures
        ran(env, vm, n).finished,
    decreases n,
{
    if !vm.finished {
        law_steps_use_up_work(env, vm);
        law_steps_keep_the_invariant(env, vm);
        law_execution_ends(env, one_step(env, vm).vm, (n - 1) as nat);
    }
}

/// The machine stands before an instruction that is whole.
pub open spec fn at_instruction(env: EnvModel, vm: VmModel) -> bool {
    let code = env.frames[vm.frame_idx];
    &&& env.wf()
    &&& env.admits(vm)
    &&& !vm.finished
    &&& vm.entered
    &&& !code.key_path
    &&& vm.ip < code.ins().len()
    &&& code.ins()[vm.ip].error is None
}

/// The opcode that comes next.
pub open spec fn next_op(env: EnvModel, vm: VmModel) -> u8 {
    env.frames[vm.frame_idx].ins()[vm.ip].opcode
}

/// Outside tapscript and sandbox mode, the opcodes that were switched off in
/// 2010 end the run wherever they stand, in a branch that is not executed too.
pub proof fn law_disabled_ops_fail_everywhere(env: EnvModel, vm: VmModel)
    requires
        at_instruction(env, vm),
        disabled_opcode(next_op(env, vm)),
        !env.frames[vm.frame_idx].tapscript(),
        !env.experimental(),
    ensures
        one_step(env, vm).vm.finished,
        one_step(env, vm).vm.error == Some(opcode_name(next_op(env, vm)) + " is disabled"@),
        one_step(env, vm).vm.stack == vm.stack,
{
}

/// In tapscript an `OP_SUCCESSx` makes the script succeed at once, whatever is
/// on the stack and whatever branch it stands in.
pub proof fn law_op_success_succeeds(env: EnvModel, vm: VmModel)
    requires
        at_instruction(env, vm),
        success_opcode(next_op(env, vm)),
        env.frames[vm.frame_idx].tapscript(),
        vm.frame_idx + 1 == env.frames.len(),
    ensures
        one_step(env, vm).vm.finished,
        one_step(env, vm).vm.error is None,
        one_step(env, vm).vm.stack == true_stack(),
{
    let top = bool_item(true);
    assert(top[0] == 1);
    assert(true_stack().last() == top);
    assert(truthy(top));
}

/// `OP_CHECKMULTISIG` and `OP_CHECKMULTISIGVERIFY` are refused in tapscript.
pub proof fn law_no_multisig_in_tapscript(env: EnvModel, vm: VmModel)
    requires
        at_instruction(env, vm),
        next_op(env, vm) == 0xae || next_op(env, vm) == 0xaf,
        env.frames[vm.frame_idx].tapscript(),
        vm.exec_enabled(),
    ensures
        one_step(env, vm).vm.finished,
        one_step(env, vm).vm.error == Some(
            "OP_CHECKMULTISIG is disabled in tapscript; use OP_CHECKSIGADD"@,
        ),
{
}

/// `OP_CHECKSIGADD` is refused outside tapscript.
pub proof fn law_checksigadd_only_in_tapscript(env: EnvModel, vm: VmModel)
    requires
        at_instruction(env, vm),
        next_op(env, vm) == 0xba,
        !env.frames[vm.frame_idx].tapscript(),
        vm.exec_enabled(),
        env.experimental() || vm.op_count < MAX_OPS_PER_SCRIPT,
    ensures
        one_step(env, vm).vm.finished,
        one_step(env, vm).vm.error == Some("OP_CHECKSIGADD is only valid in tapscript"@),
{
}

/// In a branch that is not executed an instruction that opens or closes no
/// branch touches neither stack: it is skipped, or the run ends.
pub proof fn law_skipped_branches_do_nothing(env: EnvModel, vm: VmModel)
    requires
        at_instruction(env, vm),
        !vm.exec_enabled(),
        !cond_op(next_op(env, vm)),
        !(env.frames[vm.frame_idx].tapscript() && success_opcode(next_op(env, vm))),
    ensures
        one_step(env, vm).vm.stack == vm.stack,
        one_step(env, vm).vm.altstack == vm.altstack,
        one_step(env, vm).vm.cond == vm.cond,
        one_step(env, vm).rec.skipped || one_step(env, vm).vm.finished,
{
}

/// Outside sandbox mode, an instruction that was executed without an error
/// leaves no more elements on the two stacks than the limit.
pub proof fn law_stack_limit(env: EnvModel, d: Done)
    requires
        !env.experimental(),
        after_execution(env, d).rec.error is None,
        d.err is None,
    ensures
        after_execution(env, d).vm.stack.len() + after_execution(env, d).vm.altstack.len()
            <= MAX_STACK_SIZE,
{
}

/// The instruction that a decimal number assembles to puts that number on the
/// stack, under any flags.
pub proof fn law_assembled_numbers_are_pushed(env: EnvModel, v: int, st: Seq<Seq<u8>>)
    requires
        i64::MIN <= v <= i64::MAX,
    ensures
        push_run(env, instructions(number_push(v))[0], st) == done(st.push(script_num(v))),
{
    let p = number_push(v);
    law_numbers_assemble_to_minimal_pushes(v);
    lemma_instruction_at(p, 0);
    law_instructions_cover_the_script(p);
    if -1 <= v <= 16 {
        assert(script_num(0) =~= Seq::empty());
    } else {
        reveal_with_fuel(pow256, 10);
        law_encoded_size(v, 9);
    }
}

/// Outside sandbox mode a push puts at most 520 bytes of script data on the
/// stack, and under MINIMALDATA only data that is pushed minimally.
pub proof fn law_pushes_are_held_to_the_rules(env: EnvModel, ins: InsModel, st: Seq<Seq<u8>>)
    requires
        0x01 <= ins.opcode <= 0x4e,
        push_run(env, ins, st).err is None,
    ensures
        ({
            let after = push_run(env, ins, st).stack;
            &&& after.len() == st.len() + 1
            &&& !env.experimental() ==> after.last().len() <= MAX_SCRIPT_ELEMENT_SIZE
            &&& env.minimal() ==> ins.minimal_push
        }),
{
}

/// Sandbox mode lifts the limits on element and stack size: data of any length
/// is pushed, and an instruction that succeeds is not failed for what it leaves
/// on the stacks.
pub proof fn law_sandbox_lifts_the_size_limits(
    env: EnvModel,
    ins: InsModel,
    st: Seq<Seq<u8>>,
    d: Done,
)
    requires
        env.experimental(),
        0x01 <= ins.opcode <= 0x4e,
        ins.minimal_push || !env.minimal(),
        d.err is None,
    ensures
        push_run(env, ins, st).err is None,
        after_execution(env, d).rec == d.rec,
{
}

/// Sandbox mode counts no ops: no step raises the op count.
pub proof fn law_sandbox_counts_no_ops(env: EnvModel, vm: VmModel)
    requires
        env.wf(),
        env.admits(vm),
        !vm.finished,
        env.experimental(),
    ensures
        one_step(env, vm).vm.op_count <= vm.op_count,
{
    let code = env.frames[vm.frame_idx];
    if at_instruction(env, vm) {
        let ins = code.ins()[vm.ip];
        let v1 = VmModel { ip: vm.ip + 1, step_n: vm.step_n + 1, ..vm };
        let rec = ins_record(vm.step_n + 1, vm.frame_idx, code.label, ins);
        lemma_sandbox_execution(env, v1, rec, v1.frame_idx, ins);
    }
}

proof fn lemma_sandbox_execution(
    env: EnvModel,
    vm: VmModel,
    rec: RecordModel,
    frame: int,
    ins: InsModel,
)
    requires
        env.experimental(),
        vm.budget >= 0,
    ensures
        executed(env, vm, rec, frame, ins).vm.op_count == vm.op_count,
{
    let op = ins.opcode;
    reveal(attempt);
    if op == 0xae || op == 0xaf {
        let (v, args) = taken_args(env, vm);
        if args is Ok {
            let a = args->Ok_0;
            let r1 = if a.dummy.len() > 0 {
                rec.noted("the off-by-one dummy element is non-empty (fine pre-NULLDUMMY)"@)
            } else {
                rec
            };
            crate::interp::lemma_walk_stands(env, v, r1, frame, a.sigs, a.keys, unmatched());
        }
    }
}

/// A check that passes in tapscript, against a key of the known kind and a
/// loaded transaction, costs 50 units of the budget, which covered them; no
/// other check costs anything.
pub proof fn law_passed_checks_cost_budget(
    env: EnvModel,
    vm: VmModel,
    rec: RecordModel,
    frame: int,
    deleted: Seq<Seq<u8>>,
    sig: Seq<u8>,
    pubkey: Seq<u8>,
)
    requires
        vm.budget >= 0,
    ensures
        ({
            let a = attempt(env, vm, rec, frame, deleted, sig, pubkey);
            let paid = env.frames[frame].tapscript() && pubkey.len() == 32 && env.ctx is Some
                && a.ok == Ok::<bool, Seq<char>>(true);
            &&& a.vm.budget >= 0
            &&& paid ==> a.vm.budget == vm.budget - VALIDATION_WEIGHT_PER_SIGOP_PASSED
            &&& !paid ==> a.vm.budget == vm.budget
        }),
{
    reveal(attempt);
}

/// Without a transaction loaded no check passes quietly: it fails, unless
/// signatures are assumed valid, and then the record says that this one was
/// assumed. Keys of unknown kinds in tapscript pass by BIP342, and a note says
/// so.
pub proof fn law_nothing_passes_quietly(
    env: EnvModel,
    vm: VmModel,
    rec: RecordModel,
    frame: int,
    deleted: Seq<Seq<u8>>,
    sig: Seq<u8>,
    pubkey: Seq<u8>,
)
    requires
        env.ctx is None,
        !(env.frames[frame].tapscript() && pubkey.len() != 32),
    ensures
        ({
            let a = attempt(env, vm, rec, frame, deleted, sig, pubkey);
            &&& !env.assume_valid_sigs ==> a.ok is Err
            &&& env.assume_valid_sigs ==> {
                &&& a.rec.sigs == rec.sigs.push(assumed_outcome(sig, pubkey))
                &&& a.rec.sigs.last().assumed
            }
        }),
{
    reveal(attempt);
}

/// Every check that a transaction is loaded for records one outcome, which
/// carries the exact signature and key and says whether the check passed.
pub proof fn law_checks_are_recorded(
    env: EnvModel,
    vm: VmModel,
    rec: RecordModel,
    frame: int,
    deleted: Seq<Seq<u8>>,
    sig: Seq<u8>,
    pubkey: Seq<u8>,
)
    requires
        env.ctx is Some,
        !(env.frames[frame].tapscript() && pubkey.len() != 32),
    ensures
        ({
            let a = attempt(env, vm, rec, frame, deleted, sig, pubkey);
            a.ok matches Ok(ok) ==> {
                &&& a.rec.sigs.len() == rec.sigs.len() + 1
                &&& a.rec.sigs.last().valid == ok
                &&& !a.rec.sigs.last().assumed
                &&& a.rec.sigs.last().signature == hex_text(sig)
                &&& a.rec.sigs.last().pubkey == hex_text(pubkey)
            }
        }),
{
    reveal(attempt);
}

/// The 10,000-byte limit holds for legacy and version 0 scripts, and not for
/// tapscript or in sandbox mode.
pub proof fn law_script_size_limit(f: FrameModel, flags: u32)
    requires
        hex_parsed(f.script_hex) is Ok,
        f.leaf_hash is None,
    ensures
        f.sigversion == SigVersion::Tapscript || has_flag(flags, EXPERIMENTAL) ==> compiled_frame(
            f,
            flags,
        ) is Ok,
        (f.sigversion == SigVersion::Legacy || f.sigversion == SigVersion::WitnessV0) && !has_flag(
            flags,
            EXPERIMENTAL,
        ) ==> (compiled_frame(f, flags) is Ok <==> hex_parsed(f.script_hex)->Ok_0.len()
            <= MAX_SCRIPT_SIZE),
{
}

/// The stack items that a resolved spend hands over as text come back as the
/// bytes they were.
pub proof fn law_stack_items_roundtrip(items: Seq<Seq<u8>>)
    ensures
        parsed_items(hex_texts(items)) == Ok::<Seq<Seq<u8>>, Seq<char>>(items),
    decreases items.len(),
{
    if items.len() > 0 {
        law_stack_items_roundtrip(items.drop_last());
        law_hex_roundtrip(items.last());
        assert(hex_texts(items).drop_last() =~= hex_texts(items.drop_last()));
        assert(items.drop_last().push(items.last()) =~= items);
    } else {
        assert(items =~= Seq::empty());
    }
}

/// Entering a witness script puts exactly the witness arguments on the stack.
pub proof fn law_entering_a_witness_sets_the_stack(vm: VmModel, items: Seq<Seq<u8>>)
    ensures
        enter_action(vm, EnterModel::ResetStack(hex_texts(items))).0 == items,
        enter_action(vm, EnterModel::ResetStack(hex_texts(items))).1 is Ok,
{
    law_stack_items_roundtrip(items);
}

/// The BIP143 scriptCode is everything from the last `OP_CODESEPARATOR` on, and
/// so is the legacy one where no `OP_CODESEPARATOR` follows.
pub proof fn law_script_code_is_the_rest(code: CodeModel, begin: int)
    requires
        0 <= begin < code.ins().len(),
        code.sigversion != SigVersion::Legacy || forall|k: int|
            begin <= k < code.ins().len() ==> (#[trigger] code.ins()[k]).opcode != 0xab,
    ensures
        script_code_of(code, begin) == code.script.skip(code.ins()[begin].offset),
{
    law_instructions_cover_the_script(code.script);
    lemma_instructions_inside(code.script);
    lemma_code_is_the_rest(
        code.script,
        code.ins(),
        begin,
        code.sigversion == SigVersion::Legacy,
    );
}

/// The instructions tile the script up to its end or to a truncated one.
spec fn tiles(script: Seq<u8>, ins: Seq<InsModel>) -> bool {
    &&& forall|k: int|
        0 <= k < ins.len() ==> 0 <= (#[trigger] ins[k]).offset && ins[k].len >= 1
            && ins[k].offset + ins[k].len <= script.len()
    &&& forall|k: int|
        0 <= k < ins.len() - 1 ==> (#[trigger] ins[k]).error is None && ins[k + 1].offset
            == ins[k].offset + ins[k].len
    &&& ins.len() > 0 && ins.last().error is None ==> ins.last().offset + ins.last().len
        == script.len()
}

proof fn lemma_code_is_the_rest(
    script: Seq<u8>,
    ins: Seq<InsModel>,
    begin: int,
    strip: bool,
)
    requires
        0 <= begin < ins.len(),
        tiles(script, ins),
        strip ==> forall|k: int| begin <= k < ins.len() ==> (#[trigger] ins[k]).opcode != 0xab,
    ensures
        code_from(script, ins, begin, strip) == script.skip(ins[begin].offset),
    decreases ins.len() - begin,
{
    let i = ins[begin];
    let rest = code_from(script, ins, begin + 1, strip);
    if begin + 1 < ins.len() {
        lemma_code_is_the_rest(script, ins, begin + 1, strip);
        assert(i.error is None);
        assert(ins[begin + 1].offset == i.offset + i.len);
        assert(ins_bytes(script, i) + rest =~= script.skip(i.offset));
    } else {
        assert(ins.last() == i);
        assert(rest =~= Seq::empty());
        assert(ins_bytes(script, i) + rest =~= script.skip(i.offset));
    }
}

/// A run that ends without an error has ended in its last script with no branch
/// open and a true value on top; witness scripts, and legacy ones under
/// CLEANSTACK, leave nothing else behind.
pub proof fn law_success_leaves_a_true_value(env: EnvModel, vm: VmModel)
    requires
        env.wf(),
        env.admits(vm),
        !vm.finished,
    ensures
        ({
            let after = one_step(env, vm).vm;
            after.finished && after.error is None ==> {
                &&& after.frame_idx + 1 == env.frames.len()
                &&& after.cond.len() == 0
                &&& after.stack.len() > 0
                &&& truthy(after.stack.last())
                &&& env.frames[after.frame_idx].sigversion != SigVersion::Legacy || has_flag(
                    env.flags,
                    VERIFY_CLEANSTACK,
                ) ==> after.stack.len() == 1
            }
        }),
{
    law_steps_keep_the_invariant(env, vm);
    let code = env.frames[vm.frame_idx];
    if vm.entered && !code.key_path && vm.ip < code.ins().len() {
        let ins = code.ins()[vm.ip];
        let v1 = VmModel { ip: vm.ip + 1, step_n: vm.step_n + 1, ..vm };
        let rec = ins_record(vm.step_n + 1, vm.frame_idx, code.label, ins);
        let v2 = if counted(env, code, ins.opcode) {
            VmModel { op_count: v1.op_count + 1, ..v1 }
        } else {
            v1
        };
        if v2.op_count <= MAX_OPS_PER_SCRIPT {
            lemma_executed_stands(env, v2, rec, v2.frame_idx, ins);
        }
    }
}

/// `after` says more than `before`, about the same step.
pub open spec fn record_goes_on(before: RecordModel, after: RecordModel) -> bool {
    &&& after.n == before.n
    &&& after.frame == before.frame
    &&& after.frame_label == before.frame_label
    &&& after.offset == before.offset
    &&& after.op == before.op
    &&& after.data == before.data
    &&& after.skipped == before.skipped
    &&& after.error == before.error
    &&& after.transition == before.transition
    &&& before.notes.is_prefix_of(after.notes)
    &&& before.sigs.is_prefix_of(after.sigs)
}

proof fn lemma_prefix_trans<T>(a: Seq<T>, b: Seq<T>, c: Seq<T>)
    requires
        a.is_prefix_of(b),
        b.is_prefix_of(c),
    ensures
        a.is_prefix_of(c),
{
    assert(c.subrange(0, a.len() as int) =~= b.subrange(0, a.len() as int));
}

proof fn lemma_prefix_push<T>(a: Seq<T>, x: T)
    ensures
        a.is_prefix_of(a),
        a.is_prefix_of(a.push(x)),
{
    assert(a.subrange(0, a.len() as int) =~= a);
    assert(a.push(x).subrange(0, a.len() as int) =~= a);
}

proof fn lemma_attempt_record(
    env: EnvModel,
    vm: VmModel,
    rec: RecordModel,
    frame: int,
    deleted: Seq<Seq<u8>>,
    sig: Seq<u8>,
    pubkey: Seq<u8>,
)
    ensures
        record_goes_on(rec, attempt(env, vm, rec, frame, deleted, sig, pubkey).rec),
{
    reveal(attempt);
    let a = attempt(env, vm, rec, frame, deleted, sig, pubkey);
    assert(rec.notes.is_prefix_of(rec.notes)) by {
        lemma_prefix_push(rec.notes, Seq::empty());
    }
    lemma_prefix_push(
        rec.notes,
        "unknown public key type in tapscript: the check passes for upgradability"@,
    );
    lemma_prefix_push(
        rec.notes,
        "no transaction context: assuming this signature is valid"@,
    );
    lemma_prefix_push(rec.sigs, assumed_outcome(sig, pubkey));
    lemma_prefix_push(rec.sigs, schnorr_in_script(env, vm, frame, sig, pubkey));
    lemma_prefix_push(rec.sigs, ecdsa_in_script(env, vm, frame, deleted, sig, pubkey));
}

proof fn lemma_walk_record(
    env: EnvModel,
    vm: VmModel,
    rec: RecordModel,
    frame: int,
    sigs: Seq<Seq<u8>>,
    keys: Seq<Seq<u8>>,
    m: MatchModel,
)
    ensures
        record_goes_on(rec, walk(env, vm, rec, frame, sigs, keys, m).rec),
    decreases keys.len() - m.tried,
{
    if m.open(sigs.len() as int, keys.len() as int) {
        let sig = sigs[m.matched];
        let key = keys[m.tried];
        let a = attempt(env, vm, rec, frame, sigs, sig, key);
        lemma_attempt_record(env, vm, rec, frame, sigs, sig, key);
        match a.ok {
            Err(_) => {},
            Ok(ok) => {
                lemma_walk_record(env, a.vm, a.rec, frame, sigs, keys, m.after(ok, sig, key));
                let w = walk(env, a.vm, a.rec, frame, sigs, keys, m.after(ok, sig, key));
                lemma_prefix_trans(rec.notes, a.rec.notes, w.rec.notes);
                lemma_prefix_trans(rec.sigs, a.rec.sigs, w.rec.sigs);
            },
        }
    } else {
        lemma_prefix_push(rec.notes, Seq::empty());
        lemma_prefix_push(rec.sigs, assumed_outcome(Seq::empty(), Seq::empty()));
    }
}

/// Executing an instruction only ever adds notes and checks to its record.
pub proof fn law_execution_extends_the_record(
    env: EnvModel,
    vm: VmModel,
    rec: RecordModel,
    frame: int,
    ins: InsModel,
)
    ensures
        record_goes_on(rec, executed(env, vm, rec, frame, ins).rec),
{
    let op = ins.opcode;
    let d = executed(env, vm, rec, frame, ins);
    lemma_prefix_push(rec.notes, Seq::empty());
    lemma_prefix_push(rec.sigs, assumed_outcome(Seq::empty(), Seq::empty()));
    if d.rec.notes.len() == rec.notes.len() + 1 {
        lemma_prefix_push(rec.notes, d.rec.notes.last());
    }
    if op == 0xac || op == 0xad {
        let (s1, pubkey) = popped(vm.stack);
        let (s2, sig) = popped(s1);
        if pubkey is Ok && sig is Ok {
            lemma_attempt_record(
                env,
                vm.with_stack(s2),
                rec,
                frame,
                seq![sig->Ok_0],
                sig->Ok_0,
                pubkey->Ok_0,
            );
        }
    } else if op == 0xba {
        let (s1, pubkey) = popped(vm.stack);
        let (s2, n) = popped_number(s1, env.minimal());
        let (s3, sig) = popped(s2);
        if pubkey is Ok && sig is Ok {
            lemma_attempt_record(
                env,
                vm.with_stack(s3),
                rec,
                frame,
                Seq::empty(),
                sig->Ok_0,
                pubkey->Ok_0,
            );
            lemma_prefix_push(rec.notes, "empty signature: counts as a failed check"@);
        }
    } else if op == 0xae || op == 0xaf {
        let (v, args) = taken_args(env, vm);
        if args is Ok {
            let a = args->Ok_0;
            let dummy_note = "the off-by-one dummy element is non-empty (fine pre-NULLDUMMY)"@;
            let r1 = if a.dummy.len() > 0 {
                rec.noted(dummy_note)
            } else {
                rec
            };
            lemma_prefix_push(rec.notes, dummy_note);
            let w = walk(env, v, r1, frame, a.sigs, a.keys, unmatched());
            lemma_walk_record(env, v, r1, frame, a.sigs, a.keys, unmatched());
            lemma_prefix_trans(rec.notes, r1.notes, w.rec.notes);
            match w.result {
                Err(_) => {},
                Ok(m) => {
                    let told = w.rec.notes + m.story(a.sigs);
                    assert(told.subrange(0, w.rec.notes.len() as int) =~= w.rec.notes);
                    lemma_prefix_trans(rec.notes, w.rec.notes, told);
                    let summary = crate::multisig::multisig_summary(
                        a.sigs.len() as int,
                        a.keys.len() as int,
                        m.matched == a.sigs.len(),
                    );
                    lemma_prefix_push(told, summary);
                    lemma_prefix_trans(rec.notes, told, told.push(summary));
                },
            }
        }
    }
}

/// The record of every step carries the step's number, which is one more than
/// that of the step before, and the script it was taken in.
pub proof fn law_records_are_numbered(env: EnvModel, vm: VmModel)
    requires
        env.wf(),
        env.admits(vm),
        !vm.finished,
    ensures
        one_step(env, vm).rec.n == vm.step_n + 1,
        one_step(env, vm).vm.step_n == one_step(env, vm).rec.n,
        one_step(env, vm).rec.frame == vm.frame_idx,
        one_step(env, vm).rec.frame_label == env.frames[vm.frame_idx].label,
{
    law_steps_keep_the_invariant(env, vm);
    let code = env.frames[vm.frame_idx];
    if vm.entered && !code.key_path && vm.ip < code.ins().len() {
        let ins = code.ins()[vm.ip];
        let v1 = VmModel { ip: vm.ip + 1, step_n: vm.step_n + 1, ..vm };
        let rec = ins_record(vm.step_n + 1, vm.frame_idx, code.label, ins);
        let v2 = if counted(env, code, ins.opcode) {
            VmModel { op_count: v1.op_count + 1, ..v1 }
        } else {
            v1
        };
        law_execution_extends_the_record(env, v2, rec, v2.frame_idx, ins);
    }
}

} // verus!
