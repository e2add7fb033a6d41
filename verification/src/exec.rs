//! One instruction: what each opcode does to the machine.

use crate::arith::{
    binary_run, run_binary, run_shift, run_unary, run_within, shift_run, unary_run, within_run,
};
use crate::assembly::{Ins, InsModel};
use crate::checks::{checksig, checksigadd, run_checksig, run_checksigadd, stack_done, Done};
use crate::crypto::{
    hash160_hash, ripemd160_hash, ripemd160_of, sha1_hash, sha1_of, sha256_hash, sha256_of,
    sha256d_hash,
};
use crate::hexcodec::hex_encode;
use crate::locktime::{locktime, run_locktime};
use crate::multisig::{multisig, run_multisig};
use crate::num::{cast_to_bool, script_num, truthy};
use crate::opnames::{op_name, opcode_name};
use crate::ops::{
    copy_run, done, drop_run, equal_run, fail, move_run, pick_roll, run_copy, run_drop, run_equal,
    run_move, run_pick_roll, run_splice, splice_run, Run,
};
use crate::spend::SigVersion;
use crate::stack::{message, popped, underflow, Stack};
use crate::text::{dec, dec_usize, hex_text, text};
use crate::vm::{
    Env, EnvModel, RecordModel, StepRecord, Vm, VmModel, MAX_OPS_PER_SCRIPT,
    MAX_SCRIPT_ELEMENT_SIZE,
};
use vstd::prelude::*;
use vstd::slice::slice_to_vec;
use vstd::string::StringExecFns;

verus! {

/// The opcodes that push data of their own or of the script.
pub open spec fn push_op(op: u8) -> bool {
    op <= 0x4f || 0x51 <= op <= 0x60
}

/// What a push puts on the stack: the data is held to the element limit and to
/// minimal encoding where those apply.
pub open spec fn push_run(env: EnvModel, ins: InsModel, st: Seq<Seq<u8>>) -> Run {
    let op = ins.opcode;
    let data = match ins.data {
        Some(d) => d,
        None => Seq::empty(),
    };
    if op == 0 {
        done(st.push(Seq::empty()))
    } else if op == 0x4f {
        done(st.push(script_num(-1)))
    } else if op >= 0x51 {
        done(st.push(script_num(op - 0x50)))
    } else if !env.experimental() && data.len() > MAX_SCRIPT_ELEMENT_SIZE {
        fail(
            st,
            "push of "@ + dec(data.len() as int) + " bytes exceeds the "@ + dec(
                MAX_SCRIPT_ELEMENT_SIZE as int,
            ) + " byte element limit"@,
        )
    } else if env.minimal() && !ins.minimal_push {
        fail(st, "non-minimal push (SCRIPT_VERIFY_MINIMALDATA)"@)
    } else {
        done(st.push(data))
    }
}

fn run_push(env: &Env, ins: &Ins, stack: &mut Stack) -> (r: Result<(), String>)
    requires
        push_op(ins.opcode),
    ensures
        ({
            let want = push_run(env@, ins@, old(stack)@);
            final(stack)@ == want.stack && message(r) == want.err
        }),
{
    let op: u8 = ins.opcode;
    if op == 0 {
        let empty: Vec<u8> = Vec::new();
        assert(empty@ =~= Seq::empty());
        stack.push(empty);
        return Ok(());
    }
    if op == 0x4f {
        stack.push_num(-1);
        return Ok(());
    }
    if op >= 0x51 {
        stack.push_num((op - 0x50) as i64);
        return Ok(());
    }
    let data = match &ins.data {
        Some(d) => slice_to_vec(d.as_slice()),
        None => Vec::new(),
    };
    assert(data@ =~= match ins@.data {
        Some(d) => d,
        None => Seq::empty(),
    });
    if !env.experimental() && data.len() > MAX_SCRIPT_ELEMENT_SIZE {
        return Err(
            text("push of ").concat(dec_usize(data.len()).as_str()).concat(
                " bytes exceeds the ",
            ).concat(dec_usize(MAX_SCRIPT_ELEMENT_SIZE).as_str()).concat(" byte element limit"),
        );
    }
    if env.require_minimal() && !ins.minimal_push {
        return Err(text("non-minimal push (SCRIPT_VERIFY_MINIMALDATA)"));
    }
    stack.push(data);
    Ok(())
}

/// `OP_IF`, `OP_NOTIF`, `OP_ELSE` and `OP_ENDIF`.
pub open spec fn cond_op(op: u8) -> bool {
    op == 0x63 || op == 0x64 || op == 0x67 || op == 0x68
}

/// `OP_IF` and `OP_NOTIF`. Inside a branch that is switched off the new branch
/// is off too, and the stack is left alone.
pub open spec fn if_done(env: EnvModel, vm: VmModel, rec: RecordModel, frame: int, op: u8) -> Done {
    if !vm.exec_enabled() {
        Done { vm: VmModel { cond: vm.cond.push(false), ..vm }, rec, err: None }
    } else {
        let (s, v) = popped(vm.stack);
        match v {
            Err(e) => Done { vm: vm.with_stack(s), rec, err: Some(e) },
            Ok(v) => if env.frames[frame].tapscript() && (v.len() > 1 || v.len() == 1 && v[0]
                != 1) {
                Done {
                    vm: vm.with_stack(s),
                    rec,
                    err: Some(
                        "OP_IF argument must be exactly OP_0 or OP_1 in tapscript (BIP342)"@,
                    ),
                }
            } else {
                let value = truthy(v) == (op == 0x63);
                Done {
                    vm: VmModel { cond: vm.cond.push(value), ..vm.with_stack(s) },
                    rec: rec.noted(
                        "branch taken: "@ + (if value {
                            "yes"@
                        } else {
                            "no"@
                        }),
                    ),
                    err: None,
                }
            },
        }
    }
}

/// The opcodes that open, turn and close branches.
pub open spec fn cond_done(
    env: EnvModel,
    vm: VmModel,
    rec: RecordModel,
    frame: int,
    op: u8,
) -> Done {
    let n = vm.cond.len() as int;
    if op == 0x63 || op == 0x64 {
        if_done(env, vm, rec, frame, op)
    } else if op == 0x67 {
        if n == 0 {
            Done { vm, rec, err: Some("OP_ELSE without a matching OP_IF"@) }
        } else {
            Done {
                vm: VmModel { cond: vm.cond.update(n - 1, !vm.cond.last()), ..vm },
                rec,
                err: None,
            }
        }
    } else if n == 0 {
        Done { vm, rec, err: Some("OP_ENDIF without a matching OP_IF"@) }
    } else {
        Done { vm: VmModel { cond: vm.cond.drop_last(), ..vm }, rec, err: None }
    }
}

fn run_if(env: &Env, vm: &mut Vm, r: &mut StepRecord, frame_idx: usize, op: u8) -> (res: Result<
    (),
    String,
>)
    requires
        env.frames_wf(),
        frame_idx < env@.frames.len(),
        op == 0x63 || op == 0x64,
    ensures
        ({
            let want = if_done(env@, old(vm)@, old(r)@, frame_idx as int, op);
            &&& final(vm)@ == want.vm
            &&& final(r)@ == want.rec
            &&& message(res) == want.err
        }),
{
    let ghost before = vm@;
    let mut value = false;
    if vm.exec_enabled() {
        let v = match vm.stack.pop() {
            Ok(v) => v,
            Err(e) => {
                assert(vm@ =~= before.with_stack(vm.stack@));
                return Err(e);
            },
        };
        assert(vm@ =~= before.with_stack(vm.stack@));
        if env.frame(frame_idx).sigversion == SigVersion::Tapscript && (v.len() > 1 || (v.len() == 1
            && v[0] != 1)) {
            return Err(
                text("OP_IF argument must be exactly OP_0 or OP_1 in tapscript (BIP342)"),
            );
        }
        value = cast_to_bool(v.as_slice());
        if op == 0x64 {
            value = !value;
        }
        let word = if value {
            "yes"
        } else {
            "no"
        };
        r.note(text("branch taken: ").concat(word));
    }
    vm.cond.push(value);
    proof {
        let want = if_done(env@, before, old(r)@, frame_idx as int, op);
        assert(vm@ =~= want.vm);
    }
    Ok(())
}

fn run_cond(env: &Env, vm: &mut Vm, r: &mut StepRecord, frame_idx: usize, op: u8) -> (res: Result<
    (),
    String,
>)
    requires
        env.frames_wf(),
        frame_idx < env@.frames.len(),
        cond_op(op),
    ensures
        ({
            let want = cond_done(env@, old(vm)@, old(r)@, frame_idx as int, op);
            &&& final(vm)@ == want.vm
            &&& final(r)@ == want.rec
            &&& message(res) == want.err
        }),
{
    if op == 0x63 || op == 0x64 {
        return run_if(env, vm, r, frame_idx, op);
    }
    let n: usize = vm.cond.len();
    if op == 0x67 {
        if n == 0 {
            return Err(text("OP_ELSE without a matching OP_IF"));
        }
        let last = vm.cond[n - 1];
        vm.cond[n - 1] = !last;
    } else {
        if n == 0 {
            return Err(text("OP_ENDIF without a matching OP_IF"));
        }
        let _ = vm.cond.pop();
    }
    proof {
        let want = cond_done(env@, old(vm)@, old(r)@, frame_idx as int, op);
        assert(vm@ =~= want.vm);
    }
    Ok(())
}

/// `OP_TOALTSTACK` and `OP_FROMALTSTACK`.
pub open spec fn alt_done(vm: VmModel, rec: RecordModel, op: u8) -> Done {
    if op == 0x6b {
        if vm.stack.len() == 0 {
            Done { vm, rec, err: Some(underflow()) }
        } else {
            Done {
                vm: VmModel {
                    stack: vm.stack.drop_last(),
                    altstack: vm.altstack.push(vm.stack.last()),
                    ..vm
                },
                rec,
                err: None,
            }
        }
    } else if vm.altstack.len() == 0 {
        Done { vm, rec, err: Some("OP_FROMALTSTACK on an empty altstack"@) }
    } else {
        Done {
            vm: VmModel {
                stack: vm.stack.push(vm.altstack.last()),
                altstack: vm.altstack.drop_last(),
                ..vm
            },
            rec,
            err: None,
        }
    }
}

fn run_alt(vm: &mut Vm, op: u8) -> (res: Result<(), String>)
    ensures
        forall|rec: RecordModel|
            #![trigger alt_done(old(vm)@, rec, op)]
            {
                let want = alt_done(old(vm)@, rec, op);
                &&& final(vm)@ == want.vm
                &&& rec == want.rec
                &&& message(res) == want.err
            },
{
    if op == 0x6b {
        match vm.stack.pop() {
            Ok(v) => {
                vm.altstack.push(v);
            },
            Err(e) => {
                assert(vm@ =~= old(vm)@);
                return Err(e);
            },
        }
        assert(vm@ =~= VmModel {
            stack: old(vm)@.stack.drop_last(),
            altstack: old(vm)@.altstack.push(old(vm)@.stack.last()),
            ..old(vm)@
        });
    } else {
        match vm.altstack.pop() {
            Ok(v) => {
                vm.stack.push(v);
            },
            Err(_) => {
                assert(vm@ =~= old(vm)@);
                return Err(text("OP_FROMALTSTACK on an empty altstack"));
            },
        }
        assert(vm@ =~= VmModel {
            stack: old(vm)@.stack.push(old(vm)@.altstack.last()),
            altstack: old(vm)@.altstack.drop_last(),
            ..old(vm)@
        });
    }
    Ok(())
}

/// The digest that a hash opcode computes.
pub open spec fn op_digest(op: u8, data: Seq<u8>) -> Seq<u8> {
    if op == 0xa6 {
        ripemd160_of(data)
    } else if op == 0xa7 {
        sha1_of(data)
    } else if op == 0xa8 {
        sha256_of(data)
    } else if op == 0xa9 {
        ripemd160_of(sha256_of(data))
    } else {
        sha256_of(sha256_of(data))
    }
}

/// What follows the hashing of the top element.
pub open spec fn digest_done(vm: VmModel, rec: RecordModel, op: u8, digest: Seq<u8>) -> Done {
    Done {
        vm: vm.with_stack(vm.stack.push(digest)),
        rec: rec.noted(opcode_name(op) + " → "@ + hex_text(digest)),
        err: None,
    }
}

/// The hash opcodes.
pub open spec fn hash_done(vm: VmModel, rec: RecordModel, op: u8) -> Done {
    let (s, v) = popped(vm.stack);
    match v {
        Err(e) => Done { vm: vm.with_stack(s), rec, err: Some(e) },
        Ok(v) => digest_done(vm.with_stack(s), rec, op, op_digest(op, v)),
    }
}

/// The digest that a hash opcode computes.
fn digest_of(op: u8, data: &[u8]) -> (r: Vec<u8>)
    ensures
        r@ == op_digest(op, data@),
{
    if op == 0xa6 {
        slice_to_vec(ripemd160_hash(data).as_slice())
    } else if op == 0xa7 {
        slice_to_vec(sha1_hash(data).as_slice())
    } else if op == 0xa8 {
        slice_to_vec(sha256_hash(data).as_slice())
    } else if op == 0xa9 {
        slice_to_vec(hash160_hash(data).as_slice())
    } else {
        slice_to_vec(sha256d_hash(data).as_slice())
    }
}

/// Put a digest on the stack and tell of it.
pub fn push_digest(vm: &mut Vm, r: &mut StepRecord, op: u8, digest: Vec<u8>)
    ensures
        ({
            let want = digest_done(old(vm)@, old(r)@, op, digest@);
            final(vm)@ == want.vm && final(r)@ == want.rec
        }),
{
    r.note(op_name(op).concat(" → ").concat(hex_encode(digest.as_slice()).as_str()));
    vm.stack.push(digest);
    assert(vm@ =~= old(vm)@.with_stack(vm.stack@));
}

fn run_hash(vm: &mut Vm, r: &mut StepRecord, op: u8) -> (res: Result<(), String>)
    ensures
        ({
            let want = hash_done(old(vm)@, old(r)@, op);
            &&& final(vm)@ == want.vm
            &&& final(r)@ == want.rec
            &&& message(res) == want.err
        }),
{
    let ghost before = vm@;
    let v = match vm.stack.pop() {
        Ok(v) => v,
        Err(e) => {
            assert(vm@ =~= before.with_stack(vm.stack@));
            return Err(e);
        },
    };
    assert(vm@ =~= before.with_stack(vm.stack@));
    push_digest(vm, r, op, digest_of(op, v.as_slice()));
    Ok(())
}

/// `OP_CODESEPARATOR`: later checks hash what follows. BIP342 commits to the
/// opcode index, not the byte offset.
pub open spec fn codesep_done(vm: VmModel, rec: RecordModel, ins: InsModel) -> Done {
    Done {
        vm: VmModel {
            begin_codehash: vm.ip,
            codesep_pos: ((vm.ip - 1) % 0x1_0000_0000) as u32,
            ..vm
        },
        rec: rec.noted(
            "scriptCode for later signature checks now starts at byte "@ + dec(
                ins.offset + ins.len,
            ),
        ),
        err: None,
    }
}

/// Why an opcode fails wherever it is executed.
pub open spec fn invalid_op(op: u8) -> Seq<char> {
    if op == 0x6a {
        "OP_RETURN: script aborted"@
    } else if op == 0x50 {
        "OP_RESERVED in an executed branch"@
    } else if op == 0x62 {
        "OP_VER in an executed branch"@
    } else if op == 0x65 || op == 0x66 {
        opcode_name(op) + " is always invalid"@
    } else if op == 0x89 || op == 0x8a {
        opcode_name(op) + " in an executed branch"@
    } else {
        "unimplemented or invalid opcode "@ + opcode_name(op)
    }
}

fn describe_invalid(op: u8) -> (r: String)
    ensures
        r@ == invalid_op(op),
{
    if op == 0x6a {
        text("OP_RETURN: script aborted")
    } else if op == 0x50 {
        text("OP_RESERVED in an executed branch")
    } else if op == 0x62 {
        text("OP_VER in an executed branch")
    } else if op == 0x65 || op == 0x66 {
        op_name(op).concat(" is always invalid")
    } else if op == 0x89 || op == 0x8a {
        op_name(op).concat(" in an executed branch")
    } else {
        text("unimplemented or invalid opcode ").concat(op_name(op).as_str())
    }
}

/// The opcodes that only work on the stack.
pub open spec fn pure_op(op: u8) -> bool {
    ||| op == 0x69
    ||| 0x6d <= op <= 0x88
    ||| 0x8b <= op <= 0xa5
}

/// The opcodes that only work on the stack.
pub open spec fn pure_run(op: u8, st: Seq<Seq<u8>>, minimal: bool) -> Run {
    if op == 0x69 || op == 0x6d || op == 0x75 {
        drop_run(op, st)
    } else if op == 0x71 || op == 0x72 || op == 0x77 || 0x7b <= op <= 0x7d {
        move_run(op, st)
    } else if op == 0x79 || op == 0x7a {
        pick_roll(op, st, minimal)
    } else if op <= 0x78 || op == 0x82 {
        copy_run(op, st)
    } else if op <= 0x86 {
        splice_run(op, st, minimal)
    } else if op <= 0x88 {
        equal_run(op, st)
    } else if op <= 0x92 {
        unary_run(op, st, minimal)
    } else if op == 0x98 || op == 0x99 {
        shift_run(op, st, minimal)
    } else if op <= 0xa4 {
        binary_run(op, st, minimal)
    } else {
        within_run(st, minimal)
    }
}

fn run_pure(op: u8, stack: &mut Stack, minimal: bool) -> (r: Result<(), String>)
    requires
        pure_op(op),
    ensures
        ({
            let want = pure_run(op, old(stack)@, minimal);
            final(stack)@ == want.stack && message(r) == want.err
        }),
{
    if op == 0x69 || op == 0x6d || op == 0x75 {
        run_drop(op, stack)
    } else if op == 0x71 || op == 0x72 || op == 0x77 || (0x7b <= op && op <= 0x7d) {
        run_move(op, stack)
    } else if op == 0x79 || op == 0x7a {
        run_pick_roll(op, stack, minimal)
    } else if op <= 0x78 || op == 0x82 {
        run_copy(op, stack)
    } else if op <= 0x86 {
        run_splice(op, stack, minimal)
    } else if op <= 0x88 {
        run_equal(op, stack)
    } else if op <= 0x92 {
        run_unary(op, stack, minimal)
    } else if op == 0x98 || op == 0x99 {
        run_shift(op, stack, minimal)
    } else if op <= 0xa4 {
        run_binary(op, stack, minimal)
    } else {
        run_within(stack, minimal)
    }
}

/// What executing an instruction does.
pub open spec fn executed(
    env: EnvModel,
    vm: VmModel,
    rec: RecordModel,
    frame: int,
    ins: InsModel,
) -> Done {
    let op = ins.opcode;
    if push_op(op) {
        stack_done(vm, rec, push_run(env, ins, vm.stack))
    } else if op == 0x61 {
        Done { vm, rec, err: None }
    } else if cond_op(op) {
        cond_done(env, vm, rec, frame, op)
    } else if op == 0x6b || op == 0x6c {
        alt_done(vm, rec, op)
    } else if pure_op(op) {
        stack_done(vm, rec, pure_run(op, vm.stack, env.minimal()))
    } else if 0xa6 <= op <= 0xaa {
        hash_done(vm, rec, op)
    } else if op == 0xab {
        codesep_done(vm, rec, ins)
    } else if op == 0xac || op == 0xad {
        checksig(env, vm, rec, frame, op)
    } else if op == 0xae || op == 0xaf {
        multisig(env, vm, rec, frame, op)
    } else if op == 0xba {
        checksigadd(env, vm, rec, frame)
    } else if op == 0xb1 || op == 0xb2 {
        locktime(env, vm, rec, op)
    } else if op == 0xb0 || 0xb3 <= op <= 0xb9 {
        Done { vm, rec: rec.noted(opcode_name(op) + " does nothing"@), err: None }
    } else {
        Done { vm, rec, err: Some(invalid_op(op)) }
    }
}

/// Execute an instruction.
pub(crate) fn execute(
    env: &Env,
    vm: &mut Vm,
    r: &mut StepRecord,
    frame_idx: usize,
    ins: &Ins,
) -> (res: Result<(), String>)
    requires
        env@.wf(),
        env.frames_wf(),
        frame_idx < env@.frames.len(),
        old(vm).op_count <= MAX_OPS_PER_SCRIPT,
        old(vm).ip >= 1,
        ins.offset + ins.len <= usize::MAX,
    ensures
        ({
            let want = executed(env@, old(vm)@, old(r)@, frame_idx as int, ins@);
            &&& final(vm)@ == want.vm
            &&& final(r)@ == want.rec
            &&& message(res) == want.err
        }),
{
    let op: u8 = ins.opcode;
    let ghost before = vm@;
    if op <= 0x4f || (0x51 <= op && op <= 0x60) {
        let res = run_push(env, ins, &mut vm.stack);
        assert(vm@ =~= before.with_stack(vm.stack@));
        res
    } else if op == 0x61 {
        Ok(())
    } else if op == 0x63 || op == 0x64 || op == 0x67 || op == 0x68 {
        run_cond(env, vm, r, frame_idx, op)
    } else if op == 0x6b || op == 0x6c {
        let ghost want = alt_done(before, r@, op);
        run_alt(vm, op)
    } else if op == 0x69 || (0x6d <= op && op <= 0x88) || (0x8b <= op && op <= 0xa5) {
        let res = run_pure(op, &mut vm.stack, env.require_minimal());
        assert(vm@ =~= before.with_stack(vm.stack@));
        res
    } else if 0xa6 <= op && op <= 0xaa {
        run_hash(vm, r, op)
    } else if op == 0xab {
        vm.begin_codehash = vm.ip;
        vm.codesep_pos = ((vm.ip - 1) as u64 % 0x1_0000_0000) as u32;
        r.note(
            text("scriptCode for later signature checks now starts at byte ").concat(
                dec_usize(ins.offset + ins.len).as_str(),
            ),
        );
        assert(vm@ =~= codesep_done(before, old(r)@, ins@).vm);
        Ok(())
    } else if op == 0xac || op == 0xad {
        run_checksig(env, vm, r, frame_idx, op)
    } else if op == 0xae || op == 0xaf {
        run_multisig(env, vm, r, frame_idx, op)
    } else if op == 0xba {
        run_checksigadd(env, vm, r, frame_idx)
    } else if op == 0xb1 || op == 0xb2 {
        run_locktime(env, vm, r, op)
    } else if op == 0xb0 || (0xb3 <= op && op <= 0xb9) {
        r.note(op_name(op).concat(" does nothing"));
        Ok(())
    } else {
        Err(describe_invalid(op))
    }
}

} // verus!
