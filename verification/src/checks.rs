//! The opcodes that check signatures.

use crate::assembly::{ins_models, instructions, lemma_instructions_inside, push_text, InsModel};
use crate::hexcodec::hex_encode;
use crate::num::script_num;
use crate::ops::{done, fail, Run};
use crate::sig::{
    ecdsa_checked, find_and_delete, schnorr_checked, without_signature, ModeModel, SigMode,
    SigModel, SigResult,
};
use crate::spend::SigVersion;
use crate::stack::{bool_item, message, popped, popped_number, Stack};
use crate::text::{hex_text, text};
use crate::tx::byte_strings;
use crate::vm::{
    annex_slice, flag_set, has_flag, CodeModel, CompiledFrame, Env, EnvModel, RecordModel,
    StepRecord, Vm, VmModel, VALIDATION_WEIGHT_PER_SIGOP_PASSED, VERIFY_DERSIG, VERIFY_LOW_S,
    VERIFY_NULLFAIL,
};
use vstd::prelude::*;
use vstd::slice::{slice_subrange, slice_to_vec};
use vstd::string::StringExecFns;

verus! {

/// The bytes of an instruction; a truncated one reaches to the script's end.
pub open spec fn ins_bytes(script: Seq<u8>, ins: InsModel) -> Seq<u8> {
    if ins.error is Some {
        script.skip(ins.offset)
    } else {
        script.subrange(ins.offset, ins.offset + ins.len)
    }
}

/// The bytes of the instructions from `k` on, without `OP_CODESEPARATOR` where
/// that is stripped.
pub open spec fn code_from(
    script: Seq<u8>,
    ins: Seq<InsModel>,
    k: int,
    strip_codesep: bool,
) -> Seq<u8>
    decreases ins.len() - k,
{
    if k < 0 || k >= ins.len() {
        Seq::empty()
    } else if strip_codesep && ins[k].opcode == 0xab {
        code_from(script, ins, k + 1, strip_codesep)
    } else {
        ins_bytes(script, ins[k]) + code_from(script, ins, k + 1, strip_codesep)
    }
}

/// Legacy/segwit scriptCode: everything from instruction `begin` on. The legacy
/// sighash leaves `OP_CODESEPARATOR` out; BIP143 keeps it.
pub open spec fn script_code_of(code: CodeModel, begin: int) -> Seq<u8> {
    code_from(code.script, code.ins(), begin, code.sigversion == SigVersion::Legacy)
}

/// A script without the pushes of any of the signatures.
pub open spec fn without_signatures(script: Seq<u8>, sigs: Seq<Seq<u8>>) -> Seq<u8>
    decreases sigs.len(),
{
    if sigs.len() == 0 {
        script
    } else {
        without_signature(without_signatures(script, sigs.drop_last()), sigs.last())
    }
}

/// Legacy/segwit scriptCode: everything from the last OP_CODESEPARATOR on.
pub(crate) fn script_code(frame: &CompiledFrame, begin: usize) -> (r: Vec<u8>)
    requires
        frame.wf(),
    ensures
        r@ == script_code_of(frame@, begin as int),
{
    // Core's legacy sighash serializer strips OP_CODESEPARATOR bytes; the
    // BIP143 scriptCode keeps them (only truncation applies).
    let strip = frame.sigversion == SigVersion::Legacy;
    let ghost ins = instructions(frame.script@);
    let mut out: Vec<u8> = Vec::new();
    let mut k: usize = begin;
    assert(out@ + code_from(frame.script@, ins, k as int, strip) =~= script_code_of(
        frame@,
        begin as int,
    ));
    while k < frame.ins.len()
        invariant
            frame.wf(),
            ins == instructions(frame.script@),
            strip == (frame.sigversion == SigVersion::Legacy),
            out@ + code_from(frame.script@, ins, k as int, strip) == script_code_of(
                frame@,
                begin as int,
            ),
        decreases frame.ins@.len() - k,
    {
        let i = &frame.ins[k];
        let total: usize = frame.script.len();
        proof {
            assert(ins_models(frame.ins@)[k as int] == i@);
            lemma_instructions_inside(frame.script@);
        }
        if !(strip && i.opcode == 0xab) {
            let ghost before = out@;
            let end: usize = if i.error.is_some() {
                total
            } else {
                i.offset + i.len
            };
            out.extend_from_slice(slice_subrange(frame.script.as_slice(), i.offset, end));
            assert(frame.script@.subrange(i.offset as int, end as int) =~= ins_bytes(
                frame.script@,
                i@,
            ));
            assert(out@ =~= before + ins_bytes(frame.script@, i@));
            assert(out@ + code_from(frame.script@, ins, k + 1, strip) =~= before + code_from(
                frame.script@,
                ins,
                k as int,
                strip,
            ));
        }
        k = k + 1;
    }
    assert(out@ =~= script_code_of(frame@, begin as int));
    out
}

/// Delete the pushes of each signature in turn.
fn delete_signatures(code: Vec<u8>, sigs: &Vec<Vec<u8>>) -> (r: Vec<u8>)
    ensures
        r@ == without_signatures(code@, byte_strings(sigs@)),
{
    let ghost all = byte_strings(sigs@);
    let ghost start = code@;
    let mut out = code;
    let mut i: usize = 0;
    assert(all.take(0) =~= Seq::empty());
    while i < sigs.len()
        invariant
            i <= sigs@.len(),
            all == byte_strings(sigs@),
            out@ == without_signatures(start, all.take(i as int)),
        decreases sigs@.len() - i,
    {
        assert(all.take(i + 1).drop_last() =~= all.take(i as int));
        assert(all.take(i + 1).last() == sigs@[i as int]@);
        out = find_and_delete(out.as_slice(), sigs[i].as_slice());
        i = i + 1;
    }
    assert(all.take(all.len() as int) =~= all);
    out
}

/// What a signature check leaves: the state, the record, and its verdict or the
/// reason why the script cannot go on.
#[verifier::ext_equal]
pub struct Attempt {
    pub vm: VmModel,
    pub rec: RecordModel,
    pub ok: Result<bool, Seq<char>>,
}

/// The outcome that is recorded when no transaction is loaded and signatures
/// are assumed valid. The pair is still shown: it says which key this op would
/// have checked against.
pub open spec fn assumed_outcome(sig: Seq<u8>, pubkey: Seq<u8>) -> SigModel {
    SigModel {
        valid: true,
        sighash: Seq::empty(),
        sighash_type: Seq::empty(),
        detail: "not verified; no transaction loaded"@,
        warnings: seq!["load a transaction to verify this for real"@],
        assumed: true,
        pubkey: hex_text(pubkey),
        signature: hex_text(sig),
    }
}

/// How the sighash of an ECDSA check in the current script is built: from the
/// scriptCode, which the legacy rules rid of the deleted signatures.
pub open spec fn ecdsa_mode(
    env: EnvModel,
    vm: VmModel,
    frame: int,
    deleted: Seq<Seq<u8>>,
) -> ModeModel {
    let code = script_code_of(env.frames[frame], vm.begin_codehash);
    if env.frames[frame].sigversion == SigVersion::Legacy {
        ModeModel::Legacy { script_code: without_signatures(code, deleted) }
    } else {
        ModeModel::WitnessV0 { script_code: code }
    }
}

/// The outcome of an ECDSA check in the current script.
pub open spec fn ecdsa_in_script(
    env: EnvModel,
    vm: VmModel,
    frame: int,
    deleted: Seq<Seq<u8>>,
    sig: Seq<u8>,
    pubkey: Seq<u8>,
) -> SigModel {
    ecdsa_checked(
        env.ctx->0,
        sig,
        pubkey,
        ecdsa_mode(env, vm, frame, deleted),
        has_flag(env.flags, VERIFY_DERSIG),
        has_flag(env.flags, VERIFY_LOW_S),
    )
}

/// The outcome of a Schnorr check in the current script.
pub open spec fn schnorr_in_script(
    env: EnvModel,
    vm: VmModel,
    frame: int,
    sig: Seq<u8>,
    pubkey: Seq<u8>,
) -> SigModel {
    schnorr_checked(
        env.ctx->0,
        sig,
        pubkey,
        ModeModel::Tapscript {
            leaf_hash: env.frames[frame].leaf_hash->0,
            codesep_pos: vm.codesep_pos,
            annex: env.annex,
        },
    )
}

/// A signature check. `deleted` are the signatures FindAndDelete removes from
/// the legacy scriptCode before hashing.
#[verifier::opaque]
pub open spec fn attempt(
    env: EnvModel,
    vm: VmModel,
    rec: RecordModel,
    frame: int,
    deleted: Seq<Seq<u8>>,
    sig: Seq<u8>,
    pubkey: Seq<u8>,
) -> Attempt {
    let code = env.frames[frame];
    if code.tapscript() && pubkey.len() == 0 {
        Attempt { vm, rec, ok: Err("empty public key in tapscript"@) }
    } else if code.tapscript() && pubkey.len() != 32 {
        Attempt {
            vm,
            rec: rec.noted(
                "unknown public key type in tapscript: the check passes for upgradability"@,
            ),
            ok: Ok(true),
        }
    } else if env.ctx is None {
        if env.assume_valid_sigs {
            Attempt {
                vm,
                rec: rec.noted("no transaction context: assuming this signature is valid"@).checked(
                    assumed_outcome(sig, pubkey),
                ),
                ok: Ok(true),
            }
        } else {
            Attempt { vm, rec, ok: Err("no transaction context; cannot compute a sighash"@) }
        }
    } else if code.tapscript() {
        if vm.budget < VALIDATION_WEIGHT_PER_SIGOP_PASSED {
            Attempt { vm, rec, ok: Err("tapscript validation weight budget exhausted"@) }
        } else if code.leaf_hash is None {
            Attempt { vm, rec, ok: Err("tapscript frame is missing its leaf hash"@) }
        } else {
            let res = schnorr_in_script(env, vm, frame, sig, pubkey);
            Attempt {
                vm: if res.valid {
                    VmModel { budget: vm.budget - VALIDATION_WEIGHT_PER_SIGOP_PASSED, ..vm }
                } else {
                    vm
                },
                rec: rec.checked(res),
                ok: Ok(res.valid),
            }
        }
    } else {
        let res = ecdsa_in_script(env, vm, frame, deleted, sig, pubkey);
        Attempt { vm, rec: rec.checked(res), ok: Ok(res.valid) }
    }
}

/// The view of a verdict or a message.
pub open spec fn verdict_or_message(r: Result<bool, String>) -> Result<bool, Seq<char>> {
    match r {
        Ok(b) => Ok(b),
        Err(e) => Err(e@),
    }
}

fn assumed_result(sig: &[u8], pubkey: &[u8]) -> (r: SigResult)
    ensures
        r@ == assumed_outcome(sig@, pubkey@),
{
    let mut warnings: Vec<String> = Vec::new();
    push_text(&mut warnings, text("load a transaction to verify this for real"));
    let r = SigResult {
        valid: true,
        sighash: String::new(),
        sighash_type: String::new(),
        detail: text("not verified; no transaction loaded"),
        warnings,
        assumed: true,
        pubkey: hex_encode(pubkey),
        signature: hex_encode(sig),
    };
    assert(r@ =~= assumed_outcome(sig@, pubkey@));
    r
}

/// `deleted_sigs` are the signatures FindAndDelete removes from the legacy
/// scriptCode before hashing: just this one for OP_CHECKSIG, but every
/// signature in the vector for OP_CHECKMULTISIG (Core deletes them all up
/// front, so each check in a multisig hashes the same stripped scriptCode).
pub(crate) fn check_sig(
    env: &Env,
    vm: &mut Vm,
    r: &mut StepRecord,
    frame_idx: usize,
    deleted_sigs: &Vec<Vec<u8>>,
    sig: &[u8],
    pubkey: &[u8],
) -> (ok: Result<bool, String>)
    requires
        env.frames_wf(),
        frame_idx < env@.frames.len(),
    ensures
        ({
            let want = attempt(
                env@,
                old(vm)@,
                old(r)@,
                frame_idx as int,
                byte_strings(deleted_sigs@),
                sig@,
                pubkey@,
            );
            &&& final(vm)@ == want.vm
            &&& final(r)@ == want.rec
            &&& verdict_or_message(ok) == want.ok
        }),
{
    proof {
        reveal(attempt);
    }
    let frame = env.frame(frame_idx);
    let tapscript = frame.sigversion == SigVersion::Tapscript;
    // BIP342: only 32-byte keys are defined; other sizes stay spendable for
    // future upgrades.
    if tapscript && pubkey.len() != 32 {
        if pubkey.len() == 0 {
            return Err(text("empty public key in tapscript"));
        }
        r.note(
            text("unknown public key type in tapscript: the check passes for upgradability"),
        );
        return Ok(true);
    }
    let ctx = match env.ctx {
        Some(c) => c,
        None => {
            if env.assume_valid_sigs {
                r.note(text("no transaction context: assuming this signature is valid"));
                r.add_sig(assumed_result(sig, pubkey));
                return Ok(true);
            }
            return Err(text("no transaction context; cannot compute a sighash"));
        },
    };
    if tapscript {
        if vm.budget < VALIDATION_WEIGHT_PER_SIGOP_PASSED {
            return Err(text("tapscript validation weight budget exhausted"));
        }
        let leaf_hash: [u8; 32] = match frame.leaf_hash {
            Some(h) => h,
            None => {
                return Err(text("tapscript frame is missing its leaf hash"));
            },
        };
        let mode = SigMode::Tapscript {
            leaf_hash,
            codesep_pos: vm.codesep_pos,
            annex: annex_slice(env.annex),
        };
        let res = ctx.check_schnorr(sig, pubkey, &mode);
        let valid = res.valid;
        assert(res@ == schnorr_in_script(env@, vm@, frame_idx as int, sig@, pubkey@));
        r.add_sig(res);
        if valid {
            vm.budget = vm.budget - VALIDATION_WEIGHT_PER_SIGOP_PASSED;
        }
        return Ok(valid);
    }
    let legacy = frame.sigversion == SigVersion::Legacy;
    let code = script_code(frame, vm.begin_codehash);
    let code = if legacy {
        delete_signatures(code, deleted_sigs)
    } else {
        code
    };
    let mode = if legacy {
        SigMode::Legacy { script_code: code.as_slice() }
    } else {
        SigMode::WitnessV0 { script_code: code.as_slice() }
    };
    let res = ctx.check_ecdsa(
        sig,
        pubkey,
        &mode,
        flag_set(env.flags, VERIFY_DERSIG),
        flag_set(env.flags, VERIFY_LOW_S),
    );
    let valid = res.valid;
    r.add_sig(res);
    Ok(valid)
}

/// What follows the check of `OP_CHECKSIG` and `OP_CHECKSIGVERIFY`.
pub open spec fn checksig_settled(
    op: u8,
    flags: u32,
    ok: bool,
    sig_is_empty: bool,
    st: Seq<Seq<u8>>,
) -> Run {
    if !ok && has_flag(flags, VERIFY_NULLFAIL) && !sig_is_empty {
        fail(
            st,
            "NULLFAIL: a failing signature check must have an empty signature (standardness rule; consensus allows this)"@,
        )
    } else if op == 0xac {
        done(st.push(bool_item(ok)))
    } else if ok {
        done(st)
    } else {
        fail(st, "OP_CHECKSIGVERIFY failed"@)
    }
}

/// Use the verdict of a check in `OP_CHECKSIG` or `OP_CHECKSIGVERIFY`.
pub fn settle_checksig(
    op: u8,
    flags: u32,
    ok: bool,
    sig_is_empty: bool,
    stack: &mut Stack,
) -> (r: Result<(), String>)
    ensures
        ({
            let want = checksig_settled(op, flags, ok, sig_is_empty, old(stack)@);
            final(stack)@ == want.stack && message(r) == want.err
        }),
{
    if !ok && flag_set(flags, VERIFY_NULLFAIL) && !sig_is_empty {
        return Err(
            text(
                "NULLFAIL: a failing signature check must have an empty signature (standardness rule; consensus allows this)",
            ),
        );
    }
    if op == 0xac {
        stack.push_bool(ok);
    } else if !ok {
        return Err(text("OP_CHECKSIGVERIFY failed"));
    }
    Ok(())
}

/// What an opcode leaves: the state, the record, and its error, if it failed.
#[verifier::ext_equal]
pub struct Done {
    pub vm: VmModel,
    pub rec: RecordModel,
    pub err: Option<Seq<char>>,
}

/// An opcode that has only changed the stack.
pub open spec fn stack_done(vm: VmModel, rec: RecordModel, run: Run) -> Done {
    Done { vm: vm.with_stack(run.stack), rec, err: run.err }
}

/// `OP_CHECKSIG` and `OP_CHECKSIGVERIFY`.
pub open spec fn checksig(env: EnvModel, vm: VmModel, rec: RecordModel, frame: int, op: u8) -> Done {
    let (s1, pubkey) = popped(vm.stack);
    match pubkey {
        Err(e) => stack_done(vm, rec, fail(s1, e)),
        Ok(pubkey) => {
            let (s2, sig) = popped(s1);
            match sig {
                Err(e) => stack_done(vm, rec, fail(s2, e)),
                Ok(sig) => {
                    let a = attempt(
                        env,
                        vm.with_stack(s2),
                        rec,
                        frame,
                        seq![sig],
                        sig,
                        pubkey,
                    );
                    match a.ok {
                        Err(e) => Done { vm: a.vm, rec: a.rec, err: Some(e) },
                        Ok(ok) => stack_done(
                            a.vm,
                            a.rec,
                            checksig_settled(op, env.flags, ok, sig.len() == 0, a.vm.stack),
                        ),
                    }
                },
            }
        },
    }
}

/// Run `OP_CHECKSIG` or `OP_CHECKSIGVERIFY`.
pub(crate) fn run_checksig(
    env: &Env,
    vm: &mut Vm,
    r: &mut StepRecord,
    frame_idx: usize,
    op: u8,
) -> (res: Result<(), String>)
    requires
        env.frames_wf(),
        frame_idx < env@.frames.len(),
    ensures
        ({
            let want = checksig(env@, old(vm)@, old(r)@, frame_idx as int, op);
            &&& final(vm)@ == want.vm
            &&& final(r)@ == want.rec
            &&& message(res) == want.err
        }),
{
    let ghost before = vm@;
    let pubkey = match vm.stack.pop() {
        Ok(v) => v,
        Err(e) => {
            assert(vm@ =~= before.with_stack(vm.stack@));
            return Err(e);
        },
    };
    let sig = match vm.stack.pop() {
        Ok(v) => v,
        Err(e) => {
            assert(vm@ =~= before.with_stack(vm.stack@));
            return Err(e);
        },
    };
    assert(vm@ =~= before.with_stack(vm.stack@));
    let mut deleted: Vec<Vec<u8>> = Vec::new();
    deleted.push(slice_to_vec(sig.as_slice()));
    assert(byte_strings(deleted@) =~= seq![sig@]);
    let ok = match check_sig(
        env,
        vm,
        r,
        frame_idx,
        &deleted,
        sig.as_slice(),
        pubkey.as_slice(),
    ) {
        Ok(ok) => ok,
        Err(e) => {
            return Err(e);
        },
    };
    let ghost middle = vm@;
    let res = settle_checksig(op, env.flags, ok, sig.len() == 0, &mut vm.stack);
    assert(vm@ =~= middle.with_stack(vm.stack@));
    res
}

/// What follows the check of `OP_CHECKSIGADD`: the number, one higher if the
/// signature is valid.
pub open spec fn checksigadd_settled(
    n: int,
    ok: bool,
    sig_is_empty: bool,
    st: Seq<Seq<u8>>,
) -> Run {
    if !ok && !sig_is_empty {
        fail(st, "NULLFAIL: failing tapscript check with a non-empty signature"@)
    } else {
        done(
            st.push(
                script_num(
                    if ok {
                        n + 1
                    } else {
                        n
                    },
                ),
            ),
        )
    }
}

/// Use the verdict of a check in `OP_CHECKSIGADD`.
pub fn settle_checksigadd(n: i64, ok: bool, sig_is_empty: bool, stack: &mut Stack) -> (r: Result<
    (),
    String,
>)
    requires
        n < i64::MAX,
    ensures
        ({
            let want = checksigadd_settled(n as int, ok, sig_is_empty, old(stack)@);
            final(stack)@ == want.stack && message(r) == want.err
        }),
{
    if !ok && !sig_is_empty {
        return Err(text("NULLFAIL: failing tapscript check with a non-empty signature"));
    }
    stack.push_num(
        if ok {
            n + 1
        } else {
            n
        },
    );
    Ok(())
}

/// The check of `OP_CHECKSIGADD`; an empty signature is not tried.
pub open spec fn checksigadd_attempt(
    env: EnvModel,
    vm: VmModel,
    rec: RecordModel,
    frame: int,
    sig: Seq<u8>,
    pubkey: Seq<u8>,
) -> Attempt {
    if sig.len() == 0 {
        Attempt {
            vm,
            rec: rec.noted("empty signature: counts as a failed check"@),
            ok: Ok(false),
        }
    } else {
        attempt(env, vm, rec, frame, Seq::empty(), sig, pubkey)
    }
}

/// `OP_CHECKSIGADD` (tapscript only).
pub open spec fn checksigadd(env: EnvModel, vm: VmModel, rec: RecordModel, frame: int) -> Done {
    if !env.frames[frame].tapscript() {
        Done { vm, rec, err: Some("OP_CHECKSIGADD is only valid in tapscript"@) }
    } else {
        let (s1, pubkey) = popped(vm.stack);
        match pubkey {
            Err(e) => stack_done(vm, rec, fail(s1, e)),
            Ok(pubkey) => {
                let (s2, n) = popped_number(s1, env.minimal());
                match n {
                    Err(e) => stack_done(vm, rec, fail(s2, e)),
                    Ok(n) => {
                        let (s3, sig) = popped(s2);
                        match sig {
                            Err(e) => stack_done(vm, rec, fail(s3, e)),
                            Ok(sig) => {
                                let a = checksigadd_attempt(
                                    env,
                                    vm.with_stack(s3),
                                    rec,
                                    frame,
                                    sig,
                                    pubkey,
                                );
                                match a.ok {
                                    Err(e) => Done { vm: a.vm, rec: a.rec, err: Some(e) },
                                    Ok(ok) => stack_done(
                                        a.vm,
                                        a.rec,
                                        checksigadd_settled(n, ok, sig.len() == 0, a.vm.stack),
                                    ),
                                }
                            },
                        }
                    },
                }
            },
        }
    }
}

/// Run `OP_CHECKSIGADD`.
pub(crate) fn run_checksigadd(env: &Env, vm: &mut Vm, r: &mut StepRecord, frame_idx: usize) -> (res:
    Result<(), String>)
    requires
        env.frames_wf(),
        frame_idx < env@.frames.len(),
    ensures
        ({
            let want = checksigadd(env@, old(vm)@, old(r)@, frame_idx as int);
            &&& final(vm)@ == want.vm
            &&& final(r)@ == want.rec
            &&& message(res) == want.err
        }),
{
    let ghost before = vm@;
    if env.frame(frame_idx).sigversion != SigVersion::Tapscript {
        return Err(text("OP_CHECKSIGADD is only valid in tapscript"));
    }
    let pubkey = match vm.stack.pop() {
        Ok(v) => v,
        Err(e) => {
            assert(vm@ =~= before.with_stack(vm.stack@));
            return Err(e);
        },
    };
    let n: i64 = match vm.stack.pop_num(env.require_minimal()) {
        Ok(v) => v,
        Err(e) => {
            assert(vm@ =~= before.with_stack(vm.stack@));
            return Err(e);
        },
    };
    let sig = match vm.stack.pop() {
        Ok(v) => v,
        Err(e) => {
            assert(vm@ =~= before.with_stack(vm.stack@));
            return Err(e);
        },
    };
    assert(vm@ =~= before.with_stack(vm.stack@));
    let ok = if sig.len() == 0 {
        r.note(text("empty signature: counts as a failed check"));
        false
    } else {
        let deleted: Vec<Vec<u8>> = Vec::new();
        assert(byte_strings(deleted@) =~= Seq::empty());
        match check_sig(env, vm, r, frame_idx, &deleted, sig.as_slice(), pubkey.as_slice()) {
            Ok(ok) => ok,
            Err(e) => {
                return Err(e);
            },
        }
    };
    let ghost middle = vm@;
    let res = settle_checksigadd(n, ok, sig.len() == 0, &mut vm.stack);
    assert(vm@ =~= middle.with_stack(vm.stack@));
    res
}

} // verus!
