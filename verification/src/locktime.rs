//! `OP_CHECKLOCKTIMEVERIFY` and `OP_CHECKSEQUENCEVERIFY`.

use crate::checks::Done;
use crate::num::{
    decode, decoded, is_minimal, law_encode_then_decode, law_encoded_size, pow256, script_num,
};
use crate::oplaws::{lemma_runs_is_executed, Site};
use crate::stack::{message, underflow};
use crate::text::{dec, dec_i64, dec_u64, text};
use crate::vm::{
    flag_set, has_flag, Env, EnvModel, RecordModel, StepRecord, Vm, VmModel, LOCKTIME_THRESHOLD,
    VERIFY_CHECKLOCKTIMEVERIFY, VERIFY_CHECKSEQUENCEVERIFY,
};
use vstd::prelude::*;
use vstd::string::StringExecFns;

verus! {

/// The largest script number the locktime opcodes read, in bytes.
pub const LOCKTIME_NUM_SIZE: usize = 5;

/// Whether a transaction with this lock time and input sequence may be spent
/// where a script wants `want`: the note or the error that says so.
pub open spec fn cltv_verdict(want: int, lock_time: u32, sequence: u32) -> Result<
    Seq<char>,
    Seq<char>,
> {
    if (want < LOCKTIME_THRESHOLD) != (lock_time < LOCKTIME_THRESHOLD) {
        Err(
            "CLTV: mixed units (script wants "@ + dec(want) + ", tx locktime is "@ + dec(
                lock_time as int,
            ) + ")"@,
        )
    } else if want > lock_time {
        Err(
            "CLTV: locktime requirement "@ + dec(want) + " not met by tx locktime "@ + dec(
                lock_time as int,
            ),
        )
    } else if sequence == 0xffff_ffff {
        Err("CLTV: input sequence is final (0xffffffff), which disables locktime"@)
    } else {
        Ok("CLTV satisfied: requires "@ + dec(want) + ", tx locktime is "@ + dec(lock_time as int))
    }
}

/// The view of two texts.
pub open spec fn text_or_message(r: Result<String, String>) -> Result<Seq<char>, Seq<char>> {
    match r {
        Ok(s) => Ok(s@),
        Err(e) => Err(e@),
    }
}

/// Hold a wanted lock time against a transaction's.
pub fn judge_cltv(want: i64, lock_time: u32, sequence: u32) -> (r: Result<String, String>)
    ensures
        text_or_message(r) == cltv_verdict(want as int, lock_time, sequence),
{
    let tx_lock: i64 = lock_time as i64;
    let same_unit = (want < LOCKTIME_THRESHOLD) == (tx_lock < LOCKTIME_THRESHOLD);
    if !same_unit {
        return Err(
            text("CLTV: mixed units (script wants ").concat(dec_i64(want).as_str()).concat(
                ", tx locktime is ",
            ).concat(dec_i64(tx_lock).as_str()).concat(")"),
        );
    }
    if want > tx_lock {
        return Err(
            text("CLTV: locktime requirement ").concat(dec_i64(want).as_str()).concat(
                " not met by tx locktime ",
            ).concat(dec_i64(tx_lock).as_str()),
        );
    }
    if sequence == 0xffff_ffff {
        return Err(
            text("CLTV: input sequence is final (0xffffffff), which disables locktime"),
        );
    }
    Ok(
        text("CLTV satisfied: requires ").concat(dec_i64(want).as_str()).concat(
            ", tx locktime is ",
        ).concat(dec_i64(tx_lock).as_str()),
    )
}

/// Bit 31: the relative lock time is switched off.
pub open spec fn lock_disabled(n: int) -> bool {
    n / 0x8000_0000 % 2 == 1
}

/// Bit 22: the relative lock time counts units of 512 seconds, not blocks.
pub open spec fn lock_in_time(n: int) -> bool {
    n / 0x40_0000 % 2 == 1
}

/// The low 16 bits: the relative lock time itself.
pub open spec fn lock_amount(n: int) -> int {
    n % 0x1_0000
}

/// Whether an input with this sequence, in a transaction of this version, may
/// be spent where a script wants `want`: the note or the error that says so.
pub open spec fn csv_verdict(want: int, version: i32, sequence: u32) -> Result<
    Seq<char>,
    Seq<char>,
> {
    if version < 2 {
        Err("CSV: requires tx version >= 2, this tx is version "@ + dec(version as int))
    } else if lock_disabled(sequence as int) {
        Err("CSV: the input's sequence disables relative locktime"@)
    } else if lock_in_time(want) != lock_in_time(sequence as int) {
        Err("CSV: mixed units (blocks vs time)"@)
    } else if lock_amount(want) > lock_amount(sequence as int) {
        Err(
            "CSV: requires "@ + dec(lock_amount(want)) + " but the input's sequence gives "@ + dec(
                lock_amount(sequence as int),
            ),
        )
    } else {
        Ok(
            "CSV satisfied: requires "@ + dec(lock_amount(want)) + " "@ + (if lock_in_time(want) {
                "512s units"@
            } else {
                "blocks"@
            }),
        )
    }
}

/// Hold a wanted relative lock time against an input's.
pub fn judge_csv(want: i64, version: i32, sequence: u32) -> (r: Result<String, String>)
    requires
        want >= 0,
    ensures
        text_or_message(r) == csv_verdict(want as int, version, sequence),
{
    if version < 2 {
        return Err(
            text("CSV: requires tx version >= 2, this tx is version ").concat(
                dec_i64(version as i64).as_str(),
            ),
        );
    }
    let want: u64 = want as u64;
    let seq: u64 = sequence as u64;
    if seq / 0x8000_0000 % 2 == 1 {
        return Err(text("CSV: the input's sequence disables relative locktime"));
    }
    let want_time = want / 0x40_0000 % 2 == 1;
    let seq_time = seq / 0x40_0000 % 2 == 1;
    if want_time != seq_time {
        return Err(text("CSV: mixed units (blocks vs time)"));
    }
    let want_amount: u64 = want % 0x1_0000;
    let seq_amount: u64 = seq % 0x1_0000;
    if want_amount > seq_amount {
        return Err(
            text("CSV: requires ").concat(dec_u64(want_amount).as_str()).concat(
                " but the input's sequence gives ",
            ).concat(dec_u64(seq_amount).as_str()),
        );
    }
    let unit = if want_time {
        "512s units"
    } else {
        "blocks"
    };
    Ok(
        text("CSV satisfied: requires ").concat(dec_u64(want_amount).as_str()).concat(" ").concat(
            unit,
        ),
    )
}

/// An opcode that changes nothing but the record, or fails.
pub open spec fn noting(
    vm: VmModel,
    rec: RecordModel,
    verdict: Result<Seq<char>, Seq<char>>,
) -> Done {
    match verdict {
        Ok(note) => Done { vm, rec: rec.noted(note), err: None },
        Err(e) => Done { vm, rec, err: Some(e) },
    }
}

/// The number that a locktime opcode reads off the top of the stack, which it
/// leaves there.
pub open spec fn wanted(env: EnvModel, vm: VmModel) -> Result<int, Seq<char>> {
    if vm.stack.len() == 0 {
        Err(underflow())
    } else {
        decoded(vm.stack.last(), env.minimal(), LOCKTIME_NUM_SIZE as int)
    }
}

fn read_wanted(env: &Env, vm: &Vm) -> (r: Result<i64, String>)
    ensures
        match r {
            Ok(n) => wanted(env@, vm@) == Ok::<int, Seq<char>>(n as int),
            Err(e) => wanted(env@, vm@) == Err::<int, Seq<char>>(e@),
        },
{
    let n: usize = vm.stack.len();
    if n == 0 {
        return Err(text("stack underflow"));
    }
    let top = vm.stack.at(n - 1);
    match decode(top.as_slice(), env.require_minimal(), LOCKTIME_NUM_SIZE) {
        Ok(v) => Ok(v),
        Err(e) => Err(e.0),
    }
}

/// What `OP_CHECKLOCKTIMEVERIFY` says.
pub open spec fn cltv_said(env: EnvModel, vm: VmModel) -> Result<Seq<char>, Seq<char>> {
    if !has_flag(env.flags, VERIFY_CHECKLOCKTIMEVERIFY) {
        Ok("CLTV not enforced by the current flags: acts as OP_NOP2"@)
    } else {
        match wanted(env, vm) {
            Err(e) => Err(e),
            Ok(want) => if want < 0 {
                Err("CLTV: negative locktime"@)
            } else {
                match env.ctx {
                    None => Ok("no transaction context: CLTV treated as satisfied"@),
                    Some(c) => cltv_verdict(
                        want,
                        c.tx().lock_time,
                        c.tx().inputs[c.index].sequence,
                    ),
                }
            },
        }
    }
}

/// What `OP_CHECKSEQUENCEVERIFY` says.
pub open spec fn csv_said(env: EnvModel, vm: VmModel) -> Result<Seq<char>, Seq<char>> {
    if !has_flag(env.flags, VERIFY_CHECKSEQUENCEVERIFY) {
        Ok("CSV not enforced by the current flags: acts as OP_NOP3"@)
    } else {
        match wanted(env, vm) {
            Err(e) => Err(e),
            Ok(want) => if want < 0 {
                Err("CSV: negative sequence"@)
            } else if lock_disabled(want) {
                Ok("CSV: disable flag set, requirement ignored"@)
            } else {
                match env.ctx {
                    None => Ok("no transaction context: CSV treated as satisfied"@),
                    Some(c) => csv_verdict(
                        want,
                        c.tx().version,
                        c.tx().inputs[c.index].sequence,
                    ),
                }
            },
        }
    }
}

fn say_cltv(env: &Env, vm: &Vm) -> (r: Result<String, String>)
    requires
        env@.wf(),
    ensures
        text_or_message(r) == cltv_said(env@, vm@),
{
    if !flag_set(env.flags, VERIFY_CHECKLOCKTIMEVERIFY) {
        return Ok(text("CLTV not enforced by the current flags: acts as OP_NOP2"));
    }
    let want: i64 = match read_wanted(env, vm) {
        Ok(n) => n,
        Err(e) => {
            return Err(e);
        },
    };
    if want < 0 {
        return Err(text("CLTV: negative locktime"));
    }
    match env.ctx {
        None => Ok(text("no transaction context: CLTV treated as satisfied")),
        Some(ctx) => {
            let tx = ctx.tx.parts();
            assert(tx@.inputs[ctx.input_index as int] == tx.inputs@[ctx.input_index as int]@);
            judge_cltv(want, tx.lock_time, tx.inputs[ctx.input_index].sequence)
        },
    }
}

fn say_csv(env: &Env, vm: &Vm) -> (r: Result<String, String>)
    requires
        env@.wf(),
    ensures
        text_or_message(r) == csv_said(env@, vm@),
{
    if !flag_set(env.flags, VERIFY_CHECKSEQUENCEVERIFY) {
        return Ok(text("CSV not enforced by the current flags: acts as OP_NOP3"));
    }
    let want: i64 = match read_wanted(env, vm) {
        Ok(n) => n,
        Err(e) => {
            return Err(e);
        },
    };
    if want < 0 {
        return Err(text("CSV: negative sequence"));
    }
    if want as u64 / 0x8000_0000 % 2 == 1 {
        return Ok(text("CSV: disable flag set, requirement ignored"));
    }
    match env.ctx {
        None => Ok(text("no transaction context: CSV treated as satisfied")),
        Some(ctx) => {
            let tx = ctx.tx.parts();
            assert(tx@.inputs[ctx.input_index as int] == tx.inputs@[ctx.input_index as int]@);
            judge_csv(want, tx.version, tx.inputs[ctx.input_index].sequence)
        },
    }
}

/// The locktime opcodes.
pub open spec fn locktime(env: EnvModel, vm: VmModel, rec: RecordModel, op: u8) -> Done {
    noting(
        vm,
        rec,
        if op == 0xb1 {
            cltv_said(env, vm)
        } else {
            csv_said(env, vm)
        },
    )
}

/// Run a locktime opcode.
pub(crate) fn run_locktime(env: &Env, vm: &Vm, r: &mut StepRecord, op: u8) -> (res: Result<
    (),
    String,
>)
    requires
        env@.wf(),
    ensures
        ({
            let want = locktime(env@, vm@, old(r)@, op);
            &&& vm@ == want.vm
            &&& final(r)@ == want.rec
            &&& message(res) == want.err
        }),
{
    let said = if op == 0xb1 {
        say_cltv(env, vm)
    } else {
        say_csv(env, vm)
    };
    match said {
        Ok(note) => {
            r.note(note);
            Ok(())
        },
        Err(e) => Err(e),
    }
}

/// A requirement that the locktime opcodes can read.
pub open spec fn readable(want: int) -> bool {
    0 <= want < 0x80_0000_0000
}

proof fn lemma_wanted_on_top(env: EnvModel, vm: VmModel, base: Seq<Seq<u8>>, want: int)
    requires
        -0x80_0000_0000 < want < 0x80_0000_0000,
    ensures
        wanted(env, vm.with_stack(base + seq![script_num(want)])) == Ok::<int, Seq<char>>(want),
{
    reveal_with_fuel(pow256, 6);
    law_encoded_size(want, 5);
    law_encode_then_decode(want);
    assert((base + seq![script_num(want)]).last() == script_num(want));
}

/// A locktime opcode leaves the state as it is, stack included, and records no
/// check.
pub open spec fn only_notes(at: Site, op: u8, st: Seq<Seq<u8>>) -> bool {
    &&& at.runs(op, st).vm == at.vm.with_stack(st)
    &&& at.runs(op, st).rec.sigs == at.rec.sigs
}

/// With a transaction loaded, and where the flags enforce it,
/// `OP_CHECKLOCKTIMEVERIFY` passes exactly if the requirement and the
/// transaction's lock time are both block heights or both times, the
/// requirement is at most the lock time, and the input's sequence is not final.
pub proof fn law_cltv(at: Site, base: Seq<Seq<u8>>, want: int)
    requires
        readable(want),
        at.env.ctx is Some,
        at.env.flags & 0x200 != 0,
    ensures
        ({
            let st = base + seq![script_num(want)];
            let c = at.env.ctx->0;
            let lock = c.tx().lock_time as int;
            &&& only_notes(at, 0xb1, st)
            &&& at.runs(0xb1, st).err is None <==> {
                &&& want <= lock
                &&& want < 500_000_000 && lock < 500_000_000 || want >= 500_000_000 && lock
                    >= 500_000_000
                &&& c.tx().inputs[c.index].sequence < 0xffff_ffff
            }
        }),
{
    let st = base + seq![script_num(want)];
    lemma_wanted_on_top(at.env, at.vm, base, want);
    lemma_runs_is_executed(at, 0xb1, st);
}

/// The verdict on an absolute lock time is to pass exactly if the requirement
/// is of the lock time's unit and at most the lock time, and the input's
/// sequence is not final. So what a lock time satisfies, every later one of the
/// same unit satisfies too.
pub proof fn law_cltv_verdict(want: int, lock_time: u32, later: u32, sequence: u32)
    ensures
        cltv_verdict(want, lock_time, sequence) is Ok <==> {
            &&& want <= lock_time
            &&& want < 500_000_000 <==> lock_time < 500_000_000
            &&& sequence < 0xffff_ffff
        },
        cltv_verdict(want, lock_time, sequence) is Ok && lock_time <= later && (lock_time
            < 500_000_000 <==> later < 500_000_000) ==> cltv_verdict(want, later, sequence) is Ok,
{
}

/// With a transaction loaded, and where the flags enforce it,
/// `OP_CHECKSEQUENCEVERIFY` passes exactly if the requirement has its disable
/// bit set, or the transaction is of version 2 or later, the input's sequence
/// has its disable bit clear, both count in the same unit, and the requirement's
/// low 16 bits are at most the sequence's.
pub proof fn law_csv(at: Site, base: Seq<Seq<u8>>, want: u64)
    requires
        readable(want as int),
        at.env.ctx is Some,
        at.env.flags & 0x400 != 0,
    ensures
        ({
            let st = base + seq![script_num(want as int)];
            let c = at.env.ctx->0;
            let sequence = c.tx().inputs[c.index].sequence;
            &&& only_notes(at, 0xb2, st)
            &&& at.runs(0xb2, st).err is None <==> {
                ||| want & 0x8000_0000 != 0
                ||| {
                    &&& c.tx().version >= 2
                    &&& sequence & 0x8000_0000 == 0
                    &&& want & 0x40_0000 == (sequence & 0x40_0000) as u64
                    &&& want & 0xffff <= (sequence & 0xffff) as u64
                }
            }
        }),
{
    let st = base + seq![script_num(want as int)];
    let c = at.env.ctx->0;
    let sequence = c.tx().inputs[c.index].sequence;
    lemma_wanted_on_top(at.env, at.vm, base, want as int);
    lemma_runs_is_executed(at, 0xb2, st);
    assert(want & 0x8000_0000 != 0 <==> want / 0x8000_0000 % 2 == 1) by (bit_vector);
    assert(want & 0x40_0000 == if want / 0x40_0000 % 2 == 1 {
        0x40_0000u64
    } else {
        0
    }) by (bit_vector);
    assert(want & 0xffff == want % 0x1_0000) by (bit_vector);
    assert(sequence & 0x8000_0000 != 0 <==> sequence / 0x8000_0000 % 2 == 1) by (bit_vector);
    assert(sequence & 0x40_0000 == if sequence / 0x40_0000 % 2 == 1 {
        0x40_0000u32
    } else {
        0
    }) by (bit_vector);
    assert(sequence & 0xffff == sequence % 0x1_0000) by (bit_vector);
}

/// The locktime opcodes refuse an empty stack and a negative requirement where
/// the flags enforce them. Where they do not, or there is no transaction to hold
/// the requirement against, they pass.
pub proof fn law_locktime_opcodes_at_the_edges(
    at: Site,
    base: Seq<Seq<u8>>,
    st: Seq<Seq<u8>>,
    want: int,
)
    requires
        -0x80_0000_0000 < want < 0x80_0000_0000,
    ensures
        at.env.flags & 0x200 != 0 ==> at.refuses(0xb1, Seq::empty()),
        at.env.flags & 0x400 != 0 ==> at.refuses(0xb2, Seq::empty()),
        at.env.flags & 0x200 == 0 ==> at.runs(0xb1, st).err is None && only_notes(at, 0xb1, st),
        at.env.flags & 0x400 == 0 ==> at.runs(0xb2, st).err is None && only_notes(at, 0xb2, st),
        want < 0 && at.env.flags & 0x200 != 0 ==> at.refuses(0xb1, base + seq![script_num(want)]),
        want < 0 && at.env.flags & 0x400 != 0 ==> at.refuses(0xb2, base + seq![script_num(want)]),
        want >= 0 && at.env.ctx is None ==> at.runs(0xb1, base + seq![script_num(want)]).err is None
            && at.runs(0xb2, base + seq![script_num(want)]).err is None,
{
    lemma_wanted_on_top(at.env, at.vm, base, want);
    lemma_runs_is_executed(at, 0xb1, Seq::empty());
    lemma_runs_is_executed(at, 0xb2, Seq::empty());
    lemma_runs_is_executed(at, 0xb1, st);
    lemma_runs_is_executed(at, 0xb2, st);
    lemma_runs_is_executed(at, 0xb1, base + seq![script_num(want)]);
    lemma_runs_is_executed(at, 0xb2, base + seq![script_num(want)]);
}

/// A locktime requirement of more than five bytes is refused, and under
/// MINIMALDATA one that is not minimally encoded.
pub proof fn law_locktime_numbers_are_held_to_the_rules(at: Site, base: Seq<Seq<u8>>, v: Seq<u8>)
    requires
        v.len() > 5 || (at.env.flags & 0x40 != 0 && !is_minimal(v)),
    ensures
        at.env.flags & 0x200 != 0 ==> at.refuses(0xb1, base + seq![v]),
        at.env.flags & 0x400 != 0 ==> at.refuses(0xb2, base + seq![v]),
{
    let st = base + seq![v];
    assert(st.last() == v);
    lemma_runs_is_executed(at, 0xb1, st);
    lemma_runs_is_executed(at, 0xb2, st);
}

/// The verdict on a relative lock time is to pass exactly if the transaction is
/// of version 2 or later, the sequence's disable bit is clear, both count in the
/// same unit, and the requirement is at most what the sequence gives.
pub proof fn law_csv_verdict(want: u64, version: i32, sequence: u32)
    ensures
        csv_verdict(want as int, version, sequence) is Ok <==> {
            &&& version >= 2
            &&& sequence & 0x8000_0000 == 0
            &&& want & 0x40_0000 == (sequence & 0x40_0000) as u64
            &&& want & 0xffff <= (sequence & 0xffff) as u64
        },
{
    assert(want & 0x40_0000 == if want / 0x40_0000 % 2 == 1 {
        0x40_0000u64
    } else {
        0
    }) by (bit_vector);
    assert(want & 0xffff == want % 0x1_0000) by (bit_vector);
    assert(sequence & 0x8000_0000 != 0 <==> sequence / 0x8000_0000 % 2 == 1) by (bit_vector);
    assert(sequence & 0x40_0000 == if sequence / 0x40_0000 % 2 == 1 {
        0x40_0000u32
    } else {
        0
    }) by (bit_vector);
    assert(sequence & 0xffff == sequence % 0x1_0000) by (bit_vector);
}

} // verus!
