//! `OP_CHECKMULTISIG`: matching signatures to keys in order.

use crate::assembly::{push_text, texts};
use crate::checks::{attempt, check_sig, ecdsa_in_script, stack_done, Done};
use crate::hexcodec::hex_encode;
use crate::ops::{done, fail, Run};
use crate::spend::SigVersion;
use crate::stack::{bool_item, message, popped, popped_number, underflow, Stack};
use crate::text::{dec, dec_i64, dec_usize, hex_text, text};
use crate::tx::byte_strings;
use crate::vm::{
    flag_set, has_flag, Env, EnvModel, RecordModel, StepRecord, Vm, VmModel, MAX_OPS_PER_SCRIPT,
    MAX_PUBKEYS_PER_MULTISIG, VERIFY_NULLDUMMY, VERIFY_NULLFAIL,
};
use vstd::prelude::*;
use vstd::string::StringExecFns;

verus! {

/// How far the matching of signatures to keys has come.
pub struct Matching {
    /// Signatures that have found their key; also the next one to place.
    pub matched: usize,
    /// Keys that have been tried; also the next one to try.
    pub tried: usize,
    /// What is told of the matches.
    pub details: Vec<String>,
}

/// The progress of a matching as mathematical values.
#[verifier::ext_equal]
pub struct MatchModel {
    pub matched: int,
    pub tried: int,
    pub details: Seq<Seq<char>>,
}

impl View for Matching {
    type V = MatchModel;

    open spec fn view(&self) -> MatchModel {
        MatchModel {
            matched: self.matched as int,
            tried: self.tried as int,
            details: texts(self.details@),
        }
    }
}

/// A matching that has not begun.
pub open spec fn unmatched() -> MatchModel {
    MatchModel { matched: 0, tried: 0, details: Seq::empty() }
}

/// The line that shows the bytes of signature `n`.
pub open spec fn signature_line(n: int, sig: Seq<u8>) -> Seq<char> {
    "  signature "@ + dec(n) + " = "@ + hex_text(sig)
}

impl MatchModel {
    /// Whether there is a signature to place and a key to try.
    pub open spec fn open(self, nsigs: int, nkeys: int) -> bool {
        self.matched < nsigs && self.tried < nkeys
    }

    /// After the next signature was checked against the next key. A match is
    /// spelled out in full: with several checks per op, "signature 2 matched
    /// key 3" alone leaves the reader counting stack items.
    pub open spec fn after(self, ok: bool, sig: Seq<u8>, key: Seq<u8>) -> MatchModel {
        if ok {
            MatchModel {
                matched: self.matched + 1,
                tried: self.tried + 1,
                details: self.details.push(
                    "signature "@ + dec(self.matched + 1) + " matched key "@ + dec(self.tried + 1),
                ).push("  key "@ + dec(self.tried + 1) + " = "@ + hex_text(key)).push(
                    signature_line(self.matched + 1, sig),
                ),
            }
        } else {
            MatchModel { tried: self.tried + 1, ..self }
        }
    }

    /// What is told of the matches in the end: a signature that ran out of keys
    /// is named.
    pub open spec fn story(self, sigs: Seq<Seq<u8>>) -> Seq<Seq<char>> {
        if self.matched < sigs.len() {
            self.details.push(
                "signature "@ + dec(self.matched + 1) + " matched none of the remaining keys"@,
            ).push(signature_line(self.matched + 1, sigs[self.matched]))
        } else {
            self.details
        }
    }
}

impl Matching {
    pub fn new() -> (r: Matching)
        ensures
            r@ == unmatched(),
    {
        let r = Matching { matched: 0, tried: 0, details: Vec::new() };
        assert(r@ =~= unmatched());
        r
    }

    /// Take the verdict on the next signature and the next key.
    pub fn report(&mut self, ok: bool, sig: &[u8], key: &[u8])
        requires
            old(self)@.matched < usize::MAX,
            old(self)@.tried < usize::MAX,
        ensures
            final(self)@ == old(self)@.after(ok, sig@, key@),
    {
        self.tried = self.tried + 1;
        if ok {
            self.matched = self.matched + 1;
            let sig_no = dec_usize(self.matched);
            let key_no = dec_usize(self.tried);
            push_text(
                &mut self.details,
                text("signature ").concat(sig_no.as_str()).concat(" matched key ").concat(
                    key_no.as_str(),
                ),
            );
            push_text(
                &mut self.details,
                text("  key ").concat(key_no.as_str()).concat(" = ").concat(
                    hex_encode(key).as_str(),
                ),
            );
            push_text(
                &mut self.details,
                text("  signature ").concat(sig_no.as_str()).concat(" = ").concat(
                    hex_encode(sig).as_str(),
                ),
            );
        }
        assert(self@ =~= old(self)@.after(ok, sig@, key@));
    }

    /// Tell of the matches.
    pub fn tell(self, sigs: &Vec<Vec<u8>>) -> (r: Vec<String>)
        ensures
            texts(r@) == self@.story(byte_strings(sigs@)),
    {
        let mut details = self.details;
        if self.matched < sigs.len() {
            let sig_no = dec_usize(self.matched + 1);
            push_text(
                &mut details,
                text("signature ").concat(sig_no.as_str()).concat(
                    " matched none of the remaining keys",
                ),
            );
            push_text(
                &mut details,
                text("  signature ").concat(sig_no.as_str()).concat(" = ").concat(
                    hex_encode(sigs[self.matched].as_slice()).as_str(),
                ),
            );
        }
        details
    }
}

/// What a run of checks leaves: the state, the record, and the matching or the
/// reason why the script cannot go on.
#[verifier::ext_equal]
pub struct Walk {
    pub vm: VmModel,
    pub rec: RecordModel,
    pub result: Result<MatchModel, Seq<char>>,
}

/// Signatures must appear in the same relative order as keys: the next
/// signature is checked against the next key until one of them runs out.
pub open spec fn walk(
    env: EnvModel,
    vm: VmModel,
    rec: RecordModel,
    frame: int,
    sigs: Seq<Seq<u8>>,
    keys: Seq<Seq<u8>>,
    m: MatchModel,
) -> Walk
    decreases keys.len() - m.tried,
{
    if m.open(sigs.len() as int, keys.len() as int) {
        let sig = sigs[m.matched];
        let key = keys[m.tried];
        let a = attempt(env, vm, rec, frame, sigs, sig, key);
        match a.ok {
            Err(e) => Walk { vm: a.vm, rec: a.rec, result: Err(e) },
            Ok(ok) => walk(env, a.vm, a.rec, frame, sigs, keys, m.after(ok, sig, key)),
        }
    } else {
        Walk { vm, rec, result: Ok(m) }
    }
}

/// The view of a matching or a message.
pub open spec fn matching_or_message(r: Result<Matching, String>) -> Result<
    MatchModel,
    Seq<char>,
> {
    match r {
        Ok(m) => Ok(m@),
        Err(e) => Err(e@),
    }
}

fn run_walk(
    env: &Env,
    vm: &mut Vm,
    r: &mut StepRecord,
    frame_idx: usize,
    sigs: &Vec<Vec<u8>>,
    keys: &Vec<Vec<u8>>,
) -> (res: Result<Matching, String>)
    requires
        env.frames_wf(),
        frame_idx < env@.frames.len(),
    ensures
        ({
            let want = walk(
                env@,
                old(vm)@,
                old(r)@,
                frame_idx as int,
                byte_strings(sigs@),
                byte_strings(keys@),
                unmatched(),
            );
            &&& final(vm)@ == want.vm
            &&& final(r)@ == want.rec
            &&& matching_or_message(res) == want.result
        }),
{
    let ghost want = walk(
        env@,
        vm@,
        r@,
        frame_idx as int,
        byte_strings(sigs@),
        byte_strings(keys@),
        unmatched(),
    );
    let mut m = Matching::new();
    while m.matched < sigs.len() && m.tried < keys.len()
        invariant
            env.frames_wf(),
            frame_idx < env@.frames.len(),
            want == walk(
                env@,
                old(vm)@,
                old(r)@,
                frame_idx as int,
                byte_strings(sigs@),
                byte_strings(keys@),
                unmatched(),
            ),
            want == walk(
                env@,
                vm@,
                r@,
                frame_idx as int,
                byte_strings(sigs@),
                byte_strings(keys@),
                m@,
            ),
        decreases keys@.len() - m.tried,
    {
        let sig = &sigs[m.matched];
        let key = &keys[m.tried];
        let ok = match check_sig(env, vm, r, frame_idx, sigs, sig.as_slice(), key.as_slice()) {
            Ok(ok) => ok,
            Err(e) => {
                return Err(e);
            },
        };
        m.report(ok, sig.as_slice(), key.as_slice());
    }
    Ok(m)
}

/// The stack once `k` elements are taken off, and those elements from the
/// lowest up.
pub open spec fn popped_many(st: Seq<Seq<u8>>, k: int) -> (Seq<Seq<u8>>, Result<
    Seq<Seq<u8>>,
    Seq<char>,
>) {
    if st.len() < k {
        (Seq::empty(), Err(underflow()))
    } else {
        (st.take(st.len() - k), Ok(st.skip(st.len() - k)))
    }
}

/// The view of byte strings or a message.
pub open spec fn items_or_message(r: Result<Vec<Vec<u8>>, String>) -> Result<
    Seq<Seq<u8>>,
    Seq<char>,
> {
    match r {
        Ok(v) => Ok(byte_strings(v@)),
        Err(e) => Err(e@),
    }
}

/// Take `k` elements off the stack.
fn pop_many(stack: &mut Stack, k: usize) -> (r: Result<Vec<Vec<u8>>, String>)
    ensures
        ({
            let (st, want) = popped_many(old(stack)@, k as int);
            final(stack)@ == st && items_or_message(r) == want
        }),
{
    let n: usize = stack.len();
    if n < k {
        stack.clear();
        return Err(text("stack underflow"));
    }
    let ghost st = stack@;
    let mut out: Vec<Vec<u8>> = Vec::new();
    let mut i: usize = 0;
    assert(st.take(n as int) =~= st);
    while i < k
        invariant
            i <= k <= n == st.len(),
            stack@ =~= st.take(n - k) + st.skip(n - k + i),
            byte_strings(out@) =~= st.subrange(n - k, n - k + i),
        decreases k - i,
    {
        let ghost before = out@;
        let v = stack.remove(n - k);
        out.push(v);
        assert(byte_strings(out@) =~= byte_strings(before).push(v@));
        i = i + 1;
    }
    assert(stack@ =~= st.take(n - k));
    assert(byte_strings(out@) =~= st.skip(n - k));
    Ok(out)
}

/// What `OP_CHECKMULTISIG` takes off the stack.
pub struct MultisigArgs {
    pub keys: Vec<Vec<u8>>,
    pub sigs: Vec<Vec<u8>>,
    /// The element that is taken off beyond what is used.
    pub dummy: Vec<u8>,
}

/// The operands of a multisig as mathematical values.
#[verifier::ext_equal]
pub struct ArgsModel {
    pub keys: Seq<Seq<u8>>,
    pub sigs: Seq<Seq<u8>>,
    pub dummy: Seq<u8>,
}

impl View for MultisigArgs {
    type V = ArgsModel;

    open spec fn view(&self) -> ArgsModel {
        ArgsModel {
            keys: byte_strings(self.keys@),
            sigs: byte_strings(self.sigs@),
            dummy: self.dummy@,
        }
    }
}

/// The op count once the keys of a multisig are added to it. Sandbox mode
/// counts no ops.
pub open spec fn multisig_op_count(env: EnvModel, vm: VmModel, nkeys: int) -> int {
    if env.experimental() {
        vm.op_count
    } else {
        vm.op_count + nkeys
    }
}

/// The state once the number of keys is read, and that number.
pub open spec fn taken_key_count(env: EnvModel, vm: VmModel) -> (VmModel, Result<int, Seq<char>>) {
    let (s1, nkeys) = popped_number(vm.stack, env.minimal());
    let v1 = vm.with_stack(s1);
    match nkeys {
        Err(e) => (v1, Err(e)),
        Ok(nkeys) => if nkeys < 0 || nkeys > MAX_PUBKEYS_PER_MULTISIG {
            (v1, Err("invalid public key count "@ + dec(nkeys)))
        } else {
            let count = multisig_op_count(env, vm, nkeys);
            let v2 = VmModel { op_count: count, ..v1 };
            if !env.experimental() && count > MAX_OPS_PER_SCRIPT {
                (v2, Err("op count exceeded "@ + dec(MAX_OPS_PER_SCRIPT as int)))
            } else {
                (v2, Ok(nkeys))
            }
        },
    }
}

/// The state once the operands of a multisig are taken off the stack, and those
/// operands: a count, that many keys, a count, that many signatures, and one
/// element more.
pub open spec fn taken_args(env: EnvModel, vm: VmModel) -> (VmModel, Result<ArgsModel, Seq<char>>) {
    let (v2, nkeys) = taken_key_count(env, vm);
    match nkeys {
        Err(e) => (v2, Err(e)),
        Ok(nkeys) => {
            let (s3, keys) = popped_many(v2.stack, nkeys);
            match keys {
                Err(e) => (v2.with_stack(s3), Err(e)),
                Ok(keys) => {
                    let (s4, nsigs) = popped_number(s3, env.minimal());
                    match nsigs {
                        Err(e) => (v2.with_stack(s4), Err(e)),
                        Ok(nsigs) => if nsigs < 0 || nsigs > nkeys {
                            (
                                v2.with_stack(s4),
                                Err(
                                    "invalid signature count "@ + dec(nsigs) + " for "@ + dec(nkeys)
                                        + " keys"@,
                                ),
                            )
                        } else {
                            let (s5, sigs) = popped_many(s4, nsigs);
                            match sigs {
                                Err(e) => (v2.with_stack(s5), Err(e)),
                                Ok(sigs) => {
                                    let (s6, dummy) = popped(s5);
                                    match dummy {
                                        Err(e) => (v2.with_stack(s6), Err(e)),
                                        Ok(dummy) => (
                                            v2.with_stack(s6),
                                            Ok(ArgsModel { keys, sigs, dummy }),
                                        ),
                                    }
                                },
                            }
                        },
                    }
                },
            }
        },
    }
}

fn take_key_count(env: &Env, vm: &mut Vm) -> (r: Result<usize, String>)
    requires
        0 <= old(vm).op_count <= MAX_OPS_PER_SCRIPT,
    ensures
        ({
            let (v, want) = taken_key_count(env@, old(vm)@);
            &&& final(vm)@ == v
            &&& match r {
                Ok(n) => want == Ok::<int, Seq<char>>(n as int) && n <= MAX_PUBKEYS_PER_MULTISIG,
                Err(e) => want == Err::<int, Seq<char>>(e@),
            }
        }),
{
    let ghost before = vm@;
    let nkeys: i64 = match vm.stack.pop_num(env.require_minimal()) {
        Ok(n) => n,
        Err(e) => {
            assert(vm@ =~= before.with_stack(vm.stack@));
            return Err(e);
        },
    };
    assert(vm@ =~= before.with_stack(vm.stack@));
    if nkeys < 0 || nkeys > MAX_PUBKEYS_PER_MULTISIG {
        return Err(text("invalid public key count ").concat(dec_i64(nkeys).as_str()));
    }
    let n: usize = nkeys as usize;
    if !env.experimental() {
        vm.op_count = vm.op_count + n;
        if vm.op_count > MAX_OPS_PER_SCRIPT {
            return Err(
                text("op count exceeded ").concat(dec_usize(MAX_OPS_PER_SCRIPT).as_str()),
            );
        }
    }
    Ok(n)
}

fn take_args(env: &Env, vm: &mut Vm) -> (r: Result<MultisigArgs, String>)
    requires
        0 <= old(vm).op_count <= MAX_OPS_PER_SCRIPT,
    ensures
        ({
            let (v, want) = taken_args(env@, old(vm)@);
            &&& final(vm)@ == v
            &&& match r {
                Ok(a) => want == Ok::<ArgsModel, Seq<char>>(a@),
                Err(e) => want == Err::<ArgsModel, Seq<char>>(e@),
            }
        }),
{
    let nkeys: usize = match take_key_count(env, vm) {
        Ok(n) => n,
        Err(e) => {
            return Err(e);
        },
    };
    let ghost v2 = vm@;
    let keys = match pop_many(&mut vm.stack, nkeys) {
        Ok(k) => k,
        Err(e) => {
            assert(vm@ =~= v2.with_stack(vm.stack@));
            return Err(e);
        },
    };
    let nsigs: i64 = match vm.stack.pop_num(env.require_minimal()) {
        Ok(n) => n,
        Err(e) => {
            assert(vm@ =~= v2.with_stack(vm.stack@));
            return Err(e);
        },
    };
    if nsigs < 0 || nsigs > nkeys as i64 {
        assert(vm@ =~= v2.with_stack(vm.stack@));
        return Err(
            text("invalid signature count ").concat(dec_i64(nsigs).as_str()).concat(" for ").concat(
                dec_usize(nkeys).as_str(),
            ).concat(" keys"),
        );
    }
    let sigs = match pop_many(&mut vm.stack, nsigs as usize) {
        Ok(s) => s,
        Err(e) => {
            assert(vm@ =~= v2.with_stack(vm.stack@));
            return Err(e);
        },
    };
    let dummy = match vm.stack.pop() {
        Ok(d) => d,
        Err(e) => {
            assert(vm@ =~= v2.with_stack(vm.stack@));
            return Err(e);
        },
    };
    assert(vm@ =~= v2.with_stack(vm.stack@));
    Ok(MultisigArgs { keys, sigs, dummy })
}

/// Some signature is not empty.
pub open spec fn some_nonempty(sigs: Seq<Seq<u8>>) -> bool {
    exists|i: int| 0 <= i < sigs.len() && (#[trigger] sigs[i]).len() > 0
}

fn any_nonempty(sigs: &Vec<Vec<u8>>) -> (r: bool)
    ensures
        r == some_nonempty(byte_strings(sigs@)),
{
    let ghost all = byte_strings(sigs@);
    let mut i: usize = 0;
    while i < sigs.len()
        invariant
            i <= sigs@.len(),
            all == byte_strings(sigs@),
            forall|k: int| 0 <= k < i ==> (#[trigger] all[k]).len() == 0,
        decreases sigs@.len() - i,
    {
        assert(all[i as int] == sigs@[i as int]@);
        if sigs[i].len() > 0 {
            return true;
        }
        i = i + 1;
    }
    false
}

/// What follows the checks of a multisig.
pub open spec fn multisig_settled(
    op: u8,
    flags: u32,
    ok: bool,
    sigs_nonempty: bool,
    st: Seq<Seq<u8>>,
) -> Run {
    if !ok && has_flag(flags, VERIFY_NULLFAIL) && sigs_nonempty {
        fail(
            st,
            "NULLFAIL: failing multisig with non-empty signatures (standardness rule; consensus allows this)"@,
        )
    } else if op == 0xae {
        done(st.push(bool_item(ok)))
    } else if ok {
        done(st)
    } else {
        fail(st, "OP_CHECKMULTISIGVERIFY failed"@)
    }
}

/// Use the verdict of a multisig.
pub fn settle_multisig(
    op: u8,
    flags: u32,
    ok: bool,
    sigs_nonempty: bool,
    stack: &mut Stack,
) -> (r: Result<(), String>)
    ensures
        ({
            let want = multisig_settled(op, flags, ok, sigs_nonempty, old(stack)@);
            final(stack)@ == want.stack && message(r) == want.err
        }),
{
    if !ok && flag_set(flags, VERIFY_NULLFAIL) && sigs_nonempty {
        return Err(
            text(
                "NULLFAIL: failing multisig with non-empty signatures (standardness rule; consensus allows this)",
            ),
        );
    }
    if op == 0xae {
        stack.push_bool(ok);
    } else if !ok {
        return Err(text("OP_CHECKMULTISIGVERIFY failed"));
    }
    Ok(())
}

/// The line that sums a multisig up.
pub open spec fn multisig_summary(nsigs: int, nkeys: int, ok: bool) -> Seq<char> {
    dec(nsigs) + "-of-"@ + dec(nkeys) + " multisig: "@ + (if ok {
        "satisfied"@
    } else {
        "NOT satisfied"@
    })
}

/// The rest of a multisig once its operands are off the stack.
pub open spec fn multisig_rest(
    env: EnvModel,
    vm: VmModel,
    rec: RecordModel,
    frame: int,
    op: u8,
    args: ArgsModel,
) -> Done {
    if has_flag(env.flags, VERIFY_NULLDUMMY) && args.dummy.len() > 0 {
        Done {
            vm,
            rec,
            err: Some("NULLDUMMY: the extra CHECKMULTISIG element must be empty"@),
        }
    } else {
        let r1 = if args.dummy.len() > 0 {
            rec.noted("the off-by-one dummy element is non-empty (fine pre-NULLDUMMY)"@)
        } else {
            rec
        };
        let w = walk(env, vm, r1, frame, args.sigs, args.keys, unmatched());
        match w.result {
            Err(e) => Done { vm: w.vm, rec: w.rec, err: Some(e) },
            Ok(m) => {
                let ok = m.matched == args.sigs.len();
                let r2 = RecordModel { notes: w.rec.notes + m.story(args.sigs), ..w.rec };
                let r3 = r2.noted(
                    multisig_summary(args.sigs.len() as int, args.keys.len() as int, ok),
                );
                stack_done(
                    w.vm,
                    r3,
                    multisig_settled(op, env.flags, ok, some_nonempty(args.sigs), w.vm.stack),
                )
            },
        }
    }
}

/// `OP_CHECKMULTISIG` and `OP_CHECKMULTISIGVERIFY`.
pub open spec fn multisig(env: EnvModel, vm: VmModel, rec: RecordModel, frame: int, op: u8) -> Done {
    if env.frames[frame].tapscript() {
        Done {
            vm,
            rec,
            err: Some("OP_CHECKMULTISIG is disabled in tapscript; use OP_CHECKSIGADD"@),
        }
    } else {
        let (v, args) = taken_args(env, vm);
        match args {
            Err(e) => Done { vm: v, rec, err: Some(e) },
            Ok(args) => multisig_rest(env, v, rec, frame, op, args),
        }
    }
}

/// Append notes to a record.
fn note_all(r: &mut StepRecord, notes: Vec<String>)
    ensures
        final(r)@ == (RecordModel { notes: old(r)@.notes + texts(notes@), ..old(r)@ }),
{
    let ghost before = r@;
    let mut i: usize = 0;
    assert(r@ =~= RecordModel { notes: before.notes + texts(notes@).take(0), ..before });
    while i < notes.len()
        invariant
            i <= notes@.len(),
            r@ == (RecordModel { notes: before.notes + texts(notes@).take(i as int), ..before }),
        decreases notes@.len() - i,
    {
        r.note(notes[i].clone());
        assert(texts(notes@).take(i + 1) =~= texts(notes@).take(i as int).push(
            notes@[i as int]@,
        ));
        i = i + 1;
        assert(r@ =~= RecordModel {
            notes: before.notes + texts(notes@).take(i as int),
            ..before
        });
    }
    assert(texts(notes@).take(i as int) =~= texts(notes@));
}

fn run_multisig_rest(
    env: &Env,
    vm: &mut Vm,
    r: &mut StepRecord,
    frame_idx: usize,
    op: u8,
    args: MultisigArgs,
) -> (res: Result<(), String>)
    requires
        env.frames_wf(),
        frame_idx < env@.frames.len(),
    ensures
        ({
            let want = multisig_rest(env@, old(vm)@, old(r)@, frame_idx as int, op, args@);
            &&& final(vm)@ == want.vm
            &&& final(r)@ == want.rec
            &&& message(res) == want.err
        }),
{
    if flag_set(env.flags, VERIFY_NULLDUMMY) && args.dummy.len() > 0 {
        return Err(text("NULLDUMMY: the extra CHECKMULTISIG element must be empty"));
    }
    if args.dummy.len() > 0 {
        r.note(text("the off-by-one dummy element is non-empty (fine pre-NULLDUMMY)"));
    }
    let m = match run_walk(env, vm, r, frame_idx, &args.sigs, &args.keys) {
        Ok(m) => m,
        Err(e) => {
            return Err(e);
        },
    };
    let ok = m.matched == args.sigs.len();
    note_all(r, m.tell(&args.sigs));
    let verdict = if ok {
        "satisfied"
    } else {
        "NOT satisfied"
    };
    r.note(
        dec_usize(args.sigs.len()).concat("-of-").concat(
            dec_usize(args.keys.len()).as_str(),
        ).concat(" multisig: ").concat(verdict),
    );
    let ghost middle = vm@;
    let res = settle_multisig(op, env.flags, ok, any_nonempty(&args.sigs), &mut vm.stack);
    assert(vm@ =~= middle.with_stack(vm.stack@));
    res
}

/// Run `OP_CHECKMULTISIG` or `OP_CHECKMULTISIGVERIFY`.
pub(crate) fn run_multisig(
    env: &Env,
    vm: &mut Vm,
    r: &mut StepRecord,
    frame_idx: usize,
    op: u8,
) -> (res: Result<(), String>)
    requires
        env.frames_wf(),
        frame_idx < env@.frames.len(),
        0 <= old(vm).op_count <= MAX_OPS_PER_SCRIPT,
    ensures
        ({
            let want = multisig(env@, old(vm)@, old(r)@, frame_idx as int, op);
            &&& final(vm)@ == want.vm
            &&& final(r)@ == want.rec
            &&& message(res) == want.err
        }),
{
    if env.frame(frame_idx).sigversion == SigVersion::Tapscript {
        return Err(text("OP_CHECKMULTISIG is disabled in tapscript; use OP_CHECKSIGADD"));
    }
    let args = match take_args(env, vm) {
        Ok(a) => a,
        Err(e) => {
            return Err(e);
        },
    };
    run_multisig_rest(env, vm, r, frame_idx, op, args)
}

/// Whether check `i`, `j` passes: signature `i` against key `j`, over the
/// scriptCode that all signatures have been deleted from.
pub open spec fn passes(
    env: EnvModel,
    vm: VmModel,
    frame: int,
    sigs: Seq<Seq<u8>>,
    keys: Seq<Seq<u8>>,
    i: int,
    j: int,
) -> bool {
    ecdsa_in_script(env, vm, frame, sigs, sigs[i], keys[j]).valid
}

/// `a` places the signatures from `i` on, in order, on keys from `j` on that
/// they are valid for.
pub open spec fn places(
    env: EnvModel,
    vm: VmModel,
    frame: int,
    sigs: Seq<Seq<u8>>,
    keys: Seq<Seq<u8>>,
    i: int,
    j: int,
    a: Seq<int>,
) -> bool {
    &&& a.len() == sigs.len() - i
    &&& forall|k: int|
        0 <= k < a.len() ==> j <= #[trigger] a[k] < keys.len() && passes(
            env,
            vm,
            frame,
            sigs,
            keys,
            i + k,
            a[k],
        )
    &&& forall|k: int, l: int| 0 <= k < l < a.len() ==> a[k] < a[l]
}

/// With a transaction loaded, a multisig outside tapscript is satisfied exactly
/// if its signatures can be placed, in their order, on keys that they are valid
/// for; trying each key once is enough to find out. The checks change nothing
/// but the record.
pub proof fn law_multisig_finds_any_ordered_match(
    env: EnvModel,
    vm: VmModel,
    rec: RecordModel,
    frame: int,
    sigs: Seq<Seq<u8>>,
    keys: Seq<Seq<u8>>,
)
    requires
        !env.frames[frame].tapscript(),
        env.ctx is Some,
    ensures
        ({
            let w = walk(env, vm, rec, frame, sigs, keys, unmatched());
            &&& w.vm == vm
            &&& w.result is Ok
            &&& w.result->Ok_0.matched <= sigs.len()
            &&& w.result->Ok_0.matched == sigs.len() <==> exists|a: Seq<int>|
                places(env, vm, frame, sigs, keys, 0, 0, a)
        }),
{
    lemma_walk_places(env, vm, rec, frame, sigs, keys, unmatched());
}

proof fn lemma_walk_places(
    env: EnvModel,
    vm: VmModel,
    rec: RecordModel,
    frame: int,
    sigs: Seq<Seq<u8>>,
    keys: Seq<Seq<u8>>,
    m: MatchModel,
)
    requires
        !env.frames[frame].tapscript(),
        env.ctx is Some,
        0 <= m.matched <= sigs.len(),
        0 <= m.tried <= keys.len(),
    ensures
        ({
            let w = walk(env, vm, rec, frame, sigs, keys, m);
            &&& w.vm == vm
            &&& w.result is Ok
            &&& w.result->Ok_0.matched <= sigs.len()
            &&& w.result->Ok_0.matched == sigs.len() <==> exists|a: Seq<int>|
                places(env, vm, frame, sigs, keys, m.matched, m.tried, a)
        }),
    decreases keys.len() - m.tried,
{
    reveal(attempt);
    let i = m.matched;
    let j = m.tried;
    let w = walk(env, vm, rec, frame, sigs, keys, m);
    if m.open(sigs.len() as int, keys.len() as int) {
        let at = attempt(env, vm, rec, frame, sigs, sigs[i], keys[j]);
        let ok = passes(env, vm, frame, sigs, keys, i, j);
        assert(at.ok == Ok::<bool, Seq<char>>(ok));
        let next = m.after(ok, sigs[i], keys[j]);
        lemma_walk_places(env, at.vm, at.rec, frame, sigs, keys, next);
        if exists|a: Seq<int>| places(env, vm, frame, sigs, keys, next.matched, next.tried, a) {
            let a = choose|a: Seq<int>|
                places(env, vm, frame, sigs, keys, next.matched, next.tried, a);
            if ok {
                let b = seq![j] + a;
                assert forall|k: int| 0 <= k < b.len() implies j <= #[trigger] b[k] < keys.len()
                    && passes(env, vm, frame, sigs, keys, i + k, b[k]) by {
                    if k > 0 {
                        assert(b[k] == a[k - 1]);
                    }
                }
                assert forall|k: int, l: int| 0 <= k < l < b.len() implies b[k] < b[l] by {
                    assert(b[l] == a[l - 1]);
                    if k > 0 {
                        assert(b[k] == a[k - 1]);
                    }
                }
                assert(places(env, vm, frame, sigs, keys, i, j, b));
            } else {
                assert(places(env, vm, frame, sigs, keys, i, j, a));
            }
        }
        if exists|a: Seq<int>| places(env, vm, frame, sigs, keys, i, j, a) {
            let a = choose|a: Seq<int>| places(env, vm, frame, sigs, keys, i, j, a);
            if ok {
                let b = a.drop_first();
                assert forall|k: int| 0 <= k < b.len() implies j + 1 <= #[trigger] b[k]
                    < keys.len() && passes(env, vm, frame, sigs, keys, i + 1 + k, b[k]) by {
                    assert(b[k] == a[k + 1]);
                    assert(a[0] < a[k + 1]);
                }
                assert(places(env, vm, frame, sigs, keys, i + 1, j + 1, b));
            } else {
                assert forall|k: int| 0 <= k < a.len() implies j + 1 <= #[trigger] a[k]
                    < keys.len() && passes(env, vm, frame, sigs, keys, i + k, a[k]) by {
                    assert(a[0] != j);
                    if k > 0 {
                        assert(a[0] < a[k]);
                    }
                }
                assert(places(env, vm, frame, sigs, keys, i, j + 1, a));
            }
        }
    } else if i == sigs.len() {
        assert(places(env, vm, frame, sigs, keys, i, j, Seq::empty()));
    } else {
        assert forall|a: Seq<int>| !places(env, vm, frame, sigs, keys, i, j, a) by {
            if places(env, vm, frame, sigs, keys, i, j, a) {
                assert(a[0] < keys.len());
            }
        }
    }
}

/// Every check of a multisig hashes the same scriptCode, from which all its
/// signatures have been deleted: each outcome it records is the one for some of
/// its signatures and some of its keys over that scriptCode.
pub proof fn law_multisig_checks_share_the_script_code(
    env: EnvModel,
    vm: VmModel,
    rec: RecordModel,
    frame: int,
    sigs: Seq<Seq<u8>>,
    keys: Seq<Seq<u8>>,
)
    requires
        !env.frames[frame].tapscript(),
        env.ctx is Some,
    ensures
        ({
            let w = walk(env, vm, rec, frame, sigs, keys, unmatched());
            &&& w.rec.sigs.len() >= rec.sigs.len()
            &&& forall|n: int|
                rec.sigs.len() <= n < w.rec.sigs.len() ==> checks_a_pair(
                    env,
                    vm,
                    frame,
                    sigs,
                    keys,
                    #[trigger] w.rec.sigs[n],
                )
        }),
{
    lemma_walk_checks(env, vm, rec, frame, sigs, keys, unmatched());
}

/// The outcome is that of one of the signatures against one of the keys.
pub open spec fn checks_a_pair(
    env: EnvModel,
    vm: VmModel,
    frame: int,
    sigs: Seq<Seq<u8>>,
    keys: Seq<Seq<u8>>,
    outcome: crate::sig::SigModel,
) -> bool {
    exists|i: int, j: int|
        0 <= i < sigs.len() && 0 <= j < keys.len() && outcome == #[trigger] ecdsa_in_script(
            env,
            vm,
            frame,
            sigs,
            sigs[i],
            keys[j],
        )
}

proof fn lemma_walk_checks(
    env: EnvModel,
    vm: VmModel,
    rec: RecordModel,
    frame: int,
    sigs: Seq<Seq<u8>>,
    keys: Seq<Seq<u8>>,
    m: MatchModel,
)
    requires
        !env.frames[frame].tapscript(),
        env.ctx is Some,
        0 <= m.matched,
        0 <= m.tried,
    ensures
        ({
            let w = walk(env, vm, rec, frame, sigs, keys, m);
            &&& w.rec.sigs.len() >= rec.sigs.len()
            &&& forall|n: int| 0 <= n < rec.sigs.len() ==> w.rec.sigs[n] == rec.sigs[n]
            &&& forall|n: int|
                rec.sigs.len() <= n < w.rec.sigs.len() ==> checks_a_pair(
                    env,
                    vm,
                    frame,
                    sigs,
                    keys,
                    #[trigger] w.rec.sigs[n],
                )
        }),
    decreases keys.len() - m.tried,
{
    reveal(attempt);
    if m.open(sigs.len() as int, keys.len() as int) {
        let i = m.matched;
        let j = m.tried;
        let at = attempt(env, vm, rec, frame, sigs, sigs[i], keys[j]);
        let outcome = ecdsa_in_script(env, vm, frame, sigs, sigs[i], keys[j]);
        assert(at.rec.sigs == rec.sigs.push(outcome));
        assert(checks_a_pair(env, vm, frame, sigs, keys, outcome));
        let next = m.after(at.ok->Ok_0, sigs[i], keys[j]);
        lemma_walk_checks(env, vm, at.rec, frame, sigs, keys, next);
        let w = walk(env, vm, rec, frame, sigs, keys, m);
        assert(w == walk(env, vm, at.rec, frame, sigs, keys, next));
        assert forall|n: int| rec.sigs.len() <= n < w.rec.sigs.len() implies checks_a_pair(
            env,
            vm,
            frame,
            sigs,
            keys,
            #[trigger] w.rec.sigs[n],
        ) by {
            if n == rec.sigs.len() {
                assert(w.rec.sigs[n] == at.rec.sigs[n]);
            }
        }
        assert forall|n: int| 0 <= n < rec.sigs.len() implies w.rec.sigs[n] == rec.sigs[n] by {
            assert(w.rec.sigs[n] == at.rec.sigs[n]);
        }
    }
}

} // verus!
