//! What signature checks are for: when a signature is valid, and what the
//! opcodes that check signatures make of it.

use crate::assembly::push_of;
use crate::checks::{attempt, script_code_of, without_signatures};
use crate::crypto::{
    der_signature, ecdsa_verifies, group_order, high_s, lax_der_signature, low_s, s_value,
    schnorr_verifies, valid_public_key, valid_xonly_key,
};
use crate::multisig::{
    law_multisig_finds_any_ordered_match, passes, places, taken_args, unmatched, walk, ArgsModel,
    MatchModel,
};
use crate::num::script_num;
use crate::oplaws::{
    law_truth_values, lemma_number_on_top, lemma_runs_is_executed, lemma_verify_on, small, Site,
};
use crate::sig::{
    ecdsa_checked, ecdsa_hashtype, ecdsa_judged, first_op_len, hashtype_warnings,
    law_only_whole_pushes_are_deleted, schnorr_checked, schnorr_judged, taproot_hashtype_name,
    warn_if, ContextModel, EcdsaModel, ModeModel, SchnorrModel, SigModel,
};
use crate::spend::SigVersion;
use crate::stack::bool_item;
use crate::text::{dec, hex_byte, hex_text};
use crate::tx::{legacy_sighash_of, segwit_sighash_of, taproot_sighash_of};
use crate::vm::{EnvModel, RecordModel, VmModel};
use vstd::prelude::*;

verus! {

/// What an ECDSA check must say where `d` is the digest to be signed. The
/// signature is the DER in front of its last byte, read leniently where strict
/// DER is not required; it is valid exactly if the curve accepts its low-S form
/// for the digest and the key. The digest is shown exactly if no rule failed
/// before.
pub open spec fn ecdsa_says(
    r: SigModel,
    d: Result<Seq<u8>, Seq<char>>,
    sig: Seq<u8>,
    pubkey: Seq<u8>,
    require_strict_der: bool,
    require_low_s: bool,
) -> bool {
    let der = sig.take(sig.len() - 1);
    let strict = der_signature(der);
    let parsed = if strict is Some {
        strict
    } else {
        lax_der_signature(der)
    };
    let admitted = {
        &&& strict is Some || !require_strict_der
        &&& parsed is Some
        &&& !require_low_s || 2 * s_value(parsed->0) <= group_order()
        &&& valid_public_key(pubkey)
        &&& d is Ok
    };
    &&& r.valid <==> admitted && ecdsa_verifies(d->Ok_0, low_s(parsed->0), pubkey)
    &&& admitted ==> r.sighash == hex_text(d->Ok_0.reverse())
    &&& !admitted ==> r.sighash.len() == 0
    &&& !r.assumed
    &&& r.signature == hex_text(sig)
    &&& r.pubkey == hex_text(pubkey)
}

/// An ECDSA check in a version 0 witness script holds the signature against the
/// BIP143 digest of the examined input, for the scriptCode, for the value that
/// is spent, and for the hash type that the signature's own last byte names.
pub proof fn law_witness_v0_signatures(
    ctx: ContextModel,
    script_code: Seq<u8>,
    sig: Seq<u8>,
    pubkey: Seq<u8>,
    require_strict_der: bool,
    require_low_s: bool,
)
    requires
        sig.len() > 0,
        0 <= ctx.index < ctx.prevouts.len(),
    ensures
        ecdsa_says(
            ecdsa_checked(
                ctx,
                sig,
                pubkey,
                ModeModel::WitnessV0 { script_code },
                require_strict_der,
                require_low_s,
            ),
            segwit_sighash_of(
                ctx.raw,
                ctx.index,
                script_code,
                ctx.prevouts[ctx.index].value,
                sig[sig.len() - 1] as u32,
            ),
            sig,
            pubkey,
            require_strict_der,
            require_low_s,
        ),
{
    assert(sig.take(sig.len() - 1) =~= sig.drop_last());
    assert(group_order() % 2 == 1);
}

/// An ECDSA check in a script from before segwit holds the signature against
/// the legacy digest of the examined input, for the scriptCode and for the hash
/// type that the signature's own last byte names.
pub proof fn law_legacy_signatures(
    ctx: ContextModel,
    script_code: Seq<u8>,
    sig: Seq<u8>,
    pubkey: Seq<u8>,
    require_strict_der: bool,
    require_low_s: bool,
)
    requires
        sig.len() > 0,
    ensures
        ecdsa_says(
            ecdsa_checked(
                ctx,
                sig,
                pubkey,
                ModeModel::Legacy { script_code },
                require_strict_der,
                require_low_s,
            ),
            legacy_sighash_of(ctx.raw, ctx.index, script_code, sig[sig.len() - 1] as u32),
            sig,
            pubkey,
            require_strict_der,
            require_low_s,
        ),
{
    assert(sig.take(sig.len() - 1) =~= sig.drop_last());
    assert(group_order() % 2 == 1);
}

/// An ECDSA check passes for no empty signature, in no taproot spend, and in no
/// witness script whose spent output is unknown.
pub proof fn law_ecdsa_refusals(
    ctx: ContextModel,
    sig: Seq<u8>,
    pubkey: Seq<u8>,
    mode: ModeModel,
    require_strict_der: bool,
    require_low_s: bool,
)
    requires
        sig.len() == 0 || mode is Tapscript || mode is TaprootKeyPath || (mode is WitnessV0
            && ctx.index >= ctx.prevouts.len()),
    ensures
        ({
            let r = ecdsa_checked(ctx, sig, pubkey, mode, require_strict_der, require_low_s);
            !r.valid && r.sighash.len() == 0
        }),
{
}

/// The low-S form of a signature keeps `r`; its `s` is at most half the group
/// order, and is the one that the signature had or what that lacks to the group
/// order.
pub proof fn law_low_s_form(compact: Seq<u8>)
    requires
        crate::crypto::compact_form(compact),
    ensures
        low_s(compact).len() == 64,
        low_s(compact).take(32) == compact.take(32),
        2 * s_value(low_s(compact)) <= group_order(),
        s_value(low_s(compact)) == s_value(compact) || s_value(low_s(compact)) + s_value(compact)
            == group_order(),
        2 * s_value(compact) <= group_order() ==> low_s(compact) == compact,
{
    crate::crypto::lemma_low_s_halves(compact);
    assert(low_s(compact).subrange(0, 32) =~= low_s(compact).take(32));
    assert(compact.subrange(0, 32) =~= compact.take(32));
    assert(group_order() % 2 == 1);
}

/// A Schnorr check holds the first 64 bytes of the signature against the BIP341
/// digest of the examined input, with all spent outputs, the annex and the leaf,
/// for the hash type in its 65th byte, or the default one where it has none. It
/// is valid exactly if everything has its form and the curve accepts it.
pub proof fn law_taproot_signatures(
    ctx: ContextModel,
    sig: Seq<u8>,
    pubkey: Seq<u8>,
    annex: Option<Seq<u8>>,
    leaf: Option<(Seq<u8>, u32)>,
)
    ensures
        ({
            let mode = match leaf {
                Some(l) => ModeModel::Tapscript { leaf_hash: l.0, codesep_pos: l.1, annex },
                None => ModeModel::TaprootKeyPath { annex },
            };
            let r = schnorr_checked(ctx, sig, pubkey, mode);
            let t = if sig.len() == 65 {
                sig[64]
            } else {
                0u8
            };
            let d = taproot_sighash_of(ctx.raw, ctx.index, ctx.prevouts, annex, leaf, t);
            let admitted = {
                &&& sig.len() == 64 || sig.len() == 65 && (t == 1 || t == 2 || t == 3 || t == 0x81
                    || t == 0x82 || t == 0x83)
                &&& pubkey.len() == 32
                &&& valid_xonly_key(pubkey)
                &&& annex matches Some(a) ==> a.len() > 0 && a[0] == 0x50
                &&& d is Ok
            };
            &&& r.valid <==> admitted && schnorr_verifies(d->Ok_0, sig.take(64), pubkey)
            &&& admitted ==> r.sighash == hex_text(d->Ok_0.reverse())
            &&& !admitted ==> r.sighash.len() == 0
            &&& !r.assumed
            &&& r.signature == hex_text(sig)
            &&& r.pubkey == hex_text(pubkey)
        }),
{
}

/// A Schnorr check passes in no spend from before taproot.
pub proof fn law_schnorr_refusals(
    ctx: ContextModel,
    sig: Seq<u8>,
    pubkey: Seq<u8>,
    mode: ModeModel,
)
    requires
        mode is Legacy || mode is WitnessV0,
    ensures
        !schnorr_checked(ctx, sig, pubkey, mode).valid,
{
}

/// With a transaction loaded, a check outside tapscript is an ECDSA check of the
/// scriptCode since the last `OP_CODESEPARATOR`: in a legacy script without the
/// pushes of the deleted signatures, by the legacy digest, and in a witness
/// script as it stands, by the BIP143 digest. The DERSIG and LOW_S flags say
/// what is required. Nothing but the record changes.
pub proof fn law_checks_outside_tapscript(
    env: EnvModel,
    vm: VmModel,
    rec: RecordModel,
    frame: int,
    deleted: Seq<Seq<u8>>,
    sig: Seq<u8>,
    pubkey: Seq<u8>,
)
    requires
        env.ctx is Some,
        env.frames[frame].sigversion != SigVersion::Tapscript,
    ensures
        ({
            let a = attempt(env, vm, rec, frame, deleted, sig, pubkey);
            let code = script_code_of(env.frames[frame], vm.begin_codehash);
            let mode = if env.frames[frame].sigversion == SigVersion::Legacy {
                ModeModel::Legacy { script_code: without_signatures(code, deleted) }
            } else {
                ModeModel::WitnessV0 { script_code: code }
            };
            let outcome = ecdsa_checked(
                env.ctx->0,
                sig,
                pubkey,
                mode,
                env.flags & 0x4 != 0,
                env.flags & 0x8 != 0,
            );
            &&& a.ok == Ok::<bool, Seq<char>>(outcome.valid)
            &&& a.rec == rec.checked(outcome)
            &&& a.vm == vm
        }),
{
    reveal(attempt);
}

/// With a transaction loaded, a check in tapscript against a key of 32 bytes is
/// a Schnorr check of the leaf, since the last executed `OP_CODESEPARATOR`, with
/// the annex. It needs 50 units of budget, which a valid one uses up. A key of
/// another length passes unchecked, and an empty one ends the script.
pub proof fn law_checks_in_tapscript(
    env: EnvModel,
    vm: VmModel,
    rec: RecordModel,
    frame: int,
    deleted: Seq<Seq<u8>>,
    sig: Seq<u8>,
    pubkey: Seq<u8>,
)
    requires
        env.frames[frame].sigversion == SigVersion::Tapscript,
    ensures
        ({
            let a = attempt(env, vm, rec, frame, deleted, sig, pubkey);
            let leaf = env.frames[frame].leaf_hash;
            &&& pubkey.len() == 0 ==> a.ok is Err && a.vm == vm
            &&& pubkey.len() != 0 && pubkey.len() != 32 ==> a.ok == Ok::<bool, Seq<char>>(true)
                && a.vm == vm && a.rec.sigs == rec.sigs
            &&& pubkey.len() == 32 && env.ctx is Some ==> {
                let outcome = schnorr_checked(
                    env.ctx->0,
                    sig,
                    pubkey,
                    ModeModel::Tapscript {
                        leaf_hash: leaf->0,
                        codesep_pos: vm.codesep_pos,
                        annex: env.annex,
                    },
                );
                &&& vm.budget < 50 || leaf is None ==> a.ok is Err && a.vm == vm
                &&& vm.budget >= 50 && leaf is Some ==> {
                    &&& a.ok == Ok::<bool, Seq<char>>(outcome.valid)
                    &&& a.rec == rec.checked(outcome)
                    &&& outcome.valid ==> a.vm == (VmModel { budget: vm.budget - 50, ..vm })
                    &&& !outcome.valid ==> a.vm == vm
                }
            }
        }),
{
    reveal(attempt);
}

/// Without a transaction no check outside the unknown tapscript keys can be
/// made: it ends the script, unless signatures are assumed valid.
pub proof fn law_checks_without_a_transaction(
    env: EnvModel,
    vm: VmModel,
    rec: RecordModel,
    frame: int,
    deleted: Seq<Seq<u8>>,
    sig: Seq<u8>,
    pubkey: Seq<u8>,
)
    requires
        env.ctx is None,
        env.frames[frame].sigversion != SigVersion::Tapscript || pubkey.len() == 32,
    ensures
        ({
            let a = attempt(env, vm, rec, frame, deleted, sig, pubkey);
            &&& a.vm == vm
            &&& !env.assume_valid_sigs ==> a.ok is Err && a.rec == rec
            &&& env.assume_valid_sigs ==> {
                &&& a.ok == Ok::<bool, Seq<char>>(true)
                &&& a.rec.sigs.len() == rec.sigs.len() + 1
                &&& a.rec.sigs.last().assumed
                &&& a.rec.sigs.last().sighash.len() == 0
                &&& a.rec.sigs.last().signature == hex_text(sig)
                &&& a.rec.sigs.last().pubkey == hex_text(pubkey)
            }
        }),
{
    reveal(attempt);
}

/// `OP_CHECKSIG` takes a key off the top and a signature below it, deletes that
/// signature from the scriptCode, and leaves whether the check passed;
/// `OP_CHECKSIGVERIFY` leaves nothing and fails if it did not. Under NULLFAIL a
/// check that fails must have had an empty signature. A check that cannot be
/// made ends the script.
pub proof fn law_checksig(at: Site, base: Seq<Seq<u8>>, sig: Seq<u8>, pubkey: Seq<u8>)
    ensures
        ({
            let st = base + seq![sig, pubkey];
            let a = attempt(
                at.env,
                at.vm.with_stack(base),
                at.rec,
                at.frame,
                seq![sig],
                sig,
                pubkey,
            );
            let d = at.runs(0xac, st);
            let v = at.runs(0xad, st);
            let nullfail = at.env.flags & 0x4000 != 0 && sig.len() > 0;
            &&& d.rec == a.rec && v.rec == a.rec
            &&& a.ok is Err ==> d.err is Some && v.err is Some
            &&& a.ok == Ok::<bool, Seq<char>>(true) ==> {
                &&& d.err is None && d.vm == a.vm.with_stack(base + seq![seq![1u8]])
                &&& v.err is None && v.vm == a.vm.with_stack(base)
            }
            &&& a.ok == Ok::<bool, Seq<char>>(false) ==> {
                &&& v.err is Some
                &&& nullfail ==> d.err is Some
                &&& !nullfail ==> d.err is None && d.vm == a.vm.with_stack(
                    base + seq![Seq::<u8>::empty()],
                )
            }
        }),
{
    let st = base + seq![sig, pubkey];
    lemma_runs_is_executed(at, 0xac, st);
    lemma_runs_is_executed(at, 0xad, st);
    let s1 = base.push(sig);
    assert(st.drop_last() =~= s1 && st.last() == pubkey);
    assert(s1.drop_last() =~= base && s1.last() == sig);
    let a = attempt(at.env, at.vm.with_stack(base), at.rec, at.frame, seq![sig], sig, pubkey);
    assert(a.vm.stack == base) by {
        reveal(attempt);
    }
    law_truth_values(true);
    assert(bool_item(false) =~= Seq::<u8>::empty());
    assert(base.push(bool_item(true)) =~= base + seq![seq![1u8]]);
    assert(base.push(bool_item(false)) =~= base + seq![Seq::<u8>::empty()]);
    assert(a.vm.with_stack(base) =~= a.vm);
}

/// The signature opcodes whose names end in `VERIFY` do what their namesakes
/// and then `OP_VERIFY` do, on every stack.
pub proof fn law_checks_that_verify(at: Site, st: Seq<Seq<u8>>)
    ensures
        at.verifies(0xad, 0xac, st),
        at.verifies(0xaf, 0xae, st),
{
    lemma_runs_is_executed(at, 0xac, st);
    lemma_runs_is_executed(at, 0xad, st);
    lemma_runs_is_executed(at, 0xae, st);
    lemma_runs_is_executed(at, 0xaf, st);
    lemma_verify_on(at, at.runs(0xac, st).vm.stack);
    lemma_verify_on(at, at.runs(0xae, st).vm.stack);
    law_truth_values(true);
    law_truth_values(false);
    assert forall|s: Seq<Seq<u8>>, b: bool| (#[trigger] s.push(bool_item(b))).drop_last() == s by {
        assert(s.push(bool_item(b)).drop_last() =~= s);
    }
}

/// In tapscript `OP_CHECKSIGADD` takes a key, a number and a signature off, and
/// leaves the number, one higher exactly if the signature is valid. An empty
/// signature adds nothing; any other that fails ends the script. Elsewhere the
/// opcode is refused.
pub proof fn law_checksigadd(at: Site, base: Seq<Seq<u8>>, sig: Seq<u8>, n: int, pubkey: Seq<u8>)
    requires
        small(n),
    ensures
        ({
            let st = base + seq![sig, script_num(n), pubkey];
            let a = attempt(
                at.env,
                at.vm.with_stack(base),
                at.rec,
                at.frame,
                Seq::empty(),
                sig,
                pubkey,
            );
            let d = at.runs(0xba, st);
            let tapscript = at.env.frames[at.frame].sigversion == SigVersion::Tapscript;
            &&& !tapscript ==> d.err is Some
            &&& tapscript && sig.len() == 0 ==> {
                &&& d.err is None
                &&& d.vm == at.vm.with_stack(base + seq![script_num(n)])
                &&& d.rec.sigs == at.rec.sigs
            }
            &&& tapscript && sig.len() > 0 ==> {
                &&& d.rec == a.rec
                &&& a.ok == Ok::<bool, Seq<char>>(true) ==> d.err is None && d.vm
                    == a.vm.with_stack(base + seq![script_num(n + 1)])
                &&& a.ok != Ok::<bool, Seq<char>>(true) ==> d.err is Some
            }
        }),
{
    let st = base + seq![sig, script_num(n), pubkey];
    lemma_runs_is_executed(at, 0xba, st);
    let s1 = base.push(sig).push(script_num(n));
    assert(st.drop_last() =~= s1 && st.last() == pubkey);
    lemma_number_on_top(base.push(sig), n, at.env.minimal());
    assert(base.push(sig).drop_last() =~= base);
    let a = attempt(
        at.env,
        at.vm.with_stack(base),
        at.rec,
        at.frame,
        Seq::empty(),
        sig,
        pubkey,
    );
    assert(a.vm.stack == base) by {
        reveal(attempt);
    }
    assert(base.push(script_num(n)) =~= base + seq![script_num(n)]);
    assert(base.push(script_num(n + 1)) =~= base + seq![script_num(n + 1)]);
}

/// The operands of a multisig, lowest first: an element that is not used, the
/// signatures and their number, the keys and their number.
pub open spec fn multisig_operands(
    dummy: Seq<u8>,
    sigs: Seq<Seq<u8>>,
    keys: Seq<Seq<u8>>,
) -> Seq<Seq<u8>> {
    seq![dummy] + sigs + seq![script_num(sigs.len() as int)] + keys + seq![
        script_num(keys.len() as int),
    ]
}

/// The state once a multisig has taken its operands: the keys count as ops,
/// except in sandbox mode.
pub open spec fn multisig_state(at: Site, base: Seq<Seq<u8>>, nkeys: int) -> VmModel {
    VmModel {
        op_count: if at.env.flags & 0x8000 != 0 {
            at.vm.op_count
        } else {
            at.vm.op_count + nkeys
        },
        ..at.vm.with_stack(base)
    }
}

/// With a transaction loaded, a multisig outside tapscript is satisfied exactly
/// if its signatures can be placed, in their order, on keys that they are valid
/// for. `OP_CHECKMULTISIG` leaves whether it is; `OP_CHECKMULTISIGVERIFY` leaves
/// nothing and fails exactly if it is not. Under NULLFAIL an unsatisfied one
/// must have had empty signatures only, and under NULLDUMMY the unused element
/// must be empty.
pub proof fn law_multisig_opcodes(
    at: Site,
    base: Seq<Seq<u8>>,
    dummy: Seq<u8>,
    sigs: Seq<Seq<u8>>,
    keys: Seq<Seq<u8>>,
)
    requires
        at.env.ctx is Some,
        at.env.frames[at.frame].sigversion != SigVersion::Tapscript,
        sigs.len() <= keys.len() <= 20,
        at.vm.op_count + keys.len() <= 201 || at.env.flags & 0x8000 != 0,
    ensures
        ({
            let st = base + multisig_operands(dummy, sigs, keys);
            let vm = multisig_state(at, base, keys.len() as int);
            let ok = exists|p: Seq<int>| places(at.env, vm, at.frame, sigs, keys, 0, 0, p);
            let d = at.runs(0xae, st);
            let v = at.runs(0xaf, st);
            let nulldummy = at.env.flags & 0x10 != 0 && dummy.len() > 0;
            let nullfail = at.env.flags & 0x4000 != 0 && exists|i: int|
                0 <= i < sigs.len() && (#[trigger] sigs[i]).len() > 0;
            &&& nulldummy ==> d.err is Some && v.err is Some
            &&& !nulldummy && ok ==> {
                &&& d.err is None && d.vm == vm.with_stack(base + seq![seq![1u8]])
                &&& v.err is None && v.vm == vm
            }
            &&& !nulldummy && !ok ==> {
                &&& v.err is Some
                &&& nullfail ==> d.err is Some
                &&& !nullfail ==> d.err is None && d.vm == vm.with_stack(
                    base + seq![Seq::<u8>::empty()],
                )
            }
        }),
{
    let st = base + multisig_operands(dummy, sigs, keys);
    let vm = multisig_state(at, base, keys.len() as int);
    lemma_runs_is_executed(at, 0xae, st);
    lemma_runs_is_executed(at, 0xaf, st);
    lemma_operands_are_taken(at, base, dummy, sigs, keys);
    let note = "the off-by-one dummy element is non-empty (fine pre-NULLDUMMY)"@;
    let rec = if dummy.len() > 0 {
        at.rec.noted(note)
    } else {
        at.rec
    };
    law_multisig_finds_any_ordered_match(at.env, vm, rec, at.frame, sigs, keys);
    law_truth_values(true);
    assert(bool_item(false) =~= Seq::<u8>::empty());
    assert(base.push(bool_item(true)) =~= base + seq![seq![1u8]]);
    assert(base.push(bool_item(false)) =~= base + seq![Seq::<u8>::empty()]);
    assert(vm.with_stack(base) =~= vm);
}

proof fn lemma_operands_are_taken(
    at: Site,
    base: Seq<Seq<u8>>,
    dummy: Seq<u8>,
    sigs: Seq<Seq<u8>>,
    keys: Seq<Seq<u8>>,
)
    requires
        sigs.len() <= keys.len() <= 20,
        at.vm.op_count + keys.len() <= 201 || at.env.flags & 0x8000 != 0,
    ensures
        taken_args(at.env, at.vm.with_stack(base + multisig_operands(dummy, sigs, keys))) == (
            multisig_state(at, base, keys.len() as int),
            Ok::<ArgsModel, Seq<char>>(ArgsModel { keys, sigs, dummy }),
        ),
{
    let minimal = at.env.minimal();
    let s1 = base.push(dummy);
    let s2 = s1 + sigs;
    let s3 = s2.push(script_num(sigs.len() as int));
    let s4 = s3 + keys;
    let st = base + multisig_operands(dummy, sigs, keys);
    assert(st =~= s4.push(script_num(keys.len() as int)));
    lemma_number_on_top(s4, keys.len() as int, minimal);
    assert(s4.take(s4.len() - keys.len()) =~= s3);
    assert(s4.skip(s4.len() - keys.len()) =~= keys);
    lemma_number_on_top(s2, sigs.len() as int, minimal);
    assert(s2.take(s2.len() - sigs.len()) =~= s1);
    assert(s2.skip(s2.len() - sigs.len()) =~= sigs);
    assert(s1.drop_last() =~= base);
}

/// A multisig with a bad number of keys or of signatures is refused: there are
/// at most 20 keys, and no more signatures than keys.
pub proof fn law_multisig_counts(at: Site, base: Seq<Seq<u8>>, keys: Seq<Seq<u8>>, n: int)
    requires
        small(n),
        keys.len() <= 20,
    ensures
        n < 0 || n > 20 ==> at.refuses(0xae, base + seq![script_num(n)]) && at.refuses(
            0xaf,
            base + seq![script_num(n)],
        ),
        n < 0 || n > keys.len() ==> ({
            let st = base + seq![script_num(n)] + keys + seq![script_num(keys.len() as int)];
            at.refuses(0xae, st) && at.refuses(0xaf, st)
        }),
{
    let minimal = at.env.minimal();
    let one = base + seq![script_num(n)];
    assert(one =~= base.push(script_num(n)));
    lemma_number_on_top(base, n, minimal);
    lemma_runs_is_executed(at, 0xae, one);
    lemma_runs_is_executed(at, 0xaf, one);
    let s4 = one + keys;
    let st = s4 + seq![script_num(keys.len() as int)];
    assert(st =~= s4.push(script_num(keys.len() as int)));
    lemma_number_on_top(s4, keys.len() as int, minimal);
    assert(s4.take(s4.len() - keys.len()) =~= one);
    lemma_runs_is_executed(at, 0xae, st);
    lemma_runs_is_executed(at, 0xaf, st);
}

/// Deleting signatures from a script takes exactly their whole pushes out: an
/// opcode goes if it is the push of one of them, and stays otherwise.
pub proof fn law_all_signatures_are_deleted(op: Seq<u8>, rest: Seq<u8>, sigs: Seq<Seq<u8>>)
    requires
        first_op_len(op) == Some(op.len()),
        forall|i: int| 0 <= i < sigs.len() ==> 0 < (#[trigger] sigs[i]).len() < 0x1_0000_0000,
    ensures
        (exists|i: int| 0 <= i < sigs.len() && op == push_of(#[trigger] sigs[i]))
            ==> without_signatures(op + rest, sigs) == without_signatures(rest, sigs),
        !(exists|i: int| 0 <= i < sigs.len() && op == push_of(#[trigger] sigs[i]))
            ==> without_signatures(op + rest, sigs) == op + without_signatures(rest, sigs),
    decreases sigs.len(),
{
    if sigs.len() > 0 {
        let init = sigs.drop_last();
        let last = sigs.last();
        assert forall|i: int| 0 <= i < init.len() implies 0 < (#[trigger] init[i]).len()
            < 0x1_0000_0000 by {
            assert(init[i] == sigs[i]);
        }
        law_all_signatures_are_deleted(op, rest, init);
        assert(last == sigs[sigs.len() - 1]);
        law_only_whole_pushes_are_deleted(op, without_signatures(rest, init), last);
        if exists|i: int| 0 <= i < init.len() && op == push_of(#[trigger] init[i]) {
            let i = choose|i: int| 0 <= i < init.len() && op == push_of(#[trigger] init[i]);
            assert(sigs[i] == init[i]);
        } else {
            assert forall|i: int| 0 <= i < sigs.len() && op == push_of(#[trigger] sigs[i]) implies i
                == sigs.len() - 1 by {
                if i < init.len() {
                    assert(init[i] == sigs[i]);
                }
            }
        }
    }
}

/// What is found of an ECDSA check decides it: the signature is valid exactly if
/// it is there, no required rule fails, the key and the digest are there, and
/// the curve accepts it.
pub proof fn law_ecdsa_judgement(
    sig: Seq<u8>,
    pubkey: Seq<u8>,
    found: EcdsaModel,
    require_strict_der: bool,
    require_low_s: bool,
)
    ensures
        ({
            let r = ecdsa_judged(sig, pubkey, found, require_strict_der, require_low_s);
            let admitted = {
                &&& sig.len() > 0
                &&& require_strict_der ==> found.strict_der
                &&& found.parsed
                &&& require_low_s ==> !found.high_s
                &&& found.key_error is None
                &&& found.digest is Ok
            };
            &&& r.valid <==> admitted && found.verifies
            &&& admitted ==> r.sighash == hex_text(found.digest->Ok_0.reverse())
            &&& !admitted ==> r.sighash.len() == 0
            &&& admitted && found.verifies ==> r.detail
                == "signature is valid for this pubkey and sighash"@
            &&& admitted && !found.verifies ==> r.detail
                == "signature does not verify against this pubkey and sighash"@
        }),
{
}

/// What is found of a Schnorr check decides it, once signature and key have
/// their form.
pub proof fn law_schnorr_judgement(sig: Seq<u8>, pubkey: Seq<u8>, found: SchnorrModel)
    ensures
        ({
            let r = schnorr_judged(sig, pubkey, found);
            let formed = pubkey.len() == 32 && (sig.len() == 64 || sig.len() == 65 && (1 <= sig[64]
                <= 3 || 0x81 <= sig[64] <= 0x83));
            let admitted = formed && found.key_error is None && found.digest is Ok;
            &&& r.valid <==> admitted && found.verifies
            &&& admitted ==> r.sighash == hex_text(found.digest->Ok_0.reverse())
            &&& !admitted ==> r.sighash.len() == 0
        }),
{
}

/// An ECDSA check warns of exactly what is unusual: an unknown hash type, a
/// signature that is not strict DER, a high S, and an uncompressed key.
pub proof fn law_ecdsa_warnings(
    sig: Seq<u8>,
    pubkey: Seq<u8>,
    found: EcdsaModel,
    require_strict_der: bool,
    require_low_s: bool,
)
    requires
        sig.len() > 0,
        require_strict_der ==> found.strict_der,
        found.parsed,
        require_low_s ==> !found.high_s,
        found.key_error is None,
    ensures
        ({
            let w = ecdsa_judged(sig, pubkey, found, require_strict_der, require_low_s).warnings;
            let base = sig[sig.len() - 1] & 0x1f;
            let odd_type = base == 0 || base > 3;
            let count = |b: bool|
                if b {
                    1int
                } else {
                    0
                };
            &&& w.len() == count(odd_type) + count(!found.strict_der) + count(found.high_s) + count(
                pubkey.len() == 65,
            )
            &&& !found.strict_der ==> w.contains("signature is not strict DER; parsed leniently"@)
            &&& found.high_s ==> w.contains("signature has a high S value (non-standard, BIP62)"@)
            &&& pubkey.len() == 65 ==> w.contains(
                "uncompressed public key (not allowed under segwit)"@,
            )
        }),
{
    let t = sig[sig.len() - 1];
    assert(t & 0x1f == t % 32) by (bit_vector);
    let w0 = hashtype_warnings(t);
    let m1 = "signature is not strict DER; parsed leniently"@;
    let m2 = "signature has a high S value (non-standard, BIP62)"@;
    let m3 = "uncompressed public key (not allowed under segwit)"@;
    let w1 = warn_if(w0, !found.strict_der, m1);
    let w2 = warn_if(w1, found.high_s, m2);
    let w3 = warn_if(w2, pubkey.len() == 65, m3);
    assert(ecdsa_judged(sig, pubkey, found, require_strict_der, require_low_s).warnings == w3);
    if !found.strict_der {
        assert(w3[w0.len() as int] == m1);
    }
    if found.high_s {
        assert(w3[w1.len() as int] == m2);
    }
    if pubkey.len() == 65 {
        assert(w3[w2.len() as int] == m3);
    }
}

/// How hash types are shown: the low five bits say what is signed of the
/// outputs, the top bit whether other inputs may be added.
pub proof fn law_shown_hash_types(b: u8)
    ensures
        ({
            let base = b & 0x1f;
            let name = if base == 1 {
                "SIGHASH_ALL"@
            } else if base == 2 {
                "SIGHASH_NONE"@
            } else if base == 3 {
                "SIGHASH_SINGLE"@
            } else {
                "SIGHASH_INVALID"@
            };
            let open = if b & 0x80 != 0 {
                "|SIGHASH_ANYONECANPAY (0x"@
            } else {
                " (0x"@
            };
            ecdsa_hashtype(b) == name + open + hex_text(seq![b]) + ")"@
        }),
        taproot_hashtype_name(0) == "Default"@,
        taproot_hashtype_name(1) == "All"@,
        taproot_hashtype_name(2) == "None"@,
        taproot_hashtype_name(3) == "Single"@,
        taproot_hashtype_name(0x81) == "AllPlusAnyoneCanPay"@,
        taproot_hashtype_name(0x82) == "NonePlusAnyoneCanPay"@,
        taproot_hashtype_name(0x83) == "SinglePlusAnyoneCanPay"@,
{
    assert(b & 0x1f == b % 32) by (bit_vector);
    assert(b & 0x80 != 0 <==> b >= 0x80) by (bit_vector);
    assert(hex_text(seq![b]) =~= hex_byte(b));
}

/// What a check shows as its hash type is that of the signature.
pub proof fn law_checks_show_their_hash_type(
    sig: Seq<u8>,
    pubkey: Seq<u8>,
    found: EcdsaModel,
    tap: SchnorrModel,
    require_strict_der: bool,
    require_low_s: bool,
)
    ensures
        sig.len() > 0 ==> ecdsa_judged(
            sig,
            pubkey,
            found,
            require_strict_der,
            require_low_s,
        ).sighash_type == ecdsa_hashtype(sig[sig.len() - 1]),
        ({
            let r = schnorr_judged(sig, pubkey, tap);
            r.sighash.len() > 0 ==> {
                &&& sig.len() == 65 ==> r.sighash_type == taproot_hashtype_name(sig[64])
                &&& sig.len() != 65 ==> r.sighash_type == taproot_hashtype_name(0)
                &&& sig.len() == 65 ==> r.warnings == seq![
                    "explicit sighash type "@ + taproot_hashtype_name(sig[64]),
                ]
                &&& sig.len() != 65 ==> r.warnings.len() == 0
            }
        }),
{
    let m = "explicit sighash type "@ + taproot_hashtype_name(sig[64]);
    assert(Seq::<Seq<char>>::empty().push(m) =~= seq![m]);
}

/// The three lines that tell that signature `i` matched key `j`.
pub open spec fn tells_match(
    details: Seq<Seq<char>>,
    i: int,
    j: int,
    sigs: Seq<Seq<u8>>,
    keys: Seq<Seq<u8>>,
) -> bool {
    &&& details[3 * i] == "signature "@ + dec(i + 1) + " matched key "@ + dec(j + 1)
    &&& details[3 * i + 1] == "  key "@ + dec(j + 1) + " = "@ + hex_text(keys[j])
    &&& details[3 * i + 2] == "  signature "@ + dec(i + 1) + " = "@ + hex_text(sigs[i])
}

/// Some key that signature `i` is valid for is told as its match.
pub open spec fn match_is_told(
    env: EnvModel,
    vm: VmModel,
    frame: int,
    sigs: Seq<Seq<u8>>,
    keys: Seq<Seq<u8>>,
    details: Seq<Seq<char>>,
    i: int,
) -> bool {
    exists|j: int|
        0 <= j < keys.len() && passes(env, vm, frame, sigs, keys, i, j) && tells_match(
            details,
            i,
            j,
            sigs,
            keys,
        )
}

/// A multisig tells in full which signature matched which key: of each matched
/// signature its number, the number of a key that it is valid for, and the bytes
/// of both.
pub proof fn law_multisig_tells_the_matches(
    env: EnvModel,
    vm: VmModel,
    rec: RecordModel,
    frame: int,
    sigs: Seq<Seq<u8>>,
    keys: Seq<Seq<u8>>,
)
    requires
        env.frames[frame].sigversion != SigVersion::Tapscript,
        env.ctx is Some,
    ensures
        ({
            let m = walk(env, vm, rec, frame, sigs, keys, unmatched()).result->Ok_0;
            &&& m.details.len() == 3 * m.matched
            &&& 0 <= m.matched <= sigs.len()
            &&& forall|i: int|
                0 <= i < m.matched ==> #[trigger] match_is_told(
                    env,
                    vm,
                    frame,
                    sigs,
                    keys,
                    m.details,
                    i,
                )
        }),
{
    lemma_matches_are_told(env, vm, rec, frame, sigs, keys, unmatched());
}

proof fn lemma_matches_are_told(
    env: EnvModel,
    vm: VmModel,
    rec: RecordModel,
    frame: int,
    sigs: Seq<Seq<u8>>,
    keys: Seq<Seq<u8>>,
    m: MatchModel,
)
    requires
        env.frames[frame].sigversion != SigVersion::Tapscript,
        env.ctx is Some,
        0 <= m.matched <= sigs.len(),
        0 <= m.tried <= keys.len(),
        m.details.len() == 3 * m.matched,
        forall|i: int|
            0 <= i < m.matched ==> #[trigger] match_is_told(
                env,
                vm,
                frame,
                sigs,
                keys,
                m.details,
                i,
            ),
    ensures
        ({
            let w = walk(env, vm, rec, frame, sigs, keys, m);
            let n = w.result->Ok_0;
            &&& w.result is Ok
            &&& n.details.len() == 3 * n.matched
            &&& 0 <= n.matched <= sigs.len()
            &&& forall|i: int|
                0 <= i < n.matched ==> #[trigger] match_is_told(
                    env,
                    vm,
                    frame,
                    sigs,
                    keys,
                    n.details,
                    i,
                )
        }),
    decreases keys.len() - m.tried,
{
    if m.open(sigs.len() as int, keys.len() as int) {
        let i = m.matched;
        let j = m.tried;
        let ok = passes(env, vm, frame, sigs, keys, i, j);
        let a = attempt(env, vm, rec, frame, sigs, sigs[i], keys[j]);
        law_checks_outside_tapscript(env, vm, rec, frame, sigs, sigs[i], keys[j]);
        assert(a.ok == Ok::<bool, Seq<char>>(ok));
        let next = m.after(ok, sigs[i], keys[j]);
        assert forall|k: int| 0 <= k < next.matched implies #[trigger] match_is_told(
            env,
            vm,
            frame,
            sigs,
            keys,
            next.details,
            k,
        ) by {
            if k < m.matched {
                assert(match_is_told(env, vm, frame, sigs, keys, m.details, k));
                let l = choose|l: int|
                    0 <= l < keys.len() && passes(env, vm, frame, sigs, keys, k, l) && tells_match(
                        m.details,
                        k,
                        l,
                        sigs,
                        keys,
                    );
                assert(tells_match(next.details, k, l, sigs, keys));
            } else {
                assert(tells_match(next.details, k, j, sigs, keys));
            }
        }
        lemma_matches_are_told(env, a.vm, a.rec, frame, sigs, keys, next);
    }
}

/// A signature that runs out of keys is named with its bytes; where none does,
/// only the matches are told.
pub proof fn law_multisig_tells_the_failure(m: MatchModel, sigs: Seq<Seq<u8>>)
    requires
        0 <= m.matched <= sigs.len(),
    ensures
        m.matched == sigs.len() ==> m.story(sigs) == m.details,
        m.matched < sigs.len() ==> {
            &&& m.story(sigs).len() == m.details.len() + 2
            &&& m.story(sigs).take(m.details.len() as int) == m.details
            &&& m.story(sigs)[m.details.len() as int] == "signature "@ + dec(m.matched + 1)
                + " matched none of the remaining keys"@
            &&& m.story(sigs)[m.details.len() as int + 1] == "  signature "@ + dec(m.matched + 1) + " = "@
                + hex_text(sigs[m.matched])
        },
{
    assert(m.matched < sigs.len() ==> m.story(sigs).take(m.details.len() as int) =~= m.details);
}

/// The last note of a multisig sums it up: how many signatures and keys, and
/// whether it is satisfied.
pub proof fn law_multisig_summary(
    at: Site,
    base: Seq<Seq<u8>>,
    dummy: Seq<u8>,
    sigs: Seq<Seq<u8>>,
    keys: Seq<Seq<u8>>,
)
    requires
        at.env.ctx is Some,
        at.env.frames[at.frame].sigversion != SigVersion::Tapscript,
        sigs.len() <= keys.len() <= 20,
        at.vm.op_count + keys.len() <= 201 || at.env.flags & 0x8000 != 0,
        at.env.flags & 0x10 == 0 || dummy.len() == 0,
    ensures
        ({
            let st = base + multisig_operands(dummy, sigs, keys);
            let vm = multisig_state(at, base, keys.len() as int);
            let ok = exists|p: Seq<int>| places(at.env, vm, at.frame, sigs, keys, 0, 0, p);
            let said = dec(sigs.len() as int) + "-of-"@ + dec(keys.len() as int) + " multisig: "@
                + (if ok {
                "satisfied"@
            } else {
                "NOT satisfied"@
            });
            at.runs(0xae, st).rec.notes.last() == said && at.runs(0xaf, st).rec.notes.last() == said
        }),
{
    let st = base + multisig_operands(dummy, sigs, keys);
    let vm = multisig_state(at, base, keys.len() as int);
    lemma_runs_is_executed(at, 0xae, st);
    lemma_runs_is_executed(at, 0xaf, st);
    lemma_operands_are_taken(at, base, dummy, sigs, keys);
    let note = "the off-by-one dummy element is non-empty (fine pre-NULLDUMMY)"@;
    let rec = if dummy.len() > 0 {
        at.rec.noted(note)
    } else {
        at.rec
    };
    law_multisig_finds_any_ordered_match(at.env, vm, rec, at.frame, sigs, keys);
}

/// Without a transaction a multisig outside tapscript cannot be checked: it ends
/// the script, unless it has no signatures or they are assumed valid, and then
/// it is satisfied.
pub proof fn law_multisig_without_a_transaction(
    at: Site,
    base: Seq<Seq<u8>>,
    dummy: Seq<u8>,
    sigs: Seq<Seq<u8>>,
    keys: Seq<Seq<u8>>,
)
    requires
        at.env.ctx is None,
        at.env.frames[at.frame].sigversion != SigVersion::Tapscript,
        sigs.len() <= keys.len() <= 20,
        at.vm.op_count + keys.len() <= 201 || at.env.flags & 0x8000 != 0,
        at.env.flags & 0x10 == 0 || dummy.len() == 0,
    ensures
        ({
            let st = base + multisig_operands(dummy, sigs, keys);
            let vm = multisig_state(at, base, keys.len() as int);
            let d = at.runs(0xae, st);
            let v = at.runs(0xaf, st);
            &&& sigs.len() > 0 && !at.env.assume_valid_sigs ==> d.err is Some && v.err is Some
            &&& sigs.len() == 0 || at.env.assume_valid_sigs ==> {
                &&& d.err is None && d.vm == vm.with_stack(base + seq![seq![1u8]])
                &&& v.err is None && v.vm == vm
                &&& d.rec.sigs.len() == at.rec.sigs.len() + sigs.len()
            }
        }),
{
    let st = base + multisig_operands(dummy, sigs, keys);
    let vm = multisig_state(at, base, keys.len() as int);
    lemma_runs_is_executed(at, 0xae, st);
    lemma_runs_is_executed(at, 0xaf, st);
    lemma_operands_are_taken(at, base, dummy, sigs, keys);
    let note = "the off-by-one dummy element is non-empty (fine pre-NULLDUMMY)"@;
    let rec = if dummy.len() > 0 {
        at.rec.noted(note)
    } else {
        at.rec
    };
    if sigs.len() == 0 || at.env.assume_valid_sigs {
        lemma_assumed_walk(at.env, vm, rec, at.frame, sigs, keys, unmatched());
    } else {
        law_checks_without_a_transaction(
            at.env,
            vm,
            rec,
            at.frame,
            sigs,
            sigs[0],
            keys[0],
        );
    }
    law_truth_values(true);
    assert(base.push(bool_item(true)) =~= base + seq![seq![1u8]]);
    assert(vm.with_stack(base) =~= vm);
}

proof fn lemma_assumed_walk(
    env: EnvModel,
    vm: VmModel,
    rec: RecordModel,
    frame: int,
    sigs: Seq<Seq<u8>>,
    keys: Seq<Seq<u8>>,
    m: MatchModel,
)
    requires
        env.ctx is None,
        env.frames[frame].sigversion != SigVersion::Tapscript,
        sigs.len() == m.matched || env.assume_valid_sigs,
        0 <= m.matched == m.tried <= sigs.len() <= keys.len(),
    ensures
        ({
            let w = walk(env, vm, rec, frame, sigs, keys, m);
            &&& w.vm == vm
            &&& w.result matches Ok(n) && n.matched == sigs.len()
            &&& w.rec.sigs.len() == rec.sigs.len() + sigs.len() - m.matched
        }),
    decreases sigs.len() - m.matched,
{
    if m.matched < sigs.len() {
        let sig = sigs[m.matched];
        let key = keys[m.tried];
        let a = attempt(env, vm, rec, frame, sigs, sig, key);
        law_checks_without_a_transaction(env, vm, rec, frame, sigs, sig, key);
        lemma_assumed_walk(env, a.vm, a.rec, frame, sigs, keys, m.after(true, sig, key));
    }
}

/// The keys of a multisig count as ops outside sandbox mode, and no more than
/// 201 are admitted.
pub proof fn law_multisig_keys_count_as_ops(at: Site, base: Seq<Seq<u8>>, n: int)
    requires
        0 <= n <= 20,
        at.env.flags & 0x8000 == 0,
        at.vm.op_count + n > 201,
    ensures
        at.refuses(0xae, base + seq![script_num(n)]),
        at.refuses(0xaf, base + seq![script_num(n)]),
{
    let one = base + seq![script_num(n)];
    assert(one =~= base.push(script_num(n)));
    lemma_number_on_top(base, n, at.env.minimal());
    lemma_runs_is_executed(at, 0xae, one);
    lemma_runs_is_executed(at, 0xaf, one);
}

} // verus!
