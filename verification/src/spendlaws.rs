//! What spend resolution is for: which script runs, on which stack, and under
//! which signature rules.

use crate::assembly::{
    decode_error, instructions, law_instructions_cover_the_script, law_push_decodes_to_its_data,
    lemma_instruction_at, push_of,
};
use crate::crypto::{commitment_holds, control_error, sha256_of, tap_leaf, valid_xonly_key};
use crate::hexcodec::{hex_parsed, law_hex_roundtrip};
use crate::laws::law_stack_items_roundtrip;
use crate::spend::{
    final_push, hex_texts, legacy_kind, multisig_script, p2pk_script, p2pkh_script, resolved,
    script_hash_spend, EnterModel, FrameModel, SigVersion, SpendModel,
};
use crate::text::{dec, hex_byte, hex_text, lemma_hex_text_is_bare, trimmed};
use crate::tools::described_spend;
use vstd::prelude::*;

verus! {

/// A witness program as an output script: its version opcode and one push.
pub open spec fn program_script(version: int, program: Seq<u8>) -> Seq<u8> {
    seq![
        if version == 0 {
            0u8
        } else {
            (0x50 + version) as u8
        },
        program.len() as u8,
    ] + program
}

/// A pay-to-script-hash output script.
pub open spec fn p2sh_of(hash: Seq<u8>) -> Seq<u8> {
    seq![0xa9u8, 0x14u8] + hash + seq![0x87u8]
}

/// The witness elements that the script sees: all but the annex, which is the
/// last of two or more and starts with 0x50.
pub open spec fn seen(wit: Seq<Seq<u8>>) -> Seq<Seq<u8>> {
    if wit.len() > 1 && wit[wit.len() - 1].len() > 0 && wit[wit.len() - 1][0] == 0x50 {
        wit.take(wit.len() - 1)
    } else {
        wit
    }
}

/// A frame runs this script, under these rules, on this stack.
pub open spec fn runs(
    f: FrameModel,
    script: Seq<u8>,
    sigversion: SigVersion,
    stack: Seq<Seq<u8>>,
) -> bool {
    &&& f.script_hex == hex_text(script)
    &&& f.sigversion == sigversion
    &&& f.enter == EnterModel::ResetStack(hex_texts(stack))
    &&& !f.key_path
}

/// A frame runs this script under the legacy rules, on the stack as it is.
pub open spec fn runs_legacy(f: FrameModel, script: Seq<u8>) -> bool {
    &&& f.script_hex == hex_text(script)
    &&& f.sigversion == SigVersion::Legacy
    &&& f.enter == EnterModel::Keep
    &&& f.leaf_hash is None
    &&& !f.key_path
}

/// The annex is what the script does not see of the witness.
pub proof fn law_annex_is_set_apart(
    script_sig: Seq<u8>,
    wit: Seq<Seq<u8>>,
    version: int,
    program: Seq<u8>,
)
    requires
        0 <= version <= 16,
        2 <= program.len() <= 40,
        wit.len() > 0,
    ensures
        resolved(script_sig, wit, program_script(version, program)).annex == if seen(wit) == wit {
            None
        } else {
            Some(hex_text(wit[wit.len() - 1]))
        },
{
    lemma_program_script(version, program);
    if wit.len() > 1 && wit[wit.len() - 1].len() > 0 && wit[wit.len() - 1][0] == 0x50 {
        assert(seen(wit).len() != wit.len());
    }
}

proof fn lemma_program_script(version: int, program: Seq<u8>)
    requires
        0 <= version <= 16,
        2 <= program.len() <= 40,
    ensures
        ({
            let s = program_script(version, program);
            &&& s.len() == program.len() + 2
            &&& s.skip(2) == program
            &&& s[1] == program.len()
            &&& s[0] == if version == 0 {
                0
            } else {
                0x50 + version
            }
        }),
{
    assert(program_script(version, program).skip(2) =~= program);
}

proof fn lemma_p2sh_of(hash: Seq<u8>)
    requires
        hash.len() == 20,
    ensures
        p2sh_of(hash).len() == 23,
        p2sh_of(hash)[0] == 0xa9,
        p2sh_of(hash)[1] == 0x14,
        p2sh_of(hash)[22] == 0x87,
{
}

proof fn lemma_seen(wit: Seq<Seq<u8>>)
    ensures
        crate::spend::witness_stack(wit) == seen(wit),
{
    if wit.len() > 1 {
        assert(wit.drop_last() =~= wit.take(wit.len() - 1));
    }
}

/// A spend of a version 0 script hash runs the last witness element under the
/// version 0 rules, on the elements before it. It is in order exactly if that
/// script hashes to the program.
pub proof fn law_script_hash_spends(script_sig: Seq<u8>, wit: Seq<Seq<u8>>, program: Seq<u8>)
    requires
        program.len() == 32,
        wit.len() > 0,
    ensures
        ({
            let r = resolved(script_sig, wit, program_script(0, program));
            let items = seen(wit);
            let script = items[items.len() - 1];
            let args = items.take(items.len() - 1);
            &&& r.kind == "P2WSH"@
            &&& r.frames.len() == 1
            &&& runs(r.frames[0], script, SigVersion::WitnessV0, args)
            &&& r.frames[0].leaf_hash is None
            &&& r.initial_stack == hex_texts(args)
            &&& r.output_key is None
            &&& r.errors.len() == 0 <==> sha256_of(script) == program
        }),
{
    lemma_program_script(0, program);
    lemma_seen(wit);
    let items = seen(wit);
    assert(items.drop_last() =~= items.take(items.len() - 1));
}

/// A spend of a version 0 key hash runs the P2PKH script of that hash under the
/// version 0 rules, on the whole witness. It is in order exactly if the witness
/// has two elements.
pub proof fn law_key_hash_spends(script_sig: Seq<u8>, wit: Seq<Seq<u8>>, program: Seq<u8>)
    requires
        program.len() == 20,
        wit.len() > 0,
    ensures
        ({
            let r = resolved(script_sig, wit, program_script(0, program));
            let script = p2pkh_of(program);
            &&& r.kind == "P2WPKH"@
            &&& r.frames.len() == 1
            &&& runs(r.frames[0], script, SigVersion::WitnessV0, seen(wit))
            &&& r.frames[0].leaf_hash is None
            &&& r.initial_stack == hex_texts(seen(wit))
            &&& r.output_key is None
            &&& r.errors.len() == 0 <==> seen(wit).len() == 2
        }),
{
    lemma_program_script(0, program);
    lemma_seen(wit);
}

/// A version 0 program nested in P2SH is spent as the program itself is: the
/// same last frame (script, rules and stack), the same complaints and notes. In
/// front of it the scriptSig and the P2SH script run under the legacy rules, on
/// an empty stack.
pub proof fn law_nested_spends_are_native_spends(
    script_sig: Seq<u8>,
    other_sig: Seq<u8>,
    wit: Seq<Seq<u8>>,
    hash: Seq<u8>,
    program: Seq<u8>,
)
    requires
        hash.len() == 20,
        program.len() == 20 || program.len() == 32,
        wit.len() > 0,
        final_push(script_sig) == Some(program_script(0, program)),
    ensures
        ({
            let nested = resolved(script_sig, wit, p2sh_of(hash));
            let native = resolved(other_sig, wit, program_script(0, program));
            &&& nested.frames.len() == 3
            &&& native.frames.len() == 1
            &&& nested.frames[2] == native.frames[0]
            &&& nested.frames[2].sigversion == SigVersion::WitnessV0
            &&& runs_legacy(nested.frames[0], script_sig)
            &&& nested.frames[0].label == "scriptSig"@
            &&& runs_legacy(nested.frames[1], p2sh_of(hash))
            &&& nested.frames[1].label != "scriptSig"@
            &&& nested.initial_stack.len() == 0
            &&& nested.errors == native.errors
            &&& nested.notes == native.notes
            &&& nested.annex == native.annex
            &&& nested.output_key == native.output_key
            &&& nested.kind == "P2SH-"@ + native.kind
        }),
{
    lemma_program_script(0, program);
    lemma_p2sh_of(hash);
    lemma_seen(wit);
    lemma_nested_names();
}

proof fn lemma_nested_names()
    ensures
        "P2SH-P2WSH"@ == "P2SH-"@ + "P2WSH"@,
        "P2SH-P2WPKH"@ == "P2SH-"@ + "P2WPKH"@,
        "scriptPubKey (P2SH)"@ != "scriptSig"@,
{
    reveal_strlit("P2SH-");
    reveal_strlit("P2WSH");
    reveal_strlit("P2WPKH");
    reveal_strlit("P2SH-P2WSH");
    reveal_strlit("P2SH-P2WPKH");
    reveal_strlit("scriptPubKey (P2SH)");
    reveal_strlit("scriptSig");
    assert("P2SH-P2WSH"@ =~= "P2SH-"@ + "P2WSH"@);
    assert("P2SH-P2WPKH"@ =~= "P2SH-"@ + "P2WPKH"@);
    assert("scriptPubKey (P2SH)"@.len() != "scriptSig"@.len());
}

/// A taproot spend with one witness element is a key-path spend: one check of
/// that element against the output key, and no script.
pub proof fn law_key_path_spends(script_sig: Seq<u8>, wit: Seq<Seq<u8>>, program: Seq<u8>)
    requires
        program.len() == 32,
        seen(wit).len() == 1,
    ensures
        ({
            let r = resolved(script_sig, wit, program_script(1, program));
            &&& r.kind == "P2TR (key path)"@
            &&& r.frames.len() == 1
            &&& r.frames[0].key_path
            &&& r.frames[0].sigversion == SigVersion::TaprootKeyPath
            &&& r.frames[0].enter == EnterModel::ResetStack(hex_texts(seen(wit)))
            &&& r.frames[0].leaf_hash is None
            &&& r.initial_stack == hex_texts(seen(wit))
            &&& r.output_key == Some(hex_text(program))
            &&& r.errors.len() == 0
        }),
{
    lemma_program_script(1, program);
    lemma_seen(wit);
}

/// A taproot spend with more witness elements is a script-path spend: the last
/// is the control block and the one before it the leaf script, which runs under
/// the tapscript rules on the rest. Its leaf hash is that of the script and the
/// version in the control block. It is in order exactly if the control block
/// parses, the output key is one, and the block commits the key to the leaf.
pub proof fn law_script_path_spends(script_sig: Seq<u8>, wit: Seq<Seq<u8>>, program: Seq<u8>)
    requires
        program.len() == 32,
        seen(wit).len() >= 2,
    ensures
        ({
            let r = resolved(script_sig, wit, program_script(1, program));
            let items = seen(wit);
            let control = items[items.len() - 1];
            let script = items[items.len() - 2];
            let args = items.take(items.len() - 2);
            let parses = control_error(control) is None;
            let version = (control[0] & 0xfe) as u8;
            &&& r.kind == "P2TR (script path)"@
            &&& r.output_key == Some(hex_text(program))
            &&& parses ==> {
                &&& r.frames.len() == 1
                &&& runs(r.frames[0], script, SigVersion::Tapscript, args)
                &&& r.frames[0].leaf_hash == Some(hex_text(tap_leaf(script, version)))
                &&& r.initial_stack == hex_texts(args)
            }
            &&& !parses ==> r.frames.len() == 0
            &&& parses ==> r.notes[0] == "control block: leaf version 0x"@ + hex_text(seq![version])
                + ", "@ + dec((control.len() - 33) / 32) + " merkle step(s), internal key "@
                + hex_text(control.subrange(1, 33))
            &&& r.notes.contains("taproot commitment verified: this leaf is in the tree"@) <==> {
                parses && valid_xonly_key(program) && commitment_holds(control, program, script)
            }
            &&& r.notes.contains(
                "unknown leaf version: consensus treats this as anyone-can-spend"@,
            ) <==> parses && version != 0xc0
            &&& r.errors.len() == 0 <==> parses && valid_xonly_key(program) && commitment_holds(
                control,
                program,
                script,
            )
        }),
{
    lemma_program_script(1, program);
    lemma_seen(wit);
    let items = seen(wit);
    let control = items[items.len() - 1];
    let script = items[items.len() - 2];
    let r = resolved(script_sig, wit, program_script(1, program));
    if control_error(control) is None {
        let x = control[0];
        assert(x & 0xfe == x - x % 2) by (bit_vector);
        assert(hex_text(seq![(x & 0xfe) as u8]) =~= hex_byte((x & 0xfe) as u8));
        lemma_leaf_notes();
        let committed = valid_xonly_key(program) && commitment_holds(control, program, script);
        assert(r.notes[0][0] == 'c') by {
            reveal_strlit("control block: leaf version 0x");
        }
        let yes = "taproot commitment verified: this leaf is in the tree"@;
        let unknown = "unknown leaf version: consensus treats this as anyone-can-spend"@;
        if committed {
            assert(r.notes[1] == yes);
        }
        if (x & 0xfe) as u8 != 0xc0 {
            assert(r.notes[r.notes.len() - 1] == unknown);
        }
        assert(r.notes.len() <= 3);
        assert(r.notes.len() >= 2 ==> r.notes[1] == yes || r.notes[1] == unknown);
        assert(!committed ==> r.notes.len() <= 2 && (r.notes.len() == 2 ==> r.notes[1] == unknown));
        assert(committed && r.notes.len() == 3 ==> r.notes[2] == unknown);
    }
}

proof fn lemma_leaf_notes()
    ensures
        "taproot commitment verified: this leaf is in the tree"@.len() > 0,
        "taproot commitment verified: this leaf is in the tree"@[0] == 't',
        "unknown leaf version: consensus treats this as anyone-can-spend"@.len() > 0,
        "unknown leaf version: consensus treats this as anyone-can-spend"@[0] == 'u',
{
    reveal_strlit("taproot commitment verified: this leaf is in the tree");
    reveal_strlit("unknown leaf version: consensus treats this as anyone-can-spend");
}

/// Witness programs of other versions and lengths, and taproot programs nested
/// in P2SH, have no rules: nothing runs but the scripts in front.
pub proof fn law_unknown_programs_run_nothing(
    script_sig: Seq<u8>,
    wit: Seq<Seq<u8>>,
    hash: Seq<u8>,
    version: int,
    program: Seq<u8>,
)
    requires
        0 <= version <= 16,
        2 <= program.len() <= 40,
        wit.len() > 0,
        hash.len() == 20,
        version == 0 ==> program.len() != 20 && program.len() != 32,
    ensures
        !(version == 1 && program.len() == 32) ==> ({
            let r = resolved(script_sig, wit, program_script(version, program));
            &&& r.frames.len() == 0
            &&& r.errors.len() == 0
            &&& r.initial_stack == hex_texts(seen(wit))
            &&& r.kind == "witness v"@ + dec(version) + " program ("@ + dec(program.len() as int)
                + " bytes)"@
        }),
        final_push(script_sig) == Some(program_script(version, program)) ==> ({
            let r = resolved(script_sig, wit, p2sh_of(hash));
            &&& r.frames.len() == 2
            &&& runs_legacy(r.frames[0], script_sig)
            &&& runs_legacy(r.frames[1], p2sh_of(hash))
            &&& r.output_key is None
        }),
{
    lemma_program_script(version, program);
    lemma_p2sh_of(hash);
    lemma_seen(wit);
}

/// An output script that is no witness program and not P2SH runs behind the
/// scriptSig, both under the legacy rules, whatever the witness; so does a
/// witness program without a witness.
pub proof fn law_bare_spends(script_sig: Seq<u8>, wit: Seq<Seq<u8>>, spk: Seq<u8>)
    requires
        wit.len() == 0 || spk.len() < 4 || spk.len() > 42 || (spk[0] != 0 && !(0x51 <= spk[0]
            <= 0x60)) || spk[1] != spk.len() - 2,
        !(exists|h: Seq<u8>| h.len() == 20 && spk == p2sh_of(h)),
    ensures
        ({
            let r = resolved(script_sig, wit, spk);
            &&& r.frames.len() == 2
            &&& runs_legacy(r.frames[0], script_sig)
            &&& r.frames[0].label == "scriptSig"@
            &&& runs_legacy(r.frames[1], spk)
            &&& r.frames[1].label == "scriptPubKey"@
            &&& r.initial_stack.len() == 0
            &&& r.errors.len() == 0
            &&& r.annex is None
            &&& r.output_key is None
        }),
{
    if crate::spend::p2sh_script(spk) {
        let h = spk.subrange(2, 22);
        assert(spk =~= p2sh_of(h));
    }
}

/// A P2SH output whose redeem script is no witness program, or that comes
/// without a witness, runs the scriptSig, the output script, and then the redeem
/// script on what the scriptSig left without its last push. Without a redeem
/// script the spend is reported as broken.
pub proof fn law_p2sh_spends(script_sig: Seq<u8>, wit: Seq<Seq<u8>>, hash: Seq<u8>)
    requires
        hash.len() == 20,
    ensures
        ({
            let r = resolved(script_sig, wit, p2sh_of(hash));
            match final_push(script_sig) {
                Some(redeem) => wit.len() == 0 || redeem.len() < 4 || redeem.len() > 42 || (redeem[0] != 0
                    && !(0x51 <= redeem[0] <= 0x60)) || redeem[1] != redeem.len() - 2 ==> {
                    &&& r.kind == "P2SH"@
                    &&& r.frames.len() == 3
                    &&& runs_legacy(r.frames[0], script_sig)
                    &&& r.frames[0].label == "scriptSig"@
                    &&& runs_legacy(r.frames[1], p2sh_of(hash))
                    &&& r.frames[2].script_hex == hex_text(redeem)
                    &&& r.frames[2].sigversion == SigVersion::Legacy
                    &&& r.frames[2].enter == EnterModel::PopRedeem
                    &&& r.errors.len() == 0
                },
                None => {
                    &&& r.frames.len() == 2
                    &&& runs_legacy(r.frames[0], script_sig)
                    &&& runs_legacy(r.frames[1], p2sh_of(hash))
                    &&& r.errors.len() == 1
                },
            }
        }),
{
    lemma_p2sh_of(hash);
}

/// The redeem script is the data of the scriptSig's last instruction. It is
/// there exactly if the scriptSig decodes and ends in a push; a scriptSig that is
/// one push of it gives it back.
pub proof fn law_redeem_script(script_sig: Seq<u8>, redeem: Seq<u8>)
    ensures
        final_push(script_sig) is Some ==> instructions(script_sig).last().data == final_push(
            script_sig,
        ) && decode_error(script_sig) is None,
        final_push(script_sig) is Some <==> {
            &&& instructions(script_sig).len() > 0
            &&& decode_error(script_sig) is None
            &&& instructions(script_sig).last().data is Some
        },
        0 < redeem.len() < 0x1_0000_0000 ==> final_push(push_of(redeem)) == Some(redeem),
{
    if 0 < redeem.len() < 0x1_0000_0000 {
        law_push_decodes_to_its_data(redeem);
    }
}

/// A pay-to-public-key-hash script.
pub open spec fn p2pkh_of(hash: Seq<u8>) -> Seq<u8> {
    seq![0x76u8, 0xa9u8, 0x14u8] + hash + seq![0x88u8, 0xacu8]
}

/// A pay-to-public-key script.
pub open spec fn p2pk_of(key: Seq<u8>) -> Seq<u8> {
    seq![key.len() as u8] + key + seq![0xacu8]
}

/// The kinds of output script that are told apart by their form.
pub proof fn law_legacy_kinds(spk: Seq<u8>, hash: Seq<u8>, key: Seq<u8>)
    ensures
        hash.len() == 20 ==> legacy_kind(p2pkh_of(hash)) == "P2PKH"@,
        key.len() == 33 || key.len() == 65 ==> legacy_kind(p2pk_of(key)) == "P2PK"@,
        multisig_script(spk) ==> legacy_kind(spk) == "bare multisig"@,
        spk.len() > 0 && spk[0] == 0x6a && !multisig_script(spk) ==> legacy_kind(spk)
            == "OP_RETURN (unspendable)"@,
        !p2pkh_script(spk) && !p2pk_script(spk) && !multisig_script(spk) && (spk.len() == 0 || spk[0]
            != 0x6a) ==> legacy_kind(spk) == "bare script"@,
        p2pkh_script(spk) <==> exists|h: Seq<u8>|
            h.len() == 20 && spk == #[trigger] p2pkh_of(h),
        p2pk_script(spk) <==> exists|k: Seq<u8>|
            (k.len() == 33 || k.len() == 65) && spk == #[trigger] p2pk_of(k),
{
    if multisig_script(spk) {
        lemma_instruction_at(spk, 0);
        law_instructions_cover_the_script(spk);
    }
    if p2pkh_script(spk) {
        assert(spk =~= p2pkh_of(spk.subrange(3, 23)));
    }
    if p2pk_script(spk) {
        assert(spk =~= p2pk_of(spk.subrange(1, spk.len() - 1)));
    }
}

/// Resolving looks at the witness and at the output script before anything
/// else: a version 0 program is spent under the version 0 rules, a taproot
/// program under the taproot rules, and everything else under the legacy rules.
pub proof fn law_rules_follow_the_program(
    script_sig: Seq<u8>,
    wit: Seq<Seq<u8>>,
    spk: Seq<u8>,
    k: int,
)
    requires
        0 <= k < resolved(script_sig, wit, spk).frames.len(),
    ensures
        ({
            let r = resolved(script_sig, wit, spk);
            let f = r.frames[k];
            &&& f.sigversion == SigVersion::WitnessV0 ==> wit.len() > 0 && k == r.frames.len() - 1
            &&& f.sigversion == SigVersion::Tapscript || f.sigversion == SigVersion::TaprootKeyPath
                ==> wit.len() > 0 && r.frames.len() == 1 && spk.len() == 34 && spk[0] == 0x51
                && spk[1] == 0x20
            &&& f.key_path <==> f.sigversion == SigVersion::TaprootKeyPath
            &&& f.leaf_hash is Some <==> f.sigversion == SigVersion::Tapscript
        }),
{
}

/// A version 0 script hash is spent by its last witness element under the
/// version 0 rules, nested or not, whatever that element hashes to.
pub proof fn law_script_hash_rules(
    base: SpendModel,
    stack: Seq<Seq<u8>>,
    program: Seq<u8>,
    nested: bool,
    hash: Seq<u8>,
)
    requires
        stack.len() > 0,
    ensures
        ({
            let r = script_hash_spend(base, stack, program, nested, hash);
            let args = stack.take(stack.len() - 1);
            &&& r.frames.len() == base.frames.len() + 1
            &&& runs(r.frames.last(), stack[stack.len() - 1], SigVersion::WitnessV0, args)
            &&& r.frames.last() == script_hash_spend(
                base,
                stack,
                program,
                !nested,
                hash,
            ).frames.last()
            &&& r.errors.len() == base.errors.len() <==> hash == program
        }),
{
    assert(stack.drop_last() =~= stack.take(stack.len() - 1));
}

/// Hexadecimal texts describe the spend of the bytes that they mean; what is no
/// hex describes none.
pub proof fn law_described_spends(
    script_sig: Seq<u8>,
    wit: Seq<Seq<u8>>,
    spk: Seq<u8>,
    text: Seq<char>,
)
    ensures
        described_spend(hex_text(script_sig), Ok(hex_texts(wit)), hex_text(spk)) == Ok::<
            SpendModel,
            Seq<char>,
        >(resolved(script_sig, wit, spk)),
        hex_parsed(trimmed(text)) is Err ==> {
            &&& described_spend(text, Ok(hex_texts(wit)), hex_text(spk)) is Err
            &&& described_spend(hex_text(script_sig), Ok(hex_texts(wit)), text) is Err
        },
{
    law_hex_roundtrip(script_sig);
    law_hex_roundtrip(spk);
    lemma_hex_text_is_bare(script_sig);
    lemma_hex_text_is_bare(spk);
    law_stack_items_roundtrip(wit);
}

} // verus!
