//! End-to-end checks: the interpreter must run valid spends to completion with
//! a true stack top, and stop verifying when the transaction is tampered with.

use bitcoin::absolute::LockTime;
use bitcoin::hashes::Hash as _;
use bitcoin::opcodes::all::{
    OP_CHECKMULTISIG, OP_CHECKSIG, OP_CHECKSIGADD, OP_CODESEPARATOR, OP_DROP, OP_NUMEQUAL,
};
use bitcoin::script::Builder;
use bitcoin::secp256k1::{All, Keypair, Message, PublicKey, Secp256k1, SecretKey};
use bitcoin::sighash::{Annex, EcdsaSighashType, Prevouts, SighashCache, TapSighashType};
use bitcoin::taproot::{LeafVersion, TapLeafHash, TaprootBuilder};
use bitcoin::transaction::Version;
use bitcoin::{Amount, OutPoint, ScriptBuf, Sequence, Transaction, TxIn, TxOut, Witness};
use btcdeb_engine::debugger::{match_prevouts, Debugger, PrevoutInput};
use btcdeb_engine::interp::{self, Machine};
use btcdeb_engine::sig::SigContext;
use btcdeb_engine::spend;
use btcdeb_engine::tx;

/// Transaction 0543411b2e7fbd8af4c46c593049dbac2d4007c0f5f12e4e5c71a07566e787c4, mined on
/// mainnet: a P2PKH input and two P2SH-P2WPKH inputs.
const MAINNET_TX: &str = "020000000001031cfbc8f54fbfa4a33a30068841371f80dbfe166211242213188428f437445c91000000006a\
     47304402206fbcec8d2d2e740d824d3d36cc345b37d9f65d665a99f5bd5c9e8d42270a03a802201395963249\
     2332200c2908459547bf8dbf97c65ab1a28dec377d6f1d41d3d63e012103d7279dfb90ce17fe139ba60a7c41\
     ddf605b25e1c07a4ddcb9dfef4e7d6710f48feffffff476222484f5e35b3f0e43f65fc76e21d8be7818dd6a9\
     89c160b1e5039b7835fc00000000171600140914414d3c94af70ac7e25407b0689e0baa10c77feffffffa83d\
     954a62568bbc99cc644c62eb7383d7c2a2563041a0aeb891a6a4055895570000000017160014795d04cc2d4f\
     31480d9a3710993fbd80d04301dffeffffff06fef72f000000000017a91476fd7035cd26f1a32a5ab979e056\
     713aac25796887a5000f00000000001976a914b8332d502a529571c6af4be66399cd33379071c588ac3fda05\
     00000000001976a914fc1d692f8de10ae33295f090bea5fe49527d975c88ac522e1b00000000001976a91480\
     8406b54d1044c429ac54c0e189b0d8061667e088ac6eb68501000000001976a914dfab6085f3a8fb3e671020\
     6a5a959313c5618f4d88acbba20000000000001976a914eb3026552d7e3f3073457d0bee5d4757de48160d88\
     ac0002483045022100bee24b63212939d33d513e767bc79300051f7a0d433c3fcf1e0e3bf03b9eb1d7022058\
     8dc45a9ce3a939103b4459ce47500b64e23ab118dfc03c9caa7d6bfc32b9c601210354fd80328da0f9ae6eef\
     2b3a81f74f9a6f66761fadf96f1d1d22b1fd6845876402483045022100e29c7e3a5efc10da6269e5fc20b6a1\
     cb8beb92130cc52c67e46ef40aaa5cac5f0220644dd1b049727d991aece98a105563416e10a5ac4221abac7d\
     16931842d5c322012103960b87412d6e169f30e12106bdf70122aabb9eb61f455518322a18b920a4dfa887d3\
     0700";

const MAINNET_PREVOUTS: [(u64, &str); 3] = [
    (986422, "76a9149f44b06f6ee92ddbc4686f71afe528c09727a5c788ac"),
    (22904040, "a914f3890da1b99e44cd3d52f7bcea6a1351658ea7be87"),
    (8000000, "a914f895e1dd9b29cb228e9b06a15204e3b57feaf7cc87"),
];

/// Consensus + standardness flags a mainnet node would apply today.
fn flags() -> u32 {
    interp::VERIFY_P2SH
        | interp::VERIFY_DERSIG
        | interp::VERIFY_LOW_S
        | interp::VERIFY_NULLDUMMY
        | interp::VERIFY_MINIMALDATA
        | interp::VERIFY_CLEANSTACK
        | interp::VERIFY_CHECKLOCKTIMEVERIFY
        | interp::VERIFY_CHECKSEQUENCEVERIFY
        | interp::VERIFY_NULLFAIL
}

struct Fixture {
    raw: Vec<u8>,
    input_index: usize,
    prevouts: Vec<(u64, Vec<u8>)>,
}

struct Outcome {
    success: bool,
    error: Option<String>,
    kind: String,
    sig_checks: usize,
    valid_sigs: usize,
    records: Vec<interp::StepRecord>,
}

fn outs(f: &Fixture) -> Vec<tx::TxOut> {
    f.prevouts
        .iter()
        .map(|p| tx::TxOut { value: p.0, script_pubkey: p.1.clone() })
        .collect()
}

fn build(f: &Fixture, flags: u32) -> (Machine, spend::SpendInfo) {
    let tx = tx::Tx::decode(f.raw.clone()).expect("fixture tx parses");
    let input = &tx.parts().inputs[f.input_index];
    let prevouts = outs(f);
    let spk = prevouts[f.input_index].script_pubkey.clone();
    let info = spend::resolve(&input.script_sig, &input.witness, &spk);
    assert!(
        info.errors.is_empty(),
        "spend resolution reported errors for a valid tx: {:?}",
        info.errors
    );
    let initial: Vec<Vec<u8>> =
        info.initial_stack.iter().map(|s| hex::decode(s).unwrap()).collect();
    let witness_size: usize = input.witness.iter().map(|w| w.len() + 1).sum();
    let annex = info.annex.as_ref().map(|a| hex::decode(a).unwrap());
    let ctx = SigContext { tx, input_index: f.input_index, prevouts };
    let m = Machine::new(
        &info.frames,
        initial,
        flags,
        Some(ctx),
        false, // never assume: these must verify for real
        witness_size,
        annex,
    )
    .expect("machine builds");
    (m, info)
}

fn run_fixture_with(f: &Fixture, flags: u32) -> Outcome {
    let (mut m, info) = build(f, flags);
    let (mut sig_checks, mut valid_sigs) = (0, 0);
    let mut records = Vec::new();
    for _ in 0..10_000 {
        if m.state().finished {
            break;
        }
        let r = m.step();
        for s in &r.sigs {
            sig_checks += 1;
            if s.valid {
                valid_sigs += 1;
            }
            assert!(!s.assumed, "signature check was assumed rather than verified");
        }
        records.push(r);
    }
    let st = m.state();
    Outcome {
        success: st.success,
        error: st.error,
        kind: info.kind,
        sig_checks,
        valid_sigs,
        records,
    }
}

fn run_fixture(f: &Fixture) -> Outcome {
    run_fixture_with(f, flags())
}

fn mainnet(input_index: usize) -> Fixture {
    Fixture {
        raw: hex::decode(MAINNET_TX).unwrap(),
        input_index,
        prevouts: MAINNET_PREVOUTS.iter().map(|p| (p.0, hex::decode(p.1).unwrap())).collect(),
    }
}

fn key(secp: &Secp256k1<All>, n: u8) -> (SecretKey, PublicKey) {
    let sk = SecretKey::from_slice(&[n; 32]).unwrap();
    (sk, PublicKey::from_secret_key(secp, &sk))
}

fn unsigned() -> Transaction {
    Transaction {
        version: Version::TWO,
        lock_time: LockTime::ZERO,
        input: vec![TxIn {
            previous_output: OutPoint::null(),
            script_sig: ScriptBuf::new(),
            sequence: Sequence::ENABLE_RBF_NO_LOCKTIME,
            witness: Witness::new(),
        }],
        output: vec![TxOut {
            value: Amount::from_sat(90_000),
            script_pubkey: ScriptBuf::from_bytes(vec![0x51]),
        }],
    }
}

fn fixture(tx: &Transaction, spk: &ScriptBuf) -> Fixture {
    Fixture {
        raw: bitcoin::consensus::encode::serialize(tx),
        input_index: 0,
        prevouts: vec![(100_000, spk.to_bytes())],
    }
}

fn ecdsa(secp: &Secp256k1<All>, digest: [u8; 32], sk: &SecretKey) -> Vec<u8> {
    let mut sig = secp.sign_ecdsa(&Message::from_digest(digest), sk).serialize_der().to_vec();
    sig.push(1);
    sig
}

fn p2wpkh() -> (Transaction, ScriptBuf) {
    let secp = Secp256k1::new();
    let (sk, pk) = key(&secp, 1);
    let pk = bitcoin::CompressedPublicKey(pk);
    let spk = ScriptBuf::new_p2wpkh(&pk.wpubkey_hash());
    let mut tx = unsigned();
    let digest = SighashCache::new(&tx)
        .p2wpkh_signature_hash(0, &spk, Amount::from_sat(100_000), EcdsaSighashType::All)
        .unwrap();
    let sig = ecdsa(&secp, digest.to_byte_array(), &sk);
    tx.input[0].witness = Witness::from_slice(&[sig, pk.to_bytes().to_vec()]);
    (tx, spk)
}

fn two_of_three(secp: &Secp256k1<All>) -> ScriptBuf {
    Builder::new()
        .push_int(2)
        .push_slice(key(secp, 1).1.serialize())
        .push_slice(key(secp, 2).1.serialize())
        .push_slice(key(secp, 3).1.serialize())
        .push_int(3)
        .push_opcode(OP_CHECKMULTISIG)
        .into_script()
}

fn p2wsh_multisig(first: u8, second: u8) -> Fixture {
    let secp = Secp256k1::new();
    let script = two_of_three(&secp);
    let spk = ScriptBuf::new_p2wsh(&script.wscript_hash());
    let mut tx = unsigned();
    let digest = SighashCache::new(&tx)
        .p2wsh_signature_hash(0, &script, Amount::from_sat(100_000), EcdsaSighashType::All)
        .unwrap()
        .to_byte_array();
    tx.input[0].witness = Witness::from_slice(&[
        vec![],
        ecdsa(&secp, digest, &key(&secp, first).0),
        ecdsa(&secp, digest, &key(&secp, second).0),
        script.to_bytes(),
    ]);
    fixture(&tx, &spk)
}

fn p2sh_multisig() -> Fixture {
    let secp = Secp256k1::new();
    let script = two_of_three(&secp);
    let spk = ScriptBuf::new_p2sh(&script.script_hash());
    let mut tx = unsigned();
    let digest =
        SighashCache::new(&tx).legacy_signature_hash(0, &script, 1).unwrap().to_byte_array();
    let push = |b: Vec<u8>| bitcoin::script::PushBytesBuf::try_from(b).unwrap();
    tx.input[0].script_sig = Builder::new()
        .push_int(0)
        .push_slice(push(ecdsa(&secp, digest, &key(&secp, 1).0)))
        .push_slice(push(ecdsa(&secp, digest, &key(&secp, 3).0)))
        .push_slice(push(script.to_bytes()))
        .into_script();
    fixture(&tx, &spk)
}

/// A legacy script with an `OP_CODESEPARATOR`: only what follows it is signed.
fn bare_codeseparator() -> Fixture {
    let secp = Secp256k1::new();
    let (sk, pk) = key(&secp, 5);
    let signed = Builder::new().push_slice(pk.serialize()).push_opcode(OP_CHECKSIG).into_script();
    let spk = Builder::new()
        .push_int(7)
        .push_opcode(OP_DROP)
        .push_opcode(OP_CODESEPARATOR)
        .push_slice(pk.serialize())
        .push_opcode(OP_CHECKSIG)
        .into_script();
    let mut tx = unsigned();
    let digest =
        SighashCache::new(&tx).legacy_signature_hash(0, &signed, 1).unwrap().to_byte_array();
    let sig = bitcoin::script::PushBytesBuf::try_from(ecdsa(&secp, digest, &sk)).unwrap();
    tx.input[0].script_sig = Builder::new().push_slice(sig).into_script();
    fixture(&tx, &spk)
}

const ANNEX: [u8; 3] = [0x50, 0xaa, 0xbb];

fn key_path(annexed: bool) -> Fixture {
    let secp = Secp256k1::new();
    let pair = Keypair::from_secret_key(&secp, &key(&secp, 4).0);
    let mut program = vec![0x51, 0x20];
    program.extend_from_slice(&pair.x_only_public_key().0.serialize());
    let spk = ScriptBuf::from_bytes(program);
    let mut tx = unsigned();
    let prevouts = [TxOut { value: Amount::from_sat(100_000), script_pubkey: spk.clone() }];
    let annex = if annexed { Some(Annex::new(&ANNEX).unwrap()) } else { None };
    let digest = SighashCache::new(&tx)
        .taproot_signature_hash(0, &Prevouts::All(&prevouts), annex, None, TapSighashType::Default)
        .unwrap();
    let sig = secp.sign_schnorr_no_aux_rand(&Message::from_digest(digest.to_byte_array()), &pair);
    let mut items = vec![sig.serialize().to_vec()];
    if annexed {
        items.push(ANNEX.to_vec());
    }
    tx.input[0].witness = Witness::from_slice(&items);
    fixture(&tx, &spk)
}

/// A leaf that wants two of two signatures by `OP_CHECKSIGADD`, the second one
/// behind an `OP_CODESEPARATOR`.
fn script_path() -> Fixture {
    let secp = Secp256k1::new();
    let a = Keypair::from_secret_key(&secp, &key(&secp, 6).0);
    let b = Keypair::from_secret_key(&secp, &key(&secp, 7).0);
    let internal = Keypair::from_secret_key(&secp, &key(&secp, 8).0).x_only_public_key().0;
    let script = Builder::new()
        .push_slice(a.x_only_public_key().0.serialize())
        .push_opcode(OP_CHECKSIG)
        .push_opcode(OP_CODESEPARATOR)
        .push_slice(b.x_only_public_key().0.serialize())
        .push_opcode(OP_CHECKSIGADD)
        .push_int(2)
        .push_opcode(OP_NUMEQUAL)
        .into_script();
    let info = TaprootBuilder::new()
        .add_leaf(0, script.clone())
        .unwrap()
        .finalize(&secp, internal)
        .unwrap();
    let spk = ScriptBuf::new_p2tr_tweaked(info.output_key());
    let mut tx = unsigned();
    let prevouts = [TxOut { value: Amount::from_sat(100_000), script_pubkey: spk.clone() }];
    let leaf = TapLeafHash::from_script(&script, LeafVersion::TapScript);
    let sign = |pair: &Keypair, position: u32| {
        let digest = SighashCache::new(&tx)
            .taproot_signature_hash(
                0,
                &Prevouts::All(&prevouts),
                None,
                Some((leaf, position)),
                TapSighashType::All,
            )
            .unwrap();
        let msg = Message::from_digest(digest.to_byte_array());
        let mut sig = secp.sign_schnorr_no_aux_rand(&msg, pair).serialize().to_vec();
        sig.push(1);
        sig
    };
    let control = info.control_block(&(script.clone(), LeafVersion::TapScript)).unwrap();
    let items = [sign(&b, 2), sign(&a, 0xffff_ffff), script.to_bytes(), control.serialize()];
    tx.input[0].witness = Witness::from_slice(&items);
    fixture(&tx, &spk)
}

#[test]
fn real_mainnet_spends_all_verify() {
    for (index, kind) in [(0, "P2PKH"), (1, "P2SH-P2WPKH"), (2, "P2SH-P2WPKH")] {
        let out = run_fixture(&mainnet(index));
        assert!(out.success, "{}: {:?}", kind, out.error);
        assert_eq!(out.kind, kind);
        assert_eq!((out.sig_checks, out.valid_sigs), (1, 1));
    }
}

#[test]
fn signed_spends_of_every_kind_verify() {
    let (tx, spk) = p2wpkh();
    let cases = [
        ("P2WPKH", fixture(&tx, &spk), 1, 1),
        ("P2WSH", p2wsh_multisig(1, 3), 3, 2),
        ("P2SH", p2sh_multisig(), 3, 2),
        ("bare script", bare_codeseparator(), 1, 1),
        ("P2TR (key path)", key_path(false), 1, 1),
        ("P2TR (key path)", key_path(true), 1, 1),
        ("P2TR (script path)", script_path(), 2, 2),
    ];
    for (kind, f, checks, valid) in cases {
        let out = run_fixture(&f);
        assert!(out.success, "{}: {:?}", kind, out.error);
        assert_eq!(out.kind, kind);
        assert_eq!((out.sig_checks, out.valid_sigs), (checks, valid), "{}", kind);
    }
}

/// A valid spend must stop verifying if we corrupt the sighash preimage, which
/// proves the signature check is really bound to the transaction.
#[test]
fn tampering_with_the_tx_breaks_the_signature() {
    let (mut tx, spk) = p2wpkh();
    let before = run_fixture(&fixture(&tx, &spk));
    // Redirect a payment: same script shape, one satoshi less.
    tx.output[0].value = Amount::from_sat(tx.output[0].value.to_sat() - 1);
    let out = run_fixture(&fixture(&tx, &spk));
    assert!(
        !out.success,
        "changing an output value must invalidate the signature, but the script still passed"
    );
    assert_eq!(out.valid_sigs, 0, "no signature should verify over a tampered tx");
    let sighash = |o: &Outcome| {
        o.records.iter().flat_map(|r| r.sigs.iter()).next().unwrap().sighash.clone()
    };
    assert_ne!(sighash(&out), sighash(&before));
}

#[test]
fn a_wrong_prevout_value_breaks_segwit_signatures_only() {
    let mut f = mainnet(1);
    f.prevouts[1].0 += 1;
    assert!(!run_fixture(&f).success);
    let mut f = mainnet(0);
    f.prevouts[0].0 += 1;
    assert!(run_fixture(&f).success);
    let mut f = key_path(false);
    f.prevouts[0].0 += 1;
    let out = run_fixture(&f);
    assert_eq!(
        out.error.as_deref(),
        Some("key-path signature check failed: BIP340 signature does not verify")
    );
}

#[test]
fn multisig_signatures_must_keep_the_order_of_the_keys() {
    let out = run_fixture_with(&p2wsh_multisig(3, 1), 0);
    assert!(!out.success);
    assert_eq!((out.sig_checks, out.valid_sigs), (3, 1));
    let notes = &out.records.iter().find(|r| r.op == "OP_CHECKMULTISIG").unwrap().notes;
    assert_eq!(notes[0], "signature 1 matched key 3");
    assert_eq!(notes[3], "signature 2 matched none of the remaining keys");
    assert_eq!(notes[5], "2-of-3 multisig: NOT satisfied");
    let out = run_fixture(&p2wsh_multisig(3, 1));
    assert_eq!(
        out.error.as_deref(),
        Some("NULLFAIL: failing multisig with non-empty signatures (standardness rule; consensus allows this)")
    );
}

#[test]
fn every_check_carries_its_pair_and_digest() {
    let out = run_fixture(&p2wsh_multisig(1, 3));
    let sigs: Vec<_> = out.records.iter().flat_map(|r| r.sigs.iter()).collect();
    let secp = Secp256k1::new();
    for (s, n) in sigs.iter().zip([1u8, 2, 3]) {
        assert_eq!(s.pubkey, hex::encode(key(&secp, n).1.serialize()));
        assert_eq!(s.sighash, sigs[0].sighash);
        assert_eq!(s.sighash.len(), 64);
    }
    assert_ne!(sigs[0].signature, sigs[1].signature);
    assert_eq!(sigs[1].signature, sigs[2].signature);
}

#[test]
fn a_high_s_value_is_seen() {
    let (mut tx, spk) = p2wpkh();
    let mut items = tx.input[0].witness.to_vec();
    let der = &items[0][..items[0].len() - 1];
    let sig = bitcoin::secp256k1::ecdsa::Signature::from_der(der).unwrap();
    let mut compact = sig.serialize_compact();
    let order =
        hex::decode("fffffffffffffffffffffffffffffffebaaedce6af48a03bbfd25e8cd0364141").unwrap();
    let mut borrow = 0i32;
    for i in (0..32).rev() {
        let d = order[i] as i32 - compact[32 + i] as i32 - borrow;
        borrow = (d < 0) as i32;
        compact[32 + i] = d.rem_euclid(256) as u8;
    }
    let high = bitcoin::secp256k1::ecdsa::Signature::from_compact(&compact).unwrap();
    items[0] = high.serialize_der().to_vec();
    items[0].push(1);
    tx.input[0].witness = Witness::from_slice(&items);
    let f = fixture(&tx, &spk);
    let checked = |flags: u32| {
        let out = run_fixture_with(&f, flags);
        out.records.iter().flat_map(|r| r.sigs.iter()).next().unwrap().clone()
    };
    assert_eq!(
        checked(interp::VERIFY_LOW_S).detail,
        "signature has high S value (SCRIPT_VERIFY_LOW_S)"
    );
    assert!(!checked(interp::VERIFY_LOW_S).valid);
    assert_eq!(
        checked(0).warnings,
        vec!["signature has a high S value (non-standard, BIP62)"]
    );
    // Without the flag a high S is as valid as the low one.
    assert!(checked(0).valid);
    assert!(run_fixture_with(&f, 0).success);
    let (low, spk) = p2wpkh();
    assert!(run_fixture_with(&fixture(&low, &spk), 0).success);
}

#[test]
fn keys_and_signatures_that_do_not_parse() {
    let (mut tx, _) = p2wpkh();
    let sig = tx.input[0].witness.to_vec()[0].clone();
    let bad_key = vec![5u8; 33];
    let hash = bitcoin::hashes::hash160::Hash::hash(&bad_key);
    let mut program = vec![0x00, 0x14];
    program.extend_from_slice(&hash.to_byte_array());
    let spk = ScriptBuf::from_bytes(program);
    tx.input[0].witness = Witness::from_slice(&[sig, bad_key]);
    let out = run_fixture_with(&fixture(&tx, &spk), 0);
    let s = out.records.iter().flat_map(|r| r.sigs.iter()).next().unwrap().clone();
    assert_eq!(s.detail, "invalid public key: malformed public key");

    let (mut tx, spk) = p2wpkh();
    let mut items = tx.input[0].witness.to_vec();
    items[0] = vec![1, 2, 3];
    tx.input[0].witness = Witness::from_slice(&items);
    let checked = |flags: u32| {
        let out = run_fixture_with(&fixture(&tx, &spk), flags);
        out.records.iter().flat_map(|r| r.sigs.iter()).next().unwrap().clone()
    };
    assert_eq!(
        checked(interp::VERIFY_DERSIG).detail,
        "signature is not strict DER (SCRIPT_VERIFY_DERSIG)"
    );
    assert_eq!(checked(0).detail, "could not parse ECDSA signature");
}

#[test]
fn tapscript_budget() {
    let f = script_path();
    let (mut m, _) = build(&f, flags());
    let start = m.state().budget;
    assert!(m.run_to_completion(100));
    assert!(m.state().success, "{:?}", m.state().error);
    assert_eq!(m.state().budget, start - 100);

    // With no witness to weigh, one check uses the budget up.
    let tx = tx::Tx::decode(f.raw.clone()).unwrap();
    let input = &tx.parts().inputs[0];
    let info = spend::resolve(&input.script_sig, &input.witness, &f.prevouts[0].1);
    let ctx = SigContext { tx, input_index: 0, prevouts: outs(&f) };
    let mut m = Machine::new(&info.frames, vec![], flags(), Some(ctx), false, 0, None).unwrap();
    m.run_to_completion(100);
    assert_eq!(
        m.state().error.as_deref(),
        Some("tapscript validation weight budget exhausted")
    );
    assert_eq!(m.state().budget, 0);
}

/// The rewind command must restore state exactly, so stepping forward again
/// reproduces the same run.
#[test]
fn rewind_restores_state() {
    let f = mainnet(0);
    let (mut m, _) = build(&f, flags());

    for _ in 0..4 {
        m.step();
    }
    let before = m.state();
    m.step();
    m.rewind().expect("rewind works");
    let after = m.state();
    assert_eq!(before.stack, after.stack);
    assert_eq!(before.step_n, after.step_n);
    assert_eq!(before.ip, after.ip);
    assert_eq!(before.frame_idx, after.frame_idx);

    m.rewind().unwrap();
    m.rewind().unwrap();
    m.rewind().unwrap();
    m.rewind().unwrap();
    assert!(m.rewind().is_err(), "rewinding past the start must error");
}

fn prevout_inputs() -> Vec<PrevoutInput> {
    MAINNET_PREVOUTS
        .iter()
        .map(|p| PrevoutInput { value: p.0, script_pubkey: p.1.to_string() })
        .collect()
}

#[test]
fn debugging_a_real_spend() {
    let spaced = format!("  {}\n", MAINNET_TX);
    let mut d =
        Debugger::from_tx(&spaced, 1, Ok(prevout_inputs()), flags(), false).ok().unwrap();
    assert_eq!(d.info().kind, "P2SH-P2WPKH");
    let listing = d.listing();
    assert_eq!(listing.len(), 3);
    assert_eq!(listing[2].label, "witness (implied P2PKH)");
    assert_eq!(listing[2].instructions[0].op_name, "OP_DUP");
    assert!(listing[2].instructions[2].is_push);
    let first = d.step();
    assert_eq!(first.op, "── scriptSig ──");
    assert!(first.transition);
    let records = d.run(1000);
    assert!(d.state().success, "{:?}", d.state().error);
    assert_eq!(d.records().len(), records.len() + 1);
    let n = d.records().len();
    assert_eq!(d.rewind().unwrap().step_n, n - 1);
    assert_eq!(d.records().len(), n - 1);
}

#[test]
fn spends_that_cannot_be_loaded() {
    let load = |tx: &str, index: usize, prevouts: Result<Vec<PrevoutInput>, String>| {
        Debugger::from_tx(tx, index, prevouts, flags(), false).err().unwrap()
    };
    assert_eq!(load("0", 0, Ok(vec![])), "bad tx hex: Odd number of digits");
    assert!(load("00", 0, Ok(vec![])).starts_with("could not parse transaction: "));
    assert_eq!(
        load(MAINNET_TX, 3, Err("never read".into())),
        "input index 3 out of range; this tx has 3 input(s)"
    );
    assert_eq!(load(MAINNET_TX, 0, Err("no list".into())), "bad prevouts: no list");
    assert_eq!(
        load(MAINNET_TX, 0, Ok(vec![])),
        "got 0 prevouts for a tx with 3 inputs; taproot sighashes need all of them"
    );
    let mut bad = prevout_inputs();
    bad[1].script_pubkey = "xy".into();
    assert_eq!(
        load(MAINNET_TX, 0, Ok(bad)),
        "bad prevout scriptPubKey hex: Invalid character 'x' at position 0"
    );
    let matched = match_prevouts(3, 0, Ok(prevout_inputs())).unwrap();
    assert_eq!(matched[0].value, 986422);
    assert_eq!(hex::encode(&matched[2].script_pubkey), MAINNET_PREVOUTS[2].1);
}

#[test]
fn taproot_resolution_reports_what_is_wrong() {
    let f = script_path();
    let tx = tx::Tx::decode(f.raw.clone()).unwrap();
    let wit = tx.parts().inputs[0].witness.clone();
    let spk = f.prevouts[0].1.clone();
    let info = spend::resolve(&[], &wit, &spk);
    assert_eq!(info.notes[1], "taproot commitment verified: this leaf is in the tree");
    assert!(info.notes[0].starts_with(
        "control block: leaf version 0xc0, 0 merkle step(s), internal key "
    ));
    assert_eq!(info.output_key, Some(hex::encode(&spk[2..])));

    let mut other = wit.clone();
    other[2].push(0x61);
    let info = spend::resolve(&[], &other, &spk);
    assert_eq!(
        info.errors,
        vec!["taproot commitment INVALID: leaf/path does not tweak to the output key"]
    );

    let mut short = wit.clone();
    short[3].pop();
    let info = spend::resolve(&[], &short, &spk);
    assert_eq!(
        info.errors,
        vec!["invalid control block: Control Block size(32) must be of the form 33 + 32*m where  0 <= m <= 128 "]
    );
    let mut version = wit.clone();
    version[3][0] = 0x51;
    let info = spend::resolve(&[], &version, &spk);
    assert_eq!(
        info.errors,
        vec!["invalid control block: Leaf version(80) must have the least significant bit 0"]
    );
    let mut keyless = wit.clone();
    for b in keyless[3][1..].iter_mut() {
        *b = 0xff;
    }
    let info = spend::resolve(&[], &keyless, &spk);
    assert_eq!(info.errors, vec!["invalid control block: invalid internal x-only key"]);
    let mut deep = wit.clone();
    deep[3].extend_from_slice(&[0; 32 * 129]);
    let info = spend::resolve(&[], &deep, &spk);
    assert_eq!(
        info.errors,
        vec!["invalid control block: Merkle Tree depth(129) must be less than 128"]
    );
    let mut future = wit.clone();
    future[3][0] = 0xc2 | (future[3][0] & 1);
    let info = spend::resolve(&[], &future, &spk);
    assert_eq!(
        info.notes.last().unwrap(),
        "unknown leaf version: consensus treats this as anyone-can-spend"
    );
    let mut off_curve = vec![0x51, 0x20];
    off_curve.extend_from_slice(&[0xff; 32]);
    let info = spend::resolve(&[], &wit, &off_curve);
    assert_eq!(info.errors, vec!["output key is not a valid x-only key: malformed public key"]);
}

#[test]
fn other_spends_resolve() {
    let mut v16 = vec![0x60, 0x02, 0xaa, 0xbb];
    let info = spend::resolve(&[], &[vec![1]], &v16);
    assert_eq!(info.kind, "witness v16 program (2 bytes)");
    assert_eq!(info.initial_stack, vec!["01"]);
    v16[1] = 3;
    assert_eq!(spend::resolve(&[], &[vec![1]], &v16).kind, "bare script");

    let wpkh = [vec![0x00, 0x14], vec![7; 20]].concat();
    let info = spend::resolve(&[], &[vec![1]], &wpkh);
    assert_eq!(info.errors, vec!["P2WPKH requires exactly 2 witness elements, found 1"]);
    let wsh = [vec![0x00, 0x20], vec![7; 32]].concat();
    let info = spend::resolve(&[], &[vec![0x51]], &wsh);
    assert_eq!(info.errors, vec!["witness script does not hash to the witness program"]);
    assert_eq!(info.frames[0].script_hex, "51");

    let p2sh = [vec![0xa9, 0x14], vec![7; 20], vec![0x87]].concat();
    let info = spend::resolve(&[0x51], &[], &p2sh);
    assert_eq!(info.errors, vec!["P2SH scriptPubKey but scriptSig has no redeem script push"]);
    let info = spend::resolve(&[0x01, 0x51], &[], &p2sh);
    assert_eq!(info.kind, "P2SH");
    assert_eq!(info.frames[2].script_hex, "51");

    let legacy = |spk: &[u8]| spend::resolve(&[], &[], spk).kind;
    let secp = Secp256k1::new();
    assert_eq!(legacy(two_of_three(&secp).as_bytes()), "bare multisig");
    assert_eq!(legacy(&[0x6a, 0x01, 0xaa]), "OP_RETURN (unspendable)");
    assert_eq!(legacy(&[vec![33], vec![2; 33], vec![0xac]].concat()), "P2PK");
    assert_eq!(legacy(&[vec![65], vec![4; 65], vec![0xac]].concat()), "P2PK");
    assert_eq!(legacy(&[0x51]), "bare script");
    assert_eq!(legacy(&[0x51, 0x01, 0xaa, 0x52, 0xae]), "bare script");
    let crowd = [vec![0x51], [0x01, 0xaa].repeat(300), vec![0x60, 0xae]].concat();
    assert_eq!(legacy(&crowd), "bare script");
}

#[test]
fn displaying_a_segwit_transaction() {
    let v = btcdeb_engine::parse_tx(MAINNET_TX, "mainnet").ok().unwrap();
    assert_eq!(v.txid, "0543411b2e7fbd8af4c46c593049dbac2d4007c0f5f12e4e5c71a07566e787c4");
    assert_eq!(v.wtxid, "5e26f7ae78dd54714b9c78a8e1433132c47c49a32d94a03112ce5b14ce10e5ae");
    assert_eq!((v.size, v.vsize, v.weight), (706, 542, 2167));
    assert!(v.is_segwit);
    assert_eq!(v.inputs[0].witness.len(), 0);
    assert_eq!(v.inputs[1].witness.len(), 2);
    assert!(v.outputs[0].address.is_some());
}

#[test]
fn a_signature_that_is_not_strict_der_is_parsed_leniently() {
    let (mut tx, spk) = p2wpkh();
    let mut items = tx.input[0].witness.to_vec();
    // One more leading zero in r, and the lengths that go with it.
    let mut sig = items[0].clone();
    sig[1] += 1;
    sig[3] += 1;
    sig.insert(4, 0);
    items[0] = sig;
    tx.input[0].witness = Witness::from_slice(&items);
    let f = fixture(&tx, &spk);
    let out = run_fixture_with(&f, 0);
    assert!(out.success, "{:?}", out.error);
    let s = out.records.iter().flat_map(|r| r.sigs.iter()).next().unwrap().clone();
    assert_eq!(s.warnings, vec!["signature is not strict DER; parsed leniently"]);
    let out = run_fixture_with(&f, interp::VERIFY_DERSIG);
    assert!(!out.success);
}

#[test]
fn lock_times_are_held_against_the_transaction() {
    let run = |script: &str, lock: u32, sequence: u32, version: i32| {
        let mut tx = unsigned();
        tx.lock_time = LockTime::from_consensus(lock);
        tx.input[0].sequence = Sequence(sequence);
        tx.version = Version(version);
        let spk = ScriptBuf::from_bytes(hex::decode(script).unwrap());
        run_fixture_with(&fixture(&tx, &spk), flags())
    };
    // <100> CLTV
    assert!(run("0164b1", 100, 0, 1).success);
    assert_eq!(
        run("0164b1", 99, 0, 1).error.as_deref(),
        Some("CLTV: locktime requirement 100 not met by tx locktime 99")
    );
    assert_eq!(
        run("0164b1", 100, 0xffff_ffff, 1).error.as_deref(),
        Some("CLTV: input sequence is final (0xffffffff), which disables locktime")
    );
    // <100> CSV
    assert!(run("0164b2", 0, 100, 2).success);
    assert_eq!(
        run("0164b2", 0, 100, 1).error.as_deref(),
        Some("CSV: requires tx version >= 2, this tx is version 1")
    );
    assert_eq!(
        run("0164b2", 0, 99, 2).error.as_deref(),
        Some("CSV: requires 100 but the input's sequence gives 99")
    );
    // Bit 31 of the requirement switches it off.
    assert!(run("050000008000b2", 0, 0, 2).success);
}

#[test]
fn a_truncated_tail_belongs_to_the_script_code() {
    let secp = Secp256k1::new();
    let (sk, pk) = key(&secp, 5);
    // The script ends in a push of four bytes with only two there.
    let mut spk = Builder::new()
        .push_slice(pk.serialize())
        .push_opcode(OP_CHECKSIG)
        .into_script()
        .to_bytes();
    spk.extend_from_slice(&[0x04, 0xaa, 0xbb]);
    let spk = ScriptBuf::from_bytes(spk);
    let mut tx = unsigned();
    let digest = SighashCache::new(&tx).legacy_signature_hash(0, &spk, 1).unwrap().to_byte_array();
    let sig = bitcoin::script::PushBytesBuf::try_from(ecdsa(&secp, digest, &sk)).unwrap();
    tx.input[0].script_sig = Builder::new().push_slice(sig).into_script();
    let out = run_fixture(&fixture(&tx, &spk));
    assert_eq!(out.valid_sigs, 1);
    assert_eq!(
        out.error.as_deref(),
        Some("push of 4 bytes runs past the end of the script (2 available)")
    );
}
