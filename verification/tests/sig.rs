use btcdeb_engine::assembly::decode_script;
use btcdeb_engine::sig::{
    find_and_delete, judge_ecdsa, judge_schnorr, next_opcode, EcdsaFindings, SchnorrFindings,
    SigResult,
};

fn script(hex: &str) -> Vec<u8> {
    hex::decode(hex).unwrap()
}

#[test]
fn find_and_delete_removes_a_pushed_signature() {
    // PUSH(2) aabb / OP_DUP / PUSH(2) aabb
    let s = script("02aabb7602aabb");
    let out = find_and_delete(&s, &[0xaa, 0xbb]);
    assert_eq!(&out, &[0x76]);
}

#[test]
fn find_and_delete_only_matches_at_opcode_boundaries() {
    // PUSH(4) 02aabbcc: the pattern 02aabb sits inside the push data, and
    // Core's FindAndDelete never looks there.
    let s = script("0402aabbcc");
    let out = find_and_delete(&s, &[0xaa, 0xbb]);
    assert_eq!(out, s);
}

#[test]
fn find_and_delete_removes_back_to_back_matches() {
    // Two adjacent pushes of the signature, then OP_1.
    let s = script("02aabb02aabb51");
    let out = find_and_delete(&s, &[0xaa, 0xbb]);
    assert_eq!(&out, &[0x51]);
}

#[test]
fn find_and_delete_keeps_a_truncated_tail() {
    // OP_1 then a PUSH(4) with only two data bytes: copied through as-is.
    let s = script("5104aabb");
    let out = find_and_delete(&s, &[0xaa, 0xbb]);
    assert_eq!(out, s);
}

#[test]
fn find_and_delete_twice_is_once() {
    let s = script("02aabb4c02aabb7602aabb04aabb");
    let once = find_and_delete(&s, &[0xaa, 0xbb]);
    assert_eq!(once, script("4c02aabb7604aabb").to_vec());
    assert_eq!(find_and_delete(&once, &[0xaa, 0xbb]), once);
    assert_eq!(find_and_delete(&s, &[]), s);
}

#[test]
fn next_opcode_follows_the_decoder() {
    for hex in ["", "51", "0051024142ff4c01aa4d0200bbcc4e01000000dd", "5104aabb", "4c", "4d01", "514e"] {
        let s = script(hex);
        let (ins, _) = decode_script(&s);
        for i in &ins {
            let want = if i.error.is_none() { Some(i.offset + i.len) } else { None };
            assert_eq!(next_opcode(&s, i.offset), want, "{} at {}", hex, i.offset);
        }
        for i in 0..s.len() {
            if let Some(j) = next_opcode(&s, i) {
                assert!(i < j && j <= s.len());
            }
        }
        assert_eq!(next_opcode(&s, s.len()), None);
        assert_eq!(next_opcode(&s, usize::MAX), None);
    }
}

fn found() -> EcdsaFindings {
    EcdsaFindings {
        strict_der: true,
        parsed: true,
        high_s: false,
        key_error: None,
        digest: Ok([0x11; 32]),
        verifies: true,
    }
}

#[test]
fn ecdsa_outcomes() {
    let key = [2u8; 33];
    let r = judge_ecdsa(&[0x30, 0x01], &key, found(), true, true);
    assert!(r.valid);
    assert_eq!(r.sighash, "11".repeat(32));
    assert_eq!(r.sighash_type, "SIGHASH_ALL (0x01)");
    assert_eq!(r.detail, "signature is valid for this pubkey and sighash");
    assert!(r.warnings.is_empty());

    let r = judge_ecdsa(&[], &key, found(), true, true);
    assert_eq!(r.detail, "empty signature (this is a normal way to fail a check)");
    assert!(!r.valid);

    let lax = EcdsaFindings { strict_der: false, ..found() };
    let r = judge_ecdsa(&[0x30, 0x82], &key, lax, true, true);
    assert_eq!(r.detail, "signature is not strict DER (SCRIPT_VERIFY_DERSIG)");
    assert_eq!(r.sighash_type, "SIGHASH_NONE|SIGHASH_ANYONECANPAY (0x82)");

    let lax = EcdsaFindings { strict_der: false, ..found() };
    let r = judge_ecdsa(&[0x30, 0x03], &key, lax, false, true);
    assert!(r.valid);
    assert_eq!(r.warnings, vec!["signature is not strict DER; parsed leniently"]);

    let garbled = EcdsaFindings { strict_der: false, parsed: false, ..found() };
    let r = judge_ecdsa(&[0x30, 0x01], &key, garbled, false, true);
    assert_eq!(r.detail, "could not parse ECDSA signature");

    let high = EcdsaFindings { high_s: true, ..found() };
    let r = judge_ecdsa(&[0x30, 0x01], &key, high, true, true);
    assert_eq!(r.detail, "signature has high S value (SCRIPT_VERIFY_LOW_S)");
    let high = EcdsaFindings { high_s: true, verifies: false, ..found() };
    let r = judge_ecdsa(&[0x30, 0x05], &[4; 65], high, true, false);
    assert_eq!(r.detail, "signature does not verify against this pubkey and sighash");
    assert_eq!(r.sighash_type, "SIGHASH_INVALID (0x05)");
    assert_eq!(
        r.warnings,
        vec![
            "sighash type byte 0x05 is not ALL/NONE/SINGLE",
            "signature has a high S value (non-standard, BIP62)",
            "uncompressed public key (not allowed under segwit)",
        ]
    );

    let keyless = EcdsaFindings { key_error: Some("malformed public key".into()), ..found() };
    let r = judge_ecdsa(&[0x30, 0x01], &[9; 33], keyless, true, true);
    assert_eq!(r.detail, "invalid public key: malformed public key");

    let undigested = EcdsaFindings { digest: Err("no digest".into()), ..found() };
    let r = judge_ecdsa(&[0x30, 0x01], &key, undigested, true, true);
    assert_eq!(r.detail, "no digest");
    assert_eq!(r.sighash, "");
}

fn schnorr_found() -> SchnorrFindings {
    SchnorrFindings { key_error: None, digest: Ok([0xab; 32]), verifies: true }
}

#[test]
fn schnorr_outcomes() {
    let key = [7u8; 32];
    let r = judge_schnorr(&[1; 64], &key, schnorr_found());
    assert!(r.valid);
    assert_eq!(r.sighash_type, "Default");
    assert_eq!(r.sighash, "ab".repeat(32));
    assert!(r.warnings.is_empty());

    let mut sig = vec![1u8; 65];
    sig[64] = 0x83;
    let r = judge_schnorr(&sig, &key, schnorr_found());
    assert_eq!(r.sighash_type, "SinglePlusAnyoneCanPay");
    assert_eq!(r.warnings, vec!["explicit sighash type SinglePlusAnyoneCanPay"]);

    sig[64] = 0;
    assert_eq!(
        judge_schnorr(&sig, &key, schnorr_found()).detail,
        "explicit sighash byte 0x00 is invalid; omit it for SIGHASH_DEFAULT"
    );
    sig[64] = 4;
    assert_eq!(
        judge_schnorr(&sig, &key, schnorr_found()).detail,
        "invalid taproot sighash type 0x04"
    );
    assert_eq!(
        judge_schnorr(&[1; 63], &key, schnorr_found()).detail,
        "invalid Schnorr signature length 63 (must be 64 or 65)"
    );
    assert_eq!(
        judge_schnorr(&[1; 64], &[7; 33], schnorr_found()).detail,
        "invalid x-only public key length 33 (must be 32)"
    );
    assert_eq!(
        judge_schnorr(&[], &key, schnorr_found()).detail,
        "empty signature (this is a normal way to fail a check)"
    );
    let keyless = SchnorrFindings { key_error: Some("bad".into()), ..schnorr_found() };
    assert_eq!(judge_schnorr(&[1; 64], &key, keyless).detail, "invalid x-only public key: bad");
    let undigested = SchnorrFindings { digest: Err("none".into()), ..schnorr_found() };
    assert_eq!(judge_schnorr(&[1; 64], &key, undigested).detail, "none");
    let wrong = SchnorrFindings { verifies: false, ..schnorr_found() };
    let r = judge_schnorr(&[1; 64], &key, wrong);
    assert!(!r.valid);
    assert_eq!(r.detail, "BIP340 signature does not verify");
}

#[test]
fn the_default_outcome_says_nothing() {
    let r = SigResult::default();
    assert!(!r.valid && !r.assumed);
    assert!(r.sighash.is_empty() && r.sighash_type.is_empty() && r.detail.is_empty());
    assert!(r.warnings.is_empty() && r.pubkey.is_empty() && r.signature.is_empty());
}
