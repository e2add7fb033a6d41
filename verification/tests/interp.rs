use btcdeb_engine::interp::{
    single_frame, Machine, EXPERIMENTAL, MAX_SCRIPT_SIZE, VERIFY_CHECKLOCKTIMEVERIFY,
    VERIFY_CHECKSEQUENCEVERIFY, VERIFY_CLEANSTACK, VERIFY_MINIMALDATA, VERIFY_NULLDUMMY,
    VERIFY_NULLFAIL,
};
use btcdeb_engine::num;
use btcdeb_engine::spend::{EnterAction, Frame, SigVersion};

fn frame(sigversion: SigVersion, script_hex: String) -> Frame {
    Frame {
        label: "test".into(),
        script_hex,
        sigversion,
        enter: EnterAction::Keep,
        leaf_hash: if sigversion == SigVersion::Tapscript {
            Some("00".repeat(32))
        } else {
            None
        },
        key_path: false,
    }
}

/// BIP342: tapscript has no 10,000-byte script limit (inscription reveal
/// scripts routinely exceed it); legacy and v0 keep the cap.
#[test]
fn script_size_cap_is_legacy_and_v0_only() {
    let big = "51".repeat(MAX_SCRIPT_SIZE + 1);
    let ok = Machine::new(&[frame(SigVersion::Tapscript, big.clone())], vec![], 0, None, true, 0, None);
    assert!(ok.is_ok(), "oversized tapscript must build: {:?}", ok.err());
    assert!(Machine::new(&[frame(SigVersion::Legacy, big.clone())], vec![], 0, None, true, 0, None).is_err());
    assert!(Machine::new(&[frame(SigVersion::WitnessV0, big)], vec![], 0, None, true, 0, None).is_err());
}

/// EXPERIMENTAL lifts the script size cap for legacy/v0 too.
#[test]
fn experimental_lifts_script_size_cap() {
    let big = "51".repeat(MAX_SCRIPT_SIZE + 1);
    let m = Machine::new(
        &[frame(SigVersion::Legacy, big)],
        vec![],
        EXPERIMENTAL,
        None,
        true,
        0,
        None,
    );
    assert!(m.is_ok(), "experimental mode must allow oversized scripts: {:?}", m.err());
}

fn run_frame(f: Frame, flags: u32, stack: Vec<Vec<u8>>, trusting: bool) -> Machine {
    let mut m = Machine::new(&[f], stack, flags, None, trusting, 0, None).expect("machine builds");
    assert!(m.run_to_completion(100_000), "script should finish");
    m
}

fn run_hex(script: &str, flags: u32, stack: Vec<Vec<u8>>) -> Machine {
    run_frame(frame(SigVersion::Legacy, script.to_string()), flags, stack, true)
}

fn top(m: &Machine) -> Vec<u8> {
    hex::decode(m.state().stack.last().expect("non-empty stack")).unwrap()
}

fn error(m: &Machine) -> Option<String> {
    m.state().error
}

#[test]
fn disabled_ops_fail_without_experimental() {
    // OP_1 OP_1 OP_CAT — 517e
    let m = run_hex("51517e", 0, vec![]);
    assert!(error(&m).unwrap().contains("OP_CAT is disabled"));
}

#[test]
fn experimental_cat() {
    // push "hello", push " world", OP_CAT
    let m = run_hex("0568656c6c6f0620776f726c647e", EXPERIMENTAL, vec![]);
    assert!(error(&m).is_none(), "{:?}", error(&m));
    assert_eq!(top(&m), b"hello world");
}

#[test]
fn experimental_substr_left_right() {
    // "abcdef", begin=1 size=3 -> "bcd"
    let m = run_hex("0661626364656651537f", EXPERIMENTAL, vec![]);
    assert_eq!(top(&m), b"bcd");
    // OP_LEFT 3 -> "abc"
    let m = run_hex("066162636465665380", EXPERIMENTAL, vec![]);
    assert_eq!(top(&m), b"abc");
    // OP_RIGHT 2 -> "ef"
    let m = run_hex("066162636465665281", EXPERIMENTAL, vec![]);
    assert_eq!(top(&m), b"ef");
    // out-of-range index errors (3 bytes requested from a 2-byte string)
    let m = run_hex("0261615380", EXPERIMENTAL, vec![]);
    assert!(error(&m).unwrap().contains("out of range"));
}

#[test]
fn experimental_bitwise_ops() {
    // 0xf0 & 0xcc = 0xc0 ; | = 0xfc ; ^ = 0x3c ; ~0xf0 = 0x0f
    let m = run_hex("01f001cc84", EXPERIMENTAL, vec![]);
    assert_eq!(top(&m), vec![0xc0]);
    let m = run_hex("01f001cc85", EXPERIMENTAL, vec![]);
    assert_eq!(top(&m), vec![0xfc]);
    let m = run_hex("01f001cc86", EXPERIMENTAL, vec![]);
    assert_eq!(top(&m), vec![0x3c]);
    let m = run_hex("01f083", EXPERIMENTAL, vec![]);
    assert_eq!(top(&m), vec![0x0f]);
    // mismatched operand lengths error
    let m = run_hex("01f002aabb84", EXPERIMENTAL, vec![]);
    assert!(error(&m).unwrap().contains("different sizes"));
}

#[test]
fn experimental_arithmetic_ops() {
    // 6 2 OP_2MUL => 6 4; OP_ADD => 10... simpler: 7 OP_2MUL => 14
    let m = run_hex("578d", EXPERIMENTAL, vec![]);
    assert_eq!(top(&m), num::encode(14));
    // 7 OP_2DIV => 3 (truncating division)
    let m = run_hex("578e", EXPERIMENTAL, vec![]);
    assert_eq!(top(&m), num::encode(3));
    // 6 7 OP_MUL => 42
    let m = run_hex("565795", EXPERIMENTAL, vec![]);
    assert_eq!(top(&m), num::encode(42));
    // 7 2 OP_DIV => 3
    let m = run_hex("575296", EXPERIMENTAL, vec![]);
    assert_eq!(top(&m), num::encode(3));
    // 7 2 OP_MOD => 1
    let m = run_hex("575297", EXPERIMENTAL, vec![]);
    assert_eq!(top(&m), num::encode(1));
    // divide by zero errors (OP_7 OP_0 OP_DIV)
    let m = run_hex("570096", EXPERIMENTAL, vec![]);
    assert!(error(&m).unwrap().contains("OP_DIV by zero"));
}

#[test]
fn experimental_shifts() {
    // 0x0001 << 8 => 0x0100 ; 0x0100 >> 8 => 0x0001
    let m = run_hex("0200015898", EXPERIMENTAL, vec![]);
    assert_eq!(top(&m), vec![0x01, 0x00]);
    let m = run_hex("0201005899", EXPERIMENTAL, vec![]);
    assert_eq!(top(&m), vec![0x00, 0x01]);
    // shift >= bit length errors
    let m = run_hex("01ff5898", EXPERIMENTAL, vec![]);
    assert!(error(&m).unwrap().contains("out of range"));
}

#[test]
fn experimental_lifts_element_and_stack_limits() {
    // A 600-byte push: PUSHDATA2 0x58 0x02 then 600 bytes of 0xaa, then
    // OP_DROP OP_1 so the script succeeds.
    let big_push = format!("4d5802{}7551", "aa".repeat(600));
    let m = run_hex(&big_push, 0, vec![]);
    assert!(error(&m).unwrap().contains("element limit"));
    let m = run_hex(&big_push, EXPERIMENTAL, vec![]);
    assert!(error(&m).is_none(), "{:?}", error(&m));
}

#[test]
fn assembled_numbers_are_pushed() {
    for n in [-2147483647i64, -256, -17, -1, 0, 1, 16, 17, 128, 2147483647, i64::MAX] {
        let script = hex::encode(btcdeb_engine::assembly::assemble(&n.to_string()).unwrap());
        let m = run_hex(&script, VERIFY_MINIMALDATA, vec![]);
        assert_eq!(top(&m), num::encode(n), "{}", n);
    }
}

/// What a legacy script leaves on its stack, or its error.
fn eval(script: &str, flags: u32) -> Result<Vec<String>, String> {
    let m = run_hex(script, flags, vec![]);
    match m.state().error {
        Some(e) => Err(e),
        None => Ok(m.state().stack),
    }
}

fn stack(items: &[&str]) -> Result<Vec<String>, String> {
    Ok(items.iter().map(|s| s.to_string()).collect())
}

#[test]
fn stack_opcodes() {
    assert_eq!(eval("51526d51", 0), stack(&["01"])); // 2DROP
    assert_eq!(eval("51526e", 0), stack(&["01", "02", "01", "02"])); // 2DUP
    assert_eq!(eval("5152536f", 0), stack(&["01", "02", "03", "01", "02", "03"])); // 3DUP
    assert_eq!(eval("5152535470", 0), stack(&["01", "02", "03", "04", "01", "02"])); // 2OVER
    assert_eq!(eval("51525354555671", 0), stack(&["03", "04", "05", "06", "01", "02"])); // 2ROT
    assert_eq!(eval("5152535472", 0), stack(&["03", "04", "01", "02"])); // 2SWAP
    assert_eq!(eval("5173", 0), stack(&["01", "01"])); // IFDUP
    assert_eq!(eval("515274", 0), stack(&["01", "02", "02"])); // DEPTH
    assert_eq!(eval("515275", 0), stack(&["01"])); // DROP
    assert_eq!(eval("5176", 0), stack(&["01", "01"])); // DUP
    assert_eq!(eval("515277", 0), stack(&["02"])); // NIP
    assert_eq!(eval("515278", 0), stack(&["01", "02", "01"])); // OVER
    assert_eq!(eval("5152535279", 0), stack(&["01", "02", "03", "01"])); // PICK
    assert_eq!(eval("515253527a", 0), stack(&["02", "03", "01"])); // ROLL
    assert_eq!(eval("5152537b", 0), stack(&["02", "03", "01"])); // ROT
    assert_eq!(eval("51527c", 0), stack(&["02", "01"])); // SWAP
    assert_eq!(eval("51527d", 0), stack(&["02", "01", "02"])); // TUCK
    assert_eq!(eval("03aabbcc82", 0), stack(&["aabbcc", "03"])); // SIZE
    assert_eq!(eval("51526b6c", 0), stack(&["01", "02"])); // TOALTSTACK FROMALTSTACK
    assert_eq!(eval("515169", 0), stack(&["01"])); // VERIFY
}

#[test]
fn stack_opcode_errors() {
    for op in ["69", "6d", "6e", "6f", "70", "71", "72", "73", "75", "76", "77", "78", "7b", "7c",
        "7d", "82", "6b", "a9", "87", "93", "ac", "ae"]
    {
        assert_eq!(eval(op, 0), Err("stack underflow".to_string()), "{}", op);
    }
    assert_eq!(eval("6c", 0), Err("OP_FROMALTSTACK on an empty altstack".into()));
    assert_eq!(eval("515579", 0), Err("OP_PICK index 5 out of range".into()));
    assert_eq!(eval("514f7a", 0), Err("OP_ROLL index -1 out of range".into()));
    assert_eq!(eval("0069", 0), Err("OP_VERIFY failed: top of stack was false".into()));
    // What was taken off before the failure stays off.
    let m = run_hex("516d", 0, vec![]);
    assert!(m.state().stack.is_empty());
}

#[test]
fn arithmetic_opcodes() {
    let cases = [
        ("558b", 6), ("558c", 4), ("558f", -5), ("4f90", 1), ("5592", 1), ("555393", 8),
        ("555394", 2), ("5553a3", 3), ("5553a4", 5), ("55539e", 1), ("5553a0", 1), ("5355a1", 1),
        ("5553a2", 1), ("55539a", 1), ("00539b", 1), ("55559c", 1), ("53559f", 1),
    ];
    for (script, want) in cases {
        let m = run_hex(script, 0, vec![]);
        assert_eq!(top(&m), num::encode(want), "{}", script);
    }
    assert_eq!(top(&run_hex("0091", 0, vec![])), vec![1]);
    assert_eq!(top(&run_hex("545356a5", 0, vec![])), vec![1]); // 3 <= 4 < 6
    assert_eq!(eval("565356a5", 0).unwrap_err(), "script finished with a false top stack element (0x)");
    assert_eq!(eval("55539d", 0), Err("OP_NUMEQUALVERIFY failed: 5 != 3".into()));
    assert_eq!(eval("5155559d", 0), stack(&["01"]));
    assert_eq!(eval("05aabbccddee8b", 0), Err("script number overflow (got 5 bytes, max 4)".into()));
    assert_eq!(eval("028000 8b".replace(' ', "").as_str(), VERIFY_MINIMALDATA), stack(&["8100"]));
    assert_eq!(
        eval("0201008b", VERIFY_MINIMALDATA),
        Err("non-minimally encoded script number".into())
    );
    // Division rounds towards zero and the remainder has the dividend's sign.
    assert_eq!(top(&run_hex("01875296", EXPERIMENTAL, vec![])), num::encode(-3));
    assert_eq!(top(&run_hex("01875297", EXPERIMENTAL, vec![])), num::encode(-1));
    assert_eq!(eval("570097", EXPERIMENTAL), Err("OP_MOD by zero".into()));
}

#[test]
fn shifts_by_bits_and_splices_at_the_edges() {
    // Byte 0 is the most significant; only bits past the ends are lost.
    assert_eq!(top(&run_hex("0281015198", EXPERIMENTAL, vec![])), vec![0x02, 0x02]);
    assert_eq!(top(&run_hex("0201815199", EXPERIMENTAL, vec![])), vec![0x00, 0xc0]);
    assert_eq!(top(&run_hex("0201025198", EXPERIMENTAL, vec![])), vec![0x02, 0x04]);
    let m = run_hex("98", EXPERIMENTAL, vec![vec![0x00, 0x80], vec![1]]);
    assert_eq!(m.state().stack, vec!["0100"]);
    let m = run_hex("99", EXPERIMENTAL, vec![vec![0x01, 0x00], vec![1]]);
    assert_eq!(m.state().stack, vec!["0080"]);
    // A shift multiplies or divides the value, for every count.
    for n in 0..24i64 {
        let value = 0xa5_3c_99u32;
        let item = value.to_be_bytes()[1..].to_vec();
        let left = run_hex("98", EXPERIMENTAL, vec![item.clone(), num::encode(n)]);
        let right = run_hex("99", EXPERIMENTAL, vec![item, num::encode(n)]);
        let want = ((value as u64) << n) as u32 & 0xff_ffff;
        assert_eq!(left.state().stack, vec![hex::encode(&want.to_be_bytes()[1..])]);
        assert_eq!(right.state().stack, vec![hex::encode(&(value >> n).to_be_bytes()[1..])]);
    }
    // SUBSTR clamps its size to the string's end.
    assert_eq!(top(&run_hex("03616263525a7f", EXPERIMENTAL, vec![])), b"c");
    assert_eq!(
        eval("0361626354517f", EXPERIMENTAL),
        Err("OP_SUBSTR begin index out of range".into())
    );
    assert_eq!(eval("03616263514f7f", EXPERIMENTAL), Err("OP_SUBSTR size out of range".into()));
    assert_eq!(
        eval("01f002aabb84", EXPERIMENTAL),
        Err("OP_AND on operands of different sizes (1 vs 2 bytes)".into())
    );
    assert_eq!(eval("01ff5899", EXPERIMENTAL), Err("OP_RSHIFT shift 8 out of range".into()));
}

#[test]
fn equality_and_hashes() {
    assert_eq!(eval("01aa01aa87", 0), stack(&["01"]));
    assert_eq!(eval("5101aa01aa88", 0), stack(&["01"]));
    assert_eq!(eval("01aa01bb88", 0), Err("OP_EQUALVERIFY failed: 0xaa != 0xbb".into()));
    let digests = [
        ("a6", "9c1185a5c5e9fc54612808977ee8f548b2258d31"),
        ("a7", "da39a3ee5e6b4b0d3255bfef95601890afd80709"),
        ("a8", "e3b0c44298fc1c149afbf4c8996fb92427ae41e4649b934ca495991b7852b855"),
        ("a9", "b472a266d0bd89c13706a4132ccfb16f7c3b9fcb"),
        ("aa", "5df6e0e2761359d30a8275058e299fcc0381534545f55cf43e41983f5d4c9456"),
    ];
    for (op, want) in digests {
        assert_eq!(eval(&format!("00{}", op), 0), stack(&[want]));
    }
    let mut m = Machine::new(&[frame(SigVersion::Legacy, "00a9".into())], vec![], 0, None, true, 0, None)
        .unwrap();
    m.step();
    m.step();
    let r = m.step();
    assert_eq!(r.notes, vec!["OP_HASH160 → b472a266d0bd89c13706a4132ccfb16f7c3b9fcb"]);
}

#[test]
fn branches() {
    assert_eq!(eval("5163526753 68".replace(' ', "").as_str(), 0), stack(&["02"]));
    assert_eq!(eval("006352675368", 0), stack(&["03"]));
    assert_eq!(eval("516452675368", 0), stack(&["03"]));
    // Nested branches inside a skipped one stay skipped.
    assert_eq!(eval("0063516352686753 68".replace(' ', "").as_str(), 0), stack(&["03"]));
    assert_eq!(eval("5163", 0), Err("unbalanced conditional: missing OP_ENDIF".into()));
    assert_eq!(eval("67", 0), Err("OP_ELSE without a matching OP_IF".into()));
    assert_eq!(eval("68", 0), Err("OP_ENDIF without a matching OP_IF".into()));
    // A disabled opcode fails in a skipped branch too; OP_RETURN does not.
    assert_eq!(eval("00637e6851", 0), Err("OP_CAT is disabled".into()));
    assert_eq!(eval("00636a6851", 0), stack(&["01"]));
    let tap = run_frame(frame(SigVersion::Tapscript, "5263516851".into()), 0, vec![], true);
    assert_eq!(
        error(&tap).unwrap(),
        "OP_IF argument must be exactly OP_0 or OP_1 in tapscript (BIP342)"
    );
}

#[test]
fn opcodes_that_fail_or_do_nothing() {
    assert_eq!(eval("6a", 0), Err("OP_RETURN: script aborted".into()));
    assert_eq!(eval("50", 0), Err("OP_RESERVED in an executed branch".into()));
    assert_eq!(eval("62", 0), Err("OP_VER in an executed branch".into()));
    assert_eq!(eval("65", 0), Err("OP_VERIF is always invalid".into()));
    assert_eq!(eval("89", 0), Err("OP_RESERVED1 in an executed branch".into()));
    assert_eq!(eval("fe", 0), Err("unimplemented or invalid opcode OP_UNKNOWN_0xfe".into()));
    assert_eq!(eval("51b0b361", 0), stack(&["01"]));
    assert_eq!(
        eval("0105", VERIFY_MINIMALDATA),
        Err("non-minimal push (SCRIPT_VERIFY_MINIMALDATA)".into())
    );
    assert_eq!(
        eval("4c05aa", 0),
        Err("push of 5 bytes runs past the end of the script (1 available)".into())
    );
}

#[test]
fn limits() {
    let many = "61".repeat(202);
    assert_eq!(eval(&format!("51{}", many), 0), Err("op count exceeded 201".into()));
    assert_eq!(eval(&format!("51{}", many), EXPERIMENTAL), stack(&["01"]));
    let deep = "51".repeat(1001);
    assert_eq!(eval(&deep, 0), Err("stack size exceeded 1000 elements".into()));
    assert_eq!(eval(&deep, EXPERIMENTAL).unwrap().len(), 1001);
    // Sandbox mode counts the keys of a multisig no more than it counts ops.
    let multisig = format!("0000{}0114ae75", "51".repeat(20));
    let script = format!("{}51", multisig.repeat(11));
    assert_eq!(eval(&script, 0), Err("op count exceeded 201".into()));
    assert_eq!(eval(&script, EXPERIMENTAL), stack(&["01"]));
}

#[test]
fn final_stack_rules() {
    assert_eq!(eval("", 0), Err("script finished with an empty stack (evaluates to false)".into()));
    assert_eq!(eval("0180", 0), Err("script finished with a false top stack element (0x80)".into()));
    assert_eq!(eval("5151", 0), stack(&["01", "01"]));
    assert_eq!(
        eval("5151", VERIFY_CLEANSTACK),
        Err("CLEANSTACK: 2 elements left on the stack, expected exactly 1 (standardness rule; consensus allows this)".into())
    );
    let m = run_frame(frame(SigVersion::WitnessV0, "5151".into()), 0, vec![], true);
    assert_eq!(
        error(&m).unwrap(),
        "2 elements left on the stack: witness scripts must finish with exactly 1"
    );
}

#[test]
fn op_success_succeeds_in_any_branch() {
    for script in ["50", "00006350", "51007e", "00 63 fe".replace(' ', "").as_str()] {
        let m = run_frame(frame(SigVersion::Tapscript, script.into()), 0, vec![], false);
        let s = m.state();
        assert!(s.success, "{}: {:?}", script, s.error);
        assert_eq!(s.stack, vec!["01"]);
    }
}

#[test]
fn checks_without_a_transaction_never_pass_quietly() {
    let script = "51 21".replace(' ', "") + &"02".repeat(33) + "ac";
    let m = run_frame(frame(SigVersion::Legacy, script.clone()), 0, vec![], false);
    assert_eq!(error(&m).unwrap(), "no transaction context; cannot compute a sighash");

    let mut m =
        Machine::new(&[frame(SigVersion::Legacy, script)], vec![], 0, None, true, 0, None).unwrap();
    for _ in 0..3 {
        m.step();
    }
    let r = m.step();
    assert_eq!(r.op, "OP_CHECKSIG");
    assert_eq!(r.notes, vec!["no transaction context: assuming this signature is valid"]);
    assert_eq!(r.sigs.len(), 1);
    assert!(r.sigs[0].assumed && r.sigs[0].valid);
    assert_eq!(r.sigs[0].signature, "01");
    assert_eq!(r.sigs[0].pubkey, "02".repeat(33));
}

#[test]
fn tapscript_checks() {
    let tap = |script: &str| {
        error(&run_frame(frame(SigVersion::Tapscript, script.into()), 0, vec![], false))
    };
    assert_eq!(tap("510000ae").unwrap(), "OP_CHECKMULTISIG is disabled in tapscript; use OP_CHECKSIGADD");
    assert_eq!(tap("5100ac").unwrap(), "empty public key in tapscript");
    assert_eq!(tap("5151ac"), None); // unknown key type
    assert_eq!(eval("510051ba", 0), Err("OP_CHECKSIGADD is only valid in tapscript".into()));
    // An empty signature adds nothing to the number.
    let m = run_frame(
        frame(SigVersion::Tapscript, format!("005520{}ba", "07".repeat(32))),
        0,
        vec![],
        false,
    );
    assert_eq!(top(&m), vec![5]);
    // An unknown key type counts as a passed check.
    let m = run_frame(frame(SigVersion::Tapscript, "515551ba".into()), 0, vec![], false);
    assert_eq!(top(&m), vec![6]);
}

#[test]
fn multisig_without_a_transaction() {
    // 0 <a> 1 <k1> <k2> 2 CHECKMULTISIG, all assumed valid
    assert_eq!(eval("0001aa51 01b1 01b2 52ae".replace(' ', "").as_str(), 0), stack(&["01"]));
    assert_eq!(eval("00 0115 ae".replace(' ', "").as_str(), 0), Err("invalid public key count 21".into()));
    assert_eq!(
        eval("00 52 01b1 51 ae".replace(' ', "").as_str(), 0),
        Err("invalid signature count 2 for 1 keys".into())
    );
    assert_eq!(
        eval("51 00 00 ae".replace(' ', "").as_str(), VERIFY_NULLDUMMY),
        Err("NULLDUMMY: the extra CHECKMULTISIG element must be empty".into())
    );
    assert_eq!(eval("510000ae", 0), stack(&["01"]));
    assert_eq!(eval("510000af51", 0), stack(&["01"]));

    let mut m = Machine::new(
        &[frame(SigVersion::Legacy, "0001aa01bb5201b101b252ae".into())],
        vec![],
        VERIFY_NULLFAIL,
        None,
        true,
        0,
        None,
    )
    .unwrap();
    let mut last = m.step();
    while !m.state().finished && last.op != "OP_CHECKMULTISIG" {
        last = m.step();
    }
    assert_eq!(last.sigs.len(), 2);
    assert_eq!(
        last.notes[2..],
        [
            "signature 1 matched key 1",
            "  key 1 = b1",
            "  signature 1 = aa",
            "signature 2 matched key 2",
            "  key 2 = b2",
            "  signature 2 = bb",
            "2-of-2 multisig: satisfied",
        ]
    );
}

#[test]
fn locktimes_without_a_transaction() {
    assert_eq!(eval("51b1b2", 0), stack(&["01"]));
    let flags = VERIFY_CHECKLOCKTIMEVERIFY | VERIFY_CHECKSEQUENCEVERIFY;
    assert_eq!(eval("51b1b2", flags), stack(&["01"]));
    assert_eq!(eval("4fb1", flags), Err("CLTV: negative locktime".into()));
    assert_eq!(eval("4fb2", flags), Err("CSV: negative sequence".into()));
    assert_eq!(eval("b1", flags), Err("stack underflow".into()));
    assert_eq!(eval("06aabbccddeeffb2", flags), Err("script number overflow (got 6 bytes, max 5)".into()));
}

#[test]
fn redeem_scripts_run_on_the_saved_stack() {
    let f = |label: &str, script: &str, enter: EnterAction| Frame {
        label: label.into(),
        script_hex: script.into(),
        sigversion: SigVersion::Legacy,
        enter,
        leaf_hash: None,
        key_path: false,
    };
    let frames = [
        f("scriptSig", "550151", EnterAction::Keep),
        f("scriptPubKey", "75", EnterAction::Keep),
        f("redeemScript", "5587", EnterAction::PopRedeem),
    ];
    let mut m = Machine::new(&frames, vec![], 0, None, false, 0, None).unwrap();
    assert!(m.run_to_completion(100));
    let s = m.state();
    assert!(s.success, "{:?}", s.error);
    assert_eq!(s.stack, vec!["01"]);
    assert_eq!(s.frame_label, "redeemScript");

    let broken = [
        f("scriptSig", "", EnterAction::Keep),
        f("scriptPubKey", "51", EnterAction::Keep),
        f("redeemScript", "51", EnterAction::PopRedeem),
    ];
    let mut m = Machine::new(&broken, vec![], 0, None, false, 0, None).unwrap();
    m.run_to_completion(100);
    assert_eq!(error(&m).unwrap(), "no redeem script on the stack");

    let falsy = [f("scriptPubKey", "00", EnterAction::Keep), f("next", "51", EnterAction::Keep)];
    let mut m = Machine::new(&falsy, vec![], 0, None, false, 0, None).unwrap();
    m.run_to_completion(100);
    assert_eq!(error(&m).unwrap(), "scriptPubKey evaluated to false");

    let bad = [f("w", "51", EnterAction::ResetStack(vec!["0g".into()]))];
    let mut m = Machine::new(&bad, vec![], 0, None, false, 0, None).unwrap();
    m.run_to_completion(100);
    assert_eq!(error(&m).unwrap(), "bad stack item hex: Invalid character 'g' at position 1");
}

#[test]
fn machines_that_cannot_be_built() {
    let build = |f: &[Frame]| Machine::new(f, vec![], 0, None, false, 0, None).err();
    assert_eq!(build(&[]).unwrap(), "nothing to execute");
    assert_eq!(
        build(&[frame(SigVersion::Legacy, "5".into())]).unwrap(),
        "bad script hex: Odd number of digits"
    );
    let mut f = frame(SigVersion::Tapscript, "51".into());
    f.leaf_hash = Some("00".into());
    assert_eq!(build(&[f.clone()]).unwrap(), "leaf hash must be 32 bytes");
    f.leaf_hash = Some("zz".into());
    assert_eq!(build(&[f]).unwrap(), "bad leaf hash: Invalid character 'z' at position 0");
    assert_eq!(
        build(&[frame(SigVersion::Legacy, "51".repeat(10_001))]).unwrap(),
        "script test is 10001 bytes, over the 10000 byte limit"
    );
}

#[test]
fn stepping_running_and_rewinding_agree() {
    let f = single_frame(&[0x51, 0x52, 0x93, 0x53, 0x87], "script", SigVersion::Legacy);
    let build = || Machine::new(&[f.clone()], vec![], 0, None, false, 0, None).unwrap();
    let mut ran = build();
    assert!(ran.run_to_completion(7));
    assert!(ran.state().success);
    assert!(!ran.state().can_rewind);

    let mut stepped = build();
    let mut shots = vec![stepped.state()];
    while !stepped.state().finished {
        stepped.step();
        shots.push(stepped.state());
    }
    assert_eq!(stepped.state().stack, ran.state().stack);
    assert_eq!(stepped.state().step_n, ran.state().step_n);
    let numbers: Vec<usize> = stepped.records.iter().map(|r| r.n).collect();
    assert_eq!(numbers, vec![1, 2, 3, 4, 5, 6, 7]);
    let done = stepped.step();
    assert_eq!(done.op, "(done)");
    assert_eq!(done.error.as_deref(), Some("execution already finished"));
    for shot in shots.iter().rev().skip(1) {
        stepped.rewind().unwrap();
        let s = stepped.state();
        assert_eq!(
            (s.stack, s.ip, s.step_n, s.op_count, s.finished, s.frame_idx),
            (
                shot.stack.clone(),
                shot.ip,
                shot.step_n,
                shot.op_count,
                shot.finished,
                shot.frame_idx
            )
        );
    }
    assert_eq!(stepped.rewind().unwrap_err(), "at the beginning; nothing to rewind");
    assert!(stepped.records.is_empty());

    let mut short = build();
    assert!(!short.run_to_completion(6));
}
