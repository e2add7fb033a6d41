use btcdeb_engine::debugger::Debugger;
use btcdeb_engine::locktime::{judge_cltv, judge_csv};
use btcdeb_engine::{
    btcc, describe_spend, disasm, flag_info, parse_tx, script_address, tf, version,
};

#[test]
fn assembling_and_disassembling() {
    assert_eq!(btcc("OP_1 OP_2 OP_ADD").unwrap(), "515293");
    assert_eq!(btcc("OP_X").unwrap_err(), "unknown opcode: OP_X");
    assert_eq!(disasm(" 515293 ").unwrap(), vec!["OP_1", "OP_2", "OP_ADD"]);
    assert_eq!(disasm("0x51").unwrap_err(), "bad hex: Invalid character 'x' at position 1");
    assert_eq!(disasm("é").unwrap_err(), "bad hex: Invalid character 'Ã' at position 0");
}

#[test]
fn transforms() {
    let ok = |f: &str, a: &str| tf(f, a).unwrap();
    assert_eq!(
        ok("sha256", "0x616263"),
        "ba7816bf8f01cfea414140de5dae2223b00361a396177a9cb410ff61f20015ad"
    );
    assert_eq!(
        ok("hash256", "616263"),
        "4f8b42c22dd3729b519ba6f68d2da7cc5b2d606d05daed5ad5128cc03e6c6358"
    );
    assert_eq!(ok("sha256d", "616263"), ok("hash256", "616263"));
    assert_eq!(ok("ripemd160", "616263"), "8eb208f7e05d987a9b044a8e98c6b087f15a0bfc");
    assert_eq!(ok("sha1", "616263"), "a9993e364706816aba3e25717850c26c9cd0d89d");
    assert_eq!(ok("hash160", "616263"), "bb1be98c142444d7a56aa3981c3942a978e4dc33");
    assert_eq!(ok("reverse", "010203"), "030201");
    assert_eq!(ok("reverse", &ok("reverse", "00FF10")), "00ff10");
    assert_eq!(ok("int", "e803"), "1000");
    assert_eq!(ok("int", "81"), "-1");
    assert_eq!(ok("num", " -1000 "), "e883");
    assert_eq!(ok("str", "hé"), "68c3a9");
    assert_eq!(ok("unstr", "68c3a9"), "hé");
    assert_eq!(ok("x", &"02".repeat(33)), "02".repeat(32));
    assert_eq!(ok("x", &"07".repeat(32)), "07".repeat(32));
    // The BIP340 challenge tag over nothing.
    let tag = ok("sha256", "424950303334302f6368616c6c656e6765");
    assert_eq!(
        ok("tagged-hash", "BIP0340/challenge:"),
        ok("sha256", &format!("{}{}", tag, tag))
    );
    let tag = ok("sha256", &ok("str", "t"));
    assert_eq!(ok("tagged-hash", "t: 00 "), ok("sha256", &format!("{0}{0}00", tag)));
}

#[test]
fn transform_errors() {
    let err = |f: &str, a: &str| tf(f, a).unwrap_err();
    assert_eq!(err("sha256", "abc"), "argument must be hex: Odd number of digits");
    assert_eq!(err("num", "1x"), "argument must be a decimal integer");
    assert_eq!(err("num", "9223372036854775808"), "argument must be a decimal integer");
    assert_eq!(err("int", &"01".repeat(9)), "script number overflow (got 9 bytes, max 8)");
    assert_eq!(err("unstr", "61ff"), "invalid utf-8 sequence of 1 bytes from index 1");
    assert_eq!(err("x", "00"), "expected a 33-byte compressed or 32-byte x-only key");
    assert_eq!(err("tagged-hash", "tag"), "usage: tf tagged-hash <tag>:<hex>");
    assert_eq!(err("tagged-hash", "a:b"), "Odd number of digits");
    assert!(err("md5", "00").starts_with("unknown transform 'md5'; try sha256, sha256d"));
}

#[test]
fn numbers_transform_back() {
    for n in ["0", "-1", "127", "128", "-32768", "2147483647", "9223372036854775807"] {
        assert_eq!(tf("int", &tf("num", n).unwrap()).unwrap(), n);
    }
}

#[test]
fn addresses() {
    let spk = "0014751e76e8199196d454941c45d1b3a323f1433bd6";
    assert_eq!(
        script_address(spk, "mainnet").unwrap(),
        "bc1qw508d6qejxtdg4y5r3zarvary0c5xw7kv8f3t4"
    );
    assert_eq!(
        script_address(spk, "testnet4").unwrap(),
        "tb1qw508d6qejxtdg4y5r3zarvary0c5xw7kxpjzsx"
    );
    assert!(script_address(spk, "regtest").unwrap().starts_with("bcrt1q"));
    assert!(script_address("51", "mainnet").unwrap_err().starts_with("no address for this script: "));
    assert_eq!(script_address("5", "mainnet").unwrap_err(), "Odd number of digits");
}

#[test]
fn displaying_a_transaction() {
    // The first transaction ever sent between two people, block 170.
    let raw = "0100000001c997a5e56e104102fa209c6a852dd90660a20b2d9c352423edce25857fcd370400000000\
        4847304402204e45e16932b8af514961a1d3a1a25fdf3f4f7732e9d624c6c61548ab5fb8cd410220181522ec\
        8eca07de4860a4acdd12909d831cc56cbbac4622082221a8768d1d0901ffffffff0200ca9a3b000000004341\
        04ae1a62fe09c5f51b13905f07f06b99a2f7159b2225f374cd378d71302fa28414e7aab37397f554a7df5f14\
        2c21c1b7303b8a0626f1baded5c72a704f7e6cd84cac00286bee0000000043410411db93e1dcdb8a016b4984\
        0f8c53bc1eb68a382e97b1482ecad7b148a6909a5cb2e0eaddfb84ccf9744464f82e160bfa9b8b64f9d4c03f\
        999b8643f656b412a3ac00000000";
    let v = parse_tx(raw, "mainnet").ok().unwrap();
    assert_eq!(v.txid, "f4184fc596403b9d638783cf57adfe4c75c605f6356fbc91338530e9831e9e16");
    assert_eq!(v.wtxid, v.txid);
    assert_eq!((v.version, v.lock_time, v.size, v.vsize, v.weight), (1, 0, 275, 275, 1100));
    assert!(!v.is_segwit);
    assert_eq!(v.inputs.len(), 1);
    assert_eq!(
        v.inputs[0].txid,
        "0437cd7f8525ceed2324359c2d0ba26006d92d856a9c20fa0241106ee5a597c9"
    );
    assert_eq!(v.inputs[0].sequence, 0xffff_ffff);
    assert_eq!(v.inputs[0].script_sig_asm.len(), 1);
    assert_eq!(v.outputs[0].value, 1_000_000_000);
    assert_eq!(v.outputs[1].index, 1);
    assert_eq!(v.outputs[1].script_pubkey_asm[1], "OP_CHECKSIG");
    assert_eq!(v.outputs[0].address, None);
    assert_eq!(parse_tx("0", "mainnet").err().unwrap(), "bad tx hex: Odd number of digits");
    assert!(parse_tx("00", "mainnet").err().unwrap().starts_with("could not parse transaction: "));
}

#[test]
fn describing_spends() {
    let spk = format!("0014{}", "07".repeat(20));
    let info = describe_spend("", Ok(vec!["01".into(), "02".into()]), &spk).unwrap();
    assert_eq!(info.kind, "P2WPKH");
    assert_eq!(info.initial_stack, vec!["01", "02"]);
    assert_eq!(describe_spend("x", Ok(vec![]), "").unwrap_err(), "Odd number of digits");
    assert_eq!(describe_spend("", Ok(vec![]), "1").unwrap_err(), "Odd number of digits");
    assert_eq!(describe_spend("", Err("not a list".into()), "").unwrap_err(), "not a list");
    assert_eq!(describe_spend("", Ok(vec!["1".into()]), "").unwrap_err(), "Odd number of digits");
}

#[test]
fn flags_and_version() {
    let flags = flag_info();
    assert_eq!(flags.len(), 9);
    assert_eq!((flags[0].name.as_str(), flags[0].bit, flags[0].policy), ("P2SH", 1, false));
    assert_eq!((flags[8].name.as_str(), flags[8].bit, flags[8].policy), ("NULLFAIL", 1 << 14, true));
    let bits: Vec<u32> = flags.iter().map(|f| f.bit).collect();
    assert_eq!(bits, [0, 2, 3, 4, 6, 8, 9, 10, 14].map(|b| 1u32 << b).to_vec());
    assert_eq!(version(), "btcdeb-wasm 0.1.0 / rust-bitcoin 0.32");
}

#[test]
fn debugging_a_bare_script() {
    let none = || Ok(vec![]);
    let mut d = Debugger::from_script("OP_ADD 5 OP_EQUAL", Ok(vec!["02".into(), " 0x03 ".into()]), "legacy", 0, false)
        .ok()
        .unwrap();
    assert_eq!(d.info().kind, "bare script (no transaction)");
    assert_eq!(d.info().initial_stack, vec!["02", "03"]);
    assert_eq!(d.run(usize::MAX).len(), 5);
    assert!(d.state().success);

    // Hex with white space is hex, unless it names an opcode.
    let d = Debugger::from_script(" 51 52\n93 ", none(), "witness_v0", 0, false).ok().unwrap();
    assert_eq!(d.listing()[0].script_hex, "515293");
    assert_eq!(d.listing()[0].instructions.len(), 3);
    let d = Debugger::from_script("51 op_52", none(), "tapscript", 0, false);
    assert_eq!(d.err().unwrap(), "unknown opcode: op_52");
    let fail = |source: &str, stack: Result<Vec<String>, String>| {
        Debugger::from_script(source, stack, "legacy", 0, false).err().unwrap()
    };
    assert_eq!(fail("  ", none()), "empty script");
    assert_eq!(fail("51", Err("oops".into())), "bad stack: oops");
    assert_eq!(
        fail("51", Ok(vec!["".into(), "zz".into()])),
        "stack item 'zz' is not hex: Invalid character 'z' at position 0"
    );
}

#[test]
fn absolute_lock_times() {
    assert_eq!(judge_cltv(100, 100, 0).unwrap(), "CLTV satisfied: requires 100, tx locktime is 100");
    assert_eq!(
        judge_cltv(101, 100, 0).unwrap_err(),
        "CLTV: locktime requirement 101 not met by tx locktime 100"
    );
    assert_eq!(
        judge_cltv(500_000_000, 100, 0).unwrap_err(),
        "CLTV: mixed units (script wants 500000000, tx locktime is 100)"
    );
    assert_eq!(
        judge_cltv(100, 100, 0xffff_ffff).unwrap_err(),
        "CLTV: input sequence is final (0xffffffff), which disables locktime"
    );
}

#[test]
fn relative_lock_times() {
    assert_eq!(judge_csv(10, 2, 10).unwrap(), "CSV satisfied: requires 10 blocks");
    assert_eq!(
        judge_csv((1 << 22) | 3, 2, (1 << 22) | 5).unwrap(),
        "CSV satisfied: requires 3 512s units"
    );
    assert_eq!(
        judge_csv(10, 1, 10).unwrap_err(),
        "CSV: requires tx version >= 2, this tx is version 1"
    );
    assert_eq!(
        judge_csv(10, 2, 1 << 31).unwrap_err(),
        "CSV: the input's sequence disables relative locktime"
    );
    assert_eq!(judge_csv(10, 2, 1 << 22).unwrap_err(), "CSV: mixed units (blocks vs time)");
    assert_eq!(
        judge_csv(11, 2, 10).unwrap_err(),
        "CSV: requires 11 but the input's sequence gives 10"
    );
}
