use btcdeb_engine::assembly::{
    assemble, decode_script, disassemble, is_minimal_push, push_data,
};
use btcdeb_engine::opnames::{is_disabled, is_op_success, op_code, op_name};

#[test]
fn assembles_p2pkh() {
    let s = assemble(
        "OP_DUP OP_HASH160 897c81ac37ae36f7bc5b91356cfb0138bfacb3c1 OP_EQUALVERIFY OP_CHECKSIG",
    )
    .unwrap();
    assert_eq!(hex::encode(&s), "76a914897c81ac37ae36f7bc5b91356cfb0138bfacb3c188ac");
}

#[test]
fn brackets_are_ignored() {
    let a = assemble("[OP_DUP OP_HASH160]").unwrap();
    let b = assemble("OP_DUP OP_HASH160").unwrap();
    assert_eq!(a, b);
}

#[test]
fn numbers_use_small_opcodes() {
    assert_eq!(hex::encode(assemble("1 2 OP_ADD").unwrap()), "515293");
    assert_eq!(hex::encode(assemble("17").unwrap()), "0111");
}

#[test]
fn decodes_offsets() {
    let script = hex::decode("76a914897c81ac37ae36f7bc5b91356cfb0138bfacb3c188ac").unwrap();
    let (ins, err) = decode_script(&script);
    assert!(err.is_none());
    assert_eq!(ins.len(), 5);
    assert_eq!(ins[0].text, "OP_DUP");
    assert_eq!(ins[2].offset, 2);
    assert_eq!(ins[2].len, 21);
    assert!(ins[2].minimal_push);
}

#[test]
fn truncated_push_is_reported() {
    let (_ins, err) = decode_script(&hex::decode("4c05aabb").unwrap());
    assert!(err.is_some());
}

#[test]
fn truncated_pushes_say_what_is_missing() {
    let (ins, err) = decode_script(&[0x51, 0x4c, 0x05, 0xaa, 0xbb]);
    let want = "push of 5 bytes runs past the end of the script (2 available)";
    assert_eq!(err.as_deref(), Some(want));
    assert_eq!(ins.len(), 2);
    assert_eq!(ins[1].error.as_deref(), Some(want));
    let (_, err) = decode_script(&[0x4d, 0x05]);
    assert_eq!(err.as_deref(), Some("truncated OP_PUSHDATA2 length"));
    let (_, err) = decode_script(&[0x4e, 0x05, 0x00, 0x00]);
    assert_eq!(err.as_deref(), Some("truncated OP_PUSHDATA4 length"));
    assert_eq!(
        disassemble(&[0x51, 0x02, 0xaa]),
        vec![
            "OP_1",
            "OP_PUSHBYTES_2",
            "<error: push of 2 bytes runs past the end of the script (1 available)>",
        ]
    );
}

#[test]
fn instructions_cover_the_script() {
    let script = hex::decode("0051024142ff4c01aa4d0200bbcc4e01000000dd").unwrap();
    let (ins, err) = decode_script(&script);
    assert!(err.is_none());
    let mut at = 0;
    for i in &ins {
        assert_eq!(i.offset, at);
        at += i.len;
    }
    assert_eq!(at, script.len());
    let data: Vec<Option<Vec<u8>>> = ins.iter().map(|i| i.data.clone()).collect();
    assert_eq!(
        data,
        vec![
            Some(vec![]),
            None,
            Some(vec![0x41, 0x42]),
            None,
            Some(vec![0xaa]),
            Some(vec![0xbb, 0xcc]),
            Some(vec![0xdd]),
        ]
    );
    assert!(!ins[4].minimal_push);
    assert_eq!(ins[3].text, "OP_UNKNOWN_0xff");
}

#[test]
fn pushes_decode_to_their_data() {
    for n in [1usize, 75, 76, 255, 256, 65535, 65536] {
        let data = vec![0xabu8; n];
        let script = push_data(&data);
        let (ins, err) = decode_script(&script);
        assert!(err.is_none());
        assert_eq!(ins.len(), 1);
        assert_eq!(ins[0].data.as_ref(), Some(&data));
        assert!(ins[0].minimal_push);
    }
    assert_eq!(push_data(&[0xaa; 76])[..2], [0x4c, 76]);
    assert_eq!(push_data(&[0xaa; 256])[..3], [0x4d, 0x00, 0x01]);
    assert_eq!(push_data(&[0xaa; 65536])[..5], [0x4e, 0x00, 0x00, 0x01, 0x00]);
}

#[test]
fn minimal_pushes_are_told_apart() {
    assert!(is_minimal_push(0x00, &[]));
    assert!(!is_minimal_push(0x4c, &[]));
    assert!(is_minimal_push(0x55, &[5]));
    assert!(!is_minimal_push(0x01, &[5]));
    assert!(is_minimal_push(0x4f, &[0x81]));
    assert!(is_minimal_push(0x01, &[17]));
    assert!(is_minimal_push(0x4c, &[0; 76]));
    assert!(is_minimal_push(0x4d, &[0; 256]));
    assert!(is_minimal_push(0x4e, &[0; 65536]));
}

#[test]
fn every_kind_of_token_assembles() {
    let hexed = |s: &str| hex::encode(assemble(s).unwrap());
    assert_eq!(hexed("dup"), "76");
    assert_eq!(hexed("op_dup"), "76");
    assert_eq!(hexed("'hello'"), "0568656c6c6f");
    assert_eq!(hexed("\"a b\""), "03612062");
    assert_eq!(hexed("-1 0 16 -5 1000"), "4f006001 8502e803".replace(' ', ""));
    assert_eq!(hexed("0xaabb aabb"), "02aabb02aabb");
    assert_eq!(hexed("0x"), "");
    assert_eq!(hexed("+5"), "55");
    // A leading zero makes a number hex; `ADD` reads as a name, `add0` as hex.
    assert_eq!(hexed("00"), "0100");
    assert_eq!(hexed("0011"), "020011");
    assert_eq!(hexed("ADD"), "93");
    assert_eq!(hexed("add0"), "02add0");
    assert_eq!(hexed("<01>,[02]"), "01010102");
    assert_eq!(hexed("CLTV CSV TRUE FALSE"), "b1b25100");
}

#[test]
fn assembly_errors_name_the_token() {
    assert_eq!(assemble("OP_NOPE").unwrap_err(), "unknown opcode: OP_NOPE");
    assert_eq!(
        assemble("abc").unwrap_err(),
        "'abc' is not an opcode, a number, or an even-length hex string"
    );
    assert_eq!(assemble("zz").unwrap_err(), "'zz' is not an opcode, a number, or valid hex");
}

#[test]
fn names_and_opcodes_belong_together() {
    for op in 0..=0xbau8 {
        assert_eq!(op_code(&op_name(op)), Some(op), "{}", op_name(op));
        assert_eq!(assemble(&op_name(op)).unwrap(), vec![op]);
    }
    assert_eq!(op_name(0x4b), "OP_PUSHBYTES_75");
    assert_eq!(op_name(0xfe), "OP_UNKNOWN_0xfe");
    assert_eq!(op_name(0xb3), "OP_NOP4");
    assert_eq!(op_name(0xb9), "OP_NOP10");
    assert_eq!(op_code("OP_TRUE"), Some(0x51));
    assert_eq!(op_code("nop2"), Some(0xb1));
    assert_eq!(op_code("OP_WHATEVER"), None);
}

#[test]
fn disabled_opcodes_are_op_success() {
    let mut disabled = 0;
    for op in 0..=255u8 {
        if is_disabled(op) {
            disabled += 1;
            assert!(is_op_success(op));
        }
    }
    assert_eq!(disabled, 15);
    assert!(is_op_success(80) && is_op_success(254) && !is_op_success(255) && !is_op_success(0xba));
}
