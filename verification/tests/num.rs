use btcdeb_engine::num::{cast_to_bool, decode, encode};

#[test]
fn roundtrip() {
    for v in [0i64, 1, -1, 127, 128, -128, 255, 256, -256, 2147483647, -2147483647] {
        let e = encode(v);
        assert_eq!(decode(&e, true, 5).unwrap(), v, "value {}", v);
    }
}

#[test]
fn known_encodings() {
    assert_eq!(encode(0), Vec::<u8>::new());
    assert_eq!(encode(1), vec![0x01]);
    assert_eq!(encode(-1), vec![0x81]);
    assert_eq!(encode(127), vec![0x7f]);
    assert_eq!(encode(128), vec![0x80, 0x00]);
    assert_eq!(encode(-128), vec![0x80, 0x80]);
    assert_eq!(encode(256), vec![0x00, 0x01]);
}

#[test]
fn minimal_encoding_enforced() {
    assert!(decode(&[0x01, 0x00], true, 4).is_err());
    assert_eq!(decode(&[0x01, 0x00], false, 4).unwrap(), 1);
    assert!(decode(&[0x00, 0x81], true, 4).is_ok()); // -256, needs the pad
}

#[test]
fn truthiness() {
    assert!(!cast_to_bool(&[]));
    assert!(!cast_to_bool(&[0x00]));
    assert!(!cast_to_bool(&[0x80]));
    assert!(!cast_to_bool(&[0x00, 0x00, 0x80]));
    assert!(cast_to_bool(&[0x01]));
    assert!(cast_to_bool(&[0x00, 0x01]));
}

#[test]
fn number_errors_say_what_is_wrong() {
    assert_eq!(
        decode(&[1, 2, 3, 4, 5], false, 4).unwrap_err().0,
        "script number overflow (got 5 bytes, max 4)"
    );
    assert_eq!(
        decode(&[0x01, 0x00], true, 4).unwrap_err().0,
        "non-minimally encoded script number"
    );
}

#[test]
fn extreme_numbers_encode() {
    assert_eq!(encode(i64::MIN), vec![0, 0, 0, 0, 0, 0, 0, 0x80, 0x80]);
    assert_eq!(encode(i64::MAX), vec![0xff, 0xff, 0xff, 0xff, 0xff, 0xff, 0xff, 0x7f]);
    assert_eq!(decode(&encode(i64::MAX), true, 8).unwrap(), i64::MAX);
}

#[test]
fn decoding_then_encoding_gives_minimal_bytes_back() {
    for bytes in [vec![], vec![0x05], vec![0xff, 0x00], vec![0x00, 0x81], vec![1, 2, 3, 4]] {
        let v = decode(&bytes, true, 4).unwrap();
        assert_eq!(encode(v), bytes);
        assert_eq!(cast_to_bool(&bytes), v != 0);
    }
}
