//! Opcode names, matching Bitcoin Core's `GetOpName` so output reads the same
//! way btcdeb's does.

use crate::text::{dec, dec_u64, hex_byte, hex_u8, same_text, starts_with, text, to_upper, upper};
use vstd::prelude::*;
use vstd::string::StringExecFns;

verus! {

/// The name of every opcode.
pub open spec fn opcode_name(op: u8) -> Seq<char> {
    if 0x01 <= op <= 0x4b {
        "OP_PUSHBYTES_"@ + dec(op as int)
    } else if 0x52 <= op <= 0x60 {
        "OP_"@ + dec(op - 0x50)
    } else if 0xb3 <= op <= 0xb9 {
        "OP_NOP"@ + dec(op - 0xaf)
    } else {
        match op {
            0x00 => "OP_0"@,
            0x4c => "OP_PUSHDATA1"@,
            0x4d => "OP_PUSHDATA2"@,
            0x4e => "OP_PUSHDATA4"@,
            0x4f => "OP_1NEGATE"@,
            0x50 => "OP_RESERVED"@,
            0x51 => "OP_1"@,
            0x61 => "OP_NOP"@,
            0x62 => "OP_VER"@,
            0x63 => "OP_IF"@,
            0x64 => "OP_NOTIF"@,
            0x65 => "OP_VERIF"@,
            0x66 => "OP_VERNOTIF"@,
            0x67 => "OP_ELSE"@,
            0x68 => "OP_ENDIF"@,
            0x69 => "OP_VERIFY"@,
            0x6a => "OP_RETURN"@,
            0x6b => "OP_TOALTSTACK"@,
            0x6c => "OP_FROMALTSTACK"@,
            0x6d => "OP_2DROP"@,
            0x6e => "OP_2DUP"@,
            0x6f => "OP_3DUP"@,
            0x70 => "OP_2OVER"@,
            0x71 => "OP_2ROT"@,
            0x72 => "OP_2SWAP"@,
            0x73 => "OP_IFDUP"@,
            0x74 => "OP_DEPTH"@,
            0x75 => "OP_DROP"@,
            0x76 => "OP_DUP"@,
            0x77 => "OP_NIP"@,
            0x78 => "OP_OVER"@,
            0x79 => "OP_PICK"@,
            0x7a => "OP_ROLL"@,
            0x7b => "OP_ROT"@,
            0x7c => "OP_SWAP"@,
            0x7d => "OP_TUCK"@,
            0x7e => "OP_CAT"@,
            0x7f => "OP_SUBSTR"@,
            0x80 => "OP_LEFT"@,
            0x81 => "OP_RIGHT"@,
            0x82 => "OP_SIZE"@,
            0x83 => "OP_INVERT"@,
            0x84 => "OP_AND"@,
            0x85 => "OP_OR"@,
            0x86 => "OP_XOR"@,
            0x87 => "OP_EQUAL"@,
            0x88 => "OP_EQUALVERIFY"@,
            0x89 => "OP_RESERVED1"@,
            0x8a => "OP_RESERVED2"@,
            0x8b => "OP_1ADD"@,
            0x8c => "OP_1SUB"@,
            0x8d => "OP_2MUL"@,
            0x8e => "OP_2DIV"@,
            0x8f => "OP_NEGATE"@,
            0x90 => "OP_ABS"@,
            0x91 => "OP_NOT"@,
            0x92 => "OP_0NOTEQUAL"@,
            0x93 => "OP_ADD"@,
            0x94 => "OP_SUB"@,
            0x95 => "OP_MUL"@,
            0x96 => "OP_DIV"@,
            0x97 => "OP_MOD"@,
            0x98 => "OP_LSHIFT"@,
            0x99 => "OP_RSHIFT"@,
            0x9a => "OP_BOOLAND"@,
            0x9b => "OP_BOOLOR"@,
            0x9c => "OP_NUMEQUAL"@,
            0x9d => "OP_NUMEQUALVERIFY"@,
            0x9e => "OP_NUMNOTEQUAL"@,
            0x9f => "OP_LESSTHAN"@,
            0xa0 => "OP_GREATERTHAN"@,
            0xa1 => "OP_LESSTHANOREQUAL"@,
            0xa2 => "OP_GREATERTHANOREQUAL"@,
            0xa3 => "OP_MIN"@,
            0xa4 => "OP_MAX"@,
            0xa5 => "OP_WITHIN"@,
            0xa6 => "OP_RIPEMD160"@,
            0xa7 => "OP_SHA1"@,
            0xa8 => "OP_SHA256"@,
            0xa9 => "OP_HASH160"@,
            0xaa => "OP_HASH256"@,
            0xab => "OP_CODESEPARATOR"@,
            0xac => "OP_CHECKSIG"@,
            0xad => "OP_CHECKSIGVERIFY"@,
            0xae => "OP_CHECKMULTISIG"@,
            0xaf => "OP_CHECKMULTISIGVERIFY"@,
            0xb0 => "OP_NOP1"@,
            0xb1 => "OP_CHECKLOCKTIMEVERIFY"@,
            0xb2 => "OP_CHECKSEQUENCEVERIFY"@,
            0xba => "OP_CHECKSIGADD"@,
            _ => "OP_UNKNOWN_0x"@ + hex_byte(op),
        }
    }
}

/// The name of an opcode.
pub fn op_name(op: u8) -> (r: String)
    ensures
        r@ == opcode_name(op),
{
    if 0x01 <= op && op <= 0x4b {
        text("OP_PUSHBYTES_").concat(dec_u64(op as u64).as_str())
    } else if 0x52 <= op && op <= 0x60 {
        text("OP_").concat(dec_u64((op - 0x50) as u64).as_str())
    } else if 0xb3 <= op && op <= 0xb9 {
        text("OP_NOP").concat(dec_u64((op - 0xaf) as u64).as_str())
    } else {
        match op {
            0x00 => text("OP_0"),
            0x4c => text("OP_PUSHDATA1"),
            0x4d => text("OP_PUSHDATA2"),
            0x4e => text("OP_PUSHDATA4"),
            0x4f => text("OP_1NEGATE"),
            0x50 => text("OP_RESERVED"),
            0x51 => text("OP_1"),
            0x61 => text("OP_NOP"),
            0x62 => text("OP_VER"),
            0x63 => text("OP_IF"),
            0x64 => text("OP_NOTIF"),
            0x65 => text("OP_VERIF"),
            0x66 => text("OP_VERNOTIF"),
            0x67 => text("OP_ELSE"),
            0x68 => text("OP_ENDIF"),
            0x69 => text("OP_VERIFY"),
            0x6a => text("OP_RETURN"),
            0x6b => text("OP_TOALTSTACK"),
            0x6c => text("OP_FROMALTSTACK"),
            0x6d => text("OP_2DROP"),
            0x6e => text("OP_2DUP"),
            0x6f => text("OP_3DUP"),
            0x70 => text("OP_2OVER"),
            0x71 => text("OP_2ROT"),
            0x72 => text("OP_2SWAP"),
            0x73 => text("OP_IFDUP"),
            0x74 => text("OP_DEPTH"),
            0x75 => text("OP_DROP"),
            0x76 => text("OP_DUP"),
            0x77 => text("OP_NIP"),
            0x78 => text("OP_OVER"),
            0x79 => text("OP_PICK"),
            0x7a => text("OP_ROLL"),
            0x7b => text("OP_ROT"),
            0x7c => text("OP_SWAP"),
            0x7d => text("OP_TUCK"),
            0x7e => text("OP_CAT"),
            0x7f => text("OP_SUBSTR"),
            0x80 => text("OP_LEFT"),
            0x81 => text("OP_RIGHT"),
            0x82 => text("OP_SIZE"),
            0x83 => text("OP_INVERT"),
            0x84 => text("OP_AND"),
            0x85 => text("OP_OR"),
            0x86 => text("OP_XOR"),
            0x87 => text("OP_EQUAL"),
            0x88 => text("OP_EQUALVERIFY"),
            0x89 => text("OP_RESERVED1"),
            0x8a => text("OP_RESERVED2"),
            0x8b => text("OP_1ADD"),
            0x8c => text("OP_1SUB"),
            0x8d => text("OP_2MUL"),
            0x8e => text("OP_2DIV"),
            0x8f => text("OP_NEGATE"),
            0x90 => text("OP_ABS"),
            0x91 => text("OP_NOT"),
            0x92 => text("OP_0NOTEQUAL"),
            0x93 => text("OP_ADD"),
            0x94 => text("OP_SUB"),
            0x95 => text("OP_MUL"),
            0x96 => text("OP_DIV"),
            0x97 => text("OP_MOD"),
            0x98 => text("OP_LSHIFT"),
            0x99 => text("OP_RSHIFT"),
            0x9a => text("OP_BOOLAND"),
            0x9b => text("OP_BOOLOR"),
            0x9c => text("OP_NUMEQUAL"),
            0x9d => text("OP_NUMEQUALVERIFY"),
            0x9e => text("OP_NUMNOTEQUAL"),
            0x9f => text("OP_LESSTHAN"),
            0xa0 => text("OP_GREATERTHAN"),
            0xa1 => text("OP_LESSTHANOREQUAL"),
            0xa2 => text("OP_GREATERTHANOREQUAL"),
            0xa3 => text("OP_MIN"),
            0xa4 => text("OP_MAX"),
            0xa5 => text("OP_WITHIN"),
            0xa6 => text("OP_RIPEMD160"),
            0xa7 => text("OP_SHA1"),
            0xa8 => text("OP_SHA256"),
            0xa9 => text("OP_HASH160"),
            0xaa => text("OP_HASH256"),
            0xab => text("OP_CODESEPARATOR"),
            0xac => text("OP_CHECKSIG"),
            0xad => text("OP_CHECKSIGVERIFY"),
            0xae => text("OP_CHECKMULTISIG"),
            0xaf => text("OP_CHECKMULTISIGVERIFY"),
            0xb0 => text("OP_NOP1"),
            0xb1 => text("OP_CHECKLOCKTIMEVERIFY"),
            0xb2 => text("OP_CHECKSEQUENCEVERIFY"),
            0xba => text("OP_CHECKSIGADD"),
            _ => text("OP_UNKNOWN_0x").concat(hex_u8(op).as_str()),
        }
    }
}

/// A name in upper case, with the `OP_` prefix whether or not it was written.
pub open spec fn canonical_name(name: Seq<char>) -> Seq<char> {
    if "OP_"@.is_prefix_of(upper(name)) {
        upper(name)
    } else {
        "OP_"@ + upper(name)
    }
}

/// The first opcode from `from` on that has this name.
pub open spec fn first_named(name: Seq<char>, from: int) -> Option<u8>
    decreases 256 - from,
{
    if from < 0 || from > 255 {
        None
    } else if opcode_name(from as u8) == name {
        Some(from as u8)
    } else {
        first_named(name, from + 1)
    }
}

/// The opcode that a canonical name means, aliases first.
pub open spec fn named_opcode(n: Seq<char>) -> Option<u8> {
    if n == "OP_FALSE"@ {
        Some(0x00u8)
    } else if n == "OP_TRUE"@ {
        Some(0x51u8)
    } else if n == "OP_CLTV"@ || n == "OP_NOP2"@ {
        Some(0xb1u8)
    } else if n == "OP_CSV"@ || n == "OP_NOP3"@ {
        Some(0xb2u8)
    } else {
        first_named(n, 0)
    }
}

/// Reverse lookup used by the assembler. Accepts the canonical name plus the
/// aliases btcdeb/Core tolerate (`OP_TRUE`, `OP_FALSE`, `OP_CLTV`, ...).
pub fn op_code(name: &str) -> (r: Option<u8>)
    ensures
        r == named_opcode(canonical_name(name@)),
{
    let up = to_upper(name);
    let n = if starts_with(up.as_str(), "OP_") {
        up
    } else {
        text("OP_").concat(up.as_str())
    };
    if same_text(n.as_str(), "OP_FALSE") {
        return Some(0x00);
    }
    if same_text(n.as_str(), "OP_TRUE") {
        return Some(0x51);
    }
    if same_text(n.as_str(), "OP_CLTV") || same_text(n.as_str(), "OP_NOP2") {
        return Some(0xb1);
    }
    if same_text(n.as_str(), "OP_CSV") || same_text(n.as_str(), "OP_NOP3") {
        return Some(0xb2);
    }
    find_named(n.as_str())
}

fn find_named(n: &str) -> (r: Option<u8>)
    ensures
        r == first_named(n@, 0),
{
    let mut op: u16 = 0;
    while op < 256
        invariant
            op <= 256,
            first_named(n@, op as int) == first_named(n@, 0),
        decreases 256 - op,
    {
        if same_text(op_name(op as u8).as_str(), n) {
            return Some(op as u8);
        }
        op = op + 1;
    }
    None
}

/// The opcodes that were switched off in 2010.
pub open spec fn disabled_opcode(op: u8) -> bool {
    ||| 0x7e <= op <= 0x81
    ||| 0x83 <= op <= 0x86
    ||| 0x8d <= op <= 0x8e
    ||| 0x95 <= op <= 0x99
}

/// The opcodes that BIP342 reserves for future soft forks.
pub open spec fn success_opcode(op: u8) -> bool {
    ||| op == 80
    ||| op == 98
    ||| 126 <= op <= 129
    ||| 131 <= op <= 134
    ||| 137 <= op <= 138
    ||| 141 <= op <= 142
    ||| 149 <= op <= 153
    ||| 187 <= op <= 254
}

/// Opcodes that are unconditionally invalid wherever they appear in a script.
pub fn is_disabled(op: u8) -> (r: bool)
    ensures
        r == disabled_opcode(op),
{
    match op {
        0x7e | 0x7f | 0x80 | 0x81 | 0x83 | 0x84 | 0x85 | 0x86 | 0x8d | 0x8e | 0x95 | 0x96 | 0x97
        | 0x98 | 0x99 => true,
        _ => false,
    }
}

/// BIP342: opcodes reserved for future soft forks inside tapscript.
pub fn is_op_success(op: u8) -> (r: bool)
    ensures
        r == success_opcode(op),
{
    op == 80 || op == 98 || (op >= 126 && op <= 129) || (op >= 131 && op <= 134) || (op >= 137
        && op <= 138) || (op >= 141 && op <= 142) || (op >= 149 && op <= 153) || (op >= 187 && op
        <= 254)
}

/// Every disabled opcode is one that tapscript turns into immediate success.
pub proof fn law_disabled_is_success_in_tapscript(op: u8)
    ensures
        disabled_opcode(op) ==> success_opcode(op),
{
}

} // verus!
