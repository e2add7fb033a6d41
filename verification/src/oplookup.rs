//! Opcode names and opcodes belong together: looking a name up finds the opcode
//! that has it.

use crate::assembly::{quoted, reads_as_opcode, token_bytes};
use crate::opnames::{canonical_name, first_named, named_opcode, opcode_name};
use crate::text::{dec, dec_nat, digit, is_white, trim_back, trim_front, trimmed, upper};
use vstd::prelude::*;

verus! {

/// The names that are spelled out, one by one.
spec fn spelled_out(op: u8) -> bool {
    op <= 0xba && !(0x01 <= op <= 0x4b || 0x52 <= op <= 0x60 || 0xb3 <= op <= 0xb9)
}

proof fn lemma_small_dec(n: int)
    requires
        0 < n < 100,
    ensures
        n < 10 ==> dec(n) == seq![digit(n)],
        n >= 10 ==> dec(n) == seq![digit(n / 10), digit(n % 10)],
{
    reveal_with_fuel(dec_nat, 3);
    if n < 10 {
        assert(dec(n) =~= seq![digit(n)]);
    } else {
        assert(dec(n) =~= seq![digit(n / 10), digit(n % 10)]);
    }
}

/// A name in the form that lookups work on: it starts with `OP_`, and has
/// neither lower-case letters nor white space.
spec fn canonical(x: Seq<char>) -> bool {
    &&& x.len() > 3 && x[0] == 'O' && x[1] == 'P' && x[2] == '_'
    &&& forall|i: int| 0 <= i < x.len() ==> '0' <= #[trigger] x[i] <= '_'
}

/// A name that stands for an opcode which has another name.
spec fn alias(x: Seq<char>) -> bool {
    ||| x == "OP_FALSE"@
    ||| x == "OP_TRUE"@
    ||| x == "OP_CLTV"@
    ||| x == "OP_NOP2"@
    ||| x == "OP_CSV"@
    ||| x == "OP_NOP3"@
}

/// What the numbered names look like.
proof fn lemma_numbered_name(op: u8)
    requires
        op <= 0xba,
        !spelled_out(op),
    ensures
        ({
            let x = opcode_name(op);
            &&& op <= 0x4b ==> {
                &&& x.len() == (if op < 10 { 14int } else { 15 })
                &&& x[3] == 'P' && x[7] == 'B'
                &&& x[x.len() - 1] == digit(op as int % 10)
                &&& op >= 10 ==> x[13] == digit(op as int / 10)
            }
            &&& 0x52 <= op <= 0x60 ==> {
                let n = op - 0x50;
                &&& x.len() == (if n < 10 { 4int } else { 5 })
                &&& x[x.len() - 1] == digit(n % 10)
                &&& x[3] == (if n < 10 { digit(n) } else { '1' })
            }
            &&& 0xb3 <= op ==> {
                let n = op - 0xaf;
                &&& x.len() == (if n < 10 { 7int } else { 8 })
                &&& x[3] == 'N' && x[4] == 'O' && x[5] == 'P'
                &&& x[6] == (if n < 10 { digit(n) } else { '1' })
            }
        }),
{
    reveal_strlit("OP_PUSHBYTES_");
    reveal_strlit("OP_");
    reveal_strlit("OP_NOP");
    if op <= 0x4b {
        lemma_small_dec(op as int);
    } else if op <= 0x60 {
        lemma_small_dec(op - 0x50);
    } else {
        lemma_small_dec(op - 0xaf);
    }
}

/// A name that is spelled out is canonical, is no alias, and is not the name of
/// another opcode, spelled out or numbered. Length and the characters at a few
/// positions tell the names apart.
proof fn lemma_spelled_out_name(a: u8, b: u8, n: u8)
    requires
        spelled_out(a),
    ensures
        canonical(opcode_name(a)),
        !alias(opcode_name(a)),
        spelled_out(b) && a != b ==> opcode_name(a) != opcode_name(b),
        n <= 0xba && !spelled_out(n) ==> opcode_name(a) != opcode_name(n),
{
    reveal_strlit("OP_FALSE");
    reveal_strlit("OP_TRUE");
    reveal_strlit("OP_CLTV");
    reveal_strlit("OP_NOP2");
    reveal_strlit("OP_CSV");
    reveal_strlit("OP_NOP3");
    reveal_strlit("OP_0");
    reveal_strlit("OP_PUSHDATA1");
    reveal_strlit("OP_PUSHDATA2");
    reveal_strlit("OP_PUSHDATA4");
    reveal_strlit("OP_1NEGATE");
    reveal_strlit("OP_RESERVED");
    reveal_strlit("OP_1");
    reveal_strlit("OP_NOP");
    reveal_strlit("OP_VER");
    reveal_strlit("OP_IF");
    reveal_strlit("OP_NOTIF");
    reveal_strlit("OP_VERIF");
    reveal_strlit("OP_VERNOTIF");
    reveal_strlit("OP_ELSE");
    reveal_strlit("OP_ENDIF");
    reveal_strlit("OP_VERIFY");
    reveal_strlit("OP_RETURN");
    reveal_strlit("OP_TOALTSTACK");
    reveal_strlit("OP_FROMALTSTACK");
    reveal_strlit("OP_2DROP");
    reveal_strlit("OP_2DUP");
    reveal_strlit("OP_3DUP");
    reveal_strlit("OP_2OVER");
    reveal_strlit("OP_2ROT");
    reveal_strlit("OP_2SWAP");
    reveal_strlit("OP_IFDUP");
    reveal_strlit("OP_DEPTH");
    reveal_strlit("OP_DROP");
    reveal_strlit("OP_DUP");
    reveal_strlit("OP_NIP");
    reveal_strlit("OP_OVER");
    reveal_strlit("OP_PICK");
    reveal_strlit("OP_ROLL");
    reveal_strlit("OP_ROT");
    reveal_strlit("OP_SWAP");
    reveal_strlit("OP_TUCK");
    reveal_strlit("OP_CAT");
    reveal_strlit("OP_SUBSTR");
    reveal_strlit("OP_LEFT");
    reveal_strlit("OP_RIGHT");
    reveal_strlit("OP_SIZE");
    reveal_strlit("OP_INVERT");
    reveal_strlit("OP_AND");
    reveal_strlit("OP_OR");
    reveal_strlit("OP_XOR");
    reveal_strlit("OP_EQUAL");
    reveal_strlit("OP_EQUALVERIFY");
    reveal_strlit("OP_RESERVED1");
    reveal_strlit("OP_RESERVED2");
    reveal_strlit("OP_1ADD");
    reveal_strlit("OP_1SUB");
    reveal_strlit("OP_2MUL");
    reveal_strlit("OP_2DIV");
    reveal_strlit("OP_NEGATE");
    reveal_strlit("OP_ABS");
    reveal_strlit("OP_NOT");
    reveal_strlit("OP_0NOTEQUAL");
    reveal_strlit("OP_ADD");
    reveal_strlit("OP_SUB");
    reveal_strlit("OP_MUL");
    reveal_strlit("OP_DIV");
    reveal_strlit("OP_MOD");
    reveal_strlit("OP_LSHIFT");
    reveal_strlit("OP_RSHIFT");
    reveal_strlit("OP_BOOLAND");
    reveal_strlit("OP_BOOLOR");
    reveal_strlit("OP_NUMEQUAL");
    reveal_strlit("OP_NUMEQUALVERIFY");
    reveal_strlit("OP_NUMNOTEQUAL");
    reveal_strlit("OP_LESSTHAN");
    reveal_strlit("OP_GREATERTHAN");
    reveal_strlit("OP_LESSTHANOREQUAL");
    reveal_strlit("OP_GREATERTHANOREQUAL");
    reveal_strlit("OP_MIN");
    reveal_strlit("OP_MAX");
    reveal_strlit("OP_WITHIN");
    reveal_strlit("OP_RIPEMD160");
    reveal_strlit("OP_SHA1");
    reveal_strlit("OP_SHA256");
    reveal_strlit("OP_HASH160");
    reveal_strlit("OP_HASH256");
    reveal_strlit("OP_CODESEPARATOR");
    reveal_strlit("OP_CHECKSIG");
    reveal_strlit("OP_CHECKSIGVERIFY");
    reveal_strlit("OP_CHECKMULTISIG");
    reveal_strlit("OP_CHECKMULTISIGVERIFY");
    reveal_strlit("OP_NOP1");
    reveal_strlit("OP_CHECKLOCKTIMEVERIFY");
    reveal_strlit("OP_CHECKSEQUENCEVERIFY");
    reveal_strlit("OP_CHECKSIGADD");
    let x = opcode_name(a);
    assert(3 < x.len() < 23);
    assert(x[0] == 'O' && x[1] == 'P' && x[2] == '_');
    assert forall|i: int| 0 <= i < x.len() implies '0' <= #[trigger] x[i] <= '_' by {
    }
    assert(!alias(x)) by {
        assert("OP_FALSE"@.len() == 8 && "OP_FALSE"@[3] == 'F');
        assert("OP_TRUE"@.len() == 7 && "OP_TRUE"@[3] == 'T' && "OP_TRUE"@[4] == 'R');
        assert("OP_CLTV"@.len() == 7 && "OP_CLTV"@[3] == 'C');
        assert("OP_NOP2"@.len() == 7 && "OP_NOP2"@[6] == '2' && "OP_NOP2"@[3] == 'N');
        assert("OP_CSV"@.len() == 6 && "OP_CSV"@[3] == 'C' && "OP_CSV"@[4] == 'S');
        assert("OP_NOP3"@.len() == 7 && "OP_NOP3"@[6] == '3' && "OP_NOP3"@[3] == 'N');
        assert(x[3] == x[3] && x[4] == x[4] && x[6] == x[6]);
    }
    if spelled_out(b) && a != b {
        let y = opcode_name(b);
        assert(x.len() != y.len() || x[3] != y[3] || x[8] != y[8] || x[x.len() - 1] != y[y.len()
            - 1] || x[x.len() - 2] != y[y.len() - 2]);
    }
    if n <= 0xba && !spelled_out(n) {
        let y = opcode_name(n);
        lemma_numbered_name(n);
        assert(x.len() != y.len() || x[3] != y[3] || x[4] != y[4] || x[5] != y[5] || x[6] != y[6]
            || x[7] != y[7]);
    }
}

proof fn lemma_names_differ(a: u8, b: u8)
    requires
        a <= 0xba,
        b <= 0xba,
        a != b,
    ensures
        opcode_name(a) != opcode_name(b),
{
    if spelled_out(a) {
        lemma_spelled_out_name(a, b, b);
    } else if spelled_out(b) {
        lemma_spelled_out_name(b, a, a);
    } else {
        lemma_numbered_name(a);
        lemma_numbered_name(b);
    }
}

proof fn lemma_numbered_name_is_canonical(op: u8)
    requires
        op <= 0xba,
        !spelled_out(op),
    ensures
        canonical(opcode_name(op)),
        !alias(opcode_name(op)),
{
    reveal_strlit("OP_FALSE");
    reveal_strlit("OP_TRUE");
    reveal_strlit("OP_CLTV");
    reveal_strlit("OP_NOP2");
    reveal_strlit("OP_CSV");
    reveal_strlit("OP_NOP3");
    reveal_strlit("OP_PUSHBYTES_");
    reveal_strlit("OP_");
    reveal_strlit("OP_NOP");
    let x = opcode_name(op);
    lemma_numbered_name(op);
    if op <= 0x4b {
        lemma_small_dec(op as int);
    } else if op <= 0x60 {
        lemma_small_dec(op - 0x50);
    } else {
        lemma_small_dec(op - 0xaf);
    }
    assert(x[0] == 'O' && x[1] == 'P' && x[2] == '_');
    assert forall|i: int| 0 <= i < x.len() implies '0' <= #[trigger] x[i] <= '_' by {
    }
    assert("OP_FALSE"@.len() == 8 && "OP_FALSE"@[3] == 'F');
    assert("OP_TRUE"@.len() == 7 && "OP_TRUE"@[3] == 'T');
    assert("OP_CLTV"@.len() == 7 && "OP_CLTV"@[3] == 'C');
    assert("OP_NOP2"@.len() == 7 && "OP_NOP2"@[6] == '2');
    assert("OP_CSV"@.len() == 6);
    assert("OP_NOP3"@.len() == 7 && "OP_NOP3"@[6] == '3');
}

proof fn lemma_canonical_name(op: u8)
    requires
        op <= 0xba,
    ensures
        canonical(opcode_name(op)),
        !alias(opcode_name(op)),
        upper(opcode_name(op)) == opcode_name(op),
        "OP_"@.is_prefix_of(opcode_name(op)),
{
    let x = opcode_name(op);
    if spelled_out(op) {
        lemma_spelled_out_name(op, op, op);
    } else {
        lemma_numbered_name_is_canonical(op);
    }
    assert(upper(x) =~= x);
    reveal_strlit("OP_");
    assert("OP_"@ =~= x.subrange(0, 3));
}

proof fn lemma_first_named(op: u8, from: int)
    requires
        0 <= from <= op <= 0xba,
    ensures
        first_named(opcode_name(op), from) == Some(op),
    decreases op - from,
{
    if from < op {
        lemma_names_differ(from as u8, op);
        lemma_first_named(op, from + 1);
    }
}

/// Looking up the name of an opcode finds that opcode. The opcodes from 0xbb on
/// have no names of their own.
pub proof fn law_names_lead_back_to_their_opcodes(op: u8)
    requires
        op <= 0xba,
    ensures
        named_opcode(canonical_name(opcode_name(op))) == Some(op),
{
    lemma_canonical_name(op);
    lemma_first_named(op, 0);
}

/// The name of an opcode assembles to that opcode.
pub proof fn law_names_assemble_to_their_opcodes(op: u8)
    requires
        op <= 0xba,
    ensures
        token_bytes(opcode_name(op)) == Ok::<Seq<u8>, Seq<char>>(seq![op]),
{
    let x = opcode_name(op);
    lemma_canonical_name(op);
    law_names_lead_back_to_their_opcodes(op);
    assert(!is_white(x[0]));
    assert(!is_white(x[x.len() - 1]));
    assert(trim_front(x) == x);
    assert(trim_back(x) == x);
    assert(trimmed(x) == x);
    assert(!quoted(x));
    assert(reads_as_opcode(x));
}

/// Only a name that belongs to an opcode is found, and what is found has it.
pub proof fn law_lookup_finds_the_name(name: Seq<char>, from: int)
    requires
        0 <= from <= 256,
    ensures
        match first_named(name, from) {
            Some(op) => from <= op && opcode_name(op) == name,
            None => forall|op: u8| from <= op ==> #[trigger] opcode_name(op) != name,
        },
    decreases 256 - from,
{
    if from < 256 && opcode_name(from as u8) != name {
        law_lookup_finds_the_name(name, from + 1);
    }
}

proof fn lemma_mnemonic(op: u8)
    requires
        op <= 0xba,
    ensures
        named_opcode(opcode_name(op)) == Some(op),
{
    lemma_canonical_name(op);
    law_names_lead_back_to_their_opcodes(op);
}

/// What the names of the opcodes for pushes and control mean.
pub proof fn law_push_and_control_mnemonics()
    ensures
        named_opcode("OP_0"@) == Some(0x00u8),
        named_opcode("OP_PUSHDATA1"@) == Some(0x4cu8),
        named_opcode("OP_PUSHDATA2"@) == Some(0x4du8),
        named_opcode("OP_PUSHDATA4"@) == Some(0x4eu8),
        named_opcode("OP_1NEGATE"@) == Some(0x4fu8),
        named_opcode("OP_RESERVED"@) == Some(0x50u8),
        named_opcode("OP_1"@) == Some(0x51u8),
        named_opcode("OP_NOP"@) == Some(0x61u8),
        named_opcode("OP_VER"@) == Some(0x62u8),
        named_opcode("OP_IF"@) == Some(0x63u8),
        named_opcode("OP_NOTIF"@) == Some(0x64u8),
        named_opcode("OP_VERIF"@) == Some(0x65u8),
        named_opcode("OP_VERNOTIF"@) == Some(0x66u8),
        named_opcode("OP_ELSE"@) == Some(0x67u8),
        named_opcode("OP_ENDIF"@) == Some(0x68u8),
        named_opcode("OP_VERIFY"@) == Some(0x69u8),
        named_opcode("OP_RETURN"@) == Some(0x6au8),
{
    lemma_mnemonic(0x00);
    lemma_mnemonic(0x4c);
    lemma_mnemonic(0x4d);
    lemma_mnemonic(0x4e);
    lemma_mnemonic(0x4f);
    lemma_mnemonic(0x50);
    lemma_mnemonic(0x51);
    lemma_mnemonic(0x61);
    lemma_mnemonic(0x62);
    lemma_mnemonic(0x63);
    lemma_mnemonic(0x64);
    lemma_mnemonic(0x65);
    lemma_mnemonic(0x66);
    lemma_mnemonic(0x67);
    lemma_mnemonic(0x68);
    lemma_mnemonic(0x69);
    lemma_mnemonic(0x6a);
}

/// What the names of the opcodes for the stack and strings mean.
pub proof fn law_stack_and_string_mnemonics()
    ensures
        named_opcode("OP_TOALTSTACK"@) == Some(0x6bu8),
        named_opcode("OP_FROMALTSTACK"@) == Some(0x6cu8),
        named_opcode("OP_2DROP"@) == Some(0x6du8),
        named_opcode("OP_2DUP"@) == Some(0x6eu8),
        named_opcode("OP_3DUP"@) == Some(0x6fu8),
        named_opcode("OP_2OVER"@) == Some(0x70u8),
        named_opcode("OP_2ROT"@) == Some(0x71u8),
        named_opcode("OP_2SWAP"@) == Some(0x72u8),
        named_opcode("OP_IFDUP"@) == Some(0x73u8),
        named_opcode("OP_DEPTH"@) == Some(0x74u8),
        named_opcode("OP_DROP"@) == Some(0x75u8),
        named_opcode("OP_DUP"@) == Some(0x76u8),
        named_opcode("OP_NIP"@) == Some(0x77u8),
        named_opcode("OP_OVER"@) == Some(0x78u8),
        named_opcode("OP_PICK"@) == Some(0x79u8),
        named_opcode("OP_ROLL"@) == Some(0x7au8),
        named_opcode("OP_ROT"@) == Some(0x7bu8),
        named_opcode("OP_SWAP"@) == Some(0x7cu8),
        named_opcode("OP_TUCK"@) == Some(0x7du8),
        named_opcode("OP_CAT"@) == Some(0x7eu8),
        named_opcode("OP_SUBSTR"@) == Some(0x7fu8),
        named_opcode("OP_LEFT"@) == Some(0x80u8),
        named_opcode("OP_RIGHT"@) == Some(0x81u8),
        named_opcode("OP_SIZE"@) == Some(0x82u8),
        named_opcode("OP_INVERT"@) == Some(0x83u8),
        named_opcode("OP_AND"@) == Some(0x84u8),
        named_opcode("OP_OR"@) == Some(0x85u8),
        named_opcode("OP_XOR"@) == Some(0x86u8),
        named_opcode("OP_EQUAL"@) == Some(0x87u8),
        named_opcode("OP_EQUALVERIFY"@) == Some(0x88u8),
        named_opcode("OP_RESERVED1"@) == Some(0x89u8),
        named_opcode("OP_RESERVED2"@) == Some(0x8au8),
{
    lemma_mnemonic(0x6b);
    lemma_mnemonic(0x6c);
    lemma_mnemonic(0x6d);
    lemma_mnemonic(0x6e);
    lemma_mnemonic(0x6f);
    lemma_mnemonic(0x70);
    lemma_mnemonic(0x71);
    lemma_mnemonic(0x72);
    lemma_mnemonic(0x73);
    lemma_mnemonic(0x74);
    lemma_mnemonic(0x75);
    lemma_mnemonic(0x76);
    lemma_mnemonic(0x77);
    lemma_mnemonic(0x78);
    lemma_mnemonic(0x79);
    lemma_mnemonic(0x7a);
    lemma_mnemonic(0x7b);
    lemma_mnemonic(0x7c);
    lemma_mnemonic(0x7d);
    lemma_mnemonic(0x7e);
    lemma_mnemonic(0x7f);
    lemma_mnemonic(0x80);
    lemma_mnemonic(0x81);
    lemma_mnemonic(0x82);
    lemma_mnemonic(0x83);
    lemma_mnemonic(0x84);
    lemma_mnemonic(0x85);
    lemma_mnemonic(0x86);
    lemma_mnemonic(0x87);
    lemma_mnemonic(0x88);
    lemma_mnemonic(0x89);
    lemma_mnemonic(0x8a);
}

/// What the names of the opcodes for arithmetic mean.
pub proof fn law_arithmetic_mnemonics()
    ensures
        named_opcode("OP_1ADD"@) == Some(0x8bu8),
        named_opcode("OP_1SUB"@) == Some(0x8cu8),
        named_opcode("OP_2MUL"@) == Some(0x8du8),
        named_opcode("OP_2DIV"@) == Some(0x8eu8),
        named_opcode("OP_NEGATE"@) == Some(0x8fu8),
        named_opcode("OP_ABS"@) == Some(0x90u8),
        named_opcode("OP_NOT"@) == Some(0x91u8),
        named_opcode("OP_0NOTEQUAL"@) == Some(0x92u8),
        named_opcode("OP_ADD"@) == Some(0x93u8),
        named_opcode("OP_SUB"@) == Some(0x94u8),
        named_opcode("OP_MUL"@) == Some(0x95u8),
        named_opcode("OP_DIV"@) == Some(0x96u8),
        named_opcode("OP_MOD"@) == Some(0x97u8),
        named_opcode("OP_LSHIFT"@) == Some(0x98u8),
        named_opcode("OP_RSHIFT"@) == Some(0x99u8),
        named_opcode("OP_BOOLAND"@) == Some(0x9au8),
        named_opcode("OP_BOOLOR"@) == Some(0x9bu8),
        named_opcode("OP_NUMEQUAL"@) == Some(0x9cu8),
        named_opcode("OP_NUMEQUALVERIFY"@) == Some(0x9du8),
        named_opcode("OP_NUMNOTEQUAL"@) == Some(0x9eu8),
        named_opcode("OP_LESSTHAN"@) == Some(0x9fu8),
        named_opcode("OP_GREATERTHAN"@) == Some(0xa0u8),
        named_opcode("OP_LESSTHANOREQUAL"@) == Some(0xa1u8),
        named_opcode("OP_GREATERTHANOREQUAL"@) == Some(0xa2u8),
        named_opcode("OP_MIN"@) == Some(0xa3u8),
        named_opcode("OP_MAX"@) == Some(0xa4u8),
        named_opcode("OP_WITHIN"@) == Some(0xa5u8),
{
    lemma_mnemonic(0x8b);
    lemma_mnemonic(0x8c);
    lemma_mnemonic(0x8d);
    lemma_mnemonic(0x8e);
    lemma_mnemonic(0x8f);
    lemma_mnemonic(0x90);
    lemma_mnemonic(0x91);
    lemma_mnemonic(0x92);
    lemma_mnemonic(0x93);
    lemma_mnemonic(0x94);
    lemma_mnemonic(0x95);
    lemma_mnemonic(0x96);
    lemma_mnemonic(0x97);
    lemma_mnemonic(0x98);
    lemma_mnemonic(0x99);
    lemma_mnemonic(0x9a);
    lemma_mnemonic(0x9b);
    lemma_mnemonic(0x9c);
    lemma_mnemonic(0x9d);
    lemma_mnemonic(0x9e);
    lemma_mnemonic(0x9f);
    lemma_mnemonic(0xa0);
    lemma_mnemonic(0xa1);
    lemma_mnemonic(0xa2);
    lemma_mnemonic(0xa3);
    lemma_mnemonic(0xa4);
    lemma_mnemonic(0xa5);
}

/// What the names of the opcodes for hashes, signatures and lock times mean.
pub proof fn law_crypto_and_locktime_mnemonics()
    ensures
        named_opcode("OP_RIPEMD160"@) == Some(0xa6u8),
        named_opcode("OP_SHA1"@) == Some(0xa7u8),
        named_opcode("OP_SHA256"@) == Some(0xa8u8),
        named_opcode("OP_HASH160"@) == Some(0xa9u8),
        named_opcode("OP_HASH256"@) == Some(0xaau8),
        named_opcode("OP_CODESEPARATOR"@) == Some(0xabu8),
        named_opcode("OP_CHECKSIG"@) == Some(0xacu8),
        named_opcode("OP_CHECKSIGVERIFY"@) == Some(0xadu8),
        named_opcode("OP_CHECKMULTISIG"@) == Some(0xaeu8),
        named_opcode("OP_CHECKMULTISIGVERIFY"@) == Some(0xafu8),
        named_opcode("OP_NOP1"@) == Some(0xb0u8),
        named_opcode("OP_CHECKLOCKTIMEVERIFY"@) == Some(0xb1u8),
        named_opcode("OP_CHECKSEQUENCEVERIFY"@) == Some(0xb2u8),
        named_opcode("OP_CHECKSIGADD"@) == Some(0xbau8),
{
    lemma_mnemonic(0xa6);
    lemma_mnemonic(0xa7);
    lemma_mnemonic(0xa8);
    lemma_mnemonic(0xa9);
    lemma_mnemonic(0xaa);
    lemma_mnemonic(0xab);
    lemma_mnemonic(0xac);
    lemma_mnemonic(0xad);
    lemma_mnemonic(0xae);
    lemma_mnemonic(0xaf);
    lemma_mnemonic(0xb0);
    lemma_mnemonic(0xb1);
    lemma_mnemonic(0xb2);
    lemma_mnemonic(0xba);
}

} // verus!
