//! What the assembler and the decoder are for.

use crate::assembly::{
    assembled, decode_error, hexish, instructions, lemma_instruction_at, lemma_single_token,
    listing_lines, pending, push_of, separator, token_bytes, tokens, tokens_after,
};
use crate::hexcodec::{hex_parsed, law_hex_reading, law_hex_roundtrip};
use crate::num::le_value;
use crate::opnames::{canonical_name, named_opcode, opcode_name};
use crate::text::{
    ascii_upper, dec, hex_digit, hex_text, is_white, lemma_hex_text_is_bare, lemma_trimmed_already,
    parsed_i64, upper, without_0x,
};
use vstd::prelude::*;
use vstd::utf8::encode_utf8;

verus! {

/// No quotation mark stands in a text.
pub open spec fn unquoted(s: Seq<char>) -> bool {
    forall|i: int| 0 <= i < s.len() ==> #[trigger] s[i] != '\'' && s[i] != '"'
}

/// What two parts of a source assemble to, put together: the bytes of both, or
/// the first error.
pub open spec fn joined(
    a: Result<Seq<u8>, Seq<char>>,
    b: Result<Seq<u8>, Seq<char>>,
) -> Result<Seq<u8>, Seq<char>> {
    match a {
        Err(e) => Err(e),
        Ok(x) => match b {
            Err(e) => Err(e),
            Ok(y) => Ok(x + y),
        },
    }
}

/// A source assembles token by token: what stands before and after a separator
/// outside quotations assembles on its own, to bytes that follow each other.
pub proof fn law_sources_assemble_part_by_part(a: Seq<char>, sep: char, b: Seq<char>)
    requires
        unquoted(a),
        separator(sep),
        sep != '\'' && sep != '"',
    ensures
        tokens(a + seq![sep] + b) == tokens(a) + tokens(b),
        assembled(tokens(a + seq![sep] + b)) == joined(assembled(tokens(a)), assembled(tokens(b))),
{
    lemma_tokens_split(Seq::empty(), a, sep, b);
    lemma_assembled_concat(tokens(a), tokens(b));
}

/// The characters that part tokens.
pub proof fn law_separators(c: char)
    requires
        (c as u32) < 128,
    ensures
        separator(c) <==> c == '[' || c == ']' || c == '<' || c == '>' || c == ',' || c == ' ' || c
            == '\t' || c == '\n' || c == '\r' || c as u32 == 11 || c as u32 == 12,
{
}

proof fn lemma_tokens_split(cur: Seq<char>, a: Seq<char>, sep: char, b: Seq<char>)
    requires
        unquoted(a),
        separator(sep),
        sep != '\'' && sep != '"',
    ensures
        tokens_after(cur, None, a + seq![sep] + b) == tokens_after(cur, None, a) + tokens(b),
    decreases a.len(),
{
    let s = a + seq![sep] + b;
    if a.len() == 0 {
        assert(s[0] == sep);
        assert(s.drop_first() =~= b);
    } else {
        let rest = a.drop_first();
        assert(s[0] == a[0]);
        assert(s.drop_first() =~= rest + seq![sep] + b);
        assert forall|i: int| 0 <= i < rest.len() implies #[trigger] rest[i] != '\'' && rest[i]
            != '"' by {
            assert(rest[i] == a[i + 1]);
        }
        assert(a[0] != '\'' && a[0] != '"');
        if separator(a[0]) {
            lemma_tokens_split(Seq::empty(), rest, sep, b);
            assert(pending(cur) + (tokens_after(Seq::empty(), None, rest) + tokens(b)) =~= pending(
                cur,
            ) + tokens_after(Seq::empty(), None, rest) + tokens(b));
        } else {
            lemma_tokens_split(cur.push(a[0]), rest, sep, b);
        }
    }
}

proof fn lemma_assembled_concat(a: Seq<Seq<char>>, b: Seq<Seq<char>>)
    ensures
        assembled(a + b) == joined(assembled(a), assembled(b)),
    decreases b.len(),
{
    if b.len() == 0 {
        assert(a + b =~= a);
        if assembled(a) is Ok {
            assert(assembled(a)->Ok_0 + Seq::<u8>::empty() =~= assembled(a)->Ok_0);
        }
    } else {
        assert((a + b).drop_last() =~= a + b.drop_last());
        assert((a + b).last() == b.last());
        lemma_assembled_concat(a, b.drop_last());
        if assembled(a) is Ok && assembled(b.drop_last()) is Ok && token_bytes(b.last()) is Ok {
            let x = assembled(a)->Ok_0;
            let y = assembled(b.drop_last())->Ok_0;
            let z = token_bytes(b.last())->Ok_0;
            assert(x + y + z =~= x + (y + z));
        }
    }
}

proof fn lemma_hex_text_form(d: Seq<u8>)
    requires
        d.len() > 0,
    ensures
        ({
            let t = hex_text(d);
            &&& t.len() == 2 * d.len()
            &&& forall|i: int|
                0 <= i < t.len() ==> '0' <= #[trigger] t[i] <= '9' || 'a' <= t[i] <= 'f'
            &&& encode_utf8(t).len() == t.len()
        }),
{
    let t = hex_text(d);
    assert forall|i: int| 0 <= i < t.len() implies '0' <= #[trigger] t[i] <= '9' || 'a' <= t[i]
        <= 'f' by {
        let b = d[i / 2] as int;
        assert(t[i] == hex_digit(b / 16) || t[i] == hex_digit(b % 16));
    }
    law_hex_roundtrip(d);
    law_hex_reading(t);
}

proof fn lemma_not_op(t: Seq<char>)
    requires
        t.len() > 0,
        '0' <= t[0] <= '9' || 'a' <= t[0] <= 'f',
    ensures
        !"OP_"@.is_prefix_of(upper(t)),
{
    reveal_strlit("OP_");
    if "OP_"@.is_prefix_of(upper(t)) {
        assert("OP_"@[0] == 'O');
        assert(upper(t)[0] == "OP_"@[0]);
        assert(upper(t)[0] == ascii_upper(t[0]));
    }
}

/// Hexadecimal data is pushed as the bytes it means. With `0x` in front that
/// holds always; without, unless the digits read as a decimal number.
pub proof fn law_hex_tokens_push_their_bytes(d: Seq<u8>)
    requires
        0 < d.len() < 0x1_0000_0000,
    ensures
        token_bytes("0x"@ + hex_text(d)) == Ok::<Seq<u8>, Seq<char>>(push_of(d)),
        parsed_i64(hex_text(d)) is None || hex_text(d)[0] == '0' ==> token_bytes(hex_text(d))
            == Ok::<Seq<u8>, Seq<char>>(push_of(d)),
{
    let t = hex_text(d);
    lemma_hex_text_form(d);
    lemma_hex_text_is_bare(d);
    law_hex_roundtrip(d);
    lemma_not_op(t);
    assert forall|i: int| 0 <= i < t.len() implies crate::assembly::hex_char(#[trigger] t[i]) by {
    }
    assert(hexish(t));
    reveal_strlit("0x");
    let x = "0x"@ + t;
    assert("0x"@.len() == 2 && "0x"@[0] == '0' && "0x"@[1] == 'x');
    assert(x[0] == '0' && x[1] == 'x');
    assert(x.last() == t[t.len() - 1]);
    lemma_trimmed_already(x);
    assert(x.skip(2) =~= t);
    assert(without_0x(x) == t);
    assert(hexish(x));
    lemma_not_op(x);
    assert(parsed_i64(x) is None) by {
        assert(!('0' <= x[1] <= '9'));
    }
}

/// A quotation is one token, whatever stands in it but its own mark, and pushes
/// the UTF-8 bytes between the marks.
pub proof fn law_quotations_push_their_text(q: char, s: Seq<char>)
    requires
        q == '\'' || q == '"',
        forall|i: int| 0 <= i < s.len() ==> #[trigger] s[i] != q,
        encode_utf8(s).len() < 0x1_0000_0000,
    ensures
        tokens(seq![q] + s + seq![q]) == seq![seq![q] + s + seq![q]],
        token_bytes(seq![q] + s + seq![q]) == Ok::<Seq<u8>, Seq<char>>(push_of(encode_utf8(s))),
{
    let t = seq![q] + s + seq![q];
    assert(t[0] == q && t.last() == q);
    assert(t.drop_first() =~= s + seq![q]);
    assert(Seq::<char>::empty().push(q) =~= seq![q]);
    lemma_quotation(seq![q], q, s);
    lemma_trimmed_already(t);
    assert(t.subrange(1, t.len() - 1) =~= s);
}

proof fn lemma_quotation(cur: Seq<char>, q: char, s: Seq<char>)
    requires
        cur.len() > 0,
        forall|i: int| 0 <= i < s.len() ==> #[trigger] s[i] != q,
    ensures
        tokens_after(cur, Some(q), s + seq![q]) == seq![cur + s + seq![q]],
    decreases s.len(),
{
    let t = s + seq![q];
    if s.len() == 0 {
        assert(t[0] == q);
        assert(t.drop_first() =~= Seq::empty());
        assert(tokens_after(cur.push(q), None, Seq::empty()) == seq![cur.push(q)]);
        assert(cur.push(q) =~= cur + s + seq![q]);
    } else {
        assert(t[0] == s[0]);
        let rest = s.drop_first();
        assert(t.drop_first() =~= rest + seq![q]);
        assert forall|i: int| 0 <= i < rest.len() implies #[trigger] rest[i] != q by {
            assert(rest[i] == s[i + 1]);
        }
        lemma_quotation(cur.push(s[0]), q, rest);
        assert(cur.push(s[0]) + rest + seq![q] =~= cur + s + seq![q]);
    }
}

/// A token that starts with `OP_` but names no opcode is refused.
pub proof fn law_unknown_opcodes_are_refused(t: Seq<char>)
    requires
        t.len() > 0,
        !is_white(t[0]),
        !is_white(t.last()),
        t[0] != '\'' && t[0] != '"',
        "OP_"@.is_prefix_of(upper(t)),
        named_opcode(upper(t)) is None,
    ensures
        token_bytes(t) is Err,
{
    lemma_trimmed_already(t);
}

/// Opcode names are looked up without regard to case, and with or without their
/// `OP_`.
pub proof fn law_opcode_names_are_lenient(name: Seq<char>)
    ensures
        canonical_name(upper(name)) == canonical_name(name),
        !"OP_"@.is_prefix_of(upper(name)) ==> canonical_name("OP_"@ + name) == canonical_name(name),
{
    assert(upper(upper(name)) =~= upper(name));
    reveal_strlit("OP_");
    let full = "OP_"@ + name;
    assert(upper(full) =~= "OP_"@ + upper(name)) by {
        assert("OP_"@.len() == 3 && "OP_"@[0] == 'O' && "OP_"@[1] == 'P' && "OP_"@[2] == '_');
    }
    assert("OP_"@ =~= upper(full).subrange(0, 3));
}

/// The aliases of opcodes.
pub proof fn law_opcode_aliases()
    ensures
        named_opcode("OP_FALSE"@) == Some(0u8),
        named_opcode("OP_TRUE"@) == Some(0x51u8),
        named_opcode("OP_CLTV"@) == Some(0xb1u8),
        named_opcode("OP_NOP2"@) == Some(0xb1u8),
        named_opcode("OP_CSV"@) == Some(0xb2u8),
        named_opcode("OP_NOP3"@) == Some(0xb2u8),
{
    reveal_strlit("OP_FALSE");
    reveal_strlit("OP_TRUE");
    reveal_strlit("OP_CLTV");
    reveal_strlit("OP_NOP2");
    reveal_strlit("OP_CSV");
    reveal_strlit("OP_NOP3");
    assert("OP_FALSE"@.len() == 8 && "OP_CSV"@.len() == 6);
    assert("OP_TRUE"@.len() == 7 && "OP_TRUE"@[3] == 'T');
    assert("OP_CLTV"@.len() == 7 && "OP_CLTV"@[3] == 'C');
    assert("OP_NOP2"@.len() == 7 && "OP_NOP2"@[3] == 'N' && "OP_NOP2"@[6] == '2');
    assert("OP_NOP3"@.len() == 7 && "OP_NOP3"@[3] == 'N' && "OP_NOP3"@[6] == '3');
}

/// The opcodes whose names end in `VERIFY`, and the numbered ones.
pub proof fn law_name_families(n: u8)
    ensures
        opcode_name(0x88) == opcode_name(0x87) + "VERIFY"@,
        opcode_name(0x9d) == opcode_name(0x9c) + "VERIFY"@,
        opcode_name(0xad) == opcode_name(0xac) + "VERIFY"@,
        opcode_name(0xaf) == opcode_name(0xae) + "VERIFY"@,
        2 <= n <= 16 ==> opcode_name((0x50 + n) as u8) == "OP_"@ + dec(n as int),
        4 <= n <= 10 ==> opcode_name((0xaf + n) as u8) == "OP_NOP"@ + dec(n as int),
        1 <= n <= 75 ==> opcode_name(n) == "OP_PUSHBYTES_"@ + dec(n as int),
{
    reveal_strlit("VERIFY");
    reveal_strlit("OP_EQUAL");
    reveal_strlit("OP_EQUALVERIFY");
    reveal_strlit("OP_NUMEQUAL");
    reveal_strlit("OP_NUMEQUALVERIFY");
    reveal_strlit("OP_CHECKSIG");
    reveal_strlit("OP_CHECKSIGVERIFY");
    reveal_strlit("OP_CHECKMULTISIG");
    reveal_strlit("OP_CHECKMULTISIGVERIFY");
    assert(opcode_name(0x88) =~= opcode_name(0x87) + "VERIFY"@);
    assert(opcode_name(0x9d) =~= opcode_name(0x9c) + "VERIFY"@);
    assert(opcode_name(0xad) =~= opcode_name(0xac) + "VERIFY"@);
    assert(opcode_name(0xaf) =~= opcode_name(0xae) + "VERIFY"@);
}

/// The bytes in front of a push's data, by its opcode.
pub open spec fn lead(op: u8) -> int {
    if op == 0x4c {
        2
    } else if op == 0x4d {
        3
    } else if op == 0x4e {
        5
    } else {
        1
    }
}

/// What a script announces at byte `i`: the number of data bytes that follow,
/// by the opcode itself or by the one, two or four little-endian bytes after it.
pub open spec fn announced(s: Seq<u8>, i: int) -> int {
    let op = s[i];
    if op <= 0x4b {
        op as int
    } else if op == 0x4c {
        s[i + 1] as int
    } else if op == 0x4d {
        s[i + 1] + 256 * s[i + 2]
    } else if op == 0x4e {
        s[i + 1] + 256 * s[i + 2] + 0x1_0000 * s[i + 3] + 0x100_0000 * s[i + 4]
    } else {
        0
    }
}

/// An instruction takes its opcode, the length bytes behind it and the data
/// that they announce, and is broken exactly if the script ends before. A push
/// carries that data; other opcodes carry none.
pub proof fn law_instructions_carry_their_data(s: Seq<u8>, k: int)
    requires
        0 <= k < instructions(s).len(),
    ensures
        ({
            let ins = instructions(s)[k];
            let i = ins.offset;
            let op = s[i];
            let whole = i + lead(op) <= s.len() && i + lead(op) + announced(s, i) <= s.len();
            &&& 0 <= i < s.len()
            &&& ins.opcode == op
            &&& ins.error is None <==> whole
            &&& whole ==> ins.len == lead(op) + announced(s, i)
            &&& whole && op <= 0x4e ==> ins.data == Some(
                s.subrange(i + lead(op), i + lead(op) + announced(s, i)),
            )
            &&& !whole || op > 0x4e ==> ins.data is None
        }),
{
    lemma_instruction_at(s, k);
    let i = instructions(s)[k].offset;
    let op = s[i];
    assert(op == 0 ==> s.subrange(i + 1, i + 1) =~= Seq::empty());
    if 0x4c <= op <= 0x4e && i + lead(op) <= s.len() {
        let lb = s.subrange(i + 1, i + lead(op));
        reveal_with_fuel(le_value, 5);
        if op == 0x4c {
            assert(lb.drop_first() =~= Seq::empty());
        } else if op == 0x4d {
            assert(lb.drop_first() =~= seq![s[i + 2]]);
            assert(seq![s[i + 2]].drop_first() =~= Seq::empty());
        } else {
            let l1 = lb.drop_first();
            let l2 = l1.drop_first();
            let l3 = l2.drop_first();
            assert(l1[0] == s[i + 2] && l2[0] == s[i + 3] && l3[0] == s[i + 4]);
            assert(l3.drop_first() =~= Seq::empty());
            assert(le_value(l3) == s[i + 4]);
            assert(le_value(l2) == s[i + 3] + 256 * s[i + 4]);
            assert(le_value(l1) == s[i + 2] + 256 * s[i + 3] + 0x1_0000 * s[i + 4]);
        }
        assert(le_value(lb) == announced(s, i));
    }
}

/// A data push is minimal exactly if no number opcode pushes the same and its
/// opcode is the one that the assembler uses for the data. A push of nothing is
/// minimal exactly if it is `OP_0`.
pub proof fn law_minimal_pushes(s: Seq<u8>, k: int)
    requires
        0 <= k < instructions(s).len(),
        instructions(s)[k].data is Some,
        instructions(s)[k].data->0.len() < 0x1_0000_0000,
    ensures
        ({
            let ins = instructions(s)[k];
            let d = ins.data->0;
            let numeric = d.len() == 1 && (1 <= d[0] <= 16 || d[0] == 0x81);
            &&& d.len() == 0 ==> (ins.minimal_push <==> ins.opcode == 0)
            &&& d.len() > 0 ==> (ins.minimal_push <==> !numeric && ins.opcode == push_of(d)[0])
        }),
{
    lemma_instruction_at(s, k);
}

/// A script is listed with one line for each instruction, and one more for an
/// error. A push is shown as its data, other opcodes by their names.
pub proof fn law_listings(s: Seq<u8>, k: int)
    ensures
        listing_lines(s).len() == instructions(s).len() + (if decode_error(s) is Some {
            1int
        } else {
            0
        }),
        0 <= k < instructions(s).len() ==> listing_lines(s)[k] == instructions(s)[k].text,
        0 <= k < instructions(s).len() ==> ({
            let ins = instructions(s)[k];
            ins.text == match ins.data {
                Some(d) => if d.len() > 0 {
                    hex_text(d)
                } else {
                    opcode_name(ins.opcode)
                },
                None => opcode_name(ins.opcode),
            }
        }),
        decode_error(s) is Some <==> instructions(s).len() > 0 && instructions(s).last().error is Some,
{
    if 0 <= k < instructions(s).len() {
        lemma_instruction_at(s, k);
    }
}

/// A token that is no quotation, no opcode name, no decimal number and no
/// hexadecimal data is refused.
pub proof fn law_other_tokens_are_refused(t: Seq<char>)
    requires
        t.len() > 0,
        !is_white(t[0]),
        !is_white(t.last()),
        t[0] != '\'' && t[0] != '"',
        named_opcode(canonical_name(t)) is None,
        parsed_i64(t) is None,
        hex_parsed(without_0x(t)) is Err,
    ensures
        token_bytes(t) is Err,
{
    lemma_trimmed_already(t);
    if without_0x(t).len() == 0 {
        assert(encode_utf8(without_0x(t)) =~= Seq::empty());
        law_hex_reading(without_0x(t));
    }
}

/// A text without separators and quotation marks is one token.
pub proof fn law_plain_texts_are_single_tokens(s: Seq<char>)
    requires
        s.len() > 0,
        unquoted(s),
        forall|i: int| 0 <= i < s.len() ==> !separator(#[trigger] s[i]),
    ensures
        tokens(s) == seq![s],
        assembled(tokens(s)) == token_bytes(s),
{
    lemma_single_token(Seq::empty(), s);
    assert(Seq::<char>::empty() + s =~= s);
    assert(seq![s].drop_last() =~= Seq::empty());
    if token_bytes(s) is Ok {
        assert(Seq::<u8>::empty() + token_bytes(s)->Ok_0 =~= token_bytes(s)->Ok_0);
    }
    assert(assembled(Seq::empty()) == Ok::<Seq<u8>, Seq<char>>(Seq::empty()));
}

} // verus!
