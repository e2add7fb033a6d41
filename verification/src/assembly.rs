//! Script decoding, disassembly, and assembly (the `btcc` half of btcdeb).

use crate::hexcodec::{hex_decode, hex_encode, hex_parsed};
use crate::num::{
    encode, law_encode_then_decode, law_encoded_size, le_value, lemma_one_byte_value, pow256,
    script_num, script_value,
};
use crate::opnames::{canonical_name, named_opcode, op_code, op_name, opcode_name};
use crate::text::{
    bytes_or_message, chars_of, dec, dec_usize, hex_text, is_white, is_whitespace,
    law_decimal_roundtrip, lemma_dec_form, lemma_trimmed_already, parse_i64, parsed_i64,
    starts_with, strip_0x, text, text_of, to_upper, trim, trimmed, upper, without_0x,
};
use vstd::prelude::*;
use vstd::slice::{slice_subrange, slice_to_vec};
use vstd::string::StringExecFns;
use vstd::utf8::encode_utf8;

verus! {

pub struct Ins {
    /// Byte offset of the opcode within the script.
    pub offset: usize,
    /// Total encoded length, including the push prefix and data.
    pub len: usize,
    pub opcode: u8,
    pub data: Option<Vec<u8>>,
    /// Display text: the opcode name, or the hex payload for data pushes.
    pub text: String,
    pub minimal_push: bool,
    pub error: Option<String>,
}

/// What an instruction says, as mathematical values.
#[verifier::ext_equal]
pub struct InsModel {
    pub offset: int,
    pub len: int,
    pub opcode: u8,
    pub data: Option<Seq<u8>>,
    pub text: Seq<char>,
    pub minimal_push: bool,
    pub error: Option<Seq<char>>,
}

impl View for Ins {
    type V = InsModel;

    open spec fn view(&self) -> InsModel {
        InsModel {
            offset: self.offset as int,
            len: self.len as int,
            opcode: self.opcode,
            data: match self.data {
                Some(d) => Some(d@),
                None => None,
            },
            text: self.text@,
            minimal_push: self.minimal_push,
            error: match self.error {
                Some(e) => Some(e@),
                None => None,
            },
        }
    }
}

/// Copy an optional text.
pub(crate) fn copy_text(t: &Option<String>) -> (r: Option<String>)
    ensures
        opt_text(r) == opt_text(*t),
{
    match t {
        Some(s) => Some(s.clone()),
        None => None,
    }
}

/// Copy a list of texts.
pub(crate) fn copy_texts(v: &Vec<String>) -> (r: Vec<String>)
    ensures
        texts(r@) == texts(v@),
{
    let mut out: Vec<String> = Vec::new();
    let mut i: usize = 0;
    while i < v.len()
        invariant
            i <= v@.len(),
            texts(out@) =~= texts(v@).take(i as int),
        decreases v@.len() - i,
    {
        push_text(&mut out, v[i].clone());
        i = i + 1;
    }
    assert(texts(out@) =~= texts(v@));
    out
}

impl Clone for Ins {
    fn clone(&self) -> (r: Ins)
        ensures
            r@ == self@,
    {
        Ins {
            offset: self.offset,
            len: self.len,
            opcode: self.opcode,
            data: match &self.data {
                Some(d) => Some(slice_to_vec(d.as_slice())),
                None => None,
            },
            text: self.text.clone(),
            minimal_push: self.minimal_push,
            error: copy_text(&self.error),
        }
    }
}

/// The models of a list of instructions.
pub open spec fn ins_models(ins: Seq<Ins>) -> Seq<InsModel> {
    ins.map_values(|i: Ins| i@)
}

/// An instruction whose push data is not all there.
pub open spec fn truncated(offset: int, op: u8, msg: Seq<char>) -> InsModel {
    InsModel {
        offset,
        len: 1,
        opcode: op,
        data: None,
        text: opcode_name(op),
        minimal_push: false,
        error: Some(msg),
    }
}

/// The bytes in front of the data of a push: the opcode and its length bytes.
pub open spec fn push_header_len(op: u8) -> int {
    if op == 0x4c {
        2
    } else if op == 0x4d {
        3
    } else if op == 0x4e {
        5
    } else {
        1
    }
}

/// The number of data bytes that the push at `i` announces.
pub open spec fn push_data_len(bytes: Seq<u8>, i: int) -> int {
    if bytes[i] <= 0x4b {
        bytes[i] as int
    } else {
        le_value(bytes.subrange(i + 1, i + push_header_len(bytes[i]))) as int
    }
}

/// The opcode that the shortest push of this data uses.
pub open spec fn minimal_opcode(data: Seq<u8>) -> int {
    if data.len() == 0 {
        0x00
    } else if data.len() == 1 && 1 <= data[0] <= 16 {
        0x50 + data[0]
    } else if data.len() == 1 && data[0] == 0x81 {
        0x4f
    } else if data.len() <= 75 {
        data.len() as int
    } else if data.len() <= 255 {
        0x4c
    } else if data.len() <= 65535 {
        0x4d
    } else {
        0x4e
    }
}

/// The instruction at byte `i` of a script.
pub open spec fn ins_at(bytes: Seq<u8>, i: int) -> InsModel {
    let op = bytes[i];
    if op == 0 || op > 0x4e {
        InsModel {
            offset: i,
            len: 1,
            opcode: op,
            data: if op == 0 {
                Some(Seq::empty())
            } else {
                None
            },
            text: opcode_name(op),
            minimal_push: true,
            error: None,
        }
    } else {
        let start = i + push_header_len(op);
        let n = push_data_len(bytes, i);
        if start > bytes.len() {
            truncated(i, op, "truncated "@ + opcode_name(op) + " length"@)
        } else if start + n > bytes.len() {
            truncated(
                i,
                op,
                "push of "@ + dec(n) + " bytes runs past the end of the script ("@ + dec(
                    bytes.len() - start,
                ) + " available)"@,
            )
        } else {
            let data = bytes.subrange(start, start + n);
            InsModel {
                offset: i,
                len: push_header_len(op) + n,
                opcode: op,
                data: Some(data),
                text: if n == 0 {
                    opcode_name(op)
                } else {
                    hex_text(data)
                },
                minimal_push: op == minimal_opcode(data),
                error: None,
            }
        }
    }
}

/// The instructions from byte `i` on, up to and including one that is
/// truncated.
pub open spec fn instructions_from(bytes: Seq<u8>, i: int) -> Seq<InsModel>
    decreases bytes.len() - i,
{
    if i < 0 || i >= bytes.len() {
        Seq::empty()
    } else {
        let ins = ins_at(bytes, i);
        if ins.error is Some || ins.len <= 0 {
            seq![ins]
        } else {
            seq![ins] + instructions_from(bytes, i + ins.len)
        }
    }
}

/// The instructions of a script.
pub open spec fn instructions(bytes: Seq<u8>) -> Seq<InsModel> {
    instructions_from(bytes, 0)
}

/// What is wrong with a script, when its last instruction is truncated.
pub open spec fn decode_error(bytes: Seq<u8>) -> Option<Seq<char>> {
    let ins = instructions(bytes);
    if ins.len() == 0 {
        None
    } else {
        ins.last().error
    }
}

/// The view of an optional message.
pub open spec fn opt_text(t: Option<String>) -> Option<Seq<char>> {
    match t {
        Some(s) => Some(s@),
        None => None,
    }
}

/// Decode the instruction at byte `i`.
fn decode_one(bytes: &[u8], i: usize) -> (r: Ins)
    requires
        i < bytes@.len(),
    ensures
        r@ == ins_at(bytes@, i as int),
{
    let op = bytes[i];
    if op == 0 || op > 0x4e {
        let data: Option<Vec<u8>> = if op == 0 {
            Some(Vec::new())
        } else {
            None
        };
        return Ins {
            offset: i,
            len: 1,
            opcode: op,
            data,
            text: op_name(op),
            minimal_push: true,
            error: None,
        };
    }
    let header: usize = if op == 0x4c {
        2
    } else if op == 0x4d {
        3
    } else if op == 0x4e {
        5
    } else {
        1
    };
    let room: usize = bytes.len() - i;
    if header > room {
        let msg = text("truncated ").concat(op_name(op).as_str()).concat(" length");
        return bad_ins(i, op, msg.as_str());
    }
    let n: usize = if header == 1 {
        op as usize
    } else {
        le_usize(slice_subrange(bytes, i + 1, i + header))
    };
    if n > room - header {
        let msg = text("push of ").concat(dec_usize(n).as_str()).concat(
            " bytes runs past the end of the script (",
        ).concat(dec_usize(room - header).as_str()).concat(" available)");
        return bad_ins(i, op, msg.as_str());
    }
    let data = slice_to_vec(slice_subrange(bytes, i + header, i + header + n));
    let shown = if n == 0 {
        op_name(op)
    } else {
        hex_encode(data.as_slice())
    };
    let minimal_push = is_minimal_push(op, data.as_slice());
    Ins {
        offset: i,
        len: header + n,
        opcode: op,
        data: Some(data),
        text: shown,
        minimal_push,
        error: None,
    }
}

/// A little-endian length of at most four bytes.
pub(crate) fn le_usize(bytes: &[u8]) -> (r: usize)
    requires
        bytes@.len() <= 4,
    ensures
        r == le_value(bytes@),
{
    let mut acc: usize = 0;
    let mut i: usize = bytes.len();
    assert(bytes@.skip(i as int) =~= Seq::<u8>::empty());
    while i > 0
        invariant
            i <= bytes@.len() <= 4,
            acc == le_value(bytes@.skip(i as int)),
            bytes@.len() - i == 0 ==> acc == 0,
            bytes@.len() - i == 1 ==> acc < 0x100,
            bytes@.len() - i == 2 ==> acc < 0x1_0000,
            bytes@.len() - i == 3 ==> acc < 0x100_0000,
        decreases i,
    {
        assert(bytes@.skip(i - 1).drop_first() =~= bytes@.skip(i as int));
        i = i - 1;
        acc = acc * 256 + bytes[i] as usize;
    }
    assert(bytes@.skip(0) =~= bytes@);
    acc
}

/// Decode a script into instructions. A truncated push is reported on the
/// instruction where it happens rather than aborting the whole decode, so
/// malformed scripts remain inspectable.
pub fn decode_script(bytes: &[u8]) -> (r: (Vec<Ins>, Option<String>))
    ensures
        ins_models(r.0@) == instructions(bytes@),
        opt_text(r.1) == decode_error(bytes@),
{
    let mut out: Vec<Ins> = Vec::new();
    let mut i: usize = 0;
    assert(ins_models(out@) =~= Seq::empty());
    while i < bytes.len()
        invariant
            i <= bytes@.len(),
            ins_models(out@) + instructions_from(bytes@, i as int) =~= instructions(bytes@),
            out@.len() > 0 ==> out@.last()@.error is None,
        decreases bytes@.len() - i,
    {
        let ins = decode_one(bytes, i);
        let ghost before = out@;
        let len: usize = ins.len;
        let err: Option<String> = match &ins.error {
            Some(e) => Some(e.clone()),
            None => None,
        };
        proof {
            lemma_ins_fits(bytes@, i as int);
            assert(ins_models(before.push(ins)) =~= ins_models(before).push(ins@));
        }
        out.push(ins);
        if err.is_some() {
            assert(ins_models(out@) =~= instructions(bytes@));
            assert(ins_models(out@).last() == ins@);
            return (out, err);
        }
        i = i + len;
    }
    assert(ins_models(out@) =~= instructions(bytes@));
    assert(out@.len() > 0 ==> ins_models(out@).last() == out@.last()@);
    (out, None)
}

proof fn lemma_ins_fits(bytes: Seq<u8>, i: int)
    requires
        0 <= i < bytes.len(),
    ensures
        ins_at(bytes, i).len >= 1,
        i + ins_at(bytes, i).len <= bytes.len(),
{
}

fn bad_ins(offset: usize, op: u8, msg: &str) -> (r: Ins)
    ensures
        r@ == truncated(offset as int, op, msg@),
{
    Ins {
        offset,
        len: 1,
        opcode: op,
        data: None,
        text: op_name(op),
        minimal_push: false,
        error: Some(text(msg)),
    }
}

/// Would a minimal encoder have used this opcode for this payload?
pub fn is_minimal_push(op: u8, data: &[u8]) -> (r: bool)
    ensures
        r == (op == minimal_opcode(data@)),
{
    let n: usize = data.len();
    if n == 0 {
        return op == 0x00;
    }
    if n == 1 {
        if data[0] >= 1 && data[0] <= 16 {
            return op == 0x50 + data[0];
        }
        if data[0] == 0x81 {
            return op == 0x4f;
        }
    }
    if n <= 75 {
        return op as usize == n;
    }
    if n <= 255 {
        return op == 0x4c;
    }
    if n <= 65535 {
        return op == 0x4d;
    }
    op == 0x4e
}

/// The lines of a disassembly: one per instruction, and one for an error.
pub open spec fn listing_lines(bytes: Seq<u8>) -> Seq<Seq<char>> {
    let lines = instructions(bytes).map_values(|i: InsModel| i.text);
    match decode_error(bytes) {
        Some(e) => lines.push("<error: "@ + e + ">"@),
        None => lines,
    }
}

/// The views of a list of texts.
pub open spec fn texts(v: Seq<String>) -> Seq<Seq<char>> {
    v.map_values(|s: String| s@)
}

/// Append one text.
pub(crate) fn push_text(v: &mut Vec<String>, s: String)
    ensures
        texts(final(v)@) == texts(old(v)@).push(s@),
{
    v.push(s);
    assert(texts(v@) =~= texts(old(v)@).push(s@));
}

/// Disassemble to btcdeb-style text, one instruction per line.
pub fn disassemble(bytes: &[u8]) -> (r: Vec<String>)
    ensures
        texts(r@) == listing_lines(bytes@),
{
    let (ins, err) = decode_script(bytes);
    let ghost all = instructions(bytes@).map_values(|i: InsModel| i.text);
    let mut lines: Vec<String> = Vec::new();
    let mut k: usize = 0;
    while k < ins.len()
        invariant
            k <= ins@.len(),
            ins_models(ins@) == instructions(bytes@),
            all == instructions(bytes@).map_values(|i: InsModel| i.text),
            texts(lines@) =~= all.take(k as int),
        decreases ins@.len() - k,
    {
        let ghost before = lines@;
        lines.push(ins[k].text.clone());
        assert(texts(lines@) =~= texts(before).push(ins@[k as int].text@));
        assert(ins_models(ins@)[k as int] == ins@[k as int]@);
        k = k + 1;
    }
    assert(texts(lines@) =~= all);
    match err {
        Some(e) => {
            let ghost before = lines@;
            let line = text("<error: ").concat(e.as_str()).concat(">");
            lines.push(line);
            assert(texts(lines@) =~= texts(before).push(line@));
        },
        None => {},
    }
    lines
}

/// The instructions of a script follow each other without gaps from its first
/// byte; only the last one can be truncated, and when it is not, they cover
/// the whole script.
pub proof fn law_instructions_cover_the_script(bytes: Seq<u8>)
    ensures
        ({
            let ins = instructions(bytes);
            &&& bytes.len() > 0 <==> ins.len() > 0
            &&& ins.len() > 0 ==> ins[0].offset == 0
            &&& forall|k: int|
                0 <= k < ins.len() - 1 ==> (#[trigger] ins[k]).error is None && ins[k + 1].offset
                    == ins[k].offset + ins[k].len
            &&& forall|k: int| 0 <= k < ins.len() ==> (#[trigger] ins[k]).len >= 1
            &&& ins.len() > 0 && decode_error(bytes) is None ==> ins.last().offset + ins.last().len
                == bytes.len()
        }),
{
    lemma_cover_from(bytes, 0);
}

proof fn lemma_cover_from(bytes: Seq<u8>, i: int)
    requires
        0 <= i <= bytes.len(),
    ensures
        ({
            let ins = instructions_from(bytes, i);
            &&& i < bytes.len() <==> ins.len() > 0
            &&& ins.len() > 0 ==> ins[0].offset == i
            &&& forall|k: int|
                0 <= k < ins.len() - 1 ==> (#[trigger] ins[k]).error is None && ins[k + 1].offset
                    == ins[k].offset + ins[k].len
            &&& forall|k: int| 0 <= k < ins.len() ==> (#[trigger] ins[k]).len >= 1
            &&& forall|k: int|
                0 <= k < ins.len() ==> 0 <= (#[trigger] ins[k]).offset && ins[k].offset
                    + ins[k].len <= bytes.len()
            &&& ins.len() > 0 && ins.last().error is None ==> ins.last().offset + ins.last().len
                == bytes.len()
        }),
    decreases bytes.len() - i,
{
    if i < bytes.len() {
        let head = ins_at(bytes, i);
        lemma_ins_fits(bytes, i);
        if head.error is None {
            lemma_cover_from(bytes, i + head.len);
            let tail = instructions_from(bytes, i + head.len);
            let ins = instructions_from(bytes, i);
            assert(ins =~= seq![head] + tail);
            assert forall|k: int| 0 <= k < ins.len() implies (#[trigger] ins[k]).len >= 1 && 0
                <= ins[k].offset && ins[k].offset + ins[k].len <= bytes.len() by {
                if k > 0 {
                    assert(ins[k] == tail[k - 1]);
                }
            }
            assert forall|k: int| 0 <= k < ins.len() - 1 implies (#[trigger] ins[k]).error is None
                && ins[k + 1].offset == ins[k].offset + ins[k].len by {
                assert(ins[k + 1] == tail[k]);
                if k > 0 {
                    assert(ins[k] == tail[k - 1]);
                }
            }
        }
    }
}

/// Each instruction of a script is the one that starts at its offset.
pub proof fn lemma_instruction_at(bytes: Seq<u8>, k: int)
    requires
        0 <= k < instructions(bytes).len(),
    ensures
        0 <= instructions(bytes)[k].offset < bytes.len(),
        instructions(bytes)[k] == ins_at(bytes, instructions(bytes)[k].offset),
{
    lemma_instruction_at_from(bytes, 0, k);
}

proof fn lemma_instruction_at_from(bytes: Seq<u8>, i: int, k: int)
    requires
        0 <= i,
        0 <= k < instructions_from(bytes, i).len(),
    ensures
        ({
            let ins = instructions_from(bytes, i)[k];
            0 <= ins.offset < bytes.len() && ins == ins_at(bytes, ins.offset)
        }),
    decreases k,
{
    let head = ins_at(bytes, i);
    if k > 0 {
        lemma_instruction_at_from(bytes, i + head.len, k - 1);
    }
}

/// Every instruction lies inside its script.
pub proof fn lemma_instructions_inside(bytes: Seq<u8>)
    ensures
        forall|k: int|
            0 <= k < instructions(bytes).len() ==> 0 <= (#[trigger] instructions(bytes)[k]).offset
                && instructions(bytes)[k].offset + instructions(bytes)[k].len <= bytes.len(),
{
    lemma_cover_from(bytes, 0);
}

/// The opcode and length bytes in front of `n` bytes of pushed data.
pub open spec fn push_prefix(n: nat) -> Seq<u8> {
    if n < 0x4c {
        seq![n as u8]
    } else if n < 0x100 {
        seq![0x4cu8, n as u8]
    } else if n < 0x1_0000 {
        seq![0x4du8, (n % 256) as u8, (n / 256) as u8]
    } else {
        seq![
            0x4eu8,
            (n % 256) as u8,
            (n / 256 % 256) as u8,
            (n / 0x1_0000 % 256) as u8,
            (n / 0x100_0000) as u8,
        ]
    }
}

/// Data with the shortest length prefix in front of it.
pub open spec fn push_of(data: Seq<u8>) -> Seq<u8> {
    push_prefix(data.len()) + data
}

/// A push of this data, or why it cannot be pushed.
pub open spec fn checked_push(data: Seq<u8>) -> Result<Seq<u8>, Seq<char>> {
    if data.len() < 0x1_0000_0000 {
        Ok(push_of(data))
    } else {
        Err("cannot push "@ + dec(data.len() as int) + " bytes"@)
    }
}

/// The bytes of a push of `data`.
pub fn push_data(data: &[u8]) -> (r: Vec<u8>)
    requires
        data@.len() < 0x1_0000_0000,
    ensures
        r@ == push_of(data@),
{
    let n: usize = data.len();
    let mut out: Vec<u8> = Vec::new();
    if n < 0x4c {
        out.push(n as u8);
    } else if n < 0x100 {
        out.push(0x4c);
        out.push(n as u8);
    } else if n < 0x1_0000 {
        out.push(0x4d);
        out.push((n % 256) as u8);
        out.push((n / 256) as u8);
    } else {
        out.push(0x4e);
        out.push((n % 256) as u8);
        out.push((n / 256 % 256) as u8);
        out.push((n / 0x1_0000 % 256) as u8);
        out.push((n / 0x100_0000) as u8);
    }
    assert(out@ =~= push_prefix(data@.len()));
    out.extend_from_slice(data);
    assert(out@ =~= push_of(data@));
    out
}

/// A pushed payload decodes to one instruction that carries it, and covers the
/// whole push.
pub proof fn law_push_decodes_to_its_data(data: Seq<u8>)
    requires
        0 < data.len() < 0x1_0000_0000,
    ensures
        instructions(push_of(data)).len() == 1,
        decode_error(push_of(data)) is None,
        instructions(push_of(data))[0].data == Some(data),
        instructions(push_of(data))[0].len == push_of(data).len(),
        data.len() > 1 || data[0] > 16 && data[0] != 0x81 || data[0] == 0 ==> instructions(
            push_of(data),
        )[0].minimal_push,
{
    let n = data.len();
    let p = push_of(data);
    let h = push_header_len(p[0]);
    assert(p[0] == push_prefix(n)[0]);
    assert(h == push_prefix(n).len());
    if n >= 0x4c {
        lemma_push_prefix_value(n);
        assert(p.subrange(1, h) =~= push_prefix(n).skip(1));
    }
    assert(push_data_len(p, 0) == n);
    assert(p.subrange(h, h + n) =~= data);
    assert(ins_at(p, 0).data == Some(data));
    assert(instructions_from(p, h + n) =~= Seq::empty());
    assert(instructions(p) =~= seq![ins_at(p, 0)]);
}

proof fn lemma_push_prefix_value(n: nat)
    requires
        0x4c <= n < 0x1_0000_0000,
    ensures
        le_value(push_prefix(n).skip(1)) == n,
{
    let lb = push_prefix(n).skip(1);
    assert(le_value(Seq::<u8>::empty()) == 0);
    if n < 0x100 {
        assert(lb.drop_first() =~= Seq::<u8>::empty());
        assert(lb[0] == n);
    } else if n < 0x1_0000 {
        let l1 = lb.drop_first();
        assert(l1.drop_first() =~= Seq::<u8>::empty());
        assert(l1[0] == n / 256 && lb[0] == n % 256);
        assert(le_value(l1) == n / 256);
    } else {
        let l1 = lb.drop_first();
        let l2 = l1.drop_first();
        let l3 = l2.drop_first();
        assert(l3.drop_first() =~= Seq::<u8>::empty());
        assert(l3[0] == n / 0x100_0000);
        assert(l2[0] == n / 0x1_0000 % 256);
        assert(l1[0] == n / 256 % 256);
        assert(lb[0] == n % 256);
        assert(le_value(l3) == n / 0x100_0000);
        assert(le_value(l2) == n / 0x1_0000);
        assert(le_value(l1) == n / 256);
    }
}

/// Hexadecimal digits, an even number of them, behind an optional `0x`.
pub open spec fn hexish(t: Seq<char>) -> bool {
    let s = without_0x(t);
    &&& s.len() > 0
    &&& s.len() % 2 == 0
    &&& forall|i: int| 0 <= i < s.len() ==> hex_char(#[trigger] s[i])
}

/// A hexadecimal digit of either case.
pub open spec fn hex_char(c: char) -> bool {
    '0' <= c <= '9' || 'a' <= c <= 'f' || 'A' <= c <= 'F'
}

pub(crate) fn is_hexish(t: &str) -> (r: bool)
    ensures
        r == hexish(t@),
{
    let s = strip_0x(t);
    let chars = chars_of(s.as_str());
    if chars.len() == 0 || chars.len() % 2 != 0 {
        return false;
    }
    let mut i: usize = 0;
    while i < chars.len()
        invariant
            i <= chars@.len(),
            chars@ == without_0x(t@),
            forall|k: int| 0 <= k < i ==> hex_char(#[trigger] chars@[k]),
        decreases chars@.len() - i,
    {
        let c = chars[i];
        let ok = ('0' <= c && c <= '9') || ('a' <= c && c <= 'f') || ('A' <= c && c <= 'F');
        if !ok {
            assert(!hex_char(chars@[i as int]));
            return false;
        }
        i = i + 1;
    }
    true
}

/// A character that ends a token: white space, a comma or a bracket.
pub open spec fn separator(c: char) -> bool {
    c == '[' || c == ']' || c == '<' || c == '>' || c == ',' || is_white(c)
}

/// The token gathered so far, if there is any of it.
pub open spec fn pending(cur: Seq<char>) -> Seq<Seq<char>> {
    if cur.len() > 0 {
        seq![cur]
    } else {
        Seq::empty()
    }
}

/// The tokens of the text `s` when `cur` has been gathered, inside a quotation
/// if `quote` says so.
pub open spec fn tokens_after(cur: Seq<char>, quote: Option<char>, s: Seq<char>) -> Seq<Seq<char>>
    decreases s.len(),
{
    if s.len() == 0 {
        pending(cur)
    } else {
        let c = s[0];
        let rest = s.drop_first();
        match quote {
            Some(q) => tokens_after(
                cur.push(c),
                if c == q {
                    None
                } else {
                    quote
                },
                rest,
            ),
            None => if c == '\'' || c == '"' {
                tokens_after(cur.push(c), Some(c), rest)
            } else if separator(c) {
                pending(cur) + tokens_after(Seq::empty(), None, rest)
            } else {
                tokens_after(cur.push(c), None, rest)
            },
        }
    }
}

/// The tokens of a script text.
pub open spec fn tokens(s: Seq<char>) -> Seq<Seq<char>> {
    tokens_after(Seq::empty(), None, s)
}

/// Split on whitespace and commas, dropping the brackets btcdeb prints.
fn tokenize(input: &str) -> (r: Vec<String>)
    ensures
        texts(r@) == tokens(input@),
{
    let chars = chars_of(input);
    let mut out: Vec<String> = Vec::new();
    let mut cur = String::new();
    let mut cur_len: usize = 0;
    let mut quote: Option<char> = None;
    let mut i: usize = 0;
    assert(texts(out@) =~= Seq::empty());
    assert(chars@.skip(0) =~= chars@);
    assert(texts(out@) + tokens_after(cur@, quote, chars@.skip(0)) =~= tokens(input@));
    while i < chars.len()
        invariant
            i <= chars@.len(),
            chars@ == input@,
            cur@.len() == cur_len <= i,
            texts(out@) + tokens_after(cur@, quote, chars@.skip(i as int)) == tokens(input@),
        decreases chars@.len() - i,
    {
        let c = chars[i];
        assert(chars@.skip(i as int)[0] == c);
        assert(chars@.skip(i as int).drop_first() =~= chars@.skip(i + 1));
        let ghost before = out@;
        match quote {
            Some(q) => {
                cur.push(c);
                cur_len = cur_len + 1;
                if c == q {
                    quote = None;
                }
            },
            None => {
                if c == '\'' || c == '"' {
                    quote = Some(c);
                    cur.push(c);
                    cur_len = cur_len + 1;
                } else if c == '[' || c == ']' || c == '<' || c == '>' || c == ','
                    || is_whitespace(c) {
                    if cur_len > 0 {
                        let token = cur;
                        cur = String::new();
                        cur_len = 0;
                        out.push(token);
                        assert(texts(out@) =~= texts(before) + pending(token@));
                    }
                    assert(cur@ =~= Seq::empty());
                    assert(texts(before) + (pending(Seq::empty()) + tokens_after(
                        cur@,
                        quote,
                        chars@.skip(i + 1),
                    )) =~= texts(before) + tokens_after(cur@, quote, chars@.skip(i + 1)));
                    assert(texts(out@) + tokens_after(cur@, quote, chars@.skip(i + 1)) =~= tokens(
                        input@,
                    ));
                } else {
                    cur.push(c);
                    cur_len = cur_len + 1;
                }
            },
        }
        i = i + 1;
    }
    let ghost before = out@;
    if cur_len > 0 {
        out.push(cur);
        assert(texts(out@) =~= texts(before).push(cur@));
    }
    assert(texts(out@) =~= tokens(input@));
    out
}

/// A token in matching quotation marks.
pub open spec fn quoted(t: Seq<char>) -> bool {
    t.len() >= 2 && t[0] == t.last() && (t[0] == '\'' || t[0] == '"')
}

/// A token that can only be meant as an opcode: it starts with `OP_`, or is a
/// known name that reads neither as hex nor as a number.
pub open spec fn reads_as_opcode(t: Seq<char>) -> bool {
    ||| "OP_"@.is_prefix_of(upper(t))
    ||| named_opcode(canonical_name(t)) is Some && !hexish(t) && parsed_i64(t) is None
}

/// A number with a needless leading zero is read as hex.
pub open spec fn zero_led(t: Seq<char>) -> bool {
    t.len() > 1 && (t[0] == '0' || t[0] == '-' && t[1] == '0')
}

/// The push of a number: its own opcode where there is one.
pub open spec fn number_push(n: int) -> Seq<u8> {
    if n == -1 {
        seq![0x4fu8]
    } else if n == 0 {
        seq![0x00u8]
    } else if 1 <= n <= 16 {
        seq![(0x50 + n) as u8]
    } else {
        push_of(script_num(n))
    }
}

/// The bytes that one token assembles to.
pub open spec fn token_bytes(token: Seq<char>) -> Result<Seq<u8>, Seq<char>> {
    let t = trimmed(token);
    if t.len() == 0 {
        Ok(Seq::empty())
    } else if quoted(t) {
        checked_push(encode_utf8(t.subrange(1, t.len() - 1)))
    } else if reads_as_opcode(t) {
        match named_opcode(canonical_name(t)) {
            Some(code) => Ok(seq![code]),
            None => Err("unknown opcode: "@ + t),
        }
    } else if parsed_i64(t) is Some && !zero_led(t) {
        Ok(number_push(parsed_i64(t)->0))
    } else {
        let h = without_0x(t);
        if h.len() == 0 {
            Ok(Seq::empty())
        } else if encode_utf8(h).len() % 2 != 0 {
            Err("'"@ + t + "' is not an opcode, a number, or an even-length hex string"@)
        } else {
            match hex_parsed(h) {
                Ok(bytes) => checked_push(bytes),
                Err(_) => Err("'"@ + t + "' is not an opcode, a number, or valid hex"@),
            }
        }
    }
}

/// The bytes that a list of tokens assembles to, or the first token's error.
pub open spec fn assembled(ts: Seq<Seq<char>>) -> Result<Seq<u8>, Seq<char>>
    decreases ts.len(),
{
    if ts.len() == 0 {
        Ok(Seq::empty())
    } else {
        match assembled(ts.drop_last()) {
            Err(e) => Err(e),
            Ok(head) => match token_bytes(ts.last()) {
                Err(e) => Err(e),
                Ok(bytes) => Ok(head + bytes),
            },
        }
    }
}

fn push_bytes(data: &[u8]) -> (r: Result<Vec<u8>, String>)
    ensures
        bytes_or_message(r) == checked_push(data@),
{
    if data.len() as u64 >= 0x1_0000_0000 {
        return Err(text("cannot push ").concat(dec_usize(data.len()).as_str()).concat(" bytes"));
    }
    Ok(push_data(data))
}

/// Assemble one number.
fn push_number(n: i64) -> (r: Vec<u8>)
    ensures
        r@ == number_push(n as int),
{
    let mut out: Vec<u8> = Vec::new();
    if n == -1 {
        out.push(0x4f);
    } else if n == 0 {
        out.push(0x00);
    } else if 1 <= n && n <= 16 {
        out.push(0x50 + n as u8);
    } else {
        let bytes = encode(n);
        proof {
            reveal_with_fuel(pow256, 10);
            law_encoded_size(n as int, 9);
        }
        return push_data(bytes.as_slice());
    }
    assert(out@ =~= number_push(n as int));
    out
}

/// Assemble one token.
fn assemble_token(token: &str) -> (r: Result<Vec<u8>, String>)
    ensures
        bytes_or_message(r) == token_bytes(token@),
{
    let t = trim(token);
    let chars = chars_of(t.as_str());
    let n: usize = chars.len();
    if n == 0 {
        let none: Vec<u8> = Vec::new();
        assert(none@ =~= Seq::empty());
        return Ok(none);
    }
    if n >= 2 && chars[0] == chars[n - 1] && (chars[0] == '\'' || chars[0] == '"') {
        let inner = text_of(&chars, 1, n - 1);
        return push_bytes(inner.as_str().as_bytes());
    }
    let number = parse_i64(t.as_str());
    let code = op_code(t.as_str());
    let looks_like_op = starts_with(to_upper(t.as_str()).as_str(), "OP_") || (code.is_some()
        && !is_hexish(t.as_str()) && number.is_none());
    if looks_like_op {
        return match code {
            Some(c) => {
                let out: Vec<u8> = vec![c];
                assert(out@ =~= seq![c]);
                Ok(out)
            },
            None => Err(text("unknown opcode: ").concat(t.as_str())),
        };
    }
    let zero_led = n > 1 && (chars[0] == '0' || (chars[0] == '-' && chars[1] == '0'));
    match number {
        Some(v) => {
            if !zero_led {
                return Ok(push_number(v));
            }
        },
        None => {},
    }
    let h = strip_0x(t.as_str());
    let hex_chars = chars_of(h.as_str());
    if hex_chars.len() == 0 {
        let none: Vec<u8> = Vec::new();
        assert(none@ =~= Seq::empty());
        return Ok(none);
    }
    if h.as_str().as_bytes().len() % 2 != 0 {
        return Err(
            text("'").concat(t.as_str()).concat(
                "' is not an opcode, a number, or an even-length hex string",
            ),
        );
    }
    match hex_decode(h.as_str()) {
        Ok(bytes) => push_bytes(bytes.as_slice()),
        Err(_) => Err(
            text("'").concat(t.as_str()).concat("' is not an opcode, a number, or valid hex"),
        ),
    }
}

/// Assemble human-readable script into bytes — the `btcc` tool.
///
/// Accepts opcode names (`OP_DUP`, or bare `DUP`), hex payloads to push,
/// decimal numbers, and `'quoted strings'` pushed as UTF-8. Square and angle
/// brackets are ignored so pasted btcdeb snippets work as-is.
pub fn assemble(input: &str) -> (r: Result<Vec<u8>, String>)
    ensures
        bytes_or_message(r) == assembled(tokens(input@)),
{
    let ts = tokenize(input);
    let ghost all = tokens(input@);
    let mut out: Vec<u8> = Vec::new();
    let mut i: usize = 0;
    assert(out@ =~= Seq::<u8>::empty());
    assert(all.take(0) =~= Seq::empty());
    while i < ts.len()
        invariant
            i <= ts@.len(),
            all == tokens(input@),
            texts(ts@) == all,
            assembled(all.take(i as int)) == Ok::<Seq<u8>, Seq<char>>(out@),
        decreases ts@.len() - i,
    {
        proof {
            assert(all[i as int] == ts@[i as int]@);
            assert(all.take(i + 1).drop_last() =~= all.take(i as int));
            assert(all.take(i + 1).last() == all[i as int]);
        }
        match assemble_token(ts[i].as_str()) {
            Ok(bytes) => {
                let ghost before = out@;
                out.extend_from_slice(bytes.as_slice());
                assert(out@ =~= before + bytes@);
            },
            Err(e) => {
                proof {
                    lemma_first_error_stays(all, i + 1);
                }
                return Err(e);
            },
        }
        i = i + 1;
    }
    assert(all.take(all.len() as int) =~= all);
    Ok(out)
}

proof fn lemma_first_error_stays(ts: Seq<Seq<char>>, i: int)
    requires
        0 <= i <= ts.len(),
        assembled(ts.take(i)) is Err,
    ensures
        assembled(ts) == assembled(ts.take(i)),
    decreases ts.len() - i,
{
    if i < ts.len() {
        assert(ts.take(i + 1).drop_last() =~= ts.take(i));
        lemma_first_error_stays(ts, i + 1);
    } else {
        assert(ts.take(i) =~= ts);
    }
}

/// Text with a space in place of each bracket and comma.
pub open spec fn brackets_blanked(s: Seq<char>) -> Seq<char> {
    s.map_values(
        |c: char|
            if c == '[' || c == ']' || c == '<' || c == '>' || c == ',' {
                ' '
            } else {
                c
            },
    )
}

/// Outside quotations, brackets and commas count as spaces, so a pasted snippet
/// assembles the same with spaces in their place.
pub proof fn law_brackets_are_ignored(s: Seq<char>)
    requires
        forall|i: int| 0 <= i < s.len() ==> s[i] != '\'' && s[i] != '"',
    ensures
        tokens(brackets_blanked(s)) == tokens(s),
        assembled(tokens(brackets_blanked(s))) == assembled(tokens(s)),
{
    lemma_brackets_blanked(Seq::empty(), s);
}

proof fn lemma_brackets_blanked(cur: Seq<char>, s: Seq<char>)
    requires
        forall|i: int| 0 <= i < s.len() ==> s[i] != '\'' && s[i] != '"',
    ensures
        tokens_after(cur, None, brackets_blanked(s)) == tokens_after(cur, None, s),
    decreases s.len(),
{
    if s.len() > 0 {
        let rest = s.drop_first();
        assert(brackets_blanked(s).drop_first() =~= brackets_blanked(rest));
        assert(brackets_blanked(s)[0] == ' ' || brackets_blanked(s)[0] == s[0]);
        assert forall|i: int| 0 <= i < rest.len() implies rest[i] != '\'' && rest[i] != '"' by {
            assert(rest[i] == s[i + 1]);
        }
        lemma_brackets_blanked(Seq::empty(), rest);
        lemma_brackets_blanked(cur.push(s[0]), rest);
    }
}

pub proof fn lemma_single_token(cur: Seq<char>, s: Seq<char>)
    requires
        forall|i: int|
            0 <= i < s.len() ==> s[i] != '\'' && s[i] != '"' && !separator(#[trigger] s[i]),
    ensures
        tokens_after(cur, None, s) == pending(cur + s),
    decreases s.len(),
{
    if s.len() == 0 {
        assert(cur + s =~= cur);
    } else {
        let rest = s.drop_first();
        assert forall|i: int| 0 <= i < rest.len() implies rest[i] != '\'' && rest[i] != '"'
            && !separator(#[trigger] rest[i]) by {
            assert(rest[i] == s[i + 1]);
        }
        assert(!separator(s[0]));
        lemma_single_token(cur.push(s[0]), rest);
        assert(cur.push(s[0]) + rest =~= cur + s);
    }
}

/// A decimal number assembles to exactly one instruction, which is a minimal
/// push: the number's own opcode where there is one, and its bytes otherwise.
pub proof fn law_numbers_assemble_to_minimal_pushes(v: int)
    requires
        i64::MIN <= v <= i64::MAX,
    ensures
        token_bytes(dec(v)) == Ok::<Seq<u8>, Seq<char>>(number_push(v)),
        assembled(tokens(dec(v))) == Ok::<Seq<u8>, Seq<char>>(number_push(v)),
        ({
            let ins = instructions(number_push(v));
            &&& ins.len() == 1
            &&& decode_error(number_push(v)) is None
            &&& ins[0].len == number_push(v).len()
            &&& ins[0].minimal_push
            &&& !(-1 <= v <= 16) ==> ins[0].data == Some(script_num(v))
        }),
{
    let t = dec(v);
    lemma_dec_form(v);
    law_decimal_roundtrip(v);
    lemma_trimmed_already(t);
    reveal_strlit("OP_");
    assert(!"OP_"@.is_prefix_of(upper(t))) by {
        if "OP_"@.is_prefix_of(upper(t)) {
            assert("OP_"@[0] == 'O');
            assert(upper(t)[0] == "OP_"@[0]);
        }
    }
    assert(token_bytes(t) == Ok::<Seq<u8>, Seq<char>>(number_push(v)));
    lemma_single_token(Seq::empty(), t);
    assert(Seq::<char>::empty() + t =~= t);
    assert(tokens(t) == seq![t]);
    assert(seq![t].drop_last() =~= Seq::empty());
    assert(Seq::<u8>::empty() + number_push(v) =~= number_push(v));
    assert(assembled(Seq::empty()) == Ok::<Seq<u8>, Seq<char>>(Seq::empty()));
    lemma_number_push_is_minimal(v);
}

proof fn lemma_number_push_is_minimal(v: int)
    requires
        i64::MIN <= v <= i64::MAX,
    ensures
        ({
            let ins = instructions(number_push(v));
            &&& ins.len() == 1
            &&& decode_error(number_push(v)) is None
            &&& ins[0] == ins_at(number_push(v), 0)
            &&& ins[0].len == number_push(v).len()
            &&& ins[0].minimal_push
            &&& !(-1 <= v <= 16) ==> ins[0].data == Some(script_num(v))
        }),
{
    let p = number_push(v);
    if -1 <= v <= 16 {
        assert(instructions_from(p, 1) =~= Seq::empty());
        assert(instructions(p) =~= seq![ins_at(p, 0)]);
    } else {
        let data = script_num(v);
        reveal_with_fuel(pow256, 10);
        law_encoded_size(v, 9);
        law_encode_then_decode(v);
        if data.len() == 0 {
            assert(script_value(data) == 0);
        }
        if data.len() == 1 && (1 <= data[0] <= 16 || data[0] == 0x81) {
            lemma_one_byte_value(data);
        }
        law_push_decodes_to_its_data(data);
    }
}

} // verus!
