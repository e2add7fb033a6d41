//! CScriptNum: the sign-magnitude little-endian integers script arithmetic uses.

use crate::text::{dec, dec_usize, text};
use vstd::prelude::*;
use vstd::string::StringExecFns;

verus! {

pub const MAX_NUM_SIZE: usize = 4;

#[derive(Debug)]
pub struct NumError(pub String);

/// The value of bytes read as an unsigned little-endian number.
pub open spec fn le_value(bytes: Seq<u8>) -> nat
    decreases bytes.len(),
{
    if bytes.len() == 0 {
        0
    } else {
        (bytes[0] + 256 * le_value(bytes.drop_first())) as nat
    }
}

/// The shortest little-endian bytes of a natural number.
pub open spec fn le_bytes(n: nat) -> Seq<u8>
    decreases n,
{
    if n == 0 {
        Seq::empty()
    } else {
        seq![(n % 256) as u8] + le_bytes(n / 256)
    }
}

/// The bytes with the sign bit, the top bit of the last byte, cleared.
pub open spec fn without_sign(bytes: Seq<u8>) -> Seq<u8> {
    if bytes.len() == 0 {
        bytes
    } else {
        bytes.update(bytes.len() - 1, (bytes.last() % 128) as u8)
    }
}

/// The number that a stack element stands for.
pub open spec fn script_value(bytes: Seq<u8>) -> int {
    if bytes.len() > 0 && bytes.last() >= 128 {
        -(le_value(without_sign(bytes)) as int)
    } else {
        le_value(without_sign(bytes)) as int
    }
}

/// Canonical encodings: the last byte carries more than a sign, unless the
/// byte below it needs its own top bit.
pub open spec fn is_minimal(bytes: Seq<u8>) -> bool {
    bytes.len() > 0 && bytes.last() % 128 == 0 ==> bytes.len() > 1 && bytes[bytes.len() - 2] >= 128
}

/// The canonical stack element of a number.
pub open spec fn script_num(v: int) -> Seq<u8> {
    let m = le_bytes(if v < 0 { (-v) as nat } else { v as nat });
    if v == 0 {
        Seq::empty()
    } else if m.last() >= 128 {
        m.push(if v < 0 { 0x80u8 } else { 0x00u8 })
    } else if v < 0 {
        m.update(m.len() - 1, (m.last() + 128) as u8)
    } else {
        m
    }
}

/// Truth as script sees it: some byte is non-zero, and not only the sign bit
/// of the last one.
pub open spec fn truthy(bytes: Seq<u8>) -> bool {
    exists|i: int|
        0 <= i < bytes.len() && #[trigger] bytes[i] != 0 && !(i == bytes.len() - 1 && bytes[i]
            == 0x80)
}

/// What reading a stack element as a number gives.
pub open spec fn decoded(bytes: Seq<u8>, require_minimal: bool, max_size: int) -> Result<
    int,
    Seq<char>,
> {
    if bytes.len() > max_size {
        Err(
            "script number overflow (got "@ + dec(bytes.len() as int) + " bytes, max "@ + dec(
                max_size,
            ) + ")"@,
        )
    } else if require_minimal && !is_minimal(bytes) {
        Err("non-minimally encoded script number"@)
    } else {
        Ok(script_value(bytes))
    }
}

/// `256` to the power `k`.
pub open spec fn pow256(k: nat) -> nat
    decreases k,
{
    if k == 0 {
        1
    } else {
        256 * pow256((k - 1) as nat)
    }
}

/// Decode a stack element as a number.
///
/// `max_size` is 4 for ordinary arithmetic and 5 for the locktime opcodes,
/// which need to represent times past 2038. `require_minimal` enforces
/// SCRIPT_VERIFY_MINIMALDATA's canonical encoding rule. The result is an
/// `i64`, so an element that is decoded at all has at most eight bytes.
pub fn decode(bytes: &[u8], require_minimal: bool, max_size: usize) -> (r: Result<i64, NumError>)
    requires
        bytes@.len() <= 8 || bytes@.len() > max_size || (require_minimal && !is_minimal(bytes@)),
    ensures
        match r {
            Ok(v) => decoded(bytes@, require_minimal, max_size as int) == Ok::<int, Seq<char>>(
                v as int,
            ),
            Err(e) => decoded(bytes@, require_minimal, max_size as int) == Err::<int, Seq<char>>(
                e.0@,
            ),
        },
{
    let n: usize = bytes.len();
    if n > max_size {
        return Err(
            NumError(
                text("script number overflow (got ").concat(dec_usize(n).as_str()).concat(
                    " bytes, max ",
                ).concat(dec_usize(max_size).as_str()).concat(")"),
            ),
        );
    }
    if require_minimal && n > 0 && bytes[n - 1] % 128 == 0 && (n <= 1 || bytes[n - 2] < 128) {
        return Err(NumError(text("non-minimally encoded script number")));
    }
    if n == 0 {
        return Ok(0);
    }
    let ghost plain = without_sign(bytes@);
    let mut acc: u64 = (bytes[n - 1] % 128) as u64;
    let mut i: usize = n - 1;
    assert(plain.skip(n - 1).drop_first() =~= Seq::<u8>::empty());
    assert(le_value(plain.skip(n - 1)) == acc) by {
        reveal_with_fuel(le_value, 2);
    }
    while i > 0
        invariant
            i < n <= 8,
            n == bytes@.len(),
            plain == without_sign(bytes@),
            acc == le_value(plain.skip(i as int)),
            acc < 128 * pow256((n - 1 - i) as nat),
        decreases i,
    {
        proof {
            reveal_with_fuel(pow256, 8);
            assert(plain.skip(i - 1).drop_first() =~= plain.skip(i as int));
        }
        i = i - 1;
        acc = acc * 256 + bytes[i] as u64;
    }
    assert(plain.skip(0) =~= plain);
    proof {
        reveal_with_fuel(pow256, 8);
    }
    if bytes[n - 1] >= 128 {
        Ok(-(acc as i64))
    } else {
        Ok(acc as i64)
    }
}

/// Encode a number back into its canonical stack representation.
pub fn encode(value: i64) -> (r: Vec<u8>)
    ensures
        r@ == script_num(value as int),
{
    if value < 0 {
        encode_signed((-(value + 1)) as u64 + 1, true)
    } else {
        encode_signed(value as u64, false)
    }
}

/// Encode a length.
pub(crate) fn encode_len(n: usize) -> (r: Vec<u8>)
    ensures
        r@ == script_num(n as int),
{
    encode_signed(n as u64, false)
}

fn encode_signed(magnitude: u64, neg: bool) -> (r: Vec<u8>)
    requires
        neg ==> magnitude > 0,
    ensures
        r@ == script_num(
            if neg {
                -(magnitude as int)
            } else {
                magnitude as int
            },
        ),
{
    if magnitude == 0 {
        return Vec::new();
    }
    let mut result: Vec<u8> = Vec::new();
    let mut abs: u64 = magnitude;
    while abs > 0
        invariant
            result@ + le_bytes(abs as nat) =~= le_bytes(magnitude as nat),
        decreases abs,
    {
        assert(abs % 256 == abs as nat % 256);
        let ghost before = result@;
        result.push((abs % 256) as u8);
        assert(result@ + le_bytes((abs / 256) as nat) =~= before + le_bytes(abs as nat));
        abs = abs / 256;
    }
    assert(result@ =~= le_bytes(magnitude as nat));
    let last: usize = result.len() - 1;
    if result[last] >= 128 {
        result.push(if neg { 0x80 } else { 0x00 });
    } else if neg {
        let top: u8 = result[last] + 128;
        result[last] = top;
    }
    result
}

/// Script's notion of truthiness: any non-zero byte, where a lone sign bit in
/// the top byte still counts as zero (negative zero is false).
pub fn cast_to_bool(bytes: &[u8]) -> (r: bool)
    ensures
        r == truthy(bytes@),
{
    let mut i: usize = 0;
    while i < bytes.len()
        invariant
            i <= bytes@.len(),
            forall|j: int| 0 <= j < i ==> bytes@[j] == 0,
        decreases bytes@.len() - i,
    {
        if bytes[i] != 0 {
            return !(i == bytes.len() - 1 && bytes[i] == 0x80);
        }
        i = i + 1;
    }
    false
}

proof fn lemma_le_value_zero(bytes: Seq<u8>)
    ensures
        le_value(bytes) == 0 <==> (forall|i: int| 0 <= i < bytes.len() ==> bytes[i] == 0),
    decreases bytes.len(),
{
    if bytes.len() > 0 {
        let tail = bytes.drop_first();
        lemma_le_value_zero(tail);
        if le_value(bytes) == 0 {
            assert forall|i: int| 0 <= i < bytes.len() implies bytes[i] == 0 by {
                if i > 0 {
                    assert(bytes[i] == tail[i - 1]);
                }
            }
        }
        if forall|i: int| 0 <= i < bytes.len() ==> bytes[i] == 0 {
            assert forall|i: int| 0 <= i < tail.len() implies tail[i] == 0 by {
                assert(tail[i] == bytes[i + 1]);
            }
        }
    }
}

proof fn lemma_le_bytes(n: nat)
    ensures
        le_value(le_bytes(n)) == n,
        n > 0 ==> le_bytes(n).len() > 0 && le_bytes(n).last() != 0,
    decreases n,
{
    if n > 0 {
        lemma_le_bytes(n / 256);
        assert(le_bytes(n).drop_first() =~= le_bytes(n / 256));
        if n / 256 == 0 {
            assert(le_bytes(n / 256) =~= Seq::empty());
        }
    }
}

proof fn lemma_le_bytes_of_value(bytes: Seq<u8>)
    requires
        bytes.len() > 0 ==> bytes.last() != 0,
    ensures
        le_bytes(le_value(bytes)) == bytes,
    decreases bytes.len(),
{
    if bytes.len() > 0 {
        let tail = bytes.drop_first();
        lemma_le_bytes_of_value(tail);
        let v = le_value(bytes);
        assert(v > 0) by {
            lemma_le_value_zero(bytes);
            assert(bytes[bytes.len() - 1] != 0);
        }
        assert(v % 256 == bytes[0] && v / 256 == le_value(tail));
        assert(seq![bytes[0]] + tail =~= bytes);
    }
}

proof fn lemma_le_value_push(bytes: Seq<u8>, b: u8)
    ensures
        le_value(bytes.push(b)) == le_value(bytes) + b * pow256(bytes.len()),
    decreases bytes.len(),
{
    if bytes.len() > 0 {
        lemma_le_value_push(bytes.drop_first(), b);
        assert(bytes.push(b).drop_first() =~= bytes.drop_first().push(b));
        let p = pow256((bytes.len() - 1) as nat);
        let rest = le_value(bytes.drop_first());
        assert(256 * (rest + b * p) == 256 * rest + b * (256 * p)) by (nonlinear_arith);
    } else {
        assert(bytes.push(b).drop_first() =~= Seq::<u8>::empty());
        reveal_with_fuel(le_value, 2);
        assert(b * pow256(0) == b) by (nonlinear_arith)
            requires
                pow256(0) == 1,
        ;
    }
}

/// Reading back what was written gives the number again, for every number,
/// and what was written is canonical.
pub proof fn law_encode_then_decode(v: int)
    ensures
        script_value(script_num(v)) == v,
        is_minimal(script_num(v)),
{
    if v != 0 {
        let a = if v < 0 { (-v) as nat } else { v as nat };
        let m = le_bytes(a);
        lemma_le_bytes(a);
        let e = script_num(v);
        if m.last() >= 128 {
            assert(without_sign(e) =~= m.push(0u8));
            lemma_le_value_push(m, 0u8);
        } else {
            assert(without_sign(e) =~= m);
        }
    }
}

/// A canonical element is the one that its own number encodes to: each number
/// has exactly one canonical encoding.
pub proof fn law_decode_then_encode(bytes: Seq<u8>)
    requires
        is_minimal(bytes),
    ensures
        script_num(script_value(bytes)) == bytes,
{
    if bytes.len() > 0 {
        let n = bytes.len() as int;
        let plain = without_sign(bytes);
        let body = plain.drop_last();
        if plain.last() == 0 {
            assert(body.last() == bytes[n - 2]);
            lemma_le_bytes_of_value(body);
            assert(body.push(0u8) =~= plain);
            lemma_le_value_push(body, 0u8);
            lemma_le_value_zero(body);
            assert(body[n - 2] != 0);
            assert(bytes.last() == 0 || bytes.last() == 0x80);
            assert(script_num(script_value(bytes)) =~= bytes);
        } else {
            lemma_le_bytes_of_value(plain);
            lemma_le_value_zero(plain);
            assert(plain[n - 1] != 0);
            assert(script_num(script_value(bytes)) =~= bytes);
        }
    }
}

/// An element is true exactly when the number it stands for is not zero.
pub proof fn law_truth_is_nonzero(bytes: Seq<u8>)
    ensures
        truthy(bytes) <==> script_value(bytes) != 0,
{
    let plain = without_sign(bytes);
    lemma_le_value_zero(plain);
    if truthy(bytes) {
        let i = choose|i: int|
            0 <= i < bytes.len() && #[trigger] bytes[i] != 0 && !(i == bytes.len() - 1 && bytes[i]
                == 0x80);
        assert(plain[i] != 0);
    }
    if script_value(bytes) != 0 {
        let i = choose|i: int| 0 <= i < plain.len() && plain[i] != 0;
        assert(bytes[i] != 0);
    }
}

proof fn lemma_le_bytes_len(n: nat, k: nat)
    requires
        n < pow256(k),
    ensures
        le_bytes(n).len() <= k,
    decreases k,
{
    if k > 0 && n > 0 {
        lemma_le_bytes_len(n / 256, (k - 1) as nat);
    }
}

proof fn lemma_le_bytes_top(n: nat, k: nat)
    requires
        n < 128 * pow256(k),
        le_bytes(n).len() == k + 1,
    ensures
        le_bytes(n).last() < 128,
    decreases k,
{
    if k == 0 {
        assert(le_bytes(n / 256) =~= Seq::empty());
    } else {
        lemma_le_bytes_top(n / 256, (k - 1) as nat);
    }
}

/// A number below half of `256^k` in magnitude fits in `k` bytes.
pub proof fn law_encoded_size(v: int, k: nat)
    requires
        k > 0,
        -(128 * pow256((k - 1) as nat)) < v < 128 * pow256((k - 1) as nat),
    ensures
        script_num(v).len() <= k,
{
    if v != 0 {
        let a = if v < 0 { (-v) as nat } else { v as nat };
        lemma_le_bytes_len(a, k);
        if le_bytes(a).len() == k {
            lemma_le_bytes_top(a, (k - 1) as nat);
        }
    }
}

/// An element of at most four bytes stands for a number of less than 2^31 in
/// magnitude, one of at most five bytes for less than 2^39.
pub proof fn law_decoded_range(bytes: Seq<u8>)
    ensures
        bytes.len() <= 4 ==> -0x8000_0000 < script_value(bytes) < 0x8000_0000,
        bytes.len() <= 5 ==> -0x80_0000_0000 < script_value(bytes) < 0x80_0000_0000,
        bytes.len() <= 8 ==> -0x8000_0000_0000_0000 < script_value(bytes) < 0x8000_0000_0000_0000,
{
    if bytes.len() > 0 {
        let plain = without_sign(bytes);
        let body = plain.drop_last();
        assert(body.push(plain.last()) =~= plain);
        lemma_le_value_push(body, plain.last());
        lemma_le_value_bound(body);
        reveal_with_fuel(pow256, 8);
        let p = pow256(body.len());
        assert(plain.last() * p <= 127 * p) by (nonlinear_arith)
            requires
                plain.last() <= 127,
                p >= 0,
        ;
        lemma_pow256_mono(body.len(), 7);
        if bytes.len() <= 4 {
            lemma_pow256_mono(body.len(), 3);
        }
        if bytes.len() <= 5 {
            lemma_pow256_mono(body.len(), 4);
        }
    }
}

proof fn lemma_pow256_mono(a: nat, b: nat)
    ensures
        a <= b ==> pow256(a) <= pow256(b),
    decreases b,
{
    if a < b {
        lemma_pow256_mono(a, (b - 1) as nat);
    }
}

proof fn lemma_le_value_bound(bytes: Seq<u8>)
    ensures
        le_value(bytes) < pow256(bytes.len()),
    decreases bytes.len(),
{
    if bytes.len() > 0 {
        lemma_le_value_bound(bytes.drop_first());
    }
}

/// The value of big-endian bytes.
pub open spec fn be_value(bytes: Seq<u8>) -> nat
    decreases bytes.len(),
{
    if bytes.len() == 0 {
        0
    } else {
        256 * be_value(bytes.drop_last()) + bytes.last() as nat
    }
}

/// The low `len` bytes of a number, big-endian.
pub open spec fn be_bytes(n: nat, len: nat) -> Seq<u8>
    decreases len,
{
    if len == 0 {
        Seq::empty()
    } else {
        be_bytes(n / 256, (len - 1) as nat).push((n % 256) as u8)
    }
}

pub proof fn lemma_be_value_injective(a: Seq<u8>, b: Seq<u8>)
    requires
        a.len() == b.len(),
        be_value(a) == be_value(b),
    ensures
        a == b,
    decreases a.len(),
{
    if a.len() > 0 {
        assert(a.last() == be_value(a) % 256 && b.last() == be_value(b) % 256);
        lemma_be_value_injective(a.drop_last(), b.drop_last());
        assert(a =~= a.drop_last().push(a.last()));
        assert(b =~= b.drop_last().push(b.last()));
    }
    assert(a =~= b);
}

pub proof fn lemma_be_value_bound(bytes: Seq<u8>)
    ensures
        be_value(bytes) < pow256(bytes.len()),
    decreases bytes.len(),
{
    if bytes.len() > 0 {
        lemma_be_value_bound(bytes.drop_last());
    }
}

pub proof fn lemma_be_bytes(n: nat, len: nat)
    requires
        n < pow256(len),
    ensures
        be_bytes(n, len).len() == len,
        be_value(be_bytes(n, len)) == n,
    decreases len,
{
    if len > 0 {
        lemma_be_bytes(n / 256, (len - 1) as nat);
        let head = be_bytes(n / 256, (len - 1) as nat);
        assert(be_bytes(n, len).drop_last() =~= head);
    }
}

pub proof fn lemma_be_value_concat(a: Seq<u8>, b: Seq<u8>)
    ensures
        be_value(a + b) == be_value(a) * pow256(b.len()) + be_value(b),
    decreases b.len(),
{
    if b.len() == 0 {
        assert(a + b =~= a);
        assert(pow256(0) == 1);
    } else {
        let t = b.drop_last();
        assert((a + b).last() == b.last());
        assert(pow256(b.len()) == 256 * pow256(t.len()));
        assert((a + b).drop_last() =~= a + t);
        lemma_be_value_concat(a, t);
        let v = be_value(a) as int;
        let p = pow256(t.len()) as int;
        assert(256 * (v * p) == v * (256 * p)) by (nonlinear_arith);
    }
}

/// A single byte is a number with a sign bit.
pub proof fn lemma_one_byte_value(bytes: Seq<u8>)
    requires
        bytes.len() == 1,
    ensures
        script_value(bytes) == if bytes[0] < 128 {
            bytes[0] as int
        } else {
            128 - bytes[0]
        },
{
    reveal_with_fuel(le_value, 2);
    assert(without_sign(bytes).drop_first() =~= Seq::empty());
}

/// Bytes are minimal exactly if they are what their own value encodes to.
pub proof fn law_minimal_is_canonical(bytes: Seq<u8>)
    ensures
        is_minimal(bytes) <==> script_num(script_value(bytes)) == bytes,
{
    law_encode_then_decode(script_value(bytes));
    if is_minimal(bytes) {
        law_decode_then_encode(bytes);
    }
}

/// A stack element reads as a number exactly if it is not too long and, where
/// that is required, minimal. What a number encodes to reads as that number
/// wherever it fits.
pub proof fn law_reading_numbers(bytes: Seq<u8>, v: int, require_minimal: bool, max_size: int)
    ensures
        decoded(bytes, require_minimal, max_size) is Ok <==> bytes.len() <= max_size && (
        !require_minimal || is_minimal(bytes)),
        script_num(v).len() <= max_size ==> decoded(script_num(v), require_minimal, max_size)
            == Ok::<int, Seq<char>>(v),
{
    law_encode_then_decode(v);
}

/// Bytes of padding under the sign bit do not change a number: a zero byte on
/// top keeps it, and a lone sign bit on top turns it around.
pub proof fn law_padding(bytes: Seq<u8>)
    requires
        bytes.len() == 0 || bytes.last() < 128,
    ensures
        script_value(bytes.push(0)) == script_value(bytes),
        script_value(bytes.push(0x80)) == -script_value(bytes),
{
    lemma_le_value_push(bytes, 0);
    assert(without_sign(bytes.push(0)) =~= bytes.push(0));
    assert(without_sign(bytes.push(0x80)) =~= bytes.push(0));
    if bytes.len() > 0 {
        assert(without_sign(bytes) =~= bytes);
    }
    assert(0 * pow256(bytes.len()) == 0);
}

} // verus!
