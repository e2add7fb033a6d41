//! The opcodes that compute with numbers, and the bit shifts.

use crate::num::{be_value, lemma_be_value_bound, lemma_be_value_concat, pow256, script_num};
use crate::opnames::{op_name, opcode_name};
use crate::ops::{done, fail, Run};
use crate::stack::{bool_item, message, popped, popped_number, Stack};
use crate::text::{dec, dec_i64, text};
use vstd::arithmetic::div_mod::{
    lemma_div_denominator, lemma_fundamental_div_mod, lemma_fundamental_div_mod_converse,
    lemma_mod_multiples_vanish, lemma_mul_mod_noop_left,
};
use vstd::arithmetic::power2::{lemma2_to64, lemma_pow2_adds, lemma_pow2_pos, pow2};
use vstd::prelude::*;
use vstd::string::StringExecFns;

verus! {

/// The magnitude of a number.
pub open spec fn magnitude(n: int) -> int {
    if n < 0 {
        -n
    } else {
        n
    }
}

/// Division that rounds towards zero.
pub open spec fn quotient(a: int, b: int) -> int {
    if (a < 0) == (b < 0) {
        magnitude(a) / magnitude(b)
    } else {
        -(magnitude(a) / magnitude(b))
    }
}

/// What `quotient` leaves over; it has the sign of `a`.
pub open spec fn remainder(a: int, b: int) -> int {
    if a < 0 {
        -(magnitude(a) % magnitude(b))
    } else {
        magnitude(a) % magnitude(b)
    }
}

/// 1 for true and 0 for false.
pub open spec fn bit(b: bool) -> int {
    if b {
        1
    } else {
        0
    }
}

/// What an opcode with one operand computes.
pub open spec fn unary_value(op: u8, n: int) -> int {
    if op == 0x8b {
        n + 1
    } else if op == 0x8c {
        n - 1
    } else if op == 0x8d {
        n * 2
    } else if op == 0x8e {
        quotient(n, 2)
    } else if op == 0x8f {
        -n
    } else if op == 0x90 {
        magnitude(n)
    } else if op == 0x91 {
        bit(n == 0)
    } else {
        bit(n != 0)
    }
}

/// The opcodes with one operand.
pub open spec fn unary_run(op: u8, st: Seq<Seq<u8>>, minimal: bool) -> Run {
    let (s, n) = popped_number(st, minimal);
    match n {
        Err(e) => fail(s, e),
        Ok(n) => done(s.push(script_num(unary_value(op, n)))),
    }
}

/// What an opcode with two operands computes.
pub open spec fn binary_value(op: u8, a: int, b: int) -> int {
    if op == 0x93 {
        a + b
    } else if op == 0x94 {
        a - b
    } else if op == 0x95 {
        a * b
    } else if op == 0x96 {
        quotient(a, b)
    } else if op == 0x97 {
        remainder(a, b)
    } else if op == 0x9a {
        bit(a != 0 && b != 0)
    } else if op == 0x9b {
        bit(a != 0 || b != 0)
    } else if op == 0x9c || op == 0x9d {
        bit(a == b)
    } else if op == 0x9e {
        bit(a != b)
    } else if op == 0x9f {
        bit(a < b)
    } else if op == 0xa0 {
        bit(a > b)
    } else if op == 0xa1 {
        bit(a <= b)
    } else if op == 0xa2 {
        bit(a >= b)
    } else if op == 0xa3 {
        if a < b {
            a
        } else {
            b
        }
    } else {
        if a < b {
            b
        } else {
            a
        }
    }
}

/// The stack once two numbers are taken off, and the lower and the upper one.
pub open spec fn popped_numbers(st: Seq<Seq<u8>>, minimal: bool) -> (Seq<Seq<u8>>, Result<
    (int, int),
    Seq<char>,
>) {
    let (s1, b) = popped_number(st, minimal);
    match b {
        Err(e) => (s1, Err(e)),
        Ok(b) => {
            let (s2, a) = popped_number(s1, minimal);
            match a {
                Err(e) => (s2, Err(e)),
                Ok(a) => (s2, Ok((a, b))),
            }
        },
    }
}

/// The opcodes with two operands.
pub open spec fn binary_run(op: u8, st: Seq<Seq<u8>>, minimal: bool) -> Run {
    let (s, p) = popped_numbers(st, minimal);
    match p {
        Err(e) => fail(s, e),
        Ok((a, b)) => if op == 0x96 && b == 0 {
            fail(s, "OP_DIV by zero"@)
        } else if op == 0x97 && b == 0 {
            fail(s, "OP_MOD by zero"@)
        } else if op == 0x9d {
            if a == b {
                done(s)
            } else {
                fail(s, "OP_NUMEQUALVERIFY failed: "@ + dec(a) + " != "@ + dec(b))
            }
        } else {
            done(s.push(script_num(binary_value(op, a, b))))
        },
    }
}

/// `OP_WITHIN`: whether a number lies in a range without its upper end.
pub open spec fn within_run(st: Seq<Seq<u8>>, minimal: bool) -> Run {
    let (s1, p) = popped_numbers(st, minimal);
    match p {
        Err(e) => fail(s1, e),
        Ok((min, max)) => {
            let (s2, x) = popped_number(s1, minimal);
            match x {
                Err(e) => fail(s2, e),
                Ok(x) => done(s2.push(bool_item(min <= x < max))),
            }
        },
    }
}

fn abs_u64(n: i64) -> (r: u64)
    requires
        -0x8000_0000 < n < 0x8000_0000,
    ensures
        r == magnitude(n as int),
{
    if n < 0 {
        (-n) as u64
    } else {
        n as u64
    }
}

fn divide(a: i64, b: i64) -> (r: i64)
    requires
        -0x8000_0000 < a < 0x8000_0000,
        -0x8000_0000 < b < 0x8000_0000,
        b != 0,
    ensures
        r == quotient(a as int, b as int),
{
    let x: u64 = abs_u64(a);
    let y: u64 = abs_u64(b);
    let q: u64 = x / y;
    assert(q <= x) by (nonlinear_arith)
        requires
            q == x / y,
            y >= 1,
    ;
    if (a < 0) == (b < 0) {
        q as i64
    } else {
        -(q as i64)
    }
}

fn modulo(a: i64, b: i64) -> (r: i64)
    requires
        -0x8000_0000 < a < 0x8000_0000,
        -0x8000_0000 < b < 0x8000_0000,
        b != 0,
    ensures
        r == remainder(a as int, b as int),
{
    let x: u64 = abs_u64(a);
    let y: u64 = abs_u64(b);
    let m: u64 = x % y;
    if a < 0 {
        -(m as i64)
    } else {
        m as i64
    }
}

fn as_bit(b: bool) -> (r: i64)
    ensures
        r == bit(b),
{
    if b {
        1
    } else {
        0
    }
}

/// Run one of the opcodes with one operand.
pub fn run_unary(op: u8, stack: &mut Stack, minimal: bool) -> (r: Result<(), String>)
    ensures
        ({
            let want = unary_run(op, old(stack)@, minimal);
            final(stack)@ == want.stack && message(r) == want.err
        }),
{
    let n: i64 = match stack.pop_num(minimal) {
        Ok(n) => n,
        Err(e) => {
            return Err(e);
        },
    };
    let res: i64 = if op == 0x8b {
        n + 1
    } else if op == 0x8c {
        n - 1
    } else if op == 0x8d {
        n * 2
    } else if op == 0x8e {
        divide(n, 2)
    } else if op == 0x8f {
        -n
    } else if op == 0x90 {
        abs_u64(n) as i64
    } else if op == 0x91 {
        as_bit(n == 0)
    } else {
        as_bit(n != 0)
    };
    stack.push_num(res);
    Ok(())
}

fn pop_nums(stack: &mut Stack, minimal: bool) -> (r: Result<(i64, i64), String>)
    ensures
        ({
            let (st, want) = popped_numbers(old(stack)@, minimal);
            &&& final(stack)@ == st
            &&& match r {
                Ok(p) => {
                    &&& want == Ok::<(int, int), Seq<char>>((p.0 as int, p.1 as int))
                    &&& -0x8000_0000 < p.0 < 0x8000_0000
                    &&& -0x8000_0000 < p.1 < 0x8000_0000
                },
                Err(e) => want == Err::<(int, int), Seq<char>>(e@),
            }
        }),
{
    let b: i64 = match stack.pop_num(minimal) {
        Ok(n) => n,
        Err(e) => {
            return Err(e);
        },
    };
    let a: i64 = match stack.pop_num(minimal) {
        Ok(n) => n,
        Err(e) => {
            return Err(e);
        },
    };
    Ok((a, b))
}

/// Compute one of the opcodes with two operands.
fn compute_binary(op: u8, a: i64, b: i64) -> (r: i64)
    requires
        -0x8000_0000 < a < 0x8000_0000,
        -0x8000_0000 < b < 0x8000_0000,
        op == 0x96 || op == 0x97 ==> b != 0,
    ensures
        r == binary_value(op, a as int, b as int),
{
    if op == 0x93 {
        a + b
    } else if op == 0x94 {
        a - b
    } else if op == 0x95 {
        assert(-0x4000_0000_0000_0000 < a * b < 0x4000_0000_0000_0000) by (nonlinear_arith)
            requires
                -0x8000_0000 < a < 0x8000_0000,
                -0x8000_0000 < b < 0x8000_0000,
        ;
        a * b
    } else if op == 0x96 {
        divide(a, b)
    } else if op == 0x97 {
        modulo(a, b)
    } else if op == 0x9a {
        as_bit(a != 0 && b != 0)
    } else if op == 0x9b {
        as_bit(a != 0 || b != 0)
    } else if op == 0x9c || op == 0x9d {
        as_bit(a == b)
    } else if op == 0x9e {
        as_bit(a != b)
    } else if op == 0x9f {
        as_bit(a < b)
    } else if op == 0xa0 {
        as_bit(a > b)
    } else if op == 0xa1 {
        as_bit(a <= b)
    } else if op == 0xa2 {
        as_bit(a >= b)
    } else if op == 0xa3 {
        if a < b {
            a
        } else {
            b
        }
    } else {
        if a < b {
            b
        } else {
            a
        }
    }
}

/// Run one of the opcodes with two operands.
pub fn run_binary(op: u8, stack: &mut Stack, minimal: bool) -> (r: Result<(), String>)
    ensures
        ({
            let want = binary_run(op, old(stack)@, minimal);
            final(stack)@ == want.stack && message(r) == want.err
        }),
{
    let (a, b): (i64, i64) = match pop_nums(stack, minimal) {
        Ok(p) => p,
        Err(e) => {
            return Err(e);
        },
    };
    if op == 0x96 && b == 0 {
        return Err(text("OP_DIV by zero"));
    }
    if op == 0x97 && b == 0 {
        return Err(text("OP_MOD by zero"));
    }
    if op == 0x9d {
        if a != b {
            return Err(
                text("OP_NUMEQUALVERIFY failed: ").concat(dec_i64(a).as_str()).concat(
                    " != ",
                ).concat(dec_i64(b).as_str()),
            );
        }
    } else {
        stack.push_num(compute_binary(op, a, b));
    }
    Ok(())
}

/// Run `OP_WITHIN`.
pub fn run_within(stack: &mut Stack, minimal: bool) -> (r: Result<(), String>)
    ensures
        ({
            let want = within_run(old(stack)@, minimal);
            final(stack)@ == want.stack && message(r) == want.err
        }),
{
    let (min, max): (i64, i64) = match pop_nums(stack, minimal) {
        Ok(p) => p,
        Err(e) => {
            return Err(e);
        },
    };
    let x: i64 = match stack.pop_num(minimal) {
        Ok(n) => n,
        Err(e) => {
            return Err(e);
        },
    };
    stack.push_bool(min <= x && x < max);
    Ok(())
}

/// A string shifted left by whole bytes, filled up with zeros.
pub open spec fn bytes_left(v: Seq<u8>, k: int) -> Seq<u8> {
    Seq::new(
        v.len(),
        |i: int|
            if i + k < v.len() {
                v[i + k]
            } else {
                0u8
            },
    )
}

/// A string shifted right by whole bytes, filled up with zeros.
pub open spec fn bytes_right(v: Seq<u8>, k: int) -> Seq<u8> {
    Seq::new(
        v.len(),
        |i: int|
            if i >= k {
                v[i - k]
            } else {
                0u8
            },
    )
}

/// A string shifted left by less than a byte: each byte gains the bits that its
/// successor loses.
pub open spec fn bits_left(v: Seq<u8>, bits: u8) -> Seq<u8> {
    if bits == 0 {
        v
    } else {
        Seq::new(
            v.len(),
            |i: int|
                (v[i] << bits) | (if i + 1 < v.len() {
                    v[i + 1] >> ((8 - bits) as u8)
                } else {
                    0u8
                }),
        )
    }
}

/// A string shifted right by less than a byte: each byte gains the bits that
/// its predecessor loses.
pub open spec fn bits_right(v: Seq<u8>, bits: u8) -> Seq<u8> {
    if bits == 0 {
        v
    } else {
        Seq::new(
            v.len(),
            |i: int|
                (v[i] >> bits) | (if i > 0 {
                    v[i - 1] << ((8 - bits) as u8)
                } else {
                    0u8
                }),
        )
    }
}

/// A string shifted by `n` bits: first by whole bytes, then by the rest. It
/// keeps its length.
pub open spec fn shifted(op: u8, v: Seq<u8>, n: int) -> Seq<u8> {
    if op == 0x98 {
        bits_left(bytes_left(v, n / 8), (n % 8) as u8)
    } else {
        bits_right(bytes_right(v, n / 8), (n % 8) as u8)
    }
}

/// `OP_LSHIFT` and `OP_RSHIFT`, on the raw byte string, whose first byte is the
/// most significant. Bits shifted past the ends are lost.
pub open spec fn shift_run(op: u8, st: Seq<Seq<u8>>, minimal: bool) -> Run {
    let (s1, n) = popped_number(st, minimal);
    match n {
        Err(e) => fail(s1, e),
        Ok(n) => {
            let (s2, v) = popped(s1);
            match v {
                Err(e) => fail(s2, e),
                Ok(v) => if n < 0 || n >= 8 * v.len() {
                    fail(s2, opcode_name(op) + " shift "@ + dec(n) + " out of range"@)
                } else {
                    done(s2.push(shifted(op, v, n)))
                },
            }
        },
    }
}

fn shift_left(v: &Vec<u8>, bytes: usize, bits: u8) -> (r: Vec<u8>)
    requires
        bytes <= v@.len(),
        bits < 8,
    ensures
        r@ == bits_left(bytes_left(v@, bytes as int), bits),
{
    let ghost w = bytes_left(v@, bytes as int);
    let mut out: Vec<u8> = Vec::new();
    let n: usize = v.len();
    let kept: usize = n - bytes;
    let mut i: usize = 0;
    while i < n
        invariant
            i <= n == v@.len(),
            kept == n - bytes,
            bytes <= n,
            bits < 8,
            w == bytes_left(v@, bytes as int),
            out@ =~= bits_left(w, bits).take(i as int),
        decreases n - i,
    {
        let b: u8 = if i < kept {
            v[i + bytes]
        } else {
            0
        };
        assert(b == w[i as int]);
        if bits == 0 {
            out.push(b);
        } else {
            let next: u8 = if i + 1 < kept {
                v[i + 1 + bytes]
            } else {
                0
            };
            assert(i + 1 < n ==> next == w[i + 1]);
            let carry: u8 = if i + 1 < n {
                next >> (8 - bits)
            } else {
                0
            };
            out.push((b << bits) | carry);
        }
        i = i + 1;
    }
    assert(out@ =~= bits_left(w, bits));
    out
}

fn shift_right(v: &Vec<u8>, bytes: usize, bits: u8) -> (r: Vec<u8>)
    requires
        bits < 8,
    ensures
        r@ == bits_right(bytes_right(v@, bytes as int), bits),
{
    let ghost w = bytes_right(v@, bytes as int);
    let mut out: Vec<u8> = Vec::new();
    let mut carry: u8 = 0;
    let mut i: usize = 0;
    while i < v.len()
        invariant
            i <= v@.len(),
            bits < 8,
            w == bytes_right(v@, bytes as int),
            out@ =~= bits_right(w, bits).take(i as int),
            bits > 0 ==> carry == if i > 0 {
                w[i - 1] << ((8 - bits) as u8)
            } else {
                0u8
            },
        decreases v@.len() - i,
    {
        let b: u8 = if i >= bytes {
            v[i - bytes]
        } else {
            0
        };
        assert(b == w[i as int]);
        if bits == 0 {
            out.push(b);
        } else {
            out.push((b >> bits) | carry);
            carry = b << (8 - bits);
        }
        i = i + 1;
    }
    assert(out@ =~= bits_right(w, bits));
    out
}

/// Run `OP_LSHIFT` or `OP_RSHIFT`.
pub fn run_shift(op: u8, stack: &mut Stack, minimal: bool) -> (r: Result<(), String>)
    ensures
        ({
            let want = shift_run(op, old(stack)@, minimal);
            final(stack)@ == want.stack && message(r) == want.err
        }),
{
    let n: i64 = match stack.pop_num(minimal) {
        Ok(n) => n,
        Err(e) => {
            return Err(e);
        },
    };
    let v = match stack.pop() {
        Ok(v) => v,
        Err(e) => {
            return Err(e);
        },
    };
    if n < 0 || n as u64 / 8 >= v.len() as u64 {
        assert(n < 0 || n >= 8 * v@.len());
        return Err(
            op_name(op).concat(" shift ").concat(dec_i64(n).as_str()).concat(" out of range"),
        );
    }
    let bytes: usize = (n as u64 / 8) as usize;
    let bits: u8 = (n as u64 % 8) as u8;
    let out = if op == 0x98 {
        shift_left(&v, bytes, bits)
    } else {
        shift_right(&v, bytes, bits)
    };
    stack.push(out);
    Ok(())
}

/// Shifting keeps the length of the string.
pub proof fn law_shift_keeps_length(op: u8, v: Seq<u8>, n: int)
    ensures
        shifted(op, v, n).len() == v.len(),
{
}

/// A division gives back its dividend, and leaves less over than the divisor.
pub proof fn law_division(a: int, b: int)
    requires
        b != 0,
    ensures
        quotient(a, b) * b + remainder(a, b) == a,
        magnitude(remainder(a, b)) < magnitude(b),
{
    let x = magnitude(a);
    let y = magnitude(b);
    assert(x == y * (x / y) + x % y && 0 <= x % y < y) by (nonlinear_arith)
        requires
            y > 0,
    ;
    let q = x / y;
    assert(q * y == y * q && (-q) * y == -(y * q) && q * (-y) == -(y * q) && (-q) * (-y) == y * q)
        by (nonlinear_arith);
}

/// Shifting left by `n` bits multiplies the big-endian value by `2^n`, modulo
/// what the string can hold; shifting right divides it.
pub proof fn law_shift_value(v: Seq<u8>, n: int)
    requires
        0 <= n < 8 * v.len(),
    ensures
        be_value(shifted(0x98, v, n)) == (be_value(v) * pow2(n as nat)) % pow256(v.len()),
        be_value(shifted(0x99, v, n)) == be_value(v) / pow2(n as nat),
{
    let k = n / 8;
    let bits = (n % 8) as u8;
    let m = pow256(v.len()) as int;
    let value = be_value(v) as int;
    let p = pow256(k as nat) as int;
    let q = pow2(bits as nat) as int;
    lemma_bytes_shift_value(v, k as nat);
    lemma_bits_left_value(bytes_left(v, k), bits);
    lemma_bits_right_value(bytes_right(v, k), bits);
    lemma_pow256_is_pow2(k as nat);
    lemma_pow256_is_pow2(v.len());
    lemma_pow2_adds(8 * k as nat, bits as nat);
    lemma_pow2_pos(8 * v.len());
    lemma_pow2_pos(8 * k as nat);
    lemma_pow2_pos(bits as nat);
    assert(8 * k + bits == n);
    assert(pow2(n as nat) == p * q);
    lemma_mul_mod_noop_left(value * p, q, m);
    assert((value * p) * q == value * (p * q)) by (nonlinear_arith);
    lemma_div_denominator(value, p, q);
}

proof fn lemma_pow256_is_pow2(k: nat)
    ensures
        pow256(k) == pow2(8 * k),
    decreases k,
{
    lemma2_to64();
    if k > 0 {
        lemma_pow256_is_pow2((k - 1) as nat);
        lemma_pow2_adds(8, (8 * (k - 1)) as nat);
    }
}

proof fn lemma_zeros_value(n: nat)
    ensures
        be_value(Seq::new(n, |i: int| 0u8)) == 0,
    decreases n,
{
    if n > 0 {
        lemma_zeros_value((n - 1) as nat);
        assert(Seq::new(n, |i: int| 0u8).drop_last() =~= Seq::new((n - 1) as nat, |i: int| 0u8));
    }
}

proof fn lemma_bytes_shift_value(v: Seq<u8>, k: nat)
    requires
        k <= v.len(),
    ensures
        be_value(bytes_left(v, k as int)) == (be_value(v) * pow256(k)) % pow256(v.len()),
        be_value(bytes_right(v, k as int)) == be_value(v) / pow256(k),
{
    let zeros = Seq::new(k, |i: int| 0u8);
    let r = (v.len() - k) as nat;
    let m = pow256(v.len()) as int;
    let p = pow256(k) as int;
    lemma_zeros_value(k);
    lemma_pow256_is_pow2(k);
    lemma_pow256_is_pow2(r);
    lemma_pow256_is_pow2(v.len());
    lemma_pow2_adds(8 * k, 8 * r);
    lemma_pow2_pos(8 * k);
    assert(m == p * pow256(r));

    let (top, low) = (v.take(k as int), v.skip(k as int));
    assert(bytes_left(v, k as int) =~= low + zeros);
    lemma_be_value_concat(low, zeros);
    assert(v =~= top + low);
    lemma_be_value_concat(top, low);
    lemma_be_value_bound(bytes_left(v, k as int));
    let (t, l, value) = (be_value(top) as int, be_value(low) as int, be_value(v) as int);
    assert(value * p == t * m + l * p) by (nonlinear_arith)
        requires
            value == t * pow256(r) + l,
            m == p * pow256(r),
    ;
    lemma_fundamental_div_mod_converse(value * p, m, t, l * p);

    let (head, tail) = (v.take(r as int), v.skip(r as int));
    assert(bytes_right(v, k as int) =~= zeros + head);
    lemma_be_value_concat(zeros, head);
    assert(v =~= head + tail);
    lemma_be_value_concat(head, tail);
    lemma_be_value_bound(tail);
    assert(tail.len() == k);
    lemma_fundamental_div_mod_converse(value, p, be_value(head) as int, be_value(tail) as int);
}

/// What a byte becomes when its bits move left and the top bits of another one
/// follow, and when they move right and the low bits of another one precede.
proof fn lemma_shifted_byte(x: u8, y: u8, bits: u8)
    requires
        0 < bits < 8,
    ensures
        ({
            let q = pow2(bits as nat) as int;
            let h = pow2((8 - bits) as nat) as int;
            &&& q * h == 256
            &&& (x << bits) | (y >> ((8 - bits) as u8)) == x * q % 256 + y * q / 256
            &&& (x >> bits) | (y << ((8 - bits) as u8)) == x as int / q + (y as int % q) * h
        }),
{
    lemma2_to64();
    let q = (1u16 << bits as u16) as u16;
    let c = (8 - bits) as u8;
    let h = (1u16 << c as u16) as u16;
    assert((1u16 << 1u16) == 2 && (1u16 << 2u16) == 4 && (1u16 << 3u16) == 8 && (1u16 << 4u16) == 16
        && (1u16 << 5u16) == 32 && (1u16 << 6u16) == 64 && (1u16 << 7u16) == 128) by (bit_vector);
    assert(bits == 1 || bits == 2 || bits == 3 || bits == 4 || bits == 5 || bits == 6 || bits == 7);
    assert(q == pow2(bits as nat) && h == pow2(c as nat));
    assert(q <= 128 && h <= 128);
    assert(((x << bits) | (y >> c)) as u16 == (((x as u16) * q) as u16 % 256u16 + ((y as u16)
        * q) as u16 / 256u16) as u16) by (bit_vector)
        requires
            0 < bits < 8,
            c == 8 - bits,
            q == (1u16 << bits as u16),
    ;
    assert(((x >> bits) | (y << c)) as u16 == ((x as u16) / q + (((y as u16) % q) * h) as u16)
        as u16) by (bit_vector)
        requires
            0 < bits < 8,
            c == 8 - bits,
            q == (1u16 << bits as u16),
            h == (1u16 << c as u16),
    ;
    assert(x * q <= 255 * 128 && y * q <= 255 * 128) by (nonlinear_arith)
        requires
            x <= 255,
            y <= 255,
            q <= 128,
    ;
    assert((y as int % q as int) * h <= 128 * 128) by (nonlinear_arith)
        requires
            0 <= y as int % q as int <= 128,
            0 <= h <= 128,
    ;
}

/// The value of a string shifted left when the byte `y` follows it, and what
/// leaves it at the top.
proof fn lemma_bits_left_before(v: Seq<u8>, y: u8, bits: u8)
    requires
        0 < bits < 8,
        v.len() > 0,
    ensures
        ({
            let q = pow2(bits as nat) as int;
            be_value(bits_left(v.push(y), bits).drop_last()) + (v[0] * q / 256) * pow256(v.len())
                == be_value(v) * q + y * q / 256
        }),
    decreases v.len(),
{
    let q = pow2(bits as nat) as int;
    let x = v.last();
    let head = v.drop_last();
    let r = bits_left(v.push(y), bits).drop_last();
    let top = v[0] * q / 256;
    lemma_shifted_byte(x, y, bits);
    assert(r.last() == x * q % 256 + y * q / 256);
    assert(head.push(x) =~= v);
    assert(r.drop_last() =~= bits_left(v, bits).drop_last());
    let xq = x * q;
    assert(xq == 256 * (xq / 256) + xq % 256);
    if head.len() > 0 {
        lemma_bits_left_before(head, x, bits);
        let p = pow256(head.len()) as int;
        let h = be_value(head) as int;
        let rest = be_value(r.drop_last()) as int;
        assert(pow256(v.len()) == 256 * p);
        assert(rest + top * p == h * q + xq / 256);
        assert(be_value(r) == 256 * rest + r.last());
        assert(be_value(v) == 256 * h + x);
        assert(256 * (top * p) == top * (256 * p)) by (nonlinear_arith);
        assert((256 * h + x) * q == 256 * (h * q) + xq) by (nonlinear_arith)
            requires
                xq == x * q,
        ;
        assert(be_value(v) * q == (256 * h + x) * q);
        assert(top * pow256(v.len()) == top * (256 * p));
    } else {
        assert(be_value(r.drop_last()) == 0);
        assert(be_value(head) == 0);
        assert(pow256(0) == 1 && pow256(1) == 256 * pow256(0));
        assert(v.len() == 1 && pow256(v.len()) == 256);
        assert(be_value(v) == x);
        assert(be_value(v) * q == xq);
        assert(be_value(r) == r.last());
        assert(v[0] == x && top == xq / 256);
        assert(top * pow256(v.len()) == top * 256);
    }
}

proof fn lemma_bits_left_value(v: Seq<u8>, bits: u8)
    requires
        bits < 8,
    ensures
        be_value(bits_left(v, bits)) == (be_value(v) * pow2(bits as nat)) % pow256(v.len()),
{
    let q = pow2(bits as nat) as int;
    let m = pow256(v.len()) as int;
    let value = be_value(v) as int;
    lemma2_to64();
    lemma_be_value_bound(v);
    lemma_be_value_bound(bits_left(v, bits));
    if bits == 0 || v.len() == 0 {
        assert(bits_left(v, bits) =~= v);
        if v.len() == 0 {
            assert(value * q == 0) by (nonlinear_arith)
                requires
                    value == 0,
            ;
        }
        lemma_fundamental_div_mod_converse(value, m, 0, value);
    } else {
        let c = (8 - bits) as u8;
        assert(0u8 >> c == 0) by (bit_vector)
            requires
                0 < c < 8,
        ;
        assert(bits_left(v.push(0), bits).drop_last() =~= bits_left(v, bits));
        lemma_bits_left_before(v, 0, bits);
        assert(0 * q / 256 == 0);
        lemma_fundamental_div_mod_converse(
            value * q,
            m,
            v[0] * q / 256,
            be_value(bits_left(v, bits)) as int,
        );
    }
}

proof fn lemma_bits_right_value(v: Seq<u8>, bits: u8)
    requires
        bits < 8,
    ensures
        be_value(bits_right(v, bits)) == be_value(v) / pow2(bits as nat),
    decreases v.len(),
{
    let q = pow2(bits as nat) as int;
    lemma2_to64();
    lemma_pow2_pos(bits as nat);
    if bits == 0 {
        assert(bits_right(v, bits) =~= v);
    } else if v.len() == 0 {
        assert(bits_right(v, bits) =~= v);
        lemma_fundamental_div_mod_converse(0, q, 0, 0);
    } else {
        let x = v.last();
        let head = v.drop_last();
        let r = bits_right(v, bits);
        let h = be_value(head) as int;
        let y: u8 = if head.len() > 0 {
            head.last()
        } else {
            0u8
        };
        let c = (8 - bits) as u8;
        assert(0u8 << c == 0) by (bit_vector)
            requires
                0 < c < 8,
        ;
        lemma_shifted_byte(x, y, bits);
        lemma_bits_right_value(head, bits);
        assert(r.drop_last() =~= bits_right(head, bits));
        let g = pow2((8 - bits) as nat) as int;
        assert(r.last() == x as int / q + (y as int % q) * g);
        // The low bits of the head are those of its last byte.
        assert(h % q == y as int % q) by {
            if head.len() > 0 {
                let t = be_value(head.drop_last()) as int;
                assert(h == (t * g) * q + y) by (nonlinear_arith)
                    requires
                        h == 256 * t + y,
                        q * g == 256,
                ;
                lemma_mod_multiples_vanish(t * g, y as int, q);
                assert(q * (t * g) == (t * g) * q) by (nonlinear_arith);
            }
        }
        let (d, e) = (h / q, h % q);
        let (f, z) = (x as int / q, x as int % q);
        lemma_fundamental_div_mod(h, q);
        lemma_fundamental_div_mod(x as int, q);
        assert(256 * h + x == (256 * d + e * g + f) * q + z) by (nonlinear_arith)
            requires
                h == q * d + e,
                x == q * f + z,
                q * g == 256,
        ;
        lemma_fundamental_div_mod_converse(256 * h + x, q, 256 * d + e * g + f, z);
        assert(be_value(r) == 256 * d + r.last());
        assert(be_value(v) == 256 * h + x);
    }
}

} // verus!
