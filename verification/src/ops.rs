//! The opcodes that only read and change the stack.
//!
//! Each group of opcodes has a specification from the stack before to the stack
//! after and the error, if there is one. An opcode that fails keeps what it had
//! already taken off the stack.

use crate::hexcodec::hex_encode;
use crate::num::{cast_to_bool, script_num, truthy};
use crate::opnames::{op_name, opcode_name};
use crate::spend::same_bytes;
use crate::stack::{bool_item, message, popped, popped_number, underflow, Stack};
use crate::text::{dec, dec_i64, dec_usize, hex_text, text};
use vstd::prelude::*;
use vstd::slice::{slice_subrange, slice_to_vec};
use vstd::string::StringExecFns;

verus! {

/// A stack, and why the opcode that left it failed, if it did.
#[verifier::ext_equal]
pub struct Run {
    pub stack: Seq<Seq<u8>>,
    pub err: Option<Seq<char>>,
}

/// An opcode that succeeded.
pub open spec fn done(stack: Seq<Seq<u8>>) -> Run {
    Run { stack, err: None }
}

/// An opcode that failed.
pub open spec fn fail(stack: Seq<Seq<u8>>, msg: Seq<char>) -> Run {
    Run { stack, err: Some(msg) }
}

/// `result`, if the stack holds at least `n` elements.
pub open spec fn needing(st: Seq<Seq<u8>>, n: nat, result: Seq<Seq<u8>>) -> Run {
    if st.len() < n {
        fail(st, underflow())
    } else {
        done(result)
    }
}

/// The element `k` places below the top.
pub open spec fn from_top(st: Seq<Seq<u8>>, k: int) -> Seq<u8> {
    st[st.len() - 1 - k]
}

/// `OP_PICK` and `OP_ROLL`: copy or move the element that a number names.
pub open spec fn pick_roll(op: u8, st: Seq<Seq<u8>>, minimal: bool) -> Run {
    let (s, n) = popped_number(st, minimal);
    match n {
        Err(e) => fail(s, e),
        Ok(n) => if 0 <= n < s.len() {
            let v = from_top(s, n);
            if op == 0x79 {
                done(s.push(v))
            } else {
                done(s.remove(s.len() - 1 - n).push(v))
            }
        } else {
            fail(s, opcode_name(op) + " index "@ + dec(n) + " out of range"@)
        },
    }
}

/// The opcodes that copy elements to the top, `OP_DEPTH` and `OP_SIZE`.
pub open spec fn copy_run(op: u8, st: Seq<Seq<u8>>) -> Run {
    let n = st.len() as int;
    if op == 0x6e {
        // OP_2DUP
        needing(st, 2, st + st.skip(n - 2))
    } else if op == 0x6f {
        // OP_3DUP
        needing(st, 3, st + st.skip(n - 3))
    } else if op == 0x70 {
        // OP_2OVER
        needing(st, 4, st + st.subrange(n - 4, n - 2))
    } else if op == 0x73 {
        // OP_IFDUP
        needing(
            st,
            1,
            if truthy(st.last()) {
                st.push(st.last())
            } else {
                st
            },
        )
    } else if op == 0x74 {
        // OP_DEPTH
        done(st.push(script_num(n)))
    } else if op == 0x76 {
        // OP_DUP
        needing(st, 1, st.push(st.last()))
    } else if op == 0x78 {
        // OP_OVER
        needing(st, 2, st.push(from_top(st, 1)))
    } else {
        // OP_SIZE
        needing(st, 1, st.push(script_num(st.last().len() as int)))
    }
}

/// The opcodes that reorder elements.
pub open spec fn move_run(op: u8, st: Seq<Seq<u8>>) -> Run {
    let n = st.len() as int;
    if op == 0x71 {
        // OP_2ROT
        needing(st, 6, st.take(n - 6) + st.skip(n - 4) + st.subrange(n - 6, n - 4))
    } else if op == 0x72 {
        // OP_2SWAP
        needing(st, 4, st.take(n - 4) + st.skip(n - 2) + st.subrange(n - 4, n - 2))
    } else if op == 0x77 {
        // OP_NIP
        needing(st, 2, st.take(n - 2).push(st.last()))
    } else if op == 0x7b {
        // OP_ROT
        needing(st, 3, st.take(n - 3) + st.skip(n - 2) + seq![from_top(st, 2)])
    } else if op == 0x7c {
        // OP_SWAP
        needing(st, 2, st.take(n - 2) + seq![from_top(st, 0), from_top(st, 1)])
    } else {
        // OP_TUCK
        needing(
            st,
            2,
            st.take(n - 2) + seq![from_top(st, 0), from_top(st, 1), from_top(st, 0)],
        )
    }
}

/// `OP_DROP`, `OP_2DROP` and `OP_VERIFY`.
pub open spec fn drop_run(op: u8, st: Seq<Seq<u8>>) -> Run {
    let n = st.len() as int;
    if op == 0x6d {
        // OP_2DROP
        if n < 2 {
            fail(Seq::empty(), underflow())
        } else {
            done(st.take(n - 2))
        }
    } else if op == 0x75 {
        // OP_DROP
        needing(st, 1, st.drop_last())
    } else if n == 0 {
        fail(st, underflow())
    } else if truthy(st.last()) {
        done(st.drop_last())
    } else {
        fail(st.drop_last(), "OP_VERIFY failed: top of stack was false"@)
    }
}

fn underflow_error() -> (r: Result<(), String>)
    ensures
        message(r) == Some(underflow()),
{
    Err(text("stack underflow"))
}

/// Move the element at a position to the top.
fn raise(stack: &mut Stack, i: usize)
    requires
        i < old(stack)@.len(),
    ensures
        final(stack)@ == old(stack)@.remove(i as int).push(old(stack)@[i as int]),
{
    let v = stack.remove(i);
    stack.push(v);
}

/// Copy the element at a position to the top.
fn copy_up(stack: &mut Stack, i: usize)
    requires
        i < old(stack)@.len(),
    ensures
        final(stack)@ == old(stack)@.push(old(stack)@[i as int]),
{
    let v = stack.copy_at(i);
    stack.push(v);
}

pub fn run_pick_roll(op: u8, stack: &mut Stack, minimal: bool) -> (r: Result<(), String>)
    ensures
        ({
            let want = pick_roll(op, old(stack)@, minimal);
            final(stack)@ == want.stack && message(r) == want.err
        }),
{
    let n: i64 = match stack.pop_num(minimal) {
        Ok(n) => n,
        Err(e) => {
            return Err(e);
        },
    };
    if n < 0 || n as u64 >= stack.len() as u64 {
        return Err(
            op_name(op).concat(" index ").concat(dec_i64(n).as_str()).concat(" out of range"),
        );
    }
    let i: usize = stack.len() - 1 - n as usize;
    if op == 0x79 {
        copy_up(stack, i);
    } else {
        raise(stack, i);
    }
    Ok(())
}

/// Run one of the opcodes that copy elements to the top.
pub fn run_copy(op: u8, stack: &mut Stack) -> (r: Result<(), String>)
    ensures
        ({
            let want = copy_run(op, old(stack)@);
            final(stack)@ == want.stack && message(r) == want.err
        }),
{
    let n: usize = stack.len();
    let ghost st = stack@;
    if op == 0x6e {
        if n < 2 {
            return underflow_error();
        }
        copy_up(stack, n - 2);
        copy_up(stack, n - 1);
        assert(stack@ =~= st + st.skip(n - 2));
    } else if op == 0x6f {
        if n < 3 {
            return underflow_error();
        }
        copy_up(stack, n - 3);
        copy_up(stack, n - 2);
        copy_up(stack, n - 1);
        assert(stack@ =~= st + st.skip(n - 3));
    } else if op == 0x70 {
        if n < 4 {
            return underflow_error();
        }
        copy_up(stack, n - 4);
        copy_up(stack, n - 3);
        assert(stack@ =~= st + st.subrange(n - 4, n - 2));
    } else if op == 0x73 {
        if n < 1 {
            return underflow_error();
        }
        if cast_to_bool(stack.at(n - 1).as_slice()) {
            copy_up(stack, n - 1);
        }
    } else if op == 0x74 {
        stack.push_len(n);
    } else if op == 0x76 {
        if n < 1 {
            return underflow_error();
        }
        copy_up(stack, n - 1);
    } else if op == 0x78 {
        if n < 2 {
            return underflow_error();
        }
        copy_up(stack, n - 2);
    } else {
        if n < 1 {
            return underflow_error();
        }
        let len: usize = stack.at(n - 1).len();
        stack.push_len(len);
    }
    Ok(())
}

fn run_2rot(stack: &mut Stack)
    requires
        old(stack)@.len() >= 6,
    ensures
        final(stack)@ == move_run(0x71, old(stack)@).stack,
{
    let n: usize = stack.len();
    let ghost st = stack@;
    raise(stack, n - 6);
    raise(stack, n - 6);
    assert(stack@ =~= st.take(n - 6) + st.skip(n - 4) + st.subrange(n - 6, n - 4));
}

fn run_2swap(stack: &mut Stack)
    requires
        old(stack)@.len() >= 4,
    ensures
        final(stack)@ == move_run(0x72, old(stack)@).stack,
{
    let n: usize = stack.len();
    let ghost st = stack@;
    raise(stack, n - 4);
    raise(stack, n - 4);
    assert(stack@ =~= st.take(n - 4) + st.skip(n - 2) + st.subrange(n - 4, n - 2));
}

/// Run one of the opcodes that reorder elements.
pub fn run_move(op: u8, stack: &mut Stack) -> (r: Result<(), String>)
    ensures
        ({
            let want = move_run(op, old(stack)@);
            final(stack)@ == want.stack && message(r) == want.err
        }),
{
    let n: usize = stack.len();
    let ghost st = stack@;
    if op == 0x71 {
        if n < 6 {
            return underflow_error();
        }
        run_2rot(stack);
    } else if op == 0x72 {
        if n < 4 {
            return underflow_error();
        }
        run_2swap(stack);
    } else if op == 0x77 {
        if n < 2 {
            return underflow_error();
        }
        let _ = stack.remove(n - 2);
        assert(stack@ =~= st.take(n - 2).push(st.last()));
    } else if op == 0x7b {
        if n < 3 {
            return underflow_error();
        }
        raise(stack, n - 3);
        assert(stack@ =~= st.take(n - 3) + st.skip(n - 2) + seq![from_top(st, 2)]);
    } else if op == 0x7c {
        if n < 2 {
            return underflow_error();
        }
        raise(stack, n - 2);
        assert(stack@ =~= st.take(n - 2) + seq![from_top(st, 0), from_top(st, 1)]);
    } else {
        if n < 2 {
            return underflow_error();
        }
        let top = stack.copy_at(n - 1);
        stack.insert(n - 2, top);
        assert(stack@ =~= st.take(n - 2) + seq![
            from_top(st, 0),
            from_top(st, 1),
            from_top(st, 0),
        ]);
    }
    Ok(())
}

/// Run `OP_DROP`, `OP_2DROP` or `OP_VERIFY`.
pub fn run_drop(op: u8, stack: &mut Stack) -> (r: Result<(), String>)
    ensures
        ({
            let want = drop_run(op, old(stack)@);
            final(stack)@ == want.stack && message(r) == want.err
        }),
{
    let ghost st = stack@;
    let v = match stack.pop() {
        Ok(v) => v,
        Err(e) => {
            assert(stack@ =~= Seq::empty());
            return Err(e);
        },
    };
    if op == 0x6d {
        match stack.pop() {
            Ok(_) => {
                assert(stack@ =~= st.take(st.len() - 2));
            },
            Err(e) => {
                assert(stack@ =~= Seq::empty());
                return Err(e);
            },
        }
    } else if op != 0x75 && !cast_to_bool(v.as_slice()) {
        return Err(text("OP_VERIFY failed: top of stack was false"));
    }
    Ok(())
}

/// The stack once two elements are taken off, and the lower and the upper one.
pub open spec fn popped_pair(st: Seq<Seq<u8>>) -> (Seq<Seq<u8>>, Result<
    (Seq<u8>, Seq<u8>),
    Seq<char>,
>) {
    if st.len() < 2 {
        (Seq::empty(), Err(underflow()))
    } else {
        (st.take(st.len() - 2), Ok((from_top(st, 1), from_top(st, 0))))
    }
}

fn pop_pair(stack: &mut Stack) -> (r: Result<(Vec<u8>, Vec<u8>), String>)
    ensures
        ({
            let (st, want) = popped_pair(old(stack)@);
            &&& final(stack)@ == st
            &&& match r {
                Ok(p) => want == Ok::<(Seq<u8>, Seq<u8>), Seq<char>>((p.0@, p.1@)),
                Err(e) => want == Err::<(Seq<u8>, Seq<u8>), Seq<char>>(e@),
            }
        }),
{
    let ghost st = stack@;
    let b = match stack.pop() {
        Ok(v) => v,
        Err(e) => {
            assert(stack@ =~= Seq::empty());
            return Err(e);
        },
    };
    let a = match stack.pop() {
        Ok(v) => v,
        Err(e) => {
            assert(stack@ =~= Seq::empty());
            return Err(e);
        },
    };
    assert(stack@ =~= st.take(st.len() - 2));
    Ok((a, b))
}

/// `OP_CAT`: the lower element, then the upper one.
pub open spec fn cat_run(st: Seq<Seq<u8>>) -> Run {
    let (s, p) = popped_pair(st);
    match p {
        Err(e) => fail(s, e),
        Ok(p) => done(s.push(p.0 + p.1)),
    }
}

fn run_cat(stack: &mut Stack) -> (r: Result<(), String>)
    ensures
        ({
            let want = cat_run(old(stack)@);
            final(stack)@ == want.stack && message(r) == want.err
        }),
{
    match pop_pair(stack) {
        Err(e) => Err(e),
        Ok(p) => {
            let mut out = p.0;
            let ghost a = out@;
            out.extend_from_slice(p.1.as_slice());
            assert(out@ =~= a + p.1@);
            stack.push(out);
            Ok(())
        },
    }
}

/// The bytes of `s` from `begin` on, `size` of them or up to the end.
pub open spec fn clamped_part(s: Seq<u8>, begin: int, size: int) -> Seq<u8> {
    s.subrange(
        begin,
        if begin + size > s.len() {
            s.len() as int
        } else {
            begin + size
        },
    )
}

/// `OP_SUBSTR`: a part of a string; its size is clamped to the string's end.
pub open spec fn substr_run(st: Seq<Seq<u8>>, minimal: bool) -> Run {
    let (s1, size) = popped_number(st, minimal);
    match size {
        Err(e) => fail(s1, e),
        Ok(size) => {
            let (s2, begin) = popped_number(s1, minimal);
            match begin {
                Err(e) => fail(s2, e),
                Ok(begin) => {
                    let (s3, v) = popped(s2);
                    match v {
                        Err(e) => fail(s3, e),
                        Ok(v) => if begin < 0 || begin > v.len() {
                            fail(s3, "OP_SUBSTR begin index out of range"@)
                        } else if size < 0 {
                            fail(s3, "OP_SUBSTR size out of range"@)
                        } else {
                            done(s3.push(clamped_part(v, begin, size)))
                        },
                    }
                },
            }
        },
    }
}

fn run_substr(stack: &mut Stack, minimal: bool) -> (r: Result<(), String>)
    ensures
        ({
            let want = substr_run(old(stack)@, minimal);
            final(stack)@ == want.stack && message(r) == want.err
        }),
{
    let size: i64 = match stack.pop_num(minimal) {
        Ok(n) => n,
        Err(e) => {
            return Err(e);
        },
    };
    let begin: i64 = match stack.pop_num(minimal) {
        Ok(n) => n,
        Err(e) => {
            return Err(e);
        },
    };
    let v = match stack.pop() {
        Ok(v) => v,
        Err(e) => {
            return Err(e);
        },
    };
    if begin < 0 || begin as u64 > v.len() as u64 {
        return Err(text("OP_SUBSTR begin index out of range"));
    }
    if size < 0 {
        return Err(text("OP_SUBSTR size out of range"));
    }
    let from: usize = begin as usize;
    let room: usize = v.len() - from;
    let to: usize = if size as u64 > room as u64 {
        v.len()
    } else {
        from + size as usize
    };
    stack.push(slice_to_vec(slice_subrange(v.as_slice(), from, to)));
    Ok(())
}

/// `OP_LEFT` and `OP_RIGHT`: the first or the last bytes of a string.
pub open spec fn end_run(op: u8, st: Seq<Seq<u8>>, minimal: bool) -> Run {
    let (s1, n) = popped_number(st, minimal);
    match n {
        Err(e) => fail(s1, e),
        Ok(n) => {
            let (s2, v) = popped(s1);
            match v {
                Err(e) => fail(s2, e),
                Ok(v) => if n < 0 || n > v.len() {
                    fail(s2, opcode_name(op) + " index "@ + dec(n) + " out of range"@)
                } else if op == 0x80 {
                    done(s2.push(v.take(n)))
                } else {
                    done(s2.push(v.skip(v.len() - n)))
                },
            }
        },
    }
}

fn run_end(op: u8, stack: &mut Stack, minimal: bool) -> (r: Result<(), String>)
    ensures
        ({
            let want = end_run(op, old(stack)@, minimal);
            final(stack)@ == want.stack && message(r) == want.err
        }),
{
    let n: i64 = match stack.pop_num(minimal) {
        Ok(n) => n,
        Err(e) => {
            return Err(e);
        },
    };
    let v = match stack.pop() {
        Ok(v) => v,
        Err(e) => {
            return Err(e);
        },
    };
    if n < 0 || n as u64 > v.len() as u64 {
        return Err(
            op_name(op).concat(" index ").concat(dec_i64(n).as_str()).concat(" out of range"),
        );
    }
    let k: usize = n as usize;
    let part = if op == 0x80 {
        slice_to_vec(slice_subrange(v.as_slice(), 0, k))
    } else {
        slice_to_vec(slice_subrange(v.as_slice(), v.len() - k, v.len()))
    };
    assert(v@.subrange(0, k as int) =~= v@.take(k as int));
    assert(v@.subrange(v@.len() - k, v@.len() as int) =~= v@.skip(v@.len() - k));
    stack.push(part);
    Ok(())
}

/// The bitwise complement of every byte.
pub open spec fn inverted(v: Seq<u8>) -> Seq<u8> {
    v.map_values(|b: u8| !b)
}

/// `OP_INVERT`: the complement of the top element.
pub open spec fn invert_run(st: Seq<Seq<u8>>) -> Run {
    needing(st, 1, st.drop_last().push(inverted(st.last())))
}

fn run_invert(stack: &mut Stack) -> (r: Result<(), String>)
    ensures
        ({
            let want = invert_run(old(stack)@);
            final(stack)@ == want.stack && message(r) == want.err
        }),
{
    let v = match stack.pop() {
        Ok(v) => v,
        Err(e) => {
            return Err(e);
        },
    };
    let mut out: Vec<u8> = Vec::new();
    let mut i: usize = 0;
    while i < v.len()
        invariant
            i <= v@.len(),
            out@ =~= inverted(v@).take(i as int),
        decreases v@.len() - i,
    {
        out.push(!v[i]);
        i = i + 1;
    }
    assert(out@ =~= inverted(v@));
    stack.push(out);
    Ok(())
}

/// `OP_AND`, `OP_OR` or `OP_XOR` of two bytes.
pub open spec fn bitwise(op: u8, x: u8, y: u8) -> u8 {
    if op == 0x84 {
        x & y
    } else if op == 0x85 {
        x | y
    } else {
        x ^ y
    }
}

/// `OP_AND`, `OP_OR` or `OP_XOR` of two strings of one length.
pub open spec fn bitwise_all(op: u8, a: Seq<u8>, b: Seq<u8>) -> Seq<u8> {
    Seq::new(a.len(), |i: int| bitwise(op, a[i], b[i]))
}

/// `OP_AND`, `OP_OR` and `OP_XOR`: the operands must be of the same length.
pub open spec fn bitwise_run(op: u8, st: Seq<Seq<u8>>) -> Run {
    let (s, p) = popped_pair(st);
    match p {
        Err(e) => fail(s, e),
        Ok(p) => if p.0.len() != p.1.len() {
            fail(
                s,
                opcode_name(op) + " on operands of different sizes ("@ + dec(p.0.len() as int)
                    + " vs "@ + dec(p.1.len() as int) + " bytes)"@,
            )
        } else {
            done(s.push(bitwise_all(op, p.0, p.1)))
        },
    }
}

fn run_bitwise(op: u8, stack: &mut Stack) -> (r: Result<(), String>)
    ensures
        ({
            let want = bitwise_run(op, old(stack)@);
            final(stack)@ == want.stack && message(r) == want.err
        }),
{
    let (a, b) = match pop_pair(stack) {
        Ok(p) => p,
        Err(e) => {
            return Err(e);
        },
    };
    if a.len() != b.len() {
        return Err(
            op_name(op).concat(" on operands of different sizes (").concat(
                dec_usize(a.len()).as_str(),
            ).concat(" vs ").concat(dec_usize(b.len()).as_str()).concat(" bytes)"),
        );
    }
    let mut out: Vec<u8> = Vec::new();
    let mut i: usize = 0;
    while i < a.len()
        invariant
            i <= a@.len() == b@.len(),
            out@ =~= bitwise_all(op, a@, b@).take(i as int),
        decreases a@.len() - i,
    {
        let x: u8 = a[i];
        let y: u8 = b[i];
        out.push(
            if op == 0x84 {
                x & y
            } else if op == 0x85 {
                x | y
            } else {
                x ^ y
            },
        );
        i = i + 1;
    }
    assert(out@ =~= bitwise_all(op, a@, b@));
    stack.push(out);
    Ok(())
}

/// The string opcodes that were switched off in 2010.
pub open spec fn splice_run(op: u8, st: Seq<Seq<u8>>, minimal: bool) -> Run {
    if op == 0x7e {
        cat_run(st)
    } else if op == 0x7f {
        substr_run(st, minimal)
    } else if op == 0x80 || op == 0x81 {
        end_run(op, st, minimal)
    } else if op == 0x83 {
        invert_run(st)
    } else {
        bitwise_run(op, st)
    }
}

/// Run one of the string opcodes that were switched off in 2010.
pub fn run_splice(op: u8, stack: &mut Stack, minimal: bool) -> (r: Result<(), String>)
    ensures
        ({
            let want = splice_run(op, old(stack)@, minimal);
            final(stack)@ == want.stack && message(r) == want.err
        }),
{
    if op == 0x7e {
        run_cat(stack)
    } else if op == 0x7f {
        run_substr(stack, minimal)
    } else if op == 0x80 || op == 0x81 {
        run_end(op, stack, minimal)
    } else if op == 0x83 {
        run_invert(stack)
    } else {
        run_bitwise(op, stack)
    }
}

/// `OP_EQUAL` and `OP_EQUALVERIFY`.
pub open spec fn equal_run(op: u8, st: Seq<Seq<u8>>) -> Run {
    let (s, p) = popped_pair(st);
    match p {
        Err(e) => fail(s, e),
        Ok(p) => if op == 0x87 {
            done(s.push(bool_item(p.0 == p.1)))
        } else if p.0 == p.1 {
            done(s)
        } else {
            fail(
                s,
                "OP_EQUALVERIFY failed: 0x"@ + hex_text(p.0) + " != 0x"@ + hex_text(p.1),
            )
        },
    }
}

/// Run `OP_EQUAL` or `OP_EQUALVERIFY`.
pub fn run_equal(op: u8, stack: &mut Stack) -> (r: Result<(), String>)
    ensures
        ({
            let want = equal_run(op, old(stack)@);
            final(stack)@ == want.stack && message(r) == want.err
        }),
{
    let (a, b) = match pop_pair(stack) {
        Ok(p) => p,
        Err(e) => {
            return Err(e);
        },
    };
    let equal = same_bytes(a.as_slice(), b.as_slice());
    if op == 0x87 {
        stack.push_bool(equal);
    } else if !equal {
        return Err(
            text("OP_EQUALVERIFY failed: 0x").concat(hex_encode(a.as_slice()).as_str()).concat(
                " != 0x",
            ).concat(hex_encode(b.as_slice()).as_str()),
        );
    }
    Ok(())
}

} // verus!
