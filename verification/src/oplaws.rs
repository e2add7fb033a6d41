//! What the opcodes are for, as relations between the stack before and after.

use crate::arith::{
    binary_value, law_division, law_shift_keeps_length, law_shift_value, magnitude, popped_numbers,
    quotient, remainder, shifted,
};
use crate::assembly::{law_instructions_cover_the_script, InsModel};
use crate::checks::{script_code_of, Done};
use crate::crypto::{ripemd160_of, sha1_of, sha256_of};
use crate::exec::{executed, pure_op, pure_run};
use crate::laws::law_script_code_is_the_rest;
use crate::num::{
    be_value, is_minimal, law_decoded_range, law_encode_then_decode, law_encoded_size,
    law_truth_is_nonzero, lemma_be_value_injective, pow256, script_num, script_value, truthy,
};
use crate::opnames::opcode_name;
use crate::ops::{clamped_part, popped_pair};
use crate::spend::SigVersion;
use crate::stack::{bool_item, popped, popped_number};
use crate::text::hex_text;
use crate::vm::{EnvModel, RecordModel, VmModel};
use vstd::arithmetic::power2::pow2;
use vstd::prelude::*;

verus! {

/// A machine about to execute an instruction.
pub struct Site {
    pub env: EnvModel,
    pub vm: VmModel,
    pub rec: RecordModel,
    pub frame: int,
    pub ins: InsModel,
}

impl Site {
    /// What opcode `op` does here on the stack `st`.
    #[verifier::opaque]
    pub open spec fn runs(self, op: u8, st: Seq<Seq<u8>>) -> Done {
        executed(
            self.env,
            self.vm.with_stack(st),
            self.rec,
            self.frame,
            InsModel { opcode: op, ..self.ins },
        )
    }

    /// Opcode `op` turns the stack `before` into `after`, and changes nothing
    /// else.
    pub open spec fn leaves(
        self,
        op: u8,
        before: Seq<Seq<u8>>,
        after: Seq<Seq<u8>>,
    ) -> bool {
        &&& self.runs(op, before).err is None
        &&& self.runs(op, before).vm == self.vm.with_stack(after)
        &&& self.runs(op, before).rec == self.rec
    }

    /// Opcode `op` cannot run on the stack `st`.
    pub open spec fn refuses(self, op: u8, st: Seq<Seq<u8>>) -> bool {
        self.runs(op, st).err is Some
    }

    /// Opcode `v` does what `op` and then `OP_VERIFY` do: it fails exactly where
    /// one of the two does, and otherwise leaves the same stack.
    pub open spec fn verifies(self, v: u8, op: u8, st: Seq<Seq<u8>>) -> bool {
        let first = self.runs(op, st);
        let second = self.runs(0x69, first.vm.stack);
        &&& self.runs(v, st).err is None <==> first.err is None && second.err is None
        &&& self.runs(v, st).err is None ==> self.runs(v, st).vm.stack == second.vm.stack
    }
}

/// The opcodes that only work on the stack change nothing else.
pub proof fn lemma_runs_pure(at: Site, op: u8, st: Seq<Seq<u8>>)
    requires
        pure_op(op),
    ensures
        at.runs(op, st).vm == at.vm.with_stack(pure_run(op, st, at.env.minimal()).stack),
        at.runs(op, st).rec == at.rec,
        at.runs(op, st).err == pure_run(op, st, at.env.minimal()).err,
{
    reveal(Site::runs);
}

/// What `executed` says of an instruction is what the opcode does there.
pub proof fn lemma_runs_is_executed(at: Site, op: u8, st: Seq<Seq<u8>>)
    ensures
        at.runs(op, st) == executed(
            at.env,
            at.vm.with_stack(st),
            at.rec,
            at.frame,
            InsModel { opcode: op, ..at.ins },
        ),
{
    reveal(Site::runs);
}

/// A number that fits a four-byte stack element.
pub open spec fn small(n: int) -> bool {
    -0x8000_0000 < n < 0x8000_0000
}

/// The element for a truth value is true exactly if the value is.
pub proof fn law_truth_values(b: bool)
    ensures
        truthy(bool_item(b)) == b,
        bool_item(true) == seq![1u8],
        bool_item(false).len() == 0,
{
    if b {
        assert(bool_item(b)[0] != 0);
    }
}

/// `OP_VERIFY` takes the top element off, and fails exactly if there is none or
/// it is false.
pub proof fn law_verify(at: Site, base: Seq<Seq<u8>>, v: Seq<u8>)
    ensures
        truthy(v) ==> at.leaves(0x69, base + seq![v], base),
        !truthy(v) ==> at.refuses(0x69, base + seq![v]),
        at.refuses(0x69, Seq::empty()),
{
    let st = base + seq![v];
    lemma_runs_pure(at, 0x69, st);
    lemma_runs_pure(at, 0x69, Seq::empty());
    assert(st.last() == v);
    assert(st.drop_last() =~= base);
}

/// `OP_EQUAL` takes two elements off and leaves a true one exactly if they are
/// the same bytes, and a false one otherwise. `OP_EQUALVERIFY` succeeds exactly
/// on the same bytes, and then leaves neither.
pub proof fn law_equality(at: Site, base: Seq<Seq<u8>>, a: Seq<u8>, b: Seq<u8>)
    ensures
        a == b ==> at.leaves(0x87, base + seq![a, b], base + seq![seq![1u8]]),
        a != b ==> at.leaves(0x87, base + seq![a, b], base + seq![Seq::<u8>::empty()]),
        at.runs(0x87, base + seq![a, b]).vm.stack.len() == base.len() + 1,
        truthy(at.runs(0x87, base + seq![a, b]).vm.stack.last()) == (a == b),
        a == b ==> at.leaves(0x88, base + seq![a, b], base),
        a != b ==> at.refuses(0x88, base + seq![a, b]),
{
    let st = base + seq![a, b];
    let n = st.len() as int;
    assert(st[n - 1] == b && st[n - 2] == a);
    assert(st.take(n - 2) =~= base);
    law_truth_values(a == b);
    assert(base.push(bool_item(a == b)) =~= base + seq![bool_item(a == b)]);
    assert(bool_item(false) =~= Seq::<u8>::empty());
    lemma_runs_pure(at, 0x87, st);
    lemma_runs_pure(at, 0x88, st);
}

/// The opcodes whose names end in `VERIFY` do what their namesakes and then
/// `OP_VERIFY` do, on every stack.
pub proof fn law_equalverify_is_equal_and_verify(at: Site, st: Seq<Seq<u8>>)
    ensures
        at.verifies(0x88, 0x87, st),
        at.verifies(0x9d, 0x9c, st),
{
    lemma_runs_pure(at, 0x87, st);
    lemma_runs_pure(at, 0x88, st);
    lemma_runs_pure(at, 0x9c, st);
    lemma_runs_pure(at, 0x9d, st);
    lemma_verify_on(at, at.runs(0x87, st).vm.stack);
    lemma_verify_on(at, at.runs(0x9c, st).vm.stack);
    law_truth_values(true);
    law_truth_values(false);
    law_encode_then_decode(1);
    law_encode_then_decode(0);
    law_truth_is_nonzero(script_num(1));
    law_truth_is_nonzero(script_num(0));
    let (s, p) = popped_pair(st);
    assert(s.push(bool_item(true)).drop_last() =~= s);
    let (t, q) = popped_numbers(st, at.env.minimal());
    assert(t.push(script_num(1)).drop_last() =~= t);
}

/// What `OP_VERIFY` makes of a stack.
pub proof fn lemma_verify_on(at: Site, st: Seq<Seq<u8>>)
    ensures
        at.runs(0x69, st).err is None <==> st.len() > 0 && truthy(st.last()),
        at.runs(0x69, st).err is None ==> at.runs(0x69, st).vm.stack == st.drop_last(),
{
    lemma_runs_pure(at, 0x69, st);
}

/// Two stacks that agree in every element are what an opcode turns into each
/// other.
proof fn lemma_leaves(at: Site, op: u8, before: Seq<Seq<u8>>, after: Seq<Seq<u8>>)
    requires
        pure_op(op),
        pure_run(op, before, at.env.minimal()).err is None,
        pure_run(op, before, at.env.minimal()).stack =~= after,
    ensures
        at.leaves(op, before, after),
{
    lemma_runs_pure(at, op, before);
}

/// What `OP_DROP`, `OP_2DROP` and `OP_NIP` leave of the elements on top, lowest
/// first.
pub proof fn law_dropping(
    at: Site,
    base: Seq<Seq<u8>>,
    a: Seq<u8>,
    b: Seq<u8>,
)
    ensures
        // OP_DROP
        at.leaves(0x75, base + seq![a], base),
        // OP_2DROP
        at.leaves(0x6d, base + seq![a, b], base),
        // OP_NIP
        at.leaves(0x77, base + seq![a, b], base + seq![b]),
{
    lemma_leaves(at, 0x75, base + seq![a], base);
    lemma_leaves(at, 0x6d, base + seq![a, b], base);
    lemma_leaves(at, 0x77, base + seq![a, b], base + seq![b]);
}

/// What `OP_DUP` and `OP_2DUP` leave of the elements on top, lowest first.
pub proof fn law_duplicating(
    at: Site,
    base: Seq<Seq<u8>>,
    a: Seq<u8>,
    b: Seq<u8>,
)
    ensures
        // OP_DUP
        at.leaves(0x76, base + seq![a], base + seq![a, a]),
        // OP_2DUP
        at.leaves(0x6e, base + seq![a, b], base + seq![a, b, a, b]),
{
    lemma_leaves(at, 0x76, base + seq![a], base + seq![a, a]);
    lemma_leaves(at, 0x6e, base + seq![a, b], base + seq![a, b, a, b]);
}

/// What `OP_3DUP` leaves of the elements on top, lowest first.
pub proof fn law_3dup(
    at: Site,
    base: Seq<Seq<u8>>,
    a: Seq<u8>,
    b: Seq<u8>,
    c: Seq<u8>,
)
    ensures
        // OP_3DUP
        at.leaves(0x6f, base + seq![a, b, c], base + seq![a, b, c, a, b, c]),
{
    lemma_leaves(at, 0x6f, base + seq![a, b, c], base + seq![a, b, c, a, b, c]);
}

/// What `OP_OVER` and `OP_TUCK` leave of the elements on top, lowest first.
pub proof fn law_copying_from_below(
    at: Site,
    base: Seq<Seq<u8>>,
    a: Seq<u8>,
    b: Seq<u8>,
)
    ensures
        // OP_OVER
        at.leaves(0x78, base + seq![a, b], base + seq![a, b, a]),
        // OP_TUCK
        at.leaves(0x7d, base + seq![a, b], base + seq![b, a, b]),
{
    lemma_leaves(at, 0x78, base + seq![a, b], base + seq![a, b, a]);
    lemma_leaves(at, 0x7d, base + seq![a, b], base + seq![b, a, b]);
}

/// What `OP_2OVER` leaves of the elements on top, lowest first.
pub proof fn law_2over(
    at: Site,
    base: Seq<Seq<u8>>,
    a: Seq<u8>,
    b: Seq<u8>,
    c: Seq<u8>,
    d: Seq<u8>,
)
    ensures
        // OP_2OVER
        at.leaves(0x70, base + seq![a, b, c, d], base + seq![a, b, c, d, a, b]),
{
    lemma_leaves(at, 0x70, base + seq![a, b, c, d], base + seq![a, b, c, d, a, b]);
}

/// `OP_IFDUP` copies the top element exactly if it is true.
pub proof fn law_ifdup(
    at: Site,
    base: Seq<Seq<u8>>,
    a: Seq<u8>,
)
    ensures
        // OP_IFDUP
        truthy(a) ==> at.leaves(0x73, base + seq![a], base + seq![a, a]),
        // OP_IFDUP
        !truthy(a) ==> at.leaves(0x73, base + seq![a], base + seq![a]),
{
    if truthy(a) {
        lemma_leaves(at, 0x73, base + seq![a], base + seq![a, a]);
    }
    if !truthy(a) {
        lemma_leaves(at, 0x73, base + seq![a], base + seq![a]);
    }
}

/// What the moving opcodes leave of the elements on top, lowest first.
pub proof fn law_moving(
    at: Site,
    base: Seq<Seq<u8>>,
    a: Seq<u8>,
    b: Seq<u8>,
    c: Seq<u8>,
    d: Seq<u8>,
)
    ensures
        // OP_SWAP
        at.leaves(0x7c, base + seq![a, b], base + seq![b, a]),
        // OP_2SWAP
        at.leaves(0x72, base + seq![a, b, c, d], base + seq![c, d, a, b]),
        // OP_ROT
        at.leaves(0x7b, base + seq![a, b, c], base + seq![b, c, a]),
{
    lemma_leaves(at, 0x7c, base + seq![a, b], base + seq![b, a]);
    lemma_leaves(at, 0x72, base + seq![a, b, c, d], base + seq![c, d, a, b]);
    lemma_leaves(at, 0x7b, base + seq![a, b, c], base + seq![b, c, a]);
}

/// `OP_DEPTH` pushes the number of elements, `OP_SIZE` the length of the top one.
pub proof fn law_measuring(
    at: Site,
    base: Seq<Seq<u8>>,
    a: Seq<u8>,
)
    ensures
        // OP_DEPTH
        at.leaves(0x74, base, base + seq![script_num(base.len() as int)]),
        // OP_SIZE
        at.leaves(0x82, base + seq![a], base + seq![a, script_num(a.len() as int)]),
{
    lemma_leaves(at, 0x74, base, base + seq![script_num(base.len() as int)]);
    lemma_leaves(at, 0x82, base + seq![a], base + seq![a, script_num(a.len() as int)]);
}

/// `OP_2ROT` brings the third pair from the top to the top.
pub proof fn law_2rot(
    at: Site,
    base: Seq<Seq<u8>>,
    p: (Seq<u8>, Seq<u8>),
    q: (Seq<u8>, Seq<u8>),
    r: (Seq<u8>, Seq<u8>),
)
    ensures
        at.leaves(
            0x71,
            base + seq![p.0, p.1, q.0, q.1, r.0, r.1],
            base + seq![q.0, q.1, r.0, r.1, p.0, p.1],
        ),
{
    lemma_leaves(
        at,
        0x71,
        base + seq![p.0, p.1, q.0, q.1, r.0, r.1],
        base + seq![q.0, q.1, r.0, r.1, p.0, p.1],
    );
}

/// A small number on top of the stack is read back as it is.
pub proof fn lemma_number_on_top(base: Seq<Seq<u8>>, n: int, minimal: bool)
    requires
        small(n),
    ensures
        popped_number(base.push(script_num(n)), minimal) == (base, Ok::<int, Seq<char>>(n)),
{
    reveal_with_fuel(pow256, 5);
    law_encoded_size(n, 4);
    law_encode_then_decode(n);
    assert(base.push(script_num(n)).drop_last() =~= base);
}

/// `OP_PICK` copies, and `OP_ROLL` moves, the element that has as many others
/// above it as the number on top says; there must be one.
pub proof fn law_pick_and_roll(at: Site, base: Seq<Seq<u8>>, v: Seq<u8>, above: Seq<Seq<u8>>)
    requires
        small(above.len() as int),
    ensures
        at.leaves(
            0x79,
            base + seq![v] + above + seq![script_num(above.len() as int)],
            base + seq![v] + above + seq![v],
        ),
        at.leaves(
            0x7a,
            base + seq![v] + above + seq![script_num(above.len() as int)],
            base + above + seq![v],
        ),
{
    let s = base + seq![v] + above;
    let n = above.len() as int;
    let st = s + seq![script_num(n)];
    assert(st =~= s.push(script_num(n)));
    lemma_number_on_top(s, n, at.env.minimal());
    assert(s[s.len() - 1 - n] == v);
    lemma_leaves(at, 0x79, st, s + seq![v]);
    lemma_leaves(at, 0x7a, st, base + above + seq![v]);
}

/// `OP_PICK` and `OP_ROLL` refuse a negative number and one that reaches below
/// the stack.
pub proof fn law_pick_and_roll_stay_inside(at: Site, st: Seq<Seq<u8>>, n: int)
    requires
        small(n),
        n < 0 || n >= st.len(),
    ensures
        at.refuses(0x79, st + seq![script_num(n)]),
        at.refuses(0x7a, st + seq![script_num(n)]),
{
    assert(st + seq![script_num(n)] =~= st.push(script_num(n)));
    lemma_number_on_top(st, n, at.env.minimal());
    lemma_runs_pure(at, 0x79, st.push(script_num(n)));
    lemma_runs_pure(at, 0x7a, st.push(script_num(n)));
}

/// The elements that an opcode needs on the stack.
pub open spec fn operands(op: u8) -> nat {
    if op == 0x71 {
        6
    } else if op == 0x70 || op == 0x72 {
        4
    } else if op == 0x6f || op == 0x7b || op == 0x7f || op == 0xa5 || op == 0xba {
        3
    } else if op == 0x6d || op == 0x6e || op == 0x77 || op == 0x78 || 0x79 <= op <= 0x81 || 0x84
        <= op <= 0x88 || 0x93 <= op <= 0xa4 || op == 0xac || op == 0xad {
        2
    } else if op == 0x69 || op == 0x6b || op == 0x73 || op == 0x75 || op == 0x76 || op == 0x82
        || op == 0x83 || 0x8b <= op <= 0x92 || 0xa6 <= op <= 0xaa || op == 0xae || op == 0xaf {
        1
    } else {
        0
    }
}

/// No opcode runs without its operands.
pub proof fn law_operands_are_needed(at: Site, op: u8, st: Seq<Seq<u8>>)
    requires
        st.len() < operands(op),
    ensures
        at.refuses(op, st),
{
    if pure_op(op) {
        lemma_runs_pure(at, op, st);
    } else {
        lemma_runs_is_executed(at, op, st);
    }
}

/// `OP_TOALTSTACK` moves the top element to the other stack, and
/// `OP_FROMALTSTACK` brings it back.
pub proof fn law_altstack(at: Site, base: Seq<Seq<u8>>, v: Seq<u8>)
    ensures
        at.runs(0x6b, base + seq![v]).err is None,
        at.runs(0x6b, base + seq![v]).vm == (VmModel {
            altstack: at.vm.altstack.push(v),
            ..at.vm.with_stack(base)
        }),
        ({
            let moved = Site { vm: at.runs(0x6b, base + seq![v]).vm, ..at };
            moved.runs(0x6c, base).err is None && moved.runs(0x6c, base).vm == at.vm.with_stack(
                base + seq![v],
            )
        }),
        at.vm.altstack.len() == 0 ==> at.refuses(0x6c, base),
{
    let st = base + seq![v];
    lemma_runs_is_executed(at, 0x6b, st);
    lemma_runs_is_executed(at, 0x6c, base);
    assert(st.drop_last() =~= base && st.last() == v);
    let moved = Site { vm: at.runs(0x6b, st).vm, ..at };
    lemma_runs_is_executed(moved, 0x6c, base);
    let alt = at.vm.altstack;
    assert(alt.push(v).drop_last() =~= alt);
    assert(moved.runs(0x6c, base).vm =~= at.vm.with_stack(st)) by {
        assert(base.push(v) =~= st);
    }
}

/// Two small numbers on top of the stack are read back as they are.
proof fn lemma_numbers_on_top(base: Seq<Seq<u8>>, a: int, b: int, minimal: bool)
    requires
        small(a),
        small(b),
    ensures
        popped_numbers(base + seq![script_num(a), script_num(b)], minimal) == (
            base,
            Ok::<(int, int), Seq<char>>((a, b)),
        ),
{
    let mid = base.push(script_num(a));
    assert(base + seq![script_num(a), script_num(b)] =~= mid.push(script_num(b)));
    lemma_number_on_top(mid, b, minimal);
    lemma_number_on_top(base, a, minimal);
}

/// The opcodes with one operand.
pub proof fn law_unary_arithmetic(at: Site, base: Seq<Seq<u8>>, n: int)
    requires
        small(n),
    ensures
        ({
            let st = base + seq![script_num(n)];
            // OP_1ADD, OP_1SUB, OP_2MUL
            &&& at.leaves(0x8b, st, base + seq![script_num(n + 1)])
            &&& at.leaves(0x8c, st, base + seq![script_num(n - 1)])
            &&& at.leaves(0x8d, st, base + seq![script_num(n + n)])
            // OP_2DIV rounds towards zero
            &&& n >= 0 ==> at.leaves(0x8e, st, base + seq![script_num(n / 2)])
            &&& n < 0 ==> at.leaves(0x8e, st, base + seq![script_num(-((-n) / 2))])
            // OP_NEGATE, OP_ABS
            &&& at.leaves(0x8f, st, base + seq![script_num(0 - n)])
            &&& n >= 0 ==> at.leaves(0x90, st, base + seq![script_num(n)])
            &&& n < 0 ==> at.leaves(0x90, st, base + seq![script_num(0 - n)])
            // OP_NOT, OP_0NOTEQUAL
            &&& n == 0 ==> at.leaves(0x91, st, base + seq![script_num(1)])
            &&& n != 0 ==> at.leaves(0x91, st, base + seq![script_num(0)])
            &&& n == 0 ==> at.leaves(0x92, st, base + seq![script_num(0)])
            &&& n != 0 ==> at.leaves(0x92, st, base + seq![script_num(1)])
        }),
{
    let st = base + seq![script_num(n)];
    assert(st =~= base.push(script_num(n)));
    lemma_number_on_top(base, n, at.env.minimal());
    lemma_runs_pure(at, 0x8b, st);
    lemma_runs_pure(at, 0x8c, st);
    lemma_runs_pure(at, 0x8d, st);
    lemma_runs_pure(at, 0x8e, st);
    lemma_runs_pure(at, 0x8f, st);
    lemma_runs_pure(at, 0x90, st);
    lemma_runs_pure(at, 0x91, st);
    lemma_runs_pure(at, 0x92, st);
    assert forall|m: int| base.push(#[trigger] script_num(m)) == base + seq![script_num(m)] by {
        assert(base.push(script_num(m)) =~= base + seq![script_num(m)]);
    }
}

/// An opcode with two operands leaves this number.
pub open spec fn computes(at: Site, op: u8, base: Seq<Seq<u8>>, a: int, b: int, n: int) -> bool {
    at.leaves(op, base + seq![script_num(a), script_num(b)], base + seq![script_num(n)])
}

/// An opcode with two operands decides between 1 and 0.
pub open spec fn decides(at: Site, op: u8, base: Seq<Seq<u8>>, a: int, b: int, yes: bool) -> bool {
    computes(
        at,
        op,
        base,
        a,
        b,
        if yes {
            1
        } else {
            0
        },
    )
}

proof fn lemma_binary(at: Site, op: u8, base: Seq<Seq<u8>>, a: int, b: int)
    requires
        small(a),
        small(b),
        0x93 <= op <= 0xa4,
        op != 0x98 && op != 0x99 && op != 0x9d,
        op == 0x96 || op == 0x97 ==> b != 0,
    ensures
        computes(at, op, base, a, b, binary_value(op, a, b)),
{
    let st = base + seq![script_num(a), script_num(b)];
    lemma_numbers_on_top(base, a, b, at.env.minimal());
    let n = binary_value(op, a, b);
    assert(base.push(script_num(n)) =~= base + seq![script_num(n)]);
    lemma_runs_pure(at, op, st);
}

/// The opcodes that add, subtract and multiply, and those that choose.
pub proof fn law_binary_arithmetic(at: Site, base: Seq<Seq<u8>>, a: int, b: int)
    requires
        small(a),
        small(b),
    ensures
        computes(at, 0x93, base, a, b, a + b),
        computes(at, 0x94, base, a, b, a - b),
        computes(at, 0x95, base, a, b, a * b),
        computes(
            at,
            0xa3,
            base,
            a,
            b,
            if a <= b {
                a
            } else {
                b
            },
        ),
        computes(
            at,
            0xa4,
            base,
            a,
            b,
            if a <= b {
                b
            } else {
                a
            },
        ),
{
    lemma_binary(at, 0x93, base, a, b);
    lemma_binary(at, 0x94, base, a, b);
    lemma_binary(at, 0x95, base, a, b);
    lemma_binary(at, 0xa3, base, a, b);
    lemma_binary(at, 0xa4, base, a, b);
}

/// The opcodes that compare numbers.
pub proof fn law_comparisons(at: Site, base: Seq<Seq<u8>>, a: int, b: int)
    requires
        small(a),
        small(b),
    ensures
        decides(at, 0x9a, base, a, b, a != 0 && b != 0),
        decides(at, 0x9b, base, a, b, !(a == 0 && b == 0)),
        decides(at, 0x9c, base, a, b, a == b),
        decides(at, 0x9e, base, a, b, a != b),
        decides(at, 0x9f, base, a, b, a < b),
        decides(at, 0xa0, base, a, b, b < a),
        decides(at, 0xa1, base, a, b, !(b < a)),
        decides(at, 0xa2, base, a, b, !(a < b)),
        a == b ==> at.leaves(0x9d, base + seq![script_num(a), script_num(b)], base),
        a != b ==> at.refuses(0x9d, base + seq![script_num(a), script_num(b)]),
{
    lemma_binary(at, 0x9a, base, a, b);
    lemma_binary(at, 0x9b, base, a, b);
    lemma_binary(at, 0x9c, base, a, b);
    lemma_binary(at, 0x9e, base, a, b);
    lemma_binary(at, 0x9f, base, a, b);
    lemma_binary(at, 0xa0, base, a, b);
    lemma_binary(at, 0xa1, base, a, b);
    lemma_binary(at, 0xa2, base, a, b);
    lemma_numbers_on_top(base, a, b, at.env.minimal());
    lemma_runs_pure(at, 0x9d, base + seq![script_num(a), script_num(b)]);
}

/// `OP_DIV` and `OP_MOD` leave the quotient and the remainder: they give the
/// dividend back, the remainder is smaller than the divisor and never has the
/// opposite sign of the dividend. Division by zero is refused.
pub proof fn law_division_opcodes(at: Site, base: Seq<Seq<u8>>, a: int, b: int, q: int, r: int)
    requires
        small(a),
        small(b),
        b != 0,
        a == q * b + r,
        -b < r < b || b < r < -b,
        a >= 0 ==> r >= 0,
        a <= 0 ==> r <= 0,
    ensures
        computes(at, 0x96, base, a, b, q),
        computes(at, 0x97, base, a, b, r),
        at.refuses(0x96, base + seq![script_num(a), script_num(0)]),
        at.refuses(0x97, base + seq![script_num(a), script_num(0)]),
{
    lemma_binary(at, 0x96, base, a, b);
    lemma_binary(at, 0x97, base, a, b);
    law_division(a, b);
    let q2 = quotient(a, b);
    let r2 = remainder(a, b);
    assert(r2 == 0 || (r2 > 0) == (a > 0)) by {
        let y = magnitude(b);
        assert(0 <= magnitude(a) % y < y) by (nonlinear_arith)
            requires
                y > 0,
        ;
        if a == 0 {
            assert(0int % y == 0) by (nonlinear_arith)
                requires
                    y > 0,
            ;
        }
    }
    assert(q2 * b - q * b == (q2 - q) * b) by (nonlinear_arith);
    let k = q2 - q;
    assert(k * b == r - r2);
    assert(k == 0) by (nonlinear_arith)
        requires
            k * b == r - r2,
            -b < r - r2 < b || b < r - r2 < -b,
    ;
    assert(q2 == q);
    lemma_numbers_on_top(base, a, 0, at.env.minimal());
    lemma_runs_pure(at, 0x96, base + seq![script_num(a), script_num(0)]);
    lemma_runs_pure(at, 0x97, base + seq![script_num(a), script_num(0)]);
}

/// `OP_WITHIN` tells whether a number is at least the lower bound and below the
/// upper one.
pub proof fn law_within(at: Site, base: Seq<Seq<u8>>, x: int, low: int, high: int)
    requires
        small(x),
        small(low),
        small(high),
    ensures
        ({
            let st = base + seq![script_num(x), script_num(low), script_num(high)];
            at.leaves(0xa5, st, base + seq![bool_item(!(x < low) && x < high)])
        }),
{
    let st = base + seq![script_num(x), script_num(low), script_num(high)];
    let mid = base.push(script_num(x));
    assert(st =~= mid + seq![script_num(low), script_num(high)]);
    lemma_numbers_on_top(mid, low, high, at.env.minimal());
    lemma_number_on_top(base, x, at.env.minimal());
    let r = bool_item(!(x < low) && x < high);
    assert(base.push(r) =~= base + seq![r]);
    lemma_runs_pure(at, 0xa5, st);
}

/// The opcodes that read numbers.
pub open spec fn reads_number(op: u8) -> bool {
    ||| op == 0x79 || op == 0x7a
    ||| 0x7f <= op <= 0x81
    ||| 0x8b <= op <= 0xa5
}

/// The opcodes that read numbers refuse one of more than four bytes on top, and
/// under MINIMALDATA one that is not minimally encoded.
pub proof fn law_numbers_are_held_to_the_rules(at: Site, op: u8, base: Seq<Seq<u8>>, v: Seq<u8>)
    requires
        reads_number(op),
        v.len() > 4 || (at.env.flags & 0x40 != 0 && !is_minimal(v)),
    ensures
        at.refuses(op, base + seq![v]),
{
    let st = base + seq![v];
    assert(st.last() == v);
    lemma_runs_pure(at, op, st);
}

/// `OP_CAT` joins two strings, the lower one first.
pub proof fn law_joining(at: Site, base: Seq<Seq<u8>>, a: Seq<u8>, b: Seq<u8>)
    ensures
        at.leaves(0x7e, base + seq![a, b], base + seq![a + b]),
{
    let st = base + seq![a, b];
    let n = st.len() as int;
    assert(st[n - 1] == b && st[n - 2] == a);
    assert(st.take(n - 2) =~= base);
    lemma_runs_pure(at, 0x7e, st);
    assert(base.push(a + b) =~= base + seq![a + b]);
}

/// `OP_LEFT` and `OP_RIGHT` take a joined string apart again.
pub proof fn law_splitting(at: Site, base: Seq<Seq<u8>>, a: Seq<u8>, b: Seq<u8>)
    requires
        small(a.len() as int),
        small(b.len() as int),
    ensures
        at.leaves(0x80, base + seq![a + b, script_num(a.len() as int)], base + seq![a]),
        at.leaves(0x81, base + seq![a + b, script_num(b.len() as int)], base + seq![b]),
{
    let v = a + b;
    lemma_string_and_number(base, v, a.len() as int, at.env.minimal());
    lemma_string_and_number(base, v, b.len() as int, at.env.minimal());
    assert(v.take(a.len() as int) =~= a);
    assert(v.skip(v.len() - b.len()) =~= b);
    lemma_runs_pure(at, 0x80, base + seq![v, script_num(a.len() as int)]);
    lemma_runs_pure(at, 0x81, base + seq![v, script_num(b.len() as int)]);
    assert(base.push(a) =~= base + seq![a]);
    assert(base.push(b) =~= base + seq![b]);
}

proof fn lemma_string_and_number(base: Seq<Seq<u8>>, v: Seq<u8>, n: int, minimal: bool)
    requires
        small(n),
    ensures
        ({
            let st = base + seq![v, script_num(n)];
            &&& popped_number(st, minimal) == (base.push(v), Ok::<int, Seq<char>>(n))
            &&& popped(base.push(v)) == (base, Ok::<Seq<u8>, Seq<char>>(v))
        }),
{
    assert(base + seq![v, script_num(n)] =~= base.push(v).push(script_num(n)));
    lemma_number_on_top(base.push(v), n, minimal);
    assert(base.push(v).drop_last() =~= base);
}

/// `OP_SUBSTR` cuts a piece out of a string; a piece that would reach past the
/// end ends there.
pub proof fn law_substrings(
    at: Site,
    base: Seq<Seq<u8>>,
    a: Seq<u8>,
    b: Seq<u8>,
    c: Seq<u8>,
    more: int,
)
    requires
        small(a.len() as int),
        small(b.len() as int),
        small(more),
        more >= b.len() + c.len(),
    ensures
        at.leaves(
            0x7f,
            base + seq![a + b + c, script_num(a.len() as int), script_num(b.len() as int)],
            base + seq![b],
        ),
        at.leaves(
            0x7f,
            base + seq![a + b + c, script_num(a.len() as int), script_num(more)],
            base + seq![b + c],
        ),
{
    lemma_substr(at, base, a + b + c, a.len() as int, b.len() as int);
    lemma_substr(at, base, a + b + c, a.len() as int, more);
    assert(clamped_part(a + b + c, a.len() as int, b.len() as int) =~= b);
    assert(clamped_part(a + b + c, a.len() as int, more) =~= b + c);
}

proof fn lemma_substr(at: Site, base: Seq<Seq<u8>>, v: Seq<u8>, begin: int, size: int)
    requires
        small(begin),
        small(size),
    ensures
        0 <= begin <= v.len() && size >= 0 ==> at.leaves(
            0x7f,
            base + seq![v, script_num(begin), script_num(size)],
            base + seq![clamped_part(v, begin, size)],
        ),
        begin < 0 || begin > v.len() || size < 0 ==> at.refuses(
            0x7f,
            base + seq![v, script_num(begin), script_num(size)],
        ),
{
    let st = base + seq![v, script_num(begin), script_num(size)];
    let mid = base + seq![v, script_num(begin)];
    assert(st =~= mid.push(script_num(size)));
    lemma_number_on_top(mid, size, at.env.minimal());
    lemma_string_and_number(base, v, begin, at.env.minimal());
    lemma_runs_pure(at, 0x7f, st);
    let r = clamped_part(v, begin, size);
    assert(base.push(r) =~= base + seq![r]);
}

/// The string opcodes refuse positions outside the string.
pub proof fn law_positions_stay_inside(at: Site, base: Seq<Seq<u8>>, v: Seq<u8>, n: int, m: int)
    requires
        small(n),
        small(m),
        n < 0 || n > v.len(),
    ensures
        at.refuses(0x80, base + seq![v, script_num(n)]),
        at.refuses(0x81, base + seq![v, script_num(n)]),
        at.refuses(0x7f, base + seq![v, script_num(n), script_num(m)]),
        m < 0 ==> at.refuses(0x7f, base + seq![v, script_num(0), script_num(m)]),
{
    lemma_string_and_number(base, v, n, at.env.minimal());
    lemma_runs_pure(at, 0x80, base + seq![v, script_num(n)]);
    lemma_runs_pure(at, 0x81, base + seq![v, script_num(n)]);
    lemma_substr(at, base, v, n, m);
    lemma_substr(at, base, v, 0, m);
}

/// The bitwise opcodes work byte by byte on strings of one length, and refuse
/// others. `OP_INVERT` turns each byte into what it lacks to 255.
pub proof fn law_bitwise_opcodes(
    at: Site,
    base: Seq<Seq<u8>>,
    a: Seq<u8>,
    b: Seq<u8>,
    op: u8,
)
    requires
        0x84 <= op <= 0x86,
    ensures
        a.len() != b.len() ==> at.refuses(op, base + seq![a, b]),
        a.len() == b.len() ==> ({
            let d = at.runs(op, base + seq![a, b]);
            let r = d.vm.stack.last();
            &&& d.err is None
            &&& d.vm == at.vm.with_stack(base + seq![r])
            &&& r.len() == a.len()
            &&& forall|i: int|
                0 <= i < r.len() ==> #[trigger] r[i] == if op == 0x84 {
                    a[i] & b[i]
                } else if op == 0x85 {
                    a[i] | b[i]
                } else {
                    a[i] ^ b[i]
                }
        }),
        ({
            let d = at.runs(0x83, base + seq![a]);
            let r = d.vm.stack.last();
            &&& d.err is None
            &&& d.vm == at.vm.with_stack(base + seq![r])
            &&& r.len() == a.len()
            &&& forall|i: int| 0 <= i < r.len() ==> #[trigger] r[i] == 255 - a[i]
        }),
{
    let st = base + seq![a, b];
    let n = st.len() as int;
    assert(st[n - 1] == b && st[n - 2] == a);
    assert(st.take(n - 2) =~= base);
    lemma_runs_pure(at, op, st);
    if a.len() == b.len() {
        let r = at.runs(op, st).vm.stack.last();
        assert(at.runs(op, st).vm.stack =~= base + seq![r]);
    }
    let one = base + seq![a];
    lemma_runs_pure(at, 0x83, one);
    assert(one.drop_last() =~= base && one.last() == a);
    let r = at.runs(0x83, one).vm.stack.last();
    assert(at.runs(0x83, one).vm.stack =~= base + seq![r]);
    assert forall|i: int| 0 <= i < r.len() implies #[trigger] r[i] == 255 - a[i] by {
        let x = a[i];
        assert(!x == (255u8 - x) as u8) by (bit_vector);
    }
}

/// `OP_LSHIFT` multiplies the value of a string by a power of two, modulo what
/// its length can hold, and `OP_RSHIFT` divides it; the length stays. A shift by
/// a negative number, or by the whole string or more, is refused.
pub proof fn law_shift_opcodes(
    at: Site,
    base: Seq<Seq<u8>>,
    v: Seq<u8>,
    n: int,
    left: Seq<u8>,
    right: Seq<u8>,
)
    requires
        small(n),
        left.len() == v.len(),
        right.len() == v.len(),
        0 <= n < 8 * v.len() ==> {
            &&& be_value(left) == (be_value(v) * pow2(n as nat)) % pow256(v.len())
            &&& be_value(right) == be_value(v) / pow2(n as nat)
        },
    ensures
        0 <= n < 8 * v.len() ==> {
            &&& at.leaves(0x98, base + seq![v, script_num(n)], base + seq![left])
            &&& at.leaves(0x99, base + seq![v, script_num(n)], base + seq![right])
        },
        n < 0 || n >= 8 * v.len() ==> {
            &&& at.refuses(0x98, base + seq![v, script_num(n)])
            &&& at.refuses(0x99, base + seq![v, script_num(n)])
        },
{
    let st = base + seq![v, script_num(n)];
    lemma_string_and_number(base, v, n, at.env.minimal());
    lemma_runs_pure(at, 0x98, st);
    lemma_runs_pure(at, 0x99, st);
    if 0 <= n < 8 * v.len() {
        law_shift_value(v, n);
        law_shift_keeps_length(0x98, v, n);
        law_shift_keeps_length(0x99, v, n);
        lemma_be_value_injective(shifted(0x98, v, n), left);
        lemma_be_value_injective(shifted(0x99, v, n), right);
        assert(base.push(left) =~= base + seq![left]);
        assert(base.push(right) =~= base + seq![right]);
    }
}

/// A hash opcode replaces the top element by this digest.
pub open spec fn hashes_to(
    at: Site,
    op: u8,
    base: Seq<Seq<u8>>,
    v: Seq<u8>,
    digest: Seq<u8>,
) -> bool {
    let d = at.runs(op, base + seq![v]);
    &&& d.err is None
    &&& d.vm == at.vm.with_stack(base + seq![digest])
    &&& d.rec == at.rec.noted(opcode_name(op) + " → "@ + hex_text(digest))
}

/// The hash opcodes. `OP_HASH256` hashes as `OP_SHA256` twice, and `OP_HASH160`
/// as `OP_SHA256` and then `OP_RIPEMD160`.
pub proof fn law_hash_opcodes(at: Site, base: Seq<Seq<u8>>, v: Seq<u8>)
    ensures
        hashes_to(at, 0xa6, base, v, ripemd160_of(v)),
        hashes_to(at, 0xa7, base, v, sha1_of(v)),
        hashes_to(at, 0xa8, base, v, sha256_of(v)),
        hashes_to(at, 0xa9, base, v, ripemd160_of(sha256_of(v))),
        hashes_to(at, 0xaa, base, v, sha256_of(sha256_of(v))),
{
    let st = base + seq![v];
    assert(st.drop_last() =~= base && st.last() == v);
    lemma_runs_is_executed(at, 0xa6, st);
    lemma_runs_is_executed(at, 0xa7, st);
    lemma_runs_is_executed(at, 0xa8, st);
    lemma_runs_is_executed(at, 0xa9, st);
    lemma_runs_is_executed(at, 0xaa, st);
    assert forall|d: Seq<u8>| #[trigger] base.push(d) == base + seq![d] by {
        assert(base.push(d) =~= base + seq![d]);
    }
}

/// Pushes put exactly their data on the stack: `OP_0` the empty string, the
/// number opcodes their number, and a data push the bytes in the script, unless
/// they are too long or, under MINIMALDATA, not pushed minimally.
pub proof fn law_pushes(at: Site, st: Seq<Seq<u8>>, op: u8)
    ensures
        at.leaves(0x00, st, st.push(Seq::empty())),
        at.leaves(0x4f, st, st.push(script_num(-1))),
        0x51 <= op <= 0x60 ==> at.leaves(op, st, st.push(script_num(op - 0x50))),
        0x01 <= op <= 0x4e && at.ins.data is Some ==> ({
            let data = at.ins.data->0;
            let too_long = at.env.flags & 0x8000 == 0 && data.len() > 520;
            let too_wide = at.env.flags & 0x40 != 0 && !at.ins.minimal_push;
            &&& !too_long && !too_wide ==> at.leaves(op, st, st.push(data))
            &&& too_long || too_wide ==> at.refuses(op, st)
        }),
{
    lemma_runs_is_executed(at, 0x00, st);
    lemma_runs_is_executed(at, 0x4f, st);
    lemma_runs_is_executed(at, op, st);
}

/// The opcodes that do nothing: the state and the checks stay as they are.
pub proof fn law_nops(at: Site, st: Seq<Seq<u8>>, op: u8)
    requires
        op == 0x61 || op == 0xb0 || 0xb3 <= op <= 0xb9,
    ensures
        at.runs(op, st).err is None,
        at.runs(op, st).vm == at.vm.with_stack(st),
        at.runs(op, st).rec.sigs == at.rec.sigs,
{
    lemma_runs_is_executed(at, op, st);
}

/// The opcodes that fail wherever they are executed, on any stack: `OP_RETURN`,
/// the reserved ones and all without a meaning.
pub proof fn law_invalid_opcodes(at: Site, st: Seq<Seq<u8>>, op: u8)
    requires
        op == 0x50 || op == 0x62 || op == 0x65 || op == 0x66 || op == 0x6a || op == 0x89 || op
            == 0x8a || op >= 0xbb,
    ensures
        at.refuses(op, st),
{
    lemma_runs_is_executed(at, op, st);
}

/// No enclosing branch is switched off.
pub open spec fn live(cond: Seq<bool>) -> bool {
    !cond.contains(false)
}

/// A machine executes exactly if no enclosing branch is switched off.
pub proof fn law_execution_follows_the_branches(vm: VmModel)
    ensures
        vm.exec_enabled() <==> live(vm.cond),
{
    if vm.exec_enabled() && vm.cond.contains(false) {
        let i = choose|i: int| 0 <= i < vm.cond.len() && vm.cond[i] == false;
        assert(vm.cond[i]);
    }
    if live(vm.cond) {
        assert forall|i: int| 0 <= i < vm.cond.len() implies #[trigger] vm.cond[i] by {
            if !vm.cond[i] {
                assert(vm.cond.contains(false));
            }
        }
    }
}

/// `OP_IF` takes one element off and opens a branch that is executed exactly if
/// the element is true, `OP_NOTIF` one that is executed exactly if it is false.
/// Inside a branch that is switched off, both open another one that is, and
/// leave the stack alone. Tapscript takes only the two canonical arguments.
pub proof fn law_if(at: Site, base: Seq<Seq<u8>>, v: Seq<u8>)
    ensures
        ({
            let d = at.runs(0x63, base + seq![v]);
            let e = at.runs(0x64, base + seq![v]);
            let canonical = v.len() == 0 || v =~= seq![1u8];
            let refused = at.env.frames[at.frame].sigversion == SigVersion::Tapscript
                && !canonical;
            &&& live(at.vm.cond) && refused ==> d.err is Some && e.err is Some
            &&& live(at.vm.cond) && !refused ==> {
                &&& d.err is None && e.err is None
                &&& d.vm == (VmModel { cond: at.vm.cond.push(truthy(v)), ..at.vm.with_stack(base) })
                &&& e.vm == (VmModel { cond: at.vm.cond.push(!truthy(v)), ..at.vm.with_stack(base) })
                &&& d.rec == at.rec.noted(
                    "branch taken: "@ + (if truthy(v) {
                        "yes"@
                    } else {
                        "no"@
                    }),
                )
                &&& live(d.vm.cond) == truthy(v)
                &&& live(e.vm.cond) == !truthy(v)
            }
            &&& !live(at.vm.cond) ==> {
                &&& d.err is None && e.err is None
                &&& d.vm == (VmModel {
                    cond: at.vm.cond.push(false),
                    ..at.vm.with_stack(base + seq![v])
                })
                &&& e.vm == d.vm
                &&& !live(d.vm.cond)
            }
        }),
        live(at.vm.cond) ==> at.refuses(0x63, Seq::empty()) && at.refuses(0x64, Seq::empty()),
{
    let st = base + seq![v];
    assert(st.drop_last() =~= base && st.last() == v);
    lemma_runs_is_executed(at, 0x63, st);
    lemma_runs_is_executed(at, 0x64, st);
    lemma_runs_is_executed(at, 0x63, Seq::empty());
    lemma_runs_is_executed(at, 0x64, Seq::empty());
    law_execution_follows_the_branches(at.vm);
    law_execution_follows_the_branches(at.vm.with_stack(st));
    law_execution_follows_the_branches(at.vm.with_stack(Seq::empty()));
    lemma_live_push(at.vm.cond, true);
    lemma_live_push(at.vm.cond, false);
}

proof fn lemma_live_push(cond: Seq<bool>, b: bool)
    ensures
        live(cond.push(b)) == (live(cond) && b),
{
    let next = cond.push(b);
    if cond.contains(false) {
        let i = choose|i: int| 0 <= i < cond.len() && cond[i] == false;
        assert(next[i] == false);
    }
    if !b {
        assert(next[cond.len() as int] == false);
    }
    if next.contains(false) {
        let i = choose|i: int| 0 <= i < next.len() && next[i] == false;
        if i < cond.len() {
            assert(cond[i] == false);
        }
    }
}

/// `OP_ELSE` turns the innermost branch over and `OP_ENDIF` closes it; neither
/// touches the stack or an outer branch, and both need an open branch.
pub proof fn law_else_and_endif(at: Site, st: Seq<Seq<u8>>, outer: Seq<bool>, b: bool)
    ensures
        ({
            let inside = Site { vm: VmModel { cond: outer.push(b), ..at.vm }, ..at };
            let d = inside.runs(0x67, st);
            let e = inside.runs(0x68, st);
            &&& d.err is None
            &&& d.vm == (VmModel { cond: outer.push(!b), ..at.vm.with_stack(st) })
            &&& live(d.vm.cond) == (live(outer) && !b)
            &&& e.err is None
            &&& e.vm == (VmModel { cond: outer, ..at.vm.with_stack(st) })
        }),
        at.vm.cond.len() == 0 ==> at.refuses(0x67, st) && at.refuses(0x68, st),
{
    let inside = Site { vm: VmModel { cond: outer.push(b), ..at.vm }, ..at };
    lemma_runs_is_executed(inside, 0x67, st);
    lemma_runs_is_executed(inside, 0x68, st);
    lemma_runs_is_executed(at, 0x67, st);
    lemma_runs_is_executed(at, 0x68, st);
    lemma_live_push(outer, !b);
    assert(inside.runs(0x67, st).vm.cond =~= outer.push(!b));
    assert(inside.runs(0x68, st).vm.cond =~= outer);
    assert(inside.runs(0x67, st).vm =~= VmModel { cond: outer.push(!b), ..at.vm.with_stack(st) });
    assert(inside.runs(0x68, st).vm =~= VmModel { cond: outer, ..at.vm.with_stack(st) });
}

/// After `OP_CODESEPARATOR` the scriptCode of a witness script is what follows
/// it, and tapscript commits to its position among the instructions.
pub proof fn law_code_separator(at: Site, st: Seq<Seq<u8>>)
    requires
        0 <= at.frame < at.env.frames.len(),
        1 <= at.vm.ip < at.env.frames[at.frame].ins().len(),
        at.vm.ip <= 0xffff_ffff,
        at.env.frames[at.frame].sigversion != SigVersion::Legacy,
    ensures
        ({
            let code = at.env.frames[at.frame];
            let d = at.runs(0xab, st);
            let own = code.ins()[at.vm.ip - 1];
            &&& d.err is None
            &&& d.vm.stack == st
            &&& d.vm.codesep_pos == at.vm.ip - 1
            &&& script_code_of(code, d.vm.begin_codehash) == code.script.skip(own.offset + own.len)
        }),
{
    let code = at.env.frames[at.frame];
    lemma_runs_is_executed(at, 0xab, st);
    law_script_code_is_the_rest(code, at.vm.ip);
    law_instructions_cover_the_script(code.script);
    assert(code.ins()[at.vm.ip - 1 + 1] == code.ins()[at.vm.ip]);
}

/// Numbers count by their value: an opcode that reads one off the top does the
/// same for every encoding that is admitted, be it the canonical one or not.
pub proof fn law_numbers_count_by_value(at: Site, op: u8, base: Seq<Seq<u8>>, x: Seq<u8>)
    requires
        reads_number(op),
        x.len() <= 4,
        at.env.flags & 0x40 == 0 || is_minimal(x),
    ensures
        at.runs(op, base + seq![x]) == at.runs(op, base + seq![script_num(script_value(x))]),
{
    let c = script_num(script_value(x));
    lemma_number_by_value(base, x, at.env.minimal());
    assert(base + seq![x] =~= base.push(x));
    assert(base + seq![c] =~= base.push(c));
    lemma_reads_by_value(op, base.push(x), base.push(c), at.env.minimal());
    lemma_runs_pure(at, op, base.push(x));
    lemma_runs_pure(at, op, base.push(c));
}

proof fn lemma_reads_by_value(op: u8, a: Seq<Seq<u8>>, b: Seq<Seq<u8>>, minimal: bool)
    requires
        reads_number(op),
        popped_number(a, minimal) == popped_number(b, minimal),
        popped_number(a, minimal).1 is Ok,
    ensures
        pure_run(op, a, minimal) == pure_run(op, b, minimal),
{
}

/// The lower operand of an opcode with two numbers counts by its value too.
pub proof fn law_lower_numbers_count_by_value(
    at: Site,
    op: u8,
    base: Seq<Seq<u8>>,
    x: Seq<u8>,
    y: Seq<u8>,
)
    requires
        op == 0x7f || (0x93 <= op <= 0xa5 && op != 0x98 && op != 0x99),
        x.len() <= 4,
        y.len() <= 4,
        at.env.flags & 0x40 == 0 || is_minimal(x) && is_minimal(y),
    ensures
        at.runs(op, base + seq![x, y]) == at.runs(op, base + seq![script_num(script_value(x)), y]),
{
    let c = script_num(script_value(x));
    lemma_number_by_value(base, x, at.env.minimal());
    lemma_number_by_value(base.push(x), y, at.env.minimal());
    lemma_number_by_value(base.push(c), y, at.env.minimal());
    assert(base + seq![x, y] =~= base.push(x).push(y));
    assert(base + seq![c, y] =~= base.push(c).push(y));
    lemma_pairs_by_value(
        op,
        base.push(x).push(y),
        base.push(c).push(y),
        base.push(x),
        base.push(c),
        at.env.minimal(),
    );
    lemma_runs_pure(at, op, base.push(x).push(y));
    lemma_runs_pure(at, op, base.push(c).push(y));
}

proof fn lemma_pairs_by_value(
    op: u8,
    a: Seq<Seq<u8>>,
    b: Seq<Seq<u8>>,
    a1: Seq<Seq<u8>>,
    b1: Seq<Seq<u8>>,
    minimal: bool,
)
    requires
        op == 0x7f || (0x93 <= op <= 0xa5 && op != 0x98 && op != 0x99),
        popped_number(a, minimal).0 == a1,
        popped_number(b, minimal).0 == b1,
        popped_number(a, minimal).1 == popped_number(b, minimal).1,
        popped_number(a, minimal).1 is Ok,
        popped_number(a1, minimal) == popped_number(b1, minimal),
        popped_number(a1, minimal).1 is Ok,
    ensures
        pure_run(op, a, minimal) == pure_run(op, b, minimal),
{
}

proof fn lemma_number_by_value(base: Seq<Seq<u8>>, x: Seq<u8>, minimal: bool)
    requires
        x.len() <= 4,
        minimal ==> is_minimal(x),
    ensures
        popped_number(base.push(x), minimal) == (base, Ok::<int, Seq<char>>(script_value(x))),
        popped_number(base.push(script_num(script_value(x))), minimal) == (
            base,
            Ok::<int, Seq<char>>(script_value(x)),
        ),
{
    law_decoded_range(x);
    lemma_number_on_top(base, script_value(x), minimal);
    assert(base.push(x).drop_last() =~= base);
}

/// `OP_CODESEPARATOR` remembers where it stands, and changes nothing else.
pub proof fn law_code_separator_position(at: Site, st: Seq<Seq<u8>>)
    requires
        1 <= at.vm.ip <= 0xffff_ffff,
    ensures
        at.runs(0xab, st).err is None,
        at.runs(0xab, st).vm == (VmModel {
            begin_codehash: at.vm.ip,
            codesep_pos: (at.vm.ip - 1) as u32,
            ..at.vm.with_stack(st)
        }),
{
    lemma_runs_is_executed(at, 0xab, st);
}

} // verus!
