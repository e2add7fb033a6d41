//! The stack of byte strings that scripts work on.

use crate::num::{decode, decoded, encode, encode_len, script_num, MAX_NUM_SIZE};
use crate::text::text;
use crate::tx::byte_strings;
use vstd::prelude::*;
use vstd::slice::slice_to_vec;

verus! {

/// A stack of byte strings; the last one is the top.
pub struct Stack {
    items: Vec<Vec<u8>>,
}

impl View for Stack {
    type V = Seq<Seq<u8>>;

    closed spec fn view(&self) -> Seq<Seq<u8>> {
        byte_strings(self.items@)
    }
}

/// What is said when a stack has too few elements.
pub open spec fn underflow() -> Seq<char> {
    "stack underflow"@
}

/// The message of a result that carries nothing else.
pub open spec fn message<T>(r: Result<T, String>) -> Option<Seq<char>> {
    match r {
        Ok(_) => None,
        Err(e) => Some(e@),
    }
}

/// The stack element that stands for a truth value.
pub open spec fn bool_item(b: bool) -> Seq<u8> {
    if b {
        seq![1u8]
    } else {
        Seq::empty()
    }
}

/// The stack once its top is taken off to be read as a number, and the number.
pub open spec fn popped_number(st: Seq<Seq<u8>>, minimal: bool) -> (Seq<Seq<u8>>, Result<
    int,
    Seq<char>,
>) {
    if st.len() == 0 {
        (st, Err(underflow()))
    } else {
        (st.drop_last(), decoded(st.last(), minimal, MAX_NUM_SIZE as int))
    }
}

/// The stack once its top is taken off, and the top.
pub open spec fn popped(st: Seq<Seq<u8>>) -> (Seq<Seq<u8>>, Result<Seq<u8>, Seq<char>>) {
    if st.len() == 0 {
        (st, Err(underflow()))
    } else {
        (st.drop_last(), Ok(st.last()))
    }
}

impl Stack {
    pub fn new() -> (r: Stack)
        ensures
            r@ == Seq::<Seq<u8>>::empty(),
    {
        let r = Stack { items: Vec::new() };
        assert(r@ =~= Seq::empty());
        r
    }

    pub fn from_items(items: Vec<Vec<u8>>) -> (r: Stack)
        ensures
            r@ == byte_strings(items@),
    {
        Stack { items }
    }

    pub fn as_items(&self) -> (r: &Vec<Vec<u8>>)
        ensures
            byte_strings(r@) == self@,
    {
        &self.items
    }

    pub fn len(&self) -> (r: usize)
        ensures
            r == self@.len(),
    {
        self.items.len()
    }

    /// The element at a position counted from the bottom.
    pub fn at(&self, i: usize) -> (r: &Vec<u8>)
        requires
            i < self@.len(),
        ensures
            r@ == self@[i as int],
    {
        &self.items[i]
    }

    /// A copy of the element at a position counted from the bottom.
    pub fn copy_at(&self, i: usize) -> (r: Vec<u8>)
        requires
            i < self@.len(),
        ensures
            r@ == self@[i as int],
    {
        slice_to_vec(self.items[i].as_slice())
    }

    pub fn push(&mut self, item: Vec<u8>)
        ensures
            final(self)@ == old(self)@.push(item@),
    {
        self.items.push(item);
        assert(self@ =~= old(self)@.push(item@));
    }

    pub fn push_num(&mut self, v: i64)
        ensures
            final(self)@ == old(self)@.push(script_num(v as int)),
    {
        self.push(encode(v));
    }

    pub fn push_len(&mut self, n: usize)
        ensures
            final(self)@ == old(self)@.push(script_num(n as int)),
    {
        self.push(encode_len(n));
    }

    pub fn push_bool(&mut self, b: bool)
        ensures
            final(self)@ == old(self)@.push(bool_item(b)),
    {
        let mut item: Vec<u8> = Vec::new();
        if b {
            item.push(1);
        }
        assert(item@ =~= bool_item(b));
        self.push(item);
    }

    pub fn pop(&mut self) -> (r: Result<Vec<u8>, String>)
        ensures
            ({
                let (st, want) = popped(old(self)@);
                &&& final(self)@ == st
                &&& match r {
                    Ok(v) => want == Ok::<Seq<u8>, Seq<char>>(v@),
                    Err(e) => want == Err::<Seq<u8>, Seq<char>>(e@),
                }
            }),
    {
        match self.items.pop() {
            Some(v) => {
                assert(self@ =~= old(self)@.drop_last());
                Ok(v)
            },
            None => Err(text("stack underflow")),
        }
    }

    pub fn pop_num(&mut self, minimal: bool) -> (r: Result<i64, String>)
        ensures
            ({
                let (st, want) = popped_number(old(self)@, minimal);
                &&& final(self)@ == st
                &&& match r {
                    Ok(v) => want == Ok::<int, Seq<char>>(v as int) && -0x8000_0000 < v
                        < 0x8000_0000,
                    Err(e) => want == Err::<int, Seq<char>>(e@),
                }
            }),
    {
        let v = match self.pop() {
            Ok(v) => v,
            Err(e) => {
                return Err(e);
            },
        };
        proof {
            crate::num::law_decoded_range(v@);
        }
        match decode(v.as_slice(), minimal, MAX_NUM_SIZE) {
            Ok(n) => Ok(n),
            Err(e) => Err(e.0),
        }
    }

    /// Take out the element at a position counted from the bottom.
    pub fn remove(&mut self, i: usize) -> (r: Vec<u8>)
        requires
            i < old(self)@.len(),
        ensures
            r@ == old(self)@[i as int],
            final(self)@ == old(self)@.remove(i as int),
    {
        let r = self.items.remove(i);
        assert(self@ =~= old(self)@.remove(i as int));
        r
    }

    /// Put an element in at a position counted from the bottom.
    pub fn insert(&mut self, i: usize, item: Vec<u8>)
        requires
            i <= old(self)@.len(),
        ensures
            final(self)@ == old(self)@.insert(i as int, item@),
    {
        self.items.insert(i, item);
        assert(self@ =~= old(self)@.insert(i as int, item@));
    }

    pub fn clear(&mut self)
        ensures
            final(self)@ == Seq::<Seq<u8>>::empty(),
    {
        self.items = Vec::new();
        assert(self@ =~= Seq::empty());
    }

    pub fn duplicate(&self) -> (r: Stack)
        ensures
            r@ == self@,
    {
        let mut items: Vec<Vec<u8>> = Vec::new();
        let mut i: usize = 0;
        while i < self.items.len()
            invariant
                i <= self.items@.len(),
                byte_strings(items@) =~= self@.take(i as int),
            decreases self.items@.len() - i,
        {
            let ghost before = items@;
            items.push(slice_to_vec(self.items[i].as_slice()));
            assert(byte_strings(items@) =~= byte_strings(before).push(self.items@[i as int]@));
            i = i + 1;
        }
        assert(byte_strings(items@) =~= self@);
        Stack { items }
    }
}

} // verus!
