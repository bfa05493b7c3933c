use vstd::prelude::*;

use crate::error::DsError;

verus! {

/// A last-in-first-out sequence of text tokens.
pub struct Stack {
    data: Vec<String>,
}

/// The values that `n` successive calls of `pop` return, in the order they
/// come, on a stack whose content is `s`.
pub open spec fn popped(s: Seq<String>, n: nat) -> Seq<String>
    decreases n,
{
    if n == 0 || s.len() == 0 {
        Seq::empty()
    } else {
        seq![s.last()] + popped(s.drop_last(), (n - 1) as nat)
    }
}

/// Pushing `vals` onto any stack and then popping as many times returns
/// `vals` in reverse order: the last value pushed comes first.
pub proof fn lemma_push_then_pop_reverses(base: Seq<String>, vals: Seq<String>)
    ensures
        popped(base + vals, vals.len()) == vals.reverse(),
    decreases vals.len(),
{
    if vals.len() > 0 {
        let rest = vals.drop_last();
        assert((base + vals).drop_last() =~= base + rest);
        assert((base + vals).last() == vals.last());
        lemma_push_then_pop_reverses(base, rest);
        assert(vals.reverse() =~= seq![vals.last()] + rest.reverse());
    } else {
        assert(vals.reverse() =~= Seq::<String>::empty());
    }
}

impl View for Stack {
    /// The elements from the bottom (oldest) to the top (most recent).
    type V = Seq<String>;

    closed spec fn view(&self) -> Seq<String> {
        self.data@
    }
}

impl Stack {
    /// An empty stack with room reserved for `capacity` elements.
    pub fn new(capacity: usize) -> (s: Self)
        ensures
            s@ == Seq::<String>::empty(),
    {
        Stack { data: Vec::with_capacity(capacity) }
    }

    /// Puts `value` on top.
    pub fn push(&mut self, value: String)
        ensures
            final(self)@ == old(self)@.push(value),
    {
        self.data.push(value);
    }

    /// Removes and returns the top element.
    pub fn pop(&mut self) -> (r: Result<String, DsError>)
        ensures
            old(self)@.len() == 0 ==> r == Err::<String, DsError>(DsError::EmptyStack)
                && final(self)@ == old(self)@,
            old(self)@.len() > 0 ==> r == Ok::<String, DsError>(old(self)@.last())
                && final(self)@ == old(self)@.drop_last(),
    {
        match self.data.pop() {
            Some(v) => Ok(v),
            None => Err(DsError::EmptyStack),
        }
    }

    /// The top element, left in place.
    pub fn peek(&self) -> (r: Result<&String, DsError>)
        ensures
            self@.len() == 0 ==> r == Err::<&String, DsError>(DsError::EmptyStack),
            self@.len() > 0 ==> r == Ok::<&String, DsError>(&self@.last()),
    {
        let n = self.data.len();
        if n == 0 {
            Err(DsError::EmptyStack)
        } else {
            Ok(&self.data[n - 1])
        }
    }

    pub fn is_empty(&self) -> (r: bool)
        ensures
            r == (self@.len() == 0),
    {
        self.data.len() == 0
    }

    /// The elements from the top (most recent) to the bottom (oldest).
    pub fn iter(&self) -> (r: Vec<String>)
        ensures
            r@ == self@.reverse(),
    {
        let mut r: Vec<String> = Vec::new();
        let mut i: usize = self.data.len();
        while i > 0
            invariant
                i <= self.data@.len(),
                r@ == self.data@.subrange(i as int, self.data@.len() as int).reverse(),
            decreases i,
        {
            i = i - 1;
            r.push(self.data[i].clone());
            assert(r@ =~= self.data@.subrange(i as int, self.data@.len() as int).reverse());
        }
        assert(self.data@.subrange(0, self.data@.len() as int) =~= self.data@);
        r
    }
}

} // verus!
