use vstd::prelude::*;

use std::collections::VecDeque;

use crate::error::DsError;

verus! {

/// A first-in-first-out sequence of text tokens.
pub struct Queue {
    data: VecDeque<String>,
}

/// The values that `n` successive calls of `dequeue` return, in the order
/// they come, on a queue whose content is `s`.
pub open spec fn dequeued(s: Seq<String>, n: nat) -> Seq<String>
    decreases n,
{
    if n == 0 || s.len() == 0 {
        Seq::empty()
    } else {
        seq![s[0]] + dequeued(s.drop_first(), (n - 1) as nat)
    }
}

/// Enqueueing `vals` on an empty queue and then dequeueing as many times
/// returns `vals` in the order they were enqueued.
pub proof fn lemma_enqueue_then_dequeue_keeps_order(vals: Seq<String>)
    ensures
        dequeued(Seq::empty() + vals, vals.len()) == vals,
    decreases vals.len(),
{
    assert(Seq::<String>::empty() + vals =~= vals);
    if vals.len() > 0 {
        let rest = vals.drop_first();
        lemma_enqueue_then_dequeue_keeps_order(rest);
        assert(Seq::<String>::empty() + rest =~= rest);
        assert(vals =~= seq![vals[0]] + rest);
    } else {
        assert(vals =~= Seq::<String>::empty());
    }
}

impl View for Queue {
    /// The elements from the front (oldest) to the back (most recent).
    type V = Seq<String>;

    closed spec fn view(&self) -> Seq<String> {
        self.data@
    }
}

impl Queue {
    /// An empty queue.
    pub fn new() -> (q: Self)
        ensures
            q@ == Seq::<String>::empty(),
    {
        Queue { data: VecDeque::new() }
    }

    /// Adds `value` at the back.
    pub fn enqueue(&mut self, value: String)
        ensures
            final(self)@ == old(self)@.push(value),
    {
        self.data.push_back(value);
    }

    /// Removes and returns the front element.
    pub fn dequeue(&mut self) -> (r: Result<String, DsError>)
        ensures
            old(self)@.len() == 0 ==> r == Err::<String, DsError>(DsError::EmptyQueue)
                && final(self)@ == old(self)@,
            old(self)@.len() > 0 ==> r == Ok::<String, DsError>(old(self)@[0])
                && final(self)@ == old(self)@.drop_first(),
    {
        match self.data.pop_front() {
            Some(v) => Ok(v),
            None => Err(DsError::EmptyQueue),
        }
    }

    /// The front element, left in place.
    pub fn peek(&self) -> (r: Result<&String, DsError>)
        ensures
            self@.len() == 0 ==> r == Err::<&String, DsError>(DsError::EmptyQueue),
            self@.len() > 0 ==> r == Ok::<&String, DsError>(&self@[0]),
    {
        if self.data.len() == 0 {
            Err(DsError::EmptyQueue)
        } else {
            Ok(&self.data[0])
        }
    }

    pub fn is_empty(&self) -> (r: bool)
        ensures
            r == (self@.len() == 0),
    {
        self.data.len() == 0
    }

    /// The elements from the front to the back.
    pub fn iter(&self) -> (r: Vec<String>)
        ensures
            r@ == self@,
    {
        let mut r: Vec<String> = Vec::new();
        let mut i: usize = 0;
        while i < self.data.len()
            invariant
                i <= self.data@.len(),
                r@ == self.data@.subrange(0, i as int),
            decreases self.data@.len() - i,
        {
            r.push(self.data[i].clone());
            i = i + 1;
            assert(r@ =~= self.data@.subrange(0, i as int));
        }
        assert(self.data@.subrange(0, self.data@.len() as int) =~= self.data@);
        r
    }
}

} // verus!
