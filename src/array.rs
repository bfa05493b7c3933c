use vstd::prelude::*;

use crate::error::DsError;

verus! {

/// An index-addressable ordered sequence of text tokens.
pub struct Array {
    data: Vec<String>,
}

/// After `add_index(i, v)` with `i` within bounds, the element at `i` is `v`,
/// the length has grown by one and the elements from `i` on have moved up by
/// one.
pub proof fn lemma_add_index_then_get(s: Seq<String>, i: int, v: String)
    requires
        0 <= i <= s.len(),
    ensures
        s.insert(i, v)[i] == v,
        s.insert(i, v).len() == s.len() + 1,
        forall|j: int| 0 <= j < i ==> #[trigger] s.insert(i, v)[j] == s[j],
        forall|j: int| i <= j < s.len() ==> #[trigger] s.insert(i, v)[j + 1] == s[j],
{
}

/// After `remove_index(i)` with `i` within bounds, the length has shrunk by
/// one, the elements before `i` stay and the ones after it move down by one.
pub proof fn lemma_remove_index_shifts(s: Seq<String>, i: int)
    requires
        0 <= i < s.len(),
    ensures
        s.remove(i).len() == s.len() - 1,
        forall|j: int| 0 <= j < i ==> #[trigger] s.remove(i)[j] == s[j],
        forall|j: int| i <= j < s.len() - 1 ==> #[trigger] s.remove(i)[j] == s[j + 1],
{
}

impl View for Array {
    type V = Seq<String>;

    closed spec fn view(&self) -> Seq<String> {
        self.data@
    }
}

impl Array {
    /// An empty array with room reserved for `capacity` elements.
    pub fn new(capacity: usize) -> (a: Self)
        ensures
            a@ == Seq::<String>::empty(),
    {
        Array { data: Vec::with_capacity(capacity) }
    }

    /// Appends `value` after the last element.
    pub fn add_back(&mut self, value: String)
        ensures
            final(self)@ == old(self)@.push(value),
    {
        self.data.push(value);
    }

    /// Inserts `value` at `index`, shifting the elements from `index` on up by one.
    pub fn add_index(&mut self, index: usize, value: String) -> (r: Result<(), DsError>)
        ensures
            index <= old(self)@.len() ==> r == Ok::<(), DsError>(())
                && final(self)@ == old(self)@.insert(index as int, value),
            index > old(self)@.len() ==> r == Err::<(), DsError>(DsError::IndexOutOfBounds)
                && final(self)@ == old(self)@,
    {
        if index > self.data.len() {
            return Err(DsError::IndexOutOfBounds);
        }
        self.data.insert(index, value);
        Ok(())
    }

    /// Removes the element at `index`, shifting the elements after it down by one.
    pub fn remove_index(&mut self, index: usize) -> (r: Result<(), DsError>)
        ensures
            index < old(self)@.len() ==> r == Ok::<(), DsError>(())
                && final(self)@ == old(self)@.remove(index as int),
            index >= old(self)@.len() ==> r == Err::<(), DsError>(DsError::IndexOutOfBounds)
                && final(self)@ == old(self)@,
    {
        if index >= self.data.len() {
            return Err(DsError::IndexOutOfBounds);
        }
        self.data.remove(index);
        Ok(())
    }

    /// The element at `index`.
    pub fn get_index(&self, index: usize) -> (r: Result<&String, DsError>)
        ensures
            index < self@.len() ==> r == Ok::<&String, DsError>(&self@[index as int]),
            index >= self@.len() ==> r == Err::<&String, DsError>(DsError::IndexOutOfBounds),
    {
        if index >= self.data.len() {
            return Err(DsError::IndexOutOfBounds);
        }
        Ok(&self.data[index])
    }

    /// Puts `value` in place of the element at `index`.
    pub fn replace_index(&mut self, index: usize, value: String) -> (r: Result<(), DsError>)
        ensures
            index < old(self)@.len() ==> r == Ok::<(), DsError>(())
                && final(self)@ == old(self)@.update(index as int, value),
            index >= old(self)@.len() ==> r == Err::<(), DsError>(DsError::IndexOutOfBounds)
                && final(self)@ == old(self)@,
    {
        if index >= self.data.len() {
            return Err(DsError::IndexOutOfBounds);
        }
        self.data[index] = value;
        Ok(())
    }

    /// The number of elements.
    pub fn len(&self) -> (r: usize)
        ensures
            r == self@.len(),
    {
        self.data.len()
    }

    /// The elements in order, first to last.
    pub fn iter(&self) -> (r: Vec<String>)
        ensures
            r@ == self@,
    {
        let mut r: Vec<String> = Vec::new();
        let mut i: usize = 0;
        while i < self.data.len()
            invariant
                i <= self.data@.len(),
                r@ == self.data@.subrange(0, i as int),
            decreases self.data@.len() - i,
        {
            r.push(self.data[i].clone());
            i = i + 1;
            assert(r@ =~= self.data@.subrange(0, i as int));
        }
        assert(self.data@.subrange(0, self.data@.len() as int) =~= self.data@);
        r
    }
}

} // verus!
