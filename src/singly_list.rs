use vstd::prelude::*;
use vstd::set_lib::{lemma_int_range, lemma_len_subset, set_int_range};

use crate::error::DsError;

verus! {

/// A node of a [`SinglyList`]: a value and the handle of the next node.
pub struct Node {
    data: String,
    next: Option<usize>,
}

/// A forward-only linked sequence of text tokens.
///
/// The nodes live in an arena (`nodes`) and refer to the next node by handle,
/// that is by slot index; a removed node's slot goes to a free list for reuse.
/// `tail` is the handle of the last node, kept so that appending takes
/// constant time; it never names a released slot.
pub struct SinglyList {
    nodes: Vec<Option<Node>>,
    free: Vec<usize>,
    head: Option<usize>,
    tail: Option<usize>,
    size: usize,
    /// The handles of the nodes from head to tail.
    order: Ghost<Seq<usize>>,
}

/// Position of the first element of `s` whose text is `v`, if any.
pub open spec fn is_first_match(s: Seq<String>, v: Seq<char>, i: int) -> bool {
    &&& 0 <= i < s.len()
    &&& s[i]@ == v
    &&& forall|j: int| 0 <= j < i ==> #[trigger] s[j]@ != v
}

/// Some element of `s` has the text `v`.
pub open spec fn contains_text(s: Seq<String>, v: Seq<char>) -> bool {
    exists|i: int| 0 <= i < s.len() && #[trigger] s[i]@ == v
}

/// A sequence of distinct handles, all below `m`, has at most `m` elements.
proof fn lemma_distinct_handles_bounded(hs: Seq<usize>, m: nat)
    requires
        forall|k: int| 0 <= k < hs.len() ==> #[trigger] hs[k] < m,
        forall|a: int, b: int|
            0 <= a < hs.len() && 0 <= b < hs.len() && a != b ==> #[trigger] hs[a] != #[trigger] hs[b],
    ensures
        hs.len() <= m,
{
    let t = hs.map_values(|h: usize| h as int);
    assert(t.no_duplicates());
    t.unique_seq_to_set();
    lemma_int_range(0, m as int);
    assert(t.to_set().subset_of(set_int_range(0, m as int)));
    lemma_len_subset(t.to_set(), set_int_range(0, m as int));
}

impl View for SinglyList {
    /// The values from head to tail.
    type V = Seq<String>;

    closed spec fn view(&self) -> Seq<String> {
        Seq::new(self.order@.len(), |k: int| self.nodes@[self.order@[k] as int].unwrap().data)
    }
}

impl SinglyList {
    /// Every free slot is empty, and the free list names no slot twice.
    closed spec fn free_ok(&self) -> bool {
        &&& forall|j: int|
            0 <= j < self.free@.len() ==> #[trigger] self.free@[j] < self.nodes@.len()
                && self.nodes@[self.free@[j] as int].is_none()
        &&& forall|a: int, b: int|
            0 <= a < self.free@.len() && 0 <= b < self.free@.len() && a != b ==> #[trigger] self.free@[a]
                != #[trigger] self.free@[b]
    }

    /// The chain from head to tail visits the occupied slots of `order`, each
    /// once, the forward links follow `order`, `tail` names its last slot and
    /// `size` is its length.
    closed spec fn chain_ok(&self) -> bool {
        let ord = self.order@;
        let len = ord.len();
        &&& forall|k: int|
            0 <= k < len ==> #[trigger] ord[k] < self.nodes@.len() && self.nodes@[ord[k] as int].is_some()
        &&& forall|a: int, b: int|
            0 <= a < len && 0 <= b < len && a != b ==> #[trigger] ord[a] != #[trigger] ord[b]
        &&& forall|k: int|
            0 <= k < len ==> #[trigger] self.nodes@[ord[k] as int].unwrap().next == if k + 1 < len {
                Some(ord[k + 1])
            } else {
                None
            }
        &&& self.head == if len > 0 {
            Some(ord[0])
        } else {
            None
        }
        &&& self.tail == if len > 0 {
            Some(ord[len - 1])
        } else {
            None
        }
        &&& self.size == len
    }

    pub closed spec fn wf(&self) -> bool {
        self.free_ok() && self.chain_ok()
    }

    /// An empty list.
    pub fn new() -> (l: Self)
        ensures
            l.wf(),
            l@ == Seq::<String>::empty(),
    {
        let l = SinglyList {
            nodes: Vec::new(),
            free: Vec::new(),
            head: None,
            tail: None,
            size: 0,
            order: Ghost(Seq::empty()),
        };
        assert(l@ =~= Seq::<String>::empty());
        l
    }

    /// Inserts `value` before the first element.
    pub fn add_head(&mut self, value: String)
        requires
            old(self).wf(),
        ensures
            final(self).wf(),
            final(self)@ == seq![value] + old(self)@,
    {
        let ghost old_nodes = self.nodes@;
        let ghost ord = self.order@;
        let old_head = self.head;
        let h = self.allocate(Node { data: value, next: old_head });
        let arena_len = self.nodes.len();
        proof {
            old(self).lemma_fresh_handle(h);
            lemma_distinct_handles_bounded(ord.push(h), arena_len as nat);
            assert forall|k: int| 0 <= k < ord.len() implies #[trigger] self.nodes@[ord[k] as int]
                == old_nodes[ord[k] as int] by {
                assert(ord[k] < old_nodes.len());
            }
        }
        if self.tail.is_none() {
            self.tail = Some(h);
        }
        self.head = Some(h);
        self.size = self.size + 1;
        self.order = Ghost(seq![h] + ord);
        proof {
            let nord = self.order@;
            assert forall|k: int| 1 <= k < nord.len() implies #[trigger] self.nodes@[nord[k] as int]
                == old_nodes[ord[k - 1] as int] by {
                assert(nord[k] == ord[k - 1]);
            }
            assert(self.chain_ok());
            assert(self@ =~= seq![value] + old(self)@);
        }
    }

    /// Inserts `value` after the last element, in constant time through the
    /// tail handle.
    pub fn add_tail(&mut self, value: String)
        requires
            old(self).wf(),
        ensures
            final(self).wf(),
            final(self)@ == old(self)@.push(value),
    {
        let ghost old_nodes = self.nodes@;
        let ghost ord = self.order@;
        let old_tail = self.tail;
        let h = self.allocate(Node { data: value, next: None });
        let arena_len = self.nodes.len();
        proof {
            old(self).lemma_fresh_handle(h);
            lemma_distinct_handles_bounded(ord.push(h), arena_len as nat);
            assert forall|k: int| 0 <= k < ord.len() implies #[trigger] self.nodes@[ord[k] as int]
                == old_nodes[ord[k] as int] by {
                assert(ord[k] < old_nodes.len());
            }
        }
        let ghost mid_nodes = self.nodes@;
        match old_tail {
            Some(ot) => {
                proof {
                    assert(ord[ord.len() - 1] == ot);
                }
                self.set_next(ot, Some(h));
                proof {
                    assert forall|j: int| 0 <= j < self.free@.len() implies #[trigger] self.free@[j]
                        < self.nodes@.len() && self.nodes@[self.free@[j] as int].is_none() by {
                        assert(mid_nodes[self.free@[j] as int].is_none());
                    }
                }
            },
            None => {
                self.head = Some(h);
            },
        }
        self.tail = Some(h);
        self.size = self.size + 1;
        self.order = Ghost(ord.push(h));
        proof {
            let nord = self.order@;
            let last = ord.len() - 1;
            assert forall|k: int| 0 <= k < ord.len() implies #[trigger] self.nodes@[nord[k] as int]
                == if k == last {
                Some(Node { data: old_nodes[ord[last] as int].unwrap().data, next: Some(h) })
            } else {
                old_nodes[ord[k] as int]
            } by {
                assert(nord[k] == ord[k]);
                if k != last {
                    assert(ord[k] != ord[last]);
                }
            }
            assert(nord[ord.len() as int] == h);
            assert(self.chain_ok());
            assert(self@ =~= old(self)@.push(value));
        }
    }

    /// Removes the first element.
    pub fn remove_head(&mut self) -> (r: Result<(), DsError>)
        requires
            old(self).wf(),
        ensures
            final(self).wf(),
            old(self)@.len() == 0 ==> r == Err::<(), DsError>(DsError::EmptyList) && final(self)@ == old(
                self,
            )@,
            old(self)@.len() > 0 ==> r == Ok::<(), DsError>(()) && final(self)@ == old(self)@.drop_first(),
    {
        let ghost ord = self.order@;
        let ghost old_nodes = self.nodes@;
        match self.head {
            None => Err(DsError::EmptyList),
            Some(h) => {
                proof {
                    assert(ord[0] == h);
                }
                let next = self.next_of(h);
                self.release(h);
                self.head = next;
                if next.is_none() {
                    self.tail = None;
                }
                self.size = self.size - 1;
                self.order = Ghost(ord.drop_first());
                proof {
                    let nord = self.order@;
                    assert forall|k: int| 0 <= k < nord.len() implies #[trigger] self.nodes@[nord[k] as int]
                        == old_nodes[ord[k + 1] as int] by {
                        assert(nord[k] == ord[k + 1]);
                        assert(ord[k + 1] != ord[0]);
                    }
                    assert(self.chain_ok());
                    assert(self@ =~= old(self)@.drop_first());
                }
                Ok(())
            },
        }
    }

    /// Removes the last element. With no backward links, this walks from the
    /// head to the node before the last one.
    pub fn remove_tail(&mut self) -> (r: Result<(), DsError>)
        requires
            old(self).wf(),
        ensures
            final(self).wf(),
            old(self)@.len() == 0 ==> r == Err::<(), DsError>(DsError::EmptyList) && final(self)@ == old(
                self,
            )@,
            old(self)@.len() > 0 ==> r == Ok::<(), DsError>(()) && final(self)@ == old(self)@.drop_last(),
    {
        let ghost ord = self.order@;
        let ghost old_nodes = self.nodes@;
        let ghost last = ord.len() - 1;
        let first = match self.head {
            None => {
                return Err(DsError::EmptyList);
            },
            Some(h) => h,
        };
        proof {
            assert(ord[0] == first);
        }
        let second = self.next_of(first);
        if second.is_none() {
            self.release(first);
            self.head = None;
            self.tail = None;
            self.size = 0;
            self.order = Ghost(ord.drop_last());
            proof {
                assert(self@ =~= old(self)@.drop_last());
            }
            return Ok(());
        }
        let mut cur = first;
        let mut nx = second.unwrap();
        let ghost mut k: int = 0;
        while self.next_of(nx).is_some()
            invariant
                self.wf(),
                self.order@ == ord,
                self.nodes@ == old_nodes,
                0 <= k,
                k + 1 < ord.len(),
                cur == ord[k],
                nx == ord[k + 1],
            decreases ord.len() - k,
        {
            cur = nx;
            nx = self.next_of(nx).unwrap();
            proof {
                k = k + 1;
            }
        }
        proof {
            assert(k + 1 == last);
        }
        self.set_next(cur, None);
        let ghost mid_nodes = self.nodes@;
        self.release(nx);
        self.tail = Some(cur);
        self.size = self.size - 1;
        self.order = Ghost(ord.drop_last());
        proof {
            let nord = self.order@;
            assert forall|k2: int| 0 <= k2 < nord.len() implies #[trigger] self.nodes@[nord[k2] as int]
                == if k2 == k {
                Some(Node { data: old_nodes[ord[k] as int].unwrap().data, next: None })
            } else {
                old_nodes[ord[k2] as int]
            } by {
                assert(nord[k2] == ord[k2]);
                assert(ord[k2] != ord[last]);
                if k2 != k {
                    assert(ord[k2] != ord[k]);
                }
            }
            assert(self.chain_ok());
            assert(self@ =~= old(self)@.drop_last());
        }
        Ok(())
    }

    /// Removes the first element, in head-to-tail order, whose text is
    /// `value`.
    pub fn remove_value(&mut self, value: &str) -> (r: Result<(), DsError>)
        requires
            old(self).wf(),
        ensures
            final(self).wf(),
            old(self)@.len() == 0 ==> r == Err::<(), DsError>(DsError::EmptyList),
            old(self)@.len() > 0 && !contains_text(old(self)@, value@) ==> r == Err::<(), DsError>(
                DsError::ValueNotFound,
            ),
            r.is_err() ==> final(self)@ == old(self)@,
            contains_text(old(self)@, value@) ==> r == Ok::<(), DsError>(()) && exists|i: int|
                is_first_match(old(self)@, value@, i) && final(self)@ == old(self)@.remove(i),
    {
        let v = value.to_owned();
        let ghost ord = self.order@;
        let ghost old_nodes = self.nodes@;
        let first = match self.head {
            None => {
                return Err(DsError::EmptyList);
            },
            Some(h) => h,
        };
        proof {
            assert(ord[0] == first);
        }
        let first_matches = match &self.nodes[first] {
            Some(n) => n.data == v,
            None => false,
        };
        if first_matches {
            proof {
                assert(old(self)@[0]@ == value@);
                assert(is_first_match(old(self)@, value@, 0));
                assert(old(self)@.drop_first() =~= old(self)@.remove(0));
            }
            return self.remove_head();
        }
        let mut prev = first;
        let mut cur = self.next_of(first);
        let ghost mut k: int = 0;
        while cur.is_some()
            invariant
                self.wf(),
                self.order@ == ord,
                self.nodes@ == old_nodes,
                self@ == old(self)@,
                v@ == value@,
                0 <= k < ord.len(),
                prev == ord[k],
                cur == if k + 1 < ord.len() {
                    Some(ord[k + 1])
                } else {
                    None::<usize>
                },
                forall|j: int| 0 <= j <= k ==> #[trigger] self@[j]@ != v@,
            decreases ord.len() - k,
        {
            let c = cur.unwrap();
            let (matches, after) = match &self.nodes[c] {
                Some(n) => (n.data == v, n.next),
                None => (false, None),
            };
            proof {
                assert(self@[k + 1] == old_nodes[c as int].unwrap().data);
            }
            if matches {
                let ghost i = k + 1;
                self.set_next(prev, after);
                if after.is_none() {
                    self.tail = Some(prev);
                }
                self.release(c);
                self.size = self.size - 1;
                self.order = Ghost(ord.remove(i));
                proof {
                    let nord = self.order@;
                    assert forall|k2: int| 0 <= k2 < nord.len() implies #[trigger] self.nodes@[nord[k2] as int]
                        == if k2 == k {
                        Some(Node { data: old_nodes[ord[k] as int].unwrap().data, next: after })
                    } else {
                        old_nodes[nord[k2] as int]
                    } by {
                        if k2 < i {
                            assert(nord[k2] == ord[k2]);
                            assert(ord[k2] != ord[i]);
                            if k2 != k {
                                assert(ord[k2] != ord[k]);
                            }
                        } else {
                            assert(nord[k2] == ord[k2 + 1]);
                            assert(ord[k2 + 1] != ord[i]);
                            assert(ord[k2 + 1] != ord[k]);
                        }
                    }
                    assert(self.chain_ok());
                    assert(is_first_match(old(self)@, value@, i));
                    assert(self@ =~= old(self)@.remove(i));
                }
                return Ok(());
            }
            prev = c;
            cur = after;
            proof {
                k = k + 1;
            }
        }
        proof {
            assert forall|j: int| 0 <= j < old(self)@.len() implies #[trigger] old(self)@[j]@ != value@ by {
                assert(self@[j]@ != v@);
            }
        }
        Err(DsError::ValueNotFound)
    }

    /// The zero-based position of the first element whose text is `value`,
    /// scanning from the head.
    pub fn find(&self, value: &str) -> (r: Option<usize>)
        requires
            self.wf(),
        ensures
            r.is_none() <==> !contains_text(self@, value@),
            r.is_some() ==> is_first_match(self@, value@, r.unwrap() as int),
    {
        let v = value.to_owned();
        let ghost ord = self.order@;
        let mut cur = self.head;
        let mut index: usize = 0;
        while cur.is_some()
            invariant
                self.wf(),
                ord == self.order@,
                v@ == value@,
                0 <= index <= ord.len(),
                cur == if index < ord.len() {
                    Some(ord[index as int])
                } else {
                    None::<usize>
                },
                forall|j: int| 0 <= j < index ==> #[trigger] self@[j]@ != v@,
            decreases ord.len() - index,
        {
            let h = cur.unwrap();
            match &self.nodes[h] {
                Some(n) => {
                    if n.data == v {
                        assert(self@[index as int] == self.nodes@[h as int].unwrap().data);
                        return Some(index);
                    }
                    cur = n.next;
                },
                None => {
                    cur = None;
                },
            }
            index = index + 1;
        }
        None
    }

    /// The values from head to tail.
    pub fn iter(&self) -> (r: Vec<String>)
        requires
            self.wf(),
        ensures
            r@ == self@,
    {
        let ghost ord = self.order@;
        let mut r: Vec<String> = Vec::new();
        let mut cur = self.head;
        let ghost mut k: int = 0;
        while cur.is_some()
            invariant
                self.wf(),
                ord == self.order@,
                0 <= k <= ord.len(),
                cur == if k < ord.len() {
                    Some(ord[k])
                } else {
                    None::<usize>
                },
                r@ == self@.subrange(0, k),
            decreases ord.len() - k,
        {
            let h = cur.unwrap();
            match &self.nodes[h] {
                Some(n) => {
                    r.push(n.data.clone());
                    cur = n.next;
                },
                None => {
                    cur = None;
                },
            }
            proof {
                k = k + 1;
                assert(r@ =~= self@.subrange(0, k));
            }
        }
        assert(r@ =~= self@);
        r
    }

    /// Stores `node` in a free slot, or a new one, and returns its handle.
    fn allocate(&mut self, node: Node) -> (h: usize)
        requires
            old(self).free_ok(),
        ensures
            final(self).free_ok(),
            final(self).head == old(self).head,
            final(self).tail == old(self).tail,
            final(self).size == old(self).size,
            final(self).order == old(self).order,
            h < final(self).nodes@.len(),
            old(self).nodes@.len() <= final(self).nodes@.len(),
            final(self).nodes@[h as int] == Some(node),
            h >= old(self).nodes@.len() || old(self).nodes@[h as int].is_none(),
            forall|j: int|
                0 <= j < old(self).nodes@.len() && j != h ==> #[trigger] final(self).nodes@[j] == old(
                    self,
                ).nodes@[j],
    {
        match self.free.pop() {
            Some(h) => {
                proof {
                    assert(old(self).free@[old(self).free@.len() - 1] == h);
                }
                self.nodes[h] = Some(node);
                proof {
                    assert forall|j: int| 0 <= j < self.free@.len() implies #[trigger] self.free@[j]
                        < self.nodes@.len() && self.nodes@[self.free@[j] as int].is_none() by {
                        assert(old(self).free@[j] == self.free@[j]);
                        assert(self.free@[j] != h);
                    }
                    assert forall|a: int, b: int|
                        0 <= a < self.free@.len() && 0 <= b < self.free@.len() && a != b implies #[trigger] self.free@[a]
                        != #[trigger] self.free@[b] by {
                        assert(old(self).free@[a] == self.free@[a]);
                        assert(old(self).free@[b] == self.free@[b]);
                    }
                }
                h
            },
            None => {
                self.nodes.push(Some(node));
                self.nodes.len() - 1
            },
        }
    }

    /// No node of the chain occupies slot `h`, when `h` is past the end of
    /// the arena or empty.
    proof fn lemma_fresh_handle(&self, h: usize)
        requires
            self.chain_ok(),
            h >= self.nodes@.len() || self.nodes@[h as int].is_none(),
        ensures
            forall|k: int| 0 <= k < self.order@.len() ==> #[trigger] self.order@[k] != h,
    {
        assert forall|k: int| 0 <= k < self.order@.len() implies #[trigger] self.order@[k] != h by {
            assert(self.order@[k] < self.nodes@.len());
        }
    }

    /// Empties the slot `h`, which no node of the chain may use afterwards,
    /// and puts it on the free list.
    fn release(&mut self, h: usize)
        requires
            old(self).free_ok(),
            h < old(self).nodes@.len(),
            old(self).nodes@[h as int].is_some(),
        ensures
            final(self).free_ok(),
            final(self).nodes@ == old(self).nodes@.update(h as int, None),
            final(self).head == old(self).head,
            final(self).tail == old(self).tail,
            final(self).size == old(self).size,
            final(self).order == old(self).order,
    {
        self.nodes[h] = None;
        self.free.push(h);
        proof {
            let n = self.free@.len() - 1;
            assert forall|j: int| 0 <= j < self.free@.len() implies #[trigger] self.free@[j]
                < self.nodes@.len() && self.nodes@[self.free@[j] as int].is_none() by {
                if j < n {
                    assert(old(self).free@[j] == self.free@[j]);
                }
            }
            assert forall|a: int, b: int|
                0 <= a < self.free@.len() && 0 <= b < self.free@.len() && a != b implies #[trigger] self.free@[a]
                != #[trigger] self.free@[b] by {
                if a < n {
                    assert(old(self).free@[a] == self.free@[a]);
                }
                if b < n {
                    assert(old(self).free@[b] == self.free@[b]);
                }
            }
        }
    }

    /// Replaces the forward link of the node at handle `h`.
    fn set_next(&mut self, h: usize, x: Option<usize>)
        requires
            h < old(self).nodes@.len(),
            old(self).nodes@[h as int].is_some(),
        ensures
            final(self).nodes@ == old(self).nodes@.update(
                h as int,
                Some(Node { data: old(self).nodes@[h as int].unwrap().data, next: x }),
            ),
            final(self).free == old(self).free,
            final(self).head == old(self).head,
            final(self).tail == old(self).tail,
            final(self).size == old(self).size,
            final(self).order == old(self).order,
    {
        let n = self.nodes[h].take().unwrap();
        self.nodes[h] = Some(Node { data: n.data, next: x });
        assert(self.nodes@ =~= old(self).nodes@.update(
            h as int,
            Some(Node { data: old(self).nodes@[h as int].unwrap().data, next: x }),
        ));
    }

    /// The forward link of the node at handle `h`.
    fn next_of(&self, h: usize) -> (r: Option<usize>)
        requires
            h < self.nodes@.len(),
            self.nodes@[h as int].is_some(),
        ensures
            r == self.nodes@[h as int].unwrap().next,
    {
        match &self.nodes[h] {
            Some(n) => n.next,
            None => None,
        }
    }
}

} // verus!
