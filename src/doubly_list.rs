use vstd::prelude::*;

use crate::error::DsError;

verus! {

/// A node of a [`DoublyList`]: a value and the handles of its neighbours.
pub struct DNode {
    data: String,
    prev: Option<usize>,
    next: Option<usize>,
}

/// A bidirectionally linked sequence of text tokens.
///
/// The nodes live in an arena (`nodes`) and refer to each other by handle,
/// that is by slot index; a removed node's slot goes to a free list for reuse.
/// The forward links form the chain from head to tail and the backward links
/// mirror them.
pub struct DoublyList {
    nodes: Vec<Option<DNode>>,
    free: Vec<usize>,
    head: Option<usize>,
    tail: Option<usize>,
    /// The handles of the nodes from head to tail.
    order: Ghost<Seq<usize>>,
}

impl View for DoublyList {
    /// The values from head to tail.
    type V = Seq<String>;

    closed spec fn view(&self) -> Seq<String> {
        Seq::new(self.order@.len(), |k: int| self.nodes@[self.order@[k] as int].unwrap().data)
    }
}

impl DoublyList {
    /// Every free slot is empty, and the free list names no slot twice.
    closed spec fn free_ok(&self) -> bool {
        &&& forall|j: int|
            0 <= j < self.free@.len() ==> #[trigger] self.free@[j] < self.nodes@.len()
                && self.nodes@[self.free@[j] as int].is_none()
        &&& forall|a: int, b: int|
            0 <= a < self.free@.len() && 0 <= b < self.free@.len() && a != b ==> #[trigger] self.free@[a]
                != #[trigger] self.free@[b]
    }

    /// The chain from head to tail visits the occupied slots of `order`, each
    /// once, and the links in both directions follow `order`.
    closed spec fn chain_ok(&self) -> bool {
        let ord = self.order@;
        let len = ord.len();
        &&& forall|k: int|
            0 <= k < len ==> #[trigger] ord[k] < self.nodes@.len() && self.nodes@[ord[k] as int].is_some()
        &&& forall|a: int, b: int|
            0 <= a < len && 0 <= b < len && a != b ==> #[trigger] ord[a] != #[trigger] ord[b]
        &&& forall|k: int|
            0 <= k < len ==> #[trigger] self.nodes@[ord[k] as int].unwrap().next == if k + 1 < len {
                Some(ord[k + 1])
            } else {
                None
            }
        &&& forall|k: int|
            0 <= k < len ==> #[trigger] self.nodes@[ord[k] as int].unwrap().prev == if k > 0 {
                Some(ord[k - 1])
            } else {
                None
            }
        &&& self.head == if len > 0 {
            Some(ord[0])
        } else {
            None
        }
        &&& self.tail == if len > 0 {
            Some(ord[len - 1])
        } else {
            None
        }
    }

    pub closed spec fn wf(&self) -> bool {
        self.free_ok() && self.chain_ok()
    }

    /// An empty list.
    pub fn new() -> (l: Self)
        ensures
            l.wf(),
            l@ == Seq::<String>::empty(),
    {
        let l = DoublyList {
            nodes: Vec::new(),
            free: Vec::new(),
            head: None,
            tail: None,
            order: Ghost(Seq::empty()),
        };
        assert(l@ =~= Seq::<String>::empty());
        l
    }

    /// Stores `node` in a free slot, or a new one, and returns its handle.
    fn allocate(&mut self, node: DNode) -> (h: usize)
        requires
            old(self).free_ok(),
        ensures
            final(self).free_ok(),
            final(self).head == old(self).head,
            final(self).tail == old(self).tail,
            final(self).order == old(self).order,
            h < final(self).nodes@.len(),
            old(self).nodes@.len() <= final(self).nodes@.len(),
            final(self).nodes@[h as int] == Some(node),
            h >= old(self).nodes@.len() || old(self).nodes@[h as int].is_none(),
            forall|j: int|
                0 <= j < old(self).nodes@.len() && j != h ==> #[trigger] final(self).nodes@[j] == old(
                    self,
                ).nodes@[j],
    {
        match self.free.pop() {
            Some(h) => {
                proof {
                    assert(old(self).free@[old(self).free@.len() - 1] == h);
                }
                self.nodes[h] = Some(node);
                proof {
                    assert forall|j: int| 0 <= j < self.free@.len() implies #[trigger] self.free@[j]
                        < self.nodes@.len() && self.nodes@[self.free@[j] as int].is_none() by {
                        assert(old(self).free@[j] == self.free@[j]);
                        assert(self.free@[j] != h);
                    }
                    assert forall|a: int, b: int|
                        0 <= a < self.free@.len() && 0 <= b < self.free@.len() && a != b implies #[trigger] self.free@[a]
                        != #[trigger] self.free@[b] by {
                        assert(old(self).free@[a] == self.free@[a]);
                        assert(old(self).free@[b] == self.free@[b]);
                    }
                }
                h
            },
            None => {
                self.nodes.push(Some(node));
                self.nodes.len() - 1
            },
        }
    }

    /// No node of the chain occupies slot `h`, when `h` is past the end of
    /// the arena or empty.
    proof fn lemma_fresh_handle(&self, h: usize)
        requires
            self.chain_ok(),
            h >= self.nodes@.len() || self.nodes@[h as int].is_none(),
        ensures
            forall|k: int| 0 <= k < self.order@.len() ==> #[trigger] self.order@[k] != h,
    {
        assert forall|k: int| 0 <= k < self.order@.len() implies #[trigger] self.order@[k] != h by {
            assert(self.order@[k] < self.nodes@.len());
        }
    }

    /// Inserts `value` before the first element.
    pub fn add_head(&mut self, value: String)
        requires
            old(self).wf(),
        ensures
            final(self).wf(),
            final(self)@ == seq![value] + old(self)@,
    {
        let ghost old_nodes = self.nodes@;
        let ghost ord = self.order@;
        let old_head = self.head;
        let h = self.allocate(DNode { data: value, prev: None, next: old_head });
        proof {
            old(self).lemma_fresh_handle(h);
            assert forall|k: int| 0 <= k < ord.len() implies #[trigger] self.nodes@[ord[k] as int]
                == old_nodes[ord[k] as int] by {
                assert(ord[k] < old_nodes.len());
            }
        }
        let ghost mid_nodes = self.nodes@;
        match old_head {
            Some(oh) => {
                proof {
                    assert(ord[0] == oh);
                }
                self.set_prev(oh, Some(h));
                proof {
                    assert forall|j: int| 0 <= j < self.free@.len() implies #[trigger] self.free@[j]
                        < self.nodes@.len() && self.nodes@[self.free@[j] as int].is_none() by {
                        assert(mid_nodes[self.free@[j] as int].is_none());
                    }
                }
            },
            None => {
                self.tail = Some(h);
            },
        }
        self.head = Some(h);
        self.order = Ghost(seq![h] + ord);
        proof {
            let nord = self.order@;
            assert forall|k: int| 1 <= k < nord.len() implies #[trigger] self.nodes@[nord[k] as int]
                == if k == 1 {
                Some(
                    DNode {
                        data: old_nodes[ord[0] as int].unwrap().data,
                        prev: Some(h),
                        next: old_nodes[ord[0] as int].unwrap().next,
                    },
                )
            } else {
                old_nodes[ord[k - 1] as int]
            } by {
                assert(nord[k] == ord[k - 1]);
                if k > 1 {
                    assert(ord[k - 1] != ord[0]);
                }
            }
            assert(self.chain_ok());
            assert(self@ =~= seq![value] + old(self)@);
        }
    }

    /// Inserts `value` after the last element.
    pub fn add_tail(&mut self, value: String)
        requires
            old(self).wf(),
        ensures
            final(self).wf(),
            final(self)@ == old(self)@.push(value),
    {
        let ghost old_nodes = self.nodes@;
        let ghost ord = self.order@;
        let old_tail = self.tail;
        let h = self.allocate(DNode { data: value, prev: old_tail, next: None });
        proof {
            old(self).lemma_fresh_handle(h);
            assert forall|k: int| 0 <= k < ord.len() implies #[trigger] self.nodes@[ord[k] as int]
                == old_nodes[ord[k] as int] by {
                assert(ord[k] < old_nodes.len());
            }
        }
        let ghost mid_nodes = self.nodes@;
        match old_tail {
            Some(ot) => {
                proof {
                    assert(ord[ord.len() - 1] == ot);
                }
                self.set_next(ot, Some(h));
                proof {
                    assert forall|j: int| 0 <= j < self.free@.len() implies #[trigger] self.free@[j]
                        < self.nodes@.len() && self.nodes@[self.free@[j] as int].is_none() by {
                        assert(mid_nodes[self.free@[j] as int].is_none());
                    }
                }
            },
            None => {
                self.head = Some(h);
            },
        }
        self.tail = Some(h);
        self.order = Ghost(ord.push(h));
        proof {
            let nord = self.order@;
            let last = ord.len() - 1;
            assert forall|k: int| 0 <= k < ord.len() implies #[trigger] self.nodes@[nord[k] as int]
                == if k == last {
                Some(
                    DNode {
                        data: old_nodes[ord[last] as int].unwrap().data,
                        prev: old_nodes[ord[last] as int].unwrap().prev,
                        next: Some(h),
                    },
                )
            } else {
                old_nodes[ord[k] as int]
            } by {
                assert(nord[k] == ord[k]);
                if k != last {
                    assert(ord[k] != ord[last]);
                }
            }
            assert(nord[ord.len() as int] == h);
            assert(self.chain_ok());
            assert(self@ =~= old(self)@.push(value));
        }
    }

    /// Whether some element equals `value`, scanning from the head.
    pub fn find(&self, value: &str) -> (r: bool)
        requires
            self.wf(),
        ensures
            r == exists|k: int| 0 <= k < self@.len() && #[trigger] self@[k]@ == value@,
    {
        let v = value.to_owned();
        assert(v@ == value@);
        let ghost ord = self.order@;
        let mut cur = self.head;
        let ghost mut k: int = 0;
        while cur.is_some()
            invariant
                self.wf(),
                ord == self.order@,
                v@ == value@,
                0 <= k <= ord.len(),
                cur == if k < ord.len() {
                    Some(ord[k])
                } else {
                    None::<usize>
                },
                forall|j: int| 0 <= j < k ==> #[trigger] self@[j]@ != v@,
            decreases ord.len() - k,
        {
            let h = cur.unwrap();
            match &self.nodes[h] {
                Some(n) => {
                    if n.data == v {
                        assert(self@[k] == self.nodes@[h as int].unwrap().data);
                        return true;
                    }
                    cur = n.next;
                },
                None => {
                    cur = None;
                },
            }
            proof {
                k = k + 1;
            }
        }
        false
    }

    /// The values from head to tail, following the forward links.
    pub fn iter(&self) -> (r: Vec<String>)
        requires
            self.wf(),
        ensures
            r@ == self@,
    {
        let ghost ord = self.order@;
        let mut r: Vec<String> = Vec::new();
        let mut cur = self.head;
        let ghost mut k: int = 0;
        while cur.is_some()
            invariant
                self.wf(),
                ord == self.order@,
                0 <= k <= ord.len(),
                cur == if k < ord.len() {
                    Some(ord[k])
                } else {
                    None::<usize>
                },
                r@ == self@.subrange(0, k),
            decreases ord.len() - k,
        {
            let h = cur.unwrap();
            match &self.nodes[h] {
                Some(n) => {
                    r.push(n.data.clone());
                    cur = n.next;
                },
                None => {
                    cur = None;
                },
            }
            proof {
                k = k + 1;
                assert(r@ =~= self@.subrange(0, k));
            }
        }
        assert(r@ =~= self@);
        r
    }

    /// The values from tail to head, following the backward links.
    pub fn iter_backward(&self) -> (r: Vec<String>)
        requires
            self.wf(),
        ensures
            r@ == self@.reverse(),
    {
        let ghost ord = self.order@;
        let mut r: Vec<String> = Vec::new();
        let mut cur = self.tail;
        let ghost mut k: int = ord.len() as int;
        while cur.is_some()
            invariant
                self.wf(),
                ord == self.order@,
                0 <= k <= ord.len(),
                cur == if k > 0 {
                    Some(ord[k - 1])
                } else {
                    None::<usize>
                },
                r@ == self@.subrange(k, ord.len() as int).reverse(),
            decreases k,
        {
            let h = cur.unwrap();
            match &self.nodes[h] {
                Some(n) => {
                    r.push(n.data.clone());
                    cur = n.prev;
                },
                None => {
                    cur = None;
                },
            }
            proof {
                k = k - 1;
                assert(r@ =~= self@.subrange(k, ord.len() as int).reverse());
            }
        }
        assert(r@ =~= self@.reverse());
        r
    }

    /// Empties the slot `h`, which no node of the chain may use afterwards,
    /// and puts it on the free list.
    fn release(&mut self, h: usize)
        requires
            old(self).free_ok(),
            h < old(self).nodes@.len(),
            old(self).nodes@[h as int].is_some(),
        ensures
            final(self).free_ok(),
            final(self).nodes@ == old(self).nodes@.update(h as int, None),
            final(self).head == old(self).head,
            final(self).tail == old(self).tail,
            final(self).order == old(self).order,
    {
        self.nodes[h] = None;
        self.free.push(h);
        proof {
            let n = self.free@.len() - 1;
            assert forall|j: int| 0 <= j < self.free@.len() implies #[trigger] self.free@[j]
                < self.nodes@.len() && self.nodes@[self.free@[j] as int].is_none() by {
                if j < n {
                    assert(old(self).free@[j] == self.free@[j]);
                }
            }
            assert forall|a: int, b: int|
                0 <= a < self.free@.len() && 0 <= b < self.free@.len() && a != b implies #[trigger] self.free@[a]
                != #[trigger] self.free@[b] by {
                if a < n {
                    assert(old(self).free@[a] == self.free@[a]);
                }
                if b < n {
                    assert(old(self).free@[b] == self.free@[b]);
                }
            }
        }
    }

    /// Removes the first element.
    pub fn remove_head(&mut self) -> (r: Result<(), DsError>)
        requires
            old(self).wf(),
        ensures
            final(self).wf(),
            old(self)@.len() == 0 ==> r == Err::<(), DsError>(DsError::EmptyList) && final(self)@ == old(
                self,
            )@,
            old(self)@.len() > 0 ==> r == Ok::<(), DsError>(()) && final(self)@ == old(self)@.drop_first(),
    {
        let ghost ord = self.order@;
        let ghost old_nodes = self.nodes@;
        match self.head {
            None => Err(DsError::EmptyList),
            Some(h) => {
                proof {
                    assert(ord[0] == h);
                }
                let next = match &self.nodes[h] {
                    Some(n) => n.next,
                    None => None,
                };
                self.release(h);
                proof {
                    assert forall|k: int| 1 <= k < ord.len() implies #[trigger] self.nodes@[ord[k] as int]
                        == old_nodes[ord[k] as int] by {
                        assert(ord[k] != ord[0]);
                    }
                }
                match next {
                    Some(n2) => {
                        proof {
                            assert(n2 == ord[1]);
                        }
                        let ghost mid_nodes = self.nodes@;
                        self.set_prev(n2, None);
                        proof {
                            assert forall|j: int| 0 <= j < self.free@.len() implies #[trigger] self.free@[j]
                                < self.nodes@.len() && self.nodes@[self.free@[j] as int].is_none() by {
                                assert(mid_nodes[self.free@[j] as int].is_none());
                            }
                        }
                        self.head = Some(n2);
                    },
                    None => {
                        self.head = None;
                        self.tail = None;
                    },
                }
                self.order = Ghost(ord.drop_first());
                proof {
                    let nord = self.order@;
                    assert forall|k: int| 0 <= k < nord.len() implies #[trigger] self.nodes@[nord[k] as int]
                        == if k == 0 {
                        Some(
                            DNode {
                                data: old_nodes[ord[1] as int].unwrap().data,
                                prev: None,
                                next: old_nodes[ord[1] as int].unwrap().next,
                            },
                        )
                    } else {
                        old_nodes[ord[k + 1] as int]
                    } by {
                        assert(nord[k] == ord[k + 1]);
                        if k > 0 {
                            assert(ord[k + 1] != ord[1]);
                        }
                    }
                    assert(self.chain_ok());
                    assert(self@ =~= old(self)@.drop_first());
                }
                Ok(())
            },
        }
    }

    /// Removes the last element.
    pub fn remove_tail(&mut self) -> (r: Result<(), DsError>)
        requires
            old(self).wf(),
        ensures
            final(self).wf(),
            old(self)@.len() == 0 ==> r == Err::<(), DsError>(DsError::EmptyList) && final(self)@ == old(
                self,
            )@,
            old(self)@.len() > 0 ==> r == Ok::<(), DsError>(()) && final(self)@ == old(self)@.drop_last(),
    {
        let ghost ord = self.order@;
        let ghost old_nodes = self.nodes@;
        let ghost last = ord.len() - 1;
        match self.tail {
            None => Err(DsError::EmptyList),
            Some(h) => {
                proof {
                    assert(ord[last] == h);
                }
                let prev = match &self.nodes[h] {
                    Some(n) => n.prev,
                    None => None,
                };
                self.release(h);
                proof {
                    assert forall|k: int| 0 <= k < last implies #[trigger] self.nodes@[ord[k] as int]
                        == old_nodes[ord[k] as int] by {
                        assert(ord[k] != ord[last]);
                    }
                }
                match prev {
                    Some(p) => {
                        proof {
                            assert(p == ord[last - 1]);
                        }
                        let ghost mid_nodes = self.nodes@;
                        self.set_next(p, None);
                        proof {
                            assert forall|j: int| 0 <= j < self.free@.len() implies #[trigger] self.free@[j]
                                < self.nodes@.len() && self.nodes@[self.free@[j] as int].is_none() by {
                                assert(mid_nodes[self.free@[j] as int].is_none());
                            }
                        }
                        self.tail = Some(p);
                    },
                    None => {
                        self.head = None;
                        self.tail = None;
                    },
                }
                self.order = Ghost(ord.drop_last());
                proof {
                    let nord = self.order@;
                    assert forall|k: int| 0 <= k < nord.len() implies #[trigger] self.nodes@[nord[k] as int]
                        == if k == last - 1 {
                        Some(
                            DNode {
                                data: old_nodes[ord[last - 1] as int].unwrap().data,
                                prev: old_nodes[ord[last - 1] as int].unwrap().prev,
                                next: None,
                            },
                        )
                    } else {
                        old_nodes[ord[k] as int]
                    } by {
                        assert(nord[k] == ord[k]);
                        if k != last - 1 {
                            assert(ord[k] != ord[last - 1]);
                        }
                    }
                    assert(self.chain_ok());
                    assert(self@ =~= old(self)@.drop_last());
                }
                Ok(())
            },
        }
    }

    /// Replaces the backward link of the node at handle `h`.
    fn set_prev(&mut self, h: usize, p: Option<usize>)
        requires
            h < old(self).nodes@.len(),
            old(self).nodes@[h as int].is_some(),
        ensures
            final(self).nodes@ == old(self).nodes@.update(
                h as int,
                Some(
                    DNode {
                        data: old(self).nodes@[h as int].unwrap().data,
                        prev: p,
                        next: old(self).nodes@[h as int].unwrap().next,
                    },
                ),
            ),
            final(self).free == old(self).free,
            final(self).head == old(self).head,
            final(self).tail == old(self).tail,
            final(self).order == old(self).order,
    {
        let n = self.nodes[h].take().unwrap();
        self.nodes[h] = Some(DNode { data: n.data, prev: p, next: n.next });
        assert(self.nodes@ =~= old(self).nodes@.update(
            h as int,
            Some(
                DNode {
                    data: old(self).nodes@[h as int].unwrap().data,
                    prev: p,
                    next: old(self).nodes@[h as int].unwrap().next,
                },
            ),
        ));
    }

    /// Replaces the forward link of the node at handle `h`.
    fn set_next(&mut self, h: usize, x: Option<usize>)
        requires
            h < old(self).nodes@.len(),
            old(self).nodes@[h as int].is_some(),
        ensures
            final(self).nodes@ == old(self).nodes@.update(
                h as int,
                Some(
                    DNode {
                        data: old(self).nodes@[h as int].unwrap().data,
                        prev: old(self).nodes@[h as int].unwrap().prev,
                        next: x,
                    },
                ),
            ),
            final(self).free == old(self).free,
            final(self).head == old(self).head,
            final(self).tail == old(self).tail,
            final(self).order == old(self).order,
    {
        let n = self.nodes[h].take().unwrap();
        self.nodes[h] = Some(DNode { data: n.data, prev: n.prev, next: x });
        assert(self.nodes@ =~= old(self).nodes@.update(
            h as int,
            Some(
                DNode {
                    data: old(self).nodes@[h as int].unwrap().data,
                    prev: old(self).nodes@[h as int].unwrap().prev,
                    next: x,
                },
            ),
        ));
    }
}

} // verus!
