use vstd::prelude::*;

use crate::array::Array;
use crate::command::Command;
use crate::error::DsError;
use crate::doubly_list::DoublyList;
use crate::full_binary_tree::{complete_shape_is_full, drawing, inorder_positions, FullBinaryTree};
use crate::queue::Queue;
use crate::singly_list::{contains_text, is_first_match, SinglyList};
use crate::stack::Stack;

verus! {

/// One of the six containers of a session.
#[derive(Debug, Clone, Copy, PartialEq, Eq, Structural)]
pub enum Structure {
    Array,
    SinglyList,
    DoublyList,
    Stack,
    Queue,
    Tree,
}

impl Structure {
    /// The suffix that names the text source holding this container.
    pub fn file_suffix(&self) -> &'static str {
        match self {
            Structure::Array => "array",
            Structure::SinglyList => "singly_list",
            Structure::DoublyList => "doubly_list",
            Structure::Stack => "stack",
            Structure::Queue => "queue",
            Structure::Tree => "tree",
        }
    }
}

/// The values of a tree in inorder, given its values in level order.
pub open spec fn inorder_of(level_order: Seq<String>) -> Seq<String> {
    inorder_positions(0, level_order.len()).map_values(|k: nat| level_order[k as int])
}

/// What carrying out a [`Command`] gave back.
pub enum Outcome {
    /// The container was changed as asked.
    Done,
    /// The operation could not be carried out; nothing changed.
    Failed(DsError),
    /// An element read or removed.
    Value(String),
    /// The number of elements of the array.
    Length(usize),
    /// Where a value was found in the singly linked list, if anywhere.
    Position(Option<usize>),
    /// Whether a value was found.
    Found(bool),
    /// Whether the stack or the queue is empty.
    IsEmpty(bool),
    /// Whether every node of the tree has zero or two children.
    IsFull(bool),
    /// The elements of a container in its display order.
    Values(Vec<String>),
    /// The drawing of the tree and its values in inorder.
    TreeView { lines: Vec<String>, inorder: Vec<String> },
}

/// `out` lists exactly the values `vals`.
pub open spec fn values_out(out: Outcome, vals: Seq<String>) -> bool {
    out is Values && out->Values_0@ == vals
}

/// Every container but `s` has the same content in `a` as in `b`.
pub open spec fn others_same(b: DataStructures, a: DataStructures, s: Structure) -> bool {
    &&& (s != Structure::Array ==> a.array@ == b.array@)
    &&& (s != Structure::SinglyList ==> a.singly_list@ == b.singly_list@)
    &&& (s != Structure::DoublyList ==> a.doubly_list@ == b.doubly_list@)
    &&& (s != Structure::Stack ==> a.stack@ == b.stack@)
    &&& (s != Structure::Queue ==> a.queue@ == b.queue@)
    &&& (s != Structure::Tree ==> a.tree@ == b.tree@)
}

/// Every container has the same content in `a` as in `b`.
pub open spec fn all_same(b: DataStructures, a: DataStructures) -> bool {
    others_same(b, a, Structure::Array) && a.array@ == b.array@
}

/// Carrying out `cmd` on the containers `b` leaves them as `a` and gives
/// back `out`.
pub open spec fn executed(b: DataStructures, a: DataStructures, cmd: Command, out: Outcome) -> bool {
    match cmd {
        Command::ArrayPushBack(v) => others_same(b, a, Structure::Array) && (a.array@ == b.array@.push(v) && out == Outcome::Done),
        Command::ArrayPushIndex(i, v) => others_same(b, a, Structure::Array) && (if i <= b.array@.len() {
                a.array@ == b.array@.insert(i as int, v) && out == Outcome::Done
            } else {
                a.array@ == b.array@ && out == Outcome::Failed(DsError::IndexOutOfBounds)
            }),
        Command::ArrayRemove(i) => others_same(b, a, Structure::Array) && (if i < b.array@.len() {
                a.array@ == b.array@.remove(i as int) && out == Outcome::Done
            } else {
                a.array@ == b.array@ && out == Outcome::Failed(DsError::IndexOutOfBounds)
            }),
        Command::ArrayGet(i) => all_same(b, a) && (if i < b.array@.len() {
                out == Outcome::Value(b.array@[i as int])
            } else {
                out == Outcome::Failed(DsError::IndexOutOfBounds)
            }),
        Command::ArrayReplace(i, v) => others_same(b, a, Structure::Array) && (if i < b.array@.len() {
                a.array@ == b.array@.update(i as int, v) && out == Outcome::Done
            } else {
                a.array@ == b.array@ && out == Outcome::Failed(DsError::IndexOutOfBounds)
            }),
        Command::ArrayLength => all_same(b, a) && (out == Outcome::Length(b.array@.len() as usize)),
        Command::ArrayPrint => all_same(b, a) && (values_out(out, b.array@)),
        Command::SinglyPushHead(v) => others_same(b, a, Structure::SinglyList) && (a.singly_list@ == seq![v] + b.singly_list@ && out == Outcome::Done),
        Command::SinglyPushTail(v) => others_same(b, a, Structure::SinglyList) && (a.singly_list@ == b.singly_list@.push(v) && out == Outcome::Done),
        Command::SinglyRemoveHead => others_same(b, a, Structure::SinglyList) && (if b.singly_list@.len() > 0 {
                a.singly_list@ == b.singly_list@.drop_first() && out == Outcome::Done
            } else {
                a.singly_list@ == b.singly_list@ && out == Outcome::Failed(DsError::EmptyList)
            }),
        Command::SinglyRemoveTail => others_same(b, a, Structure::SinglyList) && (if b.singly_list@.len() > 0 {
                a.singly_list@ == b.singly_list@.drop_last() && out == Outcome::Done
            } else {
                a.singly_list@ == b.singly_list@ && out == Outcome::Failed(DsError::EmptyList)
            }),
        Command::SinglyRemoveValue(v) => others_same(b, a, Structure::SinglyList) && (if b.singly_list@.len() == 0 {
                a.singly_list@ == b.singly_list@ && out == Outcome::Failed(DsError::EmptyList)
            } else if !contains_text(b.singly_list@, v@) {
                a.singly_list@ == b.singly_list@ && out == Outcome::Failed(DsError::ValueNotFound)
            } else {
                out == Outcome::Done && exists|i: int|
                    is_first_match(b.singly_list@, v@, i) && a.singly_list@ == b.singly_list@.remove(i)
            }),
        Command::SinglySearch(v) => all_same(b, a) && (out is Position && (out->Position_0 is None <==> !contains_text(b.singly_list@, v@)) && (out->Position_0 is Some ==> is_first_match(b.singly_list@, v@, out->Position_0.unwrap() as int))),
        Command::SinglyPrint => all_same(b, a) && (values_out(out, b.singly_list@)),
        Command::DoublyPushHead(v) => others_same(b, a, Structure::DoublyList) && (a.doubly_list@ == seq![v] + b.doubly_list@ && out == Outcome::Done),
        Command::DoublyPushTail(v) => others_same(b, a, Structure::DoublyList) && (a.doubly_list@ == b.doubly_list@.push(v) && out == Outcome::Done),
        Command::DoublyRemoveHead => others_same(b, a, Structure::DoublyList) && (if b.doubly_list@.len() > 0 {
                a.doubly_list@ == b.doubly_list@.drop_first() && out == Outcome::Done
            } else {
                a.doubly_list@ == b.doubly_list@ && out == Outcome::Failed(DsError::EmptyList)
            }),
        Command::DoublyRemoveTail => others_same(b, a, Structure::DoublyList) && (if b.doubly_list@.len() > 0 {
                a.doubly_list@ == b.doubly_list@.drop_last() && out == Outcome::Done
            } else {
                a.doubly_list@ == b.doubly_list@ && out == Outcome::Failed(DsError::EmptyList)
            }),
        Command::DoublySearch(v) => all_same(b, a) && (out == Outcome::Found(contains_text(b.doubly_list@, v@))),
        Command::DoublyPrintForward => all_same(b, a) && (values_out(out, b.doubly_list@)),
        Command::DoublyPrintBackward => all_same(b, a) && (values_out(out, b.doubly_list@.reverse())),
        Command::StackPush(v) => others_same(b, a, Structure::Stack) && (a.stack@ == b.stack@.push(v) && out == Outcome::Done),
        Command::StackPop => others_same(b, a, Structure::Stack) && (if b.stack@.len() > 0 {
                a.stack@ == b.stack@.drop_last() && out == Outcome::Value(b.stack@.last())
            } else {
                a.stack@ == b.stack@ && out == Outcome::Failed(DsError::EmptyStack)
            }),
        Command::StackPeek => all_same(b, a) && (if b.stack@.len() > 0 {
                out == Outcome::Value(b.stack@.last())
            } else {
                out == Outcome::Failed(DsError::EmptyStack)
            }),
        Command::StackIsEmpty => all_same(b, a) && (out == Outcome::IsEmpty(b.stack@.len() == 0)),
        Command::StackPrint => all_same(b, a) && (values_out(out, b.stack@.reverse())),
        Command::QueuePush(v) => others_same(b, a, Structure::Queue) && (a.queue@ == b.queue@.push(v) && out == Outcome::Done),
        Command::QueuePop => others_same(b, a, Structure::Queue) && (if b.queue@.len() > 0 {
                a.queue@ == b.queue@.drop_first() && out == Outcome::Value(b.queue@[0])
            } else {
                a.queue@ == b.queue@ && out == Outcome::Failed(DsError::EmptyQueue)
            }),
        Command::QueuePeek => all_same(b, a) && (if b.queue@.len() > 0 {
                out == Outcome::Value(b.queue@[0])
            } else {
                out == Outcome::Failed(DsError::EmptyQueue)
            }),
        Command::QueueIsEmpty => all_same(b, a) && (out == Outcome::IsEmpty(b.queue@.len() == 0)),
        Command::QueuePrint => all_same(b, a) && (values_out(out, b.queue@)),
        Command::TreeInsert(v) => others_same(b, a, Structure::Tree) && (a.tree@ == b.tree@.push(v) && out == Outcome::Done),
        Command::TreeSearch(v) => all_same(b, a) && (out == Outcome::Found(contains_text(b.tree@, v@))),
        Command::TreeIsFull => all_same(b, a) && (out == Outcome::IsFull(complete_shape_is_full(b.tree@.len()))),
        Command::TreePrint => all_same(b, a) && (out is TreeView && out->lines@.map_values(|l: String| l@) == drawing(b.tree@, 0, Seq::empty(), false)
                && out->inorder@ == inorder_of(b.tree@)),
    }
}

/// Saving a container and loading the saved tokens into an empty container
/// of the same kind gives back its content, for all but the tree. The tree is
/// saved in inorder and reloaded by level-order insertion, so the reloaded
/// tree holds the saved inorder sequence as its level order.
pub proof fn lemma_round_trip(ds: DataStructures, s: Structure, reloaded: Seq<String>)
    requires
        reloaded == Seq::<String>::empty() + ds.saved(s),
    ensures
        s != Structure::Tree ==> reloaded == ds.content(s),
        s == Structure::Tree ==> reloaded == inorder_of(ds.tree@),
{
    assert(Seq::<String>::empty() + ds.saved(s) =~= ds.saved(s));
}

/// The six containers that one session works on.
pub struct DataStructures {
    pub array: Array,
    pub singly_list: SinglyList,
    pub doubly_list: DoublyList,
    pub stack: Stack,
    pub queue: Queue,
    pub tree: FullBinaryTree,
}

impl DataStructures {
    pub open spec fn wf(&self) -> bool {
        &&& self.singly_list.wf()
        &&& self.doubly_list.wf()
        &&& self.tree.wf()
    }

    /// The logical content of one container: the array and the lists from
    /// first to last, the stack from bottom to top, the queue from front to
    /// back, the tree in level order.
    pub open spec fn content(&self, s: Structure) -> Seq<String> {
        match s {
            Structure::Array => self.array@,
            Structure::SinglyList => self.singly_list@,
            Structure::DoublyList => self.doubly_list@,
            Structure::Stack => self.stack@,
            Structure::Queue => self.queue@,
            Structure::Tree => self.tree@,
        }
    }

    /// The tokens written out for one container: the content itself (the
    /// stack in push order), but the tree in inorder.
    pub open spec fn saved(&self, s: Structure) -> Seq<String> {
        match s {
            Structure::Tree => inorder_of(self.tree@),
            _ => self.content(s),
        }
    }

    /// Carries out one command on the containers.
    pub fn execute(&mut self, cmd: &Command) -> (out: Outcome)
        requires
            old(self).wf(),
            *cmd is TreeInsert ==> old(self).tree@.len() < usize::MAX,
        ensures
            final(self).wf(),
            executed(*old(self), *final(self), *cmd, out),
    {
        match cmd {
            Command::ArrayPushBack(v) => {
                let v = v.clone();
                self.array.add_back(v);
                Outcome::Done
            },
            Command::ArrayPushIndex(i, v) => {
                let i = *i;
                let v = v.clone();
                match self.array.add_index(i, v) {
                    Ok(()) => Outcome::Done,
                    Err(e) => Outcome::Failed(e),
                }
            },
            Command::ArrayRemove(i) => {
                let i = *i;
                match self.array.remove_index(i) {
                    Ok(()) => Outcome::Done,
                    Err(e) => Outcome::Failed(e),
                }
            },
            Command::ArrayGet(i) => {
                let i = *i;
                match self.array.get_index(i) {
                    Ok(v) => Outcome::Value(v.clone()),
                    Err(e) => Outcome::Failed(e),
                }
            },
            Command::ArrayReplace(i, v) => {
                let i = *i;
                let v = v.clone();
                match self.array.replace_index(i, v) {
                    Ok(()) => Outcome::Done,
                    Err(e) => Outcome::Failed(e),
                }
            },
            Command::ArrayLength => {
                Outcome::Length(self.array.len())
            },
            Command::ArrayPrint => {
                Outcome::Values(self.array.iter())
            },
            Command::SinglyPushHead(v) => {
                let v = v.clone();
                self.singly_list.add_head(v);
                Outcome::Done
            },
            Command::SinglyPushTail(v) => {
                let v = v.clone();
                self.singly_list.add_tail(v);
                Outcome::Done
            },
            Command::SinglyRemoveHead => {
                match self.singly_list.remove_head() {
                    Ok(()) => Outcome::Done,
                    Err(e) => Outcome::Failed(e),
                }
            },
            Command::SinglyRemoveTail => {
                match self.singly_list.remove_tail() {
                    Ok(()) => Outcome::Done,
                    Err(e) => Outcome::Failed(e),
                }
            },
            Command::SinglyRemoveValue(v) => {
                let v = v.clone();
                match self.singly_list.remove_value(v.as_str()) {
                    Ok(()) => Outcome::Done,
                    Err(e) => Outcome::Failed(e),
                }
            },
            Command::SinglySearch(v) => {
                let v = v.clone();
                Outcome::Position(self.singly_list.find(v.as_str()))
            },
            Command::SinglyPrint => {
                Outcome::Values(self.singly_list.iter())
            },
            Command::DoublyPushHead(v) => {
                let v = v.clone();
                self.doubly_list.add_head(v);
                Outcome::Done
            },
            Command::DoublyPushTail(v) => {
                let v = v.clone();
                self.doubly_list.add_tail(v);
                Outcome::Done
            },
            Command::DoublyRemoveHead => {
                match self.doubly_list.remove_head() {
                    Ok(()) => Outcome::Done,
                    Err(e) => Outcome::Failed(e),
                }
            },
            Command::DoublyRemoveTail => {
                match self.doubly_list.remove_tail() {
                    Ok(()) => Outcome::Done,
                    Err(e) => Outcome::Failed(e),
                }
            },
            Command::DoublySearch(v) => {
                let v = v.clone();
                Outcome::Found(self.doubly_list.find(v.as_str()))
            },
            Command::DoublyPrintForward => {
                Outcome::Values(self.doubly_list.iter())
            },
            Command::DoublyPrintBackward => {
                Outcome::Values(self.doubly_list.iter_backward())
            },
            Command::StackPush(v) => {
                let v = v.clone();
                self.stack.push(v);
                Outcome::Done
            },
            Command::StackPop => {
                match self.stack.pop() {
                    Ok(v) => Outcome::Value(v),
                    Err(e) => Outcome::Failed(e),
                }
            },
            Command::StackPeek => {
                match self.stack.peek() {
                    Ok(v) => Outcome::Value(v.clone()),
                    Err(e) => Outcome::Failed(e),
                }
            },
            Command::StackIsEmpty => {
                Outcome::IsEmpty(self.stack.is_empty())
            },
            Command::StackPrint => {
                Outcome::Values(self.stack.iter())
            },
            Command::QueuePush(v) => {
                let v = v.clone();
                self.queue.enqueue(v);
                Outcome::Done
            },
            Command::QueuePop => {
                match self.queue.dequeue() {
                    Ok(v) => Outcome::Value(v),
                    Err(e) => Outcome::Failed(e),
                }
            },
            Command::QueuePeek => {
                match self.queue.peek() {
                    Ok(v) => Outcome::Value(v.clone()),
                    Err(e) => Outcome::Failed(e),
                }
            },
            Command::QueueIsEmpty => {
                Outcome::IsEmpty(self.queue.is_empty())
            },
            Command::QueuePrint => {
                Outcome::Values(self.queue.iter())
            },
            Command::TreeInsert(v) => {
                let v = v.clone();
                self.tree.insert(v);
                Outcome::Done
            },
            Command::TreeSearch(v) => {
                let v = v.clone();
                Outcome::Found(self.tree.search(v.as_str()))
            },
            Command::TreeIsFull => {
                Outcome::IsFull(self.tree.is_full())
            },
            Command::TreePrint => {
                Outcome::TreeView { lines: self.tree.display_lines(), inorder: self.tree.collect_inorder() }
            },
        }
    }

    /// Six empty containers.
    pub fn new() -> (ds: Self)
        ensures
            ds.wf(),
            forall|s: Structure| #[trigger] ds.content(s) == Seq::<String>::empty(),
    {
        DataStructures {
            array: Array::new(10),
            singly_list: SinglyList::new(),
            doubly_list: DoublyList::new(),
            stack: Stack::new(10),
            queue: Queue::new(),
            tree: FullBinaryTree::new(),
        }
    }

    /// Replays `tokens`, in order, through the natural append operation of
    /// container `s`: `add_back`, `add_tail`, `push`, `enqueue` or `insert`.
    pub fn load_tokens(&mut self, s: Structure, tokens: &Vec<String>)
        requires
            old(self).wf(),
            s == Structure::Tree ==> old(self).tree@.len() + tokens@.len() < usize::MAX,
        ensures
            final(self).wf(),
            final(self).content(s) == old(self).content(s) + tokens@,
            forall|o: Structure| o != s ==> #[trigger] final(self).content(o) == old(self).content(o),
    {
        let mut i: usize = 0;
        while i < tokens.len()
            invariant
                self.wf(),
                i <= tokens@.len(),
                s == Structure::Tree ==> old(self).tree@.len() + tokens@.len() < usize::MAX,
                self.content(s) == old(self).content(s) + tokens@.subrange(0, i as int),
                forall|o: Structure| o != s ==> #[trigger] self.content(o) == old(self).content(o),
            decreases tokens@.len() - i,
        {
            let t = tokens[i].clone();
            let ghost before = self.content(s);
            let ghost prev = *self;
            match s {
                Structure::Array => self.array.add_back(t),
                Structure::SinglyList => self.singly_list.add_tail(t),
                Structure::DoublyList => self.doubly_list.add_tail(t),
                Structure::Stack => self.stack.push(t),
                Structure::Queue => self.queue.enqueue(t),
                Structure::Tree => self.tree.insert(t),
            }
            i = i + 1;
            proof {
                assert forall|o: Structure| o != s implies #[trigger] self.content(o) == prev.content(
                    o,
                ) by {
                    match o {
                        Structure::Array => {},
                        Structure::SinglyList => {},
                        Structure::DoublyList => {},
                        Structure::Stack => {},
                        Structure::Queue => {},
                        Structure::Tree => {},
                    }
                }
                assert(self.content(s) == before.push(tokens@[i - 1]));
                assert(tokens@.subrange(0, i as int) =~= tokens@.subrange(0, i - 1).push(
                    tokens@[i - 1],
                ));
            }
        }
        assert(tokens@.subrange(0, tokens@.len() as int) =~= tokens@);
    }

    /// The tokens to write out for container `s`, in the order that
    /// `load_tokens` replays them.
    pub fn saved_tokens(&self, s: Structure) -> (r: Vec<String>)
        requires
            self.wf(),
        ensures
            r@ == self.saved(s),
    {
        match s {
            Structure::Array => self.array.iter(),
            Structure::SinglyList => self.singly_list.iter(),
            Structure::DoublyList => self.doubly_list.iter(),
            Structure::Stack => {
                let top_first = self.stack.iter();
                let mut r: Vec<String> = Vec::new();
                let mut i: usize = top_first.len();
                while i > 0
                    invariant
                        i <= top_first@.len(),
                        top_first@ == self.stack@.reverse(),
                        r@ == top_first@.subrange(i as int, top_first@.len() as int).reverse(),
                    decreases i,
                {
                    i = i - 1;
                    r.push(top_first[i].clone());
                    assert(r@ =~= top_first@.subrange(i as int, top_first@.len() as int).reverse());
                }
                assert(r@ =~= self.stack@);
                r
            },
            Structure::Queue => self.queue.iter(),
            Structure::Tree => self.tree.collect_inorder(),
        }
    }
}

} // verus!
