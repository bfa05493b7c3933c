use data_structures::array::Array;
use data_structures::doubly_list::DoublyList;
use data_structures::error::DsError;
use data_structures::queue::Queue;
use data_structures::singly_list::SinglyList;
use data_structures::stack::Stack;

fn s(v: &str) -> String {
    v.to_string()
}

fn strs(v: &[&str]) -> Vec<String> {
    v.iter().map(|x| x.to_string()).collect()
}

#[test]
fn array_add_index_scenario() {
    let mut a = Array::new(10);
    a.add_back(s("a"));
    a.add_back(s("b"));
    a.add_back(s("c"));
    assert_eq!(a.add_index(1, s("x")), Ok(()));
    assert_eq!(a.iter(), strs(&["a", "x", "b", "c"]));
    assert_eq!(a.get_index(1), Ok(&s("x")));
    assert_eq!(a.len(), 4);
}

#[test]
fn array_add_index_at_end_and_out_of_bounds() {
    let mut a = Array::new(0);
    assert_eq!(a.add_index(0, s("a")), Ok(()));
    assert_eq!(a.add_index(1, s("b")), Ok(()));
    assert_eq!(a.add_index(3, s("z")), Err(DsError::IndexOutOfBounds));
    assert_eq!(a.iter(), strs(&["a", "b"]));
}

#[test]
fn array_remove_index_shifts_down() {
    let mut a = Array::new(4);
    for v in ["a", "b", "c", "d"] {
        a.add_back(s(v));
    }
    assert_eq!(a.remove_index(1), Ok(()));
    assert_eq!(a.len(), 3);
    assert_eq!(a.iter(), strs(&["a", "c", "d"]));
    assert_eq!(a.get_index(1), Ok(&s("c")));
    assert_eq!(a.remove_index(3), Err(DsError::IndexOutOfBounds));
    assert_eq!(a.len(), 3);
}

#[test]
fn array_get_and_replace_bounds() {
    let mut a = Array::new(1);
    assert_eq!(a.get_index(0), Err(DsError::IndexOutOfBounds));
    assert_eq!(a.replace_index(0, s("q")), Err(DsError::IndexOutOfBounds));
    a.add_back(s("p"));
    assert_eq!(a.replace_index(0, s("q")), Ok(()));
    assert_eq!(a.get_index(0), Ok(&s("q")));
    assert_eq!(a.get_index(1), Err(DsError::IndexOutOfBounds));
}

#[test]
fn singly_remove_head_on_empty_is_an_error() {
    let mut l = SinglyList::new();
    assert_eq!(l.remove_head(), Err(DsError::EmptyList));
    assert_eq!(l.remove_tail(), Err(DsError::EmptyList));
    assert_eq!(l.remove_value("a"), Err(DsError::EmptyList));
    assert!(l.iter().is_empty());
}

#[test]
fn singly_matches_plain_sequence() {
    let mut l = SinglyList::new();
    let mut model: Vec<String> = Vec::new();
    l.add_tail(s("b"));
    model.push(s("b"));
    l.add_head(s("a"));
    model.insert(0, s("a"));
    l.add_tail(s("c"));
    model.push(s("c"));
    assert_eq!(l.iter(), model);
    assert_eq!(l.remove_tail(), Ok(()));
    model.pop();
    assert_eq!(l.iter(), model);
    l.add_tail(s("d"));
    model.push(s("d"));
    assert_eq!(l.remove_head(), Ok(()));
    model.remove(0);
    assert_eq!(l.iter(), model);
    assert_eq!(l.remove_tail(), Ok(()));
    assert_eq!(l.remove_tail(), Ok(()));
    assert_eq!(l.remove_tail(), Err(DsError::EmptyList));
    l.add_tail(s("e"));
    assert_eq!(l.iter(), strs(&["e"]));
}

#[test]
fn singly_remove_value_first_match() {
    let mut l = SinglyList::new();
    for v in ["a", "b", "c", "b"] {
        l.add_tail(s(v));
    }
    assert_eq!(l.remove_value("b"), Ok(()));
    assert_eq!(l.iter(), strs(&["a", "c", "b"]));
    assert_eq!(l.remove_value("zz"), Err(DsError::ValueNotFound));
    assert_eq!(l.remove_value("a"), Ok(()));
    assert_eq!(l.iter(), strs(&["c", "b"]));
    assert_eq!(l.remove_value("b"), Ok(()));
    l.add_tail(s("t"));
    assert_eq!(l.iter(), strs(&["c", "t"]));
}

#[test]
fn singly_find_positions() {
    let mut l = SinglyList::new();
    for v in ["x", "y", "x"] {
        l.add_tail(s(v));
    }
    assert_eq!(l.find("x"), Some(0));
    assert_eq!(l.find("y"), Some(1));
    assert_eq!(l.find("q"), None);
}

#[test]
fn doubly_forward_and_backward() {
    let mut l = DoublyList::new();
    l.add_tail(s("b"));
    l.add_head(s("a"));
    l.add_tail(s("c"));
    assert_eq!(l.iter(), strs(&["a", "b", "c"]));
    let mut back = l.iter_backward();
    back.reverse();
    assert_eq!(back, l.iter());
    assert_eq!(l.remove_head(), Ok(()));
    assert_eq!(l.remove_tail(), Ok(()));
    assert_eq!(l.iter(), strs(&["b"]));
    assert_eq!(l.iter_backward(), strs(&["b"]));
    assert_eq!(l.remove_tail(), Ok(()));
    assert_eq!(l.remove_head(), Err(DsError::EmptyList));
    assert_eq!(l.remove_tail(), Err(DsError::EmptyList));
    assert!(l.iter().is_empty());
    assert!(l.iter_backward().is_empty());
    l.add_head(s("z"));
    l.add_head(s("y"));
    assert_eq!(l.iter_backward(), strs(&["z", "y"]));
}

#[test]
fn doubly_matches_plain_sequence() {
    let mut l = DoublyList::new();
    let mut model: Vec<String> = Vec::new();
    for (k, v) in ["p", "q", "r", "s", "t"].iter().enumerate() {
        if k % 2 == 0 {
            l.add_head(s(v));
            model.insert(0, s(v));
        } else {
            l.add_tail(s(v));
            model.push(s(v));
        }
        assert_eq!(l.iter(), model);
    }
    assert_eq!(l.remove_head(), Ok(()));
    model.remove(0);
    assert_eq!(l.remove_tail(), Ok(()));
    model.pop();
    assert_eq!(l.iter(), model);
    let mut back = l.iter_backward();
    back.reverse();
    assert_eq!(back, model);
    l.add_tail(s("u"));
    model.push(s("u"));
    assert_eq!(l.iter(), model);
}

#[test]
fn doubly_find() {
    let mut l = DoublyList::new();
    assert!(!l.find("a"));
    l.add_tail(s("a"));
    l.add_tail(s("b"));
    assert!(l.find("b"));
    assert!(!l.find("c"));
}

#[test]
fn stack_pops_in_reverse_push_order() {
    let mut st = Stack::new(2);
    assert!(st.is_empty());
    for v in ["v1", "v2", "v3"] {
        st.push(s(v));
    }
    assert_eq!(st.iter(), strs(&["v3", "v2", "v1"]));
    assert_eq!(st.peek(), Ok(&s("v3")));
    assert_eq!(st.pop(), Ok(s("v3")));
    assert_eq!(st.pop(), Ok(s("v2")));
    assert_eq!(st.pop(), Ok(s("v1")));
    assert_eq!(st.pop(), Err(DsError::EmptyStack));
    assert_eq!(st.peek(), Err(DsError::EmptyStack));
    assert!(st.is_empty());
}

#[test]
fn queue_dequeues_in_enqueue_order() {
    let mut q = Queue::new();
    assert!(q.is_empty());
    for v in ["v1", "v2", "v3"] {
        q.enqueue(s(v));
    }
    assert_eq!(q.iter(), strs(&["v1", "v2", "v3"]));
    assert_eq!(q.peek(), Ok(&s("v1")));
    assert_eq!(q.dequeue(), Ok(s("v1")));
    assert_eq!(q.dequeue(), Ok(s("v2")));
    assert_eq!(q.dequeue(), Ok(s("v3")));
    assert_eq!(q.dequeue(), Err(DsError::EmptyQueue));
    assert_eq!(q.peek(), Err(DsError::EmptyQueue));
    assert!(q.is_empty());
}

#[test]
fn error_messages() {
    assert_eq!(DsError::EmptyList.message(), "List is empty");
    assert_eq!(DsError::EmptyStack.message(), "Stack is empty");
    assert_eq!(DsError::EmptyQueue.message(), "Queue is empty");
    assert_eq!(DsError::IndexOutOfBounds.message(), "Index out of bounds");
    assert_eq!(DsError::ValueNotFound.message(), "Value not found");
}
