use data_structures::command::{parse_command, Command, Parsed};
use data_structures::error::DsError;
use data_structures::session::{DataStructures, Outcome, Structure};

fn strs(v: &[&str]) -> Vec<String> {
    v.iter().map(|x| x.to_string()).collect()
}

const ALL: [Structure; 6] = [
    Structure::Array,
    Structure::SinglyList,
    Structure::DoublyList,
    Structure::Stack,
    Structure::Queue,
    Structure::Tree,
];

#[test]
fn round_trip_keeps_content() {
    let mut ds = DataStructures::new();
    let toks = strs(&["a", "b", "c"]);
    for s in ALL {
        ds.load_tokens(s, &toks);
    }
    for s in ALL {
        let saved = ds.saved_tokens(s);
        let mut fresh = DataStructures::new();
        fresh.load_tokens(s, &saved);
        if s == Structure::Tree {
            assert_eq!(saved, strs(&["b", "a", "c"]));
            assert_eq!(fresh.tree.collect_inorder(), strs(&["a", "b", "c"]));
        } else {
            assert_eq!(fresh.saved_tokens(s), saved);
            assert_eq!(saved, toks);
        }
    }
    assert_eq!(ds.stack.peek(), Ok(&"c".to_string()));
    assert_eq!(ds.stack.iter(), strs(&["c", "b", "a"]));
}

#[test]
fn file_suffixes() {
    assert_eq!(Structure::Array.file_suffix(), "array");
    assert_eq!(Structure::SinglyList.file_suffix(), "singly_list");
    assert_eq!(Structure::Tree.file_suffix(), "tree");
}

fn words(q: &str) -> Vec<String> {
    q.split_whitespace().map(|w| w.to_string()).collect()
}

#[test]
fn parse_known_commands_any_case() {
    match parse_command(&words("mpush_back hello")) {
        Parsed::Run(Command::ArrayPushBack(v)) => assert_eq!(v, "hello"),
        _ => panic!("expected MPUSH_BACK"),
    }
    match parse_command(&words("MPUSH_INDEX 2 x")) {
        Parsed::Run(Command::ArrayPushIndex(i, v)) => {
            assert_eq!(i, 2);
            assert_eq!(v, "x");
        }
        _ => panic!("expected MPUSH_INDEX"),
    }
    match parse_command(&words("MGET +7")) {
        Parsed::Run(Command::ArrayGet(i)) => assert_eq!(i, 7),
        _ => panic!("expected MGET"),
    }
    assert!(matches!(parse_command(&words("TisFull")), Parsed::Run(Command::TreeIsFull)));
}

#[test]
fn parse_ignored_and_unknown() {
    assert!(matches!(parse_command(&words("")), Parsed::Ignored));
    assert!(matches!(parse_command(&words("MPUSH_BACK")), Parsed::Ignored));
    assert!(matches!(parse_command(&words("MGET x")), Parsed::Ignored));
    assert!(matches!(parse_command(&words("MGET -1")), Parsed::Ignored));
    assert!(matches!(parse_command(&words("MPUSH_INDEX 1")), Parsed::Ignored));
    match parse_command(&words("frob 1")) {
        Parsed::Unknown(name) => assert_eq!(name, "FROB"),
        _ => panic!("expected an unknown command"),
    }
}

#[test]
fn execute_reports_outcomes() {
    let mut ds = DataStructures::new();
    assert!(matches!(ds.execute(&Command::SinglyRemoveHead), Outcome::Failed(DsError::EmptyList)));
    assert!(matches!(ds.execute(&Command::StackPop), Outcome::Failed(DsError::EmptyStack)));
    assert!(matches!(ds.execute(&Command::QueuePeek), Outcome::Failed(DsError::EmptyQueue)));
    assert!(matches!(
        ds.execute(&Command::ArrayRemove(0)),
        Outcome::Failed(DsError::IndexOutOfBounds)
    ));
    ds.execute(&Command::SinglyPushTail("a".to_string()));
    assert!(matches!(
        ds.execute(&Command::SinglyRemoveValue("q".to_string())),
        Outcome::Failed(DsError::ValueNotFound)
    ));
    assert!(matches!(ds.execute(&Command::SinglySearch("a".to_string())), Outcome::Position(Some(0))));
    ds.execute(&Command::StackPush("s1".to_string()));
    ds.execute(&Command::StackPush("s2".to_string()));
    match ds.execute(&Command::StackPop) {
        Outcome::Value(v) => assert_eq!(v, "s2"),
        _ => panic!("expected a value"),
    }
    ds.execute(&Command::ArrayPushBack("m".to_string()));
    assert!(matches!(ds.execute(&Command::ArrayLength), Outcome::Length(1)));
    ds.execute(&Command::DoublyPushHead("d2".to_string()));
    ds.execute(&Command::DoublyPushHead("d1".to_string()));
    match ds.execute(&Command::DoublyPrintBackward) {
        Outcome::Values(v) => assert_eq!(v, strs(&["d2", "d1"])),
        _ => panic!("expected values"),
    }
    for v in ["a", "b", "c"] {
        ds.execute(&Command::TreeInsert(v.to_string()));
    }
    assert!(matches!(ds.execute(&Command::TreeIsFull), Outcome::IsFull(true)));
    match ds.execute(&Command::TreePrint) {
        Outcome::TreeView { lines, inorder } => {
            assert_eq!(lines.len(), 3);
            assert_eq!(inorder, strs(&["b", "a", "c"]));
        }
        _ => panic!("expected the tree"),
    }
}
