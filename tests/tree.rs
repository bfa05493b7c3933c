use data_structures::full_binary_tree::FullBinaryTree;

fn strs(v: &[&str]) -> Vec<String> {
    v.iter().map(|x| x.to_string()).collect()
}

fn tree_of(vals: &[&str]) -> FullBinaryTree {
    let mut t = FullBinaryTree::new();
    for v in vals {
        t.insert(v.to_string());
    }
    t
}

#[test]
fn three_values_fill_root_and_both_children() {
    let t = tree_of(&["a", "b", "c"]);
    assert_eq!(t.collect_inorder(), strs(&["b", "a", "c"]));
    assert_eq!(t.display_lines(), strs(&["└──a", "    ├──b", "    └──c"]));
    assert!(t.is_full());
    assert_eq!(t.len(), 3);
}

#[test]
fn is_full_as_values_are_inserted() {
    let mut t = FullBinaryTree::new();
    assert!(t.is_full());
    t.insert("a".to_string());
    // A lone root has no child at all, which counts as full.
    assert!(t.is_full());
    t.insert("b".to_string());
    assert!(!t.is_full());
    t.insert("c".to_string());
    assert!(t.is_full());
    t.insert("d".to_string());
    assert!(!t.is_full());
    t.insert("e".to_string());
    assert!(t.is_full());
}

#[test]
fn level_order_fill_inorder() {
    let t = tree_of(&["1", "2", "3", "4", "5", "6", "7"]);
    assert_eq!(t.collect_inorder(), strs(&["4", "2", "5", "1", "6", "3", "7"]));
    let t = tree_of(&["1", "2", "3", "4"]);
    assert_eq!(t.collect_inorder(), strs(&["4", "2", "1", "3"]));
    assert_eq!(
        t.display_lines(),
        strs(&["└──1", "    ├──2", "    │   ├──4", "    └──3"])
    );
}

#[test]
fn tree_search_preorder() {
    let t = tree_of(&["a", "b", "c", "d", "e"]);
    assert!(t.search("a"));
    assert!(t.search("e"));
    assert!(!t.search("f"));
    let empty = FullBinaryTree::new();
    assert!(!empty.search("a"));
    assert!(empty.collect_inorder().is_empty());
    assert!(empty.display_lines().is_empty());
}

#[test]
fn tree_reload_keeps_saved_sequence_as_level_order() {
    let t = tree_of(&["a", "b", "c"]);
    let saved = t.collect_inorder();
    let mut reloaded = FullBinaryTree::new();
    for v in &saved {
        reloaded.insert(v.clone());
    }
    // The reloaded tree holds "b a c" in level order, so its inorder differs.
    assert_eq!(reloaded.collect_inorder(), strs(&["a", "b", "c"]));
    assert_eq!(reloaded.len(), 3);
}
