use vstd::prelude::*;

verus! {

// Positions in the tree are numbered in level order: the root is 0 and the
// children of position `k` are `2k + 1` (left) and `2k + 2` (right).

/// Level-order position of the left (`right == false`) or right child of `k`.
pub open spec fn child_position(k: nat, right: bool) -> nat {
    if right {
        2 * k + 2
    } else {
        2 * k + 1
    }
}

/// Position `k` lies in the subtree rooted at position `i`.
pub open spec fn in_subtree(i: nat, k: nat) -> bool
    decreases k,
{
    if k == i {
        true
    } else if k > i {
        in_subtree(i, ((k - 1) as nat) / 2)
    } else {
        false
    }
}

/// The position reached from `i` by taking the steps of `steps`, the last
/// element first (`true` goes right, `false` goes left).
pub open spec fn follow_steps(i: nat, steps: Seq<bool>) -> nat
    decreases steps.len(),
{
    if steps.len() == 0 {
        i
    } else {
        follow_steps(child_position(i, steps.last()), steps.drop_last())
    }
}

/// The positions `0..n` of a complete tree, listed in inorder (left subtree,
/// node, right subtree) starting from the subtree at position `i`.
pub open spec fn inorder_positions(i: nat, n: nat) -> Seq<nat>
    decreases (if i < n { n - i } else { 0 }),
{
    if i >= n {
        Seq::empty()
    } else {
        inorder_positions(2 * i + 1, n) + seq![i] + inorder_positions(2 * i + 2, n)
    }
}

/// In a complete tree of `n` nodes, the node at position `k` has both of its
/// children (positions `2k + 1` and `2k + 2`) or neither.
pub open spec fn has_zero_or_two_children(k: nat, n: nat) -> bool {
    (2 * k + 1 < n) == (2 * k + 2 < n)
}

/// In a complete tree of `n` nodes, every node has zero or two children.
pub open spec fn complete_shape_is_full(n: nat) -> bool {
    forall|k: nat| k < n ==> #[trigger] has_zero_or_two_children(k, n)
}

/// The connector drawn before a node: a left child is followed by a sibling.
pub open spec fn branch_mark(is_left: bool) -> Seq<char> {
    if is_left {
        "├──"@
    } else {
        "└──"@
    }
}

/// What the lines below a node add to its prefix.
pub open spec fn child_indent(is_left: bool) -> Seq<char> {
    if is_left {
        "│   "@
    } else {
        "    "@
    }
}

/// The drawing of the subtree at position `i` of a complete tree with level
/// order `vals`: one line per node, the node before its left and then its
/// right subtree, each line the prefix, a connector and the value.
pub open spec fn drawing(vals: Seq<String>, i: nat, prefix: Seq<char>, is_left: bool) -> Seq<
    Seq<char>,
>
    decreases (if i < vals.len() { vals.len() - i } else { 0 }),
{
    if i >= vals.len() {
        Seq::empty()
    } else {
        let below = prefix + child_indent(is_left);
        seq![prefix + branch_mark(is_left) + vals[i as int]@] + drawing(vals, 2 * i + 1, below, true)
            + drawing(vals, 2 * i + 2, below, false)
    }
}

pub proof fn lemma_in_subtree_le(i: nat, k: nat)
    requires
        in_subtree(i, k),
    ensures
        i <= k,
{
}

pub proof fn lemma_in_subtree_trans(a: nat, b: nat, c: nat)
    requires
        in_subtree(a, b),
        in_subtree(b, c),
    ensures
        in_subtree(a, c),
    decreases c,
{
    if c != b {
        lemma_in_subtree_trans(a, b, ((c - 1) as nat) / 2);
    }
}

pub proof fn lemma_children_in_subtree(i: nat)
    ensures
        in_subtree(i, 2 * i + 1),
        in_subtree(i, 2 * i + 2),
{
    assert(in_subtree(i, i));
    assert(((2 * i + 1 - 1) as nat) / 2 == i);
    assert(((2 * i + 2 - 1) as nat) / 2 == i);
}

/// A position below a child of `i` lies below `i` and is not `i` itself.
pub proof fn lemma_child_subtree(i: nat, right: bool, k: nat)
    requires
        in_subtree(child_position(i, right), k),
    ensures
        in_subtree(i, k),
        k > i,
{
    lemma_children_in_subtree(i);
    lemma_in_subtree_trans(i, child_position(i, right), k);
}

/// The subtrees of the two children of `i` share no position.
pub proof fn lemma_children_disjoint(i: nat, k: nat)
    ensures
        !(in_subtree(2 * i + 1, k) && in_subtree(2 * i + 2, k)),
    decreases k,
{
    if k > 2 * i + 2 {
        lemma_children_disjoint(i, ((k - 1) as nat) / 2);
    } else if k == 2 * i + 2 {
        assert(((k - 1) as nat) / 2 == i);
        assert(!in_subtree(2 * i + 1, i));
    }
}

/// A position below `i` other than `i` lies below one of its children.
pub proof fn lemma_subtree_split(i: nat, k: nat)
    requires
        in_subtree(i, k),
        k != i,
    ensures
        in_subtree(2 * i + 1, k) || in_subtree(2 * i + 2, k),
    decreases k,
{
    let p = ((k - 1) as nat) / 2;
    if p == i {
        assert(k == 2 * i + 1 || k == 2 * i + 2);
    } else {
        lemma_subtree_split(i, p);
    }
}

/// Every position lies below the root.
pub proof fn lemma_root_subtree(k: nat)
    ensures
        in_subtree(0, k),
    decreases k,
{
    if k > 0 {
        lemma_root_subtree(((k - 1) as nat) / 2);
    }
}

pub proof fn lemma_follow_steps(i: nat, steps: Seq<bool>)
    ensures
        in_subtree(i, follow_steps(i, steps)),
        steps.len() > 0 ==> in_subtree(
            child_position(i, steps.last()),
            follow_steps(i, steps),
        ),
    decreases steps.len(),
{
    if steps.len() > 0 {
        let c = child_position(i, steps.last());
        lemma_follow_steps(c, steps.drop_last());
        lemma_child_subtree(i, steps.last(), follow_steps(i, steps));
    }
}

/// A complete tree is full exactly when it is empty or its node count is odd.
pub proof fn lemma_full_iff_empty_or_odd(n: nat)
    ensures
        complete_shape_is_full(n) <==> (n == 0 || n % 2 == 1),
{
    if n > 0 && n % 2 == 0 {
        let k = ((n - 2) as nat) / 2;
        assert(k < n && !has_zero_or_two_children(k, n));
    } else {
        assert forall|k: nat| k < n implies #[trigger] has_zero_or_two_children(k, n) by {}
    }
}

pub struct TreeNode {
    data: String,
    left: Option<Box<TreeNode>>,
    right: Option<Box<TreeNode>>,
}

/// The value stored at position `k` of the subtree `t`, whose root stands at
/// position `i`.
closed spec fn value_at(t: Option<Box<TreeNode>>, i: nat, k: nat) -> Option<String>
    decreases t,
{
    match t {
        None => None,
        Some(node) => {
            if k == i {
                Some(node.data)
            } else if in_subtree(2 * i + 1, k) {
                value_at(node.left, 2 * i + 1, k)
            } else if in_subtree(2 * i + 2, k) {
                value_at(node.right, 2 * i + 2, k)
            } else {
                None
            }
        },
    }
}

/// The subtree `t` at position `i` holds exactly the positions below `i` that
/// are less than `n`, with the values of `vals`.
closed spec fn subtree_matches(t: Option<Box<TreeNode>>, i: nat, n: nat, vals: Seq<String>) -> bool {
    forall|k: nat|
        in_subtree(i, k) ==> #[trigger] value_at(t, i, k) == if k < n {
            Some(vals[k as int])
        } else {
            None
        }
}

impl TreeNode {
    /// Attaches `value` as a new leaf at position `target` of the subtree
    /// `node`, whose root stands at position `index`; `path` holds the steps
    /// from `index` down to `target`, the last element first.
    fn insert_helper(
        node: &mut Option<Box<TreeNode>>,
        value: String,
        index: usize,
        target: usize,
        path: &mut Vec<bool>,
    )
        requires
            follow_steps(index as nat, old(path)@) == target,
            forall|k: nat|
                in_subtree(index as nat, k) ==> (#[trigger] value_at(*old(node), index as nat, k).is_some()
                    <==> k < target),
        ensures
            forall|k: nat|
                in_subtree(index as nat, k) ==> #[trigger] value_at(*final(node), index as nat, k) == if k
                    == target {
                    Some(value)
                } else {
                    value_at(*old(node), index as nat, k)
                },
        decreases old(path)@.len(),
    {
        let ghost i = index as nat;
        let ghost t = target as nat;
        let ghost old_node = *node;
        if path.len() == 0 {
            proof {
                assert(in_subtree(i, i));
                assert(value_at(*node, i, i).is_none());
                assert(old_node.is_none());
            }
            *node = Some(Box::new(TreeNode { data: value, left: None, right: None }));
            proof {
                assert forall|k: nat| in_subtree(i, k) implies #[trigger] value_at(*node, i, k) == if k
                    == t {
                    Some(value)
                } else {
                    value_at(old_node, i, k)
                } by {
                    assert(t == i);
                    if k != i {
                        lemma_subtree_split(i, k);
                        lemma_children_disjoint(i, k);
                        let leaf = node.unwrap();
                        assert(value_at(leaf.left, 2 * i + 1, k).is_none());
                        assert(value_at(leaf.right, 2 * i + 2, k).is_none());
                        assert(value_at(*node, i, k).is_none());
                    }
                }
            }
            return;
        }
        let ghost old_path = path@;
        let go_right = path.pop().unwrap();
        let ghost c = child_position(i, go_right);
        proof {
            assert(old_path.drop_last() =~= path@);
            lemma_follow_steps(i, old_path);
            lemma_child_subtree(i, go_right, t);
            lemma_in_subtree_le(c, t);
            assert(in_subtree(i, i));
        }
        let mut boxed = node.take().unwrap();
        let ghost old_left = boxed.left;
        let ghost old_right = boxed.right;
        let ghost old_data = boxed.data;
        assert(old_node == Some(boxed));
        if go_right {
            let child_index = 2 * index + 2;
            proof {
                assert forall|k: nat| in_subtree(c, k) implies (#[trigger] value_at(old_right, c, k).is_some()
                    <==> k < t) by {
                    lemma_child_subtree(i, true, k);
                    lemma_children_disjoint(i, k);
                    assert(value_at(old_node, i, k) == value_at(old_right, c, k));
                }
            }
            TreeNode::insert_helper(&mut boxed.right, value, child_index, target, path);
        } else {
            let child_index = 2 * index + 1;
            proof {
                assert forall|k: nat| in_subtree(c, k) implies (#[trigger] value_at(old_left, c, k).is_some()
                    <==> k < t) by {
                    lemma_child_subtree(i, false, k);
                    assert(value_at(old_node, i, k) == value_at(old_left, c, k));
                }
            }
            TreeNode::insert_helper(&mut boxed.left, value, child_index, target, path);
        }
        *node = Some(boxed);
        proof {
            assert forall|k: nat| in_subtree(i, k) implies #[trigger] value_at(*node, i, k) == if k == t {
                Some(value)
            } else {
                value_at(old_node, i, k)
            } by {
                let new_node = node.unwrap();
                if k != i {
                    lemma_subtree_split(i, k);
                    lemma_children_disjoint(i, k);
                    lemma_children_disjoint(i, t);
                    assert(in_subtree(c, t));
                    if in_subtree(2 * i + 1, k) {
                        assert(value_at(old_node, i, k) == value_at(old_left, 2 * i + 1, k));
                        assert(value_at(*node, i, k) == value_at(new_node.left, 2 * i + 1, k));
                    } else {
                        assert(value_at(old_node, i, k) == value_at(old_right, 2 * i + 2, k));
                        assert(value_at(*node, i, k) == value_at(new_node.right, 2 * i + 2, k));
                    }
                }
            }
        }
    }

    /// Whether some position of the subtree `node`, rooted at position
    /// `index`, holds `value`; looks at the node, then its left subtree, then
    /// its right subtree.
    fn search_helper(node: &Option<Box<TreeNode>>, value: &String, index: Ghost<nat>) -> (r: bool)
        ensures
            r == exists|k: nat|
                in_subtree(index@, k) && #[trigger] value_at(*node, index@, k).is_some() && value_at(
                    *node,
                    index@,
                    k,
                ).unwrap()@ == value@,
        decreases node,
    {
        let ghost i = index@;
        match node {
            None => false,
            Some(n) => {
                proof {
                    assert(in_subtree(i, i));
                }
                if n.data == *value {
                    proof {
                        assert(value_at(*node, i, i).unwrap()@ == value@);
                        assert(exists|k: nat|
                            in_subtree(index@, k) && #[trigger] value_at(*node, index@, k).is_some()
                                && value_at(*node, index@, k).unwrap()@ == value@);
                    }
                    return true;
                }
                let in_left = TreeNode::search_helper(&n.left, value, Ghost(2 * i + 1));
                let in_right = TreeNode::search_helper(&n.right, value, Ghost(2 * i + 2));
                proof {
                    if in_left {
                        let k = choose|k: nat|
                            in_subtree(2 * i + 1, k) && #[trigger] value_at(n.left, 2 * i + 1, k).is_some()
                                && value_at(n.left, 2 * i + 1, k).unwrap()@ == value@;
                        lemma_child_subtree(i, false, k);
                        assert(value_at(*node, i, k) == value_at(n.left, 2 * i + 1, k));
                    }
                    if in_right {
                        let k = choose|k: nat|
                            in_subtree(2 * i + 2, k) && #[trigger] value_at(n.right, 2 * i + 2, k).is_some()
                                && value_at(n.right, 2 * i + 2, k).unwrap()@ == value@;
                        lemma_child_subtree(i, true, k);
                        lemma_children_disjoint(i, k);
                        assert(value_at(*node, i, k) == value_at(n.right, 2 * i + 2, k));
                    }
                    if !in_left && !in_right {
                        assert forall|k: nat|
                            in_subtree(i, k) && #[trigger] value_at(*node, i, k).is_some() implies value_at(
                            *node,
                            i,
                            k,
                        ).unwrap()@ != value@ by {
                            if k != i {
                                lemma_subtree_split(i, k);
                                if in_subtree(2 * i + 1, k) {
                                    assert(value_at(*node, i, k) == value_at(n.left, 2 * i + 1, k));
                                } else {
                                    assert(value_at(*node, i, k) == value_at(n.right, 2 * i + 2, k));
                                }
                            }
                        }
                    }
                }
                in_left || in_right
            },
        }
    }

    /// Whether every node of the subtree `node`, rooted at position `index`,
    /// has zero or two children, where the tree holds positions `0..n`.
    fn is_full_helper(node: &Option<Box<TreeNode>>, index: Ghost<nat>, n: Ghost<nat>) -> (r: bool)
        requires
            forall|k: nat|
                in_subtree(index@, k) ==> (#[trigger] value_at(*node, index@, k).is_some() <==> k < n@),
        ensures
            r == forall|k: nat|
                in_subtree(index@, k) && k < n@ ==> #[trigger] has_zero_or_two_children(k, n@),
        decreases node,
    {
        let ghost i = index@;
        proof {
            assert(in_subtree(i, i));
            lemma_children_in_subtree(i);
            lemma_children_disjoint(i, 2 * i + 2);
            assert(in_subtree(2 * i + 1, 2 * i + 1));
            assert(in_subtree(2 * i + 2, 2 * i + 2));
        }
        match node {
            None => {
                proof {
                    assert(value_at(*node, index@, index@).is_some() <==> index@ < n@);
                    assert forall|k: nat| in_subtree(i, k) && k < n@ implies #[trigger] has_zero_or_two_children(k, n@) by {
                        lemma_in_subtree_le(i, k);
                    }
                }
                true
            },
            Some(b) => {
                proof {
                    assert(value_at(*node, i, 2 * i + 1) == value_at(b.left, 2 * i + 1, 2 * i + 1));
                    assert(value_at(*node, i, 2 * i + 2) == value_at(b.right, 2 * i + 2, 2 * i + 2));
                    assert(value_at(*node, i, 2 * i + 1).is_some() <==> 2 * i + 1 < n@);
                    assert(value_at(*node, i, 2 * i + 2).is_some() <==> 2 * i + 2 < n@);
                    assert forall|k: nat| in_subtree(2 * i + 1, k) implies (#[trigger] value_at(
                        b.left,
                        2 * i + 1,
                        k,
                    ).is_some() <==> k < n@) by {
                        lemma_child_subtree(i, false, k);
                        assert(value_at(*node, i, k) == value_at(b.left, 2 * i + 1, k));
                    }
                    assert forall|k: nat| in_subtree(2 * i + 2, k) implies (#[trigger] value_at(
                        b.right,
                        2 * i + 2,
                        k,
                    ).is_some() <==> k < n@) by {
                        lemma_child_subtree(i, true, k);
                        lemma_children_disjoint(i, k);
                        assert(value_at(*node, i, k) == value_at(b.right, 2 * i + 2, k));
                    }
                }
                if b.left.is_none() && b.right.is_none() {
                    proof {
                        assert forall|k: nat| in_subtree(i, k) && k < n@ implies #[trigger] has_zero_or_two_children(k, n@) by {
                            if k != i {
                                lemma_subtree_split(i, k);
                                if in_subtree(2 * i + 1, k) {
                                    lemma_in_subtree_le(2 * i + 1, k);
                                } else {
                                    lemma_in_subtree_le(2 * i + 2, k);
                                }
                            }
                        }
                    }
                    true
                } else if b.left.is_some() && b.right.is_some() {
                    let l = TreeNode::is_full_helper(&b.left, Ghost(2 * i + 1), n);
                    let r = TreeNode::is_full_helper(&b.right, Ghost(2 * i + 2), n);
                    proof {
                        assert(2 * i + 1 < n@ && 2 * i + 2 < n@);
                        assert(has_zero_or_two_children(i, n@));
                        if l && r {
                            assert forall|k: nat| in_subtree(i, k) && k < n@ implies #[trigger] has_zero_or_two_children(k, n@) by {
                                if k != i {
                                    lemma_subtree_split(i, k);
                                }
                            }
                        } else if !l {
                            let k = choose|k: nat|
                                !(in_subtree(2 * i + 1, k) && k < n@ ==> #[trigger] has_zero_or_two_children(k, n@));
                            lemma_child_subtree(i, false, k);
                        } else {
                            let k = choose|k: nat|
                                !(in_subtree(2 * i + 2, k) && k < n@ ==> #[trigger] has_zero_or_two_children(k, n@));
                            lemma_child_subtree(i, true, k);
                        }
                    }
                    l && r
                } else {
                    proof {
                        assert(!has_zero_or_two_children(i, n@));
                    }
                    false
                }
            },
        }
    }

    /// Appends to `result` the drawing of the subtree `node`, rooted at
    /// position `index`, where the tree holds `vals` in level order.
    fn draw_helper(
        node: &Option<Box<TreeNode>>,
        prefix: &String,
        is_left: bool,
        result: &mut Vec<String>,
        index: Ghost<nat>,
        vals: Ghost<Seq<String>>,
    )
        requires
            subtree_matches(*node, index@, vals@.len(), vals@),
        ensures
            final(result)@.map_values(|l: String| l@) == old(result)@.map_values(|l: String| l@)
                + drawing(vals@, index@, prefix@, is_left),
        decreases node,
    {
        let ghost i = index@;
        let ghost n = vals@.len();
        proof {
            assert(in_subtree(i, i));
            assert(value_at(*node, i, i) == if i < n {
                Some(vals@[i as int])
            } else {
                None
            });
        }
        match node {
            None => {
                assert(result@.map_values(|l: String| l@) =~= old(result)@.map_values(|l: String| l@)
                    + drawing(vals@, i, prefix@, is_left));
            },
            Some(b) => {
                proof {
                    assert forall|k: nat| in_subtree(2 * i + 1, k) implies #[trigger] value_at(
                        b.left,
                        2 * i + 1,
                        k,
                    ) == if k < n {
                        Some(vals@[k as int])
                    } else {
                        None
                    } by {
                        lemma_child_subtree(i, false, k);
                        assert(value_at(*node, i, k) == value_at(b.left, 2 * i + 1, k));
                    }
                    assert forall|k: nat| in_subtree(2 * i + 2, k) implies #[trigger] value_at(
                        b.right,
                        2 * i + 2,
                        k,
                    ) == if k < n {
                        Some(vals@[k as int])
                    } else {
                        None
                    } by {
                        lemma_child_subtree(i, true, k);
                        lemma_children_disjoint(i, k);
                        assert(value_at(*node, i, k) == value_at(b.right, 2 * i + 2, k));
                    }
                }
                let ghost start = result@.map_values(|l: String| l@);
                let mark = if is_left {
                    "├──"
                } else {
                    "└──"
                };
                let indent = if is_left {
                    "│   "
                } else {
                    "    "
                };
                let line = prefix.clone().concat(mark).concat(b.data.as_str());
                result.push(line);
                let ghost after_line = result@.map_values(|l: String| l@);
                assert(after_line =~= start.push(line@));
                let below = prefix.clone().concat(indent);
                TreeNode::draw_helper(&b.left, &below, true, result, Ghost(2 * i + 1), vals);
                let ghost after_left = result@.map_values(|l: String| l@);
                TreeNode::draw_helper(&b.right, &below, false, result, Ghost(2 * i + 2), vals);
                proof {
                    assert(line@ == prefix@ + branch_mark(is_left) + vals@[i as int]@);
                    assert(below@ == prefix@ + child_indent(is_left));
                    assert(result@.map_values(|l: String| l@) =~= start + drawing(
                        vals@,
                        i,
                        prefix@,
                        is_left,
                    ));
                }
            },
        }
    }

    /// Appends to `result` the values of the subtree `node`, rooted at
    /// position `index`, in inorder, where the tree holds `vals` at
    /// positions `0..vals.len()`.
    fn collect_inorder_helper(
        node: &Option<Box<TreeNode>>,
        result: &mut Vec<String>,
        index: Ghost<nat>,
        vals: Ghost<Seq<String>>,
    )
        requires
            subtree_matches(*node, index@, vals@.len(), vals@),
        ensures
            final(result)@ == old(result)@ + inorder_positions(index@, vals@.len()).map_values(
                |k: nat| vals@[k as int],
            ),
        decreases node,
    {
        let ghost i = index@;
        let ghost n = vals@.len();
        proof {
            assert(in_subtree(i, i));
            assert(value_at(*node, i, i) == if i < n {
                Some(vals@[i as int])
            } else {
                None
            });
        }
        match node {
            None => {
                assert(inorder_positions(i, n) =~= Seq::<nat>::empty());
            },
            Some(b) => {
                proof {
                    assert forall|k: nat| in_subtree(2 * i + 1, k) implies #[trigger] value_at(
                        b.left,
                        2 * i + 1,
                        k,
                    ) == if k < n {
                        Some(vals@[k as int])
                    } else {
                        None
                    } by {
                        lemma_child_subtree(i, false, k);
                        assert(value_at(*node, i, k) == value_at(b.left, 2 * i + 1, k));
                    }
                    assert forall|k: nat| in_subtree(2 * i + 2, k) implies #[trigger] value_at(
                        b.right,
                        2 * i + 2,
                        k,
                    ) == if k < n {
                        Some(vals@[k as int])
                    } else {
                        None
                    } by {
                        lemma_child_subtree(i, true, k);
                        lemma_children_disjoint(i, k);
                        assert(value_at(*node, i, k) == value_at(b.right, 2 * i + 2, k));
                    }
                }
                let ghost start = result@;
                TreeNode::collect_inorder_helper(&b.left, result, Ghost(2 * i + 1), vals);
                result.push(b.data.clone());
                TreeNode::collect_inorder_helper(&b.right, result, Ghost(2 * i + 2), vals);
                proof {
                    let f = |k: nat| vals@[k as int];
                    let lp = inorder_positions(2 * i + 1, n);
                    let rp = inorder_positions(2 * i + 2, n);
                    assert(inorder_positions(i, n) == lp + seq![i] + rp);
                    assert((lp + seq![i] + rp).map_values(f) =~= lp.map_values(f) + seq![vals@[i as int]]
                        + rp.map_values(f));
                    assert(result@ =~= start + inorder_positions(i, n).map_values(f));
                }
            },
        }
    }
}

/// A binary tree of text tokens kept complete: every level is full except
/// possibly the last, which is filled from the left.
pub struct FullBinaryTree {
    root: Option<Box<TreeNode>>,
    count: usize,
}

impl View for FullBinaryTree {
    /// The values in level order.
    type V = Seq<String>;

    closed spec fn view(&self) -> Seq<String> {
        Seq::new(self.count as nat, |k: int| value_at(self.root, 0, k as nat).unwrap())
    }
}

impl FullBinaryTree {
    /// Whether a node stands at level-order position `k`.
    pub closed spec fn has_position(&self, k: nat) -> bool {
        value_at(self.root, 0, k).is_some()
    }

    /// The complete shape: the positions that hold a node are exactly
    /// `0 .. self@.len()`, so that every level but the last is full and the
    /// last has no gap left of a node.
    pub open spec fn is_complete(&self) -> bool {
        forall|k: nat| #[trigger] self.has_position(k) <==> k < self@.len()
    }

    pub closed spec fn wf(&self) -> bool {
        subtree_matches(self.root, 0, self.count as nat, self@)
    }

    proof fn lemma_wf_complete(&self)
        requires
            self.wf(),
        ensures
            self.is_complete(),
    {
        assert forall|k: nat| #[trigger] self.has_position(k) <==> k < self@.len() by {
            lemma_root_subtree(k);
        }
    }

    /// An empty tree.
    pub fn new() -> (t: Self)
        ensures
            t.wf(),
            t.is_complete(),
            t@ == Seq::<String>::empty(),
    {
        let t = FullBinaryTree { root: None, count: 0 };
        proof {
            t.lemma_wf_complete();
        }
        t
    }

    /// Adds `value` at the first free level-order position, the one equal to
    /// the current node count, so that the tree stays complete.
    pub fn insert(&mut self, value: String)
        requires
            old(self).wf(),
            old(self)@.len() < usize::MAX,
        ensures
            final(self).wf(),
            final(self).is_complete(),
            final(self)@ == old(self)@.push(value),
    {
        let target = self.count;
        let mut path: Vec<bool> = Vec::new();
        let mut x: usize = target;
        while x > 0
            invariant
                follow_steps(x as nat, path@) == target,
            decreases x,
        {
            let ghost before = path@;
            let right = x % 2 == 0;
            let parent = (x - 1) / 2;
            path.push(right);
            proof {
                assert(child_position(parent as nat, right) == x);
                assert(path@.drop_last() =~= before);
                assert(path@.last() == right);
            }
            x = parent;
        }
        proof {
            assert forall|k: nat| in_subtree(0, k) implies (#[trigger] value_at(self.root, 0, k).is_some()
                <==> k < target) by {
                assert(value_at(self.root, 0, k) == if k < target {
                    Some(self@[k as int])
                } else {
                    None
                });
            }
        }
        let ghost old_view = self@;
        let ghost old_root = self.root;
        TreeNode::insert_helper(&mut self.root, value, 0, target, &mut path);
        self.count = target + 1;
        proof {
            assert forall|k: int| 0 <= k < self@.len() implies #[trigger] self@[k] == old_view.push(
                value,
            )[k] by {
                lemma_root_subtree(k as nat);
                assert(value_at(old_root, 0, k as nat) == if k < target {
                    Some(old_view[k])
                } else {
                    None
                });
            }
            assert(self@ =~= old_view.push(value));
            assert forall|k: nat| in_subtree(0, k) implies #[trigger] value_at(self.root, 0, k) == if k
                < self.count {
                Some(self@[k as int])
            } else {
                None
            } by {
                assert(value_at(old_root, 0, k) == if k < target {
                    Some(old_view[k as int])
                } else {
                    None
                });
            }
            self.lemma_wf_complete();
        }
    }

    /// The number of nodes.
    pub fn len(&self) -> (r: usize)
        ensures
            r == self@.len(),
    {
        self.count
    }

    /// Whether some node holds `value`, looking at the nodes in preorder.
    pub fn search(&self, value: &str) -> (r: bool)
        requires
            self.wf(),
        ensures
            r == exists|k: int| 0 <= k < self@.len() && #[trigger] self@[k]@ == value@,
    {
        let v = value.to_owned();
        let r = TreeNode::search_helper(&self.root, &v, Ghost(0));
        proof {
            if r {
                let k = choose|k: nat|
                    in_subtree(0, k) && #[trigger] value_at(self.root, 0, k).is_some() && value_at(
                        self.root,
                        0,
                        k,
                    ).unwrap()@ == v@;
                assert(self@[k as int]@ == value@);
            } else {
                assert forall|k: int| 0 <= k < self@.len() implies #[trigger] self@[k]@ != value@ by {
                    lemma_root_subtree(k as nat);
                    assert(value_at(self.root, 0, k as nat).is_some());
                }
            }
        }
        r
    }

    /// Whether every node has exactly zero or exactly two children. A node
    /// at position `k` has its children at `2k + 1` and `2k + 2`, present when
    /// they are below the node count.
    pub fn is_full(&self) -> (r: bool)
        requires
            self.wf(),
        ensures
            r == forall|k: nat|
                k < self@.len() ==> #[trigger] has_zero_or_two_children(k, self@.len()),
    {
        proof {
            assert forall|k: nat| in_subtree(0, k) implies (#[trigger] value_at(self.root, 0, k).is_some()
                <==> k < self.count) by {
                assert(value_at(self.root, 0, k) == if k < self.count {
                    Some(self@[k as int])
                } else {
                    None
                });
            }
        }
        let r = TreeNode::is_full_helper(&self.root, Ghost(0), Ghost(self.count as nat));
        proof {
            if !r {
                let k = choose|k: nat|
                    !(in_subtree(0, k) && k < self.count ==> #[trigger] has_zero_or_two_children(k, self.count as nat));
                assert(!has_zero_or_two_children(k, self@.len()));
            } else {
                assert forall|k: nat| k < self@.len() implies #[trigger] has_zero_or_two_children(k, self@.len()) by {
                    lemma_root_subtree(k);
                }
            }
        }
        r
    }

    /// A drawing of the tree's shape, one line per node in preorder, each
    /// indented under its parent.
    pub fn display_lines(&self) -> (r: Vec<String>)
        requires
            self.wf(),
        ensures
            r@.map_values(|l: String| l@) == drawing(self@, 0, Seq::empty(), false),
    {
        let mut result: Vec<String> = Vec::new();
        let prefix = String::new();
        assert(result@.map_values(|l: String| l@) =~= Seq::<Seq<char>>::empty());
        TreeNode::draw_helper(&self.root, &prefix, false, &mut result, Ghost(0), Ghost(self@));
        assert(result@.map_values(|l: String| l@) =~= drawing(self@, 0, Seq::empty(), false));
        result
    }

    /// The values in inorder: left subtree, node, right subtree.
    pub fn collect_inorder(&self) -> (r: Vec<String>)
        requires
            self.wf(),
        ensures
            r@ == inorder_positions(0, self@.len()).map_values(|k: nat| self@[k as int]),
    {
        let mut result: Vec<String> = Vec::new();
        TreeNode::collect_inorder_helper(&self.root, &mut result, Ghost(0), Ghost(self@));
        assert(result@ =~= inorder_positions(0, self@.len()).map_values(|k: nat| self@[k as int]));
        result
    }
}

} // verus!
