//! An unbalanced binary search tree of `i32` values, and a search for two
//! of its nodes whose values add up to a target.
use std::collections::HashSet;
use vstd::prelude::*;

verus! {

/// Which child of a node a value goes to.
pub enum Side {
    Left,
    Right,
}

/// A tree node: values below `val` go left, the others right.
#[derive(Debug, PartialEq, Eq)]
pub struct TreeNode {
    pub val: i32,
    pub left: Option<Box<TreeNode>>,
    pub right: Option<Box<TreeNode>>,
}

/// The values of an optional subtree in preorder.
pub open spec fn preorder_of(t: Option<Box<TreeNode>>) -> Seq<i32>
    decreases t,
{
    match t {
        None => Seq::empty(),
        Some(node) => node.preorder(),
    }
}

/// An optional subtree with `v` inserted; a new leaf where there was none.
pub open spec fn inserted_into(t: Option<Box<TreeNode>>, v: i32) -> TreeNode
    decreases t,
{
    match t {
        None => TreeNode::leaf(v),
        Some(node) => node.inserted(v),
    }
}

impl TreeNode {
    pub open spec fn leaf(v: i32) -> TreeNode {
        TreeNode { val: v, left: None, right: None }
    }

    /// The values of the tree: the root, then the left subtree, then the
    /// right one.
    pub open spec fn preorder(self) -> Seq<i32>
        decreases self,
    {
        seq![self.val] + preorder_of(self.left) + preorder_of(self.right)
    }

    /// The tree with `v` inserted on the side that its order puts it.
    pub open spec fn inserted(self, v: i32) -> TreeNode
        decreases self,
    {
        if v < self.val {
            TreeNode { left: Some(Box::new(inserted_into(self.left, v))), ..self }
        } else {
            TreeNode { right: Some(Box::new(inserted_into(self.right, v))), ..self }
        }
    }

    /// A tree of the single value `val`.
    pub fn new(val: i32) -> (r: TreeNode)
        ensures
            r == TreeNode::leaf(val),
    {
        TreeNode { val, left: None, right: None }
    }

    /// Inserts `val`: left of this node when it is smaller, else right.
    pub fn insert(&mut self, val: i32)
        ensures
            *final(self) == old(self).inserted(val),
        decreases *old(self), 1nat,
    {
        if val < self.val {
            self.do_insert(val, Side::Left);
        } else {
            self.do_insert(val, Side::Right);
        }
    }

    /// Inserts `val` into the subtree on `side`, making a leaf there if that
    /// side is empty.
    pub fn do_insert(&mut self, val: i32, side: Side)
        ensures
            side is Left ==> *final(self) == (TreeNode {
                left: Some(Box::new(inserted_into(old(self).left, val))),
                ..*old(self)
            }),
            side is Right ==> *final(self) == (TreeNode {
                right: Some(Box::new(inserted_into(old(self).right, val))),
                ..*old(self)
            }),
        decreases *old(self), 0nat,
    {
        match side {
            Side::Left => {
                match self.left.take() {
                    None => {
                        self.left = Some(Box::new(TreeNode::new(val)));
                    },
                    Some(mut child) => {
                        child.insert(val);
                        self.left = Some(child);
                    },
                }
            },
            Side::Right => {
                match self.right.take() {
                    None => {
                        self.right = Some(Box::new(TreeNode::new(val)));
                    },
                    Some(mut child) => {
                        child.insert(val);
                        self.right = Some(child);
                    },
                }
            },
        }
    }
}


/// The tree made from `s[0]` with `s[1]`, ..., `s[n - 1]` inserted in turn.
pub open spec fn built_from(s: Seq<i32>, n: nat) -> TreeNode
    decreases n,
{
    if n <= 1 {
        TreeNode::leaf(s[0])
    } else {
        built_from(s, (n - 1) as nat).inserted(s[n - 1])
    }
}

/// The tree made by inserting the values of `vec` in order; the first is the
/// root.
pub fn build_tree(vec: Vec<i32>) -> (r: TreeNode)
    requires
        vec.len() >= 1,
    ensures
        r == built_from(vec@, vec.len() as nat),
{
    let mut tree = TreeNode::new(vec[0]);
    let mut i: usize = 1;
    while i < vec.len()
        invariant
            1 <= i <= vec.len(),
            tree == built_from(vec@, i as nat),
        decreases vec.len() - i,
    {
        tree.insert(vec[i]);
        i += 1;
    }
    tree
}

/// `k - v` is an `i32` held in `memo`.
pub open spec fn complement_in(memo: Set<i32>, v: i32, k: i32) -> bool {
    i32::MIN <= k - v <= i32::MAX && memo.contains((k - v) as i32)
}

/// Two entries of `s`, at distinct positions, add up to `k`.
pub open spec fn has_pair(s: Seq<i32>, k: i32) -> bool {
    exists|i: int, j: int| 0 <= i < j < s.len() && #[trigger] s[i] + #[trigger] s[j] == k
}

/// Walking `s` in order, with `memo` holding the values seen so far, meets
/// a value whose complement to `k` is in `memo`.
pub open spec fn walk_hits(memo: Set<i32>, s: Seq<i32>, k: i32) -> bool
    decreases s.len(),
{
    if s.len() == 0 {
        false
    } else {
        complement_in(memo, s[0], k) || walk_hits(memo.insert(s[0]), s.drop_first(), k)
    }
}

/// `k - query_value` has been seen.
pub fn value_has_target_pair(query_value: i32, target_sum: i32, memo: &HashSet<i32>) -> (r: bool)
    ensures
        r == complement_in(memo@, query_value, target_sum),
{
    broadcast use vstd::std_specs::hash::group_hash_axioms;

    let wanted: i64 = target_sum as i64 - query_value as i64;
    if wanted < i32::MIN as i64 || wanted > i32::MAX as i64 {
        return false;
    }
    memo.contains(&(wanted as i32))
}

/// Records `value` as seen.
pub fn store_value_if_needed(value: i32, memo: &mut HashSet<i32>)
    ensures
        final(memo)@ == old(memo)@.insert(value),
{
    broadcast use vstd::std_specs::hash::group_hash_axioms;

    if memo.contains(&value) {
        assert(old(memo)@.insert(value) =~= old(memo)@);
        return;
    }
    memo.insert(value);
}


/// A walk over two sequences in turn hits in the first, or in the second
/// with the first one's values seen.
pub proof fn lemma_walk_concat(memo: Set<i32>, a: Seq<i32>, b: Seq<i32>, k: i32)
    ensures
        walk_hits(memo, a + b, k) == (walk_hits(memo, a, k) || walk_hits(
            memo.union(a.to_set()),
            b,
            k,
        )),
    decreases a.len(),
{
    if a.len() == 0 {
        assert(a + b =~= b);
        assert(memo.union(a.to_set()) =~= memo);
    } else {
        let rest = a.drop_first();
        assert((a + b).drop_first() =~= rest + b);
        assert((a + b)[0] == a[0]);
        lemma_walk_concat(memo.insert(a[0]), rest, b, k);
        assert(memo.insert(a[0]).union(rest.to_set()) =~= memo.union(a.to_set())) by {
            assert forall|t: i32| a.to_set().contains(t) <==> t == a[0] || rest.to_set().contains(t) by {
                if a.contains(t) && t != a[0] {
                    let i = choose|i: int| 0 <= i < a.len() && a[i] == t;
                    assert(rest[i - 1] == t);
                }
                if rest.contains(t) {
                    let i = choose|i: int| 0 <= i < rest.len() && rest[i] == t;
                    assert(a[i + 1] == t);
                }
                if t == a[0] {
                    assert(a.contains(a[0]));
                }
            }
        }
    }
}

/// The walk hits exactly when some entry's complement was seen before the
/// walk began, or two entries of the sequence add up to `k`.
pub proof fn lemma_walk_pairs(memo: Set<i32>, s: Seq<i32>, k: i32)
    ensures
        walk_hits(memo, s, k) == ((exists|j: int|
            0 <= j < s.len() && #[trigger] complement_in(memo, s[j], k)) || has_pair(s, k)),
    decreases s.len(),
{
    if s.len() > 0 {
        let s0 = s[0];
        let t = s.drop_first();
        let m1 = memo.insert(s0);
        lemma_walk_pairs(m1, t, k);
        if walk_hits(memo, s, k) {
            if !complement_in(memo, s0, k) {
                if exists|j: int| 0 <= j < t.len() && #[trigger] complement_in(m1, t[j], k) {
                    let j = choose|j: int| 0 <= j < t.len() && #[trigger] complement_in(m1, t[j], k);
                    if memo.contains((k - t[j]) as i32) {
                        assert(complement_in(memo, s[j + 1], k));
                    } else {
                        assert(s[0] + s[j + 1] == k);
                    }
                } else {
                    let (i, j) = choose|i: int, j: int|
                        0 <= i < j < t.len() && #[trigger] t[i] + #[trigger] t[j] == k;
                    assert(s[i + 1] + s[j + 1] == k);
                }
            } else {
                assert(complement_in(memo, s[0], k));
            }
        }
        if exists|j: int| 0 <= j < s.len() && #[trigger] complement_in(memo, s[j], k) {
            let j = choose|j: int| 0 <= j < s.len() && #[trigger] complement_in(memo, s[j], k);
            if j > 0 {
                assert(complement_in(m1, t[j - 1], k));
            }
        }
        if has_pair(s, k) {
            let (i, j) = choose|i: int, j: int|
                0 <= i < j < s.len() && #[trigger] s[i] + #[trigger] s[j] == k;
            if i == 0 {
                assert(complement_in(m1, t[j - 1], k));
            } else {
                assert(t[i - 1] + t[j - 1] == k);
            }
        }
    }
}

/// Walks `root` in preorder, returning whether some node's complement to
/// `k` was seen before it; each value is recorded in `memo` as it is
/// passed. The walk stops at the first such node.
pub fn traverse_tree_with_memo(
    root: &Option<Box<TreeNode>>,
    k: i32,
    memo: &mut HashSet<i32>,
) -> (r: bool)
    ensures
        r == walk_hits(old(memo)@, preorder_of(*root), k),
        !r ==> final(memo)@ == old(memo)@.union(preorder_of(*root).to_set()),
        r ==> old(memo)@.subset_of(final(memo)@) && final(memo)@.subset_of(
            old(memo)@.union(preorder_of(*root).to_set()),
        ),
    decreases *root,
{
    match root {
        None => {
            assert(old(memo)@.union(Seq::<i32>::empty().to_set()) =~= old(memo)@);
            false
        },
        Some(node) => {
            let ghost m0 = memo@;
            proof {
                // the preorder is the root, then the left subtree, then the right one
                let left = preorder_of(node.left);
                let right = preorder_of(node.right);
                let all = preorder_of(*root);
                assert(all == seq![node.val] + left + right);
                assert forall|t: i32|
                    all.to_set().contains(t) <==> t == node.val || left.to_set().contains(t)
                        || right.to_set().contains(t) by {
                    if all.contains(t) {
                        let i = choose|i: int| 0 <= i < all.len() && all[i] == t;
                        if 1 <= i < 1 + left.len() {
                            assert(left[i - 1] == t);
                        } else if i >= 1 + left.len() {
                            assert(right[i - 1 - left.len()] == t);
                        }
                    }
                    if left.contains(t) {
                        let i = choose|i: int| 0 <= i < left.len() && left[i] == t;
                        assert(all[i + 1] == t);
                    }
                    if right.contains(t) {
                        let i = choose|i: int| 0 <= i < right.len() && right[i] == t;
                        assert(all[i + 1 + left.len()] == t);
                    }
                    if t == node.val {
                        assert(all[0] == t);
                    }
                }
                assert(all.drop_first() =~= left + right);
                lemma_walk_concat(m0.insert(node.val), left, right, k);
            }
            if value_has_target_pair(node.val, k, memo) {
                return true;
            }
            store_value_if_needed(node.val, memo);
            if traverse_tree_with_memo(&node.left, k, memo) {
                return true;
            }
            if traverse_tree_with_memo(&node.right, k, memo) {
                return true;
            }
            false
        },
    }
}

/// Whether two distinct nodes of the tree hold values that add up to `k`.
pub fn find_target(root: Option<Box<TreeNode>>, k: i32) -> (r: bool)
    ensures
        r == has_pair(preorder_of(root), k),
{
    let mut memo: HashSet<i32> = HashSet::new();
    proof {
        lemma_walk_pairs(Set::empty(), preorder_of(root), k);
    }
    traverse_tree_with_memo(&root, k, &mut memo)
}

} // verus!
