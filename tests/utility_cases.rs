use max_points::people::sort_people;
use max_points::prefix::{char_at_ascii_string, longest_common_prefix, string_is_short};
use max_points::tree::{
    build_tree, find_target, store_value_if_needed, traverse_tree_with_memo,
    value_has_target_pair, TreeNode,
};
use std::collections::HashSet;

fn strings(items: &[&str]) -> Vec<String> {
    items.iter().map(|s| s.to_string()).collect()
}

#[test]
fn prefix_of_words() {
    assert_eq!(longest_common_prefix(strings(&["flower", "flow", "flight"])), "fl");
    assert_eq!(longest_common_prefix(strings(&["dog", "racecar", "car"])), "");
}

#[test]
fn prefix_edge_cases() {
    assert_eq!(longest_common_prefix(vec![]), "");
    assert_eq!(longest_common_prefix(strings(&["alone"])), "alone");
    assert_eq!(longest_common_prefix(strings(&["ab", "ab"])), "ab");
    assert_eq!(longest_common_prefix(strings(&["abc", "ab"])), "ab");
    assert_eq!(longest_common_prefix(strings(&["", "a"])), "");
}

#[test]
fn string_helpers() {
    let s = "hello".to_string();
    assert!(!string_is_short(&s, 4));
    assert!(string_is_short(&s, 5));
    assert_eq!(char_at_ascii_string(&s, 1), 'e');
}

#[test]
fn people_by_height() {
    let names = strings(&["Mary", "John", "Emma"]);
    assert_eq!(sort_people(names, vec![180, 165, 170]), strings(&["Mary", "Emma", "John"]));
    let names = strings(&["Alice", "Bob", "Bob"]);
    assert_eq!(sort_people(names, vec![155, 185, 150]), strings(&["Bob", "Alice", "Bob"]));
}

#[test]
fn equal_heights_keep_their_order() {
    let names = strings(&["a", "b", "c", "d"]);
    assert_eq!(sort_people(names, vec![1, 2, 1, 2]), strings(&["b", "d", "a", "c"]));
    assert_eq!(sort_people(vec![], vec![]), Vec::<String>::new());
}

#[test]
fn tree_insertion_shape() {
    let mut t = TreeNode::new(5);
    t.insert(3);
    t.insert(8);
    t.insert(5);
    assert_eq!(t.left.as_ref().unwrap().val, 3);
    assert_eq!(t.right.as_ref().unwrap().val, 8);
    assert_eq!(t.right.as_ref().unwrap().left.as_ref().unwrap().val, 5);
    assert!(t.left.as_ref().unwrap().left.is_none());
}

#[test]
fn tree_two_sum() {
    let root = build_tree(vec![5, 3, 6, 2, 4, 7]);
    assert!(find_target(Some(Box::new(root)), 9));
    let root = build_tree(vec![5, 3, 6, 2, 4, 7]);
    assert!(!find_target(Some(Box::new(root)), 28));
    assert!(!find_target(None, 0));
}

#[test]
fn tree_two_sum_needs_two_nodes() {
    assert!(!find_target(Some(Box::new(build_tree(vec![3]))), 6));
    assert!(find_target(Some(Box::new(build_tree(vec![3, 3]))), 6));
    assert!(find_target(Some(Box::new(build_tree(vec![i32::MAX, i32::MIN]))), -1));
}

#[test]
fn memo_helpers() {
    let mut memo: HashSet<i32> = HashSet::new();
    store_value_if_needed(4, &mut memo);
    store_value_if_needed(4, &mut memo);
    assert_eq!(memo.len(), 1);
    assert!(value_has_target_pair(6, 10, &memo));
    assert!(!value_has_target_pair(5, 10, &memo));
    assert!(!value_has_target_pair(i32::MIN, i32::MAX, &memo));
    let root = Some(Box::new(build_tree(vec![1, 2])));
    let mut seen: HashSet<i32> = HashSet::new();
    assert!(!traverse_tree_with_memo(&root, 100, &mut seen));
    assert_eq!(seen.len(), 2);
}
