use ds::red_black_tree::helper_prepare_batch_put;
use ds::red_black_tree::Tree;

#[test]
fn put_duplicate_changes_nothing() {
    let mut tree = Tree::new();
    assert!(tree.put(7));
    assert!(tree.put(3));
    assert!(tree.put(11));
    assert_eq!(3, tree.node_count());
    let before: Vec<i64> = tree.depth_first_values_pre_order();

    assert!(!tree.put(3));
    assert_eq!(3, tree.node_count());
    let after: Vec<i64> = tree.depth_first_values_pre_order();
    assert_eq!(before, after);
}

#[test]
fn remove_absent_changes_nothing() {
    let mut tree = Tree::new();
    for v in [8i64, 2, 14, 6] {
        tree.put(v);
    }
    assert_eq!(4, tree.node_count());
    let before: Vec<i64> = tree.depth_first_values_pre_order();

    assert!(!tree.remove(5));
    assert_eq!(4, tree.node_count());
    let after: Vec<i64> = tree.depth_first_values_pre_order();
    assert_eq!(before, after);
}

#[test]
fn count_tracks_distinct_puts_minus_removes() {
    let mut tree = Tree::new();
    let mut expected: usize = 0;
    for v in [5i64, 1, 9, 1, 5, 13, 7] {
        if tree.put(v) {
            expected += 1;
        }
        assert_eq!(expected, tree.node_count());
    }
    assert_eq!(5, tree.node_count());
    for v in [1i64, 100, 9, 9] {
        if tree.remove(v) {
            expected -= 1;
        }
        assert_eq!(expected, tree.node_count());
    }
    assert_eq!(3, tree.node_count());
}

#[test]
fn contains_and_find_round_trip() {
    let mut tree = Tree::new();
    for v in [4i64, 12, 2, 9] {
        tree.put(v);
        assert!(tree.contains(&v));
        assert_eq!(Some(&v), tree.find(v));
    }
    assert!(tree.remove(12));
    assert!(!tree.contains(&12));
    assert_eq!(None, tree.find(12));
    assert!(tree.contains(&4));
    assert_eq!(Some(&9), tree.find(9));
}

#[test]
fn validator_holds_through_mixed_operations() {
    let mut tree = Tree::new();
    for v in 1..=20i64 {
        tree.put(v);
        assert!(tree.helper_is_a_valid_red_black_tree());
    }
    for v in [2i64, 4, 6, 8, 10, 12, 14, 16, 18, 20] {
        assert!(tree.remove(v));
        assert!(tree.helper_is_a_valid_red_black_tree());
        assert!(tree.helper_checking_connections());
    }
    for v in [2i64, 20, 6, 30, 40] {
        assert!(tree.put(v));
        assert!(tree.helper_is_a_valid_red_black_tree());
    }
    let in_order = tree.depth_first_values_in_order();
    assert_eq!(
        in_order,
        vec![1i64, 2, 3, 5, 6, 7, 9, 11, 13, 15, 17, 19, 20, 30, 40]
    );
}

#[test]
fn in_order_is_strictly_ascending() {
    let mut tree = Tree::new();
    for v in [44i64, 17, 60, 3, 28, 51, 92, 17, 3] {
        tree.put(v);
    }
    let values = tree.depth_first_values_in_order();
    assert_eq!(values, vec![3i64, 17, 28, 44, 51, 60, 92]);
    for w in values.windows(2) {
        assert!(w[0] < w[1]);
    }
}

#[test]
fn empty_tree_reports_invalid_and_empty() {
    let tree = Tree::new();
    assert_eq!(0, tree.node_count());
    assert!(!tree.helper_is_a_valid_red_black_tree());
    assert!(!tree.contains(&1));
    assert_eq!(None, tree.find(1));
    assert_eq!("\nTree is empty", tree.display());
}

#[test]
fn remove_down_to_empty() {
    let mut tree = Tree::new();
    for v in [5i64, 4, 6] {
        tree.put(v);
    }
    assert!(tree.remove(5));
    assert!(tree.helper_is_a_valid_red_black_tree());
    assert!(tree.remove(4));
    assert!(tree.helper_is_a_valid_red_black_tree());
    assert!(tree.remove(6));
    assert_eq!(0, tree.node_count());
    assert!(!tree.remove(6));
    assert_eq!(0, tree.node_count());
}

#[test]
fn successor_of_absent_value_is_none() {
    let mut tree = Tree::new();
    for v in [10i64, 5, 15] {
        tree.put(v);
    }
    assert_eq!(None, tree.successor_dfs_in_order(7));
    assert_eq!(None, tree.successor_dfs_in_order(15));
    assert_eq!(Some(&10), tree.successor_dfs_in_order(5));
}

#[test]
fn batch_preparation_starts_at_the_median() {
    let mut batch: Vec<i64> = vec![1, 2, 3, 4, 5];
    let order = helper_prepare_batch_put(&mut batch);
    assert_eq!(order, vec![3i64, 2, 4, 1, 5]);
    assert_eq!(batch, vec![1i64, 2]);
}

#[test]
fn batch_preparation_sorts_first() {
    let mut batch: Vec<i64> = vec![9, 1, 5, 3, 7];
    let order = helper_prepare_batch_put(&mut batch);
    assert_eq!(order, vec![5i64, 3, 7, 1, 9]);
    assert_eq!(batch, vec![1i64, 3]);
}

#[test]
fn batch_preparation_handles_small_batches() {
    let mut empty: Vec<i64> = vec![];
    assert_eq!(helper_prepare_batch_put(&mut empty), Vec::<i64>::new());
    assert_eq!(empty, Vec::<i64>::new());

    let mut single: Vec<i64> = vec![42];
    assert_eq!(helper_prepare_batch_put(&mut single), vec![42i64]);
    assert_eq!(single, Vec::<i64>::new());

    let mut pair: Vec<i64> = vec![8, 3];
    assert_eq!(helper_prepare_batch_put(&mut pair), vec![8i64, 3]);
    assert_eq!(pair, vec![3i64]);
}

#[test]
fn display_lists_every_edge_with_its_colours() {
    let mut tree = Tree::new();
    for v in [5i64, 4, 6] {
        tree.put(v);
    }
    let mut expected = String::new();
    expected.push_str("\n\ndigraph Tree {\n\tratio = fill;\n\tnode [style=filled fontcolor=\"white\"];\n");
    expected.push_str("\t5->4 [color=\"black\"]; 5 [color=\"black\"]; 4 [color=\"black\"];\n");
    expected.push_str("\t4->node_null_4 [color=\"grey\"]; 4 [color=\"black\"];\n");
    expected.push_str("\tnode_null_4[label=\"null\"]\n");
    expected.push_str("\t5->6 [color=\"black\"]; 5 [color=\"black\"]; 6 [color=\"black\"];\n");
    expected.push_str("\t6->node_null_6 [color=\"grey\"]; 6 [color=\"black\"];\n");
    expected.push_str("\tnode_null_6[label=\"null\"]\n");
    expected.push_str("}");
    assert_eq!(expected, tree.display());
}
