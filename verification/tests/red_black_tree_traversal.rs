use ds::red_black_tree::Tree;

/*

         4
       /   \
      2     9
     / \   //\
    1   3  7   10
          / \
         6   8

    The depth-first orders of the tree built from the batch below:
    pre-order:  4, 2, 1, 3, 9, 7, 6, 8, 10
    in-order:   1, 2, 3, 4, 6, 7, 8, 9, 10
    post-order: 1, 3, 2, 6, 8, 7, 10, 9, 4
    level order: 4, 2, 9, 1, 3, 7, 10, 6, 8

*/
#[test]
fn red_black_tree_nonnull_test_dfs_iter_in_order() {
    let mut tree: Tree = Tree::new();
    let nodes: Vec<i64> = vec![4, 3, 9, 1, 2, 10, 7, 8, 6];
    for i in nodes {
        tree.put(i);
    }

    let mut buf: Vec<i64> = vec![];
    let mut it = tree.iter_dfs_in_order();
    while let Some(item) = it.next() {
        buf.push(item);
    }

    assert_eq!(buf, vec![1, 2, 3, 4, 6, 7, 8, 9, 10]);

    assert_eq!(Some(&6), tree.successor_dfs_in_order(4), "4->6");
    assert_eq!(Some(&2), tree.successor_dfs_in_order(1), "1->2");
    assert_eq!(Some(&3), tree.successor_dfs_in_order(2), "2->3");
    assert_eq!(Some(&4), tree.successor_dfs_in_order(3), "3->4");
    assert_eq!(Some(&6), tree.successor_dfs_in_order(4), "4->6");
    assert_eq!(Some(&7), tree.successor_dfs_in_order(6), "6->7");
    assert_eq!(Some(&8), tree.successor_dfs_in_order(7), "7->8");
    assert_eq!(Some(&9), tree.successor_dfs_in_order(8), "8->9");
    assert_eq!(Some(&10), tree.successor_dfs_in_order(9), "9->10");

    let mut buf: Vec<i64> = vec![];
    let mut it = tree.iter_dfs_in_order();
    while let Some(item) = it.next() {
        buf.push(item);
    }
    assert_eq!(buf, vec![1, 2, 3, 4, 6, 7, 8, 9, 10]);
}

#[test]
fn red_black_tree_nonnull_test_dfs_iter_pre_order() {
    let mut tree: Tree = Tree::new();
    let nodes: Vec<i64> = vec![4, 3, 9, 1, 2, 10, 7, 8, 6];
    for i in nodes {
        tree.put(i);
    }

    let mut buf: Vec<i64> = vec![];
    let mut it = tree.iter_dfs_pre_order();
    while let Some(item) = it.next() {
        buf.push(item);
    }
    assert_eq!(buf, vec![4, 2, 1, 3, 9, 7, 6, 8, 10]);

    assert_eq!(Some(&2), tree.successor_dfs_pre_order(4), "4->2");
    assert_eq!(Some(&1), tree.successor_dfs_pre_order(2), "2->1");
    assert_eq!(Some(&3), tree.successor_dfs_pre_order(1), "1->3");
    assert_eq!(Some(&9), tree.successor_dfs_pre_order(3), "3->9");
    assert_eq!(Some(&7), tree.successor_dfs_pre_order(9), "9->7");
    assert_eq!(Some(&6), tree.successor_dfs_pre_order(7), "7->6");
    assert_eq!(Some(&8), tree.successor_dfs_pre_order(6), "6->8");
    assert_eq!(Some(&10), tree.successor_dfs_pre_order(8), "8->10");

    let mut buf: Vec<i64> = vec![];
    let mut it = tree.iter_dfs_pre_order();
    while let Some(item) = it.next() {
        buf.push(item);
    }
    assert_eq!(buf, vec![4, 2, 1, 3, 9, 7, 6, 8, 10]);
}

#[test]
fn red_black_tree_nonnull_test_dfs_iter_post_order() {
    let mut tree: Tree = Tree::new();
    let nodes: Vec<i64> = vec![4, 3, 9, 1, 2, 10, 7, 8, 6];
    for i in nodes {
        tree.put(i);
    }

    let mut buf: Vec<i64> = vec![];
    let mut it = tree.iter_dfs_post_order();
    while let Some(item) = it.next() {
        buf.push(item);
    }
    assert_eq!(buf, vec![1, 3, 2, 6, 8, 7, 10, 9, 4]);

    assert_eq!(Some(&3), tree.successor_dfs_post_order(1), "1->3");
    assert_eq!(Some(&2), tree.successor_dfs_post_order(3), "3->2");
    assert_eq!(Some(&6), tree.successor_dfs_post_order(2), "2->6");
    assert_eq!(Some(&8), tree.successor_dfs_post_order(6), "6->8");
    assert_eq!(Some(&7), tree.successor_dfs_post_order(8), "8->7");
    assert_eq!(Some(&10), tree.successor_dfs_post_order(7), "7->10");
    assert_eq!(Some(&9), tree.successor_dfs_post_order(10), "10->9");
    assert_eq!(Some(&4), tree.successor_dfs_post_order(9), "9->4");

    let mut buf: Vec<i64> = vec![];
    let mut it = tree.iter_dfs_post_order();
    while let Some(item) = it.next() {
        buf.push(item);
    }
    assert_eq!(buf, vec![1, 3, 2, 6, 8, 7, 10, 9, 4]);
}

#[test]
fn test_bfs() {
    let mut tree: Tree = Tree::new();
    let nodes: Vec<i64> = vec![4, 3, 9, 1, 2, 10, 7, 8, 6];
    for i in nodes {
        tree.put(i);
    }

    let buf: Vec<i64> = tree.breadth_first_search_with_deque();
    assert_eq!(buf, vec![4, 2, 9, 1, 3, 7, 10, 6, 8]);

    let buf: Vec<i64> = tree.breadth_first_search();
    assert_eq!(buf, vec![4, 2, 9, 1, 3, 7, 10, 6, 8]);
}
