use ds::red_black_tree::helper_prepare_batch_put;
use ds::red_black_tree::Tree;

#[test]
fn red_black_tree_nonnull_test_success() {
    let mut tree: Tree = Tree::new();
    let mut nodes: Vec<i64> = vec![
        480, 978, 379, 784, 999, 695, 23, 97, 309, 312, 449, 958, 992, 220, 95, 257, 869, 959,
        450, 258, 315, 783, 731, 914, 880, 984, 734, 570, 801, 908, 181, 466, 238, 916, 77, 801,
        867, 382, 943, 603, 65, 545, 200, 759, 158, 987, 821, 630, 537, 704, 149, 617, 498, 261,
        160, 192, 760, 417, 939, 757, 858, 376, 885, 336, 764, 443, 155, 983, 586, 957, 375, 893,
        707, 255, 811, 86, 370, 384, 177, 834, 177, 834, 313, 209, 623, 176, 875, 748, 949, 529,
        932, 369, 385, 419, 222, 719, 342, 68, 156, 314, 343, 262, 467, 499, 604, 732, 758, 765,
        812, 859, 876,
    ];
    let nodes: Vec<i64> = helper_prepare_batch_put(&mut nodes);
    for i in nodes {
        tree.put(i);
    }

    println!("{}", tree.display());
    assert!(tree.helper_checking_connections());
    assert!(tree.helper_is_a_valid_red_black_tree());
}

#[test]
fn test_rotate_right_success() {
    let mut tree: Tree = Tree::new();
    let nodes: Vec<i64> = vec![575, 396, 139, 792, 546, 73, 7];
    for i in nodes {
        tree.put(i);
    }
    assert!(tree.helper_checking_connections());
    assert!(tree.helper_is_a_valid_red_black_tree());
}

#[test]
fn test_find_success() {
    let mut tree = Tree::new();
    let nodes = 0..=28;
    for i in nodes {
        tree.put(i);
    }
    assert!(tree.contains(&4));
}

#[test]
fn test_validate_success() {
    let mut tree = Tree::new();
    let nodes = 0..=28;
    for i in nodes {
        tree.put(i);
    }
    assert!(tree.helper_is_a_valid_red_black_tree());
}

#[test]
#[should_panic(expected = "tree empty")]
fn test_remove_tree_success() {
    let mut tree = Tree::new();
    let nodes = 1..=6;
    for i in nodes {
        tree.put(i);
    }
    assert_eq!(6, tree.node_count());
    assert_eq!(0, tree.node_count(), "tree empty");
}

#[test]
fn test_remove_1_0_0_success() {
    let mut tree = Tree::new();
    let nodes = 0..=27;
    for i in nodes {
        tree.put(i);
    }
    assert!(tree.helper_is_a_valid_red_black_tree());
    tree.remove(26);
    assert!(tree.helper_is_a_valid_red_black_tree());
}

#[test]
fn test_remove_3_0_0_success() {
    let mut tree = Tree::new();
    let nodes = 0..=3;
    for i in nodes {
        tree.put(i);
    }
    assert!(tree.helper_is_a_valid_red_black_tree());
    tree.remove(3);
    assert!(tree.helper_is_a_valid_red_black_tree());
}

#[test]
fn test_remove_node_4_0_0_to_3_0_0_success() {
    let mut tree = Tree::new();
    let nodes = 0..=9;
    for i in nodes {
        tree.put(i);
    }
    assert!(tree.helper_is_a_valid_red_black_tree());
    tree.remove(7);
    assert!(tree.helper_is_a_valid_red_black_tree());
}

#[test]
fn test_remove_node_4_0_0_to_1_0_0_success() {
    let mut tree = Tree::new();
    let nodes: Vec<i64> = vec![315, 897, 267, 995, 843, 520];
    for i in nodes {
        tree.put(i);
    }
    assert!(tree.helper_is_a_valid_red_black_tree());
    tree.remove(897);
    assert!(tree.helper_is_a_valid_red_black_tree());
}

#[test]
fn test_remove_black_2_1_1_1_success() {
    let mut tree = Tree::new();
    let nodes: Vec<i64> = vec![314, 147, 119, 331, 755, 449, 118];
    for i in nodes {
        tree.put(i);
    }
    assert!(tree.helper_is_a_valid_red_black_tree());

    tree.remove(314);

    assert!(tree.helper_checking_connections());
    assert!(tree.helper_is_a_valid_red_black_tree());
    tree.remove(147);
    assert!(tree.helper_is_a_valid_red_black_tree());
    assert!(tree.helper_checking_connections());
}

#[test]
fn test_remove_black_2_1_1_2_success() {
    let mut tree = Tree::new();
    let nodes: Vec<i64> = vec![231, 511, 914, 699, 532, 531];
    for i in nodes {
        tree.put(i);
    }
    assert!(tree.helper_is_a_valid_red_black_tree());
    tree.remove(231);
    assert!(tree.helper_is_a_valid_red_black_tree());
}

#[test]
fn test_remove_black_2_1_2_1_success() {
    let mut tree = Tree::new();
    let nodes: Vec<i64> = vec![438, 440, 260, 530, 34, 355];
    for i in nodes {
        tree.put(i);
    }
    assert!(tree.helper_is_a_valid_red_black_tree());
    tree.remove(355);
    assert!(tree.helper_is_a_valid_red_black_tree());
}

#[test]
fn test_remove_black_2_1_2_2_success() {
    let mut tree = Tree::new();
    let nodes: Vec<i64> = vec![231, 511, 914, 699, 532];
    for i in nodes {
        tree.put(i);
    }
    assert!(tree.helper_is_a_valid_red_black_tree());
    println!("{}", tree.display());
    tree.remove(231);
    assert!(tree.helper_is_a_valid_red_black_tree());
}

#[test]
fn test_remove_black_2_2_1_node_a_root_success() {
    let mut tree = Tree::new();
    let nodes: Vec<i64> = vec![315, 897, 267, 995, 843, 520];
    for i in nodes {
        tree.put(i);
    }
    assert!(tree.helper_is_a_valid_red_black_tree());
    tree.remove(995);
    assert!(tree.helper_is_a_valid_red_black_tree());
}

#[test]
fn test_remove_black_2_2_1_success() {
    let mut tree = Tree::new();
    let nodes: Vec<i64> = vec![486, 226, 612, 121, 479, 69, 559, 990, 290, 324, 280];
    for i in nodes {
        tree.put(i);
    }
    assert!(tree.helper_is_a_valid_red_black_tree());
    tree.remove(479);
    assert!(!tree.contains(&479));
    assert!(tree.helper_is_a_valid_red_black_tree());
}

#[test]
fn test_remove_black_2_2_2_success() {
    let mut tree = Tree::new();
    let nodes: Vec<i64> = vec![119, 331, 755, 449, 118, 850, 495, 382, 328];
    for i in nodes {
        tree.put(i);
    }
    assert!(tree.helper_is_a_valid_red_black_tree());
    tree.remove(382);
    assert!(tree.helper_is_a_valid_red_black_tree());
}

#[test]
fn test_remove_black_2_2_2_root_success() {
    let mut tree = Tree::new();
    let nodes: Vec<i64> = vec![106, 734, 951, 753, 205, 730];
    for i in nodes {
        tree.put(i);
    }
    tree.remove(753);
    assert!(tree.helper_is_a_valid_red_black_tree());
    tree.remove(951);
    assert!(tree.helper_is_a_valid_red_black_tree());
}

#[test]
fn test_remove_black_2_3_1_1_success() {
    let mut tree = Tree::new();
    let nodes: Vec<i64> = vec![575, 396, 139, 792, 546, 73, 7, 6];
    for i in nodes {
        tree.put(i);
    }
    assert!(tree.helper_is_a_valid_red_black_tree());
    tree.remove(139);
    assert!(tree.helper_is_a_valid_red_black_tree());
}

#[test]
fn test_remove_black_2_3_1_1_root_success() {
    let mut tree = Tree::new();
    let nodes: Vec<i64> = vec![106, 107, 108, 105];
    for i in nodes {
        tree.put(i);
    }
    assert!(tree.helper_is_a_valid_red_black_tree());
    tree.remove(108);
    assert!(tree.helper_is_a_valid_red_black_tree());
}

#[test]
fn test_remove_black_2_3_1_2_success() {
    let mut tree = Tree::new();
    let nodes: Vec<i64> = vec![575, 396, 139, 792, 546, 73, 7, 138];
    for i in nodes {
        tree.put(i);
    }
    assert!(tree.helper_is_a_valid_red_black_tree());
    tree.remove(7);
    assert!(tree.helper_is_a_valid_red_black_tree());
}

#[test]
fn test_remove_black_2_3_1_2_root_success() {
    let mut tree = Tree::new();
    let nodes: Vec<i64> = vec![106, 107, 109, 108];
    for i in nodes {
        tree.put(i);
    }
    assert!(tree.helper_is_a_valid_red_black_tree());
    tree.remove(106);
    assert!(tree.helper_is_a_valid_red_black_tree());
}

#[test]
fn test_remove_black_2_3_2_1_success() {
    let mut tree = Tree::new();
    let nodes: Vec<i64> = vec![15, 19, 20, 14, 17, 18, 16];
    for i in nodes {
        tree.put(i);
    }
    assert!(tree.helper_is_a_valid_red_black_tree());
    tree.remove(20);
    assert!(tree.helper_is_a_valid_red_black_tree());
}

#[test]
fn test_remove_black_2_3_2_1_root_success() {
    let mut tree = Tree::new();
    let nodes: Vec<i64> = vec![5, 4, 6];
    for i in nodes {
        tree.put(i);
    }
    assert!(tree.helper_is_a_valid_red_black_tree());
    tree.remove(6);
    assert!(tree.helper_is_a_valid_red_black_tree());
    println!("{}", tree.display());
}

#[test]
fn test_remove_black_2_3_2_2_up_to_down_success() {
    let mut tree: Tree = Tree::new();

    let nodes: Vec<i64> = vec![
        352, 873, 462, 836, 316, 381, 595, 288, 600, 263, 310, 74, 544, 621, 402, 618, 61, 576,
        654, 579, 985, 949, 856, 796, 894, 6, 991, 880, 652, 349, 525, 9, 515, 371, 53,
    ];
    for i in nodes {
        tree.put(i);
    }

    println!("{}", tree.display());
    assert!(tree.helper_checking_connections());

    tree.remove(6);
    println!("{}", tree.display());
    assert!(tree.helper_is_a_valid_red_black_tree());
    assert!(tree.helper_checking_connections());
}

#[test]
fn test_remove_black_2_3_2_2_start_v5_success() {
    let mut tree: Tree = Tree::new();

    let nodes: Vec<i64> = vec![
        480, 978, 379, 784, 398, 71, 695, 23, 97, 309, 312, 449, 958, 992, 220, 95, 257, 869,
        959, 450, 258, 315, 783, 731, 914, 880, 984, 734, 570, 801, 908, 181, 466, 238, 916, 77,
        801, 867, 382, 943, 603, 65, 545, 200, 759, 158, 987, 821, 630, 537, 704, 149, 617, 498,
        261, 160, 192, 760, 417, 939, 757, 858, 376, 885, 336, 764, 443, 155, 983, 586, 957, 375,
        893, 707, 255, 811, 86, 370, 384, 177, 834, 177, 834, 313, 209, 623, 176, 875, 748, 949,
        529, 932, 369, 385, 419, 222, 719, 342, 68, 156, 314, 343, 262, 467, 499, 604, 732, 758,
        765, 812, 859, 876,
    ];
    for i in nodes {
        tree.put(i);
    }

    tree.remove(23);

    assert!(tree.helper_is_a_valid_red_black_tree());
    assert!(tree.helper_checking_connections());
}

#[test]
fn test_remove_black_2_3_2_2_success() {
    let mut tree = Tree::new();
    let nodes: Vec<i64> = vec![246, 562, 950, 237, 417, 418, 416];
    for i in nodes {
        tree.put(i);
    }
    assert!(tree.helper_is_a_valid_red_black_tree());
    tree.remove(418);
    assert!(tree.helper_is_a_valid_red_black_tree());
}

#[test]
fn test_remove_black_2_3_2_2_root_success() {
    let mut tree = Tree::new();
    let nodes: Vec<i64> = vec![5, 4, 6];
    for i in nodes {
        tree.put(i);
    }
    assert!(tree.helper_is_a_valid_red_black_tree());
    tree.remove(4);
    assert!(tree.helper_is_a_valid_red_black_tree());
}
