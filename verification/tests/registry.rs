use ds::device_registry::BetterDeviceRegistry;
use ds::trie::IoTDevice;

#[test]
fn red_black_tree_rc_test_success() {
    let mut tree = BetterDeviceRegistry::new_empty();
    let nodes = 1..=9;
    for i in nodes {
        let s = format!("{}", i);
        tree.add(IoTDevice::new(i, s.clone(), s.clone()));
    }

    println!("{}", tree.display());
    assert!(true);
}

#[test]
fn registry_keeps_duplicates_and_walks_in_order() {
    let mut tree = BetterDeviceRegistry::new_empty();
    assert!(tree.is_a_valid_red_black_tree());
    for (id, tag) in [(42u64, "a"), (7u64, "b"), (99u64, "c"), (7u64, "d")] {
        let s = format!("dev-{}-{}", id, tag);
        tree.add(IoTDevice::new(id, s.clone(), s.clone()));
    }
    assert!(tree.is_a_valid_red_black_tree());

    // A repeated identifier keeps both records; find hands out the
    // earliest.
    let found = tree.find(7).unwrap();
    assert_eq!("dev-7-b", found.address);
    assert!(tree.find(1).is_none());

    // The walk ascends by identifier, repeats grouped in arrival order.
    let seen: std::cell::RefCell<Vec<String>> = std::cell::RefCell::new(vec![]);
    tree.walk(|device| {
        seen.borrow_mut().push(device.address.clone());
    });
    assert_eq!(
        seen.into_inner(),
        vec!["dev-7-b", "dev-7-d", "dev-42-a", "dev-99-c"]
    );
}

#[test]
fn registry_accepts_the_whole_identifier_range() {
    let mut tree = BetterDeviceRegistry::new_empty();
    for id in [0u64, u64::MAX, 9_300_000_000_000_000_000u64] {
        let s = format!("dev-{}", id);
        tree.add(IoTDevice::new(id, s.clone(), s.clone()));
    }
    assert!(tree.is_a_valid_red_black_tree());
    assert_eq!(3, tree.find(u64::MAX).map(|_| 3).unwrap_or(0));

    let seen: std::cell::RefCell<Vec<u64>> = std::cell::RefCell::new(vec![]);
    tree.walk(|device| {
        seen.borrow_mut().push(device.numerical_id);
    });
    assert_eq!(
        seen.into_inner(),
        vec![0, 9_300_000_000_000_000_000, u64::MAX]
    );
}
