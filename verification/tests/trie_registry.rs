use ds::trie::{BestDeviceRegistry, IoTDevice};
use std::cell::RefCell;

#[test]
fn trie_add_and_find() {
    let mut registry = BestDeviceRegistry::new_empty();
    registry.add(IoTDevice::new(1, "addr-1".to_owned(), "/home/one".to_owned()));
    registry.add(IoTDevice::new(2, "addr-2".to_owned(), "/home/two".to_owned()));
    registry.add(IoTDevice::new(3, "addr-3".to_owned(), "/hall".to_owned()));
    assert_eq!(3, registry.length);

    let found = registry.find(&"/home/two".to_owned()).unwrap();
    assert_eq!(2, found.numerical_id);
    assert_eq!("addr-2", found.address);
    assert!(registry.find(&"/home".to_owned()).is_none());
    assert!(registry.find(&"/garden".to_owned()).is_none());
    assert!(registry.find(&"".to_owned()).is_none());
}

#[test]
fn trie_find_resolves_to_deepest_stored_prefix() {
    let mut registry = BestDeviceRegistry::new_empty();
    registry.add(IoTDevice::new(5, "addr-5".to_owned(), "ab".to_owned()));

    // The walk stops at the deepest matched node, so a longer path falls
    // back to the device stored under its deepest prefix.
    let found = registry.find(&"abc".to_owned()).unwrap();
    assert_eq!(5, found.numerical_id);
    let found = registry.find(&"abcdef".to_owned()).unwrap();
    assert_eq!(5, found.numerical_id);

    // A path that diverges before reaching any stored node finds nothing.
    assert!(registry.find(&"a".to_owned()).is_none());
    assert!(registry.find(&"ax".to_owned()).is_none());
}

#[test]
fn trie_add_overwrites_same_path() {
    let mut registry = BestDeviceRegistry::new_empty();
    registry.add(IoTDevice::new(1, "old".to_owned(), "/a".to_owned()));
    registry.add(IoTDevice::new(9, "new".to_owned(), "/a".to_owned()));
    assert_eq!(2, registry.length);
    assert_eq!(9, registry.find(&"/a".to_owned()).unwrap().numerical_id);
}

#[test]
fn trie_walk_visits_every_device() {
    let mut registry = BestDeviceRegistry::new_empty();
    registry.add(IoTDevice::new(1, "a".to_owned(), "/x".to_owned()));
    registry.add(IoTDevice::new(2, "b".to_owned(), "/xy".to_owned()));
    registry.add(IoTDevice::new(3, "c".to_owned(), "/z".to_owned()));

    let seen: RefCell<Vec<u64>> = RefCell::new(vec![]);
    registry.walk(|device| {
        seen.borrow_mut().push(device.numerical_id);
    });
    let mut ids = seen.into_inner();
    ids.sort();
    assert_eq!(ids, vec![1, 2, 3]);
}
