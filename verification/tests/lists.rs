use ds::linked_list_enum::Link;
use ds::stack_linked_list_2::List;

#[test]
fn linked_list_enum_test_success() -> Result<(), String> {
    let mut list: Link<&str> = Link::new();

    list.push("1");
    list.push("2");
    list.push("3");
    list.push("4");

    let node = list.pop();
    assert_eq!(node, Some("1"));

    let node = list.pop();
    assert_eq!(node, Some("2"));

    let node = list.pop();
    assert_eq!(node, Some("3"));

    let node = list.pop();
    assert_eq!(node, Some("4"));

    let _node = list.pop();
    Ok(())
}

#[test]
fn stack_linked_list_2_basics() {
    let mut list: List<i32> = List::new();

    // Check empty list behaves right
    assert_eq!(list.pop_front(), None);

    // Populate list
    list.push_front(1);
    list.push_front(2);
    list.push_front(3);

    // Check normal removal
    assert_eq!(list.pop_front(), Some(3));
    assert_eq!(list.pop_front(), Some(2));

    // Push some more just to make sure nothing's corrupted
    list.push_front(4);
    list.push_front(5);

    // Check normal removal
    assert_eq!(list.pop_front(), Some(5));
    assert_eq!(list.pop_front(), Some(4));

    // Check exhaustion
    assert_eq!(list.pop_front(), Some(1));
    assert_eq!(list.pop_front(), None);
}

#[test]
fn stack_linked_list_2_peek() {
    let mut list: List<i32> = List::new();
    assert_eq!(list.peek(), None);
    assert_eq!(list.peek_mut(), None);
    list.push_front(1);
    list.push_front(2);
    list.push_front(3);

    assert_eq!(list.peek(), Some(&3));
    assert_eq!(list.peek_mut(), Some(&mut 3));

    list.peek_mut().map(|value| *value = 42);

    assert_eq!(list.peek(), Some(&42));
    assert_eq!(list.pop_front(), Some(42));
}

#[test]
fn stack_linked_list_2_into_iter() {
    let mut list: List<i32> = List::new();
    list.push_front(1);
    list.push_front(2);
    list.push_front(3);

    let mut iter = list.into_iter();
    assert_eq!(iter.next(), Some(3));
    assert_eq!(iter.next(), Some(2));
    assert_eq!(iter.next(), Some(1));
    assert_eq!(iter.next(), None);
}

#[test]
fn stack_linked_list_2_iter() {
    let mut list: List<i32> = List::new();
    list.push_front(1);
    list.push_front(2);
    list.push_front(3);

    let mut iter = list.iter();
    assert_eq!(iter.next(), Some(&3));
    assert_eq!(iter.next(), Some(&2));
    assert_eq!(iter.next(), Some(&1));
}

#[test]
fn pop_back() {
    let mut list: List<String> = List::new();
    assert_eq!(list.pop_back(), None);
    list.push_front("1".to_owned());
    list.push_front("2".to_owned());
    list.push_front("3".to_owned());
    assert_eq!(list.pop_back(), Some("1".to_owned()));
    assert_eq!(list.pop_back(), Some("2".to_owned()));
    assert_eq!(list.pop_back(), Some("3".to_owned()));
    assert_eq!(list.pop_back(), None);
}

#[test]
fn stack_linked_list_2_test_remove() {
    let mut list: List<String> = List::new();
    assert_eq!(list.remove(&"3".to_owned()), None);
    list.push_front("1".to_owned());
    list.push_front("2".to_owned());
    list.push_front("3".to_owned());
    assert_eq!(list.remove(&"2".to_owned()), Some("2".to_owned()));
    assert_eq!(list.remove(&"1".to_owned()), Some("1".to_owned()));
    assert_eq!(list.remove(&"3".to_owned()), Some("3".to_owned()));
    assert_eq!(list.remove(&"3".to_owned()), None);
}

#[test]
fn stack_linked_list_2_test_insert() {
    let mut list: List<String> = List::new();
    assert_eq!(list.remove(&"3".to_owned()), None);
    list.push_front("1".to_owned());
    assert_eq!(String::from("1"), list.get_keys());
    list.push_front("2".to_owned());
    assert_eq!(String::from("2->1"), list.get_keys());
    list.push_front("3".to_owned());
    assert_eq!(String::from("3->2->1"), list.get_keys());
    list.insert(&"2".to_owned(), "55".to_owned());
    assert_eq!(String::from("3->2->55->1"), list.get_keys());
    assert_eq!(list.pop_front(), Some("3".to_owned()));
    assert_eq!(String::from("2->55->1"), list.get_keys());
    assert_eq!(list.pop_front(), Some("2".to_owned()));
    assert_eq!(String::from("55->1"), list.get_keys());
    assert_eq!(list.pop_front(), Some("55".to_owned()));
    assert_eq!(String::from("1"), list.get_keys());
    assert_eq!(list.pop_front(), Some("1".to_owned()));
}

#[test]
fn stack_linked_list_2_test_search() {
    let mut list: List<String> = List::new();
    list.push_front("1".to_owned());
    list.push_front("2".to_owned());
    list.push_front("3".to_owned());
    assert_eq!(String::from("3->2->1"), list.get_keys());
    assert_eq!(Some(&"2".to_owned()), list.search(&"2".to_owned()));
}

#[test]
fn test_contains() {
    let mut list: List<String> = List::new();
    list.push_front("1".to_owned());
    list.push_front("2".to_owned());
    list.push_front("3".to_owned());
    assert_eq!(String::from("3->2->1"), list.get_keys());
    assert_eq!(true, list.contains(&"2".to_owned()));
    assert_eq!(false, list.contains(&"4".to_owned()));
    assert_eq!(list.remove(&"2".to_owned()), Some("2".to_owned()));
    assert_eq!(false, list.contains(&"2".to_owned()));
}
