use std::collections::LinkedList;
use std::collections::VecDeque;

#[test]
fn test_forward_success() {
    let mut deque: VecDeque<isize> = VecDeque::new();
    deque.push_back(1);
    deque.push_back(2);
    deque.push_back(3);
    deque.push_back(4);
    deque.push_back(5);

    assert_eq!(deque.pop_front(), Some(1));
    assert_eq!(deque.pop_front(), Some(2));
    assert_eq!(deque.pop_front(), Some(3));
    assert_eq!(deque.pop_front(), Some(4));

    assert_eq!(deque.front(), Some(&5));
    assert_eq!(deque.pop_front(), Some(5));
    assert_eq!(deque.front(), None);
}

#[test]
fn test_back_success() {
    let mut deque: VecDeque<isize> = VecDeque::new();
    deque.push_back(1);
    deque.push_back(2);
    deque.push_back(3);
    deque.push_back(4);
    deque.push_back(5);

    assert_eq!(deque.pop_back(), Some(5));
    assert_eq!(deque.pop_back(), Some(4));
    assert_eq!(deque.pop_back(), Some(3));
    assert_eq!(deque.pop_back(), Some(2));

    assert_eq!(deque.back(), Some(&1));
    assert_eq!(deque.pop_back(), Some(1));
    assert_eq!(deque.back(), None);
}

#[test]
fn deque_std_queue_peek() {
    let mut deque: VecDeque<isize> = VecDeque::new();
    deque.push_back(1);
    deque.push_back(2);
    assert_eq!(deque.front(), Some(&1));
}

#[test]
fn deque_std_queue_peek_mut() {
    let mut deque: VecDeque<isize> = VecDeque::new();
    deque.push_back(1);
    deque.push_back(2);
    if let Some(v) = deque.front_mut() {
        *v = 99;
    }
    assert_eq!(deque.front(), Some(&99));
    assert_eq!(deque.pop_front(), Some(99));
}

#[test]
fn deque_std_queue_dequeue() {
    let mut deque: VecDeque<isize> = VecDeque::new();
    deque.push_back(1);
    deque.push_back(2);

    assert_eq!(deque.pop_front(), Some(1));
    assert_eq!(deque.pop_front(), Some(2));
    assert_eq!(deque.is_empty(), true);
}

#[test]
fn stack_linked_list_std_basics() {
    let mut list: LinkedList<i32> = LinkedList::new();

    // Check empty list behaves right
    assert_eq!(list.pop_front(), None);

    // Populate list
    list.push_front(1);
    list.push_front(2);
    list.push_front(3);

    // Check normal removal
    assert_eq!(list.pop_front(), Some(3));
    assert_eq!(list.pop_front(), Some(2));

    // Push some more just to make sure nothing's corrupted
    list.push_front(4);
    list.push_front(5);

    // Check normal removal
    assert_eq!(list.pop_front(), Some(5));
    assert_eq!(list.pop_front(), Some(4));

    // Check exhaustion
    assert_eq!(list.pop_front(), Some(1));
    assert_eq!(list.pop_front(), None);
}

#[test]
fn stack_linked_list_std_peek() {
    let mut list: LinkedList<i32> = LinkedList::new();
    assert_eq!(list.front(), None);
    assert_eq!(list.front_mut(), None);
    list.push_front(1);
    list.push_front(2);
    list.push_front(3);

    assert_eq!(list.front(), Some(&3));
    assert_eq!(list.front_mut(), Some(&mut 3));

    list.front_mut().map(|value| *value = 42);

    assert_eq!(list.front(), Some(&42));
    assert_eq!(list.pop_front(), Some(42));
}

#[test]
fn stack_linked_list_std_into_iter() {
    let mut list: LinkedList<i32> = LinkedList::new();
    list.push_front(1);
    list.push_front(2);
    list.push_front(3);

    let mut iter = list.into_iter();
    assert_eq!(iter.next(), Some(3));
    assert_eq!(iter.next(), Some(2));
    assert_eq!(iter.next(), Some(1));
    assert_eq!(iter.next(), None);
}

#[test]
fn stack_linked_list_std_iter() {
    let mut list: LinkedList<i32> = LinkedList::new();
    list.push_front(1);
    list.push_front(2);
    list.push_front(3);

    let mut iter = list.iter();
    assert_eq!(iter.next(), Some(&3));
    assert_eq!(iter.next(), Some(&2));
    assert_eq!(iter.next(), Some(&1));
}

#[test]
fn stack_linked_list_std_iter_mut() {
    let mut list: LinkedList<i32> = LinkedList::new();
    list.push_front(1);
    list.push_front(2);
    list.push_front(3);

    let mut iter = list.iter_mut();
    assert_eq!(iter.next(), Some(&mut 3));
    assert_eq!(iter.next(), Some(&mut 2));
    assert_eq!(iter.next(), Some(&mut 1));
}
