use ds::queue_linked_list::{Node, Queue as LinkedQueue};
use ds::queue_vec::Queue;

#[test]
fn queue_vec_test_success() {
    let mut queue: Queue<isize> = Queue::new();
    queue.enqueue(1);
    queue.enqueue(2);
    queue.enqueue(3);
    queue.enqueue(4);
    queue.enqueue(5);

    assert_eq!(queue.dequeue(), Some(1));
    assert_eq!(queue.dequeue(), Some(2));
    assert_eq!(queue.dequeue(), Some(3));
    assert_eq!(queue.dequeue(), Some(4));

    assert_eq!(queue.peek(), Some(&5));
    assert_eq!(queue.dequeue(), Some(5));
    assert_eq!(queue.peek(), None);
}

#[test]
fn queue_vec_test_search() {
    let mut queue: Queue<isize> = Queue::new();
    queue.enqueue(1);
    queue.enqueue(2);
    queue.enqueue(3);
    queue.enqueue(4);
    queue.enqueue(5);

    let item = queue.search(4).unwrap();
    *item = 99;

    assert_eq!(queue.dequeue(), Some(1));
    assert_eq!(queue.dequeue(), Some(2));
    assert_eq!(queue.dequeue(), Some(3));
    assert_eq!(queue.dequeue(), Some(99));
    assert_eq!(queue.dequeue(), Some(5));
}

#[test]
fn queue_vec_queue_peek() {
    let mut queue: Queue<isize> = Queue::new();
    queue.enqueue(1);
    queue.enqueue(2);
    assert_eq!(queue.peek(), Some(&1));
}

#[test]
fn queue_vec_queue_peek_mut() {
    let mut queue: Queue<isize> = Queue::new();
    queue.enqueue(1);
    queue.enqueue(2);
    if let Some(v) = queue.peek_mut() {
        *v = 99;
    }
    assert_eq!(queue.peek(), Some(&99));
    assert_eq!(queue.dequeue(), Some(99));
}

#[test]
fn queue_vec_queue_dequeue() {
    let mut queue: Queue<isize> = Queue::new();
    queue.enqueue(1);
    queue.enqueue(2);

    assert_eq!(queue.dequeue(), Some(1));
    assert_eq!(queue.dequeue(), Some(2));
    assert_eq!(queue.is_empty(), true);
}

#[test]
fn queue_linked_list_test_success() {
    let node1 = Node::<i32>::new(1);
    let node2 = Node::<i32>::new(2);
    let node3 = Node::<i32>::new(3);
    let node4 = Node::<i32>::new(4);
    let node5 = Node::<i32>::new(5);
    let mut queue = LinkedQueue::new(Some(Box::new(node1)));
    queue.enqueue(Some(Box::new(node2)));
    queue.enqueue(Some(Box::new(node3)));
    queue.enqueue(Some(Box::new(node4)));
    queue.enqueue(Some(Box::new(node5)));

    assert_eq!(queue.dequeue(), Some(1));
    assert_eq!(queue.dequeue(), Some(2));
    assert_eq!(queue.dequeue(), Some(3));
    assert_eq!(queue.dequeue(), Some(4));

    assert_eq!(queue.peek(), Some(&5));
    assert_eq!(queue.dequeue(), Some(5));
    assert_eq!(queue.peek(), None);
}

#[test]
fn test_enqueue() {
    let node1 = Node::<i32>::new(1);
    let mut queue = LinkedQueue::new(Some(Box::new(node1)));

    let node2 = Node::<i32>::new(2);
    queue.enqueue(Some(Box::new(node2)));

    assert_eq!(queue.peek(), Some(&1));
    assert_eq!(queue.length(), 2);
    assert!(!queue.is_empty());
}

#[test]
fn test_dequeue() {
    let node1 = Node::<i32>::new(1);
    let mut queue = LinkedQueue::new(Some(Box::new(node1)));

    let node2 = Node::<i32>::new(2);
    queue.enqueue(Some(Box::new(node2)));

    let item = queue.dequeue();
    assert_eq!(item, Some(1));
    assert_eq!(queue.peek(), Some(&2));
    assert_eq!(queue.length(), 1);
    assert!(!queue.is_empty());

    let item = queue.dequeue();
    assert_eq!(item, Some(2));
    assert_eq!(queue.peek(), None);
    assert_eq!(queue.length(), 0);
    assert!(queue.is_empty());
}

#[test]
fn test_peek_all() {
    let node1 = Node::<i32>::new(1);
    let node2 = Node::<i32>::new(2);
    let node3 = Node::<i32>::new(3);

    let mut q = LinkedQueue::new(Some(Box::new(node1)));
    q.enqueue(Some(Box::new(node2)));
    q.enqueue(Some(Box::new(node3)));

    let mut buf: Vec<&i32> = vec![];
    let _ = &q.peek_all(&mut buf);
    assert_eq!(buf, vec![&1, &2, &3]);
}
