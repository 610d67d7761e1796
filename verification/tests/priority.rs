use ds::queue_priority::{Priority, QueuePriority};

#[test]
fn queue_priority_test_success() {
    let mut queue: QueuePriority<i32> = QueuePriority::new();
    queue.enqueue(18, Priority::LOW);
    queue.enqueue(7, Priority::HIGH);
    queue.enqueue(6, Priority::MIDDLE);

    assert_eq!(Some(7), queue.dequeue());
    assert_eq!(Some(6), queue.dequeue());
    assert_eq!(Some(18), queue.dequeue());
}

#[test]
fn queue_priority_test_search() {
    let mut queue: QueuePriority<i32> = QueuePriority::new();
    queue.enqueue(18, Priority::LOW);
    queue.enqueue(7, Priority::HIGH);
    queue.enqueue(6, Priority::MIDDLE);

    let item = queue.search(7).unwrap();
    *item = 99;

    assert_eq!(queue.dequeue(), Some(99));
    assert_eq!(queue.dequeue(), Some(6));
    assert_eq!(queue.dequeue(), Some(18));
}

#[test]
fn test_change_priority() {
    let mut queue: QueuePriority<i32> = QueuePriority::new();
    queue.enqueue(18, Priority::LOW);
    queue.enqueue(7, Priority::HIGH);
    queue.enqueue(6, Priority::MIDDLE);

    queue.change_priority(18, Priority::LOW, Priority::HIGH);

    assert_eq!(Some(7), queue.dequeue());
    assert_eq!(Some(18), queue.dequeue());
    assert_eq!(Some(6), queue.dequeue());
}

#[test]
fn test_iter() {
    let mut queue: QueuePriority<i32> = QueuePriority::new();
    queue.enqueue(18, Priority::LOW);
    queue.enqueue(7, Priority::HIGH);
    queue.enqueue(6, Priority::MIDDLE);

    let mut it = queue.iter();
    let mut seen: Vec<i32> = vec![];
    while let Some(item) = it.next() {
        println!("{:?}", item);
        seen.push(*item);
    }
    assert!(true);
    assert_eq!(seen, vec![7, 6, 18]);
}

#[test]
fn queue_priority_queue_peek() {
    let mut queue: QueuePriority<i32> = QueuePriority::new();
    queue.enqueue(1, Priority::LOW);
    queue.enqueue(3, Priority::LOW);
    queue.enqueue(2, Priority::MIDDLE);
    assert_eq!(queue.peek(), Some(&2));
    assert_eq!(Some(2), queue.dequeue());
    assert_eq!(queue.peek(), Some(&1));
}

#[test]
fn queue_priority_queue_peek_mut() {
    let mut queue: QueuePriority<i32> = QueuePriority::new();
    queue.enqueue(1, Priority::LOW);
    queue.enqueue(2, Priority::LOW);
    if let Some(v) = queue.peek_mut() {
        *v = 99;
    }
    assert_eq!(queue.peek(), Some(&99));
    assert_eq!(queue.dequeue(), Some(99));
}
