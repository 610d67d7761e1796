use ds::stack_array::Stack as ArrayStack;
use ds::stack_vec::Stack;

#[test]
fn stack_vec_test_success() {
    let mut stack = Stack::<i32>::new();
    stack.push(1);
    stack.push(2);
    stack.push(3);
    stack.push(4);
    stack.push(5);

    let first = stack.peek();
    assert_eq!(Some(&5), first);

    assert_eq!(Some(5), stack.pop());
    assert_eq!(Some(4), stack.pop());
    assert_eq!(Some(3), stack.pop());
    assert_eq!(Some(2), stack.pop());
    assert_eq!(Some(1), stack.pop());
    assert_eq!(None, stack.pop());

    stack.push(1);
    assert_eq!(Some(&1), stack.peek());
    assert_eq!(Some(1), stack.pop());
    assert!(stack.is_empty());
}

#[test]
fn stack_vec_test_add() {
    let mut stack = Stack::<i32>::new();
    stack.push(8);
    let first = stack.pop();
    assert_eq!(Some(8), first);
}

#[test]
fn stack_vec_test_empty() {
    let mut stack = Stack::<i32>::new();
    stack.push(8);
    let _ = stack.pop();
    let first = stack.pop();
    assert!(first.is_none());
    assert!(stack.is_empty());
}

#[test]
fn stack_vec_test_peek() {
    let mut stack = Stack::<i32>::new();
    stack.push(8);
    let first = stack.peek();

    assert_eq!(first, Some(&8));
}

#[test]
fn stack_vec_test_peek_mut() {
    let mut stack = Stack::<i32>::new();
    stack.push(8);
    let first = stack.peek_mut();
    if let Some(v) = first {
        *v = 99;
    }
    assert_eq!(Some(99), stack.pop());
}

#[test]
fn stack_array_test_success() {
    let mut stack = ArrayStack::<i32>::new();
    stack.push(1);
    stack.push(2);
    stack.push(3);
    stack.push(4);
    assert_eq!(true, stack.push(5));
    assert_eq!(false, stack.push(6));

    assert_eq!(Some(&5), stack.peek());
    assert_eq!(Some(&5), stack.pop());
    assert_eq!(Some(&4), stack.pop());
    assert_eq!(Some(&3), stack.pop());
    assert_eq!(Some(&2), stack.pop());
    assert_eq!(Some(&1), stack.pop());
    assert_eq!(None, stack.pop());

    stack.push(1);
    assert_eq!(Some(&1), stack.peek());
    assert_eq!(Some(&1), stack.pop());
    assert!(stack.is_empty());
}

#[test]
fn stack_array_test_add() {
    let mut stack = ArrayStack::<i32>::new();
    stack.push(8);
    let first = stack.pop();
    assert_eq!(Some(&8), first);
}

#[test]
fn stack_array_test_empty() {
    let mut stack = ArrayStack::<i32>::new();
    stack.push(8);
    let _first = stack.pop();
    let first = stack.pop();
    assert!(first.is_none());
    assert!(stack.is_empty());
}

#[test]
fn stack_array_test_peek() {
    let mut stack = ArrayStack::<i32>::new();
    stack.push(8);
    let first = stack.peek();

    assert_eq!(first, Some(&8));
}

#[test]
fn stack_array_test_peek_mut() {
    let mut stack = ArrayStack::<i32>::new();
    stack.push(8);
    let first = stack.peek_mut();
    if let Some(v) = first {
        *v = 99;
    }
    assert_eq!(Some(&99), stack.pop());
}
