use lox_vm::stack::Stack;

#[test]
fn it_works() {
    let mut stack = Stack::new();
    stack.push(1);
    stack.push(2);
    stack.push(3);

    assert_eq!(stack.size(), 3);

    let three = stack.pop().unwrap();
    let two = stack.pop().unwrap();

    stack.push(4);
    stack.push(5);

    assert_eq!(three, 3);
    assert_eq!(two, 2);

    assert_eq!(stack.pop().unwrap(), 5);
    assert_eq!(stack.pop().unwrap(), 4);

    stack.empty();
    assert!(stack.is_empty());

    for i in 0..=255 {
        stack.push(i);
    }

    let mut i = 255;
    while let Some(val) = stack.pop() {
        assert_eq!(val, i);
        i -= 1;
    }
    assert!(stack.is_empty());
}

#[test]
fn the_two_hundred_fifty_seventh_push_overflows() {
    let mut stack = Stack::new();
    for i in 0..256 {
        assert!(stack.push(i), "push {} should fit", i);
    }
    assert_eq!(stack.size(), 256);
    assert!(!stack.push(256), "the 257th push should overflow");
    assert_eq!(stack.size(), 256);
    assert_eq!(stack.pop(), Some(255));
}

#[test]
fn popping_an_empty_stack_yields_no_value() {
    let mut stack: Stack<i32> = Stack::new();
    assert_eq!(stack.pop(), None);
    assert!(stack.is_empty());
}

#[test]
fn the_top_can_be_read_and_replaced_in_place() {
    let mut stack = Stack::new();
    assert!(stack.top().is_none());
    assert!(!stack.set_top(9));
    stack.push(1);
    stack.push(2);
    assert_eq!(stack.top(), Some(&2));
    assert!(stack.set_top(7));
    assert_eq!(stack.size(), 2);
    assert_eq!(stack.pop(), Some(7));
    assert_eq!(stack.pop(), Some(1));
}
