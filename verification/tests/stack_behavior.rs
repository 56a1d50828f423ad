use evm_core::errors::EvmErrors;
use evm_core::stack::Stack;
use evm_core::word::Word;

/// Helper to create distinct words for tests: a 32-byte value whose last
/// byte is `n`, so its numeric value is `n`.
fn make_word(n: u8) -> Word {
    Word::from_u64(n as u64)
}

#[test]
fn push_pop_lifo_behavior() {
    let mut stack = Stack::default();

    let a = make_word(1);
    let b = make_word(2);
    let c = make_word(3);

    // Push values in order a, b, c
    assert!(stack.push(a.clone()).is_ok());
    assert!(stack.push(b.clone()).is_ok());
    assert!(stack.push(c.clone()).is_ok());

    // Length should reflect number of pushes
    assert_eq!(stack.len(), 3);

    // Pop should follow LIFO: c, b, a
    assert_eq!(stack.pop(), Some(c));
    assert_eq!(stack.pop(), Some(b));
    assert_eq!(stack.pop(), Some(a));

    // Now empty
    assert!(stack.is_empty());
    assert_eq!(stack.pop(), None);
}

#[test]
fn pop_on_empty_returns_none() {
    let mut stack = Stack::default();
    // Ensure empty to start
    assert_eq!(stack.len(), 0);
    assert_eq!(stack.pop(), None);

    // After pushing and popping everything, pop again returns None
    stack.push(make_word(42)).unwrap();
    assert_eq!(stack.pop(), Some(make_word(42)));
    assert_eq!(stack.pop(), None);
}

#[test]
fn push_enforces_max_depth() {
    let mut stack = Stack::default();

    // Fill the stack up to the limit (1024)
    for i in 0..1024 {
        let v = make_word((i % 256) as u8);
        stack.push(v).expect("push within capacity should succeed");
    }

    // Stack is full; length should be 1024
    assert_eq!(stack.len(), 1024);

    // Pushing one more item should return the `StackTooDeep` error
    let result = stack.push(make_word(0xff));
    assert!(matches!(result, Err(EvmErrors::StackTooDeep)));

    // The failed push left the stack at exactly 1024 items
    assert_eq!(stack.len(), 1024);
}

#[test]
fn peek_reads_by_depth_and_underflows() {
    let mut stack = Stack::default();
    stack.push(make_word(10)).unwrap();
    stack.push(make_word(20)).unwrap();

    assert_eq!(stack.peek(0).unwrap(), make_word(20));
    assert_eq!(stack.peek(1).unwrap(), make_word(10));
    assert!(matches!(stack.peek(2), Err(EvmErrors::StackUnderflow)));

    // Peeking does not consume
    assert_eq!(stack.len(), 2);
}

#[test]
fn swap_exchanges_top_with_depth() {
    let mut stack = Stack::default();
    stack.push(make_word(1)).unwrap();
    stack.push(make_word(2)).unwrap();
    stack.push(make_word(3)).unwrap();

    stack.swap(2).unwrap();
    assert_eq!(stack.pop(), Some(make_word(1)));
    assert_eq!(stack.pop(), Some(make_word(2)));
    assert_eq!(stack.pop(), Some(make_word(3)));

    // A swap deeper than the stack fails and changes nothing
    let mut shallow = Stack::default();
    shallow.push(make_word(5)).unwrap();
    assert!(matches!(shallow.swap(1), Err(EvmErrors::StackUnderflow)));
    assert_eq!(shallow.len(), 1);
}
