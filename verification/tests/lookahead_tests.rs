use kona::lookahead::Lookahead;

#[test]
fn test_next() {
    let vec = vec![1, 2, 3];
    let mut iter = vec.iter().ahead_looker();
    assert_eq!(iter.next(), Some(&1));
    assert_eq!(iter.next(), Some(&2));
    assert_eq!(iter.next(), Some(&3));
    assert_eq!(iter.next(), None);
}

#[test]
fn test_peek() {
    let vec = vec![1, 2, 3];
    let mut iter = vec.iter().ahead_looker();
    assert_eq!(iter.peek(), Some(&&1));
    assert_eq!(iter.peek(), Some(&&1));
    assert_eq!(iter.next(), Some(&1));

    assert_eq!(iter.peek(), Some(&&2));
    assert_eq!(iter.peek(), Some(&&2));
    assert_eq!(iter.next(), Some(&2));

    assert_eq!(iter.peek(), Some(&&3));
    assert_eq!(iter.peek(), Some(&&3));
    assert_eq!(iter.next(), Some(&3));

    assert_eq!(iter.peek(), None);
    assert_eq!(iter.peek(), None);
    assert_eq!(iter.next(), None);
}

#[test]
fn test_peek_nth() {
    let vec = vec![1, 2, 3];

    let mut iter = vec.iter().ahead_looker();
    assert_eq!(iter.peek_nth(0), Some(&&1));
    assert_eq!(iter.peek_nth(1), Some(&&2));
    assert_eq!(iter.peek_nth(2), Some(&&3));
    assert_eq!(iter.peek_nth(3), None);

    assert_eq!(iter.next(), Some(&1));
    assert_eq!(iter.peek_nth(0), Some(&&2));
    assert_eq!(iter.peek_nth(1), Some(&&3));
    assert_eq!(iter.peek_nth(2), None);

    assert_eq!(iter.next(), Some(&2));
    assert_eq!(iter.peek_nth(0), Some(&&3));
    assert_eq!(iter.peek_nth(1), None);

    assert_eq!(iter.next(), Some(&3));
    assert_eq!(iter.peek_nth(0), None);

    let mut iter = vec.iter().ahead_looker();
    assert_eq!(iter.peek_nth(5), None);

    assert_eq!(iter.next(), Some(&1));
    assert_eq!(iter.peek_nth(0), Some(&&2));
    assert_eq!(iter.peek_nth(1), Some(&&3));
    assert_eq!(iter.peek_nth(2), None);

    assert_eq!(iter.next(), Some(&2));
    assert_eq!(iter.peek_nth(0), Some(&&3));
    assert_eq!(iter.peek_nth(1), None);

    assert_eq!(iter.next(), Some(&3));
    assert_eq!(iter.peek_nth(0), None);
}
