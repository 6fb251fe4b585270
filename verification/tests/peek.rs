use calc::peek::TakeWhilePeek;

#[test]
fn cursor_peek_and_next() {
    let mut cursor = TakeWhilePeek::new(vec!['a', 'b']);
    assert_eq!(cursor.peek(), Some('a'));
    assert_eq!(cursor.peek(), Some('a'));
    assert_eq!(cursor.next(), Some('a'));
    assert_eq!(cursor.next(), Some('b'));
    assert_eq!(cursor.next(), None);
    assert_eq!(cursor.peek(), None);
}

#[test]
fn cursor_take_digits() {
    let mut cursor = TakeWhilePeek::new(vec!['1', '2', 'x', '3']);
    assert_eq!(cursor.take_while_digits(), vec!['1', '2']);
    assert_eq!(cursor.peek(), Some('x'));
    assert_eq!(cursor.next(), Some('x'));
    assert_eq!(cursor.take_while_digits(), vec!['3']);
    assert_eq!(cursor.take_while_digits(), Vec::<char>::new());
    assert_eq!(cursor.next(), None);
}
