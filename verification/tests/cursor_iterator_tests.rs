use newt::cursor_iterator::{Cursor, CursorIterator};

#[test]
fn cursor_still_iterable() {
    let mut cursor = CursorIterator::from_iter(vec![1, 2, 3]);

    assert_eq!(cursor.next(), Some(1));
    assert_eq!(cursor.next(), Some(2));
    assert_eq!(cursor.next(), Some(3));
    assert_eq!(cursor.next(), None);
}

#[test]
fn cursor_maintains_current_item() {
    let mut cursor = CursorIterator::from_iter(vec![1, 2, 3]);

    assert_eq!(cursor.current(), None);

    cursor.next();
    assert_eq!(cursor.current(), Some(1));
    cursor.next();
    assert_eq!(cursor.current(), Some(2));
    cursor.next();
    assert_eq!(cursor.current(), Some(3));

    cursor.next();
    assert_eq!(cursor.current(), None);
}

#[test]
fn cursor_maintains_next_item() {
    let mut cursor = CursorIterator::from_iter(vec![1, 2, 3]);

    assert_eq!(cursor.peek(), Some(&1));

    cursor.next();
    assert_eq!(cursor.peek(), Some(&2));
    cursor.next();
    assert_eq!(cursor.peek(), Some(&3));
    cursor.next();
    assert_eq!(cursor.peek(), None);

    cursor.next();
    assert_eq!(cursor.peek(), None);
}

#[test]
fn cursor_maintains_correct_count_of_consumed_items() {
    let mut cursor = CursorIterator::from_iter(vec![1, 2, 3]);

    assert_eq!(cursor.consumed(), 0);

    cursor.next();
    assert_eq!(cursor.consumed(), 1);
    cursor.next();
    assert_eq!(cursor.consumed(), 2);
    cursor.next();
    assert_eq!(cursor.consumed(), 3);

    cursor.next();
    assert_eq!(cursor.consumed(), 3);
}

#[test]
fn cursor_iterator_over_empty_items_produces_nothing() {
    let mut cursor: CursorIterator<u8> = CursorIterator::from_iter(vec![]);

    assert_eq!(cursor.peek(), None);
    assert_eq!(cursor.next(), None);
    assert_eq!(cursor.current(), None);
    assert_eq!(cursor.consumed(), 0);
}
