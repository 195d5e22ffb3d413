use mova::chars_nav::CharsNavigator;

#[test]
fn navigator_moves_and_counts_lines_and_columns() {
    let mut nav = CharsNavigator::new("ab\ncd");
    assert_eq!(nav.current(), Some('a'));
    assert_eq!(nav.peek(), Some('b'));
    assert_eq!((nav.line(), nav.column()), (1, 1));
    assert_eq!(nav.next(), Some('b'));
    assert_eq!((nav.line(), nav.column()), (1, 2));
    assert_eq!(nav.next(), Some('\n'));
    assert_eq!((nav.line(), nav.column()), (2, 0));
    assert_eq!(nav.next(), Some('c'));
    assert_eq!((nav.line(), nav.column()), (2, 1));
    assert!(!nav.next_if_match('x'));
    assert_eq!(nav.current(), Some('c'));
    assert!(nav.next_if_match('d'));
    assert_eq!(nav.current(), Some('d'));
    assert_eq!(nav.peek(), None);
    assert!(!nav.is_at_end());
    assert_eq!(nav.next(), None);
    assert!(nav.is_at_end());
    assert_eq!(nav.next(), None);
    assert_eq!((nav.line(), nav.column()), (2, 2));
}

#[test]
fn navigator_on_empty_text_is_at_end() {
    let nav = CharsNavigator::new("");
    assert!(nav.is_at_end());
    assert_eq!(nav.current(), None);
}

#[test]
fn navigator_starts_on_line_one_column_one() {
    for text in ["", "a", "ab"] {
        let nav = CharsNavigator::new(text);
        assert_eq!((nav.line(), nav.column()), (1, 1));
    }
}
