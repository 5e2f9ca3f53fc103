use xpanda::str_read::StrRead;

#[test]
fn peek_char() {
    let mut reader = StrRead::new("hi");
    assert_eq!(reader.peek_char(), Some('h'));
    assert_eq!(reader.peek_char(), Some('h'));
}

#[test]
fn peek_count() {
    let mut reader = StrRead::new("hello");
    assert_eq!(reader.peek_count(6), "hello");
    assert_eq!(reader.peek_count(4), "hell");
    assert_eq!(reader.peek_count(0), "");
}

#[test]
fn consume_while() {
    let mut reader = StrRead::new("hi!");
    assert_eq!(reader.consume_while(char::is_alphabetic), "hi");
    assert_eq!(reader.consume_while(|_c| true), "!");
    assert_eq!(reader.consume_while(|_c| true), "");
}
