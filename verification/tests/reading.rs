use lexfront::parser::reader::Reader;
use lexfront::source;

fn reader_over(text: &str) -> Reader {
    let mut sources = source::Manager::new();
    let sid = sources.add(String::from("memory:unit"));
    Reader::new(sid, String::from(text))
}

#[test]
fn peek_then_skip_walks_the_text() {
    let mut r = reader_over("ab");
    assert_eq!(r.peek(), Some('a'));
    r.skip().unwrap();
    assert_eq!(r.peek(), Some('b'));
    r.skip().unwrap();
    assert_eq!(r.peek(), None);
    assert!(r.at_eof());
    // At end of input, skip is a no-op.
    r.skip().unwrap();
    assert!(r.at_eof());
}

#[test]
fn newline_resets_the_column() {
    let mut r = reader_over("a\nb");
    assert_eq!(r.cursor().line(), 1);
    assert_eq!(r.cursor().column(), 1);
    r.skip().unwrap();
    assert_eq!(r.cursor().column(), 2);
    r.skip().unwrap();
    assert_eq!(r.cursor().line(), 2);
    assert_eq!(r.cursor().column(), 1);
}

#[test]
fn crlf_advances_as_one_line_break() {
    let mut r = reader_over("a\r\nb");
    r.skip().unwrap();
    r.skip().unwrap();
    assert_eq!(r.cursor().line(), 2);
    assert_eq!(r.cursor().column(), 1);
    assert_eq!(r.peek(), Some('b'));
}

#[test]
fn lone_carriage_return_is_a_diagnostic() {
    let mut r = reader_over("a\rb");
    r.skip().unwrap();
    let e = r.skip().unwrap_err();
    assert_eq!(e.message_count(), 1);
    assert!(e.message(0).text().contains("CR without LF"));
}

#[test]
fn match_char_consumes_only_on_equality() {
    let mut r = reader_over("xy");
    assert!(!r.match_char('y').unwrap());
    assert_eq!(r.peek(), Some('x'));
    assert!(r.match_char('x').unwrap());
    assert_eq!(r.peek(), Some('y'));
}

#[test]
fn match_char_if_consumes_only_on_acceptance() {
    let mut r = reader_over("7a");
    assert!(r.match_char_if(|c| c.is_ascii_digit()).unwrap());
    assert!(!r.match_char_if(|c| c.is_ascii_digit()).unwrap());
    assert_eq!(r.peek(), Some('a'));
}

#[test]
fn reader_keeps_its_source_id() {
    let mut sources = source::Manager::new();
    let sid = sources.add(String::from("memory:one"));
    let r = Reader::new(sid, String::from(""));
    assert_eq!(r.source(), sid);
}
