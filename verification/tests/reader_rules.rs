use hurl::config_file::skip_whitespace_and_comments;
use hurl::reader::{Pos, Reader};

#[test]
fn reader_starts_at_first_line_and_column() {
    let reader = Reader::new("abc");
    assert_eq!(reader.cursor().pos, Pos::new(1, 1));
    assert_eq!(reader.cursor().cursor, 0);
}

#[test]
fn reader_tracks_lines_and_columns() {
    let mut reader = Reader::new("a\nb");
    assert_eq!(reader.read(), Some('a'));
    assert_eq!(reader.cursor().pos, Pos::new(1, 2));
    assert_eq!(reader.read(), Some('\n'));
    assert_eq!(reader.cursor().pos, Pos::new(2, 1));
    assert_eq!(reader.read(), Some('b'));
    assert_eq!(reader.cursor().pos, Pos::new(2, 2));
    assert_eq!(reader.read(), None);
    assert_eq!(reader.cursor().cursor, 3);
    assert!(reader.is_eof());
}

#[test]
fn reader_combining_mark_takes_no_column() {
    let mut reader = Reader::new("e\u{0301}x");
    reader.read();
    assert_eq!(reader.cursor().pos, Pos::new(1, 2));
    reader.read();
    assert_eq!(reader.cursor().pos, Pos::new(1, 2));
    reader.read();
    assert_eq!(reader.cursor().pos, Pos::new(1, 3));
}

#[test]
fn skip_whitespace_and_comments_twice_is_once() {
    let mut reader = Reader::new("  # c\n\t# d\nkey");
    skip_whitespace_and_comments(&mut reader);
    let first = reader.cursor();
    assert_eq!(first.cursor, 11);
    assert_eq!(first.pos, Pos::new(3, 1));
    skip_whitespace_and_comments(&mut reader);
    assert_eq!(reader.cursor(), first);
    assert_eq!(reader.peek(), Some('k'));
}

#[test]
fn skip_whitespace_and_comments_to_end() {
    let mut reader = Reader::new("# only a comment");
    skip_whitespace_and_comments(&mut reader);
    assert!(reader.is_eof());
    assert_eq!(reader.cursor().pos, Pos::new(1, 17));
}

#[test]
fn skip_whitespace_and_comments_stops_at_content() {
    let mut reader = Reader::new("#x\r\n  y # not a comment");
    skip_whitespace_and_comments(&mut reader);
    assert_eq!(reader.cursor().pos, Pos::new(2, 3));
    assert_eq!(reader.peek(), Some('y'));
}

#[test]
fn skip_whitespace_and_comments_reads_nothing_before_content() {
    let mut reader = Reader::new("--test");
    skip_whitespace_and_comments(&mut reader);
    assert_eq!(reader.cursor().cursor, 0);
}
