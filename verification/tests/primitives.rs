use hurl::config_file::skip_whitespace_and_comments;
use hurl::reader::{Pos, Reader};

#[test]
fn test_skip_whitespace_and_comments() {
    let mut reader = Reader::new("# This is a comment\n   # Another comment\n   option=value\n");
    skip_whitespace_and_comments(&mut reader);
    assert_eq!((reader.cursor().pos), Pos::new(3, 4));
}
