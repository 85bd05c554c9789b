use reqwless::lexical::{find_sequence, match_header};

#[test]
fn test_sequence() {
    assert_eq!(Some(0), find_sequence(b"\r\n\r\n", b"\r\n\r\n"));
    assert_eq!(Some(3), find_sequence(b"foo\r\n\r\n", b"\r\n\r\n"));
    assert_eq!(Some(0), find_sequence(b"\r\n\r\nfoo", b"\r\n\r\n"));
    assert_eq!(Some(3), find_sequence(b"foo\r\n\r\nbar", b"\r\n\r\n"));
    assert_eq!(None, find_sequence(b"foobar\r\n\rother", b"\r\n\r\n"));
    assert_eq!(None, find_sequence(b"foo", b"\r\n\r\n"));
}

#[test]
fn test_match_header() {
    assert!(match_header("Content-Length: 4", "Content-Length"));
    assert!(match_header("content-length: 4", "Content-Length"));
    assert!(match_header("Content-length: 4", "Content-Length"));
    assert!(!match_header("Content-type: application/json", "Content-Length"));
}

#[test]
fn find_sequence_returns_leftmost_of_several() {
    assert_eq!(Some(1), find_sequence(b"a\r\n\r\n\r\n\r\n", b"\r\n\r\n"));
    assert_eq!(Some(2), find_sequence(b"xxab", b"ab"));
    assert_eq!(None, find_sequence(b"", b"ab"));
}

#[test]
fn match_header_needs_the_whole_name() {
    assert!(!match_header("Content", "Content-Length"));
    assert!(match_header("CONTENT-TYPE", "content-type"));
    assert!(!match_header("Content_Type: x", "content-type"));
}
