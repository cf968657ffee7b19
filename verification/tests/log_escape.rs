use http_server::log_util::ascii_escape;

#[test]
fn printable_bytes_pass_through() {
    assert_eq!(ascii_escape(b"plain text 123"), "plain text 123");
}

#[test]
fn control_and_high_bytes_are_escaped() {
    assert_eq!(ascii_escape(b"a\tb\r\n"), "a\\tb\\r\\n");
    assert_eq!(ascii_escape(b"q\\'\""), "q\\\\\\'\\\"");
    assert_eq!(ascii_escape(&[0x00, 0x1f, 0x7f, 0xff]), "\\x00\\x1f\\x7f\\xff");
}
