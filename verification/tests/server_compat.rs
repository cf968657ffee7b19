//! The path helpers as the single-module server used them: the same
//! functions, exercised under that module's test names.

use http_server::filesystem::{from_hexit, normalize_path};

#[test]
fn server_normalize_strips_leading_slashes() {
    assert_eq!(normalize_path(b"/blah").unwrap(), b"blah");
    assert_eq!(normalize_path(b"//bleh").unwrap(), b"bleh");
}

#[test]
fn server_normalize_collapses_embedded_slash_sequences() {
    assert_eq!(normalize_path(b"/foo//bar").unwrap(), b"foo/bar");
}

#[test]
fn server_normalize_decodes_percents() {
    assert_eq!(normalize_path(b"/foo%20bar").unwrap(), b"foo bar");
}

#[test]
fn server_normalize_handles_trailing_percents_correctly() {
    assert_eq!(normalize_path(b"/trail%20").unwrap(), b"trail ");
}

#[test]
fn server_normalize_errors_on_bogus_percent() {
    assert!(normalize_path(b"/bog%us").is_err());
}

#[test]
fn server_normalize_errors_without_leading_slash() {
    assert!(normalize_path(b"bogus").is_err());
}

#[test]
fn server_from_hexit_works() {
    for x in 0x0..0x10 {
        assert_eq!(from_hexit(std::char::from_digit(x, 16).unwrap() as u8), x as u8);
    }
}
