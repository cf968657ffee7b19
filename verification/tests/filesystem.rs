use http_server::errors::Error;
use http_server::filesystem::{from_hexit, normalize_path};

#[test]
fn normalize_strips_leading_slashes() {
    assert_eq!(normalize_path(b"/blah").unwrap(), b"blah");
    assert_eq!(normalize_path(b"//bleh").unwrap(), b"bleh");
}

#[test]
fn normalize_collapses_embedded_slash_sequences() {
    assert_eq!(normalize_path(b"/foo//bar").unwrap(), b"foo/bar");
}

#[test]
fn normalize_decodes_percents() {
    assert_eq!(normalize_path(b"/foo%20bar").unwrap(), b"foo bar");
}

#[test]
fn normalize_handles_trailing_percents_correctly() {
    assert_eq!(normalize_path(b"/trail%20").unwrap(), b"trail ");
}

#[test]
fn normalize_errors_on_bogus_percent() {
    assert!(normalize_path(b"/bog%us").is_err());
}

#[test]
fn normalize_errors_without_leading_slash() {
    assert!(normalize_path(b"bogus").is_err());
}

#[test]
fn from_hexit_works() {
    for x in 0x0..0x10 {
        assert_eq!(from_hexit(std::char::from_digit(x, 16).unwrap() as u8), x as u8);
    }
}

#[test]
fn normalize_collapses_and_decodes_together() {
    // input "/foo//bar%20baz" comes out as "foo/bar baz"
    assert_eq!(normalize_path(b"/foo//bar%20baz").unwrap(), b"foo/bar baz");
}

#[test]
fn normalize_error_variants_are_precise() {
    assert!(matches!(normalize_path(b"bogus"), Err(Error::PathNotInOriginForm)));
    assert!(matches!(normalize_path(b""), Err(Error::PathNotInOriginForm)));
    assert!(matches!(normalize_path(b"/bog%us"), Err(Error::IllegalPercentEncoding)));
    assert!(matches!(normalize_path(b"/bog%2"), Err(Error::IllegalPercentEncoding)));
}

#[test]
fn normalize_decodes_uppercase_and_lowercase_hex() {
    assert_eq!(normalize_path(b"/a%2Fb").unwrap(), b"a/b");
    assert_eq!(normalize_path(b"/a%2fb").unwrap(), b"a/b");
    assert_eq!(normalize_path(b"/%41%61").unwrap(), b"Aa");
}
