use http_server::errors::Error;
use http_server::request::{examine_buffer, ParseStep};

#[test]
fn parse_request_basic() {
    let request: &[u8] = b"GET / HTTP/1.1\r\nHost: google.com\r\nUser-Agent: curl/7.47.1\r\nAccept: */*\r\n\r\n";

    match examine_buffer(request, 0) {
        ParseStep::Done { method, path, .. } => {
            assert_eq!(method, "GET");
            assert_eq!(path, "/");
        },
        _ => panic!(),
    }
}

#[test]
fn parse_request_does_not_percent_decode() {
    let request: &[u8] = b"GET /%20 HTTP/1.1\r\n\r\n";

    match examine_buffer(request, 0) {
        ParseStep::Done { path, .. } => assert_eq!(path, "/%20"),
        _ => panic!(),
    }
}

#[test]
fn parse_request_does_not_fail_on_illegal_percent_decoding() {
    let request: &[u8] = b"GET /bogus%zz HTTP/1.1\r\n\r\n";

    match examine_buffer(request, 0) {
        ParseStep::Done { path, .. } => assert_eq!(path, "/bogus%zz"),
        _ => panic!(),
    }
}

#[test]
fn parse_request_fails_on_bad_bytes() {
    let request: &[u8] = b"GET /bogon\xff HTTP/1.1\r\n";

    assert!(matches!(examine_buffer(request, 0), ParseStep::Reject(Error::Parse)));
}

#[test]
fn parse_request_keeps_header_values() {
    let request: &[u8] = b"GET / HTTP/1.1\r\nhost: example.net\r\n\r\n";

    match examine_buffer(request, 0) {
        ParseStep::Done { headers, consumed, .. } => {
            assert_eq!(consumed, request.len());
            assert_eq!(headers.get("Host"), Some(&b"example.net".to_vec()));
        },
        _ => panic!(),
    }
}

#[test]
fn parse_request_folds_repeated_headers() {
    let request: &[u8] = b"GET / HTTP/1.1\r\nAccept: a\r\naccept: b\r\n\r\n";

    match examine_buffer(request, 0) {
        ParseStep::Done { headers, .. } => {
            assert_eq!(headers.get("Accept"), Some(&b"a,b".to_vec()));
        },
        _ => panic!(),
    }
}

#[test]
fn stalled_refill_is_request_incomplete() {
    let partial: &[u8] = b"GET / HT";
    assert!(matches!(
        examine_buffer(partial, partial.len()),
        ParseStep::Reject(Error::RequestIncomplete)
    ));
}

#[test]
fn partial_head_asks_for_more() {
    let partial: &[u8] = b"GET / HT";
    match examine_buffer(partial, 0) {
        ParseStep::NeedMore { seen } => assert_eq!(seen, partial.len()),
        _ => panic!(),
    }
}

#[test]
fn overlong_head_is_refused() {
    let mut request = b"GET /".to_vec();
    request.extend_from_slice(&vec![b'a'; 8200]);
    assert!(matches!(
        examine_buffer(request.as_slice(), 0),
        ParseStep::Reject(Error::RequestLineTooLong)
    ));
}
