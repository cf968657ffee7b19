use http_server::cgi::{doc_headers, header, headers, DocumentHeaders, Header, Parsed, Status};

#[test]
fn header_works() {
    let input: &[u8] = b"Foo: bar\r\n\r\n";
    let expected = Header { name: Vec::from(&b"Foo"[..]), content: Vec::from(&b"bar"[..]) };

    match header(input) {
        Parsed::Done { rest, value } => {
            assert_eq!(expected, value);
            assert_eq!(&input[rest..], &b"\r\n\r\n"[..]);
        },
        other => panic!("{:?}", other),
    }
}

#[test]
fn header_empty() {
}

#[test]
fn test_headers() {
    let input: &[u8] = b"Foo: bar\r\nBaz: buz\r\n\r\n";

    let expected = vec![
        Header { name: Vec::from(&b"Foo"[..]), content: Vec::from(&b"bar"[..]) },
        Header { name: Vec::from(&b"Baz"[..]), content: Vec::from(&b"buz"[..]) },
    ];
    match headers(input) {
        Parsed::Done { rest, value } => {
            assert_eq!(expected, value);
            assert_eq!(&input[rest..], &b""[..]);
        },
        other => panic!("{:?}", other),
    }
}

#[test]
fn doc_headers_on_captured_traffic() {
    let input: &[u8] = b"Status: 200 OK\r\nContent-Type: text/html; charset=utf-8\r\nDate: Thu, 07 Apr 2016 20:42:43 GMT\r\n\r\n<!DOCTYPE html>\n<html>\n  <head>\n    <title>Guestbook</title>\n    <link rel=\"stylesheet\" type=\"text/css\" href=\"/static/css/base.css\" />\n  </head>\n  <body>\n    <section id=\"content\"><h1>Guestbook</h1>\n<p>Hello, and welcome to my guestbook, because I needed a Web project and immediately <a href=\"https://eev.ee/blog/2012/07/28/quick-doesnt-mean-dirty/\">cribbed from Eevee.</a></p>\n<ul class=\"guests\">\n  <li>\n    <blockquote>New\r\nLines\r\nAre\r\nGreat!</blockquote>\n    <p>\xe2\x80\x94 <cite>newliner</cite>, <time datetime=\"2016-03-20T15:05&#43;0000\">Sat Mar 20 3:05 PM 2016</time></p>\n  </li><li>\n    <blockquote>&lt;script&gt;alert(&#39;pwned from message&#39;)&lt;/script&gt;</blockquote>\n    <p>\xe2\x80\x94 <cite>&lt;script&gt;alert(&#39;pwned from name&#39;)&lt;/script&gt;</cite>, <time datetime=\"2016-03-20T14:33&#43;0000\">Sat Mar 20 2:33 PM 2016</time></p>\n  </li><li>\n    <blockquote>\xf0\x9f\x94\xa5 This is a test \xf0\x9f\x94\xa5</blockquote>\n    <p>\xe2\x80\x94 <cite>Tester MacTesterson</cite>, <time datetime=\"2016-03-20T14:31&#43;0000\">Sat Mar 20 2:31 PM 2016</time></p>\n  </li><li>\n    <blockquote>Hooray I can display a thing</blockquote>\n    <p>\xe2\x80\x94 <cite>An Wobsite Developer</cite>, <time datetime=\"2016-03-19T22:22&#43;0000\">Sat Mar 19 10:22 PM 2016</time></p>\n  </li>\n</ul>\n<hr />\n<form action=\"\" method=\"POST\">\n  <p><label>Name: <input type=\"text\" name=\"name\" /></label></p>\n  <p><label>Message: <textarea name=\"message\" rows=\"10\" cols=\"40\"></textarea></label></p>\n  <p><button>Sign</button></p>\n</form></section>\n    <footer>An Guestbook \xc2\xa9 2016 Alex</footer>\n  </body>\n</html>\n";

    let expected = DocumentHeaders {
        content_type: Header {
            name: Vec::from(&b"Content-Type"[..]),
            content: Vec::from(&b"text/html; charset=utf-8"[..]),
        },
        status: Some(Status { code: 200, reason_phrase: Vec::from(&b"OK"[..]) }),
        headers: vec![
            Header {
                name: Vec::from(&b"Date"[..]),
                content: Vec::from(&b"Thu, 07 Apr 2016 20:42:43 GMT"[..]),
            },
        ],
    };

    match doc_headers(input) {
        Parsed::Done { value, .. } => assert_eq!(expected, value),
        other => panic!("{:?}", other),
    }
}

#[test]
fn doc_headers_leaves_body_residue() {
    // the block ends at the blank line; what follows is body
    let input: &[u8] = b"Status: 200 OK\r\nContent-Type: text/html\r\nDate: X\r\n\r\n<body>";
    match doc_headers(input) {
        Parsed::Done { rest, value } => {
            assert_eq!(&input[rest..], &b"<body>"[..]);
            assert_eq!(value.status, Some(Status { code: 200, reason_phrase: b"OK".to_vec() }));
            assert_eq!(value.content_type.content, b"text/html".to_vec());
            assert_eq!(value.headers.len(), 1);
            assert_eq!(value.headers[0].name, b"Date".to_vec());
            assert_eq!(value.headers[0].content, b"X".to_vec());
        },
        other => panic!("{:?}", other),
    }
}

#[test]
fn doc_headers_without_status_line() {
    let input: &[u8] = b"Content-Type: text/plain\r\n\r\nHello";
    match doc_headers(input) {
        Parsed::Done { rest, value } => {
            assert_eq!(value.status, None);
            assert_eq!(value.content_type.content, b"text/plain".to_vec());
            assert!(value.headers.is_empty());
            assert_eq!(&input[rest..], &b"Hello"[..]);
        },
        other => panic!("{:?}", other),
    }
}

#[test]
fn doc_headers_incomplete_until_blank_line() {
    let input: &[u8] = b"Status: 200 OK\r\nContent-Type: text/plain\r\n";
    assert!(matches!(doc_headers(input), Parsed::Incomplete { .. }));
}

#[test]
fn doc_headers_rejects_bad_status_code() {
    let input: &[u8] = b"Status: 2x0 OK\r\nContent-Type: text/plain\r\n\r\n";
    assert!(matches!(doc_headers(input), Parsed::Failed));
}

#[test]
fn doc_headers_accepts_bare_newlines() {
    let input: &[u8] = b"Content-Type: text/plain\nX: y\n\nbody";
    match doc_headers(input) {
        Parsed::Done { rest, value } => {
            assert_eq!(value.headers.len(), 1);
            assert_eq!(&input[rest..], &b"body"[..]);
        },
        other => panic!("{:?}", other),
    }
}
