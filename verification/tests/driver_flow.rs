use http_server::driver::{
    apply_document_headers, body_step, build_metavars, initialize_request, next_request_id,
    BodyStep, HeaderPhase, HeaderStep,
};
use http_server::errors::Error;
use http_server::fastcgi::{Content, Record};
use http_server::filesystem::normalize_path;
use http_server::headers::Headers;
use http_server::parser::{record, RecordParse};
use http_server::request::{examine_buffer, ParseStep, Request};
use http_server::response::Response;

/// Builds one upstream record's wire bytes by hand: header, content,
/// zero padding.
fn frame(kind: u8, id: u16, content: &[u8]) -> Vec<u8> {
    let len = content.len();
    assert!(len <= 0xffff);
    let pad = (8 - len % 8) % 8;
    let mut out = vec![
        1,
        kind,
        (id / 256) as u8,
        (id % 256) as u8,
        (len / 256) as u8,
        (len % 256) as u8,
        pad as u8,
        0,
    ];
    out.extend_from_slice(content);
    out.extend_from_slice(&vec![0u8; pad]);
    out
}

fn request_from(head: &[u8], remote: &str, port: u16) -> Request {
    match examine_buffer(head, 0) {
        ParseStep::Done { method, path, headers, .. } => {
            let normalized = normalize_path(path.as_bytes()).unwrap();
            Request::new(method, normalized, headers, String::from(remote), port)
        },
        _ => panic!(),
    }
}

#[test]
fn request_id_counter_wraps_within_a_byte() {
    assert_eq!(next_request_id(0), (1, 1));
    assert_eq!(next_request_id(41), (42, 42));
    assert_eq!(next_request_id(0xff), (256, 0));
}

#[test]
fn metavars_carry_the_request() {
    let req = request_from(
        b"GET /page?x=1 HTTP/1.1\r\nHost: localhost:8000\r\nX-Custom: v\r\n\r\n",
        "127.0.0.1",
        8000,
    );
    let webroot = b"/srv/site".to_vec();
    let vars = build_metavars(&req, &webroot);
    let lookup = |name: &[u8]| -> Vec<u8> {
        vars.iter().find(|(n, _)| n == name).map(|(_, v)| v.clone()).unwrap()
    };
    assert_eq!(lookup(b"GATEWAY_INTERFACE"), b"CGI/1.1".to_vec());
    assert_eq!(lookup(b"PATH_INFO"), b"page?x=1".to_vec());
    assert_eq!(lookup(b"PATH_TRANSLATED"), b"/srv/site/page?x=1".to_vec());
    assert_eq!(lookup(b"QUERY_STRING"), b"?x=1".to_vec());
    assert_eq!(lookup(b"REMOTE_ADDR"), b"127.0.0.1".to_vec());
    assert_eq!(lookup(b"REMOTE_HOST"), b"127.0.0.1".to_vec());
    assert_eq!(lookup(b"REQUEST_METHOD"), b"GET".to_vec());
    assert_eq!(lookup(b"SCRIPT_NAME"), b"".to_vec());
    assert_eq!(lookup(b"SERVER_NAME"), b"localhost:8000".to_vec());
    assert_eq!(lookup(b"SERVER_PORT"), b"8000".to_vec());
    assert_eq!(lookup(b"SERVER_PROTOCOL"), b"HTTP/1.1".to_vec());
    assert_eq!(lookup(b"HTTP_HOST"), b"localhost:8000".to_vec());
    assert_eq!(lookup(b"HTTP_X_CUSTOM"), b"v".to_vec());
}

#[test]
fn initialize_request_opens_with_begin_request() {
    let req = request_from(b"GET / HTTP/1.1\r\n\r\n", "127.0.0.1", 8000);
    let webroot = b"/srv/site".to_vec();
    let mut out: Vec<u8> = Vec::new();
    initialize_request(&mut out, 1, &req, &webroot).unwrap();
    // first record on the wire: BeginRequest, role Responder, KEEP_CONN
    assert_eq!(&out[..16], &[1, 1, 0, 1, 0, 8, 0, 0, 0, 1, 1, 0, 0, 0, 0, 0]);
    // the rest parses as Params records ending with the empty terminator
    let mut off = 16;
    let mut saw_terminator = false;
    while off < out.len() {
        match record(&out[off..]) {
            RecordParse::Done { consumed, record: r } => {
                match r.content {
                    Content::Params(ps) => saw_terminator = ps.is_empty(),
                    _ => panic!(),
                }
                off += consumed;
            },
            other => panic!("{:?}", other),
        }
    }
    assert!(saw_terminator);
}

#[test]
fn header_phase_reassembles_split_stdout() {
    let mut phase = HeaderPhase::new();
    let first = frame(6, 1, b"Content-Type: text");
    let rec1 = match record(first.as_slice()) {
        RecordParse::Done { record: r, .. } => r,
        _ => panic!(),
    };
    assert!(matches!(phase.on_record(rec1, 1), HeaderStep::NeedMore));

    let second = frame(6, 1, b"/plain\r\n\r\nHello");
    let rec2 = match record(second.as_slice()) {
        RecordParse::Done { record: r, .. } => r,
        _ => panic!(),
    };
    match phase.on_record(rec2, 1) {
        HeaderStep::HeadersDone { doc, residue } => {
            assert_eq!(doc.content_type.content, b"text/plain".to_vec());
            assert_eq!(residue, b"Hello".to_vec());
        },
        _ => panic!(),
    }
}

#[test]
fn header_phase_rejects_foreign_request_ids() {
    let mut phase = HeaderPhase::new();
    let rec = Record { id: 9, content: Content::Stdout(b"x".to_vec()) };
    assert!(matches!(phase.on_record(rec, 1), HeaderStep::Violation));
}

#[test]
fn header_phase_hands_stderr_to_the_log() {
    let mut phase = HeaderPhase::new();
    let rec = Record { id: 1, content: Content::Stderr(b"oops".to_vec()) };
    match phase.on_record(rec, 1) {
        HeaderStep::Stderr(msg) => assert_eq!(msg, b"oops".to_vec()),
        _ => panic!(),
    }
}

#[test]
fn body_step_classifies_records() {
    let fwd = body_step(Record { id: 1, content: Content::Stdout(b"data".to_vec()) }, 1);
    assert!(matches!(fwd, BodyStep::Forward(v) if v == b"data".to_vec()));

    let log = body_step(Record { id: 1, content: Content::Stderr(b"warn".to_vec()) }, 1);
    assert!(matches!(log, BodyStep::Log(v) if v == b"warn".to_vec()));

    let fin = body_step(
        Record {
            id: 1,
            content: Content::EndRequest(http_server::fastcgi::EndRequest {
                app_status: 0,
                protocol_status: 0,
            }),
        },
        1,
    );
    assert!(matches!(fin, BodyStep::Finish { app_status: 0, protocol_status: 0 }));

    let foreign = body_step(Record { id: 2, content: Content::Stdout(vec![]) }, 1);
    assert!(matches!(foreign, BodyStep::Violation));

    let stray = body_step(Record { id: 1, content: Content::Params(vec![]) }, 1);
    assert!(matches!(stray, BodyStep::Violation));
}

#[test]
fn cgi_status_line_lands_on_the_response() {
    let input: &[u8] = b"Status: 404 Gone Fishing\r\nContent-Type: text/html\r\nX-Extra: 1\r\n\r\n";
    let doc = match http_server::cgi::doc_headers(input) {
        http_server::cgi::Parsed::Done { value, .. } => value,
        _ => panic!(),
    };
    let mut res = Response::new();
    apply_document_headers(&mut res, doc).unwrap();
    let head = res.into_head();
    let text = String::from_utf8(head).unwrap();
    assert!(text.starts_with("HTTP/1.1 404 Gone Fishing\r\n"));
    assert!(text.contains("Content-Type: text/html\r\n"));
    assert!(text.contains("X-Extra: 1\r\n"));
}

#[test]
fn invalid_utf8_header_name_is_refused() {
    let doc = http_server::cgi::DocumentHeaders {
        content_type: http_server::cgi::Header {
            name: b"Content-Type".to_vec(),
            content: b"text/plain".to_vec(),
        },
        status: None,
        headers: vec![
            http_server::cgi::Header { name: vec![0xff, 0xfe], content: b"x".to_vec() },
        ],
    };
    let mut res = Response::new();
    assert!(matches!(apply_document_headers(&mut res, doc), Err(Error::FromUtf8)));
}

#[test]
fn chunked_proxy_end_to_end() {
    // the client asks for a page
    let req = request_from(b"GET /page HTTP/1.1\r\n\r\n", "127.0.0.1", 8000);
    let (request_id, _) = next_request_id(0);

    // the driver opens the logical request upstream
    let mut upstream_out: Vec<u8> = Vec::new();
    initialize_request(&mut upstream_out, request_id, &req, &b"/srv/site".to_vec()).unwrap();
    assert_eq!(upstream_out.len() % 8, 0);

    // the responder answers with one Stdout record and an EndRequest
    let mut upstream_in = frame(6, request_id, b"Content-Type: text/plain\r\n\r\nHello");
    upstream_in.extend_from_slice(&frame(3, request_id, &[0, 0, 0, 0, 0, 0, 0, 0]));

    let mut off = 0;
    let mut phase = HeaderPhase::new();
    let mut res = Response::new();
    let mut client: Vec<u8> = Vec::new();

    // header phase
    let (doc, residue) = loop {
        let rec = match record(&upstream_in[off..]) {
            RecordParse::Done { consumed, record: r } => {
                off += consumed;
                r
            },
            other => panic!("{:?}", other),
        };
        match phase.on_record(rec, request_id) {
            HeaderStep::NeedMore => continue,
            HeaderStep::HeadersDone { doc, residue } => break (doc, residue),
            other => panic!("{:?}", other),
        }
    };
    apply_document_headers(&mut res, doc).unwrap();

    // body phase
    let mut streaming = res.start();
    streaming.write(residue.as_slice());
    loop {
        let rec = match record(&upstream_in[off..]) {
            RecordParse::Done { consumed, record: r } => {
                off += consumed;
                r
            },
            other => panic!("{:?}", other),
        };
        match body_step(rec, request_id) {
            BodyStep::Forward(data) => {
                streaming.write(data.as_slice());
            },
            BodyStep::Log(_) => continue,
            BodyStep::Finish { app_status, protocol_status } => {
                assert_eq!(app_status, 0);
                assert_eq!(protocol_status, 0);
                break;
            },
            BodyStep::Violation => panic!(),
        }
    }
    client.extend_from_slice(streaming.finish().as_slice());

    assert_eq!(
        String::from_utf8(client).unwrap(),
        "HTTP/1.1 200 Ok\r\nContent-Type: text/plain\r\nTransfer-Encoding: Chunked\r\n\r\n5\r\nHello\r\n0\r\n\r\n"
    );
}
