use http_server::errors::{Error, SerializationError};
use http_server::fastcgi::{
    AbortRequest, BeginRequest, Content, EndRequest, NameValuePair, Record, Role, KEEP_CONN,
    REQUEST_COMPLETE,
};
use http_server::parser::{record, RecordParse};
use http_server::serializer;

#[test]
fn begin_request() {
    let input = [
        01, 01, 00, 01, 00, 08, 00, 00, 00, 01, 00, 00, 00, 00, 00, 00,
    ];

    match record(&input[..]) {
        RecordParse::Done { record: result, .. } => assert_eq!(
            result,
            Record {
                id: 1,
                content: Content::BeginRequest(BeginRequest { role: Role::Responder, flags: 0 })
            }
        ),
        _ => panic!(),
    }
}

#[test]
fn params() {
    let input = [1, 4, 0, 1, 2, 152, 0, 0, 15, 16, 83, 67, 82, 73, 80, 84, 95, 70, 73, 76, 69, 78, 65, 77, 69, 47, 101, 116, 99, 47, 110, 103, 105, 110, 120, 47, 104, 116, 109, 108, 47, 12, 0, 81, 85, 69, 82, 89, 95, 83, 84, 82, 73, 78, 71, 14, 3, 82, 69, 81, 85, 69, 83, 84, 95, 77, 69, 84, 72, 79, 68, 71, 69, 84, 12, 0, 67, 79, 78, 84, 69, 78, 84, 95, 84, 89, 80, 69, 14, 0, 67, 79, 78, 84, 69, 78, 84, 95, 76, 69, 78, 71, 84, 72, 11, 1, 83, 67, 82, 73, 80, 84, 95, 78, 65, 77, 69, 47, 11, 1, 82, 69, 81, 85, 69, 83, 84, 95, 85, 82, 73, 47, 12, 1, 68, 79, 67, 85, 77, 69, 78, 84, 95, 85, 82, 73, 47, 13, 15, 68, 79, 67, 85, 77, 69, 78, 84, 95, 82, 79, 79, 84, 47, 101, 116, 99, 47, 110, 103, 105, 110, 120, 47, 104, 116, 109, 108, 15, 8, 83, 69, 82, 86, 69, 82, 95, 80, 82, 79, 84, 79, 67, 79, 76, 72, 84, 84, 80, 47, 49, 46, 49, 17, 7, 71, 65, 84, 69, 87, 65, 89, 95, 73, 78, 84, 69, 82, 70, 65, 67, 69, 67, 71, 73, 47, 49, 46, 49, 15, 11, 83, 69, 82, 86, 69, 82, 95, 83, 79, 70, 84, 87, 65, 82, 69, 110, 103, 105, 110, 120, 47, 49, 46, 56, 46, 49, 11, 9, 82, 69, 77, 79, 84, 69, 95, 65, 68, 68, 82, 49, 50, 55, 46, 48, 46, 48, 46, 49, 11, 5, 82, 69, 77, 79, 84, 69, 95, 80, 79, 82, 84, 52, 55, 57, 48, 52, 11, 9, 83, 69, 82, 86, 69, 82, 95, 65, 68, 68, 82, 49, 50, 55, 46, 48, 46, 48, 46, 49, 11, 4, 83, 69, 82, 86, 69, 82, 95, 80, 79, 82, 84, 56, 48, 48, 48, 11, 9, 83, 69, 82, 86, 69, 82, 95, 78, 65, 77, 69, 108, 111, 99, 97, 108, 104, 111, 115, 116, 15, 3, 82, 69, 68, 73, 82, 69, 67, 84, 95, 83, 84, 65, 84, 85, 83, 50, 48, 48, 9, 14, 72, 84, 84, 80, 95, 72, 79, 83, 84, 108, 111, 99, 97, 108, 104, 111, 115, 116, 58, 56, 48, 48, 48, 15, 68, 72, 84, 84, 80, 95, 85, 83, 69, 82, 95, 65, 71, 69, 78, 84, 77, 111, 122, 105, 108, 108, 97, 47, 53, 46, 48, 32, 40, 88, 49, 49, 59, 32, 76, 105, 110, 117, 120, 32, 120, 56, 54, 95, 54, 52, 59, 32, 114, 118, 58, 52, 53, 46, 48, 41, 32, 71, 101, 99, 107, 111, 47, 50, 48, 49, 48, 48, 49, 48, 49, 32, 70, 105, 114, 101, 102, 111, 120, 47, 52, 53, 46, 48, 11, 63, 72, 84, 84, 80, 95, 65, 67, 67, 69, 80, 84, 116, 101, 120, 116, 47, 104, 116, 109, 108, 44, 97, 112, 112, 108, 105, 99, 97, 116, 105, 111, 110, 47, 120, 104, 116, 109, 108, 43, 120, 109, 108, 44, 97, 112, 112, 108, 105, 99, 97, 116, 105, 111, 110, 47, 120, 109, 108, 59, 113, 61, 48, 46, 57, 44, 42, 47, 42, 59, 113, 61, 48, 46, 56, 20, 14, 72, 84, 84, 80, 95, 65, 67, 67, 69, 80, 84, 95, 76, 65, 78, 71, 85, 65, 71, 69, 101, 110, 45, 85, 83, 44, 101, 110, 59, 113, 61, 48, 46, 53, 20, 13, 72, 84, 84, 80, 95, 65, 67, 67, 69, 80, 84, 95, 69, 78, 67, 79, 68, 73, 78, 71, 103, 122, 105, 112, 44, 32, 100, 101, 102, 108, 97, 116, 101, 8, 1, 72, 84, 84, 80, 95, 68, 78, 84, 49, 15, 10, 72, 84, 84, 80, 95, 67, 79, 78, 78, 69, 67, 84, 73, 79, 78, 107, 101, 101, 112, 45, 97, 108, 105, 118, 101];

    let expected_params = vec![
        NameValuePair {
            name: Vec::from(&b"SCRIPT_FILENAME"[..]),
            value: Vec::from(&b"/etc/nginx/html/"[..]),
        },
        NameValuePair { name: Vec::from(&b"QUERY_STRING"[..]), value: vec![] },
        NameValuePair { name: Vec::from(&b"REQUEST_METHOD"[..]), value: Vec::from(&b"GET"[..]) },
        NameValuePair { name: Vec::from(&b"CONTENT_TYPE"[..]), value: vec![] },
        NameValuePair { name: Vec::from(&b"CONTENT_LENGTH"[..]), value: vec![] },
        NameValuePair { name: Vec::from(&b"SCRIPT_NAME"[..]), value: Vec::from(&b"/"[..]) },
        NameValuePair { name: Vec::from(&b"REQUEST_URI"[..]), value: Vec::from(&b"/"[..]) },
        NameValuePair { name: Vec::from(&b"DOCUMENT_URI"[..]), value: Vec::from(&b"/"[..]) },
        NameValuePair {
            name: Vec::from(&b"DOCUMENT_ROOT"[..]),
            value: Vec::from(&b"/etc/nginx/html"[..]),
        },
        NameValuePair {
            name: Vec::from(&b"SERVER_PROTOCOL"[..]),
            value: Vec::from(&b"HTTP/1.1"[..]),
        },
        NameValuePair {
            name: Vec::from(&b"GATEWAY_INTERFACE"[..]),
            value: Vec::from(&b"CGI/1.1"[..]),
        },
        NameValuePair {
            name: Vec::from(&b"SERVER_SOFTWARE"[..]),
            value: Vec::from(&b"nginx/1.8.1"[..]),
        },
        NameValuePair { name: Vec::from(&b"REMOTE_ADDR"[..]), value: Vec::from(&b"127.0.0.1"[..]) },
        NameValuePair { name: Vec::from(&b"REMOTE_PORT"[..]), value: Vec::from(&b"47904"[..]) },
        NameValuePair { name: Vec::from(&b"SERVER_ADDR"[..]), value: Vec::from(&b"127.0.0.1"[..]) },
        NameValuePair { name: Vec::from(&b"SERVER_PORT"[..]), value: Vec::from(&b"8000"[..]) },
        NameValuePair { name: Vec::from(&b"SERVER_NAME"[..]), value: Vec::from(&b"localhost"[..]) },
        NameValuePair { name: Vec::from(&b"REDIRECT_STATUS"[..]), value: Vec::from(&b"200"[..]) },
        NameValuePair {
            name: Vec::from(&b"HTTP_HOST"[..]),
            value: Vec::from(&b"localhost:8000"[..]),
        },
        NameValuePair {
            name: Vec::from(&b"HTTP_USER_AGENT"[..]),
            value: Vec::from(
                &b"Mozilla/5.0 (X11; Linux x86_64; rv:45.0) Gecko/20100101 Firefox/45.0"[..],
            ),
        },
        NameValuePair {
            name: Vec::from(&b"HTTP_ACCEPT"[..]),
            value: Vec::from(
                &b"text/html,application/xhtml+xml,application/xml;q=0.9,*/*;q=0.8"[..],
            ),
        },
        NameValuePair {
            name: Vec::from(&b"HTTP_ACCEPT_LANGUAGE"[..]),
            value: Vec::from(&b"en-US,en;q=0.5"[..]),
        },
        NameValuePair {
            name: Vec::from(&b"HTTP_ACCEPT_ENCODING"[..]),
            value: Vec::from(&b"gzip, deflate"[..]),
        },
        NameValuePair { name: Vec::from(&b"HTTP_DNT"[..]), value: Vec::from(&b"1"[..]) },
        NameValuePair {
            name: Vec::from(&b"HTTP_CONNECTION"[..]),
            value: Vec::from(&b"keep-alive"[..]),
        },
    ];
    let expected = Record { id: 1, content: Content::Params(expected_params.clone()) };

    match record(&input[..]) {
        RecordParse::Done { record: result, .. } => {
            assert_eq!(result.id, expected.id);
            match result.content {
                Content::Params(result_params) => {
                    assert_eq!(result_params.len(), expected_params.len());
                    for (r, e) in result_params.into_iter().zip(expected_params.into_iter()) {
                        assert_eq!(r, e);
                    }
                },
                _ => panic!(),
            }
        },
        _ => panic!(),
    }
}

#[test]
fn params_empty() {
    let input = [1, 4, 0, 1, 0, 0, 0, 0];

    match record(&input[..]) {
        RecordParse::Done { record: result, .. } => assert_eq!(
            result,
            Record { id: 1, content: Content::Params(vec![]) }
        ),
        _ => panic!(),
    }
}

#[test]
fn stdin() {
    let input = [1, 5, 0, 1, 0, 0, 0, 0];

    match record(&input[..]) {
        RecordParse::Done { record: result, .. } => assert_eq!(
            result,
            Record { id: 1, content: Content::Stdin(vec![]) }
        ),
        _ => panic!(),
    }
}

#[test]
fn end_request() {
    let input = [1, 3, 0, 1, 0, 8, 0, 0, 0, 0, 0, 0, 0, 0, 0, 0];

    match record(&input[..]) {
        RecordParse::Done { record: result, .. } => assert_eq!(
            result,
            Record {
                id: 1,
                content: Content::EndRequest(EndRequest {
                    app_status: 0,
                    protocol_status: REQUEST_COMPLETE
                })
            }
        ),
        _ => panic!(),
    }
}

#[test]
fn record_incomplete_without_padding() {
    // header announces 8 content bytes; only 4 are present
    let input = [1, 3, 0, 1, 0, 8, 0, 0, 0, 0, 0, 0];
    assert!(matches!(record(&input[..]), RecordParse::Incomplete));
}

#[test]
fn record_rejects_unknown_type_byte() {
    let input = [1, 99, 0, 1, 0, 0, 0, 0];
    match record(&input[..]) {
        RecordParse::Failed(e) => assert_eq!(e.to_u32(), 99),
        other => panic!("{:?}", other),
    }
}

#[test]
fn record_rejects_unknown_role() {
    let input = [1, 1, 0, 1, 0, 8, 0, 0, 0, 9, 0, 0, 0, 0, 0, 0];
    match record(&input[..]) {
        RecordParse::Failed(e) => assert_eq!(e.to_u32(), 9 | 1 << 17),
        other => panic!("{:?}", other),
    }
}

#[test]
fn start_request_round_trips() {
    let mut out: Vec<u8> = Vec::new();
    serializer::start_request(&mut out, 1);
    assert_eq!(out.len() % 8, 0);
    match record(out.as_slice()) {
        RecordParse::Done { consumed, record: result } => {
            assert_eq!(consumed, out.len());
            assert_eq!(
                result,
                Record {
                    id: 1,
                    content: Content::BeginRequest(BeginRequest {
                        role: Role::Responder,
                        flags: KEEP_CONN
                    })
                }
            );
        },
        other => panic!("{:?}", other),
    }
}

#[test]
fn stdin_round_trips_and_pads() {
    let mut out: Vec<u8> = Vec::new();
    serializer::stdin(&mut out, 7, b"abc").unwrap();
    // 8-byte header + 3 content + 5 padding
    assert_eq!(out.len(), 16);
    assert_eq!(out.len() % 8, 0);
    match record(out.as_slice()) {
        RecordParse::Done { consumed, record: result } => {
            assert_eq!(consumed, 16);
            assert_eq!(result, Record { id: 7, content: Content::Stdin(b"abc".to_vec()) });
        },
        other => panic!("{:?}", other),
    }
}

#[test]
fn stdin_rejects_oversized_content() {
    let mut out: Vec<u8> = Vec::new();
    let big = vec![0u8; 0x10000];
    assert!(matches!(
        serializer::stdin(&mut out, 1, big.as_slice()),
        Err(Error::Serialization(SerializationError::TooLong))
    ));
    assert!(out.is_empty());
}

#[test]
fn params_encodes_mixed_length_prefixes() {
    // a name of length 15 and a value of length 16 take single-byte
    // prefixes; a value of length 200 takes four bytes with the high bit
    let name: Vec<u8> = vec![b'n'; 15];
    let value: Vec<u8> = vec![b'v'; 16];
    let mut out: Vec<u8> = Vec::new();
    serializer::params(&mut out, 1, &vec![(name.clone(), value.clone())]).unwrap();
    assert_eq!(out[8], 0x0f);
    assert_eq!(out[9], 0x10);
    assert_eq!(&out[10..25], name.as_slice());
    assert_eq!(&out[25..41], value.as_slice());

    let long_value: Vec<u8> = vec![b'w'; 200];
    let mut out2: Vec<u8> = Vec::new();
    serializer::params(&mut out2, 1, &vec![(vec![b'a'], long_value.clone())]).unwrap();
    assert_eq!(out2[8], 1);
    assert_eq!(&out2[9..13], &[0x80, 0x00, 0x00, 0xc8]);
    assert_eq!(out2[13], b'a');
    assert_eq!(&out2[14..214], long_value.as_slice());

    // near the record-content cap the prefix is still four bytes with
    // the high bit set: 60000 = 0x0000ea60
    let near_cap: Vec<u8> = vec![b'q'; 60000];
    let mut out3: Vec<u8> = Vec::new();
    serializer::params(&mut out3, 1, &vec![(vec![b'a'], near_cap.clone())]).unwrap();
    assert_eq!(out3[8], 1);
    assert_eq!(&out3[9..13], &[0x80, 0x00, 0xea, 0x60]);
    match record(out3.as_slice()) {
        RecordParse::Done { record: r, .. } => match r.content {
            Content::Params(ps) => assert_eq!(ps[0].value, near_cap),
            _ => panic!(),
        },
        other => panic!("{:?}", other),
    }
}

#[test]
fn params_record_round_trips() {
    // serialize a small parameter list, then parse it back: the first
    // record carries exactly the pairs and spans 8+L+P bytes, and the
    // remaining 8 bytes are the empty terminator record
    let prs = vec![
        (b"alpha".to_vec(), b"one".to_vec()),
        (b"beta".to_vec(), vec![]),
        (b"gamma-key".to_vec(), b"a longer value, still short".to_vec()),
    ];
    let mut out: Vec<u8> = Vec::new();
    serializer::params(&mut out, 9, &prs).unwrap();

    let first = match record(out.as_slice()) {
        RecordParse::Done { consumed, record: r } => {
            assert_eq!(consumed % 8, 0);
            let content_len = (out[4] as usize) * 256 + out[5] as usize;
            let padding = out[6] as usize;
            assert_eq!(consumed, 8 + content_len + padding);
            assert_eq!(r.id, 9);
            match &r.content {
                Content::Params(parsed) => {
                    assert_eq!(parsed.len(), prs.len());
                    for (p, e) in parsed.iter().zip(prs.iter()) {
                        assert_eq!(p.name, e.0);
                        assert_eq!(p.value, e.1);
                    }
                },
                _ => panic!(),
            }
            consumed
        },
        other => panic!("{:?}", other),
    };
    assert_eq!(out.len() - first, 8);
    match record(&out[first..]) {
        RecordParse::Done { consumed, record: r } => {
            assert_eq!(consumed, 8);
            assert_eq!(r, Record { id: 9, content: Content::Params(vec![]) });
        },
        other => panic!("{:?}", other),
    }
}

#[test]
fn params_emits_terminator_record() {
    let mut out: Vec<u8> = Vec::new();
    serializer::params(&mut out, 3, &vec![]).unwrap();
    // just the stream-terminating empty record
    assert_eq!(out, vec![1, 4, 0, 3, 0, 0, 0, 0]);
}

#[test]
fn params_splits_large_lists_into_records() {
    // two pairs of ~40 KiB each cannot share one record's 65,535 bytes
    let a = (vec![b'a'; 100], vec![b'x'; 40000]);
    let b = (vec![b'b'; 100], vec![b'y'; 40000]);
    let mut out: Vec<u8> = Vec::new();
    serializer::params(&mut out, 2, &vec![a.clone(), b.clone()]).unwrap();

    let mut records = Vec::new();
    let mut off = 0;
    while off < out.len() {
        match record(&out[off..]) {
            RecordParse::Done { consumed, record: r } => {
                assert_eq!(consumed % 8, 0);
                off += consumed;
                records.push(r);
            },
            other => panic!("{:?}", other),
        }
    }
    assert_eq!(records.len(), 3);
    match (&records[0].content, &records[1].content, &records[2].content) {
        (Content::Params(p0), Content::Params(p1), Content::Params(p2)) => {
            assert_eq!(p0.len(), 1);
            assert_eq!(p0[0].name, a.0);
            assert_eq!(p0[0].value, a.1);
            assert_eq!(p1.len(), 1);
            assert_eq!(p1[0].name, b.0);
            assert_eq!(p1[0].value, b.1);
            assert!(p2.is_empty());
        },
        _ => panic!(),
    }
}

#[test]
fn params_rejects_a_pair_too_large_for_one_record() {
    let mut out: Vec<u8> = Vec::new();
    let huge = (vec![b'k'; 10], vec![b'v'; 0x10000]);
    assert!(matches!(
        serializer::params(&mut out, 1, &vec![huge]),
        Err(Error::Serialization(SerializationError::TooLong))
    ));
    assert!(out.is_empty());
}

#[test]
fn get_values_writes_one_management_record() {
    let mut out: Vec<u8> = Vec::new();
    serializer::get_values(&mut out, &vec![b"FCGI_MAX_CONNS".to_vec()]).unwrap();
    assert_eq!(out.len() % 8, 0);
    match record(out.as_slice()) {
        RecordParse::Done { record: r, .. } => {
            assert_eq!(r.id, 0);
            match r.content {
                Content::GetValues(pairs) => {
                    assert_eq!(pairs.len(), 1);
                    assert_eq!(pairs[0].name, b"FCGI_MAX_CONNS".to_vec());
                    assert!(pairs[0].value.is_empty());
                },
                _ => panic!(),
            }
        },
        other => panic!("{:?}", other),
    }
}

#[test]
fn abort_request_record_parses() {
    let input = [1, 2, 0, 5, 0, 0, 0, 0];
    match record(&input[..]) {
        RecordParse::Done { record: r, .. } => {
            assert_eq!(r, Record { id: 5, content: Content::AbortRequest(AbortRequest) });
            assert_eq!(r.kind(), 2);
        },
        other => panic!("{:?}", other),
    }
}

#[test]
fn role_protocol_numbers() {
    assert_eq!(Role::Responder.to_protocol_number(), 1);
    assert_eq!(Role::Authorizer.to_protocol_number(), 2);
    assert_eq!(Role::Filter.to_protocol_number(), 3);
}
