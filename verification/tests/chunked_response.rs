use http_server::response::{error_400, error_403, error_404, error_405, error_500, Response};

#[test]
fn of_stream_writes_head_then_body() {
    let mut res = Response::new();
    res.set_status(200, String::from("Ok"));
    res.insert_header("Content-Length", b"5".to_vec());
    let out = res.of_stream(b"Hello");
    assert_eq!(out, b"HTTP/1.1 200 Ok\r\nContent-Length: 5\r\n\r\nHello".to_vec());
}

#[test]
fn start_forces_chunked_transfer_encoding() {
    let res = Response::new();
    let streaming = res.start();
    let out = streaming.finish();
    assert_eq!(
        out,
        b"HTTP/1.1 200 Ok\r\nTransfer-Encoding: Chunked\r\n\r\n0\r\n\r\n".to_vec()
    );
}

#[test]
fn small_writes_buffer_until_finish() {
    let res = Response::new();
    let mut streaming = res.start();
    let mut streaming = {
        // drain the head so only the body frames remain
        let head = streaming.drain();
        assert!(head.starts_with(b"HTTP/1.1 200 Ok\r\n"));
        streaming
    };
    streaming.write(b"Hel");
    streaming.write(b"lo");
    assert!(streaming.drain().is_empty());
    let out = streaming.finish();
    assert_eq!(out, b"5\r\nHello\r\n0\r\n\r\n".to_vec());
}

#[test]
fn flush_emits_one_chunk() {
    let res = Response::new();
    let mut streaming = res.start();
    streaming.drain();
    streaming.write(b"abc");
    streaming.flush();
    assert_eq!(streaming.drain(), b"3\r\nabc\r\n".to_vec());
    let out = streaming.finish();
    assert_eq!(out, b"0\r\n\r\n".to_vec());
}

#[test]
fn oversized_write_becomes_its_own_chunk() {
    let res = Response::new();
    let mut streaming = res.start();
    streaming.drain();
    streaming.write(b"xy");
    let big = vec![b'z'; 5000];
    streaming.write(big.as_slice());
    let out = streaming.drain();
    // the pending buffer is flushed first, then the big chunk follows
    let mut expected = b"2\r\nxy\r\n1388\r\n".to_vec();
    expected.extend_from_slice(big.as_slice());
    expected.extend_from_slice(b"\r\n");
    assert_eq!(out, expected);
}

#[test]
fn write_filling_the_buffer_flushes_at_capacity() {
    let res = Response::new();
    let mut streaming = res.start();
    streaming.drain();
    let first = vec![b'a'; 4000];
    let second = vec![b'b'; 200];
    streaming.write(first.as_slice());
    streaming.write(second.as_slice());
    // 4096 bytes went out as one full chunk; 104 stay buffered
    let out = streaming.drain();
    let mut expected = b"1000\r\n".to_vec();
    expected.extend_from_slice(&vec![b'a'; 4000]);
    expected.extend_from_slice(&vec![b'b'; 96]);
    expected.extend_from_slice(b"\r\n");
    assert_eq!(out, expected);
    let tail = streaming.finish();
    let mut expected_tail = b"68\r\n".to_vec();
    expected_tail.extend_from_slice(&vec![b'b'; 104]);
    expected_tail.extend_from_slice(b"\r\n0\r\n\r\n");
    assert_eq!(tail, expected_tail);
}

#[test]
fn error_pages_compute_content_length() {
    let e404 = error_404(Response::new());
    let text = String::from_utf8(e404.clone()).unwrap();
    assert!(text.starts_with("HTTP/1.1 404 Not Found\r\n"));
    assert!(text.contains("Content-Type: text/html\r\n"));
    assert!(text.contains("Content-Length: 132\r\n"));
    let body_start = text.find("\r\n\r\n").unwrap() + 4;
    assert_eq!(e404.len() - body_start, 132);

    let e500 = String::from_utf8(error_500(Response::new())).unwrap();
    assert!(e500.starts_with("HTTP/1.1 500 Internal Error\r\n"));
    assert!(e500.contains("Content-Length: 193\r\n"));

    let e405 = String::from_utf8(error_405(Response::new())).unwrap();
    assert!(e405.starts_with("HTTP/1.1 405 Method not allowed\r\n"));
    assert!(e405.contains("Content-Length: 181\r\n"));

    let e403 = String::from_utf8(error_403(Response::new())).unwrap();
    assert!(e403.starts_with("HTTP/1.1 403 Forbidden\r\n"));
    assert!(e403.contains("Content-Length: 150\r\n"));

    let e400 = String::from_utf8(error_400(Response::new())).unwrap();
    assert!(e400.starts_with("HTTP/1.1 400 Bad Request\r\n"));
    assert!(e400.contains("Content-Length: 164\r\n"));
}

#[test]
fn into_head_carries_headers_in_insertion_order() {
    let mut res = Response::new();
    res.insert_header("Content-Type", b"text/css".to_vec());
    res.insert_header("Content-Length", b"7".to_vec());
    let head = res.into_head();
    assert_eq!(
        head,
        b"HTTP/1.1 200 Ok\r\nContent-Type: text/css\r\nContent-Length: 7\r\n\r\n".to_vec()
    );
}
