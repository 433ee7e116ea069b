//! Response serialization: buffered bodies, chunked streams, tunnels.

use hteapot::{HttpResponse, HttpStatus, Headers, IterError, StreamedResponse, TunnelResponse};
use hteapot::SERVER_VERSION;

#[test]
fn hteapot_test_http_response_maker() {
    let response = HttpResponse::new(
        HttpStatus::IAmATeapot,
        "Hello, World!".as_bytes().to_vec(),
        None,
    );
    let response = String::from_utf8(response.to_bytes()).unwrap();
    let expected_response = format!(
        "HTTP/1.1 418 I'm a teapot\r\nContent-Length: 13\r\nServer: HTeaPot/{}\r\n\r\nHello, World!\r\n",
        SERVER_VERSION
    );
    let expected_response_list = expected_response.split("\r\n");
    for item in expected_response_list.into_iter() {
        assert!(response.contains(item));
    }
}

#[test]
fn mod_test_http_response_maker() {
    let response = HttpResponse::new(
        HttpStatus::IAmATeapot,
        "Hello, World!".as_bytes().to_vec(),
        None,
    );
    let response = String::from_utf8(response.to_bytes()).unwrap();
    let expected_response = format!(
        "HTTP/1.1 418 I'm a teapot\r\nContent-Length: 13\r\nServer: HTeaPot/{}\r\n\r\nHello, World!\r\n",
        SERVER_VERSION
    );
    let expected_response_list = expected_response.split("\r\n");
    for item in expected_response_list {
        assert!(response.contains(item));
    }
}

#[test]
fn test_keep_alive_connection() {
    let mut headers = Headers::new();
    headers.insert("Connection", "keep-alive");
    headers.insert("Content-Length", "15");
    headers.insert("Keep-Alive", &format!("timeout={}", 10));

    let mut response = HttpResponse::new(
        HttpStatus::OK,
        "Keep-Alive Test".as_bytes().to_vec(),
        Some(headers),
    );

    let response_bytes = response.to_bytes();
    let response_str = String::from_utf8(response_bytes.clone()).unwrap();

    assert!(response_str.contains("HTTP/1.1 200 OK"));
    assert!(response_str.contains("Content-Length: 15"));
    assert!(response_str.contains("Connection: keep-alive"));
    assert!(response_str.contains("Keep-Alive: timeout=10"));
    assert!(response_str.contains("Server: HTeaPot/"));
    assert!(response_str.contains("Keep-Alive Test"));
    let mut headers = Headers::new();
    headers.insert("Connection", "keep-alive");
    headers.insert("Content-Length", "14");
    headers.insert("Keep-Alive", &format!("timeout={}", 10));

    let mut second_response = HttpResponse::new(
        HttpStatus::OK,
        "Second Request".as_bytes().to_vec(),
        Some(headers),
    );

    let second_response_bytes = second_response.to_bytes();
    let second_response_str = String::from_utf8(second_response_bytes.clone()).unwrap();

    assert!(second_response_str.contains("HTTP/1.1 200 OK"));
    assert!(second_response_str.contains("Content-Length: 14"));
    assert!(response_str.contains("Connection: keep-alive"));
    assert!(response_str.contains("Keep-Alive: timeout=10"));
    assert!(response_str.contains("Server: HTeaPot/"));
    assert!(second_response_str.contains("Second Request"));
}

#[test]
fn content_length_is_exact_byte_count() {
    let response = HttpResponse::new(HttpStatus::OK, b"hi".to_vec(), None);
    let text = String::from_utf8(response.to_bytes()).unwrap();
    assert!(text.contains("Content-Length: 2"));
    let empty = HttpResponse::new(HttpStatus::OK, Vec::new(), None);
    let text = String::from_utf8(empty.to_bytes()).unwrap();
    assert!(text.contains("Content-Length: 0"));
}

#[test]
fn raw_response_passes_bytes_through() {
    let raw = b"HTTP/1.0 200 OK\r\n\r\nxyz".to_vec();
    let r = HttpResponse::new_raw(raw.clone());
    assert!(r.is_raw());
    assert_eq!(r.to_bytes(), raw);
}

#[test]
fn buffered_iteration_reassembles_serialization() {
    let body = vec![b'a'; 5000];
    let mut r = HttpResponse::new(HttpStatus::OK, body, None);
    let expected = r.to_bytes();
    let mut collected = Vec::new();
    loop {
        match r.next() {
            Ok(chunk) => {
                assert!(chunk.len() <= 2048);
                collected.extend_from_slice(&chunk);
            }
            Err(IterError::Finished) => break,
            Err(IterError::WouldBlock) => unreachable!(),
        }
    }
    assert_eq!(collected, expected);
}

#[test]
fn streamed_wire_body_is_framed_payloads() {
    let mut s = StreamedResponse::new();
    let header_frame = match s.peek() {
        Ok(f) => f,
        Err(_) => panic!("header frame expected"),
    };
    assert!(String::from_utf8(header_frame.clone()).unwrap().contains("HTTP/1.1 200 OK"));
    assert!(String::from_utf8(header_frame).unwrap().contains("Transfer-Encoding: chunked"));
    let _ = s.next();
    s.send(b"A".to_vec());
    s.send(b"BB".to_vec());
    s.send(b"CCC".to_vec());
    s.end();
    let mut wire = Vec::new();
    loop {
        match s.next() {
            Ok(f) => wire.extend_from_slice(&f),
            Err(IterError::Finished) => break,
            Err(IterError::WouldBlock) => unreachable!(),
        }
    }
    let expected = "1\r\nA\r\n2\r\nBB\r\n3\r\nCCC\r\n0\r\n\r\n";
    assert_eq!(String::from_utf8(wire).unwrap(), expected);
}

#[test]
fn streamed_blocks_while_producer_is_silent() {
    let mut s = StreamedResponse::new();
    let _ = s.next();
    assert_eq!(s.peek(), Err(IterError::WouldBlock));
    s.send(b"x".to_vec());
    assert!(s.peek().is_ok());
    let _ = s.next();
    assert_eq!(s.peek(), Err(IterError::WouldBlock));
    s.end();
    assert!(s.next().is_ok());
    assert_eq!(s.peek(), Err(IterError::Finished));
}

#[test]
fn tunnel_sends_bare_ok_block_and_signals_end() {
    let mut t = TunnelResponse::new("example:80");
    assert_eq!(t.upstream().as_str(), "example:80");
    let block = t.header_block();
    assert_eq!(String::from_utf8(block).unwrap(), "HTTP/1.1 200 OK\r\n\r\n");
    assert_eq!(t.peek(), Err(IterError::WouldBlock));
    t.mark_end();
    assert_eq!(t.peek(), Err(IterError::Finished));
}
