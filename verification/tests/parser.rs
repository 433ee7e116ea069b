//! The incremental request parser.

use hteapot::{HttpMethod, HttpRequestBuilder, HttpStatus, ParseError};

#[test]
fn basic_request() {
    let buffer = "GET / HTTP/1.1\r\n\r\n".as_bytes().to_vec();
    let mut request_builder = HttpRequestBuilder::new();
    let done = request_builder.append(buffer);
    assert!(done.is_ok());
    let request = request_builder.get();
    assert!(request.is_some());
    let request = request.unwrap();
    assert!(request.path == "/");
    assert!(request.method == HttpMethod::GET);
    assert!(request.headers.len() == 0);
}

#[test]
fn basic_request_headers() {
    let buffer = "GET / HTTP/1.1\r\nHost: test\r\n\r\n".as_bytes().to_vec();
    let mut request_builder = HttpRequestBuilder::new();
    let done = request_builder.append(buffer);
    assert!(done.is_ok());
    let request = request_builder.get();
    assert!(request.is_some());
    let request = request.unwrap();
    assert!(request.path == "/");
    assert!(request.method == HttpMethod::GET);
    assert!(request.headers.len() == 1);
}

#[test]
fn post_request() {
    let buffer = "POST / HTTP/1.1\r\ncontent-length: 4\r\n\r\nhello\r\n"
        .as_bytes()
        .to_vec();
    let mut request_builder = HttpRequestBuilder::new();
    let done = request_builder.append(buffer);
    assert!(done.is_ok());
    let request = request_builder.get();
    assert!(request.is_some());
    let request = request.unwrap();
    assert!(request.path == "/");
    assert!(request.method == HttpMethod::POST);
    assert!(request.headers.len() == 1);
}

#[test]
fn post_with_exact_body() {
    let buffer = "POST /e HTTP/1.1\r\nContent-Length: 5\r\n\r\nhello"
        .as_bytes()
        .to_vec();
    let mut b = HttpRequestBuilder::new();
    assert!(b.append(buffer).is_ok());
    let request = b.get().unwrap();
    assert_eq!(request.method, HttpMethod::POST);
    assert_eq!(request.path, "/e");
    assert_eq!(request.body, b"hello".to_vec());
}

#[test]
fn query_arguments() {
    let buffer = "GET /?a=1&b=&c=2 HTTP/1.1\r\n\r\n".as_bytes().to_vec();
    let mut b = HttpRequestBuilder::new();
    assert!(b.append(buffer).is_ok());
    let request = b.get().unwrap();
    assert_eq!(request.path, "/");
    assert_eq!(request.args.len(), 3);
    assert_eq!(request.args.get("a").unwrap().as_str(), "1");
    assert_eq!(request.args.get("b").unwrap().as_str(), "");
    assert_eq!(request.args.get("c").unwrap().as_str(), "2");
}

#[test]
fn request_line_needs_three_tokens() {
    let mut b = HttpRequestBuilder::new();
    let r = b.append("GET /\r\n".as_bytes().to_vec());
    assert_eq!(r, Err(ParseError::BadRequestLine));
    assert_eq!(ParseError::BadRequestLine.status(), HttpStatus::BadRequest);
    assert_eq!(ParseError::BadRequestLine.status().code(), 400);
}

#[test]
fn too_many_headers_rejected() {
    let mut req = String::from("GET / HTTP/1.1\r\n");
    for i in 0..101 {
        req.push_str(&format!("X-H{}: v\r\n", i));
    }
    req.push_str("\r\n");
    let mut b = HttpRequestBuilder::new();
    let r = b.append(req.as_bytes().to_vec());
    assert_eq!(r, Err(ParseError::PayloadTooLarge));
    assert_eq!(ParseError::PayloadTooLarge.status().code(), 413);
}

#[test]
fn oversized_header_block_rejected() {
    let mut req = String::from("GET / HTTP/1.1\r\n");
    let big = "x".repeat(17000);
    req.push_str(&format!("X-Big: {}\r\n\r\n", big));
    let mut b = HttpRequestBuilder::new();
    let r = b.append(req.as_bytes().to_vec());
    assert_eq!(r, Err(ParseError::PayloadTooLarge));
}

#[test]
fn body_one_byte_short_stays_pending() {
    let mut b = HttpRequestBuilder::new();
    assert!(b
        .append("POST / HTTP/1.1\r\nContent-Length: 5\r\n\r\nhell".as_bytes().to_vec())
        .is_ok());
    assert!(!b.done());
    assert!(b.get().is_none());
    assert!(b.append("o".as_bytes().to_vec()).is_ok());
    assert!(b.done());
    assert_eq!(b.get().unwrap().body, b"hello".to_vec());
}

#[test]
fn split_feeding_equals_whole_feeding() {
    let raw = "POST /p?x=1 HTTP/1.1\r\nHost: h\r\nContent-Length: 3\r\n\r\nabc";
    let mut whole = HttpRequestBuilder::new();
    assert!(whole.append(raw.as_bytes().to_vec()).is_ok());
    let mut pieces = HttpRequestBuilder::new();
    for chunk in raw.as_bytes().chunks(1) {
        assert!(pieces.append(chunk.to_vec()).is_ok());
    }
    let a = whole.get().unwrap();
    let b = pieces.get().unwrap();
    assert_eq!(a.method, b.method);
    assert_eq!(a.path, b.path);
    assert_eq!(a.body, b.body);
    assert_eq!(a.headers.len(), b.headers.len());
    assert_eq!(
        a.headers.get("host").map(|s| s.clone()),
        b.headers.get("host").map(|s| s.clone())
    );
    assert_eq!(a.args.get("x").map(|s| s.clone()), b.args.get("x").map(|s| s.clone()));
}

#[test]
fn chunked_body_assembled() {
    let raw = "POST /c HTTP/1.1\r\nTransfer-Encoding: chunked\r\n\r\n5\r\nhello\r\n3\r\n, w\r\n0\r\n";
    let mut b = HttpRequestBuilder::new();
    assert!(b.append(raw.as_bytes().to_vec()).is_ok());
    assert!(b.done());
    assert_eq!(b.get().unwrap().body, b"hello, w".to_vec());
}

#[test]
fn duplicate_content_length_rejected() {
    let raw = "POST / HTTP/1.1\r\nContent-Length: 3\r\nContent-Length: 4\r\n\r\n";
    let mut b = HttpRequestBuilder::new();
    assert_eq!(
        b.append(raw.as_bytes().to_vec()),
        Err(ParseError::DuplicateContentLength)
    );
}

#[test]
fn invalid_content_length_rejected() {
    let raw = "POST / HTTP/1.1\r\nContent-Length: abc\r\n\r\n";
    let mut b = HttpRequestBuilder::new();
    assert_eq!(
        b.append(raw.as_bytes().to_vec()),
        Err(ParseError::InvalidContentLength)
    );
}

#[test]
fn header_without_colon_rejected() {
    let raw = "GET / HTTP/1.1\r\nNoColonHere\r\n\r\n";
    let mut b = HttpRequestBuilder::new();
    assert_eq!(b.append(raw.as_bytes().to_vec()), Err(ParseError::InvalidHeader));
}

#[test]
fn invalid_chunk_size_rejected() {
    let raw = "POST / HTTP/1.1\r\nTransfer-Encoding: chunked\r\n\r\nzz\r\n";
    let mut b = HttpRequestBuilder::new();
    assert_eq!(b.append(raw.as_bytes().to_vec()), Err(ParseError::InvalidChunkSize));
}

#[test]
fn non_utf8_header_rejected() {
    let mut raw = "GET / HTTP/1.1\r\nX-Bad: ".as_bytes().to_vec();
    raw.push(0xff);
    raw.extend_from_slice(b"\r\n\r\n");
    let mut b = HttpRequestBuilder::new();
    assert_eq!(b.append(raw), Err(ParseError::NonUtf8));
}

#[test]
fn oversized_request_line_rejected() {
    let raw = vec![b'a'; 20000];
    let mut b = HttpRequestBuilder::new();
    assert_eq!(b.append(raw), Err(ParseError::EntityTooLarge));
}

#[test]
fn utf8_path_is_kept() {
    let raw = "GET /caf\u{e9} HTTP/1.1\r\n\r\n".as_bytes().to_vec();
    let mut b = HttpRequestBuilder::new();
    assert!(b.append(raw).is_ok());
    assert_eq!(b.get().unwrap().path, "/caf\u{e9}");
}

#[test]
fn method_token_is_uppercased() {
    let raw = "get / HTTP/1.1\r\n\r\n".as_bytes().to_vec();
    let mut b = HttpRequestBuilder::new();
    assert!(b.append(raw).is_ok());
    assert_eq!(b.get().unwrap().method, HttpMethod::GET);
}
