//! The upstream client: response parsing, request serialization, address
//! handling.

use hteapot::brew::{parse_url, prepare_addr};
use hteapot::{BrewError, HttpMethod, HttpRequest, HttpResponseBuilder, HttpStatus};

#[test]
fn basic_response() {
    let buffer = "HTTP/1.1 204 No Content\r\n\r\n".as_bytes().to_vec();
    let mut response_builder = HttpResponseBuilder::new();
    let done = response_builder.append(buffer.as_slice());
    assert!(done.is_ok());
    let response = response_builder.get();
    assert!(response.is_some());
    let response = response.unwrap();
    let response_base = response.base();
    assert!(response_base.status == HttpStatus::NoContent);
    assert!(response_base.headers.len() == 0);
    assert!(response.content.len() == 0);
}

#[test]
fn response_with_body() {
    let raw = "HTTP/1.1 200 OK\r\nContent-Length: 3\r\n\r\nabc";
    let mut b = HttpResponseBuilder::new();
    assert_eq!(b.append(raw.as_bytes()), Ok(true));
    let r = b.get().unwrap();
    assert!(r.base().status == HttpStatus::OK);
    assert_eq!(r.content, b"abc".to_vec());
}

#[test]
fn response_split_feeding_equals_whole() {
    let raw = "HTTP/1.1 200 OK\r\nContent-Length: 3\r\n\r\nabc";
    let mut whole = HttpResponseBuilder::new();
    assert!(whole.append(raw.as_bytes()).is_ok());
    let mut pieces = HttpResponseBuilder::new();
    for c in raw.as_bytes().chunks(2) {
        assert!(pieces.append(c).is_ok());
    }
    let a = whole.get().unwrap();
    let b = pieces.get().unwrap();
    assert!(a.base().status == b.base().status);
    assert_eq!(a.content, b.content);
    assert_eq!(a.base().headers.len(), b.base().headers.len());
}

#[test]
fn unknown_status_code_is_rejected() {
    let raw = "HTTP/1.1 299 Whatever\r\n\r\n";
    let mut b = HttpResponseBuilder::new();
    assert_eq!(b.append(raw.as_bytes()), Err(BrewError::InvalidStatus));
}

#[test]
fn short_status_line_is_rejected() {
    let raw = "HTTP/1.1\r\n\r\n";
    let mut b = HttpResponseBuilder::new();
    assert_eq!(b.append(raw.as_bytes()), Err(BrewError::InvalidResponse));
}

#[test]
fn test_http_request_new() {
    let request = HttpRequest::new(HttpMethod::GET, "/example");
    assert_eq!(request.method, HttpMethod::GET);
    assert_eq!(request.path, "/example");
    assert!(request.args.is_empty());
    assert!(request.headers.is_empty());
    assert_eq!(request.text(), None);
}

#[test]
fn test_http_request_arg() {
    let mut request = HttpRequest::new(HttpMethod::POST, "/submit");
    request.arg("key", "value");
    assert_eq!(request.args.get("key"), Some(&"value".to_string()));
}

#[test]
fn test_http_request_header() {
    let mut request = HttpRequest::new(HttpMethod::GET, "/data");
    request.header("Content-Type", "application/json");
    assert_eq!(
        request.headers.get("Content-Type"),
        Some(&"application/json".to_string())
    );
}

#[test]
fn test_http_request_to_string() {
    let mut request = HttpRequest::new(HttpMethod::POST, "/resource");
    request.header("Content-Type", "application/json");

    let request_string = request.to_string();
    assert!(request_string.contains("POST /resource HTTP/1.1"));
    assert!(request_string.contains("Content-Type: application/json"));
}

#[test]
fn to_string_appends_query_and_defaults_empty_path() {
    let mut request = HttpRequest::new(HttpMethod::GET, "/r");
    request.arg("a", "1");
    request.arg("b", "2");
    let text = request.to_string();
    assert!(text.contains("GET /r?a=1&b=2 HTTP/1.1"));
    let blank = HttpRequest::new(HttpMethod::GET, "");
    assert!(blank.to_string().contains("GET / HTTP/1.1"));
}

#[test]
fn prepare_addr_strips_scheme_and_path() {
    assert_eq!(prepare_addr("http://example.com").unwrap(), "example.com:80");
    assert_eq!(prepare_addr("example.com:8080/z").unwrap(), "example.com:8080");
    assert_eq!(prepare_addr("localhost:9000").unwrap(), "127.0.0.1:9000");
    assert!(prepare_addr("https://example.com").is_err());
}

#[test]
fn parse_url_splits_scheme_domain_path_port() {
    let u = parse_url("http://example.com/some/path").unwrap();
    assert_eq!(u.scheme, "http");
    assert_eq!(u.domain, "example.com");
    assert_eq!(u.path, "some/path");
    assert_eq!(u.port, "80");
    let u = parse_url("https://h.test/a").unwrap();
    assert_eq!(u.port, "443");
    let u = parse_url("tea://pot/a").unwrap();
    assert_eq!(u.port, "1234");
    let u = parse_url("http://h/p:9999").unwrap();
    assert_eq!(u.scheme, "http");
    assert!(parse_url("nocolonhere").is_err());
}
