//! The case-insensitive header map.

use hteapot::Headers;

#[test]
fn test_caseinsensitive() {
    let mut headers = Headers::new();
    headers.insert("X-Test-Header", "Value");
    assert!(headers.get("x-test-header").is_some());
    assert!(headers.get("x-test-header").unwrap().as_str() == "Value");
    assert!(headers.get("x-test-header").unwrap().as_str() != "value");
}

#[test]
fn test_remove() {
    let mut headers = Headers::new();
    headers.insert("X-Test-Header", "Value");
    assert!(headers.get("x-test-header").is_some());
    assert!(headers.get("x-test-header").unwrap().as_str() == "Value");
    assert!(headers.get("x-test-header").unwrap().as_str() != "value");
    assert!(headers.remove("x-test-header").is_some());
    assert!(headers.get("x-test-header").is_none());
}

#[test]
fn lookup_ignores_case_of_both_sides() {
    let mut headers = Headers::new();
    headers.insert("Content-Type", "text/plain");
    assert_eq!(headers.get("CONTENT-TYPE").unwrap().as_str(), "text/plain");
    assert_eq!(headers.get("content-type").unwrap().as_str(), "text/plain");
    assert_eq!(headers.get("cOnTeNt-TyPe").unwrap().as_str(), "text/plain");
    assert!(headers.get("content-typ").is_none());
}

#[test]
fn insert_overwrites_value_and_keeps_first_spelling() {
    let mut headers = Headers::new();
    headers.insert("X-Key", "one");
    headers.insert("x-key", "two");
    assert_eq!(headers.len(), 1);
    assert_eq!(headers.get("X-KEY").unwrap().as_str(), "two");
}

#[test]
fn entry_only_inserts_when_absent() {
    let mut headers = Headers::new();
    headers.entry("Connection", "keep-alive");
    assert_eq!(headers.get("connection").unwrap().as_str(), "keep-alive");
    headers.entry("connection", "close");
    assert_eq!(headers.get("Connection").unwrap().as_str(), "keep-alive");
    assert_eq!(headers.len(), 1);
}

#[test]
fn is_empty_and_len() {
    let mut headers = Headers::new();
    assert!(headers.is_empty());
    headers.insert("A", "1");
    headers.insert("B", "2");
    assert_eq!(headers.len(), 2);
    assert!(!headers.is_empty());
}
