//! The collaborators around the engine: cache, config, proxy rules, MIME
//! table, methods, statuses, timestamps.

use hteapot::config::is_proxy;
use hteapot::{Cache, Config, HttpMethod, HttpRequest, HttpStatus, SimpleTime};
use hteapot::get_mime_tipe;

#[test]
fn cache_round_trip_and_expiry() {
    let mut cache = Cache::new(60);
    cache.set_at("k".to_string(), vec![1, 2, 3], 100);
    assert_eq!(cache.get_at("k".to_string(), 120), Some(vec![1, 2, 3]));
    assert_eq!(cache.get_at("k".to_string(), 159), Some(vec![1, 2, 3]));
    assert_eq!(cache.get_at("k".to_string(), 160), None);
    assert_eq!(cache.get_at("k".to_string(), 100), None);
}

#[test]
fn cache_overwrites_same_key() {
    let mut cache = Cache::new(60);
    cache.set_at("k".to_string(), vec![1], 0);
    cache.set_at("k".to_string(), vec![2], 0);
    assert_eq!(cache.get_at("k".to_string(), 10), Some(vec![2]));
    assert_eq!(cache.get_at("missing".to_string(), 10), None);
}

#[test]
fn cache_clock_based_interface() {
    let mut cache = Cache::new(3600);
    cache.set("hello".to_string(), vec![1, 2, 3]);
    let data = cache.get("hello".to_string());
    assert!(data.is_some());
}

#[test]
fn default_config_values() {
    let c = Config::new_default();
    assert_eq!(c.port, 8080);
    assert_eq!(c.host, "localhost");
    assert_eq!(c.root, ".");
    assert_eq!(c.index, "index.html");
    assert_eq!(c.threads, 1);
    assert!(!c.cache);
    assert_eq!(c.proxy_rules.len(), 0);
}

#[test]
fn proxy_config_forwards_everything() {
    let c = Config::new_proxy();
    assert_eq!(c.threads, 2);
    assert_eq!(c.proxy_rules.len(), 1);
    assert_eq!(c.proxy_rules.prefix_at(0).as_str(), "/");
    assert_eq!(c.proxy_rules.target_at(0).as_str(), "");
}

#[test]
fn proxy_rule_rewrites_path_and_host() {
    let mut c = Config::new_default();
    c.proxy_rules.push_rule("/api", "http://upstream:9000");
    let mut req = HttpRequest::new(HttpMethod::GET, "/api/users");
    req.header("Host", "public.example");
    let (target, proxied) = is_proxy(&c, req).unwrap();
    assert_eq!(target, "http://upstream:9000");
    assert_eq!(proxied.path, "/users");
    assert_eq!(proxied.headers.len(), 1);
    assert_eq!(proxied.headers.get("host").unwrap().as_str(), "upstream:9000");
    let other = HttpRequest::new(HttpMethod::GET, "/static/x");
    assert!(is_proxy(&c, other).is_none());
}

#[test]
fn proxy_rule_without_scheme_keeps_target_as_host() {
    let mut c = Config::new_default();
    c.proxy_rules.push_rule("/", "upstream:9000");
    let req = HttpRequest::new(HttpMethod::GET, "/x");
    let (_, proxied) = is_proxy(&c, req).unwrap();
    assert_eq!(proxied.headers.get("host").unwrap().as_str(), "upstream:9000");
}

#[test]
fn mime_types_from_extensions() {
    assert_eq!(get_mime_tipe(&"file.html".to_string()), "text/html; charset=utf-8");
    assert_eq!(get_mime_tipe(&"a/b/c.json".to_string()), "application/json");
    assert_eq!(get_mime_tipe(&"x.png".to_string()), "image/png");
    assert_eq!(get_mime_tipe(&"noext".to_string()), "application/octet-stream");
    assert_eq!(get_mime_tipe(&"dir.d/noext".to_string()), "application/octet-stream");
    assert_eq!(get_mime_tipe(&".hidden".to_string()), "application/octet-stream");
    assert_eq!(get_mime_tipe(&"weird.zzz".to_string()), "application/octet-stream");
}

#[test]
fn method_round_trip_and_case() {
    assert_eq!(HttpMethod::from_str("GET"), HttpMethod::GET);
    assert_eq!(HttpMethod::from_str("get"), HttpMethod::GET);
    assert_eq!(HttpMethod::from_str("Delete"), HttpMethod::DELETE);
    let custom = HttpMethod::from_str("brew");
    assert_eq!(custom, HttpMethod::Other("BREW".to_string()));
    assert_eq!(custom.to_str(), "BREW");
    assert_eq!(HttpMethod::CONNECT.to_str(), "CONNECT");
}

#[test]
fn status_codes_round_trip() {
    assert_eq!(HttpStatus::from_u16(200).unwrap(), HttpStatus::OK);
    assert_eq!(HttpStatus::from_u16(418).unwrap(), HttpStatus::IAmATeapot);
    assert_eq!(HttpStatus::from_u16(413).unwrap(), HttpStatus::PayloadTooLarge);
    assert!(HttpStatus::from_u16(299).is_err());
    assert_eq!(HttpStatus::OK.code(), 200);
    assert_eq!(HttpStatus::IAmATeapot.to_string(), "I'm a teapot");
    assert_eq!(HttpStatus::NoContent.to_string(), "No Content");
}

#[test]
fn timestamp_arithmetic_matches_the_calendar() {
    let (y, mo, d, h, mi, s, ms) = SimpleTime::epoch_to_ymdhms(0, 0);
    assert_eq!((y, mo, d, h, mi, s, ms), (1970, 1, 1, 0, 0, 0, 0));
    let (y, mo, d, h, mi, s, ms) = SimpleTime::epoch_to_ymdhms(951_782_400, 5_000_000);
    assert_eq!((y, mo, d), (2000, 2, 29));
    assert_eq!((h, mi, s, ms), (0, 0, 0, 5));
    let (y, mo, d, h, mi, s, _) = SimpleTime::epoch_to_ymdhms(1_700_000_000, 0);
    assert_eq!((y, mo, d), (2023, 11, 14));
    assert_eq!((h, mi, s), (22, 13, 20));
}

#[test]
fn timestamp_format_shape() {
    let t = SimpleTime::get_current_timestamp();
    assert_eq!(t.len(), 23);
    let bytes = t.as_bytes();
    assert_eq!(bytes[4], b'-');
    assert_eq!(bytes[7], b'-');
    assert_eq!(bytes[10], b' ');
    assert_eq!(bytes[13], b':');
    assert_eq!(bytes[16], b':');
    assert_eq!(bytes[19], b'.');
}

#[test]
fn request_text_and_clone() {
    let mut req = HttpRequest::new(HttpMethod::POST, "/t");
    req.body = b"hello".to_vec();
    assert_eq!(req.text(), Some("hello".to_string()));
    let copy = req.clone();
    assert_eq!(copy.path, "/t");
    assert_eq!(copy.body, b"hello".to_vec());
    let blank = HttpRequest::default();
    assert_eq!(blank.path, "");
    assert_eq!(blank.text(), None);
}
