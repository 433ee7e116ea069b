//! The per-connection state machine and the server handle.

use std::sync::atomic::{AtomicBool, AtomicUsize, Ordering};
use std::sync::Arc;

use hteapot::{
    Connection, Hteapot, HttpResponse, HttpStatus, IterError, Phase, ReadOutcome, Response,
    ShutdownCoordinator, SignalAction, EmptyHttpResponse,
};

/// Drives one full request through a connection with the given handler
/// response, returning everything written on the wire.
fn run_request(conn: &mut Connection, raw: &str, resp: Response) -> (Vec<u8>, bool) {
    let outcome = conn.on_data(raw.as_bytes().to_vec(), 0);
    let req = match outcome {
        ReadOutcome::Ready(req) => req,
        _ => panic!("request expected"),
    };
    drop(req);
    conn.dispatch(resp);
    let mut wire = Vec::new();
    loop {
        match conn.write_step() {
            Ok(bytes) => {
                wire.extend_from_slice(&bytes);
                conn.wrote(0);
            }
            Err(IterError::WouldBlock) => panic!("buffered response never blocks"),
            Err(IterError::Finished) => break,
        }
    }
    let keep = conn.finish_write();
    (wire, keep)
}

#[test]
fn simple_request_gets_full_response() {
    let mut conn = Connection::new(0);
    let resp = Response::Buffered(HttpResponse::new(HttpStatus::OK, b"hi".to_vec(), None));
    let (wire, keep) = run_request(&mut conn, "GET / HTTP/1.1\r\nHost: x\r\n\r\n", resp);
    let text = String::from_utf8(wire).unwrap();
    assert!(text.contains("HTTP/1.1 200 OK"));
    assert!(text.contains("Content-Length: 2"));
    assert!(text.contains("Server: HTeaPot/"));
    assert!(text.contains("hi"));
    assert!(text.contains("Connection: close"));
    assert!(!keep);
    assert_eq!(conn.phase(), Phase::Finish);
}

#[test]
fn keep_alive_twice_on_one_connection() {
    let mut conn = Connection::new(0);
    let raw = "GET / HTTP/1.1\r\nConnection: keep-alive\r\nHost: x\r\n\r\n";
    let mut responses = Vec::new();
    for _ in 0..2 {
        let resp = Response::Buffered(HttpResponse::new(HttpStatus::OK, b"ok".to_vec(), None));
        let (wire, keep) = run_request(&mut conn, raw, resp);
        assert!(keep);
        assert_eq!(conn.phase(), Phase::Read);
        responses.push(String::from_utf8(wire).unwrap());
    }
    for text in responses {
        assert!(text.contains("HTTP/1.1 200 OK"));
        assert!(text.to_lowercase().contains("connection: keep-alive"));
        assert!(text.contains("Keep-Alive: timeout=10"));
    }
}

#[test]
fn keep_alive_n_in_a_row() {
    let mut conn = Connection::new(0);
    let raw = "GET /n HTTP/1.1\r\nConnection: keep-alive\r\n\r\n";
    for i in 0..5 {
        let body = format!("body-{}", i);
        let resp = Response::Buffered(HttpResponse::new(
            HttpStatus::OK,
            body.clone().into_bytes(),
            None,
        ));
        let (wire, keep) = run_request(&mut conn, raw, resp);
        let text = String::from_utf8(wire).unwrap();
        assert!(text.contains(&body));
        assert!(keep);
    }
}

#[test]
fn bad_request_line_stages_a_400() {
    let mut conn = Connection::new(0);
    match conn.on_data("NONSENSE\r\n".as_bytes().to_vec(), 0) {
        ReadOutcome::Reject(_) => {}
        _ => panic!("rejection expected"),
    }
    assert_eq!(conn.phase(), Phase::Write);
    let mut wire = Vec::new();
    loop {
        match conn.write_step() {
            Ok(bytes) => {
                wire.extend_from_slice(&bytes);
                conn.wrote(0);
            }
            Err(_) => break,
        }
    }
    let text = String::from_utf8(wire).unwrap();
    assert!(text.contains("HTTP/1.1 400 Bad Request"));
    assert!(!conn.finish_write());
}

#[test]
fn oversized_headers_stage_a_413() {
    let mut conn = Connection::new(0);
    let mut raw = String::from("GET / HTTP/1.1\r\n");
    for i in 0..101 {
        raw.push_str(&format!("X-H{}: v\r\n", i));
    }
    raw.push_str("\r\n");
    match conn.on_data(raw.into_bytes(), 0) {
        ReadOutcome::Reject(_) => {}
        _ => panic!("rejection expected"),
    }
    let mut wire = Vec::new();
    loop {
        match conn.write_step() {
            Ok(bytes) => {
                wire.extend_from_slice(&bytes);
                conn.wrote(0);
            }
            Err(_) => break,
        }
    }
    let text = String::from_utf8(wire).unwrap();
    assert!(text.contains("HTTP/1.1 413 Payload Too Large"));
}

#[test]
fn idle_connection_expires_only_in_read_phase() {
    let conn = Connection::new(1000);
    assert!(!conn.idle_expired(1000));
    assert!(!conn.idle_expired(11000));
    assert!(conn.idle_expired(11001));
    let mut busy = Connection::new(1000);
    let resp = Response::Buffered(HttpResponse::new(HttpStatus::OK, b"x".to_vec(), None));
    match busy.on_data("GET / HTTP/1.1\r\n\r\n".as_bytes().to_vec(), 1000) {
        ReadOutcome::Ready(_) => {}
        _ => panic!("request expected"),
    }
    busy.dispatch(resp);
    assert_eq!(busy.phase(), Phase::Write);
    assert!(!busy.idle_expired(999999));
}

#[test]
fn receiving_bytes_refreshes_the_clock() {
    let mut conn = Connection::new(0);
    match conn.on_data("GET / HT".as_bytes().to_vec(), 9000) {
        ReadOutcome::NeedMore => {}
        _ => panic!("partial request expected"),
    }
    assert!(!conn.idle_expired(16000));
    assert!(conn.idle_expired(19001));
}

#[test]
fn partial_body_keeps_connection_pending() {
    let mut conn = Connection::new(0);
    let raw = "POST / HTTP/1.1\r\nContent-Length: 5\r\n\r\nhell";
    match conn.on_data(raw.as_bytes().to_vec(), 0) {
        ReadOutcome::NeedMore => {}
        _ => panic!("pending parse expected"),
    }
    match conn.on_data("o".as_bytes().to_vec(), 1) {
        ReadOutcome::Ready(req) => assert_eq!(req.body, b"hello".to_vec()),
        _ => panic!("request expected"),
    }
}

#[test]
fn tunnel_response_blocks_until_marked() {
    let mut conn = Connection::new(0);
    match conn.on_data("CONNECT example:80 HTTP/1.1\r\n\r\n".as_bytes().to_vec(), 0) {
        ReadOutcome::Ready(req) => assert_eq!(req.path, "example:80"),
        _ => panic!("request expected"),
    }
    let tunnel = hteapot::TunnelResponse::new("example:80");
    conn.dispatch(Response::Tunnel(tunnel));
    assert_eq!(conn.write_step(), Err(IterError::WouldBlock));
    conn.tunnel_mark_end();
    assert_eq!(conn.write_step(), Err(IterError::Finished));
}

#[test]
fn empty_response_is_immediately_finished() {
    let mut conn = Connection::new(0);
    match conn.on_data("GET / HTTP/1.1\r\n\r\n".as_bytes().to_vec(), 0) {
        ReadOutcome::Ready(_) => {}
        _ => panic!("request expected"),
    }
    conn.dispatch(Response::Empty(EmptyHttpResponse {}));
    assert_eq!(conn.write_step(), Err(IterError::Finished));
}

#[test]
fn server_handle_holds_its_configuration() {
    let teapot = Hteapot::new("127.0.0.1", 8080);
    let (addr, port) = teapot.get_addr();
    assert_eq!(addr, "127.0.0.1");
    assert_eq!(port, 8080);
    assert_eq!(teapot.threads(), 1);
    let threaded = Hteapot::new_threaded("0.0.0.0", 9000, 4);
    assert_eq!(threaded.threads(), 4);
    let coerced = Hteapot::new_threaded("0.0.0.0", 9000, 0);
    assert_eq!(coerced.threads(), 1);
}

#[test]
fn shutdown_signal_is_shared() {
    let mut teapot = Hteapot::new("127.0.0.1", 8080);
    assert!(teapot.get_shutdown_signal().is_none());
    let flag = Arc::new(AtomicBool::new(true));
    teapot.set_shutdown_signal(flag.clone());
    let got = teapot.get_shutdown_signal().unwrap();
    flag.store(false, Ordering::SeqCst);
    assert!(!got.load(Ordering::SeqCst));
}

#[test]
fn shutdown_hooks_run_in_registration_order() {
    let mut teapot = Hteapot::new("127.0.0.1", 8080);
    let log = Arc::new(AtomicUsize::new(0));
    let l1 = log.clone();
    teapot.add_shutdown_hook(move || {
        let v = l1.load(Ordering::SeqCst);
        l1.store(v * 10 + 1, Ordering::SeqCst);
    });
    let l2 = log.clone();
    teapot.add_shutdown_hook(move || {
        let v = l2.load(Ordering::SeqCst);
        l2.store(v * 10 + 2, Ordering::SeqCst);
    });
    teapot.run_shutdown_hooks();
    assert_eq!(log.load(Ordering::SeqCst), 12);
}

#[test]
fn banned_peers_are_recognized() {
    let mut teapot = Hteapot::new("127.0.0.1", 8080);
    assert!(!teapot.is_banned("10.0.0.1"));
    teapot.add_banned_ip("10.0.0.1");
    assert!(teapot.is_banned("10.0.0.1"));
    assert!(!teapot.is_banned("10.0.0.2"));
}

#[test]
fn repeated_signals_force_an_exit() {
    let mut c = ShutdownCoordinator::new();
    for _ in 0..8 {
        assert_eq!(c.on_signal(), SignalAction::Notify);
    }
    assert_eq!(c.on_signal(), SignalAction::ForceExit);
    assert_eq!(c.on_signal(), SignalAction::ForceExit);
}
