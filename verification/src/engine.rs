//! The connection engine: the server handle and the per-connection state
//! machine.
//!
//! A connection advances through `Read`, `Write` and `Finish`.  In `Read` it
//! feeds incoming bytes to the request parser, watches the idle TTL, and on a
//! complete request decides keep-alive; in `Write` it drains the response,
//! and either resets for the next request or closes.  The socket work around
//! these decisions — accepting, polling, reading, writing — is the caller's:
//! every function here goes from plain values to plain values.

use vstd::prelude::*;

verus! {

use vstd::string::StringSliceAdditionalSpecFns;
use vstd::string::StringExecFns;
use core::sync::atomic::AtomicBool;
use std::sync::Arc;
use crate::headers::{HeaderPair, key_index, lookup_of};
use crate::parser::{HttpRequestBuilder, ParsePhase, ParseError, parse_result, p_init};
use crate::request::HttpRequest;
use crate::response::{HttpResponse, StreamedResponse, TunnelResponse, EmptyHttpResponse, IterError};
use crate::status::HttpStatus;
use crate::text::{fold, string_bytes, str_to_bytes, fold_eq_str, bytes_eq};
use crate::KEEP_ALIVE_TTL_SECS;

/// Idle TTL in milliseconds.
pub const KEEP_ALIVE_TTL_MS: u64 = KEEP_ALIVE_TTL_SECS * 1000;

/// The registered shutdown hooks, in registration order.  Closures cannot be
/// modeled, so the list is held opaquely and only its length is tracked.
#[verifier::external_body]
pub struct HookList {
    hooks: Vec<Box<dyn Fn() + Send + Sync + 'static>>,
}

/// How many hooks a list holds.
pub uninterp spec fn hook_count(h: HookList) -> nat;

impl HookList {
    /// Relies on `Vec::new`: an empty list.
    #[verifier::external_body]
    pub fn new() -> (r: HookList)
        ensures
            hook_count(r) == 0,
    {
        HookList { hooks: Vec::new() }
    }

    /// Relies on `Vec::push`: appends the hook at the end, after every hook
    /// registered before it.
    #[verifier::external_body]
    pub fn push<F: Fn() + Send + Sync + 'static>(&mut self, hook: F)
        ensures
            hook_count(*final(self)) == hook_count(*old(self)) + 1,
    {
        self.hooks.push(Box::new(hook));
    }

    /// Relies on `Vec` iteration order: calls every hook once, in
    /// registration order.
    #[verifier::external_body]
    pub fn run_all(&self) {
        for hook in self.hooks.iter() {
            hook();
        }
    }
}

/// Relies on `Arc::clone`: the clone is the same shared value.
#[verifier::external_body]
fn clone_signal(s: &Arc<AtomicBool>) -> (r: Arc<AtomicBool>)
    ensures
        r == *s,
{
    s.clone()
}

/// The server handle: where to bind, how many workers, and the shutdown
/// coordination state.
pub struct Hteapot {
    port: u16,
    address: String,
    threads: u16,
    shutdown_signal: Option<Arc<AtomicBool>>,
    shutdown_hooks: HookList,
    banned: Vec<String>,
}

impl Hteapot {
    /// The configured port.
    pub closed spec fn spec_port(&self) -> u16 {
        self.port
    }

    /// The configured address, as bytes.
    pub closed spec fn spec_address(&self) -> Seq<u8> {
        string_bytes(self.address)
    }

    /// The configured worker count.
    pub closed spec fn spec_threads(&self) -> u16 {
        self.threads
    }

    /// The attached shutdown flag, if any.
    pub closed spec fn spec_signal(&self) -> Option<Arc<AtomicBool>> {
        self.shutdown_signal
    }

    /// Whether a shutdown flag has been attached.
    pub open spec fn has_signal(&self) -> bool {
        self.spec_signal() is Some
    }

    /// How many shutdown hooks are registered.
    pub closed spec fn spec_hooks(&self) -> nat {
        hook_count(self.shutdown_hooks)
    }

    /// The peers to be turned away at accept time, as bytes.
    pub closed spec fn spec_banned(&self) -> Seq<Seq<u8>> {
        self.banned@.map_values(|p: String| string_bytes(p))
    }

    /// A single-worker server for the given address and port.
    pub fn new(address: &str, port: u16) -> (r: Hteapot)
        ensures
            r.spec_address() == address.spec_bytes(),
            r.spec_port() == port,
            r.spec_threads() == 1,
            !r.has_signal(),
            r.spec_hooks() == 0,
            r.spec_banned() == Seq::<Seq<u8>>::empty(),
    {
        let r = Hteapot {
            port,
            address: String::from_str(address),
            threads: 1,
            shutdown_signal: None,
            shutdown_hooks: HookList::new(),
            banned: Vec::new(),
        };
        proof {
            assert(r.spec_banned() =~= Seq::<Seq<u8>>::empty());
        }
        r
    }

    /// A server with the given worker count; zero workers are raised to one.
    pub fn new_threaded(address: &str, port: u16, threads: u16) -> (r: Hteapot)
        ensures
            r.spec_address() == address.spec_bytes(),
            r.spec_port() == port,
            r.spec_threads() == (if threads == 0 {
                1u16
            } else {
                threads
            }),
            !r.has_signal(),
            r.spec_hooks() == 0,
            r.spec_banned() == Seq::<Seq<u8>>::empty(),
    {
        let r = Hteapot {
            port,
            address: String::from_str(address),
            threads: if threads == 0 {
                1
            } else {
                threads
            },
            shutdown_signal: None,
            shutdown_hooks: HookList::new(),
            banned: Vec::new(),
        };
        proof {
            assert(r.spec_banned() =~= Seq::<Seq<u8>>::empty());
        }
        r
    }

    /// Attaches the shared running flag.
    pub fn set_shutdown_signal(&mut self, signal: Arc<AtomicBool>)
        ensures
            final(self).spec_signal() == Some(signal),
            final(self).spec_address() == old(self).spec_address(),
            final(self).spec_port() == old(self).spec_port(),
            final(self).spec_threads() == old(self).spec_threads(),
            final(self).spec_hooks() == old(self).spec_hooks(),
            final(self).spec_banned() == old(self).spec_banned(),
    {
        self.shutdown_signal = Some(signal);
    }

    /// The shared running flag, if one was attached.
    pub fn get_shutdown_signal(&self) -> (r: Option<Arc<AtomicBool>>)
        ensures
            r == self.spec_signal(),
    {
        match &self.shutdown_signal {
            Some(s) => Some(clone_signal(s)),
            None => None,
        }
    }

    /// Registers a cleanup action, after every one registered before it.
    pub fn add_shutdown_hook<F>(&mut self, hook: F) where F: Fn() + Send + Sync + 'static
        ensures
            final(self).spec_hooks() == old(self).spec_hooks() + 1,
            final(self).has_signal() == old(self).has_signal(),
            final(self).spec_address() == old(self).spec_address(),
            final(self).spec_port() == old(self).spec_port(),
            final(self).spec_threads() == old(self).spec_threads(),
            final(self).spec_banned() == old(self).spec_banned(),
    {
        self.shutdown_hooks.push(hook);
    }

    /// The bound address and port.
    pub fn get_addr(&self) -> (r: (String, u16))
        ensures
            string_bytes(r.0) == self.spec_address(),
            r.1 == self.spec_port(),
    {
        (self.address.clone(), self.port)
    }

    /// The configured worker count.
    pub fn threads(&self) -> (r: u16)
        ensures
            r == self.spec_threads(),
    {
        self.threads
    }

    /// Runs every registered shutdown hook once, in registration order.
    pub fn run_shutdown_hooks(&self) {
        self.shutdown_hooks.run_all();
    }

    /// Registers a peer whose connections are to be turned away at accept
    /// time.
    pub fn add_banned_ip(&mut self, peer: &str)
        ensures
            final(self).spec_banned() == old(self).spec_banned().push(peer.spec_bytes()),
            final(self).spec_address() == old(self).spec_address(),
            final(self).spec_port() == old(self).spec_port(),
            final(self).spec_threads() == old(self).spec_threads(),
            final(self).spec_hooks() == old(self).spec_hooks(),
            final(self).spec_signal() == old(self).spec_signal(),
    {
        self.banned.push(String::from_str(peer));
        proof {
            assert(final(self).spec_banned() =~= old(self).spec_banned().push(
                peer.spec_bytes(),
            ));
        }
    }

    /// True when the peer was registered as banned.
    pub fn is_banned(&self, peer: &str) -> (r: bool)
        ensures
            r == self.spec_banned().contains(peer.spec_bytes()),
    {
        let pb = str_to_bytes(peer);
        let mut i: usize = 0;
        while i < self.banned.len()
            invariant
                i <= self.banned@.len(),
                pb@ == peer.spec_bytes(),
                forall|j: int| 0 <= j < i ==> #[trigger] self.spec_banned()[j] != peer.spec_bytes(),
            decreases self.banned.len() - i,
        {
            let b = str_to_bytes(self.banned[i].as_str());
            if bytes_eq(&b, &pb) {
                proof {
                    assert(self.spec_banned()[i as int] == peer.spec_bytes());
                }
                return true;
            }
            i = i + 1;
        }
        proof {
            if self.spec_banned().contains(peer.spec_bytes()) {
                let j = choose|j: int|
                    0 <= j < self.spec_banned().len() && self.spec_banned()[j]
                        == peer.spec_bytes();
                assert(self.spec_banned()[j] != peer.spec_bytes());
            }
        }
        false
    }
}

/// The fail-safe in the signal handler: repeated signals are counted, and
/// once they reach the limit the process is told to stop waiting and exit.
pub struct ShutdownCoordinator {
    repeats: u8,
}

/// What a signal arrival asks for.
#[derive(Debug, Clone, Copy, PartialEq, Eq, Structural)]
pub enum SignalAction {
    /// Clear the running flag and wake the acceptor.
    Notify,
    /// Too many repeats: exit at once.
    ForceExit,
}

/// How many repeated signals are tolerated before a forced exit.
pub const SIGNAL_REPEAT_LIMIT: u8 = 9;

impl ShutdownCoordinator {
    /// How many signals have arrived.
    pub closed spec fn spec_repeats(&self) -> u8 {
        self.repeats
    }

    /// A coordinator that has seen no signal.
    pub fn new() -> (r: ShutdownCoordinator)
        ensures
            r.spec_repeats() == 0,
    {
        ShutdownCoordinator { repeats: 0 }
    }

    /// Counts one signal: asks for a forced exit exactly from the limit on.
    pub fn on_signal(&mut self) -> (r: SignalAction)
        ensures
            final(self).spec_repeats() == (if old(self).spec_repeats() < u8::MAX {
                (old(self).spec_repeats() + 1) as u8
            } else {
                old(self).spec_repeats()
            }),
            r == (if final(self).spec_repeats() >= SIGNAL_REPEAT_LIMIT {
                SignalAction::ForceExit
            } else {
                SignalAction::Notify
            }),
    {
        if self.repeats < u8::MAX {
            self.repeats = self.repeats + 1;
        }
        if self.repeats >= SIGNAL_REPEAT_LIMIT {
            SignalAction::ForceExit
        } else {
            SignalAction::Notify
        }
    }
}

/// A response of any variant, as a connection carries it.
pub enum Response {
    /// A fixed body, fully known.
    Buffered(Box<HttpResponse>),
    /// A body produced incrementally, in chunked transfer coding.
    Streamed(Box<StreamedResponse>),
    /// A connection take-over after a bare status block.
    Tunnel(Box<TunnelResponse>),
    /// Nothing to write.
    Empty(EmptyHttpResponse),
}

impl Response {
    /// Well-formed, variant by variant.
    pub open spec fn wf(&self) -> bool {
        match self {
            Response::Buffered(r) => r.wf(),
            Response::Streamed(s) => s.wf(),
            Response::Tunnel(t) => t.spec_base().headers.wf(),
            Response::Empty(_) => true,
        }
    }

    /// The response's headers, as byte pairs.
    pub open spec fn headers_view(&self) -> Seq<HeaderPair> {
        match self {
            Response::Buffered(r) => r.spec_base().headers.view_seq(),
            Response::Streamed(s) => s.spec_base().headers.view_seq(),
            Response::Tunnel(t) => t.spec_base().headers.view_seq(),
            Response::Empty(_) => Seq::empty(),
        }
    }

    /// The bytes the response offers to the writer next, if any.
    pub open spec fn head(&self) -> Option<Seq<u8>> {
        match self {
            Response::Buffered(r) => {
                let start = r.position() * crate::BUFFER_SIZE;
                if start < r.full().len() {
                    Some(
                        r.full().subrange(
                            start as int,
                            if start + crate::BUFFER_SIZE <= r.full().len() {
                                (start + crate::BUFFER_SIZE) as int
                            } else {
                                r.full().len() as int
                            },
                        ),
                    )
                } else {
                    None
                }
            },
            Response::Streamed(s) => if s.frames_queued().len() > 0 {
                Some(s.frames_queued()[0])
            } else {
                None
            },
            Response::Tunnel(_) => None,
            Response::Empty(_) => None,
        }
    }

    /// True once the response has nothing more to write, ever.
    pub open spec fn finished(&self) -> bool {
        match self {
            Response::Buffered(r) => r.position() * crate::BUFFER_SIZE >= r.full().len(),
            Response::Streamed(s) => s.frames_queued().len() == 0 && s.is_ended(),
            Response::Tunnel(t) => t.is_finished(),
            Response::Empty(_) => true,
        }
    }
}

/// The header-map edit for inserting a pair only when the name is absent.
pub open spec fn entry_insert(hs: Seq<HeaderPair>, k: Seq<u8>, v: Seq<u8>) -> Seq<HeaderPair> {
    if key_index(hs, k) is Some {
        hs
    } else {
        hs.push((k, v))
    }
}

/// The header edits made to a response in a keep-alive session: `Connection`
/// is set to `keep-alive` only when the handler left it unset, and
/// `Keep-Alive: timeout=10` names the idle TTL.
pub open spec fn keep_alive_headers(hs: Seq<HeaderPair>) -> Seq<HeaderPair> {
    crate::parser::hdr_insert(
        entry_insert(hs, "connection".spec_bytes(), "keep-alive".spec_bytes()),
        "Keep-Alive".spec_bytes(),
        "timeout=10".spec_bytes(),
    )
}

/// The header edit made to a response on a connection about to close.
pub open spec fn close_headers(hs: Seq<HeaderPair>) -> Seq<HeaderPair> {
    crate::parser::hdr_insert(hs, "Connection".spec_bytes(), "close".spec_bytes())
}

impl Response {
    /// Inserts a header in whatever variant carries one; a raw pass-through
    /// body is not re-serialized, and the empty response has no headers.
    fn insert_header(&mut self, k: &str, v: &str)
        requires
            old(self).wf(),
        ensures
            final(self).wf(),
            ((*old(self)) is Empty ==> (*final(self)) is Empty),
            (!((*old(self)) is Empty) ==> final(self).headers_view() == crate::parser::hdr_insert(
                old(self).headers_view(),
                k.spec_bytes(),
                v.spec_bytes(),
            )),
            variant_preserved(old(self), final(self)),
    {
        match self {
            Response::Buffered(r) => r.set_header(k, v),
            Response::Streamed(s) => s.set_header(k, v),
            Response::Tunnel(t) => t.set_header(k, v),
            Response::Empty(_) => (),
        }
    }

    /// Inserts a header only when the name is absent.
    fn entry_header(&mut self, k: &str, v: &str)
        requires
            old(self).wf(),
        ensures
            final(self).wf(),
            ((*old(self)) is Empty ==> (*final(self)) is Empty),
            (!((*old(self)) is Empty) ==> final(self).headers_view() == entry_insert(
                old(self).headers_view(),
                k.spec_bytes(),
                v.spec_bytes(),
            )),
            variant_preserved(old(self), final(self)),
    {
        match self {
            Response::Buffered(r) => r.entry_header(k, v),
            Response::Streamed(s) => s.entry_header(k, v),
            Response::Tunnel(t) => t.entry_header(k, v),
            Response::Empty(_) => (),
        }
    }

    /// The next bytes to write, without advancing.
    pub fn peek(&mut self) -> (r: Result<Vec<u8>, IterError>)
        requires
            old(self).wf(),
        ensures
            final(self).wf(),
            final(self).head() == old(self).head(),
            final(self).finished() == old(self).finished(),
            final(self).headers_view() == old(self).headers_view(),
            variant_preserved(old(self), final(self)),
            (match r {
                Ok(b) => old(self).head() == Some(b@),
                Err(IterError::WouldBlock) => old(self).head() is None && !old(self).finished(),
                Err(IterError::Finished) => old(self).head() is None && old(self).finished(),
            }),
    {
        match self {
            Response::Buffered(resp) => {
                match resp.peek() {
                    Ok(b) => Ok(b),
                    Err(_) => Err(IterError::Finished),
                }
            },
            Response::Streamed(s) => s.peek(),
            Response::Tunnel(t) => t.peek(),
            Response::Empty(e) => e.peek(),
        }
    }

    /// Advances past the bytes at the head, returning them.
    pub fn next(&mut self) -> (r: Result<Vec<u8>, IterError>)
        requires
            old(self).wf(),
        ensures
            final(self).wf(),
            final(self).headers_view() == old(self).headers_view(),
            variant_preserved(old(self), final(self)),
            (match r {
                Ok(b) => old(self).head() == Some(b@),
                Err(IterError::WouldBlock) => old(self).head() is None && !old(self).finished()
                    && final(self).head() == old(self).head(),
                Err(IterError::Finished) => old(self).head() is None && old(self).finished()
                    && final(self).head() == old(self).head(),
            }),
            ((*old(self)) matches Response::Streamed(s0) ==> ((*final(self))
                matches Response::Streamed(s1) && s1.produced_payloads()
                == s0.produced_payloads() && s1.is_ended() == s0.is_ended() && (
            old(self).head() matches Some(h) ==> s1.emitted_frames()
                == s0.emitted_frames().push(h) && s1.frames_queued()
                == s0.frames_queued().drop_first()) && (old(self).head() is None
                ==> s1.emitted_frames() == s0.emitted_frames() && s1.frames_queued()
                == s0.frames_queued()))),
            ((*old(self)) matches Response::Buffered(b0) ==> ((*final(self))
                matches Response::Buffered(b1) && b1.full() == b0.full() && (
            old(self).head() is Some ==> b1.position() == b0.position() + 1) && (
            old(self).head() is None ==> b1.position() == b0.position()))),
    {
        match self {
            Response::Buffered(resp) => {
                let ghost b0 = **resp;
                let r = resp.next();
                proof {
                    assert(old(self).head() == (if b0.position() * crate::BUFFER_SIZE
                        < b0.full().len() {
                        Some(
                            b0.full().subrange(
                                (b0.position() * crate::BUFFER_SIZE) as int,
                                if b0.position() * crate::BUFFER_SIZE + crate::BUFFER_SIZE
                                    <= b0.full().len() {
                                    (b0.position() * crate::BUFFER_SIZE
                                        + crate::BUFFER_SIZE) as int
                                } else {
                                    b0.full().len() as int
                                },
                            ),
                        )
                    } else {
                        None
                    }));
                }
                match r {
                    Ok(b) => Ok(b),
                    Err(_) => Err(IterError::Finished),
                }
            },
            Response::Streamed(s) => {
                let inner: &mut StreamedResponse = &mut **s;
                let ghost s0 = *inner;
                proof {
                    assert((*old(self)) matches Response::Streamed(x) && x == s0);
                }
                let r = inner.next();
                proof {
                    assert((*final(self)) is Streamed);
                    assert(match r {
                        Ok(f) => s0.frames_queued().len() > 0 && f@ == s0.frames_queued()[0],
                        _ => true,
                    });
                    assert(old(self).head() == (if s0.frames_queued().len() > 0 {
                        Some(s0.frames_queued()[0])
                    } else {
                        None
                    }));
                }
                r
            },
            Response::Tunnel(t) => t.peek(),
            Response::Empty(e) => e.next(),
        }
    }
}

/// Both responses are the same variant.
pub open spec fn variant_preserved(a: &Response, b: &Response) -> bool {
    &&& (a is Buffered <==> b is Buffered)
    &&& (a is Streamed <==> b is Streamed)
    &&& (a is Tunnel <==> b is Tunnel)
    &&& (a is Empty <==> b is Empty)
}

/// True when the request asked to keep the connection open: it carries a
/// `Connection` header whose value is `keep-alive`, without regard to ASCII
/// case on either.
pub open spec fn wants_keep_alive(hs: Seq<HeaderPair>) -> bool {
    &&& key_index(hs, "connection".spec_bytes()) is Some
    &&& fold(lookup_of(hs, "connection".spec_bytes())) == fold("keep-alive".spec_bytes())
}

/// Reads the request's keep-alive choice.
pub fn request_wants_keep_alive(req: &HttpRequest) -> (r: bool)
    ensures
        r == wants_keep_alive(req@.headers),
{
    match req.headers.get("connection") {
        Some(v) => fold_eq_str(&str_to_bytes(v.as_str()), "keep-alive"),
        None => false,
    }
}

/// The lifecycle phase of one connection.
#[derive(Debug, Clone, Copy, PartialEq, Eq, Structural)]
pub enum Phase {
    /// Waiting for request bytes.
    Read,
    /// Writing the response.
    Write,
    /// Done; the connection is to be dropped.
    Finish,
}

/// What feeding bytes to a connection produced.
pub enum ReadOutcome {
    /// The request is still incomplete.
    NeedMore,
    /// A complete request, ready for the handler.
    Ready(HttpRequest),
    /// The bytes were rejected; an error response is staged and the
    /// connection will close after writing it.
    Reject(ParseError),
}

/// The state of one connection.
pub struct Connection {
    phase: Phase,
    ttl_ms: u64,
    builder: HttpRequestBuilder,
    response: Response,
    keep_alive: bool,
}

impl Connection {
    /// The lifecycle phase.
    pub closed spec fn spec_phase(&self) -> Phase {
        self.phase
    }

    /// When the TTL clock was last refreshed, in milliseconds.
    pub closed spec fn spec_ttl(&self) -> u64 {
        self.ttl_ms
    }

    /// Whether the current request asked for keep-alive.
    pub closed spec fn spec_keep_alive(&self) -> bool {
        self.keep_alive
    }

    /// Everything fed to the request parser so far.
    pub closed spec fn spec_fed(&self) -> Seq<u8> {
        self.builder.fed_bytes()
    }

    /// The response being written.
    pub closed spec fn spec_response(&self) -> &Response {
        &self.response
    }

    /// Well-formed: the parser and the response are.
    pub closed spec fn wf(&self) -> bool {
        &&& self.builder.wf()
        &&& self.spec_response().wf()
    }

    /// A fresh connection: reading, with the clock just refreshed.
    pub fn new(now_ms: u64) -> (r: Connection)
        ensures
            r.wf(),
            r.spec_phase() == Phase::Read,
            r.spec_ttl() == now_ms,
            r.spec_fed() == Seq::<u8>::empty(),
            !r.spec_keep_alive(),
    {
        Connection {
            phase: Phase::Read,
            ttl_ms: now_ms,
            builder: HttpRequestBuilder::new(),
            response: Response::Empty(EmptyHttpResponse {}),
            keep_alive: false,
        }
    }

    /// The lifecycle phase.
    pub fn phase(&self) -> (r: Phase)
        ensures
            r == self.spec_phase(),
    {
        self.phase
    }

    /// True when the connection sat idle past the TTL while waiting for a
    /// request; such a connection is closed without a response.  The rule is
    /// suspended while a response is being written.
    pub fn idle_expired(&self, now_ms: u64) -> (r: bool)
        ensures
            r == (self.spec_phase() != Phase::Write && now_ms > self.spec_ttl()
                && now_ms - self.spec_ttl() > KEEP_ALIVE_TTL_MS),
    {
        let in_write = match self.phase {
            Phase::Write => true,
            _ => false,
        };
        !in_write && now_ms > self.ttl_ms && now_ms - self.ttl_ms > KEEP_ALIVE_TTL_MS
    }

    /// Feeds bytes read from the socket.  The clock is refreshed.  A
    /// complete request is handed back with its keep-alive choice recorded;
    /// rejected input stages the error response — its status and body are
    /// the parse error's — and moves to the write phase with keep-alive off.
    pub fn on_data(&mut self, data: Vec<u8>, now_ms: u64) -> (r: ReadOutcome)
        requires
            old(self).wf(),
            old(self).spec_phase() == Phase::Read,
            !(parse_result(old(self).spec_fed()).phase is Failed),
        ensures
            final(self).wf(),
            final(self).spec_ttl() == now_ms,
            final(self).spec_fed() == old(self).spec_fed() + data@,
            ({
                let end = parse_result(old(self).spec_fed() + data@);
                match r {
                    ReadOutcome::NeedMore => {
                        &&& !(end.phase is Failed)
                        &&& !(end.phase is Finish)
                        &&& final(self).spec_phase() == Phase::Read
                        &&& final(self).spec_keep_alive() == old(self).spec_keep_alive()
                        &&& final(self).spec_response() == old(self).spec_response()
                    },
                    ReadOutcome::Ready(req) => {
                        &&& end.phase is Finish
                        &&& req.wf()
                        &&& req@.method == end.method
                        &&& req@.path == end.path
                        &&& req@.args == end.args
                        &&& req@.headers == end.headers
                        &&& req@.body == end.body
                        &&& final(self).spec_phase() == Phase::Read
                        &&& final(self).spec_keep_alive() == wants_keep_alive(end.headers)
                        &&& final(self).spec_response() == old(self).spec_response()
                    },
                    ReadOutcome::Reject(e) => {
                        &&& end.phase == ParsePhase::Failed(e)
                        &&& final(self).spec_phase() == Phase::Write
                        &&& !final(self).spec_keep_alive()
                        &&& final(self).spec_response() is Buffered
                        &&& (final(self).spec_response() matches Response::Buffered(b)
                            ==> b.spec_base().status == crate::parser::error_status(e) && b.body()
                            == crate::parser::error_message_bytes(e))
                    },
                }
            }),
    {
        self.ttl_ms = now_ms;
        match self.builder.append(data) {
            Err(e) => {
                let body = str_to_bytes(e.message());
                let resp = HttpResponse::new(e.status(), body, None);
                self.response = Response::Buffered(resp);
                self.keep_alive = false;
                self.phase = Phase::Write;
                ReadOutcome::Reject(e)
            },
            Ok(_) => {
                if self.builder.done() {
                    match self.builder.get() {
                        Some(req) => {
                            self.keep_alive = request_wants_keep_alive(&req);
                            ReadOutcome::Ready(req)
                        },
                        None => {
                            proof {
                                assert(false);
                            }
                            ReadOutcome::NeedMore
                        },
                    }
                } else {
                    ReadOutcome::NeedMore
                }
            },
        }
    }

    /// Installs the handler's response and moves to the write phase.  On a
    /// keep-alive session the response is sent with `Connection: keep-alive`
    /// — unless the handler set its own `Connection` value — and
    /// `Keep-Alive: timeout=10`; otherwise it is sent with
    /// `Connection: close`.
    pub fn dispatch(&mut self, resp: Response)
        requires
            old(self).wf(),
            resp.wf(),
        ensures
            final(self).wf(),
            final(self).spec_phase() == Phase::Write,
            final(self).spec_keep_alive() == old(self).spec_keep_alive(),
            final(self).spec_ttl() == old(self).spec_ttl(),
            final(self).spec_fed() == old(self).spec_fed(),
            variant_preserved(&resp, final(self).spec_response()),
            (!(resp is Empty) ==> final(self).spec_response().headers_view() == (
            if old(self).spec_keep_alive() {
                keep_alive_headers(resp.headers_view())
            } else {
                close_headers(resp.headers_view())
            })),
    {
        let mut r = resp;
        if self.keep_alive {
            r.entry_header("connection", "keep-alive");
            r.insert_header("Keep-Alive", "timeout=10");
        } else {
            r.insert_header("Connection", "close");
        }
        self.response = r;
        self.phase = Phase::Write;
    }

    /// What the writer should do now.
    pub fn write_step(&mut self) -> (r: Result<Vec<u8>, IterError>)
        requires
            old(self).wf(),
            old(self).spec_phase() == Phase::Write,
        ensures
            final(self).wf(),
            final(self).spec_phase() == Phase::Write,
            final(self).spec_keep_alive() == old(self).spec_keep_alive(),
            final(self).spec_ttl() == old(self).spec_ttl(),
            final(self).spec_fed() == old(self).spec_fed(),
            final(self).spec_response().head() == old(self).spec_response().head(),
            final(self).spec_response().finished() == old(self).spec_response().finished(),
            (match r {
                Ok(b) => old(self).spec_response().head() == Some(b@),
                Err(IterError::WouldBlock) => old(self).spec_response().head() is None && !old(
                    self,
                ).spec_response().finished(),
                Err(IterError::Finished) => old(self).spec_response().head() is None && old(
                    self,
                ).spec_response().finished(),
            }),
    {
        self.response.peek()
    }

    /// Records a successful write: the clock is refreshed and the response
    /// advances past the bytes just written.
    pub fn wrote(&mut self, now_ms: u64)
        requires
            old(self).wf(),
            old(self).spec_phase() == Phase::Write,
        ensures
            final(self).wf(),
            final(self).spec_phase() == Phase::Write,
            final(self).spec_keep_alive() == old(self).spec_keep_alive(),
            final(self).spec_ttl() == now_ms,
            final(self).spec_fed() == old(self).spec_fed(),
            variant_preserved(old(self).spec_response(), final(self).spec_response()),
            final(self).spec_response().headers_view() == old(self).spec_response().headers_view(),
            ((*old(self).spec_response()) matches Response::Buffered(b0) ==> ((*final(self).spec_response()) matches Response::Buffered(b1) && b1.full() == b0.full() && (
            old(self).spec_response().head() is Some ==> b1.position() == b0.position() + 1) && (
            old(self).spec_response().head() is None ==> b1.position() == b0.position()))),
            ((*old(self).spec_response()) matches Response::Streamed(s0) ==> ((*final(self).spec_response()) matches Response::Streamed(s1) && s1.produced_payloads()
                == s0.produced_payloads() && s1.is_ended() == s0.is_ended() && (
            old(self).spec_response().head() matches Some(h) ==> s1.emitted_frames()
                == s0.emitted_frames().push(h) && s1.frames_queued()
                == s0.frames_queued().drop_first()) && (old(self).spec_response().head() is None
                ==> s1.emitted_frames() == s0.emitted_frames() && s1.frames_queued()
                == s0.frames_queued()))),
    {
        self.ttl_ms = now_ms;
        let _ = self.response.next();
    }

    /// Records that the writer is blocked on the response itself (the
    /// producer of a streamed body has not caught up): only refreshes the
    /// clock.
    pub fn touch(&mut self, now_ms: u64)
        requires
            old(self).wf(),
        ensures
            final(self).wf(),
            final(self).spec_ttl() == now_ms,
            final(self).spec_phase() == old(self).spec_phase(),
            final(self).spec_keep_alive() == old(self).spec_keep_alive(),
            final(self).spec_fed() == old(self).spec_fed(),
            final(self).spec_response() == old(self).spec_response(),
    {
        self.ttl_ms = now_ms;
    }

    /// The response is fully written.  On a keep-alive session the
    /// connection resets to read the next request with a fresh parser;
    /// otherwise it finishes and is to be closed.
    pub fn finish_write(&mut self) -> (r: bool)
        requires
            old(self).wf(),
            old(self).spec_phase() == Phase::Write,
        ensures
            final(self).wf(),
            r == old(self).spec_keep_alive(),
            final(self).spec_ttl() == old(self).spec_ttl(),
            (r ==> final(self).spec_phase() == Phase::Read && final(self).spec_fed()
                == Seq::<u8>::empty() && !(parse_result(final(self).spec_fed()).phase is Failed)),
            (!r ==> final(self).spec_phase() == Phase::Finish),
    {
        if self.keep_alive {
            self.phase = Phase::Read;
            self.builder = HttpRequestBuilder::new();
            self.response = Response::Empty(EmptyHttpResponse {});
            proof {
                assert(!crate::parser::p_enabled(p_init()));
            }
            true
        } else {
            self.phase = Phase::Finish;
            false
        }
    }

    /// Hands one producer payload to the streamed response this connection
    /// carries; it is framed and queued for the writer.
    pub fn stream_send(&mut self, payload: Vec<u8>)
        requires
            old(self).wf(),
        ensures
            final(self).wf(),
            variant_preserved(old(self).spec_response(), final(self).spec_response()),
            final(self).spec_phase() == old(self).spec_phase(),
            final(self).spec_keep_alive() == old(self).spec_keep_alive(),
            final(self).spec_ttl() == old(self).spec_ttl(),
            final(self).spec_fed() == old(self).spec_fed(),
            ((*old(self).spec_response()) matches Response::Streamed(s0) ==> (!s0.is_ended()
                ==> ((*final(self).spec_response()) matches Response::Streamed(s1)
                && s1.produced_payloads() == s0.produced_payloads().push(payload@)))),
    {
        match &mut self.response {
            Response::Streamed(s) => {
                if !s.is_over() {
                    s.send(payload);
                }
            },
            _ => (),
        }
    }

    /// Ends the streamed body this connection carries: the terminating
    /// zero-length chunk is queued.
    pub fn stream_end(&mut self)
        requires
            old(self).wf(),
        ensures
            final(self).wf(),
            variant_preserved(old(self).spec_response(), final(self).spec_response()),
            final(self).spec_phase() == old(self).spec_phase(),
            final(self).spec_keep_alive() == old(self).spec_keep_alive(),
            final(self).spec_ttl() == old(self).spec_ttl(),
            final(self).spec_fed() == old(self).spec_fed(),
            ((*old(self).spec_response()) is Streamed ==> ((*final(self).spec_response())
                matches Response::Streamed(s1) && s1.is_ended())),
    {
        match &mut self.response {
            Response::Streamed(s) => {
                if !s.is_over() {
                    s.end();
                }
            },
            _ => (),
        }
    }

    /// Marks the tunnel carried by this connection as closed on one side.
    pub fn tunnel_mark_end(&mut self)
        requires
            old(self).wf(),
        ensures
            final(self).wf(),
            variant_preserved(old(self).spec_response(), final(self).spec_response()),
            final(self).spec_phase() == old(self).spec_phase(),
            (old(self).spec_response() is Tunnel ==> final(self).spec_response().finished()),
    {
        match &mut self.response {
            Response::Tunnel(t) => t.mark_end(),
            _ => (),
        }
    }
}

/// The names the engine touches in a keep-alive session differ under
/// folding: `connection` and `Keep-Alive` disagree at their first byte.
proof fn lemma_conn_ka_distinct()
    ensures
        fold("connection".spec_bytes()) != fold("Keep-Alive".spec_bytes()),
{
    reveal_strlit("connection");
    reveal_strlit("Keep-Alive");
    assert("connection"@.len() == 10);
    assert("Keep-Alive"@.len() == 10);
    assert(vstd::utf8::is_ascii_chars("connection"@)) by {
        let s = "connection"@;
        assert forall|i: int| 0 <= i < 10 implies '\0' <= #[trigger] (s[i]) <= '\u{7f}' by {
            if i == 0 {
                assert(s[0] == 'c');
            } else if i == 1 {
                assert(s[1] == 'o');
            } else if i == 2 {
                assert(s[2] == 'n');
            } else if i == 3 {
                assert(s[3] == 'n');
            } else if i == 4 {
                assert(s[4] == 'e');
            } else if i == 5 {
                assert(s[5] == 'c');
            } else if i == 6 {
                assert(s[6] == 't');
            } else if i == 7 {
                assert(s[7] == 'i');
            } else if i == 8 {
                assert(s[8] == 'o');
            } else {
                assert(s[9] == 'n');
            }
        }
    }
    assert(vstd::utf8::is_ascii_chars("Keep-Alive"@)) by {
        let s = "Keep-Alive"@;
        assert forall|i: int| 0 <= i < 10 implies '\0' <= #[trigger] (s[i]) <= '\u{7f}' by {
            if i == 0 {
                assert(s[0] == 'K');
            } else if i == 1 {
                assert(s[1] == 'e');
            } else if i == 2 {
                assert(s[2] == 'e');
            } else if i == 3 {
                assert(s[3] == 'p');
            } else if i == 4 {
                assert(s[4] == '-');
            } else if i == 5 {
                assert(s[5] == 'A');
            } else if i == 6 {
                assert(s[6] == 'l');
            } else if i == 7 {
                assert(s[7] == 'i');
            } else if i == 8 {
                assert(s[8] == 'v');
            } else {
                assert(s[9] == 'e');
            }
        }
    }
    vstd::utf8::is_ascii_chars_encode_utf8("connection"@);
    vstd::utf8::is_ascii_chars_encode_utf8("Keep-Alive"@);
    assert("connection".spec_bytes()[0] == 'c' as u8);
    assert("Keep-Alive".spec_bytes()[0] == 'K' as u8);
    assert(fold("connection".spec_bytes())[0] == crate::text::fold_byte('c' as u8));
    assert(fold("Keep-Alive".spec_bytes())[0] == crate::text::fold_byte('K' as u8));
    assert(crate::text::fold_byte('c' as u8) == 99);
    assert(crate::text::fold_byte('K' as u8) == 107);
}

/// Keep-alive sessions are announced on every response: after the engine's
/// keep-alive header edits, the response carries a `Connection` header —
/// set to `keep-alive` unless the handler had chosen its own value — and
/// `Keep-Alive: timeout=10`, naming the idle TTL in seconds.
pub proof fn lemma_keep_alive_headers_present(hs: Seq<HeaderPair>)
    ensures
        ({
            let r = keep_alive_headers(hs);
            &&& key_index(r, "connection".spec_bytes()) is Some
            &&& key_index(r, "Keep-Alive".spec_bytes()) is Some
            &&& lookup_of(r, "Keep-Alive".spec_bytes()) == "timeout=10".spec_bytes()
            &&& (key_index(hs, "connection".spec_bytes()) is None ==> lookup_of(
                r,
                "connection".spec_bytes(),
            ) == "keep-alive".spec_bytes())
        }),
{
    let h1 = entry_insert(hs, "connection".spec_bytes(), "keep-alive".spec_bytes());
    crate::headers::lemma_key_index(hs, "connection".spec_bytes());
    if key_index(hs, "connection".spec_bytes()) is None {
        crate::headers::lemma_key_index_push(
            hs,
            ("connection".spec_bytes(), "keep-alive".spec_bytes()),
            "connection".spec_bytes(),
        );
    }
    crate::headers::lemma_key_index(h1, "connection".spec_bytes());
    lemma_conn_ka_distinct();
    crate::headers::lemma_hdr_insert_same(h1, "Keep-Alive".spec_bytes(), "timeout=10".spec_bytes());
    crate::headers::lemma_hdr_insert_other(
        h1,
        "Keep-Alive".spec_bytes(),
        "timeout=10".spec_bytes(),
        "connection".spec_bytes(),
    );
}

} // verus!
