//! The upstream client: serializing a request, preparing the upstream
//! address, and parsing the response that comes back.
//!
//! The response builder is an incremental machine like the request parser's:
//! the executable builder is proved to be the machine run over everything
//! fed to it, so response parsing is insensitive to how the upstream's bytes
//! arrive.

use vstd::prelude::*;

verus! {

use vstd::string::StringSliceAdditionalSpecFns;
use crate::headers::{Headers, HeaderPair};
use crate::parser::hdr_insert;
use crate::response::{BaseResponse, HttpResponse};
use crate::status::{HttpStatus, status_of};
use crate::text::{
    first_crlf,
    line_of,
    rest_of,
    first_byte,
    find_byte,
    byte_split,
    split_on,
    trim_spec,
    trim_bytes,
    fold,
    fold_eq_str,
    is_digits,
    dec_val,
    parse_dec,
    subvec,
    take_line,
    find_crlf,
    string_from_utf8,
    string_bytes,
    str_to_bytes,
    bytes_eq,
    extend_bytes,
    extend_str,
};

/// The scheme of an upstream URL.
#[derive(Debug, Clone, Copy, PartialEq, Eq, Structural)]
pub enum Protocol {
    HTTP,
    HTTPS,
}

/// Why an upstream response was rejected.
#[derive(Debug, Clone, Copy, PartialEq, Eq, Structural)]
pub enum BrewError {
    /// The status line does not have at least three space-separated parts.
    InvalidResponse,
    /// The status code is not a numeral the crate knows.
    InvalidStatus,
    /// A header line has no colon, or a header is not UTF-8.
    InvalidHeader,
    /// The `Content-Length` value is not an unsigned decimal numeral in range.
    InvalidContentLength,
}

impl BrewError {
    /// The message carried by this rejection.
    pub fn message(&self) -> (r: &str)
        ensures
            r.spec_bytes() == brew_error_bytes(*self),
    {
        match self {
            BrewError::InvalidResponse => "Invalid response",
            BrewError::InvalidStatus => "Invalid status",
            BrewError::InvalidHeader => "Invalid header",
            BrewError::InvalidContentLength => "invalid content-length",
        }
    }
}

/// The message carried by a rejection.
pub open spec fn brew_error_bytes(e: BrewError) -> Seq<u8> {
    match e {
        BrewError::InvalidResponse => "Invalid response".spec_bytes(),
        BrewError::InvalidStatus => "Invalid status".spec_bytes(),
        BrewError::InvalidHeader => "Invalid header".spec_bytes(),
        BrewError::InvalidContentLength => "invalid content-length".spec_bytes(),
    }
}

/// The phase of the response machine.
#[derive(Debug, Clone, Copy, PartialEq, Eq, Structural)]
pub enum RespPhase {
    /// Waiting for the status line.
    Init,
    /// Waiting for header lines.
    Headers,
    /// Reading a body delimited by `Content-Length`.
    Body,
    /// The response is complete.
    Finish,
    /// The input was rejected.
    Failed(BrewError),
}

/// The response machine's state.
#[verifier::ext_equal]
pub ghost struct RespState {
    pub phase: RespPhase,
    pub status: HttpStatus,
    pub headers: Seq<HeaderPair>,
    pub body: Seq<u8>,
    pub buffer: Seq<u8>,
    pub body_size: nat,
}

/// The state before any input.
pub open spec fn r_init() -> RespState {
    RespState {
        phase: RespPhase::Init,
        status: HttpStatus::IAmATeapot,
        headers: Seq::empty(),
        body: Seq::empty(),
        buffer: Seq::empty(),
        body_size: 0,
    }
}

/// `s` with `bytes` appended to its buffer.
pub open spec fn r_add(s: RespState, bytes: Seq<u8>) -> RespState {
    RespState { buffer: s.buffer + bytes, ..s }
}

/// True when the machine can take a step on its buffered bytes.
pub open spec fn r_enabled(s: RespState) -> bool {
    match s.phase {
        RespPhase::Init => first_crlf(s.buffer) is Some,
        RespPhase::Headers => first_crlf(s.buffer) is Some,
        RespPhase::Body => s.buffer.len() > 0 && s.body.len() < s.body_size,
        RespPhase::Finish => false,
        RespPhase::Failed(_) => false,
    }
}

/// One step of the machine on the status line.
pub open spec fn r_step_init(s: RespState) -> RespState {
    let line = line_of(s.buffer);
    let rest = rest_of(s.buffer);
    let parts = byte_split(line, 32);
    if parts.len() < 3 {
        RespState { phase: RespPhase::Failed(BrewError::InvalidResponse), buffer: rest, ..s }
    } else if !(parts[1].len() > 0 && is_digits(parts[1]) && dec_val(parts[1]) <= u16::MAX) {
        RespState { phase: RespPhase::Failed(BrewError::InvalidStatus), buffer: rest, ..s }
    } else {
        match status_of(dec_val(parts[1]) as u16) {
            None => RespState {
                phase: RespPhase::Failed(BrewError::InvalidStatus),
                buffer: rest,
                ..s
            },
            Some(st) => RespState {
                phase: RespPhase::Headers,
                status: st,
                buffer: rest,
                ..s
            },
        }
    }
}

/// One step of the machine on a header line.
pub open spec fn r_step_headers(s: RespState) -> RespState {
    let line = line_of(s.buffer);
    let rest = rest_of(s.buffer);
    if line.len() == 0 {
        if s.body_size == 0 {
            RespState { phase: RespPhase::Finish, buffer: rest, ..s }
        } else {
            RespState { phase: RespPhase::Body, buffer: rest, ..s }
        }
    } else {
        match first_byte(line, 58) {
            None => RespState {
                phase: RespPhase::Failed(BrewError::InvalidHeader),
                buffer: rest,
                ..s
            },
            Some(c) => {
                let k = trim_spec(line.subrange(0, c));
                let v = trim_spec(line.subrange(c + 1, line.len() as int));
                if !(vstd::utf8::valid_utf8(k) && vstd::utf8::valid_utf8(v)) {
                    RespState {
                        phase: RespPhase::Failed(BrewError::InvalidHeader),
                        buffer: rest,
                        ..s
                    }
                } else if fold(k) == fold("content-length".spec_bytes()) {
                    if !(v.len() > 0 && is_digits(v) && dec_val(v) <= usize::MAX) {
                        RespState {
                            phase: RespPhase::Failed(BrewError::InvalidContentLength),
                            buffer: rest,
                            ..s
                        }
                    } else {
                        RespState {
                            buffer: rest,
                            body_size: dec_val(v),
                            headers: hdr_insert(s.headers, k, v),
                            ..s
                        }
                    }
                } else {
                    RespState { buffer: rest, headers: hdr_insert(s.headers, k, v), ..s }
                }
            },
        }
    }
}

/// One step of the machine.
pub open spec fn r_step(s: RespState) -> RespState
    recommends
        r_enabled(s),
{
    match s.phase {
        RespPhase::Init => r_step_init(s),
        RespPhase::Headers => r_step_headers(s),
        RespPhase::Body => {
            let b = s.buffer[0];
            let nbody = s.body.push(b);
            RespState {
                phase: if nbody.len() == s.body_size {
                    RespPhase::Finish
                } else {
                    RespPhase::Body
                },
                body: nbody,
                buffer: s.buffer.drop_first(),
                ..s
            }
        },
        RespPhase::Finish => s,
        RespPhase::Failed(_) => s,
    }
}

/// A step consumes buffered bytes.
pub proof fn lemma_r_step_decreases(s: RespState)
    requires
        r_enabled(s),
    ensures
        r_step(s).buffer.len() < s.buffer.len(),
{
    match s.phase {
        RespPhase::Init => {
            crate::text::lemma_first_crlf(s.buffer);
        },
        RespPhase::Headers => {
            crate::text::lemma_first_crlf(s.buffer);
        },
        _ => {},
    }
}

/// Runs the machine as far as the buffered bytes allow.
pub open spec fn r_run(s: RespState) -> RespState
    decreases s.buffer.len(),
    via r_run_decreases_proof
{
    if r_enabled(s) {
        r_run(r_step(s))
    } else {
        s
    }
}

#[via_fn]
proof fn r_run_decreases_proof(s: RespState) {
    if r_enabled(s) {
        lemma_r_step_decreases(s);
    }
}

/// The parse of a complete upstream prefix, from the initial state.
pub open spec fn resp_result(input: Seq<u8>) -> RespState {
    r_run(r_add(r_init(), input))
}

/// An enabled step is insensitive to bytes that arrive after the ones it
/// consumes.
proof fn lemma_r_step_extend(s: RespState, ext: Seq<u8>)
    requires
        r_enabled(s),
    ensures
        r_enabled(r_add(s, ext)),
        r_step(r_add(s, ext)) == r_add(r_step(s), ext),
{
    let sb = s.buffer;
    let eb = sb + ext;
    let e = r_add(s, ext);
    match s.phase {
        RespPhase::Init => {
            lemma_r_line_extend(sb, ext);
            assert(r_step_init(e) =~= r_add(r_step_init(s), ext));
        },
        RespPhase::Headers => {
            lemma_r_line_extend(sb, ext);
            assert(r_step_headers(e) =~= r_add(r_step_headers(s), ext));
        },
        RespPhase::Body => {
            assert(eb[0] == sb[0]);
            assert(eb.drop_first() =~= sb.drop_first() + ext);
            assert(r_step(e) =~= r_add(r_step(s), ext));
        },
        RespPhase::Finish => {},
        RespPhase::Failed(_) => {},
    }
}

/// Line splitting is stable under appended bytes.
proof fn lemma_r_line_extend(sb: Seq<u8>, ext: Seq<u8>)
    requires
        first_crlf(sb) is Some,
    ensures
        first_crlf(sb + ext) == first_crlf(sb),
        line_of(sb + ext) == line_of(sb),
        rest_of(sb + ext) == rest_of(sb) + ext,
{
    crate::text::lemma_first_crlf(sb);
    crate::text::lemma_first_crlf_extend(sb, ext);
    assert(line_of(sb + ext) =~= line_of(sb));
    assert(rest_of(sb + ext) =~= rest_of(sb) + ext);
}

/// Running, appending, and running again is running on everything at once.
pub proof fn lemma_r_run_extend(s: RespState, ext: Seq<u8>)
    ensures
        r_run(r_add(r_run(s), ext)) == r_run(r_add(s, ext)),
    decreases s.buffer.len(),
{
    if r_enabled(s) {
        lemma_r_step_decreases(s);
        lemma_r_step_extend(s, ext);
        lemma_r_run_extend(r_step(s), ext);
    }
}

/// Builder that parses an upstream response incrementally.
pub struct HttpResponseBuilder {
    status: HttpStatus,
    headers: Headers,
    body: Vec<u8>,
    buffer: Vec<u8>,
    state: RespPhase,
    body_size: usize,
    fed: Ghost<Seq<u8>>,
}

impl HttpResponseBuilder {
    /// The machine state the builder stands in.
    pub closed spec fn state(&self) -> RespState {
        RespState {
            phase: self.state,
            status: self.status,
            headers: self.headers.view_seq(),
            body: self.body@,
            buffer: self.buffer@,
            body_size: self.body_size as nat,
        }
    }

    /// All bytes ever fed, in order.
    pub closed spec fn fed_bytes(&self) -> Seq<u8> {
        self.fed@
    }

    /// Internal soundness: the header map has no duplicate names.
    pub closed spec fn inv(&self) -> bool {
        self.headers.wf()
    }

    /// Well-formed: the builder stands exactly where the machine stands
    /// after consuming everything fed so far.
    pub open spec fn wf(&self) -> bool {
        &&& self.inv()
        &&& self.state() == resp_result(self.fed_bytes())
    }

    /// A builder that has seen no input.
    pub fn new() -> (r: HttpResponseBuilder)
        ensures
            r.wf(),
            r.fed_bytes() == Seq::<u8>::empty(),
            r.state() == r_init(),
    {
        let r = HttpResponseBuilder {
            status: HttpStatus::IAmATeapot,
            headers: Headers::new(),
            body: Vec::new(),
            buffer: Vec::new(),
            state: RespPhase::Init,
            body_size: 0,
            fed: Ghost(Seq::empty()),
        };
        proof {
            assert(r.state() =~= r_init());
            assert(r_add(r_init(), Seq::<u8>::empty()) =~= r_init());
        }
        r
    }

    /// Performs one machine step when the buffered bytes allow one.
    #[verifier::rlimit(60)]
    fn step_once(&mut self) -> (r: bool)
        requires
            old(self).inv(),
        ensures
            final(self).inv(),
            final(self).fed_bytes() == old(self).fed_bytes(),
            r ==> r_enabled(old(self).state()) && final(self).state() == r_step(
                old(self).state(),
            ),
            !r ==> final(self).state() == old(self).state() && !r_enabled(old(self).state()),
    {
        let ghost s0 = self.state();
        match self.state {
            RespPhase::Init => {
                let line = match take_line(&mut self.buffer) {
                    Some(l) => l,
                    None => {
                        return false;
                    },
                };
                let ghost gl = line_of(s0.buffer);
                let parts = split_on(&line, 32);
                proof {
                    assert(parts@.map_values(|t: Vec<u8>| t@) == byte_split(gl, 32));
                }
                if parts.len() < 3 {
                    self.state = RespPhase::Failed(BrewError::InvalidResponse);
                    proof {
                        assert(self.state() =~= r_step(s0));
                    }
                    return true;
                }
                proof {
                    assert(parts@[1]@ == byte_split(gl, 32)[1]);
                }
                let n = match parse_dec(&parts[1]) {
                    Some(n) if n <= 65535 => n,
                    _ => {
                        self.state = RespPhase::Failed(BrewError::InvalidStatus);
                        proof {
                            assert(self.state() =~= r_step(s0));
                        }
                        return true;
                    },
                };
                match HttpStatus::from_u16(n as u16) {
                    Ok(st) => {
                        self.status = st;
                        self.state = RespPhase::Headers;
                        proof {
                            assert(self.state() =~= r_step(s0));
                        }
                        true
                    },
                    Err(_) => {
                        self.state = RespPhase::Failed(BrewError::InvalidStatus);
                        proof {
                            assert(self.state() =~= r_step(s0));
                        }
                        true
                    },
                }
            },
            RespPhase::Headers => {
                let line = match take_line(&mut self.buffer) {
                    Some(l) => l,
                    None => {
                        return false;
                    },
                };
                let ghost gl = line_of(s0.buffer);
                if line.len() == 0 {
                    if self.body_size == 0 {
                        self.state = RespPhase::Finish;
                    } else {
                        self.state = RespPhase::Body;
                    }
                    proof {
                        assert(self.state() =~= r_step(s0));
                    }
                    return true;
                }
                let c = match find_byte(&line, 58) {
                    Some(c) => c,
                    None => {
                        self.state = RespPhase::Failed(BrewError::InvalidHeader);
                        proof {
                            assert(self.state() =~= r_step(s0));
                        }
                        return true;
                    },
                };
                proof {
                    crate::text::lemma_first_byte(gl, 58);
                }
                let kb = trim_bytes(&subvec(&line, 0, c));
                let vb = trim_bytes(&subvec(&line, c + 1, line.len()));
                let ghost gk = kb@;
                let ghost gv = vb@;
                let kcopy = subvec(&kb, 0, kb.len());
                proof {
                    assert(kcopy@ =~= gk);
                }
                let ks = match string_from_utf8(kcopy) {
                    Some(s) => s,
                    None => {
                        self.state = RespPhase::Failed(BrewError::InvalidHeader);
                        proof {
                            assert(self.state() =~= r_step(s0));
                        }
                        return true;
                    },
                };
                let vcopy = subvec(&vb, 0, vb.len());
                proof {
                    assert(vcopy@ =~= gv);
                }
                let vs = match string_from_utf8(vcopy) {
                    Some(s) => s,
                    None => {
                        self.state = RespPhase::Failed(BrewError::InvalidHeader);
                        proof {
                            assert(self.state() =~= r_step(s0));
                        }
                        return true;
                    },
                };
                if fold_eq_str(&kb, "content-length") {
                    let n = match parse_dec(&vb) {
                        Some(n) => n,
                        None => {
                            self.state = RespPhase::Failed(BrewError::InvalidContentLength);
                            proof {
                                assert(self.state() =~= r_step(s0));
                            }
                            return true;
                        },
                    };
                    self.body_size = n;
                    self.headers.insert(ks.as_str(), vs.as_str());
                    proof {
                        assert(self.headers.view_seq() == hdr_insert(s0.headers, gk, gv));
                        assert(self.state() =~= r_step(s0));
                    }
                    true
                } else {
                    self.headers.insert(ks.as_str(), vs.as_str());
                    proof {
                        assert(self.headers.view_seq() == hdr_insert(s0.headers, gk, gv));
                        assert(self.state() =~= r_step(s0));
                    }
                    true
                }
            },
            RespPhase::Body => {
                if self.buffer.len() > 0 && self.body.len() < self.body_size {
                    let b = self.buffer.remove(0);
                    self.body.push(b);
                    if self.body.len() == self.body_size {
                        self.state = RespPhase::Finish;
                    }
                    proof {
                        assert(self.buffer@ =~= s0.buffer.drop_first());
                        assert(self.state() =~= r_step(s0));
                    }
                    true
                } else {
                    false
                }
            },
            RespPhase::Finish => false,
            RespPhase::Failed(_) => false,
        }
    }

    /// Feeds a chunk of the upstream's bytes.  `Ok(true)` reports a complete
    /// response; an error means the machine rejected the input.
    pub fn append(&mut self, chunk: &[u8]) -> (r: Result<bool, BrewError>)
        requires
            old(self).wf(),
            !(old(self).state().phase is Failed),
        ensures
            final(self).wf(),
            final(self).fed_bytes() == old(self).fed_bytes() + chunk@,
            (match r {
                Ok(done) => !(final(self).state().phase is Failed) && done == (
                final(self).state().phase is Finish),
                Err(e) => final(self).state().phase == RespPhase::Failed(e),
            }),
    {
        let ghost old_fed = self.fed@;
        let ghost gchunk = chunk@;
        proof {
            self.fed@ = self.fed@ + chunk@;
        }
        let mut c = vstd::slice::slice_to_vec(chunk);
        self.buffer.append(&mut c);
        let ghost target = resp_result(old_fed + gchunk);
        proof {
            let pre = r_add(r_init(), old_fed);
            lemma_r_run_extend(pre, gchunk);
            assert(r_add(pre, gchunk) =~= r_add(r_init(), old_fed + gchunk));
            assert(self.state() =~= r_add(r_run(pre), gchunk));
            assert(r_run(self.state()) == target);
        }
        loop
            invariant
                self.inv(),
                self.fed@ == old_fed + gchunk,
                r_run(self.state()) == target,
            ensures
                self.inv(),
                self.fed@ == old_fed + gchunk,
                self.state() == target,
            decreases self.buffer@.len(),
        {
            let ghost pre = self.state();
            let progressed = self.step_once();
            if !progressed {
                proof {
                    assert(r_run(self.state()) == self.state());
                }
                break;
            }
            proof {
                lemma_r_step_decreases(pre);
                assert(r_run(pre) == r_run(self.state()));
            }
        }
        match self.state {
            RespPhase::Failed(e) => Err(e),
            RespPhase::Finish => Ok(true),
            _ => Ok(false),
        }
    }

    /// The parsed response, once the machine has finished.
    pub fn get(&self) -> (r: Option<HttpResponse>)
        requires
            self.inv(),
        ensures
            match r {
                Some(resp) => self.state().phase is Finish && resp.wf() && !resp.spec_is_raw()
                    && resp.spec_base().status == self.state().status
                    && resp.spec_base().headers.view_seq() == self.state().headers && resp.body()
                    == self.state().body,
                None => !(self.state().phase is Finish),
            },
    {
        match self.state {
            RespPhase::Finish => {
                let base = BaseResponse { status: self.status, headers: self.headers.clone() };
                let body = subvec(&self.body, 0, self.body.len());
                proof {
                    assert(body@ =~= self.body@);
                }
                Some(HttpResponse::new_with_base(base, body))
            },
            _ => None,
        }
    }
}

/// An upstream response parsed in arbitrary pieces is the response parsed
/// from their concatenation: two builders fed the same bytes stand in the
/// same state.
pub proof fn lemma_response_split_invariant(b1: &HttpResponseBuilder, b2: &HttpResponseBuilder)
    requires
        b1.wf(),
        b2.wf(),
        b1.fed_bytes() == b2.fed_bytes(),
    ensures
        b1.state() == b2.state(),
{
}


/// The request-target written on the wire: the path, with the query string
/// appended after `?` when there are arguments; an empty result becomes `/`.
pub open spec fn request_target_bytes(req: crate::request::RequestView) -> Seq<u8> {
    let combined = if req.args.len() == 0 {
        req.path
    } else {
        req.path + seq![63u8] + crate::request::args_query_bytes(req.args)
    };
    if combined.len() == 0 {
        "/".spec_bytes()
    } else {
        combined
    }
}

/// The serialized request: request line, header lines, the body's text when
/// it decodes as UTF-8, and a final empty line.
pub open spec fn request_text_bytes(req: crate::request::RequestView) -> Seq<u8> {
    crate::method::method_bytes(req.method) + seq![32u8] + request_target_bytes(req)
        + " HTTP/1.1".spec_bytes() + seq![13u8, 10u8] + Headers::header_block(req.headers) + (
    if req.body.len() > 0 && vstd::utf8::valid_utf8(req.body) {
        req.body
    } else {
        Seq::<u8>::empty()
    }) + seq![13u8, 10u8, 13u8, 10u8]
}

impl crate::request::HttpRequest {
    /// Serializes the request for the wire.
    pub fn to_string(&self) -> (r: String)
        ensures
            crate::text::string_bytes(r) == request_text_bytes(self@),
    {
        let mut out: Vec<u8> = Vec::new();
        extend_str(&mut out, self.method.to_str());
        out.push(32);
        let mut pb: Vec<u8> = str_to_bytes(self.path.as_str());
        if self.args.len() > 0 {
            pb.push(63);
            self.args.append_query(&mut pb);
        }
        if pb.len() == 0 {
            extend_str(&mut out, "/");
        } else {
            extend_bytes(&mut out, &pb);
        }
        proof {
            assert(out@ =~= crate::method::method_bytes(self@.method) + seq![32u8]
                + request_target_bytes(self@));
        }
        extend_str(&mut out, " HTTP/1.1");
        out.push(13);
        out.push(10);
        self.headers.append_block(&mut out);
        match self.text() {
            Some(t) => extend_str(&mut out, t.as_str()),
            None => (),
        }
        out.push(13);
        out.push(10);
        out.push(13);
        out.push(10);
        proof {
            assert(out@ =~= request_text_bytes(self@));
            lemma_request_text_valid_pieces(self);
        }
        let ghost gout = out@;
        match string_from_utf8(out) {
            Some(r) => r,
            None => {
                proof {
                    assert(false);
                }
                String::new()
            },
        }
    }
}

/// The serialized request built from an actual request value is valid
/// UTF-8: every piece of it comes from a string or is ASCII punctuation.
proof fn lemma_request_text_valid_pieces(req: &crate::request::HttpRequest)
    ensures
        vstd::utf8::valid_utf8(request_text_bytes(req@)),
{
    let v = req@;
    let mb = crate::method::method_bytes(v.method);
    assert(vstd::utf8::valid_utf8(mb)) by {
        match req.method {
            crate::method::HttpMethod::GET => {
                vstd::utf8::encode_utf8_valid_utf8("GET"@);
            },
            crate::method::HttpMethod::POST => {
                vstd::utf8::encode_utf8_valid_utf8("POST"@);
            },
            crate::method::HttpMethod::PUT => {
                vstd::utf8::encode_utf8_valid_utf8("PUT"@);
            },
            crate::method::HttpMethod::DELETE => {
                vstd::utf8::encode_utf8_valid_utf8("DELETE"@);
            },
            crate::method::HttpMethod::PATCH => {
                vstd::utf8::encode_utf8_valid_utf8("PATCH"@);
            },
            crate::method::HttpMethod::HEAD => {
                vstd::utf8::encode_utf8_valid_utf8("HEAD"@);
            },
            crate::method::HttpMethod::OPTIONS => {
                vstd::utf8::encode_utf8_valid_utf8("OPTIONS"@);
            },
            crate::method::HttpMethod::TRACE => {
                vstd::utf8::encode_utf8_valid_utf8("TRACE"@);
            },
            crate::method::HttpMethod::CONNECT => {
                vstd::utf8::encode_utf8_valid_utf8("CONNECT"@);
            },
            crate::method::HttpMethod::Other(m) => {
                vstd::utf8::encode_utf8_valid_utf8(m@);
            },
        }
    }
    assert(vstd::utf8::valid_utf8(v.path)) by {
        vstd::utf8::encode_utf8_valid_utf8(req.path@);
    }
    req.args.lemma_view_valid();
    crate::request::Args::lemma_query_valid(v.args);
    req.headers.lemma_view_valid();
    Headers::lemma_header_block_valid(v.headers);
    let tgt = request_target_bytes(v);
    assert(vstd::utf8::valid_utf8(tgt)) by {
        crate::text::lemma_ascii_valid_utf8(seq![63u8]);
        vstd::utf8::encode_utf8_valid_utf8("/"@);
        if v.args.len() == 0 {
        } else {
            vstd::utf8::valid_utf8_concat(v.path, seq![63u8]);
            vstd::utf8::valid_utf8_concat(
                v.path + seq![63u8],
                crate::request::args_query_bytes(v.args),
            );
        }
    }
    let bodypart = if v.body.len() > 0 && vstd::utf8::valid_utf8(v.body) {
        v.body
    } else {
        Seq::<u8>::empty()
    };
    assert(vstd::utf8::valid_utf8(bodypart)) by {
        if !(v.body.len() > 0 && vstd::utf8::valid_utf8(v.body)) {
            crate::text::lemma_ascii_valid_utf8(Seq::<u8>::empty());
        }
    }
    vstd::utf8::encode_utf8_valid_utf8(" HTTP/1.1"@);
    crate::text::lemma_ascii_valid_utf8(seq![32u8]);
    crate::text::lemma_ascii_valid_utf8(seq![13u8, 10u8]);
    crate::text::lemma_ascii_valid_utf8(seq![13u8, 10u8, 13u8, 10u8]);
    vstd::utf8::valid_utf8_concat(mb, seq![32u8]);
    vstd::utf8::valid_utf8_concat(mb + seq![32u8], tgt);
    vstd::utf8::valid_utf8_concat(mb + seq![32u8] + tgt, " HTTP/1.1".spec_bytes());
    vstd::utf8::valid_utf8_concat(
        mb + seq![32u8] + tgt + " HTTP/1.1".spec_bytes(),
        seq![13u8, 10u8],
    );
    vstd::utf8::valid_utf8_concat(
        mb + seq![32u8] + tgt + " HTTP/1.1".spec_bytes() + seq![13u8, 10u8],
        Headers::header_block(v.headers),
    );
    vstd::utf8::valid_utf8_concat(
        mb + seq![32u8] + tgt + " HTTP/1.1".spec_bytes() + seq![13u8, 10u8]
            + Headers::header_block(v.headers),
        bodypart,
    );
    vstd::utf8::valid_utf8_concat(
        mb + seq![32u8] + tgt + " HTTP/1.1".spec_bytes() + seq![13u8, 10u8]
            + Headers::header_block(v.headers) + bodypart,
        seq![13u8, 10u8, 13u8, 10u8],
    );
}

/// The upstream authority after address preparation: the scheme stripped,
/// `:80` appended when no colon occurs, everything from the first slash cut
/// off, and a leading `localhost` rewritten to the loopback address.
pub open spec fn prepared_addr_bytes(a: Seq<u8>) -> Seq<u8> {
    let a1 = if crate::text::starts_with(a, "http://".spec_bytes()) {
        a.subrange("http://".spec_bytes().len() as int, a.len() as int)
    } else {
        a
    };
    let a2 = if first_byte(a1, 58) is None {
        a1 + ":80".spec_bytes()
    } else {
        a1
    };
    let a3 = byte_split(a2, 47)[0];
    if crate::text::starts_with(a3, "localhost".spec_bytes()) {
        "127.0.0.1".spec_bytes() + a3.subrange(
            "localhost".spec_bytes().len() as int,
            a3.len() as int,
        )
    } else {
        a3
    }
}

/// Prepares an upstream address for connecting: HTTPS is refused, a bare
/// authority gets the default port, and any path part is dropped.
pub fn prepare_addr(addr: &str) -> (r: Result<String, &'static str>)
    ensures
        (match r {
            Ok(s) => !crate::text::starts_with(addr.spec_bytes(), "https://".spec_bytes())
                && crate::text::string_bytes(s) == prepared_addr_bytes(addr.spec_bytes()),
            Err(_) => crate::text::starts_with(addr.spec_bytes(), "https://".spec_bytes()),
        }),
{
    let ghost input = addr.spec_bytes();
    let a = str_to_bytes(addr);
    proof {
        vstd::utf8::encode_utf8_valid_utf8(addr@);
    }
    let a1: Vec<u8>;
    if crate::text::has_prefix(&a, "http://") {
        proof {
            reveal_strlit("http://");
            reveal_strlit("https://");
            vstd::utf8::is_ascii_chars_encode_utf8("http://"@);
            vstd::utf8::is_ascii_chars_encode_utf8("https://"@);
            assert("http://".spec_bytes().len() == 7);
            assert("https://".spec_bytes().len() == 8);
            if crate::text::starts_with(input, "https://".spec_bytes()) {
                // The two scheme prefixes disagree at their fifth byte.
                assert(input[4] == "http://".spec_bytes()[4]);
                assert(input[4] == "https://".spec_bytes()[4]);
                assert("http://"@[4] == ':');
                assert("https://"@[4] == 's');
                assert(false);
            }
            assert forall|j: int| 0 <= j < 7 implies #[trigger] input[j] < 128 by {
                assert(input[j] == "http://".spec_bytes()[j]);
                assert("http://"@[j] as u8 == "http://".spec_bytes()[j]);
            }
            crate::text::lemma_ascii_prefix_split(input, 7);
        }
        a1 = subvec(&a, 7, a.len());
    } else if crate::text::has_prefix(&a, "https://") {
        return Err("HTTPS not implemented yet");
    } else {
        a1 = subvec(&a, 0, a.len());
        proof {
            assert(a1@ =~= input);
        }
    }
    let ghost g1 = a1@;
    proof {
        assert(vstd::utf8::valid_utf8(g1));
        assert(g1 == (if crate::text::starts_with(input, "http://".spec_bytes()) {
            input.subrange(7, input.len() as int)
        } else {
            input
        }));
        assert("http://".spec_bytes().len() == 7) by {
            reveal_strlit("http://");
            vstd::utf8::is_ascii_chars_encode_utf8("http://"@);
        }
    }
    let mut a2 = a1;
    if find_byte(&a2, 58).is_none() {
        extend_str(&mut a2, ":80");
        proof {
            vstd::utf8::encode_utf8_valid_utf8(":80"@);
            vstd::utf8::valid_utf8_concat(g1, ":80".spec_bytes());
        }
    }
    let ghost g2 = a2@;
    let a3: Vec<u8>;
    match find_byte(&a2, 47) {
        Some(p) => {
            proof {
                crate::text::lemma_first_byte(g2, 47);
                crate::text::lemma_ascii_cut(g2, p as int);
            }
            a3 = subvec(&a2, 0, p);
            proof {
                assert(byte_split(g2, 47)[0] == g2.subrange(0, p as int));
            }
        },
        None => {
            let n = a2.len();
            a3 = subvec(&a2, 0, n);
            proof {
                assert(a3@ =~= g2);
                assert(byte_split(g2, 47)[0] == g2);
            }
        },
    }
    let ghost g3 = a3@;
    proof {
        assert(vstd::utf8::valid_utf8(g3));
    }
    let out: Vec<u8>;
    if crate::text::has_prefix(&a3, "localhost") {
        proof {
            reveal_strlit("localhost");
            vstd::utf8::is_ascii_chars_encode_utf8("localhost"@);
            assert("localhost".spec_bytes().len() == 9);
            assert forall|j: int| 0 <= j < 9 implies #[trigger] g3[j] < 128 by {
                assert(g3[j] == "localhost".spec_bytes()[j]);
                assert("localhost"@[j] as u8 == "localhost".spec_bytes()[j]);
            }
            crate::text::lemma_ascii_prefix_split(g3, 9);
        }
        let mut o = str_to_bytes("127.0.0.1");
        let tail = subvec(&a3, 9, a3.len());
        extend_bytes(&mut o, &tail);
        out = o;
        proof {
            vstd::utf8::encode_utf8_valid_utf8("127.0.0.1"@);
            vstd::utf8::valid_utf8_concat(
                "127.0.0.1".spec_bytes(),
                g3.subrange(9, g3.len() as int),
            );
        }
    } else {
        out = a3;
    }
    let ghost gout = out@;
    proof {
        assert(gout == prepared_addr_bytes(input));
        assert(vstd::utf8::valid_utf8(gout));
    }
    match string_from_utf8(out) {
        Some(s) => Ok(s),
        None => {
            proof {
                assert(false);
            }
            Err("HTTPS not implemented yet")
        },
    }
}


/// A parsed URL: scheme, authority, path, and port, all as text.
#[derive(Debug)]
pub struct Url {
    pub scheme: String,
    pub domain: String,
    pub path: String,
    pub port: String,
}

/// Leading `//` pairs removed.
pub open spec fn strip_slashes(a: Seq<u8>) -> Seq<u8>
    decreases a.len(),
{
    if crate::text::starts_with(a, "//".spec_bytes()) && a.len() >= 2 {
        strip_slashes(a.subrange(2, a.len() as int))
    } else {
        a
    }
}

/// The default port of a scheme, as bytes.
pub open spec fn default_port_bytes(scheme: Seq<u8>) -> Seq<u8> {
    if scheme == "tea".spec_bytes() {
        "1234".spec_bytes()
    } else if scheme == "https".spec_bytes() {
        "443".spec_bytes()
    } else {
        "80".spec_bytes()
    }
}

/// Splits a URL into scheme, domain, path and port.  The URL must have a
/// scheme separated by `:`, and its remainder must hold a `/` after the
/// authority; the port is taken from a second `:` part, or defaulted from
/// the scheme.
pub fn parse_url(url: &str) -> (r: Result<Url, &'static str>)
    ensures
        ({
            let parts = byte_split(url.spec_bytes(), 58);
            let dp = strip_slashes(parts[1]);
            match r {
                Ok(u) => {
                    &&& parts.len() >= 2
                    &&& first_byte(dp, 47) is Some
                    &&& string_bytes(u.scheme) == parts[0]
                    &&& string_bytes(u.domain) == dp.subrange(0, first_byte(dp, 47)->Some_0)
                    &&& string_bytes(u.path) == dp.subrange(
                        first_byte(dp, 47)->Some_0 + 1,
                        dp.len() as int,
                    )
                    &&& string_bytes(u.port) == (if parts.len() == 3 {
                        parts[2]
                    } else {
                        default_port_bytes(parts[0])
                    })
                },
                Err(_) => parts.len() < 2 || first_byte(dp, 47) is None,
            }
        }),
{
    let ub = str_to_bytes(url);
    proof {
        vstd::utf8::encode_utf8_valid_utf8(url@);
        crate::text::lemma_byte_split_valid(url.spec_bytes(), 58);
    }
    let parts = split_on(&ub, 58);
    if parts.len() < 2 {
        return Err("Error parsing url");
    }
    proof {
        assert(parts@[0]@ == byte_split(url.spec_bytes(), 58)[0]);
        assert(parts@[1]@ == byte_split(url.spec_bytes(), 58)[1]);
    }
    let scheme_b = subvec(&parts[0], 0, parts[0].len());
    let mut dp = subvec(&parts[1], 0, parts[1].len());
    proof {
        assert(scheme_b@ =~= byte_split(url.spec_bytes(), 58)[0]);
        assert(dp@ =~= byte_split(url.spec_bytes(), 58)[1]);
    }
    while dp.len() >= 2 && dp[0] == 47 && dp[1] == 47
        invariant
            vstd::utf8::valid_utf8(dp@),
            strip_slashes(dp@) == strip_slashes(byte_split(url.spec_bytes(), 58)[1]),
        decreases dp@.len(),
    {
        proof {
            reveal_strlit("//");
            vstd::utf8::is_ascii_chars_encode_utf8("//"@);
            assert("//".spec_bytes().len() == 2);
            assert("//".spec_bytes()[0] == 47 && "//".spec_bytes()[1] == 47);
            assert(dp@.subrange(0, 2) =~= "//".spec_bytes());
            assert(crate::text::starts_with(dp@, "//".spec_bytes()));
            crate::text::lemma_ascii_prefix_split(dp@, 2);
        }
        let nd = subvec(&dp, 2, dp.len());
        dp = nd;
    }
    proof {
        reveal_strlit("//");
        vstd::utf8::is_ascii_chars_encode_utf8("//"@);
        if crate::text::starts_with(dp@, "//".spec_bytes()) {
            assert(dp@.len() >= 2);
            assert(dp@[0] == "//".spec_bytes()[0]);
            assert(dp@[1] == "//".spec_bytes()[1]);
            assert(false);
        }
        assert(strip_slashes(dp@) == dp@);
    }
    let port_b: Vec<u8>;
    if parts.len() == 3 {
        proof {
            assert(parts@[2]@ == byte_split(url.spec_bytes(), 58)[2]);
        }
        port_b = subvec(&parts[2], 0, parts[2].len());
        proof {
            assert(port_b@ =~= byte_split(url.spec_bytes(), 58)[2]);
        }
    } else if bytes_eq(&scheme_b, &str_to_bytes("tea")) {
        port_b = str_to_bytes("1234");
    } else if bytes_eq(&scheme_b, &str_to_bytes("https")) {
        port_b = str_to_bytes("443");
    } else {
        port_b = str_to_bytes("80");
    }
    proof {
        vstd::utf8::encode_utf8_valid_utf8("1234"@);
        vstd::utf8::encode_utf8_valid_utf8("443"@);
        vstd::utf8::encode_utf8_valid_utf8("80"@);
    }
    let slash = match find_byte(&dp, 47) {
        Some(p) => p,
        None => {
            return Err("Error parsing url");
        },
    };
    proof {
        crate::text::lemma_first_byte(dp@, 47);
        crate::text::lemma_ascii_cut(dp@, slash as int);
    }
    let domain_b = subvec(&dp, 0, slash);
    let path_b = subvec(&dp, slash + 1, dp.len());
    let scheme = match string_from_utf8(scheme_b) {
        Some(x) => x,
        None => {
            proof {
                assert(false);
            }
            return Err("Error parsing url");
        },
    };
    let domain = match string_from_utf8(domain_b) {
        Some(x) => x,
        None => {
            proof {
                assert(false);
            }
            return Err("Error parsing url");
        },
    };
    let path = match string_from_utf8(path_b) {
        Some(x) => x,
        None => {
            proof {
                assert(false);
            }
            return Err("Error parsing url");
        },
    };
    let port = match string_from_utf8(port_b) {
        Some(x) => x,
        None => {
            proof {
                assert(false);
            }
            return Err("Error parsing url");
        },
    };
    Ok(Url { scheme, domain, path, port })
}

} // verus!
