//! HTTP responses: the status-line and header block, the buffered response
//! with its fixed body, the streamed response with chunked transfer framing,
//! and the tunnel response that only carries a status block before the
//! connection is handed over.

use vstd::prelude::*;

verus! {

use vstd::string::StringSliceAdditionalSpecFns;
use crate::headers::{Headers, HeaderPair};
use crate::status::{HttpStatus, code_of, reason_bytes};
use crate::text::{
    crlf,
    dec_bytes,
    hex_bytes,
    to_dec,
    to_hex,
    extend_bytes,
    extend_str,
    subvec,
    ascii_to_string,
    string_from_utf8,
    string_bytes,
    lemma_dec_bytes_ascii,
};
use crate::{BUFFER_SIZE, SERVER_VERSION};

/// Error returned while iterating a response's output.
#[derive(Debug, Clone, Copy, PartialEq, Eq, Structural)]
pub enum IterError {
    /// Nothing to write now; ask again later.
    WouldBlock,
    /// The response is fully written.
    Finished,
}

/// The wire bytes of the status line.
pub open spec fn status_line_bytes(st: HttpStatus) -> Seq<u8> {
    "HTTP/1.1 ".spec_bytes() + dec_bytes(code_of(st) as nat) + " ".spec_bytes() + reason_bytes(st)
        + crlf()
}

/// The wire bytes of a status line and header block, ended by an empty line.
pub open spec fn base_bytes(st: HttpStatus, hs: Seq<HeaderPair>) -> Seq<u8> {
    status_line_bytes(st) + Headers::header_block(hs) + crlf()
}

/// The wire bytes of the `Server` header's value.
pub open spec fn server_bytes() -> Seq<u8> {
    "HTeaPot/".spec_bytes() + SERVER_VERSION.spec_bytes()
}

/// Status line plus headers: what every response variant starts with.
#[derive(Debug, Clone)]
pub struct BaseResponse {
    pub status: HttpStatus,
    pub headers: Headers,
}

impl BaseResponse {
    /// Serializes the status line and header block, ended by an empty line.
    pub fn to_bytes(&self) -> (r: Vec<u8>)
        ensures
            r@ == base_bytes(self.status, self.headers.view_seq()),
    {
        let mut out: Vec<u8> = Vec::new();
        extend_str(&mut out, "HTTP/1.1 ");
        let code = to_dec(self.code_u64());
        extend_bytes(&mut out, &code);
        extend_str(&mut out, " ");
        extend_str(&mut out, self.status.to_string());
        out.push(13);
        out.push(10);
        self.headers.append_block(&mut out);
        out.push(13);
        out.push(10);
        proof {
            assert(out@ =~= base_bytes(self.status, self.headers.view_seq()));
        }
        out
    }

    /// The numeric status code, widened.
    fn code_u64(&self) -> (r: u64)
        ensures
            r == code_of(self.status) as u64,
    {
        self.status.code() as u64
    }
}

/// The `Server` header's value.
fn server_header_value() -> (r: String)
    ensures
        string_bytes(r) == server_bytes(),
{
    let mut v: Vec<u8> = Vec::new();
    extend_str(&mut v, "HTeaPot/");
    extend_str(&mut v, SERVER_VERSION);
    proof {
        vstd::utf8::encode_utf8_valid_utf8("HTeaPot/"@);
        vstd::utf8::encode_utf8_valid_utf8(SERVER_VERSION@);
        vstd::utf8::valid_utf8_concat("HTeaPot/".spec_bytes(), SERVER_VERSION.spec_bytes());
    }
    let ghost gv = v@;
    match string_from_utf8(v) {
        Some(s) => s,
        None => {
            proof {
                assert(false);
            }
            String::new()
        },
    }
}

/// The decimal numeral of `n`, as a string.
fn dec_string(n: u64) -> (r: String)
    ensures
        string_bytes(r) == dec_bytes(n as nat),
{
    let d = to_dec(n);
    proof {
        lemma_dec_bytes_ascii(n as nat);
    }
    ascii_to_string(d)
}

/// The full wire bytes of a buffered response: header block, body, and a
/// final CRLF.
pub open spec fn buffered_bytes(st: HttpStatus, hs: Seq<HeaderPair>, body: Seq<u8>) -> Seq<u8> {
    base_bytes(st, hs) + body + crlf()
}

/// A response whose whole body is known at construction.  It serializes
/// lazily and is iterated in slices of at most [`BUFFER_SIZE`] bytes.
#[derive(Debug)]
pub struct HttpResponse {
    base: BaseResponse,
    pub content: Vec<u8>,
    raw: Option<Vec<u8>>,
    is_raw: bool,
    index: usize,
}

impl HttpResponse {
    /// The serialized bytes this response will put on the wire.
    pub closed spec fn full(&self) -> Seq<u8> {
        match self.raw {
            Some(raw) => raw@,
            None => buffered_bytes(self.base.status, self.base.headers.view_seq(), self.content@),
        }
    }

    /// Well-formed: a cached serialization holds exactly the serialized
    /// bytes, and the header map has no duplicate names.
    pub closed spec fn wf(&self) -> bool {
        &&& self.base.headers.wf()
        &&& self.is_raw ==> self.raw is Some
        &&& !self.is_raw ==> (match self.raw {
            Some(raw) => raw@ == buffered_bytes(
                self.base.status,
                self.base.headers.view_seq(),
                self.content@,
            ),
            None => true,
        })
    }

    /// How many output slices have been handed out.
    pub closed spec fn position(&self) -> nat {
        self.index as nat
    }

    /// The status and headers, as a spec-level value.
    pub closed spec fn spec_base(&self) -> BaseResponse {
        self.base
    }

    /// The body bytes.
    pub closed spec fn body(&self) -> Seq<u8> {
        self.content@
    }

    /// True for a raw (pass-through) response.
    pub closed spec fn spec_is_raw(&self) -> bool {
        self.is_raw
    }

    /// The status and headers of the response.
    pub fn base(&self) -> (r: &BaseResponse)
        ensures
            r == self.spec_base(),
    {
        &self.base
    }

    /// A buffered response with the given body.  `Content-Length` is set to
    /// the exact byte count of the body, and `Server` names this crate.
    pub fn new(status: HttpStatus, content: Vec<u8>, headers: Option<Headers>) -> (r: Box<
        HttpResponse,
    >)
        requires
            (match headers {
                Some(h) => h.wf(),
                None => true,
            }),
        ensures
            r.wf(),
            !r.spec_is_raw(),
            r.position() == 0,
            r.spec_base().status == status,
            r.body() == content@,
            r.spec_base().headers.view_seq() == crate::parser::hdr_insert(
                crate::parser::hdr_insert(
                    (match headers {
                        Some(h) => h.view_seq(),
                        None => Seq::<HeaderPair>::empty(),
                    }),
                    "Content-Length".spec_bytes(),
                    dec_bytes(content@.len() as nat),
                ),
                "Server".spec_bytes(),
                server_bytes(),
            ),
    {
        let mut hs = match headers {
            Some(h) => h,
            None => Headers::new(),
        };
        let cl = dec_string(content.len() as u64);
        hs.insert("Content-Length", cl.as_str());
        let sv = server_header_value();
        hs.insert("Server", sv.as_str());
        proof {
            crate::headers::lemma_key_index(hs.view_seq(), "Server".spec_bytes());
        }
        Box::new(HttpResponse { base: BaseResponse { status, headers: hs }, content, raw: None, is_raw: false, index: 0 })
    }

    /// A raw response: the given bytes go on the wire unchanged.
    pub fn new_raw(raw: Vec<u8>) -> (r: HttpResponse)
        ensures
            r.wf(),
            r.spec_is_raw(),
            r.position() == 0,
            r.full() == raw@,
    {
        HttpResponse {
            base: BaseResponse { status: HttpStatus::IAmATeapot, headers: Headers::new() },
            content: Vec::new(),
            raw: Some(raw),
            is_raw: true,
            index: 0,
        }
    }

    /// A response with the given status line and headers around a body read
    /// from an upstream; nothing is added to the headers.
    pub fn new_with_base(base: BaseResponse, content: Vec<u8>) -> (r: HttpResponse)
        requires
            base.headers.wf(),
        ensures
            r.wf(),
            !r.spec_is_raw(),
            r.position() == 0,
            r.spec_base().status == base.status,
            r.spec_base().headers.view_seq() == base.headers.view_seq(),
            r.body() == content@,
    {
        HttpResponse { base, content, raw: None, is_raw: false, index: 0 }
    }

    /// True for a raw (pass-through) response.
    pub fn is_raw(&self) -> (r: bool)
        ensures
            r == self.spec_is_raw(),
    {
        self.is_raw
    }

    /// Serializes the whole response.
    pub fn to_bytes(&self) -> (r: Vec<u8>)
        ensures
            r@ == self.full(),
    {
        match &self.raw {
            Some(raw) => subvec(raw, 0, raw.len()),
            None => {
                let mut out = self.base.to_bytes();
                extend_bytes(&mut out, &self.content);
                out.push(13);
                out.push(10);
                proof {
                    assert(out@ =~= self.full());
                }
                out
            },
        }
    }

    /// The output slice at the current position, without advancing.
    pub fn peek(&mut self) -> (r: Result<Vec<u8>, IterError>)
        requires
            old(self).wf(),
        ensures
            final(self).wf(),
            final(self).full() == old(self).full(),
            final(self).position() == old(self).position(),
            final(self).body() == old(self).body(),
            final(self).spec_base() == old(self).spec_base(),
            final(self).spec_is_raw() == old(self).spec_is_raw(),
            (match r {
                Ok(chunk) => {
                    let start = old(self).position() * BUFFER_SIZE;
                    &&& start < old(self).full().len()
                    &&& chunk@ == old(self).full().subrange(
                        start as int,
                        if start + BUFFER_SIZE <= old(self).full().len() {
                            (start + BUFFER_SIZE) as int
                        } else {
                            old(self).full().len() as int
                        },
                    )
                },
                Err(e) => e == IterError::Finished && old(self).position() * BUFFER_SIZE
                    >= old(self).full().len(),
            }),
            r is Ok ==> old(self).position() < usize::MAX,
    {
        if self.raw.is_none() {
            let ser = self.to_bytes();
            proof {
                assert(ser@ == old(self).full());
            }
            self.raw = Some(ser);
        }
        let full_len = match &self.raw {
            Some(raw) => raw.len(),
            None => 0,
        };
        proof {
            assert(full_len == self.full().len());
        }
        if full_len == 0 {
            return Err(IterError::Finished);
        }
        if self.index > (full_len - 1) / BUFFER_SIZE {
            proof {
                assert(self.index * BUFFER_SIZE >= full_len) by (nonlinear_arith)
                    requires
                        self.index > (full_len - 1) / (BUFFER_SIZE as int),
                        full_len >= 1,
                        BUFFER_SIZE == 2048,
                ;
            }
            return Err(IterError::Finished);
        }
        proof {
            assert(self.index * BUFFER_SIZE <= full_len - 1) by (nonlinear_arith)
                requires
                    self.index <= (full_len - 1) / (BUFFER_SIZE as int),
                    full_len >= 1,
                    BUFFER_SIZE == 2048,
            ;
        }
        let start = self.index * BUFFER_SIZE;
        let stop = if full_len - start > BUFFER_SIZE {
            start + BUFFER_SIZE
        } else {
            full_len
        };
        match &self.raw {
            Some(raw) => Ok(subvec(raw, start, stop)),
            None => {
                proof {
                    assert(false);
                }
                Err(IterError::Finished)
            },
        }
    }

    /// The output slice at the current position; advances past it.
    pub fn next(&mut self) -> (r: Result<Vec<u8>, IterError>)
        requires
            old(self).wf(),
        ensures
            final(self).wf(),
            final(self).full() == old(self).full(),
            final(self).body() == old(self).body(),
            final(self).spec_base() == old(self).spec_base(),
            final(self).spec_is_raw() == old(self).spec_is_raw(),
            (match r {
                Ok(chunk) => {
                    let start = old(self).position() * BUFFER_SIZE;
                    &&& start < old(self).full().len()
                    &&& chunk@ == old(self).full().subrange(
                        start as int,
                        if start + BUFFER_SIZE <= old(self).full().len() {
                            (start + BUFFER_SIZE) as int
                        } else {
                            old(self).full().len() as int
                        },
                    )
                    &&& final(self).position() == old(self).position() + 1
                },
                Err(e) => e == IterError::Finished && old(self).position() * BUFFER_SIZE
                    >= old(self).full().len() && final(self).position() == old(self).position(),
            }),
    {
        let chunk = self.peek();
        match chunk {
            Ok(c) => {
                proof {
                    assert(self.index < usize::MAX);
                }
                self.index = self.index + 1;
                Ok(c)
            },
            Err(e) => Err(e),
        }
    }
}

/// A response that writes nothing: the placeholder before a real response is
/// chosen.
#[derive(Debug)]
pub struct EmptyHttpResponse {}

impl EmptyHttpResponse {
    /// There is never anything to write.
    pub fn peek(&self) -> (r: Result<Vec<u8>, IterError>)
        ensures
            r == Result::<Vec<u8>, IterError>::Err(IterError::Finished),
    {
        Err(IterError::Finished)
    }

    /// There is never anything to write.
    pub fn next(&self) -> (r: Result<Vec<u8>, IterError>)
        ensures
            r == Result::<Vec<u8>, IterError>::Err(IterError::Finished),
    {
        Err(IterError::Finished)
    }
}

/// The chunked-transfer framing of one payload: its length in upper-case
/// hexadecimal, CRLF, the payload, CRLF.
pub open spec fn chunk_frame(p: Seq<u8>) -> Seq<u8> {
    hex_bytes(p.len() as nat) + crlf() + p + crlf()
}

/// The frame that ends a chunked body: a zero-length chunk.
pub open spec fn terminator_frame() -> Seq<u8> {
    seq![48u8] + crlf() + crlf()
}

/// Frames one payload in chunked transfer coding.
pub fn encode_chunk(payload: &Vec<u8>) -> (r: Vec<u8>)
    ensures
        r@ == chunk_frame(payload@),
{
    let mut out = to_hex(payload.len() as u64);
    out.push(13);
    out.push(10);
    extend_bytes(&mut out, payload);
    out.push(13);
    out.push(10);
    proof {
        assert(out@ =~= chunk_frame(payload@));
    }
    out
}

/// The zero-length chunk that ends a chunked body.
pub fn encode_terminator() -> (r: Vec<u8>)
    ensures
        r@ == terminator_frame(),
{
    let mut out: Vec<u8> = Vec::new();
    out.push(48);
    out.push(13);
    out.push(10);
    out.push(13);
    out.push(10);
    proof {
        assert(out@ =~= terminator_frame());
    }
    out
}

/// A response whose body is produced incrementally and put on the wire in
/// chunked transfer coding.  Payloads are framed as they are accepted and
/// queued; the connection's writer drains the queue in order.
pub struct StreamedResponse {
    base: BaseResponse,
    queue: Vec<Vec<u8>>,
    ended: bool,
    hdr_frame: Ghost<Seq<u8>>,
    produced: Ghost<Seq<Seq<u8>>>,
    emitted: Ghost<Seq<Seq<u8>>>,
}

impl StreamedResponse {
    /// The status and headers, as a spec-level value.
    pub closed spec fn spec_base(&self) -> BaseResponse {
        self.base
    }

    /// The frames queued and not yet emitted, in order.
    pub closed spec fn frames_queued(&self) -> Seq<Seq<u8>> {
        self.queue@.map_values(|f: Vec<u8>| f@)
    }

    /// The payloads accepted from the producer, in order.
    pub closed spec fn produced_payloads(&self) -> Seq<Seq<u8>> {
        self.produced@
    }

    /// The frames already handed to the writer, in order.
    pub closed spec fn emitted_frames(&self) -> Seq<Seq<u8>> {
        self.emitted@
    }

    /// True once the producer has finished and the zero chunk is queued.
    pub closed spec fn is_ended(&self) -> bool {
        self.ended
    }

    /// The header block queued when the stream was created.  Later header
    /// edits change the map carried alongside, but the block already queued
    /// for the wire stays as it was.
    pub closed spec fn header_frame(&self) -> Seq<u8> {
        self.hdr_frame@
    }

    /// The whole output of the stream: the header block, then every accepted
    /// payload in chunked framing in order, then — once ended — the
    /// terminating zero-length chunk.
    pub open spec fn stream_frames(&self) -> Seq<Seq<u8>> {
        seq![self.header_frame()] + self.produced_payloads().map_values(
            |p: Seq<u8>| chunk_frame(p),
        ) + (if self.is_ended() {
            seq![terminator_frame()]
        } else {
            Seq::<Seq<u8>>::empty()
        })
    }

    /// Well-formed: what was emitted followed by what is queued is exactly
    /// the stream's output so far.
    pub open spec fn wf(&self) -> bool {
        &&& self.spec_base().headers.wf()
        &&& self.emitted_frames() + self.frames_queued() == self.stream_frames()
    }

    /// A fresh stream.  The headers announce chunked transfer coding and the
    /// `Server` name, and the header block is the first queued frame.
    pub fn new() -> (r: Box<StreamedResponse>)
        ensures
            r.wf(),
            !r.is_ended(),
            r.produced_payloads() == Seq::<Seq<u8>>::empty(),
            r.emitted_frames() == Seq::<Seq<u8>>::empty(),
            r.spec_base().status == HttpStatus::OK,
            r.spec_base().headers.view_seq() == crate::parser::hdr_insert(
                crate::parser::hdr_insert(
                    Seq::<HeaderPair>::empty(),
                    "Transfer-Encoding".spec_bytes(),
                    "chunked".spec_bytes(),
                ),
                "Server".spec_bytes(),
                server_bytes(),
            ),
            r.header_frame() == base_bytes(
                HttpStatus::OK,
                r.spec_base().headers.view_seq(),
            ),
    {
        let mut hs = Headers::new();
        hs.insert("Transfer-Encoding", "chunked");
        let sv = server_header_value();
        hs.insert("Server", sv.as_str());
        let base = BaseResponse { status: HttpStatus::OK, headers: hs };
        let first = base.to_bytes();
        let ghost gframe = first@;
        let mut queue: Vec<Vec<u8>> = Vec::new();
        queue.push(first);
        let r = StreamedResponse {
            base,
            queue,
            ended: false,
            hdr_frame: Ghost(gframe),
            produced: Ghost(Seq::empty()),
            emitted: Ghost(Seq::empty()),
        };
        proof {
            assert(r.emitted_frames() + r.frames_queued() =~= r.stream_frames());
        }
        Box::new(r)
    }

    /// Accepts one payload from the producer and queues its frame.
    pub fn send(&mut self, msg: Vec<u8>)
        requires
            old(self).wf(),
            !old(self).is_ended(),
        ensures
            final(self).wf(),
            !final(self).is_ended(),
            final(self).spec_base() == old(self).spec_base(),
            final(self).header_frame() == old(self).header_frame(),
            final(self).produced_payloads() == old(self).produced_payloads().push(msg@),
            final(self).emitted_frames() == old(self).emitted_frames(),
            final(self).frames_queued() == old(self).frames_queued().push(chunk_frame(msg@)),
    {
        let frame = encode_chunk(&msg);
        self.queue.push(frame);
        proof {
            self.produced@ = self.produced@ + seq![msg@];
            assert(self.produced_payloads() =~= old(self).produced_payloads().push(msg@));
            assert(self.frames_queued() =~= old(self).frames_queued().push(chunk_frame(msg@)));
            assert(self.produced_payloads().map_values(|p: Seq<u8>| chunk_frame(p))
                =~= old(self).produced_payloads().map_values(|p: Seq<u8>| chunk_frame(p)).push(
                chunk_frame(msg@),
            ));
            assert(self.stream_frames() =~= old(self).stream_frames().push(chunk_frame(msg@)));
            assert(self.emitted_frames() + self.frames_queued() =~= (old(self).emitted_frames()
                + old(self).frames_queued()).push(chunk_frame(msg@)));
        }
    }

    /// True once the producer has finished.
    pub fn is_over(&self) -> (r: bool)
        ensures
            r == self.is_ended(),
    {
        self.ended
    }

    /// Ends the body: queues the terminating zero-length chunk.
    pub fn end(&mut self)
        requires
            old(self).wf(),
            !old(self).is_ended(),
        ensures
            final(self).wf(),
            final(self).is_ended(),
            final(self).spec_base() == old(self).spec_base(),
            final(self).header_frame() == old(self).header_frame(),
            final(self).produced_payloads() == old(self).produced_payloads(),
            final(self).emitted_frames() == old(self).emitted_frames(),
            final(self).frames_queued() == old(self).frames_queued().push(terminator_frame()),
    {
        let t = encode_terminator();
        self.queue.push(t);
        self.ended = true;
        proof {
            assert(self.frames_queued() =~= old(self).frames_queued().push(terminator_frame()));
            assert(self.stream_frames() =~= old(self).stream_frames().push(terminator_frame()));
            assert(self.emitted_frames() + self.frames_queued() =~= (old(self).emitted_frames()
                + old(self).frames_queued()).push(terminator_frame()));
        }
    }

    /// The next frame to write, without removing it.  `WouldBlock` while the
    /// producer may still add payloads, `Finished` once the stream is ended
    /// and drained.
    pub fn peek(&self) -> (r: Result<Vec<u8>, IterError>)
        ensures
            (match r {
                Ok(frame) => self.frames_queued().len() > 0 && frame@ == self.frames_queued()[0],
                Err(IterError::WouldBlock) => self.frames_queued().len() == 0
                    && !self.is_ended(),
                Err(IterError::Finished) => self.frames_queued().len() == 0 && self.is_ended(),
            }),
    {
        if self.queue.len() == 0 {
            if self.ended {
                Err(IterError::Finished)
            } else {
                Err(IterError::WouldBlock)
            }
        } else {
            let f = &self.queue[0];
            Ok(subvec(f, 0, f.len()))
        }
    }

    /// Removes the frame at the head of the queue and counts it as emitted.
    pub fn next(&mut self) -> (r: Result<Vec<u8>, IterError>)
        requires
            old(self).wf(),
        ensures
            final(self).wf(),
            final(self).spec_base() == old(self).spec_base(),
            final(self).header_frame() == old(self).header_frame(),
            final(self).produced_payloads() == old(self).produced_payloads(),
            final(self).is_ended() == old(self).is_ended(),
            (match r {
                Ok(frame) => old(self).frames_queued().len() > 0 && frame@ == old(
                    self,
                ).frames_queued()[0] && final(self).emitted_frames() == old(
                    self,
                ).emitted_frames().push(frame@) && final(self).frames_queued() == old(
                    self,
                ).frames_queued().drop_first(),
                Err(IterError::WouldBlock) => old(self).frames_queued().len() == 0 && !old(
                    self,
                ).is_ended() && final(self).emitted_frames() == old(self).emitted_frames()
                    && final(self).frames_queued() == old(self).frames_queued(),
                Err(IterError::Finished) => old(self).frames_queued().len() == 0 && old(
                    self,
                ).is_ended() && final(self).emitted_frames() == old(self).emitted_frames()
                    && final(self).frames_queued() == old(self).frames_queued(),
            }),
    {
        if self.queue.len() == 0 {
            if self.ended {
                Err(IterError::Finished)
            } else {
                Err(IterError::WouldBlock)
            }
        } else {
            let f = self.queue.remove(0);
            proof {
                self.emitted@ = self.emitted@ + seq![f@];
                assert(self.emitted_frames() =~= old(self).emitted_frames().push(f@));
                assert(self.frames_queued() =~= old(self).frames_queued().drop_first());
                assert(self.emitted_frames() + self.frames_queued() =~= old(
                    self,
                ).emitted_frames() + old(self).frames_queued());
            }
            Ok(f)
        }
    }
}

/// Once a stream has ended and its queue is drained, the frames emitted are
/// exactly: the header block; then each payload the producer sent, in order,
/// in chunked framing (its length in hexadecimal, CRLF, the payload, CRLF);
/// then the terminating zero-length chunk.  Stripping the framing, the body
/// carried on the wire is the concatenation of the produced payloads in
/// order, ended by the zero-length chunk.
pub proof fn lemma_streamed_body_exact(s: &StreamedResponse)
    requires
        s.wf(),
        s.is_ended(),
        s.frames_queued().len() == 0,
    ensures
        s.emitted_frames() == seq![s.header_frame()] + s.produced_payloads().map_values(
            |p: Seq<u8>| chunk_frame(p),
        ) + seq![terminator_frame()],
{
    assert(s.emitted_frames() =~= s.emitted_frames() + s.frames_queued());
}

/// The two header names every buffered response sets differ under folding.
proof fn lemma_cl_server_distinct()
    ensures
        crate::text::fold("Content-Length".spec_bytes()) != crate::text::fold(
            "Server".spec_bytes(),
        ),
{
    reveal_strlit("Content-Length");
    reveal_strlit("Server");
    assert("Content-Length"@.len() == 14);
    assert("Server"@.len() == 6);
    assert(vstd::utf8::is_ascii_chars("Server"@)) by {
        assert forall|i: int| 0 <= i < 6 implies '\0' <= #[trigger] ("Server"@[i])
            <= '\u{7f}' by {
            if i == 0 {
                assert("Server"@[0] == 'S');
            } else if i == 1 {
                assert("Server"@[1] == 'e');
            } else if i == 2 {
                assert("Server"@[2] == 'r');
            } else if i == 3 {
                assert("Server"@[3] == 'v');
            } else if i == 4 {
                assert("Server"@[4] == 'e');
            } else {
                assert("Server"@[5] == 'r');
            }
        }
    }
    assert(vstd::utf8::is_ascii_chars("Content-Length"@)) by {
        let s = "Content-Length"@;
        assert forall|i: int| 0 <= i < 14 implies '\0' <= #[trigger] (s[i]) <= '\u{7f}' by {
            if i == 0 {
                assert(s[0] == 'C');
            } else if i == 1 {
                assert(s[1] == 'o');
            } else if i == 2 {
                assert(s[2] == 'n');
            } else if i == 3 {
                assert(s[3] == 't');
            } else if i == 4 {
                assert(s[4] == 'e');
            } else if i == 5 {
                assert(s[5] == 'n');
            } else if i == 6 {
                assert(s[6] == 't');
            } else if i == 7 {
                assert(s[7] == '-');
            } else if i == 8 {
                assert(s[8] == 'L');
            } else if i == 9 {
                assert(s[9] == 'e');
            } else if i == 10 {
                assert(s[10] == 'n');
            } else if i == 11 {
                assert(s[11] == 'g');
            } else if i == 12 {
                assert(s[12] == 't');
            } else {
                assert(s[13] == 'h');
            }
        }
    }
    vstd::utf8::is_ascii_chars_encode_utf8("Server"@);
    vstd::utf8::is_ascii_chars_encode_utf8("Content-Length"@);
    assert("Server".spec_bytes().len() == 6);
    assert("Content-Length".spec_bytes().len() == 14);
    // Folding keeps length, so names of different lengths never collide.
    assert(crate::text::fold("Server".spec_bytes()).len() == 6);
    assert(crate::text::fold("Content-Length".spec_bytes()).len() == 14);
}

/// Every buffered response carries a `Content-Length` header equal to the
/// exact byte count of its body: in the header sequence
/// [`HttpResponse::new`] builds over any starting headers, the name
/// `Content-Length` is present and holds the decimal numeral of the body's
/// length.
pub proof fn lemma_content_length_exact(h0: Seq<HeaderPair>, body: Seq<u8>)
    ensures
        ({
            let hs = crate::parser::hdr_insert(
                crate::parser::hdr_insert(
                    h0,
                    "Content-Length".spec_bytes(),
                    dec_bytes(body.len() as nat),
                ),
                "Server".spec_bytes(),
                server_bytes(),
            );
            &&& crate::headers::key_index(hs, "Content-Length".spec_bytes()) is Some
            &&& crate::headers::lookup_of(hs, "Content-Length".spec_bytes()) == dec_bytes(
                body.len() as nat,
            )
        }),
{
    let h1 = crate::parser::hdr_insert(
        h0,
        "Content-Length".spec_bytes(),
        dec_bytes(body.len() as nat),
    );
    crate::headers::lemma_hdr_insert_same(
        h0,
        "Content-Length".spec_bytes(),
        dec_bytes(body.len() as nat),
    );
    lemma_cl_server_distinct();
    crate::headers::lemma_hdr_insert_other(
        h1,
        "Server".spec_bytes(),
        server_bytes(),
        "Content-Length".spec_bytes(),
    );
}

/// A response that hands the connection over: it carries a bare `200 OK`
/// block, and after that block is written the engine treats the connection
/// as busy until the copy outside signals that either side closed.
#[derive(Debug)]
pub struct TunnelResponse {
    base: BaseResponse,
    addr: String,
    finished: bool,
}

impl TunnelResponse {
    /// The status and headers, as a spec-level value.
    pub closed spec fn spec_base(&self) -> BaseResponse {
        self.base
    }

    /// The upstream `host:port` the tunnel should be opened to.
    pub closed spec fn upstream_bytes(&self) -> Seq<u8> {
        string_bytes(self.addr)
    }

    /// True once either side of the tunnel has closed.
    pub closed spec fn is_finished(&self) -> bool {
        self.finished
    }

    /// A tunnel to the given upstream address: a bare `200 OK`.
    pub fn new(addr: &str) -> (r: Box<TunnelResponse>)
        ensures
            r.spec_base().status == HttpStatus::OK,
            r.spec_base().headers.view_seq() == Seq::<HeaderPair>::empty(),
            r.spec_base().headers.wf(),
            r.upstream_bytes() == addr.spec_bytes(),
            !r.is_finished(),
    {
        Box::new(
            TunnelResponse {
                base: BaseResponse { status: HttpStatus::OK, headers: Headers::new() },
                addr: <String as vstd::string::StringExecFns>::from_str(addr),
                finished: false,
            },
        )
    }

    /// The single block the tunnel writes: `HTTP/1.1 200 OK` and an empty
    /// header block.
    pub fn header_block(&self) -> (r: Vec<u8>)
        ensures
            r@ == base_bytes(self.spec_base().status, self.spec_base().headers.view_seq()),
    {
        self.base.to_bytes()
    }

    /// The upstream `host:port` string.
    pub fn upstream(&self) -> (r: &String)
        ensures
            string_bytes(*r) == self.upstream_bytes(),
    {
        &self.addr
    }

    /// Records that one side of the tunnel closed.
    pub fn mark_end(&mut self)
        ensures
            final(self).is_finished(),
            final(self).spec_base() == old(self).spec_base(),
            final(self).upstream_bytes() == old(self).upstream_bytes(),
    {
        self.finished = true;
    }

    /// `WouldBlock` while both directions stay open, `Finished` once either
    /// side closed.
    pub fn peek(&self) -> (r: Result<Vec<u8>, IterError>)
        ensures
            (match r {
                Ok(_) => false,
                Err(IterError::WouldBlock) => !self.is_finished(),
                Err(IterError::Finished) => self.is_finished(),
            }),
    {
        if self.finished {
            Err(IterError::Finished)
        } else {
            Err(IterError::WouldBlock)
        }
    }
}


impl HttpResponse {
    /// Inserts a header.  A not-yet-written cached serialization is dropped
    /// so the next write reflects the edit; the raw pass-through body stays
    /// as it is.
    pub fn set_header(&mut self, k: &str, v: &str)
        requires
            old(self).wf(),
        ensures
            final(self).wf(),
            final(self).spec_base().status == old(self).spec_base().status,
            final(self).spec_base().headers.view_seq() == crate::parser::hdr_insert(
                old(self).spec_base().headers.view_seq(),
                k.spec_bytes(),
                v.spec_bytes(),
            ),
            final(self).body() == old(self).body(),
            final(self).spec_is_raw() == old(self).spec_is_raw(),
            final(self).position() == old(self).position(),
            (old(self).spec_is_raw() ==> final(self).full() == old(self).full()),
    {
        if !self.is_raw {
            self.raw = None;
        }
        self.base.headers.insert(k, v);
        proof {
            crate::headers::lemma_key_index(
                old(self).spec_base().headers.view_seq(),
                k.spec_bytes(),
            );
        }
    }

    /// Inserts a header only when the name is absent.
    pub fn entry_header(&mut self, k: &str, v: &str)
        requires
            old(self).wf(),
        ensures
            final(self).wf(),
            final(self).spec_base().status == old(self).spec_base().status,
            final(self).spec_base().headers.view_seq() == (
            if crate::headers::key_index(
                old(self).spec_base().headers.view_seq(),
                k.spec_bytes(),
            ) is Some {
                old(self).spec_base().headers.view_seq()
            } else {
                old(self).spec_base().headers.view_seq().push((k.spec_bytes(), v.spec_bytes()))
            }),
            final(self).body() == old(self).body(),
            final(self).spec_is_raw() == old(self).spec_is_raw(),
            final(self).position() == old(self).position(),
            (old(self).spec_is_raw() ==> final(self).full() == old(self).full()),
    {
        if !self.is_raw {
            self.raw = None;
        }
        self.base.headers.entry(k, v);
        proof {
            crate::headers::lemma_key_index(
                old(self).spec_base().headers.view_seq(),
                k.spec_bytes(),
            );
        }
    }
}

impl StreamedResponse {
    /// Inserts a header into the carried map.  The header block already
    /// queued for the wire stays as it was when the stream was created.
    pub fn set_header(&mut self, k: &str, v: &str)
        requires
            old(self).wf(),
        ensures
            final(self).wf(),
            final(self).spec_base().status == old(self).spec_base().status,
            final(self).spec_base().headers.view_seq() == crate::parser::hdr_insert(
                old(self).spec_base().headers.view_seq(),
                k.spec_bytes(),
                v.spec_bytes(),
            ),
            final(self).header_frame() == old(self).header_frame(),
            final(self).produced_payloads() == old(self).produced_payloads(),
            final(self).emitted_frames() == old(self).emitted_frames(),
            final(self).frames_queued() == old(self).frames_queued(),
            final(self).is_ended() == old(self).is_ended(),
    {
        self.base.headers.insert(k, v);
        proof {
            crate::headers::lemma_key_index(
                old(self).spec_base().headers.view_seq(),
                k.spec_bytes(),
            );
            assert(final(self).frames_queued() =~= old(self).frames_queued());
        }
    }

    /// Inserts a header only when the name is absent.
    pub fn entry_header(&mut self, k: &str, v: &str)
        requires
            old(self).wf(),
        ensures
            final(self).wf(),
            final(self).spec_base().status == old(self).spec_base().status,
            final(self).spec_base().headers.view_seq() == (
            if crate::headers::key_index(
                old(self).spec_base().headers.view_seq(),
                k.spec_bytes(),
            ) is Some {
                old(self).spec_base().headers.view_seq()
            } else {
                old(self).spec_base().headers.view_seq().push((k.spec_bytes(), v.spec_bytes()))
            }),
            final(self).header_frame() == old(self).header_frame(),
            final(self).produced_payloads() == old(self).produced_payloads(),
            final(self).emitted_frames() == old(self).emitted_frames(),
            final(self).frames_queued() == old(self).frames_queued(),
            final(self).is_ended() == old(self).is_ended(),
    {
        self.base.headers.entry(k, v);
        proof {
            crate::headers::lemma_key_index(
                old(self).spec_base().headers.view_seq(),
                k.spec_bytes(),
            );
            assert(final(self).frames_queued() =~= old(self).frames_queued());
        }
    }
}

impl TunnelResponse {
    /// Well-formed: the header map has no duplicate names.
    pub open spec fn wf(&self) -> bool {
        self.spec_base().headers.wf()
    }

    /// Inserts a header; it will appear in the status block the tunnel
    /// writes.
    pub fn set_header(&mut self, k: &str, v: &str)
        requires
            old(self).wf(),
        ensures
            final(self).wf(),
            final(self).spec_base().status == old(self).spec_base().status,
            final(self).spec_base().headers.view_seq() == crate::parser::hdr_insert(
                old(self).spec_base().headers.view_seq(),
                k.spec_bytes(),
                v.spec_bytes(),
            ),
            final(self).upstream_bytes() == old(self).upstream_bytes(),
            final(self).is_finished() == old(self).is_finished(),
    {
        self.base.headers.insert(k, v);
        proof {
            crate::headers::lemma_key_index(
                old(self).spec_base().headers.view_seq(),
                k.spec_bytes(),
            );
        }
    }

    /// Inserts a header only when the name is absent.
    pub fn entry_header(&mut self, k: &str, v: &str)
        requires
            old(self).wf(),
        ensures
            final(self).wf(),
            final(self).spec_base().status == old(self).spec_base().status,
            final(self).spec_base().headers.view_seq() == (
            if crate::headers::key_index(
                old(self).spec_base().headers.view_seq(),
                k.spec_bytes(),
            ) is Some {
                old(self).spec_base().headers.view_seq()
            } else {
                old(self).spec_base().headers.view_seq().push((k.spec_bytes(), v.spec_bytes()))
            }),
            final(self).upstream_bytes() == old(self).upstream_bytes(),
            final(self).is_finished() == old(self).is_finished(),
    {
        self.base.headers.entry(k, v);
        proof {
            crate::headers::lemma_key_index(
                old(self).spec_base().headers.view_seq(),
                k.spec_bytes(),
            );
        }
    }
}

} // verus!
