//! The incremental request parser.
//!
//! The meaning of parsing is given by a small-step machine over ghost state
//! ([`ParseState`], [`p_step`], [`p_run`]): each step consumes bytes from the
//! front of the machine's buffer, and running the machine drives it as far as
//! the buffered bytes allow.  The executable [`HttpRequestBuilder`] is proved
//! to be exactly that machine run over the concatenation of everything fed to
//! it — which is what makes parsing insensitive to how the input is split
//! into chunks.

use vstd::prelude::*;

verus! {

use vstd::string::StringSliceAdditionalSpecFns;
use vstd::utf8::valid_utf8;
use crate::headers::{HeaderPair, key_index};
use crate::method::{MethodView, method_of};
use crate::request::{ArgPair, arg_insert, HttpRequest, RequestView};
use crate::text::{
    first_crlf,
    line_of,
    rest_of,
    first_byte,
    find_byte,
    tokens,
    tokenize,
    trim_spec,
    trim_bytes,
    fold,
    fold_eq_str,
    is_digits,
    dec_val,
    parse_dec,
    is_hex_digits,
    hex_val,
    parse_hex,
    subvec,
    take_line,
    find_crlf,
    string_from_utf8,
    string_bytes,
};
use crate::{MAX_HEADER_SIZE, MAX_HEADER_COUNT};

/// Why a request was rejected.
#[derive(Debug, Clone, Copy, PartialEq, Eq, Structural)]
pub enum ParseError {
    /// The request line does not have exactly three tokens.
    BadRequestLine,
    /// The request line never ends within the size limit.
    EntityTooLarge,
    /// A header line has no colon.
    InvalidHeader,
    /// A header name or value, the path, or a query pair is not UTF-8.
    NonUtf8,
    /// The `Content-Length` value is not an unsigned decimal numeral in range.
    InvalidContentLength,
    /// A second `Content-Length` header was seen.
    DuplicateContentLength,
    /// A chunk size line is not a hexadecimal numeral in range, or chunk
    /// framing is broken.
    InvalidChunkSize,
    /// The header block is over the cumulative size or count limit.
    PayloadTooLarge,
}

/// The status a rejected request is answered with: the size limits draw
/// `413 Payload Too Large`, everything else `400 Bad Request`.
pub open spec fn error_status(e: ParseError) -> crate::status::HttpStatus {
    match e {
        ParseError::PayloadTooLarge => crate::status::HttpStatus::PayloadTooLarge,
        ParseError::EntityTooLarge => crate::status::HttpStatus::PayloadTooLarge,
        _ => crate::status::HttpStatus::BadRequest,
    }
}

/// The message a rejected request is answered with.
pub open spec fn error_message_bytes(e: ParseError) -> Seq<u8> {
    match e {
        ParseError::BadRequestLine => "Invalid method + path + version request".spec_bytes(),
        ParseError::EntityTooLarge => "Entity Too Large".spec_bytes(),
        ParseError::InvalidHeader => "Invalid Header".spec_bytes(),
        ParseError::NonUtf8 => "Invalid encoding in header fields".spec_bytes(),
        ParseError::InvalidContentLength => "invalid content-length".spec_bytes(),
        ParseError::DuplicateContentLength => "duplicate content-length".spec_bytes(),
        ParseError::InvalidChunkSize => "Invalid chunk size".spec_bytes(),
        ParseError::PayloadTooLarge => "Header number exceed allowed".spec_bytes(),
    }
}

impl ParseError {
    /// The status this rejection is answered with.
    pub fn status(&self) -> (r: crate::status::HttpStatus)
        ensures
            r == error_status(*self),
    {
        match self {
            ParseError::PayloadTooLarge => crate::status::HttpStatus::PayloadTooLarge,
            ParseError::EntityTooLarge => crate::status::HttpStatus::PayloadTooLarge,
            _ => crate::status::HttpStatus::BadRequest,
        }
    }

    /// The message this rejection is answered with.
    pub fn message(&self) -> (r: &str)
        ensures
            r.spec_bytes() == error_message_bytes(*self),
    {
        match self {
            ParseError::BadRequestLine => "Invalid method + path + version request",
            ParseError::EntityTooLarge => "Entity Too Large",
            ParseError::InvalidHeader => "Invalid Header",
            ParseError::NonUtf8 => "Invalid encoding in header fields",
            ParseError::InvalidContentLength => "invalid content-length",
            ParseError::DuplicateContentLength => "duplicate content-length",
            ParseError::InvalidChunkSize => "Invalid chunk size",
            ParseError::PayloadTooLarge => "Header number exceed allowed",
        }
    }
}

/// The parsing phase.
#[derive(Debug, Clone, Copy, PartialEq, Eq, Structural)]
pub enum ParsePhase {
    /// Waiting for the request line.
    Init,
    /// Waiting for header lines.
    Headers,
    /// Reading a body delimited by `Content-Length`.
    Body,
    /// Waiting for a chunk size line.
    ChunkSize,
    /// Reading the payload of one chunk.
    ChunkData,
    /// Waiting for the CRLF that ends a chunk payload.
    ChunkCrlf,
    /// The request is complete.
    Finish,
    /// The input was rejected.
    Failed(ParseError),
}

/// The parsing machine's state.
#[verifier::ext_equal]
pub ghost struct ParseState {
    pub phase: ParsePhase,
    pub method: MethodView,
    pub path: Seq<u8>,
    pub args: Seq<ArgPair>,
    pub headers: Seq<HeaderPair>,
    pub body: Seq<u8>,
    pub buffer: Seq<u8>,
    pub body_size: nat,
    pub chunk_rem: nat,
    pub chunked: bool,
    pub cl_seen: bool,
    pub hdr_bytes: nat,
    pub hdr_lines: nat,
}

/// The state before any input.
pub open spec fn p_init() -> ParseState {
    ParseState {
        phase: ParsePhase::Init,
        method: MethodView::GET,
        path: Seq::empty(),
        args: Seq::empty(),
        headers: Seq::empty(),
        body: Seq::empty(),
        buffer: Seq::empty(),
        body_size: 0,
        chunk_rem: 0,
        chunked: false,
        cl_seen: false,
        hdr_bytes: 0,
        hdr_lines: 0,
    }
}

/// `s` with `bytes` appended to its buffer.
pub open spec fn p_add(s: ParseState, bytes: Seq<u8>) -> ParseState {
    ParseState { buffer: s.buffer + bytes, ..s }
}

/// The pieces of a query string, split on `&`.
pub open spec fn amp_split(q: Seq<u8>) -> Seq<Seq<u8>>
    decreases q.len(),
{
    match first_byte(q, 38) {
        Some(p) => if 0 <= p < q.len() {
            seq![q.subrange(0, p)] + amp_split(q.subrange(p + 1, q.len() as int))
        } else {
            seq![q]
        },
        None => seq![q],
    }
}

/// The name part of a `name[=value]` pair: what stands before the first `=`.
pub open spec fn pair_key(p: Seq<u8>) -> Seq<u8> {
    match first_byte(p, 61) {
        Some(e) => if 0 <= e <= p.len() {
            p.subrange(0, e)
        } else {
            p
        },
        None => p,
    }
}

/// The value part of a `name[=value]` pair: what stands after the first `=`,
/// or nothing when there is no `=`.
pub open spec fn pair_val(p: Seq<u8>) -> Seq<u8> {
    match first_byte(p, 61) {
        Some(e) => if 0 <= e < p.len() {
            p.subrange(e + 1, p.len() as int)
        } else {
            Seq::empty()
        },
        None => Seq::empty(),
    }
}

/// The argument map built from query pieces, in order; empty pieces are
/// skipped and a repeated name keeps the later value.
pub open spec fn args_accum(ps: Seq<Seq<u8>>) -> Seq<ArgPair>
    decreases ps.len(),
{
    if ps.len() == 0 {
        Seq::empty()
    } else {
        let prev = args_accum(ps.drop_last());
        let p = ps.last();
        if p.len() == 0 {
            prev
        } else {
            arg_insert(prev, pair_key(p), pair_val(p))
        }
    }
}

/// True when every nonempty query piece has UTF-8 name and value.
pub open spec fn pieces_ok(ps: Seq<Seq<u8>>) -> bool {
    forall|i: int|
        0 <= i < ps.len() && (#[trigger] ps[i]).len() > 0 ==> valid_utf8(pair_key(ps[i]))
            && valid_utf8(pair_val(ps[i]))
}

/// Insertion into a header list: the first entry whose folded name matches
/// keeps its stored spelling and gets the new value, otherwise the pair is
/// appended.  This is what [`crate::headers::Headers::insert`] does.
pub open spec fn hdr_insert(s: Seq<HeaderPair>, k: Seq<u8>, v: Seq<u8>) -> Seq<HeaderPair> {
    match key_index(s, k) {
        Some(i) => s.update(i, (s[i].0, v)),
        None => s.push((k, v)),
    }
}

/// True when the machine can take a step on its buffered bytes.
pub open spec fn p_enabled(s: ParseState) -> bool {
    match s.phase {
        ParsePhase::Init => first_crlf(s.buffer) is Some || s.buffer.len() > MAX_HEADER_SIZE + 1,
        ParsePhase::Headers => first_crlf(s.buffer) is Some || s.buffer.len() > MAX_HEADER_SIZE
            + 1,
        ParsePhase::Body => s.buffer.len() > 0 && s.body.len() < s.body_size,
        ParsePhase::ChunkSize => first_crlf(s.buffer) is Some,
        ParsePhase::ChunkData => s.buffer.len() > 0 && s.chunk_rem > 0,
        ParsePhase::ChunkCrlf => s.buffer.len() >= 2,
        ParsePhase::Finish => false,
        ParsePhase::Failed(_) => false,
    }
}

/// One step of the machine on the request line.
pub open spec fn p_step_init(s: ParseState) -> ParseState {
    if first_crlf(s.buffer) is None {
        // The line never ends within the limit.
        ParseState { phase: ParsePhase::Failed(ParseError::EntityTooLarge), ..s }
    } else if first_crlf(s.buffer)->Some_0 > MAX_HEADER_SIZE {
        ParseState { phase: ParsePhase::Failed(ParseError::EntityTooLarge), ..s }
    } else {
        let line = line_of(s.buffer);
        let rest = rest_of(s.buffer);
        let ts = tokens(line);
        if ts.len() != 3 {
            ParseState { phase: ParsePhase::Failed(ParseError::BadRequestLine), buffer: rest, ..s }
        } else if !valid_utf8(ts[0]) {
            ParseState { phase: ParsePhase::Failed(ParseError::NonUtf8), buffer: rest, ..s }
        } else {
            let target = ts[1];
            let path_b = match first_byte(target, 63) {
                Some(p) => target.subrange(0, p),
                None => target,
            };
            let query_b = match first_byte(target, 63) {
                Some(p) => target.subrange(p + 1, target.len() as int),
                None => Seq::<u8>::empty(),
            };
            if !valid_utf8(path_b) {
                ParseState { phase: ParsePhase::Failed(ParseError::NonUtf8), buffer: rest, ..s }
            } else if !pieces_ok(amp_split(query_b)) {
                ParseState { phase: ParsePhase::Failed(ParseError::NonUtf8), buffer: rest, ..s }
            } else {
                ParseState {
                    phase: ParsePhase::Headers,
                    method: method_of(ts[0]),
                    path: path_b,
                    args: args_accum(amp_split(query_b)),
                    buffer: rest,
                    ..s
                }
            }
        }
    }
}

/// One step of the machine on a header line.
pub open spec fn p_step_headers(s: ParseState) -> ParseState {
    if first_crlf(s.buffer) is None {
        // The line never ends within the limit.
        ParseState { phase: ParsePhase::Failed(ParseError::PayloadTooLarge), ..s }
    } else {
        let line = line_of(s.buffer);
        let rest = rest_of(s.buffer);
        if line.len() == 0 {
            if s.chunked {
                ParseState { phase: ParsePhase::ChunkSize, buffer: rest, ..s }
            } else if s.body_size == 0 {
                ParseState { phase: ParsePhase::Finish, buffer: rest, ..s }
            } else {
                ParseState { phase: ParsePhase::Body, buffer: rest, ..s }
            }
        } else {
            let nb = s.hdr_bytes + line.len();
            let nl = s.hdr_lines + 1;
            if nb > MAX_HEADER_SIZE || nl > MAX_HEADER_COUNT {
                ParseState { phase: ParsePhase::Failed(ParseError::PayloadTooLarge), ..s }
            } else {
                match first_byte(line, 58) {
                    None => ParseState {
                        phase: ParsePhase::Failed(ParseError::InvalidHeader),
                        buffer: rest,
                        ..s
                    },
                    Some(c) => {
                        let k = trim_spec(line.subrange(0, c));
                        let v = trim_spec(line.subrange(c + 1, line.len() as int));
                        if !valid_utf8(k) || !valid_utf8(v) {
                            ParseState {
                                phase: ParsePhase::Failed(ParseError::NonUtf8),
                                buffer: rest,
                                ..s
                            }
                        } else if fold(k) == fold("content-length".spec_bytes()) {
                            if s.cl_seen {
                                ParseState {
                                    phase: ParsePhase::Failed(ParseError::DuplicateContentLength),
                                    buffer: rest,
                                    ..s
                                }
                            } else if s.chunked {
                                // Chunked transfer was chosen first; the
                                // length header is ignored.
                                ParseState { buffer: rest, hdr_bytes: nb, hdr_lines: nl, ..s }
                            } else if !(v.len() > 0 && is_digits(v) && dec_val(v) <= usize::MAX) {
                                ParseState {
                                    phase: ParsePhase::Failed(ParseError::InvalidContentLength),
                                    buffer: rest,
                                    ..s
                                }
                            } else {
                                ParseState {
                                    buffer: rest,
                                    hdr_bytes: nb,
                                    hdr_lines: nl,
                                    body_size: dec_val(v),
                                    cl_seen: true,
                                    headers: hdr_insert(s.headers, k, v),
                                    ..s
                                }
                            }
                        } else if fold(k) == fold("transfer-encoding".spec_bytes()) && fold(v)
                            == fold("chunked".spec_bytes()) {
                            if s.cl_seen {
                                // A length was chosen first; the coding is
                                // ignored.
                                ParseState { buffer: rest, hdr_bytes: nb, hdr_lines: nl, ..s }
                            } else {
                                ParseState {
                                    buffer: rest,
                                    hdr_bytes: nb,
                                    hdr_lines: nl,
                                    chunked: true,
                                    headers: hdr_insert(s.headers, k, v),
                                    ..s
                                }
                            }
                        } else {
                            ParseState {
                                buffer: rest,
                                hdr_bytes: nb,
                                hdr_lines: nl,
                                headers: hdr_insert(s.headers, k, v),
                                ..s
                            }
                        }
                    },
                }
            }
        }
    }
}

/// One step of the machine on a chunk size line.
pub open spec fn p_step_chunk_size(s: ParseState) -> ParseState {
    let line = line_of(s.buffer);
    let rest = rest_of(s.buffer);
    let raw = if line.len() >= 2 && line[0] == 48 && line[1] == 120 {
        line.subrange(2, line.len() as int)
    } else {
        line
    };
    if !(raw.len() > 0 && is_hex_digits(raw) && hex_val(raw) <= usize::MAX) {
        ParseState { phase: ParsePhase::Failed(ParseError::InvalidChunkSize), buffer: rest, ..s }
    } else if hex_val(raw) == 0 {
        ParseState { phase: ParsePhase::Finish, buffer: rest, ..s }
    } else if s.body.len() + hex_val(raw) > usize::MAX {
        ParseState { phase: ParsePhase::Failed(ParseError::InvalidChunkSize), buffer: rest, ..s }
    } else {
        ParseState { phase: ParsePhase::ChunkData, chunk_rem: hex_val(raw), buffer: rest, ..s }
    }
}

/// One step of the machine: consumes bytes from the front of the buffer.
pub open spec fn p_step(s: ParseState) -> ParseState
    recommends
        p_enabled(s),
{
    match s.phase {
        ParsePhase::Init => p_step_init(s),
        ParsePhase::Headers => p_step_headers(s),
        ParsePhase::Body => {
            let b = s.buffer[0];
            let nbody = s.body.push(b);
            ParseState {
                phase: if nbody.len() == s.body_size {
                    ParsePhase::Finish
                } else {
                    ParsePhase::Body
                },
                body: nbody,
                buffer: s.buffer.drop_first(),
                ..s
            }
        },
        ParsePhase::ChunkSize => p_step_chunk_size(s),
        ParsePhase::ChunkData => {
            let b = s.buffer[0];
            ParseState {
                phase: if s.chunk_rem == 1 {
                    ParsePhase::ChunkCrlf
                } else {
                    ParsePhase::ChunkData
                },
                body: s.body.push(b),
                buffer: s.buffer.drop_first(),
                chunk_rem: (s.chunk_rem - 1) as nat,
                ..s
            }
        },
        ParsePhase::ChunkCrlf => {
            if s.buffer[0] == 13 && s.buffer[1] == 10 {
                ParseState {
                    phase: ParsePhase::ChunkSize,
                    buffer: s.buffer.subrange(2, s.buffer.len() as int),
                    ..s
                }
            } else {
                ParseState { phase: ParsePhase::Failed(ParseError::InvalidChunkSize), ..s }
            }
        },
        ParsePhase::Finish => s,
        ParsePhase::Failed(_) => s,
    }
}

/// Rank used for termination: a failing step may keep its buffer.
pub open spec fn phase_rank(p: ParsePhase) -> nat {
    match p {
        ParsePhase::Failed(_) => 0,
        _ => 1,
    }
}

/// A step consumes buffered bytes or fails.
pub proof fn lemma_step_decreases(s: ParseState)
    requires
        p_enabled(s),
    ensures
        p_step(s).buffer.len() < s.buffer.len() || (p_step(s).buffer == s.buffer && phase_rank(
            p_step(s).phase,
        ) < phase_rank(s.phase)),
{
    match s.phase {
        ParsePhase::Init => {
            if first_crlf(s.buffer) is Some {
                crate::text::lemma_first_crlf(s.buffer);
            }
        },
        ParsePhase::Headers => {
            if first_crlf(s.buffer) is Some {
                crate::text::lemma_first_crlf(s.buffer);
            }
        },
        ParsePhase::ChunkSize => {
            crate::text::lemma_first_crlf(s.buffer);
        },
        _ => {},
    }
}

/// Runs the machine as far as the buffered bytes allow.
pub open spec fn p_run(s: ParseState) -> ParseState
    decreases s.buffer.len(), phase_rank(s.phase),
    via p_run_decreases_proof
{
    if p_enabled(s) {
        p_run(p_step(s))
    } else {
        s
    }
}

#[via_fn]
proof fn p_run_decreases_proof(s: ParseState) {
    if p_enabled(s) {
        lemma_step_decreases(s);
    }
}

/// After a run, no step is possible.
pub proof fn lemma_run_quiescent(s: ParseState)
    ensures
        !p_enabled(p_run(s)),
    decreases s.buffer.len(), phase_rank(s.phase),
{
    if p_enabled(s) {
        lemma_step_decreases(s);
        lemma_run_quiescent(p_step(s));
    }
}

/// The parse of a complete input, from the initial state.
pub open spec fn parse_result(input: Seq<u8>) -> ParseState {
    p_run(p_add(p_init(), input))
}

/// An enabled step is insensitive to bytes that arrive after the ones it
/// consumes: appending input commutes with the step.
pub proof fn lemma_step_extend(s: ParseState, ext: Seq<u8>)
    requires
        p_enabled(s),
    ensures
        p_enabled(p_add(s, ext)),
        p_step(p_add(s, ext)) == p_add(p_step(s), ext),
{
    let sb = s.buffer;
    let eb = sb + ext;
    let e = p_add(s, ext);
    match s.phase {
        ParsePhase::Init => {
            if first_crlf(sb) is Some {
                lemma_line_extend(sb, ext);
                let i = first_crlf(sb)->Some_0;
                crate::text::lemma_first_crlf(sb);
                if i > MAX_HEADER_SIZE {
                    assert(p_step(e) =~= p_add(p_step(s), ext));
                } else {
                    assert(p_step_init(e) =~= p_add(p_step_init(s), ext));
                }
            } else {
                // The line is already over the limit; however it is extended,
                // the step keeps failing the same way.
                assert(sb.len() > MAX_HEADER_SIZE + 1);
                if first_crlf(eb) is Some {
                    let j = first_crlf(eb)->Some_0;
                    crate::text::lemma_first_crlf(eb);
                    crate::text::lemma_first_crlf(sb);
                    if j + 2 <= sb.len() {
                        assert(forall|x: int|
                            0 <= x < sb.len() ==> eb[x] == sb[x]);
                        assert(crate::text::is_crlf_at(sb, j));
                        assert(false);
                    }
                    assert(j > MAX_HEADER_SIZE);
                }
                assert(p_step(e) =~= p_add(p_step(s), ext));
            }
        },
        ParsePhase::Headers => {
            if first_crlf(sb) is Some {
                lemma_line_extend(sb, ext);
                crate::text::lemma_first_crlf(sb);
                assert(p_step_headers(e) =~= p_add(p_step_headers(s), ext));
            } else {
                assert(sb.len() > MAX_HEADER_SIZE + 1);
                if first_crlf(eb) is Some {
                    let j = first_crlf(eb)->Some_0;
                    crate::text::lemma_first_crlf(eb);
                    crate::text::lemma_first_crlf(sb);
                    if j + 2 <= sb.len() {
                        assert(forall|x: int|
                            0 <= x < sb.len() ==> eb[x] == sb[x]);
                        assert(crate::text::is_crlf_at(sb, j));
                        assert(false);
                    }
                    assert(j > MAX_HEADER_SIZE);
                    assert(line_of(eb).len() > MAX_HEADER_SIZE);
                    assert(s.hdr_bytes + line_of(eb).len() > MAX_HEADER_SIZE);
                }
                assert(p_step(e) =~= p_add(p_step(s), ext));
            }
        },
        ParsePhase::Body => {
            assert(eb[0] == sb[0]);
            assert(eb.drop_first() =~= sb.drop_first() + ext);
            assert(p_step(e) =~= p_add(p_step(s), ext));
        },
        ParsePhase::ChunkSize => {
            crate::text::lemma_first_crlf(sb);
            lemma_line_extend(sb, ext);
            assert(p_step_chunk_size(e) =~= p_add(p_step_chunk_size(s), ext));
        },
        ParsePhase::ChunkData => {
            assert(eb[0] == sb[0]);
            assert(eb.drop_first() =~= sb.drop_first() + ext);
            assert(p_step(e) =~= p_add(p_step(s), ext));
        },
        ParsePhase::ChunkCrlf => {
            assert(eb[0] == sb[0] && eb[1] == sb[1]);
            assert(eb.subrange(2, eb.len() as int) =~= sb.subrange(2, sb.len() as int) + ext);
            assert(p_step(e) =~= p_add(p_step(s), ext));
        },
        ParsePhase::Finish => {},
        ParsePhase::Failed(_) => {},
    }
}

/// When the buffer has a complete line, appending bytes changes neither the
/// line nor its position, and only extends what follows it.
proof fn lemma_line_extend(sb: Seq<u8>, ext: Seq<u8>)
    requires
        first_crlf(sb) is Some,
    ensures
        first_crlf(sb + ext) == first_crlf(sb),
        line_of(sb + ext) == line_of(sb),
        rest_of(sb + ext) == rest_of(sb) + ext,
{
    crate::text::lemma_first_crlf(sb);
    crate::text::lemma_first_crlf_extend(sb, ext);
    let i = first_crlf(sb)->Some_0;
    assert(line_of(sb + ext) =~= line_of(sb));
    assert(rest_of(sb + ext) =~= rest_of(sb) + ext);
}

/// Running the machine, appending input, and running again is the same as
/// running on everything at once.
pub proof fn lemma_run_extend(s: ParseState, ext: Seq<u8>)
    ensures
        p_run(p_add(p_run(s), ext)) == p_run(p_add(s, ext)),
    decreases s.buffer.len(), phase_rank(s.phase),
{
    if p_enabled(s) {
        lemma_step_decreases(s);
        lemma_step_extend(s, ext);
        lemma_run_extend(p_step(s), ext);
    }
}

/// Splits a query string on `&`.
fn amp_pieces(q: &Vec<u8>) -> (r: Vec<Vec<u8>>)
    ensures
        r@.map_values(|t: Vec<u8>| t@) == amp_split(q@),
{
    let mut out: Vec<Vec<u8>> = Vec::new();
    let mut rest: Vec<u8> = subvec(q, 0, q.len());
    proof {
        assert(rest@ =~= q@);
        assert(out@.map_values(|t: Vec<u8>| t@) + amp_split(rest@) =~= amp_split(q@));
    }
    loop
        invariant
            out@.map_values(|t: Vec<u8>| t@) + amp_split(rest@) == amp_split(q@),
        ensures
            out@.map_values(|t: Vec<u8>| t@) == amp_split(q@),
        decreases rest@.len(),
    {
        let pos = find_byte(&rest, 38);
        match pos {
            Some(p) => {
                proof {
                    crate::text::lemma_first_byte(rest@, 38);
                }
                let rl = rest.len();
                let piece = subvec(&rest, 0, p);
                let nrest = subvec(&rest, p + 1, rl);
                let ghost prev = out@;
                out.push(piece);
                proof {
                    assert(amp_split(rest@) == seq![rest@.subrange(0, p as int)] + amp_split(
                        rest@.subrange(p + 1, rest@.len() as int),
                    ));
                    assert(out@.map_values(|t: Vec<u8>| t@) =~= prev.map_values(|t: Vec<u8>| t@)
                        + seq![piece@]);
                    assert(out@.map_values(|t: Vec<u8>| t@) + amp_split(nrest@) =~= prev.map_values(
                        |t: Vec<u8>| t@,
                    ) + amp_split(rest@));
                }
                rest = nrest;
            },
            None => {
                let ghost prev = out@;
                out.push(rest);
                proof {
                    assert(out@.map_values(|t: Vec<u8>| t@) =~= prev.map_values(|t: Vec<u8>| t@)
                        + amp_split(q@).subrange(
                        prev.len() as int,
                        amp_split(q@).len() as int,
                    )) by {
                        assert(amp_split(out@[prev.len() as int]@) == seq![out@[prev.len() as int]@]);
                        assert(prev.map_values(|t: Vec<u8>| t@) + seq![out@[prev.len() as int]@]
                            =~= amp_split(q@));
                        assert(out@.map_values(|t: Vec<u8>| t@) =~= prev.map_values(
                            |t: Vec<u8>| t@,
                        ) + seq![out@[prev.len() as int]@]);
                    }
                    assert(out@.map_values(|t: Vec<u8>| t@) =~= amp_split(q@));
                }
                return out;
            },
        }
    }
}

/// Parses a query string into the argument map, or rejects it when a name or
/// value is not UTF-8.
fn parse_query(q: &Vec<u8>) -> (r: Result<crate::request::Args, ParseError>)
    ensures
        match r {
            Ok(a) => a.wf() && pieces_ok(amp_split(q@)) && a.view_seq() == args_accum(
                amp_split(q@),
            ),
            Err(e) => e == ParseError::NonUtf8 && !pieces_ok(amp_split(q@)),
        },
{
    let pieces = amp_pieces(q);
    let ghost sp = amp_split(q@);
    let mut args = crate::request::Args::new();
    let mut i: usize = 0;
    while i < pieces.len()
        invariant
            i <= pieces@.len(),
            pieces@.map_values(|t: Vec<u8>| t@) == sp,
            sp == amp_split(q@),
            args.wf(),
            args.view_seq() == args_accum(sp.subrange(0, i as int)),
            forall|j: int|
                0 <= j < i && (#[trigger] sp[j]).len() > 0 ==> valid_utf8(pair_key(sp[j]))
                    && valid_utf8(pair_val(sp[j])),
        decreases pieces.len() - i,
    {
        proof {
            assert(pieces@[i as int]@ == sp[i as int]);
        }
        let piece = &pieces[i];
        if piece.len() > 0 {
            let epos = find_byte(piece, 61);
            let kb: Vec<u8>;
            let vb: Vec<u8>;
            match epos {
                Some(e) => {
                    proof {
                        crate::text::lemma_first_byte(piece@, 61);
                    }
                    kb = subvec(piece, 0, e);
                    vb = subvec(piece, e + 1, piece.len());
                },
                None => {
                    kb = subvec(piece, 0, piece.len());
                    vb = Vec::new();
                },
            }
            proof {
                assert(kb@ == pair_key(sp[i as int]));
                assert(vb@ == pair_val(sp[i as int]));
            }
            let ghost gk = kb@;
            let ghost gv = vb@;
            let ks = match string_from_utf8(kb) {
                Some(s) => s,
                None => {
                    proof {
                        assert(!valid_utf8(pair_key(sp[i as int])));
                        assert(!pieces_ok(sp));
                    }
                    return Err(ParseError::NonUtf8);
                },
            };
            let vs = match string_from_utf8(vb) {
                Some(s) => s,
                None => {
                    proof {
                        assert(!valid_utf8(pair_val(sp[i as int])));
                        assert(!pieces_ok(sp));
                    }
                    return Err(ParseError::NonUtf8);
                },
            };
            args.insert(ks.as_str(), vs.as_str());
            proof {
                assert(sp.subrange(0, i + 1).drop_last() =~= sp.subrange(0, i as int));
                assert(sp.subrange(0, i + 1).last() == sp[i as int]);
                assert(args.view_seq() == args_accum(sp.subrange(0, i + 1)));
            }
        } else {
            proof {
                assert(sp.subrange(0, i + 1).drop_last() =~= sp.subrange(0, i as int));
                assert(sp.subrange(0, i + 1).last() == sp[i as int]);
                assert(args.view_seq() == args_accum(sp.subrange(0, i + 1)));
            }
        }
        i = i + 1;
    }
    proof {
        assert(sp.subrange(0, sp.len() as int) =~= sp);
    }
    Ok(args)
}

/// Builder that parses a request incrementally from byte chunks.
pub struct HttpRequestBuilder {
    request: HttpRequest,
    buffer: Vec<u8>,
    state: ParsePhase,
    body_size: usize,
    chunk_rem: usize,
    chunked: bool,
    cl_seen: bool,
    hdr_bytes: usize,
    hdr_lines: usize,
    fed: Ghost<Seq<u8>>,
}

impl HttpRequestBuilder {
    /// The machine state the builder stands in.
    pub closed spec fn state(&self) -> ParseState {
        ParseState {
            phase: self.state,
            method: crate::method::method_view(self.request.method),
            path: string_bytes(self.request.path),
            args: self.request.args.view_seq(),
            headers: self.request.headers.view_seq(),
            body: self.request.body@,
            buffer: self.buffer@,
            body_size: self.body_size as nat,
            chunk_rem: self.chunk_rem as nat,
            chunked: self.chunked,
            cl_seen: self.cl_seen,
            hdr_bytes: self.hdr_bytes as nat,
            hdr_lines: self.hdr_lines as nat,
        }
    }

    /// All bytes ever fed to the builder, in order.
    pub closed spec fn fed_bytes(&self) -> Seq<u8> {
        self.fed@
    }

    /// Internal soundness: the held maps have no duplicate names, and the
    /// header counters stand within their limits.
    pub closed spec fn inv(&self) -> bool {
        &&& self.request.wf()
        &&& self.hdr_bytes <= MAX_HEADER_SIZE
        &&& self.hdr_lines <= MAX_HEADER_COUNT
    }

    /// Well-formed: the builder stands exactly where the machine stands
    /// after consuming everything fed so far.
    pub open spec fn wf(&self) -> bool {
        &&& self.inv()
        &&& self.state() == parse_result(self.fed_bytes())
    }

    /// A builder that has seen no input.
    pub fn new() -> (r: HttpRequestBuilder)
        ensures
            r.wf(),
            r.fed_bytes() == Seq::<u8>::empty(),
            r.state() == p_init(),
    {
        let r = HttpRequestBuilder {
            request: HttpRequest {
                method: crate::method::HttpMethod::GET,
                path: String::new(),
                args: crate::request::Args::new(),
                headers: crate::headers::Headers::new(),
                body: Vec::new(),
            },
            buffer: Vec::new(),
            state: ParsePhase::Init,
            body_size: 0,
            chunk_rem: 0,
            chunked: false,
            cl_seen: false,
            hdr_bytes: 0,
            hdr_lines: 0,
            fed: Ghost(Seq::empty()),
        };
        proof {
            assert(r.state() =~= p_init());
            assert(p_add(p_init(), Seq::<u8>::empty()) =~= p_init());
            assert(!p_enabled(p_init()));
        }
        r
    }

    /// One machine step on the request line.
    #[verifier::rlimit(60)]
    fn step_init(&mut self) -> (r: bool)
        requires
            old(self).inv(),
            old(self).state == ParsePhase::Init,
        ensures
            final(self).inv(),
            final(self).fed_bytes() == old(self).fed_bytes(),
            r ==> p_enabled(old(self).state()) && final(self).state() == p_step(
                old(self).state(),
            ),
            !r ==> final(self).state() == old(self).state() && !p_enabled(old(self).state()),
    {
        let ghost s0 = self.state();

                let pos = find_crlf(&self.buffer);
                match pos {
                    None => {
                        if self.buffer.len() > MAX_HEADER_SIZE + 1 {
                            self.state = ParsePhase::Failed(ParseError::EntityTooLarge);
                            proof {
                                assert(self.state() =~= p_step(s0));
                            }
                            true
                        } else {
                            false
                        }
                    },
                    Some(i) => {
                        if i > MAX_HEADER_SIZE {
                            self.state = ParsePhase::Failed(ParseError::EntityTooLarge);
                            proof {
                                assert(self.state() =~= p_step(s0));
                            }
                            return true;
                        }
                        let line = match take_line(&mut self.buffer) {
                            Some(l) => l,
                            None => {
                                proof {
                                    assert(false);
                                }
                                return false;
                            },
                        };
                        let ghost gl = line_of(s0.buffer);
                        let toks = tokenize(&line);
                        let ghost ts = tokens(gl);
                        proof {
                            assert(toks@.map_values(|t: Vec<u8>| t@) == ts);
                        }
                        if toks.len() != 3 {
                            self.state = ParsePhase::Failed(ParseError::BadRequestLine);
                            proof {
                                assert(self.state() =~= p_step(s0));
                            }
                            return true;
                        }
                        proof {
                            assert(toks@[0]@ == ts[0]);
                            assert(toks@[1]@ == ts[1]);
                        }
                        let t0 = subvec(&toks[0], 0, toks[0].len());
                        proof {
                            assert(t0@ =~= ts[0]);
                        }
                        let ms = match string_from_utf8(t0) {
                            Some(s) => s,
                            None => {
                                self.state = ParsePhase::Failed(ParseError::NonUtf8);
                                proof {
                                    assert(self.state() =~= p_step(s0));
                                }
                                return true;
                            },
                        };
                        let m = crate::method::HttpMethod::from_str(ms.as_str());
                        let target = &toks[1];
                        let tlen = target.len();
                        let qpos = find_byte(target, 63);
                        let path_b: Vec<u8>;
                        let query_b: Vec<u8>;
                        match qpos {
                            Some(p) => {
                                proof {
                                    crate::text::lemma_first_byte(target@, 63);
                                }
                                path_b = subvec(target, 0, p);
                                query_b = subvec(target, p + 1, tlen);
                            },
                            None => {
                                path_b = subvec(target, 0, tlen);
                                query_b = Vec::new();
                            },
                        }
                        proof {
                            assert(path_b@ == (match first_byte(ts[1], 63) {
                                Some(p) => ts[1].subrange(0, p),
                                None => ts[1],
                            }));
                            assert(query_b@ == (match first_byte(ts[1], 63) {
                                Some(p) => ts[1].subrange(p + 1, ts[1].len() as int),
                                None => Seq::<u8>::empty(),
                            }));
                        }
                        let ghost gq = query_b@;
                        let ps = match string_from_utf8(path_b) {
                            Some(s) => s,
                            None => {
                                self.state = ParsePhase::Failed(ParseError::NonUtf8);
                                proof {
                                    assert(self.state() =~= p_step(s0));
                                }
                                return true;
                            },
                        };
                        let args = match parse_query(&query_b) {
                            Ok(a) => a,
                            Err(_) => {
                                self.state = ParsePhase::Failed(ParseError::NonUtf8);
                                proof {
                                    assert(self.state() =~= p_step(s0));
                                }
                                return true;
                            },
                        };
                        self.request.method = m;
                        self.request.path = ps;
                        self.request.args = args;
                        self.state = ParsePhase::Headers;
                        proof {
                            assert(self.state() =~= p_step(s0));
                        }
                        true
                    },
                }
    }

    /// One machine step on a header line.
    #[verifier::rlimit(60)]
    fn step_headers(&mut self) -> (r: bool)
        requires
            old(self).inv(),
            old(self).state == ParsePhase::Headers,
        ensures
            final(self).inv(),
            final(self).fed_bytes() == old(self).fed_bytes(),
            r ==> p_enabled(old(self).state()) && final(self).state() == p_step(
                old(self).state(),
            ),
            !r ==> final(self).state() == old(self).state() && !p_enabled(old(self).state()),
    {
        let ghost s0 = self.state();

                let pos = find_crlf(&self.buffer);
                match pos {
                    None => {
                        if self.buffer.len() > MAX_HEADER_SIZE + 1 {
                            self.state = ParsePhase::Failed(ParseError::PayloadTooLarge);
                            proof {
                                assert(self.state() =~= p_step(s0));
                            }
                            true
                        } else {
                            false
                        }
                    },
                    Some(i) => {
                        proof {
                            crate::text::lemma_first_crlf(self.buffer@);
                        }
                        if i != 0 && (i > MAX_HEADER_SIZE - self.hdr_bytes || self.hdr_lines + 1
                            > MAX_HEADER_COUNT) {
                            self.state = ParsePhase::Failed(ParseError::PayloadTooLarge);
                            proof {
                                assert(line_of(s0.buffer).len() == i);
                                assert(self.state() =~= p_step(s0));
                            }
                            return true;
                        }
                        let line = match take_line(&mut self.buffer) {
                            Some(l) => l,
                            None => {
                                proof {
                                    assert(false);
                                }
                                return false;
                            },
                        };
                        let ghost gl = line_of(s0.buffer);
                        if line.len() == 0 {
                            if self.chunked {
                                self.state = ParsePhase::ChunkSize;
                            } else if self.body_size == 0 {
                                self.state = ParsePhase::Finish;
                            } else {
                                self.state = ParsePhase::Body;
                            }
                            proof {
                                assert(self.state() =~= p_step(s0));
                            }
                            return true;
                        }
                        let cpos = find_byte(&line, 58);
                        let c = match cpos {
                            Some(c) => c,
                            None => {
                                self.state = ParsePhase::Failed(ParseError::InvalidHeader);
                                proof {
                                    assert(self.state() =~= p_step(s0));
                                }
                                return true;
                            },
                        };
                        proof {
                            crate::text::lemma_first_byte(gl, 58);
                        }
                        let kraw = subvec(&line, 0, c);
                        let vraw = subvec(&line, c + 1, line.len());
                        let kb = trim_bytes(&kraw);
                        let vb = trim_bytes(&vraw);
                        let ghost gk = kb@;
                        let ghost gv = vb@;
                        proof {
                            assert(gk == trim_spec(gl.subrange(0, c as int)));
                            assert(gv == trim_spec(gl.subrange(c + 1, gl.len() as int)));
                        }
                        let kcopy = subvec(&kb, 0, kb.len());
                        proof {
                            assert(kcopy@ =~= gk);
                        }
                        let ks = match string_from_utf8(kcopy) {
                            Some(s) => s,
                            None => {
                                self.state = ParsePhase::Failed(ParseError::NonUtf8);
                                proof {
                                    assert(!valid_utf8(gk));
                                    assert(self.state() =~= p_step(s0));
                                }
                                return true;
                            },
                        };
                        let vcopy = subvec(&vb, 0, vb.len());
                        proof {
                            assert(vcopy@ =~= gv);
                        }
                        let vs = match string_from_utf8(vcopy) {
                            Some(s) => s,
                            None => {
                                self.state = ParsePhase::Failed(ParseError::NonUtf8);
                                proof {
                                    assert(!valid_utf8(gv));
                                    assert(self.state() =~= p_step(s0));
                                }
                                return true;
                            },
                        };
                        let nb = self.hdr_bytes + line.len();
                        let nl = self.hdr_lines + 1;
                        if fold_eq_str(&kb, "content-length") {
                            if self.cl_seen {
                                self.state = ParsePhase::Failed(
                                    ParseError::DuplicateContentLength,
                                );
                                proof {
                                    assert(self.state() =~= p_step(s0));
                                }
                                return true;
                            }
                            if self.chunked {
                                self.hdr_bytes = nb;
                                self.hdr_lines = nl;
                                proof {
                                    assert(self.state() =~= p_step(s0));
                                }
                                return true;
                            }
                            let n = match parse_dec(&vb) {
                                Some(n) => n,
                                None => {
                                    self.state = ParsePhase::Failed(
                                        ParseError::InvalidContentLength,
                                    );
                                    proof {
                                        assert(self.state() =~= p_step(s0));
                                    }
                                    return true;
                                },
                            };
                            self.hdr_bytes = nb;
                            self.hdr_lines = nl;
                            self.body_size = n;
                            self.cl_seen = true;
                            self.request.headers.insert(ks.as_str(), vs.as_str());
                            proof {
                                assert(self.request.headers.view_seq() == hdr_insert(
                                    s0.headers,
                                    gk,
                                    gv,
                                ));
                                assert(self.state() =~= p_step(s0));
                            }
                            return true;
                        }
                        if fold_eq_str(&kb, "transfer-encoding") && fold_eq_str(&vb, "chunked") {
                            if self.cl_seen {
                                self.hdr_bytes = nb;
                                self.hdr_lines = nl;
                                proof {
                                    assert(self.state() =~= p_step(s0));
                                }
                                return true;
                            }
                            self.hdr_bytes = nb;
                            self.hdr_lines = nl;
                            self.chunked = true;
                            self.request.headers.insert(ks.as_str(), vs.as_str());
                            proof {
                                assert(self.request.headers.view_seq() == hdr_insert(
                                    s0.headers,
                                    gk,
                                    gv,
                                ));
                                assert(self.state() =~= p_step(s0));
                            }
                            return true;
                        }
                        self.hdr_bytes = nb;
                        self.hdr_lines = nl;
                        self.request.headers.insert(ks.as_str(), vs.as_str());
                        proof {
                            assert(self.request.headers.view_seq() == hdr_insert(
                                s0.headers,
                                gk,
                                gv,
                            ));
                            assert(self.state() =~= p_step(s0));
                        }
                        true
                    },
                }
    }

    /// Performs one machine step when the buffered bytes allow one.
    fn step_once(&mut self) -> (r: bool)
        requires
            old(self).inv(),
        ensures
            final(self).inv(),
            final(self).fed_bytes() == old(self).fed_bytes(),
            r ==> p_enabled(old(self).state()) && final(self).state() == p_step(
                old(self).state(),
            ),
            !r ==> final(self).state() == old(self).state() && !p_enabled(old(self).state()),
    {
        let ghost s0 = self.state();
        match self.state {
            ParsePhase::Init => self.step_init(),
            ParsePhase::Headers => self.step_headers(),
            ParsePhase::Body => {
                if self.buffer.len() > 0 && self.request.body.len() < self.body_size {
                    let b = self.buffer.remove(0);
                    self.request.body.push(b);
                    if self.request.body.len() == self.body_size {
                        self.state = ParsePhase::Finish;
                    }
                    proof {
                        assert(self.buffer@ =~= s0.buffer.drop_first());
                        assert(self.state() =~= p_step(s0));
                    }
                    true
                } else {
                    false
                }
            },
            ParsePhase::ChunkSize => {
                let line = match take_line(&mut self.buffer) {
                    Some(l) => l,
                    None => {
                        return false;
                    },
                };
                let ghost gl = line_of(s0.buffer);
                let raw: Vec<u8>;
                if line.len() >= 2 && line[0] == 48 && line[1] == 120 {
                    raw = subvec(&line, 2, line.len());
                } else {
                    raw = subvec(&line, 0, line.len());
                }
                proof {
                    assert(raw@ == (if gl.len() >= 2 && gl[0] == 48 && gl[1] == 120 {
                        gl.subrange(2, gl.len() as int)
                    } else {
                        gl
                    }));
                    assert(gl.subrange(0, gl.len() as int) =~= gl);
                }
                let n = match parse_hex(&raw) {
                    Some(n) => n,
                    None => {
                        self.state = ParsePhase::Failed(ParseError::InvalidChunkSize);
                        proof {
                            assert(self.state() =~= p_step(s0));
                        }
                        return true;
                    },
                };
                if n == 0 {
                    self.state = ParsePhase::Finish;
                    proof {
                        assert(self.state() =~= p_step(s0));
                    }
                    return true;
                }
                if n > usize::MAX - self.request.body.len() {
                    self.state = ParsePhase::Failed(ParseError::InvalidChunkSize);
                    proof {
                        assert(self.state() =~= p_step(s0));
                    }
                    return true;
                }
                self.chunk_rem = n;
                self.state = ParsePhase::ChunkData;
                proof {
                    assert(self.state() =~= p_step(s0));
                }
                true
            },
            ParsePhase::ChunkData => {
                if self.buffer.len() > 0 && self.chunk_rem > 0 {
                    let b = self.buffer.remove(0);
                    self.request.body.push(b);
                    self.chunk_rem = self.chunk_rem - 1;
                    if self.chunk_rem == 0 {
                        self.state = ParsePhase::ChunkCrlf;
                    }
                    proof {
                        assert(self.buffer@ =~= s0.buffer.drop_first());
                        assert(self.state() =~= p_step(s0));
                    }
                    true
                } else {
                    false
                }
            },
            ParsePhase::ChunkCrlf => {
                if self.buffer.len() >= 2 {
                    if self.buffer[0] == 13 && self.buffer[1] == 10 {
                        let _ = self.buffer.remove(0);
                        let _ = self.buffer.remove(0);
                        self.state = ParsePhase::ChunkSize;
                        proof {
                            assert(self.buffer@ =~= s0.buffer.subrange(
                                2,
                                s0.buffer.len() as int,
                            ));
                            assert(self.state() =~= p_step(s0));
                        }
                    } else {
                        self.state = ParsePhase::Failed(ParseError::InvalidChunkSize);
                        proof {
                            assert(self.state() =~= p_step(s0));
                        }
                    }
                    true
                } else {
                    false
                }
            },
            ParsePhase::Finish => false,
            ParsePhase::Failed(_) => false,
        }
    }

    /// Feeds a chunk of bytes.  The outcome is the machine's: an error is
    /// returned exactly when the machine rejects the input seen so far, and
    /// the builder must then be discarded.
    pub fn append(&mut self, chunk: Vec<u8>) -> (r: Result<(), ParseError>)
        requires
            old(self).wf(),
            !(old(self).state().phase is Failed),
        ensures
            final(self).wf(),
            final(self).fed_bytes() == old(self).fed_bytes() + chunk@,
            (match r {
                Ok(_) => !(final(self).state().phase is Failed),
                Err(e) => final(self).state().phase == ParsePhase::Failed(e),
            }),
    {
        let ghost old_fed = self.fed@;
        let ghost gchunk = chunk@;
        proof {
            self.fed@ = self.fed@ + chunk@;
        }
        let mut c = chunk;
        self.buffer.append(&mut c);
        let ghost target = parse_result(old_fed + gchunk);
        proof {
            let pre = p_add(p_init(), old_fed);
            lemma_run_extend(pre, gchunk);
            assert(p_add(pre, gchunk) =~= p_add(p_init(), old_fed + gchunk));
            assert(self.state() =~= p_add(p_run(pre), gchunk));
            assert(p_run(self.state()) == target);
        }
        loop
            invariant
                self.inv(),
                self.fed@ == old_fed + gchunk,
                p_run(self.state()) == target,
            ensures
                self.inv(),
                self.fed@ == old_fed + gchunk,
                self.state() == target,
            decreases self.buffer@.len(), phase_rank(self.state),
        {
            let ghost pre = self.state();
            let progressed = self.step_once();
            if !progressed {
                proof {
                    assert(p_run(self.state()) == self.state());
                }
                break;
            }
            proof {
                lemma_step_decreases(pre);
                assert(p_run(pre) == p_run(self.state()));
            }
        }
        match self.state {
            ParsePhase::Failed(e) => Err(e),
            _ => Ok(()),
        }
    }

    /// The parsed request, once the machine has finished.
    pub fn get(&self) -> (r: Option<HttpRequest>)
        requires
            self.inv(),
        ensures
            match r {
                Some(req) => self.state().phase is Finish && req.wf() && req@ == (RequestView {
                    method: self.state().method,
                    path: self.state().path,
                    args: self.state().args,
                    headers: self.state().headers,
                    body: self.state().body,
                }),
                None => !(self.state().phase is Finish),
            },
    {
        match self.state {
            ParsePhase::Finish => {
                let req = self.request.clone();
                proof {
                    assert(req@ =~= (RequestView {
                        method: self.state().method,
                        path: self.state().path,
                        args: self.state().args,
                        headers: self.state().headers,
                        body: self.state().body,
                    }));
                }
                Some(req)
            },
            _ => None,
        }
    }

    /// True when the request is complete.
    pub fn done(&self) -> (r: bool)
        ensures
            r == (self.state().phase is Finish),
    {
        match self.state {
            ParsePhase::Finish => true,
            _ => false,
        }
    }
}

/// Parser round-trip: the builder's state is a function of the concatenation
/// of everything fed to it.  Two builders that were fed the same bytes stand
/// in the same state, however differently the bytes were split into chunks —
/// so feeding a well-formed request in arbitrary non-empty prefixes yields
/// the same request as feeding it whole.
pub proof fn lemma_parse_split_invariant(b1: &HttpRequestBuilder, b2: &HttpRequestBuilder)
    requires
        b1.wf(),
        b2.wf(),
        b1.fed_bytes() == b2.fed_bytes(),
    ensures
        b1.state() == b2.state(),
{
}

} // verus!
