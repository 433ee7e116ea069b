//! HTeaPot: a small HTTP/1.1 server core.
//!
//! The crate contains the protocol logic of the server: the case-insensitive
//! header map, the incremental request parser, the response serializers
//! (buffered, chunked, tunnel), the per-connection state machine, the small
//! upstream client, and the collaborators around them (cache, config, MIME
//! table, timestamps).  Network and thread plumbing lives outside the crate;
//! everything here is expressed over plain bytes and is verified.

use vstd::prelude::*;

pub use brew::{BrewError, HttpResponseBuilder, Protocol, Url};
pub use cache::Cache;
pub use config::{Config, RuleMap};
pub use engine::{Connection, Hteapot, Phase, ReadOutcome, Response, ShutdownCoordinator, SignalAction};
pub use headers::CaseInsensitiveString;
pub use headers::Headers;
pub use headers::Headers as HttpHeaders;
pub use logger::{LogLevel, SimpleTime};
pub use method::HttpMethod;
pub use parser::{HttpRequestBuilder, ParseError};
pub use request::{Args, HttpRequest};
pub use response::{BaseResponse, EmptyHttpResponse, HttpResponse, IterError, StreamedResponse, TunnelResponse};
pub use status::HttpStatus;
pub use utils::get_mime_tipe;

pub mod brew;
pub mod cache;
pub mod config;
pub mod engine;
pub mod headers;
pub mod logger;
pub mod method;
pub mod parser;
pub mod request;
pub mod response;
pub mod status;
pub mod text;
pub mod utils;

verus! {

/// Version string advertised in the `Server` header.
pub const SERVER_VERSION: &'static str = "1.1.2";

/// Size in bytes of the read buffer and of the slices a buffered response is
/// iterated in.
pub const BUFFER_SIZE: usize = 2048;

/// Maximum cumulative size in bytes of a request's header block.
pub const MAX_HEADER_SIZE: usize = 16384;

/// Maximum number of header lines in a request.
pub const MAX_HEADER_COUNT: usize = 100;

/// Idle time in seconds after which a keep-alive connection is closed.
pub const KEEP_ALIVE_TTL_SECS: u64 = 10;

} // verus!
