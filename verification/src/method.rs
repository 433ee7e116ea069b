//! HTTP request methods.

use vstd::prelude::*;

verus! {

use vstd::string::StringSliceAdditionalSpecFns;
use crate::text::{raise, string_bytes, str_to_bytes, bytes_eq};

/// An HTTP method: the standard verbs, plus a catch-all for any other token.
#[derive(Debug, PartialEq, Eq, Hash, Clone)]
pub enum HttpMethod {
    GET,
    POST,
    PUT,
    DELETE,
    PATCH,
    HEAD,
    OPTIONS,
    TRACE,
    CONNECT,
    Other(String),
}

/// Mathematical image of a method: the catch-all token as bytes.
pub enum MethodView {
    GET,
    POST,
    PUT,
    DELETE,
    PATCH,
    HEAD,
    OPTIONS,
    TRACE,
    CONNECT,
    Other(Seq<u8>),
}

/// The view of an `HttpMethod` value.
pub open spec fn method_view(m: HttpMethod) -> MethodView {
    match m {
        HttpMethod::GET => MethodView::GET,
        HttpMethod::POST => MethodView::POST,
        HttpMethod::PUT => MethodView::PUT,
        HttpMethod::DELETE => MethodView::DELETE,
        HttpMethod::PATCH => MethodView::PATCH,
        HttpMethod::HEAD => MethodView::HEAD,
        HttpMethod::OPTIONS => MethodView::OPTIONS,
        HttpMethod::TRACE => MethodView::TRACE,
        HttpMethod::CONNECT => MethodView::CONNECT,
        HttpMethod::Other(s) => MethodView::Other(string_bytes(s)),
    }
}

/// The method named by a token: the token is ASCII upper-cased first, and an
/// unknown token maps to the catch-all, carrying the upper-cased bytes.
pub open spec fn method_of(b: Seq<u8>) -> MethodView {
    let u = raise(b);
    if u == "GET".spec_bytes() {
        MethodView::GET
    } else if u == "POST".spec_bytes() {
        MethodView::POST
    } else if u == "PUT".spec_bytes() {
        MethodView::PUT
    } else if u == "DELETE".spec_bytes() {
        MethodView::DELETE
    } else if u == "PATCH".spec_bytes() {
        MethodView::PATCH
    } else if u == "HEAD".spec_bytes() {
        MethodView::HEAD
    } else if u == "OPTIONS".spec_bytes() {
        MethodView::OPTIONS
    } else if u == "TRACE".spec_bytes() {
        MethodView::TRACE
    } else if u == "CONNECT".spec_bytes() {
        MethodView::CONNECT
    } else {
        MethodView::Other(u)
    }
}

/// The wire bytes of a method.
pub open spec fn method_bytes(m: MethodView) -> Seq<u8> {
    match m {
        MethodView::GET => "GET".spec_bytes(),
        MethodView::POST => "POST".spec_bytes(),
        MethodView::PUT => "PUT".spec_bytes(),
        MethodView::DELETE => "DELETE".spec_bytes(),
        MethodView::PATCH => "PATCH".spec_bytes(),
        MethodView::HEAD => "HEAD".spec_bytes(),
        MethodView::OPTIONS => "OPTIONS".spec_bytes(),
        MethodView::TRACE => "TRACE".spec_bytes(),
        MethodView::CONNECT => "CONNECT".spec_bytes(),
        MethodView::Other(s) => s,
    }
}

/// Relies on `str::to_ascii_uppercase`: it maps the bytes `a`-`z` to `A`-`Z`
/// and leaves every other byte unchanged.
#[verifier::external_body]
fn ascii_uppercase(s: &str) -> (r: String)
    ensures
        string_bytes(r) == raise(s.spec_bytes()),
{
    s.to_ascii_uppercase()
}

impl HttpMethod {
    /// Reads a method token; the token is ASCII upper-cased first.
    pub fn from_str(method: &str) -> (r: HttpMethod)
        ensures
            method_view(r) == method_of(method.spec_bytes()),
    {
        let up = ascii_uppercase(method);
        let ub = str_to_bytes(up.as_str());
        if bytes_eq(&ub, &str_to_bytes("GET")) {
            HttpMethod::GET
        } else if bytes_eq(&ub, &str_to_bytes("POST")) {
            HttpMethod::POST
        } else if bytes_eq(&ub, &str_to_bytes("PUT")) {
            HttpMethod::PUT
        } else if bytes_eq(&ub, &str_to_bytes("DELETE")) {
            HttpMethod::DELETE
        } else if bytes_eq(&ub, &str_to_bytes("PATCH")) {
            HttpMethod::PATCH
        } else if bytes_eq(&ub, &str_to_bytes("HEAD")) {
            HttpMethod::HEAD
        } else if bytes_eq(&ub, &str_to_bytes("OPTIONS")) {
            HttpMethod::OPTIONS
        } else if bytes_eq(&ub, &str_to_bytes("TRACE")) {
            HttpMethod::TRACE
        } else if bytes_eq(&ub, &str_to_bytes("CONNECT")) {
            HttpMethod::CONNECT
        } else {
            HttpMethod::Other(up)
        }
    }

    /// The wire form of the method.
    pub fn to_str(&self) -> (r: &str)
        ensures
            r.spec_bytes() == method_bytes(method_view(*self)),
    {
        match self {
            HttpMethod::GET => "GET",
            HttpMethod::POST => "POST",
            HttpMethod::PUT => "PUT",
            HttpMethod::DELETE => "DELETE",
            HttpMethod::PATCH => "PATCH",
            HttpMethod::HEAD => "HEAD",
            HttpMethod::OPTIONS => "OPTIONS",
            HttpMethod::TRACE => "TRACE",
            HttpMethod::CONNECT => "CONNECT",
            HttpMethod::Other(method) => method.as_str(),
        }
    }
}

} // verus!
