//! HTTP status codes and their reason phrases.

use vstd::prelude::*;

verus! {

use vstd::string::StringSliceAdditionalSpecFns;

/// An HTTP status code with a named variant for each code the crate knows.
#[derive(Debug, Clone, Copy, PartialEq, Eq, Structural)]
pub enum HttpStatus {
    OK,
    Created,
    Accepted,
    NonAuthoritativeInformation,
    NoContent,
    ResetContent,
    PartialContent,
    MultipleChoices,
    MovedPermanently,
    Found,
    SeeOther,
    NotModified,
    UseProxy,
    TemporaryRedirect,
    PermanentRedirect,
    BadRequest,
    Unauthorized,
    PaymentRequired,
    Forbidden,
    NotFound,
    MethodNotAllowed,
    NotAcceptable,
    ProxyAuthenticationRequired,
    RequestTimeout,
    Conflict,
    Gone,
    LengthRequired,
    PreconditionFailed,
    PayloadTooLarge,
    URITooLong,
    UnsupportedMediaType,
    RangeNotSatisfiable,
    ExpectationFailed,
    IAmATeapot,
    MisdirectedRequest,
    UnprocessableEntity,
    Locked,
    FailedDependency,
    TooEarly,
    UpgradeRequired,
    PreconditionRequired,
    TooManyRequests,
    RequestHeaderFieldsTooLarge,
    InternalServerError,
    NotImplemented,
    BadGateway,
    ServiceUnavailable,
    GatewayTimeout,
    HTTPVersionNotSupported,
    VariantAlsoNegotiates,
    InsufficientStorage,
    LoopDetected,
    NotExtended,
    NetworkAuthenticationRequired,
}

/// The numeric code of a status.
pub open spec fn code_of(s: HttpStatus) -> u16 {
    match s {
        HttpStatus::OK => 200,
        HttpStatus::Created => 201,
        HttpStatus::Accepted => 202,
        HttpStatus::NonAuthoritativeInformation => 203,
        HttpStatus::NoContent => 204,
        HttpStatus::ResetContent => 205,
        HttpStatus::PartialContent => 206,
        HttpStatus::MultipleChoices => 300,
        HttpStatus::MovedPermanently => 301,
        HttpStatus::Found => 302,
        HttpStatus::SeeOther => 303,
        HttpStatus::NotModified => 304,
        HttpStatus::UseProxy => 305,
        HttpStatus::TemporaryRedirect => 307,
        HttpStatus::PermanentRedirect => 308,
        HttpStatus::BadRequest => 400,
        HttpStatus::Unauthorized => 401,
        HttpStatus::PaymentRequired => 402,
        HttpStatus::Forbidden => 403,
        HttpStatus::NotFound => 404,
        HttpStatus::MethodNotAllowed => 405,
        HttpStatus::NotAcceptable => 406,
        HttpStatus::ProxyAuthenticationRequired => 407,
        HttpStatus::RequestTimeout => 408,
        HttpStatus::Conflict => 409,
        HttpStatus::Gone => 410,
        HttpStatus::LengthRequired => 411,
        HttpStatus::PreconditionFailed => 412,
        HttpStatus::PayloadTooLarge => 413,
        HttpStatus::URITooLong => 414,
        HttpStatus::UnsupportedMediaType => 415,
        HttpStatus::RangeNotSatisfiable => 416,
        HttpStatus::ExpectationFailed => 417,
        HttpStatus::IAmATeapot => 418,
        HttpStatus::MisdirectedRequest => 421,
        HttpStatus::UnprocessableEntity => 422,
        HttpStatus::Locked => 423,
        HttpStatus::FailedDependency => 424,
        HttpStatus::TooEarly => 425,
        HttpStatus::UpgradeRequired => 426,
        HttpStatus::PreconditionRequired => 428,
        HttpStatus::TooManyRequests => 429,
        HttpStatus::RequestHeaderFieldsTooLarge => 431,
        HttpStatus::InternalServerError => 500,
        HttpStatus::NotImplemented => 501,
        HttpStatus::BadGateway => 502,
        HttpStatus::ServiceUnavailable => 503,
        HttpStatus::GatewayTimeout => 504,
        HttpStatus::HTTPVersionNotSupported => 505,
        HttpStatus::VariantAlsoNegotiates => 506,
        HttpStatus::InsufficientStorage => 507,
        HttpStatus::LoopDetected => 508,
        HttpStatus::NotExtended => 510,
        HttpStatus::NetworkAuthenticationRequired => 511,
    }
}

/// The status named by a numeric code, if the crate knows the code.
pub open spec fn status_of(c: u16) -> Option<HttpStatus> {
    match c {
        200u16 => Some(HttpStatus::OK),
        201u16 => Some(HttpStatus::Created),
        202u16 => Some(HttpStatus::Accepted),
        203u16 => Some(HttpStatus::NonAuthoritativeInformation),
        204u16 => Some(HttpStatus::NoContent),
        205u16 => Some(HttpStatus::ResetContent),
        206u16 => Some(HttpStatus::PartialContent),
        300u16 => Some(HttpStatus::MultipleChoices),
        301u16 => Some(HttpStatus::MovedPermanently),
        302u16 => Some(HttpStatus::Found),
        303u16 => Some(HttpStatus::SeeOther),
        304u16 => Some(HttpStatus::NotModified),
        305u16 => Some(HttpStatus::UseProxy),
        307u16 => Some(HttpStatus::TemporaryRedirect),
        308u16 => Some(HttpStatus::PermanentRedirect),
        400u16 => Some(HttpStatus::BadRequest),
        401u16 => Some(HttpStatus::Unauthorized),
        402u16 => Some(HttpStatus::PaymentRequired),
        403u16 => Some(HttpStatus::Forbidden),
        404u16 => Some(HttpStatus::NotFound),
        405u16 => Some(HttpStatus::MethodNotAllowed),
        406u16 => Some(HttpStatus::NotAcceptable),
        407u16 => Some(HttpStatus::ProxyAuthenticationRequired),
        408u16 => Some(HttpStatus::RequestTimeout),
        409u16 => Some(HttpStatus::Conflict),
        410u16 => Some(HttpStatus::Gone),
        411u16 => Some(HttpStatus::LengthRequired),
        412u16 => Some(HttpStatus::PreconditionFailed),
        413u16 => Some(HttpStatus::PayloadTooLarge),
        414u16 => Some(HttpStatus::URITooLong),
        415u16 => Some(HttpStatus::UnsupportedMediaType),
        416u16 => Some(HttpStatus::RangeNotSatisfiable),
        417u16 => Some(HttpStatus::ExpectationFailed),
        418u16 => Some(HttpStatus::IAmATeapot),
        421u16 => Some(HttpStatus::MisdirectedRequest),
        422u16 => Some(HttpStatus::UnprocessableEntity),
        423u16 => Some(HttpStatus::Locked),
        424u16 => Some(HttpStatus::FailedDependency),
        425u16 => Some(HttpStatus::TooEarly),
        426u16 => Some(HttpStatus::UpgradeRequired),
        428u16 => Some(HttpStatus::PreconditionRequired),
        429u16 => Some(HttpStatus::TooManyRequests),
        431u16 => Some(HttpStatus::RequestHeaderFieldsTooLarge),
        500u16 => Some(HttpStatus::InternalServerError),
        501u16 => Some(HttpStatus::NotImplemented),
        502u16 => Some(HttpStatus::BadGateway),
        503u16 => Some(HttpStatus::ServiceUnavailable),
        504u16 => Some(HttpStatus::GatewayTimeout),
        505u16 => Some(HttpStatus::HTTPVersionNotSupported),
        506u16 => Some(HttpStatus::VariantAlsoNegotiates),
        507u16 => Some(HttpStatus::InsufficientStorage),
        508u16 => Some(HttpStatus::LoopDetected),
        510u16 => Some(HttpStatus::NotExtended),
        511u16 => Some(HttpStatus::NetworkAuthenticationRequired),
        _ => None,
    }
}

/// The canonical reason phrase of a status, as bytes.
pub open spec fn reason_bytes(s: HttpStatus) -> Seq<u8> {
    match s {
        HttpStatus::OK => "OK".spec_bytes(),
        HttpStatus::Created => "Created".spec_bytes(),
        HttpStatus::Accepted => "Accepted".spec_bytes(),
        HttpStatus::NonAuthoritativeInformation => "Non Authoritative Information".spec_bytes(),
        HttpStatus::NoContent => "No Content".spec_bytes(),
        HttpStatus::ResetContent => "Reset Content".spec_bytes(),
        HttpStatus::PartialContent => "Partial Content".spec_bytes(),
        HttpStatus::MultipleChoices => "Multiple Choices".spec_bytes(),
        HttpStatus::MovedPermanently => "Moved Permanently".spec_bytes(),
        HttpStatus::Found => "Found".spec_bytes(),
        HttpStatus::SeeOther => "See Other".spec_bytes(),
        HttpStatus::NotModified => "Not Modified".spec_bytes(),
        HttpStatus::UseProxy => "Use Proxy".spec_bytes(),
        HttpStatus::TemporaryRedirect => "Temporary Redirect".spec_bytes(),
        HttpStatus::PermanentRedirect => "Permanent Redirect".spec_bytes(),
        HttpStatus::BadRequest => "Bad Request".spec_bytes(),
        HttpStatus::Unauthorized => "Unauthorized".spec_bytes(),
        HttpStatus::PaymentRequired => "Payment Required".spec_bytes(),
        HttpStatus::Forbidden => "Forbidden".spec_bytes(),
        HttpStatus::NotFound => "Not Found".spec_bytes(),
        HttpStatus::MethodNotAllowed => "Method Not Allowed".spec_bytes(),
        HttpStatus::NotAcceptable => "Not Acceptable".spec_bytes(),
        HttpStatus::ProxyAuthenticationRequired => "Proxy Authentication Required".spec_bytes(),
        HttpStatus::RequestTimeout => "Request Timeout".spec_bytes(),
        HttpStatus::Conflict => "Conflict".spec_bytes(),
        HttpStatus::Gone => "Gone".spec_bytes(),
        HttpStatus::LengthRequired => "Length Required".spec_bytes(),
        HttpStatus::PreconditionFailed => "Precondition Failed".spec_bytes(),
        HttpStatus::PayloadTooLarge => "Payload Too Large".spec_bytes(),
        HttpStatus::URITooLong => "URI Too Long".spec_bytes(),
        HttpStatus::UnsupportedMediaType => "Unsupported Media Type".spec_bytes(),
        HttpStatus::RangeNotSatisfiable => "Range Not Satisfiable".spec_bytes(),
        HttpStatus::ExpectationFailed => "Expectation Failed".spec_bytes(),
        HttpStatus::IAmATeapot => "I'm a teapot".spec_bytes(),
        HttpStatus::MisdirectedRequest => "Misdirected Request".spec_bytes(),
        HttpStatus::UnprocessableEntity => "Unprocessable Entity".spec_bytes(),
        HttpStatus::Locked => "Locked".spec_bytes(),
        HttpStatus::FailedDependency => "Failed Dependency".spec_bytes(),
        HttpStatus::TooEarly => "Too Early".spec_bytes(),
        HttpStatus::UpgradeRequired => "Upgrade Required".spec_bytes(),
        HttpStatus::PreconditionRequired => "Precondition Required".spec_bytes(),
        HttpStatus::TooManyRequests => "Too Many Requests".spec_bytes(),
        HttpStatus::RequestHeaderFieldsTooLarge => "Request Header Fields Too Large".spec_bytes(),
        HttpStatus::InternalServerError => "Internal Server Error".spec_bytes(),
        HttpStatus::NotImplemented => "Not Implemented".spec_bytes(),
        HttpStatus::BadGateway => "Bad Gateway".spec_bytes(),
        HttpStatus::ServiceUnavailable => "Service Unavailable".spec_bytes(),
        HttpStatus::GatewayTimeout => "Gateway Timeout".spec_bytes(),
        HttpStatus::HTTPVersionNotSupported => "HTTP Version Not Supported".spec_bytes(),
        HttpStatus::VariantAlsoNegotiates => "Variant Also Negotiates".spec_bytes(),
        HttpStatus::InsufficientStorage => "Insufficient Storage".spec_bytes(),
        HttpStatus::LoopDetected => "Loop Detected".spec_bytes(),
        HttpStatus::NotExtended => "Not Extended".spec_bytes(),
        HttpStatus::NetworkAuthenticationRequired => "Network Authentication Required".spec_bytes(),
    }
}

impl HttpStatus {
    /// The numeric code of this status.
    pub fn code(&self) -> (r: u16)
        ensures
            r == code_of(*self),
    {
        match self {
            HttpStatus::OK => 200,
            HttpStatus::Created => 201,
            HttpStatus::Accepted => 202,
            HttpStatus::NonAuthoritativeInformation => 203,
            HttpStatus::NoContent => 204,
            HttpStatus::ResetContent => 205,
            HttpStatus::PartialContent => 206,
            HttpStatus::MultipleChoices => 300,
            HttpStatus::MovedPermanently => 301,
            HttpStatus::Found => 302,
            HttpStatus::SeeOther => 303,
            HttpStatus::NotModified => 304,
            HttpStatus::UseProxy => 305,
            HttpStatus::TemporaryRedirect => 307,
            HttpStatus::PermanentRedirect => 308,
            HttpStatus::BadRequest => 400,
            HttpStatus::Unauthorized => 401,
            HttpStatus::PaymentRequired => 402,
            HttpStatus::Forbidden => 403,
            HttpStatus::NotFound => 404,
            HttpStatus::MethodNotAllowed => 405,
            HttpStatus::NotAcceptable => 406,
            HttpStatus::ProxyAuthenticationRequired => 407,
            HttpStatus::RequestTimeout => 408,
            HttpStatus::Conflict => 409,
            HttpStatus::Gone => 410,
            HttpStatus::LengthRequired => 411,
            HttpStatus::PreconditionFailed => 412,
            HttpStatus::PayloadTooLarge => 413,
            HttpStatus::URITooLong => 414,
            HttpStatus::UnsupportedMediaType => 415,
            HttpStatus::RangeNotSatisfiable => 416,
            HttpStatus::ExpectationFailed => 417,
            HttpStatus::IAmATeapot => 418,
            HttpStatus::MisdirectedRequest => 421,
            HttpStatus::UnprocessableEntity => 422,
            HttpStatus::Locked => 423,
            HttpStatus::FailedDependency => 424,
            HttpStatus::TooEarly => 425,
            HttpStatus::UpgradeRequired => 426,
            HttpStatus::PreconditionRequired => 428,
            HttpStatus::TooManyRequests => 429,
            HttpStatus::RequestHeaderFieldsTooLarge => 431,
            HttpStatus::InternalServerError => 500,
            HttpStatus::NotImplemented => 501,
            HttpStatus::BadGateway => 502,
            HttpStatus::ServiceUnavailable => 503,
            HttpStatus::GatewayTimeout => 504,
            HttpStatus::HTTPVersionNotSupported => 505,
            HttpStatus::VariantAlsoNegotiates => 506,
            HttpStatus::InsufficientStorage => 507,
            HttpStatus::LoopDetected => 508,
            HttpStatus::NotExtended => 510,
            HttpStatus::NetworkAuthenticationRequired => 511,
        }
    }

    /// Reads a numeric code; fails exactly on codes the crate does not know.
    pub fn from_u16(status: u16) -> (r: Result<HttpStatus, &'static str>)
        ensures
            match r {
                Ok(s) => status_of(status) == Some(s) && code_of(s) == status,
                Err(_) => status_of(status) is None,
            },
    {
        match status {
            200 => Ok(HttpStatus::OK),
            201 => Ok(HttpStatus::Created),
            202 => Ok(HttpStatus::Accepted),
            203 => Ok(HttpStatus::NonAuthoritativeInformation),
            204 => Ok(HttpStatus::NoContent),
            205 => Ok(HttpStatus::ResetContent),
            206 => Ok(HttpStatus::PartialContent),
            300 => Ok(HttpStatus::MultipleChoices),
            301 => Ok(HttpStatus::MovedPermanently),
            302 => Ok(HttpStatus::Found),
            303 => Ok(HttpStatus::SeeOther),
            304 => Ok(HttpStatus::NotModified),
            305 => Ok(HttpStatus::UseProxy),
            307 => Ok(HttpStatus::TemporaryRedirect),
            308 => Ok(HttpStatus::PermanentRedirect),
            400 => Ok(HttpStatus::BadRequest),
            401 => Ok(HttpStatus::Unauthorized),
            402 => Ok(HttpStatus::PaymentRequired),
            403 => Ok(HttpStatus::Forbidden),
            404 => Ok(HttpStatus::NotFound),
            405 => Ok(HttpStatus::MethodNotAllowed),
            406 => Ok(HttpStatus::NotAcceptable),
            407 => Ok(HttpStatus::ProxyAuthenticationRequired),
            408 => Ok(HttpStatus::RequestTimeout),
            409 => Ok(HttpStatus::Conflict),
            410 => Ok(HttpStatus::Gone),
            411 => Ok(HttpStatus::LengthRequired),
            412 => Ok(HttpStatus::PreconditionFailed),
            413 => Ok(HttpStatus::PayloadTooLarge),
            414 => Ok(HttpStatus::URITooLong),
            415 => Ok(HttpStatus::UnsupportedMediaType),
            416 => Ok(HttpStatus::RangeNotSatisfiable),
            417 => Ok(HttpStatus::ExpectationFailed),
            418 => Ok(HttpStatus::IAmATeapot),
            421 => Ok(HttpStatus::MisdirectedRequest),
            422 => Ok(HttpStatus::UnprocessableEntity),
            423 => Ok(HttpStatus::Locked),
            424 => Ok(HttpStatus::FailedDependency),
            425 => Ok(HttpStatus::TooEarly),
            426 => Ok(HttpStatus::UpgradeRequired),
            428 => Ok(HttpStatus::PreconditionRequired),
            429 => Ok(HttpStatus::TooManyRequests),
            431 => Ok(HttpStatus::RequestHeaderFieldsTooLarge),
            500 => Ok(HttpStatus::InternalServerError),
            501 => Ok(HttpStatus::NotImplemented),
            502 => Ok(HttpStatus::BadGateway),
            503 => Ok(HttpStatus::ServiceUnavailable),
            504 => Ok(HttpStatus::GatewayTimeout),
            505 => Ok(HttpStatus::HTTPVersionNotSupported),
            506 => Ok(HttpStatus::VariantAlsoNegotiates),
            507 => Ok(HttpStatus::InsufficientStorage),
            508 => Ok(HttpStatus::LoopDetected),
            510 => Ok(HttpStatus::NotExtended),
            511 => Ok(HttpStatus::NetworkAuthenticationRequired),
            _ => Err("Invalid HTTP status"),
        }
    }

    /// The canonical reason phrase of this status.
    pub fn to_string(&self) -> (r: &str)
        ensures
            r.spec_bytes() == reason_bytes(*self),
    {
        match self {
            HttpStatus::OK => "OK",
            HttpStatus::Created => "Created",
            HttpStatus::Accepted => "Accepted",
            HttpStatus::NonAuthoritativeInformation => "Non Authoritative Information",
            HttpStatus::NoContent => "No Content",
            HttpStatus::ResetContent => "Reset Content",
            HttpStatus::PartialContent => "Partial Content",
            HttpStatus::MultipleChoices => "Multiple Choices",
            HttpStatus::MovedPermanently => "Moved Permanently",
            HttpStatus::Found => "Found",
            HttpStatus::SeeOther => "See Other",
            HttpStatus::NotModified => "Not Modified",
            HttpStatus::UseProxy => "Use Proxy",
            HttpStatus::TemporaryRedirect => "Temporary Redirect",
            HttpStatus::PermanentRedirect => "Permanent Redirect",
            HttpStatus::BadRequest => "Bad Request",
            HttpStatus::Unauthorized => "Unauthorized",
            HttpStatus::PaymentRequired => "Payment Required",
            HttpStatus::Forbidden => "Forbidden",
            HttpStatus::NotFound => "Not Found",
            HttpStatus::MethodNotAllowed => "Method Not Allowed",
            HttpStatus::NotAcceptable => "Not Acceptable",
            HttpStatus::ProxyAuthenticationRequired => "Proxy Authentication Required",
            HttpStatus::RequestTimeout => "Request Timeout",
            HttpStatus::Conflict => "Conflict",
            HttpStatus::Gone => "Gone",
            HttpStatus::LengthRequired => "Length Required",
            HttpStatus::PreconditionFailed => "Precondition Failed",
            HttpStatus::PayloadTooLarge => "Payload Too Large",
            HttpStatus::URITooLong => "URI Too Long",
            HttpStatus::UnsupportedMediaType => "Unsupported Media Type",
            HttpStatus::RangeNotSatisfiable => "Range Not Satisfiable",
            HttpStatus::ExpectationFailed => "Expectation Failed",
            HttpStatus::IAmATeapot => "I'm a teapot",
            HttpStatus::MisdirectedRequest => "Misdirected Request",
            HttpStatus::UnprocessableEntity => "Unprocessable Entity",
            HttpStatus::Locked => "Locked",
            HttpStatus::FailedDependency => "Failed Dependency",
            HttpStatus::TooEarly => "Too Early",
            HttpStatus::UpgradeRequired => "Upgrade Required",
            HttpStatus::PreconditionRequired => "Precondition Required",
            HttpStatus::TooManyRequests => "Too Many Requests",
            HttpStatus::RequestHeaderFieldsTooLarge => "Request Header Fields Too Large",
            HttpStatus::InternalServerError => "Internal Server Error",
            HttpStatus::NotImplemented => "Not Implemented",
            HttpStatus::BadGateway => "Bad Gateway",
            HttpStatus::ServiceUnavailable => "Service Unavailable",
            HttpStatus::GatewayTimeout => "Gateway Timeout",
            HttpStatus::HTTPVersionNotSupported => "HTTP Version Not Supported",
            HttpStatus::VariantAlsoNegotiates => "Variant Also Negotiates",
            HttpStatus::InsufficientStorage => "Insufficient Storage",
            HttpStatus::LoopDetected => "Loop Detected",
            HttpStatus::NotExtended => "Not Extended",
            HttpStatus::NetworkAuthenticationRequired => "Network Authentication Required",
        }
    }
}

} // verus!
