//! Response status codes: a closed enumeration of standard (code, reason)
//! pairs plus an open custom pair.

use vstd::prelude::*;
use vstd::string::StringSliceAdditionalSpecFns;
use vstd::string::StrSliceExecFns;
use crate::bytes::sub_vec;

verus! {

/// A response status. `Custom` carries any (code, reason text) pair.
#[derive(Debug)]
pub enum ResponseCode {
    Continue,
    SwitchingProtocols,
    OK,
    Created,
    Accepted,
    NonAuthoritativeInformation,
    NoContent,
    ResetContent,
    PartialContent,
    MultipleChoices,
    MovedPermanently,
    Found,
    SeeOther,
    NotModified,
    UseProxy,
    TemporaryRedirect,
    BadRequest,
    Unauthorized,
    PaymentRequired,
    Forbidden,
    NotFound,
    MethodNotAllowed,
    NotAcceptable,
    ProxyAuthenticationRequired,
    RequestTimeout,
    Conflict,
    Gone,
    LengthRequired,
    PreconditionFailed,
    RequestEntityTooLarge,
    RequestURITooLarge,
    UnsupportedMediaType,
    RequestedRangeNotSatisfiable,
    ExpectationFailed,
    InternalServerError,
    NotImplemented,
    BadGateway,
    ServiceUnavailable,
    GatewayTimeout,
    HTTPVersionNotSupported,
    Custom(u16, Vec<u8>),
}

impl ResponseCode {
    /// The numeric status code.
    pub open spec fn spec_code(&self) -> int {
        match self {
            ResponseCode::Continue => 100,
            ResponseCode::SwitchingProtocols => 101,
            ResponseCode::OK => 200,
            ResponseCode::Created => 201,
            ResponseCode::Accepted => 202,
            ResponseCode::NonAuthoritativeInformation => 203,
            ResponseCode::NoContent => 204,
            ResponseCode::ResetContent => 205,
            ResponseCode::PartialContent => 206,
            ResponseCode::MultipleChoices => 300,
            ResponseCode::MovedPermanently => 301,
            ResponseCode::Found => 302,
            ResponseCode::SeeOther => 303,
            ResponseCode::NotModified => 304,
            ResponseCode::UseProxy => 305,
            ResponseCode::TemporaryRedirect => 307,
            ResponseCode::BadRequest => 400,
            ResponseCode::Unauthorized => 401,
            ResponseCode::PaymentRequired => 402,
            ResponseCode::Forbidden => 403,
            ResponseCode::NotFound => 404,
            ResponseCode::MethodNotAllowed => 405,
            ResponseCode::NotAcceptable => 406,
            ResponseCode::ProxyAuthenticationRequired => 407,
            ResponseCode::RequestTimeout => 408,
            ResponseCode::Conflict => 409,
            ResponseCode::Gone => 410,
            ResponseCode::LengthRequired => 411,
            ResponseCode::PreconditionFailed => 412,
            ResponseCode::RequestEntityTooLarge => 413,
            ResponseCode::RequestURITooLarge => 414,
            ResponseCode::UnsupportedMediaType => 415,
            ResponseCode::RequestedRangeNotSatisfiable => 416,
            ResponseCode::ExpectationFailed => 417,
            ResponseCode::InternalServerError => 500,
            ResponseCode::NotImplemented => 501,
            ResponseCode::BadGateway => 502,
            ResponseCode::ServiceUnavailable => 503,
            ResponseCode::GatewayTimeout => 504,
            ResponseCode::HTTPVersionNotSupported => 505,
            ResponseCode::Custom(code, _) => *code as int,
        }
    }

    /// The reason phrase that accompanies the code on the status line.
    pub open spec fn spec_reason(&self) -> Seq<u8> {
        match self {
            ResponseCode::Continue => "Continue".spec_bytes(),
            ResponseCode::SwitchingProtocols => "Switching Protocols".spec_bytes(),
            ResponseCode::OK => "OK".spec_bytes(),
            ResponseCode::Created => "Created".spec_bytes(),
            ResponseCode::Accepted => "Accepted".spec_bytes(),
            ResponseCode::NonAuthoritativeInformation => "Non-Authoritative Information".spec_bytes(),
            ResponseCode::NoContent => "No Content".spec_bytes(),
            ResponseCode::ResetContent => "Reset Content".spec_bytes(),
            ResponseCode::PartialContent => "Partial Content".spec_bytes(),
            ResponseCode::MultipleChoices => "Multiple Choices".spec_bytes(),
            ResponseCode::MovedPermanently => "Moved Permanently".spec_bytes(),
            ResponseCode::Found => "Found".spec_bytes(),
            ResponseCode::SeeOther => "See Other".spec_bytes(),
            ResponseCode::NotModified => "Not Modified".spec_bytes(),
            ResponseCode::UseProxy => "Use Proxy".spec_bytes(),
            ResponseCode::TemporaryRedirect => "Temporary Redirect".spec_bytes(),
            ResponseCode::BadRequest => "Bad Request".spec_bytes(),
            ResponseCode::Unauthorized => "Unauthorized".spec_bytes(),
            ResponseCode::PaymentRequired => "Payment Required".spec_bytes(),
            ResponseCode::Forbidden => "Forbidden".spec_bytes(),
            ResponseCode::NotFound => "Not Found".spec_bytes(),
            ResponseCode::MethodNotAllowed => "Method Not Allowed".spec_bytes(),
            ResponseCode::NotAcceptable => "Not Acceptable".spec_bytes(),
            ResponseCode::ProxyAuthenticationRequired => "Proxy Authentication Required".spec_bytes(),
            ResponseCode::RequestTimeout => "Request Time-out".spec_bytes(),
            ResponseCode::Conflict => "Conflict".spec_bytes(),
            ResponseCode::Gone => "Gone".spec_bytes(),
            ResponseCode::LengthRequired => "Length Required".spec_bytes(),
            ResponseCode::PreconditionFailed => "Precondition Failed".spec_bytes(),
            ResponseCode::RequestEntityTooLarge => "Request Entity Too Large".spec_bytes(),
            ResponseCode::RequestURITooLarge => "Request-URI Too Large".spec_bytes(),
            ResponseCode::UnsupportedMediaType => "Unsupported Media Type".spec_bytes(),
            ResponseCode::RequestedRangeNotSatisfiable => "Requested range not satisfiable".spec_bytes(),
            ResponseCode::ExpectationFailed => "Expectation Failed".spec_bytes(),
            ResponseCode::InternalServerError => "Internal Server Error".spec_bytes(),
            ResponseCode::NotImplemented => "Not Implemented".spec_bytes(),
            ResponseCode::BadGateway => "Bad Gateway".spec_bytes(),
            ResponseCode::ServiceUnavailable => "Service Unavailable".spec_bytes(),
            ResponseCode::GatewayTimeout => "Gateway Time-out".spec_bytes(),
            ResponseCode::HTTPVersionNotSupported => "HTTP Version not supported".spec_bytes(),
            ResponseCode::Custom(_, info) => info@,
        }
    }

    /// The (code, reason) pair, the reason as owned bytes.
    pub fn get(&self) -> (r: (u16, Vec<u8>))
        ensures
            r.0 as int == self.spec_code(),
            r.1@ == self.spec_reason(),
    {
        match self {
            ResponseCode::Continue => (100, "Continue".as_bytes_vec()),
            ResponseCode::SwitchingProtocols => (101, "Switching Protocols".as_bytes_vec()),
            ResponseCode::OK => (200, "OK".as_bytes_vec()),
            ResponseCode::Created => (201, "Created".as_bytes_vec()),
            ResponseCode::Accepted => (202, "Accepted".as_bytes_vec()),
            ResponseCode::NonAuthoritativeInformation => (
                203,
                "Non-Authoritative Information".as_bytes_vec(),
            ),
            ResponseCode::NoContent => (204, "No Content".as_bytes_vec()),
            ResponseCode::ResetContent => (205, "Reset Content".as_bytes_vec()),
            ResponseCode::PartialContent => (206, "Partial Content".as_bytes_vec()),
            ResponseCode::MultipleChoices => (300, "Multiple Choices".as_bytes_vec()),
            ResponseCode::MovedPermanently => (301, "Moved Permanently".as_bytes_vec()),
            ResponseCode::Found => (302, "Found".as_bytes_vec()),
            ResponseCode::SeeOther => (303, "See Other".as_bytes_vec()),
            ResponseCode::NotModified => (304, "Not Modified".as_bytes_vec()),
            ResponseCode::UseProxy => (305, "Use Proxy".as_bytes_vec()),
            ResponseCode::TemporaryRedirect => (307, "Temporary Redirect".as_bytes_vec()),
            ResponseCode::BadRequest => (400, "Bad Request".as_bytes_vec()),
            ResponseCode::Unauthorized => (401, "Unauthorized".as_bytes_vec()),
            ResponseCode::PaymentRequired => (402, "Payment Required".as_bytes_vec()),
            ResponseCode::Forbidden => (403, "Forbidden".as_bytes_vec()),
            ResponseCode::NotFound => (404, "Not Found".as_bytes_vec()),
            ResponseCode::MethodNotAllowed => (405, "Method Not Allowed".as_bytes_vec()),
            ResponseCode::NotAcceptable => (406, "Not Acceptable".as_bytes_vec()),
            ResponseCode::ProxyAuthenticationRequired => (
                407,
                "Proxy Authentication Required".as_bytes_vec(),
            ),
            ResponseCode::RequestTimeout => (408, "Request Time-out".as_bytes_vec()),
            ResponseCode::Conflict => (409, "Conflict".as_bytes_vec()),
            ResponseCode::Gone => (410, "Gone".as_bytes_vec()),
            ResponseCode::LengthRequired => (411, "Length Required".as_bytes_vec()),
            ResponseCode::PreconditionFailed => (412, "Precondition Failed".as_bytes_vec()),
            ResponseCode::RequestEntityTooLarge => (
                413,
                "Request Entity Too Large".as_bytes_vec(),
            ),
            ResponseCode::RequestURITooLarge => (414, "Request-URI Too Large".as_bytes_vec()),
            ResponseCode::UnsupportedMediaType => (415, "Unsupported Media Type".as_bytes_vec()),
            ResponseCode::RequestedRangeNotSatisfiable => (
                416,
                "Requested range not satisfiable".as_bytes_vec(),
            ),
            ResponseCode::ExpectationFailed => (417, "Expectation Failed".as_bytes_vec()),
            ResponseCode::InternalServerError => (500, "Internal Server Error".as_bytes_vec()),
            ResponseCode::NotImplemented => (501, "Not Implemented".as_bytes_vec()),
            ResponseCode::BadGateway => (502, "Bad Gateway".as_bytes_vec()),
            ResponseCode::ServiceUnavailable => (503, "Service Unavailable".as_bytes_vec()),
            ResponseCode::GatewayTimeout => (504, "Gateway Time-out".as_bytes_vec()),
            ResponseCode::HTTPVersionNotSupported => (
                505,
                "HTTP Version not supported".as_bytes_vec(),
            ),
            ResponseCode::Custom(code, info) => (*code, sub_vec(info, 0, info.len())),
        }
    }
}

} // verus!
