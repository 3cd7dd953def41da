//! The HTTP vocabulary: methods, protocol versions, status codes, and the
//! request and response values that travel through the service chain.

pub mod parser;
pub mod request;
pub mod response;
pub mod status_line;

use crate::text::{chars_eq, to_upper, uppercase};
use vstd::pervasive::unreached;
use vstd::prelude::*;

pub use request::Request;
pub use response::Response;

verus! {

/// The request methods that the server knows.
#[derive(Debug, Clone, Copy, PartialEq, Eq, Structural)]
pub enum Method {
    GET,
    POST,
    PUT,
    DELETE,
    HEAD,
    CONNECT,
    OPTIONS,
    TRACE,
    PATCH,
}

/// The method whose upper-case name is exactly `name`.
pub open spec fn method_named(name: Seq<char>) -> Option<Method> {
    if name == "GET"@ {
        Some(Method::GET)
    } else if name == "POST"@ {
        Some(Method::POST)
    } else if name == "PUT"@ {
        Some(Method::PUT)
    } else if name == "DELETE"@ {
        Some(Method::DELETE)
    } else if name == "HEAD"@ {
        Some(Method::HEAD)
    } else if name == "CONNECT"@ {
        Some(Method::CONNECT)
    } else if name == "OPTIONS"@ {
        Some(Method::OPTIONS)
    } else if name == "TRACE"@ {
        Some(Method::TRACE)
    } else if name == "PATCH"@ {
        Some(Method::PATCH)
    } else {
        None
    }
}

impl Method {
    /// The upper-case name of the method.
    pub open spec fn name(self) -> Seq<char> {
        match self {
            Method::GET => "GET"@,
            Method::POST => "POST"@,
            Method::PUT => "PUT"@,
            Method::DELETE => "DELETE"@,
            Method::HEAD => "HEAD"@,
            Method::CONNECT => "CONNECT"@,
            Method::OPTIONS => "OPTIONS"@,
            Method::TRACE => "TRACE"@,
            Method::PATCH => "PATCH"@,
        }
    }

    /// The upper-case name of the method.
    pub fn as_str(&self) -> (s: &'static str)
        ensures
            s@ == self.name(),
    {
        match self {
            Method::GET => "GET",
            Method::POST => "POST",
            Method::PUT => "PUT",
            Method::DELETE => "DELETE",
            Method::HEAD => "HEAD",
            Method::CONNECT => "CONNECT",
            Method::OPTIONS => "OPTIONS",
            Method::TRACE => "TRACE",
            Method::PATCH => "PATCH",
        }
    }

    /// Looks an upper-case name up; names in any other case are unknown here.
    pub fn from_name(name: &str) -> (m: Option<Method>)
        ensures
            m == method_named(name@),
    {
        if chars_eq(name, "GET") {
            Some(Method::GET)
        } else if chars_eq(name, "POST") {
            Some(Method::POST)
        } else if chars_eq(name, "PUT") {
            Some(Method::PUT)
        } else if chars_eq(name, "DELETE") {
            Some(Method::DELETE)
        } else if chars_eq(name, "HEAD") {
            Some(Method::HEAD)
        } else if chars_eq(name, "CONNECT") {
            Some(Method::CONNECT)
        } else if chars_eq(name, "OPTIONS") {
            Some(Method::OPTIONS)
        } else if chars_eq(name, "TRACE") {
            Some(Method::TRACE)
        } else if chars_eq(name, "PATCH") {
            Some(Method::PATCH)
        } else {
            None
        }
    }

    /// The method that `s` names, in any letter case, if it names one.
    pub fn lookup(s: &str) -> (m: Option<Method>)
        ensures
            m == method_named(uppercase(s@)),
    {
        let upper = to_upper(s);
        match Method::from_name(upper.as_str()) {
            Some(_) => Some(Method::from(s)),
            None => None,
        }
    }

    /// The method that `s` names, in any letter case. The caller has to know
    /// that `s` names one.
    pub fn from(s: &str) -> (m: Method)
        requires
            method_named(uppercase(s@)) is Some,
        ensures
            Some(m) == method_named(uppercase(s@)),
    {
        let upper = to_upper(s);
        match Method::from_name(upper.as_str()) {
            Some(m) => m,
            None => unreached(),
        }
    }
}

/// The protocol versions that a request line may carry.
#[derive(Debug, Clone, Copy, PartialEq, Eq, Structural)]
pub enum Version {
    HTTP1_0,
    HTTP1_1,
    HTTP2_0,
    UNKNOWN,
}

/// The version that a request-line token stands for.
pub open spec fn version_named(token: Seq<char>) -> Version {
    if token == "HTTP/1.0"@ {
        Version::HTTP1_0
    } else if token == "HTTP/1.1"@ {
        Version::HTTP1_1
    } else if token == "HTTP/2.0"@ {
        Version::HTTP2_0
    } else {
        Version::UNKNOWN
    }
}

impl Version {
    /// The text that stands for the version on the wire.
    pub open spec fn text(self) -> Seq<char> {
        match self {
            Version::HTTP1_0 => "HTTP/1.0"@,
            Version::HTTP1_1 => "HTTP/1.1"@,
            Version::HTTP2_0 => "HTTP/2.0"@,
            Version::UNKNOWN => "UNKNOWN"@,
        }
    }

    /// The version that `token` stands for; any unknown token is `UNKNOWN`.
    pub fn from(token: &str) -> (v: Version)
        ensures
            v == version_named(token@),
    {
        if chars_eq(token, "HTTP/1.0") {
            Version::HTTP1_0
        } else if chars_eq(token, "HTTP/1.1") {
            Version::HTTP1_1
        } else if chars_eq(token, "HTTP/2.0") {
            Version::HTTP2_0
        } else {
            Version::UNKNOWN
        }
    }

    /// The text that stands for the version on the wire.
    pub fn as_str(&self) -> (s: &'static str)
        ensures
            s@ == self.text(),
    {
        match self {
            Version::HTTP1_0 => "HTTP/1.0",
            Version::HTTP1_1 => "HTTP/1.1",
            Version::HTTP2_0 => "HTTP/2.0",
            Version::UNKNOWN => "UNKNOWN",
        }
    }
}

/// The status codes that the server sends.
#[derive(Debug, Clone, Copy, PartialEq, Eq, Structural)]
pub enum StatusCode {
    OK,
    Created,
    Accepted,
    NoContent,
    BadRequest,
    Unauthorized,
    Forbidden,
    NotFound,
    MethodNotAllowed,
    InternalServerError,
    NotImplemented,
    BadGateway,
    ServiceUnavailable,
}

impl StatusCode {
    /// The three-digit number of the status.
    pub open spec fn number(self) -> nat {
        match self {
            StatusCode::OK => 200,
            StatusCode::Created => 201,
            StatusCode::Accepted => 202,
            StatusCode::NoContent => 204,
            StatusCode::BadRequest => 400,
            StatusCode::Unauthorized => 401,
            StatusCode::Forbidden => 403,
            StatusCode::NotFound => 404,
            StatusCode::MethodNotAllowed => 405,
            StatusCode::InternalServerError => 500,
            StatusCode::NotImplemented => 501,
            StatusCode::BadGateway => 502,
            StatusCode::ServiceUnavailable => 503,
        }
    }

    /// The reason phrase that goes with the status.
    pub open spec fn reason(self) -> Seq<char> {
        match self {
            StatusCode::OK => "OK"@,
            StatusCode::Created => "Created"@,
            StatusCode::Accepted => "Accepted"@,
            StatusCode::NoContent => "No Content"@,
            StatusCode::BadRequest => "Bad Request"@,
            StatusCode::Unauthorized => "Unauthorized"@,
            StatusCode::Forbidden => "Forbidden"@,
            StatusCode::NotFound => "Not Found"@,
            StatusCode::MethodNotAllowed => "Method Not Allowed"@,
            StatusCode::InternalServerError => "Internal Server Error"@,
            StatusCode::NotImplemented => "Not Implemented"@,
            StatusCode::BadGateway => "Bad Gateway"@,
            StatusCode::ServiceUnavailable => "Service Unavailable"@,
        }
    }

    /// The three-digit number of the status.
    pub fn code(&self) -> (n: u16)
        ensures
            n == self.number(),
    {
        match self {
            StatusCode::OK => 200,
            StatusCode::Created => 201,
            StatusCode::Accepted => 202,
            StatusCode::NoContent => 204,
            StatusCode::BadRequest => 400,
            StatusCode::Unauthorized => 401,
            StatusCode::Forbidden => 403,
            StatusCode::NotFound => 404,
            StatusCode::MethodNotAllowed => 405,
            StatusCode::InternalServerError => 500,
            StatusCode::NotImplemented => 501,
            StatusCode::BadGateway => 502,
            StatusCode::ServiceUnavailable => 503,
        }
    }

    /// The reason phrase that goes with the status.
    pub fn reason_phrase(&self) -> (s: &'static str)
        ensures
            s@ == self.reason(),
    {
        match self {
            StatusCode::OK => "OK",
            StatusCode::Created => "Created",
            StatusCode::Accepted => "Accepted",
            StatusCode::NoContent => "No Content",
            StatusCode::BadRequest => "Bad Request",
            StatusCode::Unauthorized => "Unauthorized",
            StatusCode::Forbidden => "Forbidden",
            StatusCode::NotFound => "Not Found",
            StatusCode::MethodNotAllowed => "Method Not Allowed",
            StatusCode::InternalServerError => "Internal Server Error",
            StatusCode::NotImplemented => "Not Implemented",
            StatusCode::BadGateway => "Bad Gateway",
            StatusCode::ServiceUnavailable => "Service Unavailable",
        }
    }
}

} // verus!
