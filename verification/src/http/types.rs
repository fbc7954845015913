//! The vocabulary of HTTP: methods, versions, status codes, content types
//! and headers, each with the text that stands for it.

use crate::text::convert::{spells, to_chars};
use crate::text::number::decimal_digits;
use vstd::prelude::*;

verus! {

/// Why a request could not be read.
#[derive(Debug, PartialEq, Eq, Hash, Clone)]
pub enum HttpRequestError {
    /// The request line does not have three parts.
    InvalidRequest(String),
    /// A header line has no colon.
    InvalidHeader(String),
    /// The method is none that this library knows; it is carried along.
    InvalidMethod(String),
    /// The version is none that this library knows; it is carried along.
    InvalidVersion(String),
}

/// What an `HttpRequestError` says, with its text as a sequence of
/// characters.
pub ghost enum RequestFault {
    InvalidRequest(Seq<char>),
    InvalidHeader(Seq<char>),
    InvalidMethod(Seq<char>),
    InvalidVersion(Seq<char>),
}

impl HttpRequestError {
    /// The error as a mathematical value.
    pub open spec fn view(&self) -> RequestFault {
        match self {
            HttpRequestError::InvalidRequest(m) => RequestFault::InvalidRequest(m@),
            HttpRequestError::InvalidHeader(m) => RequestFault::InvalidHeader(m@),
            HttpRequestError::InvalidMethod(m) => RequestFault::InvalidMethod(m@),
            HttpRequestError::InvalidVersion(m) => RequestFault::InvalidVersion(m@),
        }
    }
}

/// A request method.
#[derive(Debug, PartialEq, Eq, Hash, Clone, Copy)]
pub enum HttpMethod {
    GET,
    POST,
    PUT,
    DELETE,
    HEAD,
    OPTIONS,
    PATCH,
    TRACE,
    CONNECT,
}

impl HttpMethod {
    /// The word that stands for the method in a request line.
    pub open spec fn text(self) -> Seq<char> {
        match self {
            HttpMethod::GET => "GET"@,
            HttpMethod::POST => "POST"@,
            HttpMethod::PUT => "PUT"@,
            HttpMethod::DELETE => "DELETE"@,
            HttpMethod::HEAD => "HEAD"@,
            HttpMethod::OPTIONS => "OPTIONS"@,
            HttpMethod::PATCH => "PATCH"@,
            HttpMethod::TRACE => "TRACE"@,
            HttpMethod::CONNECT => "CONNECT"@,
        }
    }

    /// The method that the word `s` stands for, if it stands for one.
    pub open spec fn named(s: Seq<char>) -> Option<HttpMethod> {
        if s == "GET"@ {
            Some(HttpMethod::GET)
        } else if s == "POST"@ {
            Some(HttpMethod::POST)
        } else if s == "PUT"@ {
            Some(HttpMethod::PUT)
        } else if s == "DELETE"@ {
            Some(HttpMethod::DELETE)
        } else if s == "HEAD"@ {
            Some(HttpMethod::HEAD)
        } else if s == "OPTIONS"@ {
            Some(HttpMethod::OPTIONS)
        } else if s == "PATCH"@ {
            Some(HttpMethod::PATCH)
        } else if s == "TRACE"@ {
            Some(HttpMethod::TRACE)
        } else if s == "CONNECT"@ {
            Some(HttpMethod::CONNECT)
        } else {
            None
        }
    }

    /// Each method is the one that its own word stands for, and a word stands
    /// for no method but the one that is written so.
    pub proof fn lemma_text_names(m: HttpMethod, s: Seq<char>)
        ensures
            HttpMethod::named(m.text()) == Some(m),
            HttpMethod::named(s) == Some(m) ==> m.text() == s,
    {
        reveal_strlit("GET");
        reveal_strlit("POST");
        reveal_strlit("PUT");
        reveal_strlit("DELETE");
        reveal_strlit("HEAD");
        reveal_strlit("OPTIONS");
        reveal_strlit("PATCH");
        reveal_strlit("TRACE");
        reveal_strlit("CONNECT");
        assert("GET"@.len() == 3 && "PUT"@.len() == 3);
        assert("POST"@.len() == 4 && "HEAD"@.len() == 4);
        assert("PATCH"@.len() == 5 && "TRACE"@.len() == 5);
        assert("DELETE"@.len() == 6);
        assert("OPTIONS"@.len() == 7 && "CONNECT"@.len() == 7);
        assert("GET"@[0] != "PUT"@[0]);
        assert("POST"@[0] != "HEAD"@[0]);
        assert("PATCH"@[0] != "TRACE"@[0]);
        assert("OPTIONS"@[0] != "CONNECT"@[0]);
    }

    /// The method that `chars` spells.
    pub fn from_chars(chars: &[char]) -> (r: Option<HttpMethod>)
        ensures
            r == HttpMethod::named(chars@),
    {
        if spells(chars, "GET") {
            Some(HttpMethod::GET)
        } else if spells(chars, "POST") {
            Some(HttpMethod::POST)
        } else if spells(chars, "PUT") {
            Some(HttpMethod::PUT)
        } else if spells(chars, "DELETE") {
            Some(HttpMethod::DELETE)
        } else if spells(chars, "HEAD") {
            Some(HttpMethod::HEAD)
        } else if spells(chars, "OPTIONS") {
            Some(HttpMethod::OPTIONS)
        } else if spells(chars, "PATCH") {
            Some(HttpMethod::PATCH)
        } else if spells(chars, "TRACE") {
            Some(HttpMethod::TRACE)
        } else if spells(chars, "CONNECT") {
            Some(HttpMethod::CONNECT)
        } else {
            None
        }
    }

    /// The method that `method` names, or `InvalidMethod` with the word that
    /// names none.
    pub fn from_str(method: &str) -> (r: Result<HttpMethod, HttpRequestError>)
        ensures
            match r {
                Ok(m) => HttpMethod::named(method@) == Some(m),
                Err(e) => HttpMethod::named(method@) is None && e@ == RequestFault::InvalidMethod(
                    method@,
                ),
            },
    {
        let chars = to_chars(method);
        match HttpMethod::from_chars(chars.as_slice()) {
            Some(m) => Ok(m),
            None => Err(HttpRequestError::InvalidMethod(method.to_owned())),
        }
    }

    /// The word that stands for the method.
    pub fn to_str(&self) -> (r: &'static str)
        ensures
            r@ == self.text(),
    {
        match self {
            HttpMethod::GET => "GET",
            HttpMethod::POST => "POST",
            HttpMethod::PUT => "PUT",
            HttpMethod::DELETE => "DELETE",
            HttpMethod::HEAD => "HEAD",
            HttpMethod::OPTIONS => "OPTIONS",
            HttpMethod::PATCH => "PATCH",
            HttpMethod::TRACE => "TRACE",
            HttpMethod::CONNECT => "CONNECT",
        }
    }
}

/// A protocol version.
#[derive(Debug, PartialEq, Eq, Hash, Clone, Copy)]
pub enum HttpVersion {
    HTTP10,
    HTTP11,
    HTTP20,
}

impl HttpVersion {
    /// The word that stands for the version in a message.
    pub open spec fn text(self) -> Seq<char> {
        match self {
            HttpVersion::HTTP10 => "HTTP/1.0"@,
            HttpVersion::HTTP11 => "HTTP/1.1"@,
            HttpVersion::HTTP20 => "HTTP/2.0"@,
        }
    }

    /// The version that the word `s` stands for, if it stands for one.
    pub open spec fn named(s: Seq<char>) -> Option<HttpVersion> {
        if s == "HTTP/1.0"@ {
            Some(HttpVersion::HTTP10)
        } else if s == "HTTP/1.1"@ {
            Some(HttpVersion::HTTP11)
        } else if s == "HTTP/2.0"@ {
            Some(HttpVersion::HTTP20)
        } else {
            None
        }
    }

    /// Each version is the one that its own word stands for, and a word
    /// stands for no version but the one that is written so.
    pub proof fn lemma_text_names(v: HttpVersion, s: Seq<char>)
        ensures
            HttpVersion::named(v.text()) == Some(v),
            HttpVersion::named(s) == Some(v) ==> v.text() == s,
    {
        reveal_strlit("HTTP/1.0");
        reveal_strlit("HTTP/1.1");
        reveal_strlit("HTTP/2.0");
        assert("HTTP/1.0"@[7] != "HTTP/1.1"@[7]);
        assert("HTTP/1.0"@[5] != "HTTP/2.0"@[5]);
        assert("HTTP/1.1"@[5] != "HTTP/2.0"@[5]);
    }

    /// The version that `chars` spells.
    pub fn from_chars(chars: &[char]) -> (r: Option<HttpVersion>)
        ensures
            r == HttpVersion::named(chars@),
    {
        if spells(chars, "HTTP/1.0") {
            Some(HttpVersion::HTTP10)
        } else if spells(chars, "HTTP/1.1") {
            Some(HttpVersion::HTTP11)
        } else if spells(chars, "HTTP/2.0") {
            Some(HttpVersion::HTTP20)
        } else {
            None
        }
    }

    /// The version that `version` names, or `InvalidVersion` with the word
    /// that names none.
    pub fn from_str(version: &str) -> (r: Result<HttpVersion, HttpRequestError>)
        ensures
            match r {
                Ok(v) => HttpVersion::named(version@) == Some(v),
                Err(e) => HttpVersion::named(version@) is None && e@
                    == RequestFault::InvalidVersion(version@),
            },
    {
        let chars = to_chars(version);
        match HttpVersion::from_chars(chars.as_slice()) {
            Some(v) => Ok(v),
            None => Err(HttpRequestError::InvalidVersion(version.to_owned())),
        }
    }

    /// The word that stands for the version.
    pub fn to_str(&self) -> (r: &'static str)
        ensures
            r@ == self.text(),
    {
        match self {
            HttpVersion::HTTP10 => "HTTP/1.0",
            HttpVersion::HTTP11 => "HTTP/1.1",
            HttpVersion::HTTP20 => "HTTP/2.0",
        }
    }
}

/// The status of a response.
#[derive(Debug, PartialEq, Eq, Hash, Clone, Copy)]
pub enum HttpStatusCode {
    OK,
    Created,
    Accepted,
    NoContent,
    MovedPermanently,
    Found,
    NotModified,
    BadRequest,
    Unauthorized,
    Forbidden,
    NotFound,
    MethodNotAllowed,
    InternalServerError,
    NotImplemented,
    BadGateway,
    ServiceUnavailable,
}

impl HttpStatusCode {
    /// The number of the status.
    pub open spec fn number(self) -> nat {
        match self {
            HttpStatusCode::OK => 200,
            HttpStatusCode::Created => 201,
            HttpStatusCode::Accepted => 202,
            HttpStatusCode::NoContent => 204,
            HttpStatusCode::MovedPermanently => 301,
            HttpStatusCode::Found => 302,
            HttpStatusCode::NotModified => 304,
            HttpStatusCode::BadRequest => 400,
            HttpStatusCode::Unauthorized => 401,
            HttpStatusCode::Forbidden => 403,
            HttpStatusCode::NotFound => 404,
            HttpStatusCode::MethodNotAllowed => 405,
            HttpStatusCode::InternalServerError => 500,
            HttpStatusCode::NotImplemented => 501,
            HttpStatusCode::BadGateway => 502,
            HttpStatusCode::ServiceUnavailable => 503,
        }
    }

    /// The number of the status as it is written in a status line.
    pub open spec fn number_text(self) -> Seq<char> {
        match self {
            HttpStatusCode::OK => "200"@,
            HttpStatusCode::Created => "201"@,
            HttpStatusCode::Accepted => "202"@,
            HttpStatusCode::NoContent => "204"@,
            HttpStatusCode::MovedPermanently => "301"@,
            HttpStatusCode::Found => "302"@,
            HttpStatusCode::NotModified => "304"@,
            HttpStatusCode::BadRequest => "400"@,
            HttpStatusCode::Unauthorized => "401"@,
            HttpStatusCode::Forbidden => "403"@,
            HttpStatusCode::NotFound => "404"@,
            HttpStatusCode::MethodNotAllowed => "405"@,
            HttpStatusCode::InternalServerError => "500"@,
            HttpStatusCode::NotImplemented => "501"@,
            HttpStatusCode::BadGateway => "502"@,
            HttpStatusCode::ServiceUnavailable => "503"@,
        }
    }

    /// The words that go with the status in a status line.
    pub open spec fn reason(self) -> Seq<char> {
        match self {
            HttpStatusCode::OK => "OK"@,
            HttpStatusCode::Created => "Created"@,
            HttpStatusCode::Accepted => "Accepted"@,
            HttpStatusCode::NoContent => "No Content"@,
            HttpStatusCode::MovedPermanently => "Moved Permanently"@,
            HttpStatusCode::Found => "Found"@,
            HttpStatusCode::NotModified => "Not Modified"@,
            HttpStatusCode::BadRequest => "Bad Request"@,
            HttpStatusCode::Unauthorized => "Unauthorized"@,
            HttpStatusCode::Forbidden => "Forbidden"@,
            HttpStatusCode::NotFound => "Not Found"@,
            HttpStatusCode::MethodNotAllowed => "Method Not Allowed"@,
            HttpStatusCode::InternalServerError => "Internal Server Error"@,
            HttpStatusCode::NotImplemented => "Not Implemented"@,
            HttpStatusCode::BadGateway => "Bad Gateway"@,
            HttpStatusCode::ServiceUnavailable => "Service Unavailable"@,
        }
    }

    /// The written number of a status is its number in decimal digits.
    pub proof fn lemma_number_text(self)
        ensures
            self.number_text() == decimal_digits(self.number()),
    {
        reveal_strlit("200");
        reveal_strlit("201");
        reveal_strlit("202");
        reveal_strlit("204");
        reveal_strlit("301");
        reveal_strlit("302");
        reveal_strlit("304");
        reveal_strlit("400");
        reveal_strlit("401");
        reveal_strlit("403");
        reveal_strlit("404");
        reveal_strlit("405");
        reveal_strlit("500");
        reveal_strlit("501");
        reveal_strlit("502");
        reveal_strlit("503");
        let n = self.number();
        reveal_with_fuel(decimal_digits, 3);
        assert(self.number_text() =~= decimal_digits(n));
    }

    /// The number of the status.
    pub fn code(&self) -> (r: u16)
        ensures
            r == self.number(),
    {
        match self {
            HttpStatusCode::OK => 200,
            HttpStatusCode::Created => 201,
            HttpStatusCode::Accepted => 202,
            HttpStatusCode::NoContent => 204,
            HttpStatusCode::MovedPermanently => 301,
            HttpStatusCode::Found => 302,
            HttpStatusCode::NotModified => 304,
            HttpStatusCode::BadRequest => 400,
            HttpStatusCode::Unauthorized => 401,
            HttpStatusCode::Forbidden => 403,
            HttpStatusCode::NotFound => 404,
            HttpStatusCode::MethodNotAllowed => 405,
            HttpStatusCode::InternalServerError => 500,
            HttpStatusCode::NotImplemented => 501,
            HttpStatusCode::BadGateway => 502,
            HttpStatusCode::ServiceUnavailable => 503,
        }
    }

    /// The number of the status as it is written in a status line.
    pub fn to_str(&self) -> (r: &'static str)
        ensures
            r@ == self.number_text(),
    {
        match self {
            HttpStatusCode::OK => "200",
            HttpStatusCode::Created => "201",
            HttpStatusCode::Accepted => "202",
            HttpStatusCode::NoContent => "204",
            HttpStatusCode::MovedPermanently => "301",
            HttpStatusCode::Found => "302",
            HttpStatusCode::NotModified => "304",
            HttpStatusCode::BadRequest => "400",
            HttpStatusCode::Unauthorized => "401",
            HttpStatusCode::Forbidden => "403",
            HttpStatusCode::NotFound => "404",
            HttpStatusCode::MethodNotAllowed => "405",
            HttpStatusCode::InternalServerError => "500",
            HttpStatusCode::NotImplemented => "501",
            HttpStatusCode::BadGateway => "502",
            HttpStatusCode::ServiceUnavailable => "503",
        }
    }

    /// The words that go with the status in a status line.
    pub fn status_text(&self) -> (r: &'static str)
        ensures
            r@ == self.reason(),
    {
        match self {
            HttpStatusCode::OK => "OK",
            HttpStatusCode::Created => "Created",
            HttpStatusCode::Accepted => "Accepted",
            HttpStatusCode::NoContent => "No Content",
            HttpStatusCode::MovedPermanently => "Moved Permanently",
            HttpStatusCode::Found => "Found",
            HttpStatusCode::NotModified => "Not Modified",
            HttpStatusCode::BadRequest => "Bad Request",
            HttpStatusCode::Unauthorized => "Unauthorized",
            HttpStatusCode::Forbidden => "Forbidden",
            HttpStatusCode::NotFound => "Not Found",
            HttpStatusCode::MethodNotAllowed => "Method Not Allowed",
            HttpStatusCode::InternalServerError => "Internal Server Error",
            HttpStatusCode::NotImplemented => "Not Implemented",
            HttpStatusCode::BadGateway => "Bad Gateway",
            HttpStatusCode::ServiceUnavailable => "Service Unavailable",
        }
    }
}

} // verus!
