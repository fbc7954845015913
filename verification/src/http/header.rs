//! Content types and header values.

use crate::text::convert::{lowercase, lowercase_of, spells, to_chars};
use crate::text::number::{
    decimal_digits, lemma_decimal_digits, natural_value, parse_usize, push_decimal,
};
use vstd::prelude::*;
use vstd::string::StringExecFns;

verus! {

/// The type of a message body.
#[derive(Debug, PartialEq, Eq, Hash, Clone)]
pub enum HttpContentType {
    TextHtml,
    ApplicationJson,
    ApplicationXml,
    TextPlain,
    MultipartFormData,
    ApplicationXWwwFormUrlencoded,
    EventStream,
    /// A type that this library has no name for, as it was written.
    Other(String),
}

/// An `HttpContentType` as a mathematical value.
pub ghost enum ContentTypeView {
    TextHtml,
    ApplicationJson,
    ApplicationXml,
    TextPlain,
    MultipartFormData,
    ApplicationXWwwFormUrlencoded,
    EventStream,
    Other(Seq<char>),
}

impl ContentTypeView {
    /// The text that stands for the content type in a header.
    pub open spec fn text(self) -> Seq<char> {
        match self {
            ContentTypeView::TextHtml => "text/html"@,
            ContentTypeView::ApplicationJson => "application/json"@,
            ContentTypeView::ApplicationXml => "application/xml"@,
            ContentTypeView::TextPlain => "text/plain"@,
            ContentTypeView::MultipartFormData => "multipart/form-data"@,
            ContentTypeView::ApplicationXWwwFormUrlencoded => "application/x-www-form-urlencoded"@,
            ContentTypeView::EventStream => "text/event-stream"@,
            ContentTypeView::Other(s) => s,
        }
    }

    /// The content type that the text `s` stands for: one of the named types
    /// where `s` is its text, and else `Other` with `s` itself.
    pub open spec fn named(s: Seq<char>) -> ContentTypeView {
        if s == "text/html"@ {
            ContentTypeView::TextHtml
        } else if s == "application/json"@ {
            ContentTypeView::ApplicationJson
        } else if s == "application/xml"@ {
            ContentTypeView::ApplicationXml
        } else if s == "text/plain"@ {
            ContentTypeView::TextPlain
        } else if s == "multipart/form-data"@ {
            ContentTypeView::MultipartFormData
        } else if s == "application/x-www-form-urlencoded"@ {
            ContentTypeView::ApplicationXWwwFormUrlencoded
        } else if s == "text/event-stream"@ {
            ContentTypeView::EventStream
        } else {
            ContentTypeView::Other(s)
        }
    }

    /// Whether the content type is what some text stands for: every named
    /// type is, and `Other` is unless it carries the text of a named type.
    pub open spec fn canonical(self) -> bool {
        self matches ContentTypeView::Other(s) ==> ContentTypeView::named(s) == self
    }

    /// Every text is the text of the content type that it stands for.
    pub proof fn lemma_named_text(s: Seq<char>)
        ensures
            ContentTypeView::named(s).text() == s,
            ContentTypeView::named(s).canonical(),
    {
    }

    /// A content type that some text stands for is the one that its own text
    /// stands for.
    pub proof fn lemma_text_named(self)
        requires
            self.canonical(),
        ensures
            ContentTypeView::named(self.text()) == self,
    {
        reveal_strlit("text/html");
        reveal_strlit("application/json");
        reveal_strlit("application/xml");
        reveal_strlit("text/plain");
        reveal_strlit("multipart/form-data");
        reveal_strlit("application/x-www-form-urlencoded");
        reveal_strlit("text/event-stream");
        assert("text/html"@.len() == 9);
        assert("application/json"@.len() == 16);
        assert("application/xml"@.len() == 15);
        assert("text/plain"@.len() == 10);
        assert("multipart/form-data"@.len() == 19);
        assert("application/x-www-form-urlencoded"@.len() == 33);
        assert("text/event-stream"@.len() == 17);
    }
}

impl HttpContentType {
    /// The content type as a mathematical value.
    pub open spec fn view(&self) -> ContentTypeView {
        match self {
            HttpContentType::TextHtml => ContentTypeView::TextHtml,
            HttpContentType::ApplicationJson => ContentTypeView::ApplicationJson,
            HttpContentType::ApplicationXml => ContentTypeView::ApplicationXml,
            HttpContentType::TextPlain => ContentTypeView::TextPlain,
            HttpContentType::MultipartFormData => ContentTypeView::MultipartFormData,
            HttpContentType::ApplicationXWwwFormUrlencoded => {
                ContentTypeView::ApplicationXWwwFormUrlencoded
            },
            HttpContentType::EventStream => ContentTypeView::EventStream,
            HttpContentType::Other(s) => ContentTypeView::Other(s@),
        }
    }

    /// The content type that `content_type` stands for.
    pub fn from_str(content_type: &str) -> (r: HttpContentType)
        ensures
            r@ == ContentTypeView::named(content_type@),
    {
        let chars = to_chars(content_type);
        let chars = chars.as_slice();
        if spells(chars, "text/html") {
            HttpContentType::TextHtml
        } else if spells(chars, "application/json") {
            HttpContentType::ApplicationJson
        } else if spells(chars, "application/xml") {
            HttpContentType::ApplicationXml
        } else if spells(chars, "text/plain") {
            HttpContentType::TextPlain
        } else if spells(chars, "multipart/form-data") {
            HttpContentType::MultipartFormData
        } else if spells(chars, "application/x-www-form-urlencoded") {
            HttpContentType::ApplicationXWwwFormUrlencoded
        } else if spells(chars, "text/event-stream") {
            HttpContentType::EventStream
        } else {
            HttpContentType::Other(content_type.to_owned())
        }
    }

    /// The text that stands for the content type.
    pub fn to_str(&self) -> (r: &str)
        ensures
            r@ == self@.text(),
    {
        match self {
            HttpContentType::TextHtml => "text/html",
            HttpContentType::ApplicationJson => "application/json",
            HttpContentType::ApplicationXml => "application/xml",
            HttpContentType::TextPlain => "text/plain",
            HttpContentType::MultipartFormData => "multipart/form-data",
            HttpContentType::ApplicationXWwwFormUrlencoded => "application/x-www-form-urlencoded",
            HttpContentType::EventStream => "text/event-stream",
            HttpContentType::Other(s) => s.as_str(),
        }
    }
}

/// The value of a header, told apart by the header's name.
#[derive(Debug, PartialEq, Eq, Hash, Clone)]
pub enum KnownHeader {
    ContentType(HttpContentType),
    ContentLength(usize),
    UserAgent(String),
    Accept(String),
    Host(String),
    Authorization(String),
    CacheControl(String),
    Connection(String),
    Cookie(String),
    Referer(String),
    /// The value of a header that this library has no name for, or of a
    /// `Content-Length` that is no number.
    Other(String),
}

/// A `KnownHeader` as a mathematical value.
pub ghost enum HeaderView {
    ContentType(ContentTypeView),
    ContentLength(nat),
    UserAgent(Seq<char>),
    Accept(Seq<char>),
    Host(Seq<char>),
    Authorization(Seq<char>),
    CacheControl(Seq<char>),
    Connection(Seq<char>),
    Cookie(Seq<char>),
    Referer(Seq<char>),
    Other(Seq<char>),
}

impl HeaderView {
    /// The text that a header line shows for the value.
    pub open spec fn text(self) -> Seq<char> {
        match self {
            HeaderView::ContentType(t) => t.text(),
            HeaderView::ContentLength(n) => decimal_digits(n),
            HeaderView::UserAgent(s) => s,
            HeaderView::Accept(s) => s,
            HeaderView::Host(s) => s,
            HeaderView::Authorization(s) => s,
            HeaderView::CacheControl(s) => s,
            HeaderView::Connection(s) => s,
            HeaderView::Cookie(s) => s,
            HeaderView::Referer(s) => s,
            HeaderView::Other(s) => s,
        }
    }

    /// The value of the header whose name, in lower case, is `name` and whose
    /// text is `value`.
    pub open spec fn of(name: Seq<char>, value: Seq<char>) -> HeaderView {
        if name == "content-type"@ {
            HeaderView::ContentType(ContentTypeView::named(value))
        } else if name == "content-length"@ {
            match natural_value(value) {
                Some(n) if n <= usize::MAX => HeaderView::ContentLength(n),
                _ => HeaderView::Other(value),
            }
        } else if name == "user-agent"@ {
            HeaderView::UserAgent(value)
        } else if name == "accept"@ {
            HeaderView::Accept(value)
        } else if name == "host"@ {
            HeaderView::Host(value)
        } else if name == "authorization"@ {
            HeaderView::Authorization(value)
        } else if name == "cache-control"@ {
            HeaderView::CacheControl(value)
        } else if name == "connection"@ {
            HeaderView::Connection(value)
        } else if name == "cookie"@ {
            HeaderView::Cookie(value)
        } else if name == "referer"@ {
            HeaderView::Referer(value)
        } else {
            HeaderView::Other(value)
        }
    }
}

impl HeaderView {
    /// The name, in lower case, under which a value of this kind is read.
    /// `Other` stands for every name that is none of these.
    pub open spec fn name(self) -> Option<Seq<char>> {
        match self {
            HeaderView::ContentType(_) => Some("content-type"@),
            HeaderView::ContentLength(_) => Some("content-length"@),
            HeaderView::UserAgent(_) => Some("user-agent"@),
            HeaderView::Accept(_) => Some("accept"@),
            HeaderView::Host(_) => Some("host"@),
            HeaderView::Authorization(_) => Some("authorization"@),
            HeaderView::CacheControl(_) => Some("cache-control"@),
            HeaderView::Connection(_) => Some("connection"@),
            HeaderView::Cookie(_) => Some("cookie"@),
            HeaderView::Referer(_) => Some("referer"@),
            HeaderView::Other(_) => None,
        }
    }

    /// A header value that is written as text and read again under the name
    /// of its kind is the same value, where its content type is one that
    /// some text stands for and its length fits `usize`.
    pub proof fn lemma_text_of(self)
        requires
            self.name() is Some,
            self matches HeaderView::ContentType(t) ==> t.canonical(),
            self matches HeaderView::ContentLength(n) ==> n <= usize::MAX,
        ensures
            HeaderView::of(self.name().unwrap(), self.text()) == self,
    {
        reveal_strlit("content-type");
        reveal_strlit("content-length");
        reveal_strlit("user-agent");
        reveal_strlit("accept");
        reveal_strlit("host");
        reveal_strlit("authorization");
        reveal_strlit("cache-control");
        reveal_strlit("connection");
        reveal_strlit("cookie");
        reveal_strlit("referer");
        assert("content-type"@.len() == 12);
        assert("content-length"@.len() == 14);
        assert("user-agent"@.len() == 10 && "connection"@.len() == 10);
        assert("accept"@.len() == 6 && "cookie"@.len() == 6);
        assert("host"@.len() == 4);
        assert("authorization"@.len() == 13 && "cache-control"@.len() == 13);
        assert("referer"@.len() == 7);
        assert("user-agent"@[0] != "connection"@[0]);
        assert("accept"@[0] != "cookie"@[0]);
        assert("authorization"@[0] != "cache-control"@[0]);
        match self {
            HeaderView::ContentType(t) => {
                t.lemma_text_named();
            },
            HeaderView::ContentLength(n) => {
                lemma_decimal_digits(n);
            },
            _ => {},
        }
    }
}

impl KnownHeader {
    /// The header value as a mathematical value.
    pub open spec fn view(&self) -> HeaderView {
        match self {
            KnownHeader::ContentType(t) => HeaderView::ContentType(t@),
            KnownHeader::ContentLength(n) => HeaderView::ContentLength(*n as nat),
            KnownHeader::UserAgent(s) => HeaderView::UserAgent(s@),
            KnownHeader::Accept(s) => HeaderView::Accept(s@),
            KnownHeader::Host(s) => HeaderView::Host(s@),
            KnownHeader::Authorization(s) => HeaderView::Authorization(s@),
            KnownHeader::CacheControl(s) => HeaderView::CacheControl(s@),
            KnownHeader::Connection(s) => HeaderView::Connection(s@),
            KnownHeader::Cookie(s) => HeaderView::Cookie(s@),
            KnownHeader::Referer(s) => HeaderView::Referer(s@),
            KnownHeader::Other(s) => HeaderView::Other(s@),
        }
    }

    /// The value of the header whose name, already in lower case, is
    /// `lower_name` and whose text is `value`.
    pub fn classify(lower_name: &str, value: &str) -> (r: KnownHeader)
        ensures
            r@ == HeaderView::of(lower_name@, value@),
    {
        let name = to_chars(lower_name);
        let name = name.as_slice();
        if spells(name, "content-type") {
            KnownHeader::ContentType(HttpContentType::from_str(value))
        } else if spells(name, "content-length") {
            let digits = to_chars(value);
            match parse_usize(digits.as_slice()) {
                Some(n) => KnownHeader::ContentLength(n),
                None => KnownHeader::Other(value.to_owned()),
            }
        } else if spells(name, "user-agent") {
            KnownHeader::UserAgent(value.to_owned())
        } else if spells(name, "accept") {
            KnownHeader::Accept(value.to_owned())
        } else if spells(name, "host") {
            KnownHeader::Host(value.to_owned())
        } else if spells(name, "authorization") {
            KnownHeader::Authorization(value.to_owned())
        } else if spells(name, "cache-control") {
            KnownHeader::CacheControl(value.to_owned())
        } else if spells(name, "connection") {
            KnownHeader::Connection(value.to_owned())
        } else if spells(name, "cookie") {
            KnownHeader::Cookie(value.to_owned())
        } else if spells(name, "referer") {
            KnownHeader::Referer(value.to_owned())
        } else {
            KnownHeader::Other(value.to_owned())
        }
    }

    /// The value of the header named `header_name`, in whatever case, whose
    /// text is `header_value`.
    pub fn from_str(header_name: &str, header_value: &str) -> (r: KnownHeader)
        ensures
            r@ == HeaderView::of(lowercase_of(header_name@), header_value@),
    {
        let lower = lowercase(header_name);
        KnownHeader::classify(lower.as_str(), header_value)
    }

    /// Appends to `out` the text that a header line shows for the value.
    pub fn write_value(&self, out: &mut String)
        ensures
            final(out)@ == old(out)@ + self@.text(),
    {
        match self {
            KnownHeader::ContentType(t) => out.append(t.to_str()),
            KnownHeader::ContentLength(n) => push_decimal(out, *n),
            KnownHeader::UserAgent(s) => out.append(s.as_str()),
            KnownHeader::Accept(s) => out.append(s.as_str()),
            KnownHeader::Host(s) => out.append(s.as_str()),
            KnownHeader::Authorization(s) => out.append(s.as_str()),
            KnownHeader::CacheControl(s) => out.append(s.as_str()),
            KnownHeader::Connection(s) => out.append(s.as_str()),
            KnownHeader::Cookie(s) => out.append(s.as_str()),
            KnownHeader::Referer(s) => out.append(s.as_str()),
            KnownHeader::Other(s) => out.append(s.as_str()),
        }
    }
}

} // verus!
