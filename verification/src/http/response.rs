//! Writing a response: a status line, a line for each header, an empty line
//! and the body.

use crate::http::header::{HeaderView, KnownHeader};
use crate::http::request::{body_view, headers_view};
use crate::http::types::{HttpRequestError, HttpStatusCode, HttpVersion};
use crate::string_map::StringMap;
use vstd::prelude::*;
use vstd::string::StringExecFns;

verus! {

/// A response.
#[derive(Debug, PartialEq, Eq)]
pub struct HttpResponse {
    pub version: HttpVersion,
    pub status_code: HttpStatusCode,
    /// The headers, each under its name.
    pub headers: StringMap<KnownHeader>,
    pub body: Option<String>,
}

/// An `HttpResponse` as a mathematical value.
pub ghost struct ResponseView {
    pub version: HttpVersion,
    pub status_code: HttpStatusCode,
    pub headers: Map<Seq<char>, HeaderView>,
    pub body: Option<Seq<char>>,
}

/// The first line of a response: the version, the number of the status and
/// the words that go with it.
pub open spec fn status_line(version: HttpVersion, status: HttpStatusCode) -> Seq<char> {
    version.text() + " "@ + status.number_text() + " "@ + status.reason() + "\r\n"@
}

/// The line of one header: its name, a colon, a blank and its value.
pub open spec fn header_line(name: Seq<char>, value: HeaderView) -> Seq<char> {
    name + ": "@ + value.text() + "\r\n"@
}

/// The lines of the given headers, one behind the other.
pub open spec fn header_lines(headers: Seq<(Seq<char>, KnownHeader)>) -> Seq<char>
    decreases headers.len(),
{
    if headers.len() == 0 {
        Seq::empty()
    } else {
        header_lines(headers.drop_last()) + header_line(headers.last().0, headers.last().1@)
    }
}

impl HttpResponse {
    /// The response as a mathematical value.
    pub open spec fn view(&self) -> ResponseView {
        ResponseView {
            version: self.version,
            status_code: self.status_code,
            headers: headers_view(self.headers),
            body: body_view(self.body),
        }
    }

    /// The response as text: the status line, the headers in ascending order
    /// of their names, an empty line, and the body as it is.
    pub open spec fn text(&self) -> Seq<char> {
        status_line(self.version, self.status_code) + header_lines(self.headers.pairs()) + "\r\n"@
            + match self.body {
            Some(b) => b@,
            None => Seq::empty(),
        }
    }

    /// The response to a request that could not be read: `400 Bad Request`
    /// without headers or body.
    pub fn bad_request() -> (r: HttpResponse)
        ensures
            r.version == HttpVersion::HTTP11,
            r.status_code == HttpStatusCode::BadRequest,
            r.headers.pairs() == Seq::<(Seq<char>, KnownHeader)>::empty(),
            r.body is None,
    {
        HttpResponse {
            version: HttpVersion::HTTP11,
            status_code: HttpStatusCode::BadRequest,
            headers: StringMap::new(),
            body: None,
        }
    }
}

/// The text of the response to a request that could not be read.
pub open spec fn bad_request_text() -> Seq<char> {
    status_line(HttpVersion::HTTP11, HttpStatusCode::BadRequest) + "\r\n"@
}

/// Writes `response` as text. This never fails.
pub fn write_http_response(response: HttpResponse) -> (r: Result<String, HttpRequestError>)
    ensures
        r matches Ok(text) && text@ == response.text(),
{
    let mut output = response.version.to_str().to_owned();
    output.append(" ");
    output.append(response.status_code.to_str());
    output.append(" ");
    output.append(response.status_code.status_text());
    output.append("\r\n");
    let ghost head = output@;
    let count = response.headers.len();
    let mut i: usize = 0;
    assert(response.headers.pairs().take(0) =~= Seq::<(Seq<char>, KnownHeader)>::empty());
    while i < count
        invariant
            i <= count,
            count == response.headers.pairs().len(),
            head == status_line(response.version, response.status_code),
            output@ == head + header_lines(response.headers.pairs().take(i as int)),
        decreases count - i,
    {
        let (name, value) = response.headers.entry(i);
        let ghost done = response.headers.pairs().take(i as int);
        let ghost grown = response.headers.pairs().take(i + 1);
        proof {
            assert(grown.drop_last() =~= done);
            assert(grown.last() == response.headers.pairs()[i as int]);
        }
        output.append(name.as_str());
        output.append(": ");
        value.write_value(&mut output);
        output.append("\r\n");
        proof {
            assert(output@ =~= head + (header_lines(done) + header_line(name@, value@)));
        }
        i += 1;
    }
    assert(response.headers.pairs().take(i as int) =~= response.headers.pairs());
    output.append("\r\n");
    match &response.body {
        Some(body) => {
            output.append(body.as_str());
        },
        None => {
            assert(output@ + Seq::<char>::empty() =~= output@);
        },
    }
    Ok(output)
}

/// Reads a response. Nothing is read yet: the result is always
/// `HTTP/1.1 200 OK` without headers or body.
pub fn read_http_response(input: &str) -> (r: Result<HttpResponse, HttpRequestError>)
    ensures
        r matches Ok(response) && response.version == HttpVersion::HTTP11 && response.status_code
            == HttpStatusCode::OK && response.headers.pairs() == Seq::<
            (Seq<char>, KnownHeader),
        >::empty() && response.body is None,
{
    Ok(
        HttpResponse {
            version: HttpVersion::HTTP11,
            status_code: HttpStatusCode::OK,
            headers: StringMap::new(),
            body: None,
        },
    )
}

} // verus!
