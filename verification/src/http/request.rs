//! Reading a request: a request line, header lines up to an empty line, and
//! the lines of a body.

use crate::http::header::{HeaderView, KnownHeader};
use crate::http::path::{path_of, HttpPath, PathView};
use crate::http::types::{HttpMethod, HttpRequestError, HttpVersion, RequestFault};
use crate::string_map::StringMap;
use crate::text::convert::{lowercase_of, push_chars, to_chars, to_text};
use crate::text::scan::{is_whitespace, run_len, scan, CharClass};
use crate::text::split::{
    lemma_written_lines, lines_from, next_line, split_words, texts, trim, trimmed, words_from,
    written_lines,
};
use vstd::prelude::*;
use vstd::string::StringExecFns;

verus! {

/// A request.
#[derive(Debug, PartialEq, Eq)]
pub struct HttpRequest {
    pub method: HttpMethod,
    pub path: HttpPath,
    pub version: HttpVersion,
    /// The headers, each under its name as it was written.
    pub headers: StringMap<KnownHeader>,
    pub body: Option<String>,
}

/// An `HttpRequest` as a mathematical value.
pub ghost struct RequestView {
    pub method: HttpMethod,
    pub path: PathView,
    pub version: HttpVersion,
    pub headers: Map<Seq<char>, HeaderView>,
    pub body: Option<Seq<char>>,
}

/// Headers as a map from each name to the header's value.
pub open spec fn headers_view(headers: StringMap<KnownHeader>) -> Map<Seq<char>, HeaderView> {
    Map::new(|k: Seq<char>| headers@.contains_key(k), |k: Seq<char>| headers@[k]@)
}

/// A body as a mathematical value.
pub open spec fn body_view(body: Option<String>) -> Option<Seq<char>> {
    match body {
        Some(b) => Some(b@),
        None => None,
    }
}

impl HttpRequest {
    /// The request as a mathematical value.
    pub open spec fn view(&self) -> RequestView {
        RequestView {
            method: self.method,
            path: self.path@,
            version: self.version,
            headers: headers_view(self.headers),
            body: body_view(self.body),
        }
    }

    /// The request that an empty text stands for: `GET / HTTP/1.1` without
    /// headers or body.
    pub fn new() -> (r: HttpRequest)
        ensures
            r@ == RequestView::initial(),
    {
        let r = HttpRequest {
            method: HttpMethod::GET,
            path: HttpPath::from_str("/"),
            version: HttpVersion::HTTP11,
            headers: StringMap::new(),
            body: None,
        };
        assert(headers_view(r.headers) =~= Map::<Seq<char>, HeaderView>::empty());
        r
    }
}

/// What the reader expects of the next line.
#[derive(Debug, PartialEq, Eq, Clone, Copy)]
pub enum ParserState {
    /// The request line.
    RequestLine,
    /// A header line, or the empty line that ends the headers.
    Headers,
    /// A line of the body.
    Body,
}

impl RequestView {
    /// The request before any line was read.
    pub open spec fn initial() -> RequestView {
        RequestView {
            method: HttpMethod::GET,
            path: path_of("/"@),
            version: HttpVersion::HTTP11,
            headers: Map::empty(),
            body: None,
        }
    }

    /// The request after the request line `line`: three words, which name
    /// the method, the target and the version.
    pub open spec fn with_request_line(self, line: Seq<char>) -> Result<RequestView, RequestFault> {
        let words = words_from(line, 0);
        if words.len() != 3 {
            Err(RequestFault::InvalidRequest("Malformed request line"@))
        } else {
            match (HttpMethod::named(words[0]), HttpVersion::named(words[2])) {
                (None, _) => Err(RequestFault::InvalidMethod(words[0])),
                (Some(_), None) => Err(RequestFault::InvalidVersion(words[2])),
                (Some(method), Some(version)) => Ok(
                    RequestView { method, path: path_of(words[1]), version, ..self },
                ),
            }
        }
    }

    /// The request after the header line `line`: a name, a colon and a
    /// value, each of the two without the white space around it. The header
    /// is kept under its name as written, and its value is told by the name
    /// in lower case.
    pub open spec fn with_header_line(self, line: Seq<char>) -> Result<RequestView, RequestFault> {
        let colon = run_len(line, 0, CharClass::Except(':')) as int;
        if colon >= line.len() {
            Err(RequestFault::InvalidHeader("Malformed header line"@))
        } else {
            let name = trimmed(line.take(colon));
            let value = trimmed(line.skip(colon + 1));
            Ok(
                RequestView {
                    headers: self.headers.insert(name, HeaderView::of(lowercase_of(name), value)),
                    ..self
                },
            )
        }
    }

    /// The request after the body line `line`: the line, without the white
    /// space around it, starts the body or follows what the body has, set
    /// off by a carriage return and a line feed.
    pub open spec fn with_body_line(self, line: Seq<char>) -> RequestView {
        RequestView {
            body: match self.body {
                Some(b) => Some(b + "\r\n"@ + trimmed(line)),
                None => Some(trimmed(line)),
            },
            ..self
        }
    }
}

/// One step of the reader: from what it expects and what it has read so far,
/// a line leads to what it expects next and what it has read then, or to a
/// fault. The reader never goes back to an earlier state.
pub open spec fn step(state: ParserState, request: RequestView, line: Seq<char>) -> Result<
    (ParserState, RequestView),
    RequestFault,
> {
    match state {
        ParserState::RequestLine => match request.with_request_line(line) {
            Ok(next) => Ok((ParserState::Headers, next)),
            Err(e) => Err(e),
        },
        ParserState::Headers => if line.len() == 0 {
            Ok((ParserState::Body, request))
        } else {
            match request.with_header_line(line) {
                Ok(next) => Ok((ParserState::Headers, next)),
                Err(e) => Err(e),
            }
        },
        ParserState::Body => Ok((ParserState::Body, request.with_body_line(line))),
    }
}

/// Where the reader stands after all of `lines`: what it expects next and
/// what it has read, or the fault of the first line that has one.
pub open spec fn run(state: ParserState, request: RequestView, lines: Seq<Seq<char>>) -> Result<
    (ParserState, RequestView),
    RequestFault,
>
    decreases lines.len(),
{
    if lines.len() == 0 {
        Ok((state, request))
    } else {
        match step(state, request, lines[0]) {
            Ok((next_state, next)) => run(next_state, next, lines.drop_first()),
            Err(e) => Err(e),
        }
    }
}

/// The request that a text stands for: what the reader has read after the
/// lines of the text, which start behind the white space at its start. A
/// text without a line stands for the request `GET / HTTP/1.1`.
pub open spec fn request_of(text: Seq<char>) -> Result<RequestView, RequestFault> {
    match run(
        ParserState::RequestLine,
        RequestView::initial(),
        lines_from(text, run_len(text, 0, CharClass::Whitespace) as int),
    ) {
        Ok((_, request)) => Ok(request),
        Err(e) => Err(e),
    }
}

/// The lines of a body as one text: each line without the white space around
/// it, and a carriage return and a line feed between two lines.
pub open spec fn joined(lines: Seq<Seq<char>>) -> Seq<char>
    decreases lines.len(),
{
    if lines.len() == 0 {
        Seq::empty()
    } else if lines.len() == 1 {
        trimmed(lines[0])
    } else {
        trimmed(lines[0]) + "\r\n"@ + joined(lines.drop_first())
    }
}

/// The order of the reader's states.
pub open spec fn stage(state: ParserState) -> nat {
    match state {
        ParserState::RequestLine => 0,
        ParserState::Headers => 1,
        ParserState::Body => 2,
    }
}

/// The reader never goes back: after a line it expects what it expected
/// before or something later, and once in the body it stays there.
pub proof fn lemma_step_forward(state: ParserState, request: RequestView, line: Seq<char>)
    ensures
        step(state, request, line) matches Ok((next, _)) ==> stage(state) <= stage(next),
        state == ParserState::Body ==> step(state, request, line) is Ok,
{
}

/// Reading lines one batch after another is reading them all at once.
pub proof fn lemma_run_split(
    state: ParserState,
    request: RequestView,
    first: Seq<Seq<char>>,
    rest: Seq<Seq<char>>,
)
    ensures
        run(state, request, first + rest) == match run(state, request, first) {
            Ok((next_state, next)) => run(next_state, next, rest),
            Err(e) => Err(e),
        },
    decreases first.len(),
{
    if first.len() == 0 {
        assert(first + rest =~= rest);
    } else {
        assert((first + rest)[0] == first[0]);
        assert((first + rest).drop_first() =~= first.drop_first() + rest);
        match step(state, request, first[0]) {
            Ok((next_state, next)) => {
                lemma_run_split(next_state, next, first.drop_first(), rest);
            },
            Err(_) => {},
        }
    }
}

/// The lines of a body are put together again with a carriage return and a
/// line feed between them: read in the body, they leave the request with
/// what the body had and their joined text behind it.
pub proof fn lemma_body_lines(request: RequestView, lines: Seq<Seq<char>>)
    requires
        lines.len() > 0,
    ensures
        run(ParserState::Body, request, lines) == Ok::<(ParserState, RequestView), RequestFault>(
            (
                ParserState::Body,
                RequestView {
                    body: Some(
                        match request.body {
                            Some(b) => b + "\r\n"@ + joined(lines),
                            None => joined(lines),
                        },
                    ),
                    ..request
                },
            ),
        ),
    decreases lines.len(),
{
    let next = request.with_body_line(lines[0]);
    let rest = lines.drop_first();
    assert(step(ParserState::Body, request, lines[0]) == Ok::<
        (ParserState, RequestView),
        RequestFault,
    >((ParserState::Body, next)));
    assert(run(ParserState::Body, request, lines) == run(ParserState::Body, next, rest));
    if rest.len() > 0 {
        lemma_body_lines(next, rest);
        let tail = joined(rest);
        match request.body {
            Some(b) => {
                assert((b + "\r\n"@ + trimmed(lines[0])) + "\r\n"@ + tail =~= b + "\r\n"@ + (
                trimmed(lines[0]) + "\r\n"@ + tail));
            },
            None => {},
        }
    }
}

/// A request with a body of several lines: where the lines `head`, the empty
/// line among them, take the reader into the body, and the lines `body`
/// stand behind them, each line written with a carriage return and a line
/// feed behind it, the body of the request is the lines of `body` joined by
/// a carriage return and a line feed.
pub proof fn lemma_written_request_body(
    head: Seq<Seq<char>>,
    body: Seq<Seq<char>>,
    request: RequestView,
)
    requires
        forall|i: int| 0 <= i < head.len() ==> !(#[trigger] head[i]).contains('\n'),
        forall|i: int| 0 <= i < body.len() ==> !(#[trigger] body[i]).contains('\n'),
        head.len() > 0,
        head[0].len() > 0,
        !is_whitespace(head[0][0]),
        run(ParserState::RequestLine, RequestView::initial(), head) == Ok::<
            (ParserState, RequestView),
            RequestFault,
        >((ParserState::Body, request)),
        request.body is None,
        body.len() > 0,
    ensures
        request_of(written_lines(head + body)) == Ok::<RequestView, RequestFault>(
            RequestView { body: Some(joined(body)), ..request },
        ),
{
    let lines = head + body;
    let text = written_lines(lines);
    assert forall|i: int| 0 <= i < lines.len() implies !(#[trigger] lines[i]).contains('\n') by {
        if i < head.len() {
            assert(lines[i] == head[i]);
        } else {
            assert(lines[i] == body[i - head.len()]);
        }
    }
    lemma_written_lines(lines);
    assert(text[0] == head[0][0]) by {
        assert(lines[0] == head[0]);
    }
    assert(run_len(text, 0, CharClass::Whitespace) == 0);
    lemma_run_split(ParserState::RequestLine, RequestView::initial(), head, body);
    lemma_body_lines(request, body);
}

/// A request whose first line does not have three words is refused as
/// malformed. With three words, a first word that names no method is refused
/// with that word, and after a method a third word that names no version is
/// refused with that word.
pub proof fn lemma_request_line_faults(text: Seq<char>)
    requires
        lines_from(text, run_len(text, 0, CharClass::Whitespace) as int).len() > 0,
    ensures
        ({
            let line = lines_from(text, run_len(text, 0, CharClass::Whitespace) as int)[0];
            let words = words_from(line, 0);
            &&& words.len() != 3 ==> request_of(text) == Err::<RequestView, RequestFault>(
                RequestFault::InvalidRequest("Malformed request line"@),
            )
            &&& words.len() == 3 && HttpMethod::named(words[0]) is None ==> request_of(text)
                == Err::<RequestView, RequestFault>(RequestFault::InvalidMethod(words[0]))
            &&& words.len() == 3 && HttpMethod::named(words[0]) is Some && HttpVersion::named(
                words[2],
            ) is None ==> request_of(text) == Err::<RequestView, RequestFault>(
                RequestFault::InvalidVersion(words[2]),
            )
        }),
{
}

/// Reads one line into `request` and returns what the reader expects next.
/// A line with a fault leaves `request` as it was.
pub fn read_line(state: ParserState, request: &mut HttpRequest, line: &[char]) -> (r: Result<
    ParserState,
    HttpRequestError,
>)
    ensures
        match r {
            Ok(next) => step(state, old(request)@, line@) == Ok::<
                (ParserState, RequestView),
                RequestFault,
            >((next, final(request)@)),
            Err(e) => step(state, old(request)@, line@) == Err::<
                (ParserState, RequestView),
                RequestFault,
            >(e@) && final(request)@ == old(request)@,
        },
{
    match state {
        ParserState::RequestLine => {
            let words = split_words(line);
            if words.len() != 3 {
                return Err(HttpRequestError::InvalidRequest("Malformed request line".to_owned()));
            }
            assert(texts(words@)[0] == words@[0]@);
            assert(texts(words@)[1] == words@[1]@);
            assert(texts(words@)[2] == words@[2]@);
            let method = match HttpMethod::from_chars(words[0]) {
                Some(m) => m,
                None => {
                    return Err(HttpRequestError::InvalidMethod(to_text(words[0])));
                },
            };
            let path = HttpPath::from_chars(words[1]);
            let version = match HttpVersion::from_chars(words[2]) {
                Some(v) => v,
                None => {
                    return Err(HttpRequestError::InvalidVersion(to_text(words[2])));
                },
            };
            request.method = method;
            request.path = path;
            request.version = version;
            Ok(ParserState::Headers)
        },
        ParserState::Headers => {
            if line.len() == 0 {
                return Ok(ParserState::Body);
            }
            let colon = scan(line, 0, CharClass::Except(':'));
            if colon >= line.len() {
                return Err(HttpRequestError::InvalidHeader("Malformed header line".to_owned()));
            }
            let name = to_text(trim(&line[0..colon]));
            let value = to_text(trim(&line[colon + 1..line.len()]));
            let header = KnownHeader::from_str(name.as_str(), value.as_str());
            let ghost before = request.headers;
            let ghost key = name@;
            request.headers.insert(name, header);
            assert(headers_view(request.headers) =~= headers_view(before).insert(key, header@));
            Ok(ParserState::Headers)
        },
        ParserState::Body => {
            let text = trim(line);
            match &mut request.body {
                Some(body) => {
                    body.append("\r\n");
                    push_chars(body, text);
                },
                None => {
                    request.body = Some(to_text(text));
                },
            }
            Ok(ParserState::Body)
        },
    }
}

/// Reads a request from `input`.
pub fn read_http_request(input: &str) -> (r: Result<HttpRequest, HttpRequestError>)
    ensures
        match r {
            Ok(request) => request_of(input@) == Ok::<RequestView, RequestFault>(request@),
            Err(e) => request_of(input@) == Err::<RequestView, RequestFault>(e@),
        },
{
    let chars = to_chars(input);
    let buf = chars.as_slice();
    let mut state = ParserState::RequestLine;
    let mut request = HttpRequest::new();
    let mut pos = scan(buf, 0, CharClass::Whitespace);
    while pos < buf.len()
        invariant
            pos <= buf@.len(),
            buf@ == input@,
            run(
                ParserState::RequestLine,
                RequestView::initial(),
                lines_from(buf@, run_len(buf@, 0, CharClass::Whitespace) as int),
            ) == run(state, request@, lines_from(buf@, pos as int)),
        decreases buf@.len() - pos,
    {
        let (line, next) = next_line(buf, pos);
        proof {
            let rest = lines_from(buf@, next as int);
            assert((seq![line@] + rest)[0] == line@);
            assert((seq![line@] + rest).drop_first() =~= rest);
        }
        match read_line(state, &mut request, line) {
            Ok(s) => {
                state = s;
            },
            Err(e) => {
                return Err(e);
            },
        }
        pos = next;
    }
    Ok(request)
}

/// Writes a request. Nothing is written yet: every request is accepted.
pub fn write_http_request(request: HttpRequest) -> (r: Result<(), HttpRequestError>)
    ensures
        r is Ok,
{
    Ok(())
}

} // verus!
