use parsing::http::request::{read_line, ParserState};
use parsing::{
    read_http_request, read_http_response, write_http_request, write_http_response,
    HttpContentType, HttpMethod, HttpPath, HttpPlatform, HttpRequest, HttpRequestError,
    HttpResponse, HttpStatusCode, HttpVersion, KnownHeader, StringMap,
};

fn chars(s: &str) -> Vec<char> {
    s.chars().collect()
}

#[test]
fn request_with_query() {
    let request =
        read_http_request("GET /search?q=a+b HTTP/1.1\r\nHost: example.com\r\n\r\n").unwrap();
    assert_eq!(request.method, HttpMethod::GET);
    assert_eq!(request.path.full_path, "/search?q=a+b");
    assert_eq!(request.path.path, "/search");
    let mut query = StringMap::new();
    query.insert("q".to_string(), "a+b".to_string());
    assert_eq!(request.path.query, Some(query));
    assert_eq!(request.path.fragment, None);
    assert_eq!(request.version, HttpVersion::HTTP11);
    assert_eq!(request.headers.len(), 1);
    assert_eq!(request.headers.get("Host"), Some(&KnownHeader::Host("example.com".to_string())));
    assert_eq!(request.body, None);
}

#[test]
fn request_line_needs_three_words() {
    let malformed = Err(HttpRequestError::InvalidRequest("Malformed request line".to_string()));
    assert_eq!(read_http_request("GET /\r\n\r\n"), malformed);
    assert_eq!(read_http_request("GET / HTTP/1.1 extra\r\n\r\n"), malformed);
    assert_eq!(read_http_request("GET\r\n"), malformed);
    assert_eq!(read_http_request("x\n"), malformed);
}

#[test]
fn unknown_method_is_refused() {
    assert_eq!(
        read_http_request("FETCH / HTTP/1.1\r\n\r\n"),
        Err(HttpRequestError::InvalidMethod("FETCH".to_string()))
    );
    assert_eq!(
        read_http_request("get / HTTP/1.1\r\n\r\n"),
        Err(HttpRequestError::InvalidMethod("get".to_string()))
    );
    assert_eq!(
        read_http_request("FETCH / HTTP/9.9\r\n\r\n"),
        Err(HttpRequestError::InvalidMethod("FETCH".to_string()))
    );
}

#[test]
fn unknown_version_is_refused() {
    assert_eq!(
        read_http_request("GET / HTTP/3.0\r\n\r\n"),
        Err(HttpRequestError::InvalidVersion("HTTP/3.0".to_string()))
    );
    assert_eq!(
        read_http_request("GET / http/1.1\r\n\r\n"),
        Err(HttpRequestError::InvalidVersion("http/1.1".to_string()))
    );
}

#[test]
fn header_without_colon_is_refused() {
    assert_eq!(
        read_http_request("GET / HTTP/1.1\r\nHost example.com\r\n\r\n"),
        Err(HttpRequestError::InvalidHeader("Malformed header line".to_string()))
    );
    assert_eq!(
        read_http_request("GET / HTTP/1.1\r\nHost: a\r\n \r\n"),
        Err(HttpRequestError::InvalidHeader("Malformed header line".to_string()))
    );
}

#[test]
fn every_method_and_version() {
    let methods = [
        ("GET", HttpMethod::GET),
        ("POST", HttpMethod::POST),
        ("PUT", HttpMethod::PUT),
        ("DELETE", HttpMethod::DELETE),
        ("HEAD", HttpMethod::HEAD),
        ("OPTIONS", HttpMethod::OPTIONS),
        ("PATCH", HttpMethod::PATCH),
        ("TRACE", HttpMethod::TRACE),
        ("CONNECT", HttpMethod::CONNECT),
    ];
    let versions = [
        ("HTTP/1.0", HttpVersion::HTTP10),
        ("HTTP/1.1", HttpVersion::HTTP11),
        ("HTTP/2.0", HttpVersion::HTTP20),
    ];
    for (word, method) in methods {
        assert_eq!(HttpMethod::from_str(word), Ok(method));
        assert_eq!(HttpMethod::from_chars(&chars(word)), Some(method));
        assert_eq!(method.to_str(), word);
        for (version_word, version) in versions {
            let request =
                read_http_request(&format!("{} /x {}\r\n", word, version_word)).unwrap();
            assert_eq!(request.method, method);
            assert_eq!(request.version, version);
            assert_eq!(request.path.full_path, "/x");
        }
    }
    for (word, version) in versions {
        assert_eq!(HttpVersion::from_str(word), Ok(version));
        assert_eq!(HttpVersion::from_chars(&chars(word)), Some(version));
        assert_eq!(version.to_str(), word);
    }
    assert_eq!(
        HttpMethod::from_str("Get"),
        Err(HttpRequestError::InvalidMethod("Get".to_string()))
    );
    assert_eq!(
        HttpVersion::from_str("HTTP/1.2"),
        Err(HttpRequestError::InvalidVersion("HTTP/1.2".to_string()))
    );
    assert_eq!(HttpMethod::from_chars(&chars("")), None);
    assert_eq!(HttpVersion::from_chars(&chars("HTTP/1.1 ")), None);
}

#[test]
fn every_status() {
    let all = [
        (HttpStatusCode::OK, 200, "200", "OK"),
        (HttpStatusCode::Created, 201, "201", "Created"),
        (HttpStatusCode::Accepted, 202, "202", "Accepted"),
        (HttpStatusCode::NoContent, 204, "204", "No Content"),
        (HttpStatusCode::MovedPermanently, 301, "301", "Moved Permanently"),
        (HttpStatusCode::Found, 302, "302", "Found"),
        (HttpStatusCode::NotModified, 304, "304", "Not Modified"),
        (HttpStatusCode::BadRequest, 400, "400", "Bad Request"),
        (HttpStatusCode::Unauthorized, 401, "401", "Unauthorized"),
        (HttpStatusCode::Forbidden, 403, "403", "Forbidden"),
        (HttpStatusCode::NotFound, 404, "404", "Not Found"),
        (HttpStatusCode::MethodNotAllowed, 405, "405", "Method Not Allowed"),
        (HttpStatusCode::InternalServerError, 500, "500", "Internal Server Error"),
        (HttpStatusCode::NotImplemented, 501, "501", "Not Implemented"),
        (HttpStatusCode::BadGateway, 502, "502", "Bad Gateway"),
        (HttpStatusCode::ServiceUnavailable, 503, "503", "Service Unavailable"),
    ];
    for (status, code, number, words) in all {
        assert_eq!(status.code(), code);
        assert_eq!(status.to_str(), number);
        assert_eq!(status.status_text(), words);
    }
}

#[test]
fn every_content_type() {
    let all = [
        ("text/html", HttpContentType::TextHtml),
        ("application/json", HttpContentType::ApplicationJson),
        ("application/xml", HttpContentType::ApplicationXml),
        ("text/plain", HttpContentType::TextPlain),
        ("multipart/form-data", HttpContentType::MultipartFormData),
        ("application/x-www-form-urlencoded", HttpContentType::ApplicationXWwwFormUrlencoded),
        ("text/event-stream", HttpContentType::EventStream),
        ("image/png", HttpContentType::Other("image/png".to_string())),
        ("Text/Html", HttpContentType::Other("Text/Html".to_string())),
        ("", HttpContentType::Other(String::new())),
    ];
    for (text, content_type) in all {
        assert_eq!(HttpContentType::from_str(text), content_type);
        assert_eq!(content_type.to_str(), text);
    }
}

#[test]
fn header_is_told_by_its_name_in_any_case() {
    assert_eq!(KnownHeader::from_str("HOST", "a"), KnownHeader::Host("a".to_string()));
    assert_eq!(KnownHeader::from_str("host", "a"), KnownHeader::Host("a".to_string()));
    assert_eq!(
        KnownHeader::from_str("Content-TYPE", "text/plain"),
        KnownHeader::ContentType(HttpContentType::TextPlain)
    );
    assert_eq!(KnownHeader::from_str("CONTENT-length", "42"), KnownHeader::ContentLength(42));
    assert_eq!(KnownHeader::from_str("User-Agent", "ua"), KnownHeader::UserAgent("ua".to_string()));
    assert_eq!(KnownHeader::from_str("Accept", "*/*"), KnownHeader::Accept("*/*".to_string()));
    assert_eq!(
        KnownHeader::from_str("Authorization", "Basic x"),
        KnownHeader::Authorization("Basic x".to_string())
    );
    assert_eq!(
        KnownHeader::from_str("Cache-Control", "no-cache"),
        KnownHeader::CacheControl("no-cache".to_string())
    );
    assert_eq!(
        KnownHeader::from_str("Connection", "close"),
        KnownHeader::Connection("close".to_string())
    );
    assert_eq!(KnownHeader::from_str("Cookie", "a=b"), KnownHeader::Cookie("a=b".to_string()));
    assert_eq!(KnownHeader::from_str("Referer", "/"), KnownHeader::Referer("/".to_string()));
    assert_eq!(KnownHeader::from_str("X-Custom", "v"), KnownHeader::Other("v".to_string()));
    assert_eq!(KnownHeader::from_str("", "v"), KnownHeader::Other("v".to_string()));
}

#[test]
fn classify_takes_the_name_as_it_is() {
    assert_eq!(KnownHeader::classify("host", "a"), KnownHeader::Host("a".to_string()));
    assert_eq!(KnownHeader::classify("Host", "a"), KnownHeader::Other("a".to_string()));
    assert_eq!(KnownHeader::classify("content-length", "7"), KnownHeader::ContentLength(7));
}

#[test]
fn content_length_that_is_no_number_is_kept_as_text() {
    assert_eq!(KnownHeader::from_str("Content-Length", "abc"), KnownHeader::Other("abc".to_string()));
    assert_eq!(KnownHeader::from_str("Content-Length", ""), KnownHeader::Other(String::new()));
    assert_eq!(KnownHeader::from_str("Content-Length", "-1"), KnownHeader::Other("-1".to_string()));
    assert_eq!(KnownHeader::from_str("Content-Length", "+18"), KnownHeader::ContentLength(18));
    assert_eq!(
        KnownHeader::from_str("Content-Length", "99999999999999999999999999"),
        KnownHeader::Other("99999999999999999999999999".to_string())
    );
}

#[test]
fn header_values_as_text() {
    let all = [
        (KnownHeader::ContentType(HttpContentType::ApplicationXml), "application/xml"),
        (KnownHeader::ContentType(HttpContentType::Other("a/b".to_string())), "a/b"),
        (KnownHeader::ContentLength(0), "0"),
        (KnownHeader::ContentLength(1234567890), "1234567890"),
        (KnownHeader::UserAgent("ua".to_string()), "ua"),
        (KnownHeader::Accept("ac".to_string()), "ac"),
        (KnownHeader::Host("h".to_string()), "h"),
        (KnownHeader::Authorization("au".to_string()), "au"),
        (KnownHeader::CacheControl("cc".to_string()), "cc"),
        (KnownHeader::Connection("co".to_string()), "co"),
        (KnownHeader::Cookie("ck".to_string()), "ck"),
        (KnownHeader::Referer("r".to_string()), "r"),
        (KnownHeader::Other("o".to_string()), "o"),
    ];
    for (header, text) in all {
        let mut out = String::from("> ");
        header.write_value(&mut out);
        assert_eq!(out, format!("> {}", text));
    }
}

#[test]
fn header_names_keep_their_case_and_values_lose_outer_space() {
    let request =
        read_http_request("GET / HTTP/1.1\r\n  hOsT :  a b  \r\nX-Empty:\r\nA:b:c\r\n\r\n").unwrap();
    assert_eq!(request.headers.len(), 3);
    assert_eq!(request.headers.get("hOsT"), Some(&KnownHeader::Host("a b".to_string())));
    assert_eq!(request.headers.get("Host"), None);
    assert_eq!(request.headers.get("X-Empty"), Some(&KnownHeader::Other(String::new())));
    assert_eq!(request.headers.get("A"), Some(&KnownHeader::Other("b:c".to_string())));
}

#[test]
fn later_header_of_the_same_name_stays() {
    let request =
        read_http_request("GET / HTTP/1.1\r\nHost: first\r\nHost: second\r\n\r\n").unwrap();
    assert_eq!(request.headers.len(), 1);
    assert_eq!(request.headers.get("Host"), Some(&KnownHeader::Host("second".to_string())));
}

#[test]
fn request_without_empty_line_has_no_body() {
    let request = read_http_request("GET / HTTP/1.1\r\nHost: a").unwrap();
    assert_eq!(request.body, None);
    let request = read_http_request("GET / HTTP/1.1").unwrap();
    assert_eq!(request.body, None);
    assert!(request.headers.is_empty());
}

#[test]
fn text_without_a_line_is_the_default_request() {
    for text in ["", "  ", "\r\n\r\n"] {
        let request = read_http_request(text).unwrap();
        assert_eq!(request, HttpRequest::new());
    }
    let request = HttpRequest::new();
    assert_eq!(request.method, HttpMethod::GET);
    assert_eq!(request.path, HttpPath::from_str("/"));
    assert_eq!(request.version, HttpVersion::HTTP11);
    assert!(request.headers.is_empty());
    assert_eq!(request.body, None);
}

#[test]
fn body_lines_are_joined_with_carriage_return_and_line_feed() {
    let request = read_http_request("POST / HTTP/1.1\n\none\ntwo\r\n  three  \n\nfive").unwrap();
    assert_eq!(request.body, Some("one\r\ntwo\r\nthree\r\n\r\nfive".to_string()));
    let request = read_http_request("POST / HTTP/1.1\n\n").unwrap();
    assert_eq!(request.body, None);
    let request = read_http_request("POST / HTTP/1.1\n\n\n").unwrap();
    assert_eq!(request.body, Some(String::new()));
}

#[test]
fn body_is_not_cut_to_the_content_length() {
    let request =
        read_http_request("POST / HTTP/1.1\r\nContent-Length: 2\r\n\r\nhello world").unwrap();
    assert_eq!(request.headers.get("Content-Length"), Some(&KnownHeader::ContentLength(2)));
    assert_eq!(request.body, Some("hello world".to_string()));
}

#[test]
fn reader_goes_through_its_states() {
    let mut request = HttpRequest::new();
    let state = read_line(ParserState::RequestLine, &mut request, &chars("PUT /a HTTP/1.0"));
    assert_eq!(state, Ok(ParserState::Headers));
    assert_eq!(request.method, HttpMethod::PUT);
    assert_eq!(request.version, HttpVersion::HTTP10);
    let state = read_line(ParserState::Headers, &mut request, &chars("Cookie: c"));
    assert_eq!(state, Ok(ParserState::Headers));
    assert_eq!(request.headers.get("Cookie"), Some(&KnownHeader::Cookie("c".to_string())));
    let state = read_line(ParserState::Headers, &mut request, &chars(""));
    assert_eq!(state, Ok(ParserState::Body));
    assert_eq!(request.body, None);
    let state = read_line(ParserState::Body, &mut request, &chars(""));
    assert_eq!(state, Ok(ParserState::Body));
    assert_eq!(request.body, Some(String::new()));
    let state = read_line(ParserState::Body, &mut request, &chars("GET / HTTP/1.1"));
    assert_eq!(state, Ok(ParserState::Body));
    assert_eq!(request.body, Some("\r\nGET / HTTP/1.1".to_string()));
    assert_eq!(request.method, HttpMethod::PUT);
}

#[test]
fn target_is_taken_apart() {
    let path = HttpPath::from_str("/a/b?x=1&y=2&x=3&flag&=v&k=a=b#frag?not&query");
    assert_eq!(path.full_path, "/a/b?x=1&y=2&x=3&flag&=v&k=a=b#frag?not&query");
    assert_eq!(path.path, "/a/b");
    assert_eq!(path.fragment, Some("frag?not&query".to_string()));
    let query = path.query.unwrap();
    assert_eq!(query.len(), 5);
    assert_eq!(query.get("x"), Some(&"3".to_string()));
    assert_eq!(query.get("y"), Some(&"2".to_string()));
    assert_eq!(query.get("flag"), Some(&String::new()));
    assert_eq!(query.get(""), Some(&"v".to_string()));
    assert_eq!(query.get("k"), Some(&"a=b".to_string()));
}

#[test]
fn target_without_query_or_fragment() {
    let path = HttpPath::from_str("/plain");
    assert_eq!(path.full_path, "/plain");
    assert_eq!(path.path, "/plain");
    assert_eq!(path.query, None);
    assert_eq!(path.fragment, None);
    assert_eq!(HttpPath::from_chars(&chars("/plain")), path);
}

#[test]
fn empty_query_and_empty_fragment() {
    let path = HttpPath::from_str("/p?#");
    assert_eq!(path.path, "/p");
    assert_eq!(path.fragment, Some(String::new()));
    let mut query = StringMap::new();
    query.insert(String::new(), String::new());
    assert_eq!(path.query, Some(query));
    let path = HttpPath::from_str("/p#f");
    assert_eq!(path.path, "/p");
    assert_eq!(path.query, None);
    assert_eq!(path.fragment, Some("f".to_string()));
    let path = HttpPath::from_str("");
    assert_eq!(path.path, "");
    assert_eq!(path.query, None);
    assert_eq!(path.fragment, None);
}

#[test]
fn response_round_trip() {
    let mut headers = StringMap::new();
    headers.insert("Content-Type".to_string(), KnownHeader::ContentType(HttpContentType::TextHtml));
    headers.insert("Content-Length".to_string(), KnownHeader::ContentLength(13));
    let response = HttpResponse {
        version: HttpVersion::HTTP11,
        status_code: HttpStatusCode::OK,
        headers,
        body: Some("<h1>Hello</h1>".to_string()),
    };
    let text = write_http_response(response).unwrap();
    let mut lines = text.split("\r\n");
    assert_eq!(lines.next(), Some("HTTP/1.1 200 OK"));
    let first = lines.next().unwrap();
    let second = lines.next().unwrap();
    let mut both = vec![first, second];
    both.sort();
    assert_eq!(both, vec!["Content-Length: 13", "Content-Type: text/html"]);
    assert_eq!(lines.next(), Some(""));
    assert_eq!(lines.next(), Some("<h1>Hello</h1>"));
    assert_eq!(lines.next(), None);
}

#[test]
fn response_without_headers_or_body() {
    let response = HttpResponse {
        version: HttpVersion::HTTP10,
        status_code: HttpStatusCode::NoContent,
        headers: StringMap::new(),
        body: None,
    };
    assert_eq!(write_http_response(response), Ok("HTTP/1.0 204 No Content\r\n\r\n".to_string()));
    assert_eq!(
        write_http_response(HttpResponse::bad_request()),
        Ok("HTTP/1.1 400 Bad Request\r\n\r\n".to_string())
    );
}

#[test]
fn response_headers_come_in_ascending_order_of_their_names() {
    let mut headers = StringMap::new();
    headers.insert("b".to_string(), KnownHeader::Other("2".to_string()));
    headers.insert("a".to_string(), KnownHeader::Host("1".to_string()));
    headers.insert("C".to_string(), KnownHeader::ContentLength(3));
    let response = HttpResponse {
        version: HttpVersion::HTTP20,
        status_code: HttpStatusCode::NotFound,
        headers,
        body: Some("line one\nline two".to_string()),
    };
    assert_eq!(
        write_http_response(response),
        Ok("HTTP/2.0 404 Not Found\r\nC: 3\r\na: 1\r\nb: 2\r\n\r\nline one\nline two".to_string())
    );
}

#[test]
fn request_and_response_stubs() {
    assert_eq!(write_http_request(HttpRequest::new()), Ok(()));
    let response = read_http_response("anything").unwrap();
    assert_eq!(response.version, HttpVersion::HTTP11);
    assert_eq!(response.status_code, HttpStatusCode::OK);
    assert!(response.headers.is_empty());
    assert_eq!(response.body, None);
}

fn echo(request: HttpRequest) -> HttpResponse {
    let mut headers = StringMap::new();
    headers.insert("Content-Type".to_string(), KnownHeader::ContentType(HttpContentType::TextPlain));
    HttpResponse {
        version: request.version,
        status_code: HttpStatusCode::OK,
        headers,
        body: Some(request.path.path),
    }
}

#[test]
fn platform_answers_with_the_handler_or_with_bad_request() {
    let platform = HttpPlatform::new(echo);
    assert_eq!(
        platform.respond("GET /hello?x=1 HTTP/1.0\r\n\r\n"),
        "HTTP/1.0 200 OK\r\nContent-Type: text/plain\r\n\r\n/hello"
    );
    assert_eq!(platform.respond("nonsense"), "HTTP/1.1 400 Bad Request\r\n\r\n");
    let copy = platform.clone();
    assert_eq!(copy.respond("BAD / HTTP/1.1"), "HTTP/1.1 400 Bad Request\r\n\r\n");
}
