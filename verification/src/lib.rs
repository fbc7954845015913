//! A small toolkit for two text protocols: a parser for a restricted JSON
//! dialect, and a reader and writer for HTTP/1.x messages.
//!
//! Every function carries a contract over sequences of characters, and the
//! contracts are proved.

pub mod http;
pub mod json;
pub mod string_map;
pub mod text;

pub use http::header::{HttpContentType, KnownHeader};
pub use http::path::HttpPath;
pub use http::platform::HttpPlatform;
pub use http::request::{read_http_request, write_http_request, HttpRequest};
pub use http::response::{read_http_response, write_http_response, HttpResponse};
pub use http::types::{HttpMethod, HttpRequestError, HttpStatusCode, HttpVersion};
pub use json::parser::parse_json;
pub use json::value::{JsonType, ParserError};
pub use string_map::StringMap;
