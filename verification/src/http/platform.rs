//! Serving: a handler that answers requests, and the text that it answers a
//! given text with.

use crate::http::request::{read_http_request, request_of, HttpRequest};
use crate::http::response::{bad_request_text, write_http_response, HttpResponse};
use vstd::prelude::*;

verus! {

/// A server around the handler `app`, which gives a response for each
/// request.
#[derive(Clone)]
pub struct HttpPlatform<F: Fn(HttpRequest) -> HttpResponse> {
    pub app: F,
}

impl<F: Fn(HttpRequest) -> HttpResponse> HttpPlatform<F> {
    /// A server around the handler `app`.
    pub fn new(app: F) -> (r: HttpPlatform<F>)
        ensures
            r.app == app,
    {
        HttpPlatform { app }
    }

    /// The text to answer the text `input` with: what the handler responds
    /// to the request that `input` stands for, or `400 Bad Request` where it
    /// stands for none.
    pub fn respond(&self, input: &str) -> (r: String)
        requires
            forall|request: HttpRequest| call_requires(self.app, (request,)),
        ensures
            match request_of(input@) {
                Ok(read) => exists|request: HttpRequest, response: HttpResponse|
                    request@ == read && call_ensures(self.app, (request,), response) && r@
                        == response.text(),
                Err(_) => r@ == bad_request_text(),
            },
    {
        let response = match read_http_request(input) {
            Ok(request) => (self.app)(request),
            Err(_) => {
                let bad = HttpResponse::bad_request();
                assert(bad.text() =~= bad_request_text());
                bad
            },
        };
        match write_http_response(response) {
            Ok(text) => text,
            Err(_) => String::new(),
        }
    }
}

} // verus!
