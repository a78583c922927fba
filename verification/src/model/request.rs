//! Requests as the user composes them, and responses as they come back.
use vstd::prelude::*;

use super::http_header::{copy_headers, headers_view, Header};
use super::http_method::HttpMethod;

verus! {

/// A request to send: method, URL, headers in order, optional body.
#[derive(Debug, Clone, PartialEq, Eq)]
pub struct HttpRequest {
    pub method: HttpMethod,
    pub url: String,
    pub headers: Vec<Header>,
    pub body: Option<String>,
}

/// What a request holds, as plain values.
pub struct RequestView {
    pub method: HttpMethod,
    pub url: Seq<char>,
    pub headers: Seq<(Seq<char>, Seq<char>)>,
    pub body: Option<Seq<char>>,
}

pub open spec fn opt_view(o: Option<String>) -> Option<Seq<char>> {
    match o {
        Some(s) => Some(s@),
        None => None,
    }
}

impl View for HttpRequest {
    type V = RequestView;

    open spec fn view(&self) -> RequestView {
        RequestView {
            method: self.method,
            url: self.url@,
            headers: headers_view(self.headers@),
            body: opt_view(self.body),
        }
    }
}

/// A copy of an optional string.
pub fn copy_opt_string(o: &Option<String>) -> (r: Option<String>)
    ensures
        opt_view(r) == opt_view(*o),
{
    match o {
        Some(s) => Some(s.clone()),
        None => None,
    }
}

impl HttpRequest {
    /// A request with no headers and no body.
    pub fn new(method: HttpMethod, url: String) -> (r: HttpRequest)
        ensures
            r@ == (RequestView { method, url: url@, headers: Seq::empty(), body: None }),
    {
        let r = HttpRequest { method, url, headers: Vec::new(), body: None };
        assert(headers_view(r.headers@) =~= Seq::empty());
        r
    }

    /// This request with its headers replaced by `headers`.
    pub fn with_headers(self, headers: Vec<Header>) -> (r: HttpRequest)
        ensures
            r@ == (RequestView { headers: headers_view(headers@), ..self@ }),
    {
        HttpRequest { headers, ..self }
    }

    /// This request with `body` as its body.
    pub fn with_body(self, body: String) -> (r: HttpRequest)
        ensures
            r@ == (RequestView { body: Some(body@), ..self@ }),
    {
        HttpRequest { body: Some(body), ..self }
    }

    /// This request with one more header at the end.
    pub fn with_header(self, name: &str, value: &str) -> (r: HttpRequest)
        ensures
            r@ == (RequestView { headers: self@.headers.push((name@, value@)), ..self@ }),
    {
        let mut s = self;
        s.headers.push(Header::new(name, value));
        proof {
            assert(headers_view(s.headers@) =~= headers_view(self.headers@).push((name@, value@)));
        }
        s
    }

    /// A copy of this request.
    pub fn copy(&self) -> (r: HttpRequest)
        ensures
            r@ == self@,
    {
        HttpRequest {
            method: self.method,
            url: self.url.clone(),
            headers: copy_headers(&self.headers),
            body: copy_opt_string(&self.body),
        }
    }
}

/// A response as the client received it.
#[derive(Debug, Clone, PartialEq, Eq)]
pub struct HttpResponse {
    pub status: u16,
    pub reason: Option<String>,
    pub headers: Vec<Header>,
    pub body: String,
    pub duration_ms: u64,
    pub truncated: bool,
}

/// The most bytes of a response body that are kept.
pub const MAX_BODY_BYTES: usize = 2 * 1024 * 1024;

/// How much of a response body of `len` bytes is kept, and whether the rest
/// was cut off.
pub fn body_window(len: usize) -> (r: (usize, bool))
    ensures
        r.0 == if len > MAX_BODY_BYTES { MAX_BODY_BYTES } else { len },
        r.1 == (len > MAX_BODY_BYTES),
{
    if len > MAX_BODY_BYTES {
        (MAX_BODY_BYTES, true)
    } else {
        (len, false)
    }
}

} // verus!
