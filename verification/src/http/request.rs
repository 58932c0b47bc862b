//! Requests and the parser of request lines.

use crate::http::text::{
    chars_of, first_tokens, split_whitespace, string_from, utf8_text, views,
};
use vstd::prelude::*;
use vstd::utf8::{decode_utf8, valid_utf8};

verus! {

/// The request methods that the server tells apart.
#[derive(Debug, Clone, Copy, PartialEq, Eq, Hash, Structural)]
pub enum HttpMethod {
    GET,
    HEAD,
    POST,
    UNKNOWN,
}

/// A parsed request: its method and the path it asks for.
#[derive(Debug, Clone)]
pub struct HttpRequest {
    pub method: HttpMethod,
    pub path: String,
}

impl View for HttpRequest {
    type V = (HttpMethod, Seq<char>);

    open spec fn view(&self) -> (HttpMethod, Seq<char>) {
        (self.method, self.path@)
    }
}

impl HttpRequest {
    /// A request of `method` for `path`.
    pub fn new(method: HttpMethod, path: String) -> (request: Self)
        ensures
            request.method == method,
            request.path == path,
    {
        Self { method, path }
    }
}

/// The method that a token names; any token but the three known ones is
/// `UNKNOWN`.
pub open spec fn method_of(token: Seq<char>) -> HttpMethod {
    if token == "GET"@ {
        HttpMethod::GET
    } else if token == "HEAD"@ {
        HttpMethod::HEAD
    } else if token == "POST"@ {
        HttpMethod::POST
    } else {
        HttpMethod::UNKNOWN
    }
}

/// The request that a text holds: its first whitespace-separated token is
/// the method, its second the path, and the rest is ignored. A text with
/// fewer than two tokens holds no request.
pub open spec fn parse_request_text(text: Seq<char>) -> Option<(HttpMethod, Seq<char>)> {
    let tokens = split_whitespace(text);
    if tokens.len() < 2 {
        None
    } else {
        Some((method_of(tokens[0]), tokens[1]))
    }
}

/// The request that a buffer holds: none unless all of it is valid UTF-8.
pub open spec fn parse_request(bytes: Seq<u8>) -> Option<(HttpMethod, Seq<char>)> {
    if valid_utf8(bytes) {
        parse_request_text(decode_utf8(bytes))
    } else {
        None
    }
}

/// Tells which method a token names.
pub fn method_from(token: &[char]) -> (method: HttpMethod)
    ensures
        method == method_of(token@),
{
    proof {
        reveal_strlit("GET");
        reveal_strlit("HEAD");
        reveal_strlit("POST");
    }
    if token.len() == 3 && token[0] == 'G' && token[1] == 'E' && token[2] == 'T' {
        assert(token@ =~= "GET"@);
        HttpMethod::GET
    } else if token.len() == 4 && token[0] == 'H' && token[1] == 'E' && token[2] == 'A'
        && token[3] == 'D' {
        assert(token@ =~= "HEAD"@);
        HttpMethod::HEAD
    } else if token.len() == 4 && token[0] == 'P' && token[1] == 'O' && token[2] == 'S'
        && token[3] == 'T' {
        assert(token@ =~= "POST"@);
        HttpMethod::POST
    } else {
        HttpMethod::UNKNOWN
    }
}

/// Parses a request out of decoded text.
pub fn parse_request_chars(text: &[char]) -> (request: Option<HttpRequest>)
    ensures
        match request {
            Some(req) => parse_request_text(text@) == Some(req@),
            None => parse_request_text(text@) is None,
        },
{
    let tokens = first_tokens(text, 2);
    if tokens.len() < 2 {
        return None;
    }
    proof {
        let all = split_whitespace(text@);
        assert(views(tokens@)[0] == tokens@[0]@);
        assert(views(tokens@)[1] == tokens@[1]@);
        assert(all.take(2)[0] == all[0]);
        assert(all.take(2)[1] == all[1]);
    }
    let method = method_from(tokens[0]);
    let path = string_from(tokens[1]);
    Some(HttpRequest::new(method, path))
}

/// Parses a request out of the bytes of one read.
pub fn parse_http_request(buf: &[u8]) -> (request: Option<HttpRequest>)
    ensures
        match request {
            Some(req) => parse_request(buf@) == Some(req@),
            None => parse_request(buf@) is None,
        },
{
    match utf8_text(buf) {
        Err(_) => None,
        Ok(text) => {
            let chars = chars_of(text);
            parse_request_chars(chars.as_slice())
        },
    }
}

} // verus!
