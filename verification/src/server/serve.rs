//! From the bytes of one read to the event that the connection sees:
//! parse the request, route it, and encode the response.

use crate::http::request::{parse_http_request, parse_request, HttpRequest};
use crate::http::response::HttpResponse;
use crate::http::router::Router;
use crate::server::conn::ReadEvent;
use vstd::prelude::*;
use vstd::utf8::encode_utf8;

verus! {

/// How a read attempt on a socket ended.
#[derive(Clone, Copy, Debug)]
pub enum ReadResult<'a> {
    /// The read returned these bytes; none means that the peer has closed.
    Data(&'a [u8]),
    /// Nothing to read right now.
    WouldBlock,
    /// Any other error.
    Failed,
}

/// True if `out` is an encoded response that `router` may give to the
/// request that `data` holds.
pub open spec fn answers(router: &Router, data: Seq<u8>, out: Seq<u8>) -> bool {
    exists|req: HttpRequest, resp: HttpResponse|
        parse_request(data) == Some(req@) && #[trigger] router.routes_to(req, resp) && out
            == resp@.wire_bytes()
}

/// True if `ev` is an event that a read of `data` may bring: no bytes mean
/// that the peer closed; bytes that hold a request bring an encoded response
/// of the router to it; other bytes are rejected.
pub open spec fn follows(router: &Router, data: Seq<u8>, ev: ReadEvent) -> bool {
    if data.len() == 0 {
        ev is Eof
    } else if parse_request(data) is None {
        ev is Rejected
    } else {
        ev matches ReadEvent::Served(out) && answers(router, data, out@) && out@.len() > 0
    }
}

/// True if `ev` is an event that a read ending in `result` may bring.
pub open spec fn may_follow(router: &Router, result: ReadResult, ev: ReadEvent) -> bool {
    match result {
        ReadResult::WouldBlock => ev is WouldBlock,
        ReadResult::Failed => ev is Failed,
        ReadResult::Data(data) => follows(router, data@, ev),
    }
}

/// The encoding of a response is never empty.
pub proof fn lemma_wire_bytes_not_empty(resp: HttpResponse)
    ensures
        resp@.wire_bytes().len() > 0,
{
    reveal_strlit("HTTP/1.1 ");
    let text = resp@.wire_text();
    assert(text.len() > 0);
    assert(encode_utf8(text).len() > 0);
}

/// Answers the bytes of one read: parses the request, routes it and
/// encodes the response. None if the bytes hold no request.
pub fn serve(router: &Router, data: &[u8]) -> (out: Option<Vec<u8>>)
    ensures
        match out {
            Some(bytes) => answers(router, data@, bytes@) && bytes@.len() > 0,
            None => parse_request(data@) is None,
        },
{
    match parse_http_request(data) {
        None => None,
        Some(req) => {
            let resp = router.route(&req);
            let bytes = resp.to_bytes();
            proof {
                lemma_wire_bytes_not_empty(resp);
                assert(router.routes_to(req, resp));
            }
            Some(bytes)
        },
    }
}

/// Turns the result of a read attempt into the event for the connection.
pub fn read_event(router: &Router, result: ReadResult) -> (ev: ReadEvent)
    ensures
        may_follow(router, result, ev),
{
    match result {
        ReadResult::WouldBlock => ReadEvent::WouldBlock,
        ReadResult::Failed => ReadEvent::Failed,
        ReadResult::Data(data) => {
            if data.len() == 0 {
                ReadEvent::Eof
            } else {
                match serve(router, data) {
                    Some(bytes) => ReadEvent::Served(bytes),
                    None => ReadEvent::Rejected,
                }
            }
        },
    }
}

} // verus!
