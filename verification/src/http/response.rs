//! Responses, their wire format, and the decoder that reads the wire format
//! back.

use crate::http::text::{
    chars_of, decimal, find, find_char, first_tokens, lines, parse_u16, push_decimal, read_u16,
    split_lines, split_whitespace, string_from, trim, trimmed, utf8_error_text, utf8_text, views,
    NumberError,
};
use vstd::prelude::*;
use vstd::slice::slice_subrange;
use vstd::string::{StrSliceExecFns, StringExecFns};
use vstd::utf8::{decode_utf8, encode_utf8, valid_utf8};

verus! {

/// The status codes that a response can carry.
#[derive(Debug, Clone, Copy, PartialEq, Eq, Structural)]
pub enum HttpStatusCode {
    OK,
    NotFound,
    BadRequest,
}

impl HttpStatusCode {
    /// The number of the status.
    pub open spec fn number(self) -> u16 {
        match self {
            HttpStatusCode::OK => 200,
            HttpStatusCode::NotFound => 404,
            HttpStatusCode::BadRequest => 400,
        }
    }

    /// The status with the given number, if it is one of the three.
    pub open spec fn with_number(code: u16) -> Option<HttpStatusCode> {
        if code == 200 {
            Some(HttpStatusCode::OK)
        } else if code == 400 {
            Some(HttpStatusCode::BadRequest)
        } else if code == 404 {
            Some(HttpStatusCode::NotFound)
        } else {
            None
        }
    }

    /// The number and reason phrase as the status line shows them.
    pub open spec fn phrase(self) -> Seq<char> {
        match self {
            HttpStatusCode::OK => "200 OK"@,
            HttpStatusCode::NotFound => "404 Not Found"@,
            HttpStatusCode::BadRequest => "400 Bad Request"@,
        }
    }

    /// The number of the status.
    pub fn code(self) -> (code: u16)
        ensures
            code == self.number(),
    {
        match self {
            HttpStatusCode::OK => 200,
            HttpStatusCode::NotFound => 404,
            HttpStatusCode::BadRequest => 400,
        }
    }

    /// The status with the given number. Any number but 200, 400 and 404 is
    /// refused with a message that names it.
    pub fn from_u16(code: u16) -> (r: Result<Self, String>)
        ensures
            match r {
                Result::Ok(status) => Self::with_number(code) == Some(status),
                Result::Err(message) => Self::with_number(code) is None && message@
                    == unknown_status_text(code),
            },
    {
        if code == 200 {
            Result::Ok(HttpStatusCode::OK)
        } else if code == 400 {
            Result::Ok(HttpStatusCode::BadRequest)
        } else if code == 404 {
            Result::Ok(HttpStatusCode::NotFound)
        } else {
            let mut message = String::from_str("Unknown HTTP status code: ");
            push_decimal(&mut message, code as u64);
            Result::Err(message)
        }
    }

    /// The number and reason phrase as the status line shows them.
    pub fn reason(self) -> (text: &'static str)
        ensures
            text@ == self.phrase(),
    {
        match self {
            HttpStatusCode::OK => "200 OK",
            HttpStatusCode::NotFound => "404 Not Found",
            HttpStatusCode::BadRequest => "400 Bad Request",
        }
    }
}

/// The message for a status number that is not supported.
pub open spec fn unknown_status_text(code: u16) -> Seq<char> {
    "Unknown HTTP status code: "@ + decimal(code as nat)
}

/// A response: status, headers in the order they were set, and body.
#[derive(Debug, Clone)]
pub struct HttpResponse {
    pub status: HttpStatusCode,
    pub headers: Vec<(String, String)>,
    pub body: String,
}

/// A header as a pair of name and value.
pub type HeaderModel = (Seq<char>, Seq<char>);

/// The mathematical value of a response.
#[verifier::ext_equal]
pub struct ResponseModel {
    pub status: HttpStatusCode,
    pub headers: Seq<HeaderModel>,
    pub body: Seq<char>,
}

/// The names and values behind a vector of headers.
pub open spec fn header_views(headers: Seq<(String, String)>) -> Seq<HeaderModel> {
    headers.map_values(|h: (String, String)| (h.0@, h.1@))
}

impl View for HttpResponse {
    type V = ResponseModel;

    open spec fn view(&self) -> ResponseModel {
        ResponseModel {
            status: self.status,
            headers: header_views(self.headers@),
            body: self.body@,
        }
    }
}

/// One header as it stands on the wire.
pub open spec fn header_line(header: HeaderModel) -> Seq<char> {
    header.0 + ": "@ + header.1 + "\r\n"@
}

/// The header lines of a response, in order.
pub open spec fn header_block(headers: Seq<HeaderModel>) -> Seq<char>
    decreases headers.len(),
{
    if headers.len() == 0 {
        Seq::empty()
    } else {
        header_block(headers.drop_last()) + header_line(headers.last())
    }
}

impl ResponseModel {
    /// The `Content-Length` header that encoding computes: the length of the
    /// body in bytes.
    pub open spec fn content_length(self) -> HeaderModel {
        ("Content-Length"@, decimal(encode_utf8(self.body).len()))
    }

    /// The headers that go on the wire: those of the response in the order
    /// they were set, then the computed `Content-Length`.
    pub open spec fn wire_headers(self) -> Seq<HeaderModel> {
        self.headers.push(self.content_length())
    }

    /// Everything before the blank line: status line and header lines,
    /// without the line ending of the last header.
    pub open spec fn wire_head(self) -> Seq<char> {
        "HTTP/1.1 "@ + self.status.phrase() + "\r\n"@ + header_block(self.headers)
            + "Content-Length: "@ + decimal(encode_utf8(self.body).len())
    }

    /// The response as text: head, blank line, body.
    pub open spec fn wire_text(self) -> Seq<char> {
        self.wire_head() + "\r\n\r\n"@ + self.body
    }

    /// The response as wire bytes.
    pub open spec fn wire_bytes(self) -> Seq<u8> {
        encode_utf8(self.wire_text())
    }
}

/// True if a blank line, that is two line endings in a row, starts at `i`.
pub open spec fn is_blank_line_at(s: Seq<char>, i: int) -> bool {
    &&& 0 <= i
    &&& i + 4 <= s.len()
    &&& s[i] == '\r'
    &&& s[i + 1] == '\n'
    &&& s[i + 2] == '\r'
    &&& s[i + 3] == '\n'
}

/// The index of the first blank line at or after `i`, or the length of `s`
/// if there is none.
pub open spec fn find_blank_line(s: Seq<char>, i: int) -> int
    decreases s.len() - i,
{
    if i + 4 > s.len() {
        s.len() as int
    } else if is_blank_line_at(s, i) {
        i
    } else {
        find_blank_line(s, i + 1)
    }
}

/// Head and body of a response text: what stands before and after its
/// first blank line. The body is taken as it is, blank lines included. A
/// text without a blank line has neither.
pub open spec fn split_head_body(s: Seq<char>) -> Option<(Seq<char>, Seq<char>)> {
    let k = find_blank_line(s, 0);
    if k >= s.len() {
        None
    } else {
        Some((s.subrange(0, k), s.subrange(k + 4, s.len() as int)))
    }
}

/// The header that a line holds: name and value are what stands before and
/// after the first colon, each trimmed. A line without a colon holds none.
pub open spec fn split_header(line: Seq<char>) -> Option<HeaderModel> {
    let k = find_char(line, ':', 0);
    if k >= line.len() {
        None
    } else {
        Some((trim(line.subrange(0, k)), trim(line.subrange(k + 1, line.len() as int))))
    }
}

/// The headers that a run of lines holds, in order; lines without a colon
/// are skipped.
pub open spec fn parse_headers(lines: Seq<Seq<char>>) -> Seq<HeaderModel>
    decreases lines.len(),
{
    if lines.len() == 0 {
        Seq::empty()
    } else {
        let before = parse_headers(lines.drop_last());
        match split_header(lines.last()) {
            Some(header) => before.push(header),
            None => before,
        }
    }
}

/// The headers that were set, given the headers that stand on the wire:
/// encoding ends the head with the `Content-Length` that it computes, so a
/// last header of that name is left out.
pub open spec fn set_headers(wire: Seq<HeaderModel>) -> Seq<HeaderModel> {
    if wire.len() > 0 && wire.last().0 == "Content-Length"@ {
        wire.drop_last()
    } else {
        wire
    }
}

/// The message for a status number that cannot be read.
pub open spec fn number_error_text(e: NumberError) -> Seq<char> {
    match e {
        NumberError::Empty => "cannot parse integer from empty string"@,
        NumberError::InvalidDigit => "invalid digit found in string"@,
        NumberError::Overflow => "number too large to fit in target type"@,
    }
}

/// The response that a text holds, or the message that says why it holds
/// none.
pub open spec fn parse_response(s: Seq<char>) -> Result<ResponseModel, Seq<char>> {
    match split_head_body(s) {
        None => Err("Invalid HTTP response format"@),
        Some((head, body)) => {
            let header_lines = lines(head);
            if header_lines.len() == 0 {
                Err("Empty HTTP response"@)
            } else {
                let status_parts = split_whitespace(header_lines[0]);
                if status_parts.len() < 2 {
                    Err("Invalid status line"@)
                } else {
                    match parse_u16(status_parts[1]) {
                        Err(e) => Err(number_error_text(e)),
                        Ok(code) => match HttpStatusCode::with_number(code) {
                            None => Err(unknown_status_text(code)),
                            Some(status) => Ok(
                                ResponseModel {
                                    status,
                                    headers: set_headers(parse_headers(header_lines.skip(1))),
                                    body,
                                },
                            ),
                        },
                    }
                }
            }
        },
    }
}

/// The response that wire bytes hold, or the message that says why they
/// hold none. Bytes that are not valid UTF-8 give the decoder's own message.
pub open spec fn decode_response(bytes: Seq<u8>) -> Result<ResponseModel, Seq<char>> {
    if valid_utf8(bytes) {
        parse_response(decode_utf8(bytes))
    } else {
        Err(utf8_error_text(bytes))
    }
}

/// Finds the first blank line at or after `from`; the length of `s` stands
/// for none.
pub fn find_blank(s: &[char], from: usize) -> (k: usize)
    ensures
        k == find_blank_line(s@, from as int),
        k <= s@.len(),
        from <= s@.len() ==> from <= k,
        k < s@.len() ==> is_blank_line_at(s@, k as int),
{
    if s.len() < 4 {
        return s.len();
    }
    let last: usize = s.len() - 4;
    let mut i: usize = from;
    while i <= last && !(s[i] == '\r' && s[i + 1] == '\n' && s[i + 2] == '\r' && s[i + 3] == '\n')
        invariant
            from <= i,
            i <= s.len() || i == from,
            last == s.len() - 4,
            find_blank_line(s@, from as int) == find_blank_line(s@, i as int),
        decreases s.len() - i,
    {
        i += 1;
    }
    if i <= last {
        i
    } else {
        s.len()
    }
}

/// The message for a status number that cannot be read.
pub fn number_error_message(e: NumberError) -> (message: String)
    ensures
        message@ == number_error_text(e),
{
    match e {
        NumberError::Empty => String::from_str("cannot parse integer from empty string"),
        NumberError::InvalidDigit => String::from_str("invalid digit found in string"),
        NumberError::Overflow => String::from_str("number too large to fit in target type"),
    }
}

impl HttpResponse {
    /// A response with the given status, no headers and an empty body.
    pub fn new(status: HttpStatusCode) -> (response: Self)
        ensures
            response@ == (ResponseModel { status, headers: Seq::empty(), body: Seq::empty() }),
    {
        let response = Self { status, headers: Vec::new(), body: String::new() };
        assert(response@.headers =~= Seq::empty());
        response
    }

    /// Adds a header after those already set.
    pub fn set_header(&mut self, key: &str, val: &str)
        ensures
            final(self)@ == (ResponseModel {
                headers: old(self)@.headers.push((key@, val@)),
                ..old(self)@
            }),
    {
        self.headers.push((key.to_owned(), val.to_owned()));
        assert(final(self)@.headers =~= old(self)@.headers.push((key@, val@)));
    }

    /// Replaces the body.
    pub fn set_content(&mut self, body: &str)
        ensures
            final(self)@ == (ResponseModel { body: body@, ..old(self)@ }),
    {
        self.body = body.to_owned();
    }

    /// Encodes the response: status line, the headers in order, the computed
    /// `Content-Length`, a blank line, and the body.
    pub fn to_bytes(&self) -> (bytes: Vec<u8>)
        ensures
            bytes@ == self@.wire_bytes(),
    {
        let mut res = String::new();
        res.append("HTTP/1.1 ");
        res.append(self.status.reason());
        res.append("\r\n");
        let ghost prefix = res@;
        let mut i: usize = 0;
        assert(header_block(self@.headers.take(0)) =~= Seq::empty());
        assert(res@ =~= prefix + header_block(self@.headers.take(0)));
        while i < self.headers.len()
            invariant
                i <= self.headers.len(),
                res@ == prefix + header_block(self@.headers.take(i as int)),
            decreases self.headers.len() - i,
        {
            let ghost before = res@;
            let header = &self.headers[i];
            res.append(header.0.as_str());
            res.append(": ");
            res.append(header.1.as_str());
            res.append("\r\n");
            proof {
                let done = self@.headers.take(i + 1);
                assert(done.drop_last() =~= self@.headers.take(i as int));
                assert(done.last() == (header.0@, header.1@));
                assert(res@ =~= before + header_line(done.last()));
                assert(res@ =~= prefix + header_block(done));
            }
            i += 1;
        }
        assert(self@.headers.take(i as int) =~= self@.headers);
        let ghost headed = res@;
        res.append("Content-Length: ");
        push_decimal(&mut res, self.body.as_str().as_bytes().len() as u64);
        res.append("\r\n");
        res.append("\r\n");
        res.append(self.body.as_str());
        proof {
            reveal_strlit("\r\n");
            reveal_strlit("\r\n\r\n");
            assert("\r\n"@ + "\r\n"@ =~= "\r\n\r\n"@);
            let length = decimal(encode_utf8(self.body@).len());
            assert(res@ =~= headed + "Content-Length: "@ + length + ("\r\n"@ + "\r\n"@)
                + self.body@);
            assert(headed + "Content-Length: "@ + length =~= self@.wire_head());
        }
        res.as_str().as_bytes_vec()
    }

    /// Decodes a response from decoded text. The text is cut at its first
    /// blank line; the first line of the head gives the status, the other
    /// lines the headers, without the computed `Content-Length` that ends
    /// them.
    pub fn from_text(text: &[char]) -> (r: Result<Self, String>)
        ensures
            match r {
                Ok(response) => parse_response(text@) == Ok::<ResponseModel, Seq<char>>(
                    response@,
                ),
                Err(message) => parse_response(text@) == Err::<ResponseModel, Seq<char>>(
                    message@,
                ),
            },
    {
        let k = find_blank(text, 0);
        if k >= text.len() {
            return Err(String::from_str("Invalid HTTP response format"));
        }
        let head = slice_subrange(text, 0, k);
        let body = slice_subrange(text, k + 4, text.len());
        let header_lines = split_lines(head);
        if header_lines.len() == 0 {
            return Err(String::from_str("Empty HTTP response"));
        }
        let ghost all_lines = lines(head@);
        let status_parts = first_tokens(header_lines[0], 2);
        proof {
            assert(views(header_lines@)[0] == header_lines@[0]@);
        }
        if status_parts.len() < 2 {
            return Err(String::from_str("Invalid status line"));
        }
        proof {
            let all = split_whitespace(all_lines[0]);
            assert(views(status_parts@)[1] == status_parts@[1]@);
            assert(all.take(2)[1] == all[1]);
        }
        let code = match read_u16(status_parts[1]) {
            Err(e) => {
                return Err(number_error_message(e));
            },
            Ok(code) => code,
        };
        let status = match HttpStatusCode::from_u16(code) {
            Err(message) => {
                return Err(message);
            },
            Ok(status) => status,
        };
        let mut headers: Vec<(String, String)> = Vec::new();
        let mut i: usize = 1;
        assert(parse_headers(all_lines.subrange(1, 1)) =~= Seq::empty());
        assert(header_views(headers@) =~= Seq::empty());
        while i < header_lines.len()
            invariant
                1 <= i <= header_lines.len(),
                views(header_lines@) == all_lines,
                header_views(headers@) == parse_headers(all_lines.subrange(1, i as int)),
            decreases header_lines.len() - i,
        {
            let line = header_lines[i];
            let ghost before = headers@;
            proof {
                let seen = all_lines.subrange(1, i + 1);
                assert(seen.drop_last() =~= all_lines.subrange(1, i as int));
                assert(seen.last() == line@);
            }
            let colon = find(line, ':');
            if colon < line.len() {
                let key = trimmed(slice_subrange(line, 0, colon));
                let val = trimmed(slice_subrange(line, colon + 1, line.len()));
                headers.push((string_from(key), string_from(val)));
                assert(header_views(headers@) =~= header_views(before).push((key@, val@)));
            }
            i += 1;
        }
        assert(all_lines.subrange(1, i as int) =~= all_lines.skip(1));
        let ghost wire = header_views(headers@);
        let count = headers.len();
        if count > 0 {
            let name = String::from_str("Content-Length");
            assert(wire.last().0 == headers@[count - 1].0@);
            if headers[count - 1].0 == name {
                headers.pop();
                assert(header_views(headers@) =~= wire.drop_last());
            }
        }
        let response = HttpResponse { status, headers, body: string_from(body) };
        Ok(response)
    }

    /// Decodes a response from wire bytes.
    pub fn from_bytes(bytes: &[u8]) -> (r: Result<Self, String>)
        ensures
            match r {
                Ok(response) => decode_response(bytes@) == Ok::<ResponseModel, Seq<char>>(
                    response@,
                ),
                Err(message) => decode_response(bytes@) == Err::<ResponseModel, Seq<char>>(
                    message@,
                ),
            },
    {
        match utf8_text(bytes) {
            Err(message) => Err(message),
            Ok(text) => {
                let chars = chars_of(text);
                Self::from_text(chars.as_slice())
            },
        }
    }
}

} // verus!
