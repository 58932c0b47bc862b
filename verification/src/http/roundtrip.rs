//! Encoding a response and decoding the bytes again gives the response
//! back: the same status, the same headers in the same order, the same body.

use crate::http::response::{
    decode_response, find_blank_line, header_block, header_line, is_blank_line_at, parse_headers,
    parse_response, set_headers, split_head_body, split_header, HeaderModel, HttpStatusCode,
    ResponseModel,
};
use crate::http::text::{
    decimal, digit_char, find_char, is_digit, is_whitespace, lines, lines_scan, parse_digits,
    parse_u16, split_whitespace, strip_cr, tokens_scan, trim, trim_end, trim_start, NumberError,
};
use vstd::prelude::*;
use vstd::utf8::{encode_utf8, encode_utf8_decode_utf8, encode_utf8_valid_utf8};

verus! {

/// True if trimming leaves `s` as it is.
pub open spec fn is_trimmed(s: Seq<char>) -> bool {
    s.len() == 0 || (!is_whitespace(s[0]) && !is_whitespace(s.last()))
}

/// True for a header that decoding reads back as it was set: name and value
/// hold no line feed and no whitespace at either end, and the name holds no
/// colon.
pub open spec fn header_is_plain(h: HeaderModel) -> bool {
    &&& is_trimmed(h.0)
    &&& is_trimmed(h.1)
    &&& forall|i: int| 0 <= i < h.0.len() ==> h.0[i] != ':' && h.0[i] != '\n'
    &&& forall|i: int| 0 <= i < h.1.len() ==> h.1[i] != '\n'
}

/// True for a response that decoding reads back as it was encoded: every
/// header is plain. Nothing is asked of the body.
pub open spec fn survives_round_trip(r: ResponseModel) -> bool {
    forall|i: int| 0 <= i < r.headers.len() ==> header_is_plain(#[trigger] r.headers[i])
}

/// A header line without its line ending.
pub open spec fn header_text(h: HeaderModel) -> Seq<char> {
    h.0 + ": "@ + h.1
}

/// True if no line feed in `s` is followed by a carriage return.
pub open spec fn no_empty_line(s: Seq<char>) -> bool {
    forall|j: int| 0 <= j && j + 1 < s.len() && #[trigger] s[j] == '\n' ==> s[j + 1] != '\r'
}

proof fn lemma_lines_scan_shift(a: Seq<char>, b: Seq<char>, start: int, i: int)
    requires
        0 <= start <= i <= b.len(),
    ensures
        lines_scan(a + b, a.len() + start, a.len() + i) == lines_scan(b, start, i),
    decreases b.len() - i,
{
    let s = a + b;
    assert(s.subrange(a.len() + start, a.len() + i) =~= b.subrange(start, i));
    if i < b.len() {
        assert(s[a.len() + i] == b[i]);
        if b[i] == '\n' {
            lemma_lines_scan_shift(a, b, i + 1, i + 1);
        } else {
            lemma_lines_scan_shift(a, b, start, i + 1);
        }
    }
}

proof fn lemma_lines_concat_scan(a: Seq<char>, b: Seq<char>, start: int, i: int)
    requires
        a.len() > 0 ==> a.last() == '\n',
        0 <= start <= i <= a.len(),
        forall|j: int| start <= j < i ==> a[j] != '\n',
    ensures
        lines_scan(a + b, start, i) == lines_scan(a, start, i) + lines(b),
    decreases a.len() - i,
{
    let s = a + b;
    if i == a.len() {
        if start < i {
            assert(a[i - 1] != '\n');
        }
        lemma_lines_scan_shift(a, b, 0, 0);
        assert(lines_scan(a, start, i) + lines(b) =~= lines(b));
    } else {
        assert(s[i] == a[i]);
        assert(s.subrange(start, i) =~= a.subrange(start, i));
        if a[i] == '\n' {
            lemma_lines_concat_scan(a, b, i + 1, i + 1);
            assert(lines_scan(a + b, start, i) =~= lines_scan(a, start, i) + lines(b));
        } else {
            lemma_lines_concat_scan(a, b, start, i + 1);
        }
    }
}

/// The lines of a text that is cut right after a line feed are the lines of
/// the two parts.
pub proof fn lemma_lines_concat(a: Seq<char>, b: Seq<char>)
    requires
        a.len() > 0 ==> a.last() == '\n',
    ensures
        lines(a + b) == lines(a) + lines(b),
{
    lemma_lines_concat_scan(a, b, 0, 0);
}

proof fn lemma_lines_scan_to_feed(s: Seq<char>, start: int, i: int, k: int)
    requires
        0 <= start <= i <= k < s.len(),
        s[k] == '\n',
        forall|j: int| start <= j < k ==> s[j] != '\n',
    ensures
        lines_scan(s, start, i) == seq![strip_cr(s.subrange(start, k))] + lines_scan(
            s,
            k + 1,
            k + 1,
        ),
    decreases k - i,
{
    if i < k {
        lemma_lines_scan_to_feed(s, start, i + 1, k);
    }
}

proof fn lemma_lines_scan_to_end(s: Seq<char>, start: int, i: int)
    requires
        0 <= start <= i <= s.len(),
        forall|j: int| start <= j < s.len() ==> s[j] != '\n',
    ensures
        lines_scan(s, start, i) == if start < s.len() {
            seq![s.subrange(start, s.len() as int)]
        } else {
            Seq::<Seq<char>>::empty()
        },
    decreases s.len() - i,
{
    if i < s.len() {
        lemma_lines_scan_to_end(s, start, i + 1);
    }
}

/// A text without line feed, followed by a line ending, is one line.
pub proof fn lemma_terminated_line(l: Seq<char>)
    requires
        forall|j: int| 0 <= j < l.len() ==> l[j] != '\n',
    ensures
        lines(l + "\r\n"@) == seq![l],
{
    reveal_strlit("\r\n");
    let s = l + "\r\n"@;
    let k: int = l.len() as int + 1;
    assert(s[k] == '\n');
    assert(s[k - 1] == '\r');
    lemma_lines_scan_to_feed(s, 0, 0, k);
    assert(s.subrange(0, k).drop_last() =~= l);
    assert(strip_cr(s.subrange(0, k)) == l);
    assert(lines_scan(s, k + 1, k + 1) =~= Seq::<Seq<char>>::empty());
    assert(lines(s) =~= seq![l]);
}

/// A text without line feed that is not empty is one line.
pub proof fn lemma_open_line(l: Seq<char>)
    requires
        l.len() > 0,
        forall|j: int| 0 <= j < l.len() ==> l[j] != '\n',
    ensures
        lines(l) == seq![l],
{
    lemma_lines_scan_to_end(l, 0, 0);
    assert(l.subrange(0, l.len() as int) =~= l);
}

/// The texts of a run of headers.
pub open spec fn header_texts(headers: Seq<HeaderModel>) -> Seq<Seq<char>> {
    headers.map_values(|h: HeaderModel| header_text(h))
}

proof fn lemma_header_text_shape(h: HeaderModel)
    requires
        header_is_plain(h),
    ensures
        header_line(h) == header_text(h) + "\r\n"@,
        header_text(h).len() == h.0.len() + 2 + h.1.len(),
        header_text(h)[0] != '\r',
        forall|j: int| 0 <= j < header_text(h).len() ==> header_text(h)[j] != '\n',
        find_char(header_text(h), ':', 0) == h.0.len(),
        header_text(h).subrange(0, h.0.len() as int) == h.0,
        header_text(h).subrange(h.0.len() as int + 1, header_text(h).len() as int) == " "@
            + h.1,
{
    reveal_strlit(": ");
    reveal_strlit(" ");
    let t = header_text(h);
    assert(header_line(h) =~= t + "\r\n"@);
    assert(t.len() == h.0.len() + 2 + h.1.len());
    assert forall|j: int| 0 <= j < t.len() implies t[j] != '\n' by {
        if j < h.0.len() {
            assert(t[j] == h.0[j]);
        } else if j < h.0.len() + 2 {
            assert(t[j] == ": "@[j - h.0.len()]);
        } else {
            assert(t[j] == h.1[j - h.0.len() - 2]);
        }
    }
    if h.0.len() > 0 {
        assert(t[0] == h.0[0]);
        assert(is_whitespace('\r'));
    } else {
        assert(t[0] == ':');
    }
    assert(t[h.0.len() as int] == ':');
    assert forall|j: int| 0 <= j < h.0.len() implies t[j] != ':' by {
        assert(t[j] == h.0[j]);
    }
    lemma_find_char(t, ':', 0, h.0.len() as int);
    assert(t.subrange(0, h.0.len() as int) =~= h.0);
    assert(t.subrange(h.0.len() as int + 1, t.len() as int) =~= " "@ + h.1);
}

proof fn lemma_find_char(s: Seq<char>, c: char, i: int, k: int)
    requires
        0 <= i <= k < s.len(),
        s[k] == c,
        forall|j: int| i <= j < k ==> s[j] != c,
    ensures
        find_char(s, c, i) == k,
    decreases k - i,
{
    if i < k {
        lemma_find_char(s, c, i + 1, k);
    }
}

/// Trimming leaves a trimmed text as it is, also behind one space.
pub proof fn lemma_trim_trimmed(s: Seq<char>)
    requires
        is_trimmed(s),
    ensures
        trim(s) == s,
        trim(" "@ + s) == s,
{
    reveal_strlit(" ");
    let t = " "@ + s;
    assert(t[0] == ' ');
    assert(is_whitespace(' '));
    assert(t.drop_first() =~= s);
    assert(trim_start(t) == trim_start(s));
    assert(trim_start(s) == s);
    assert(trim_end(s) == s);
}

/// A plain header is read back from its line.
pub proof fn lemma_split_plain_header(h: HeaderModel)
    requires
        header_is_plain(h),
    ensures
        split_header(header_text(h)) == Some(h),
{
    lemma_header_text_shape(h);
    lemma_trim_trimmed(h.0);
    lemma_trim_trimmed(h.1);
    let line = header_text(h);
    let k = find_char(line, ':', 0);
    assert(line.subrange(0, k) == h.0);
    assert(line.subrange(k + 1, line.len() as int) == " "@ + h.1);
    assert(h == (h.0, h.1));
}

/// Plain headers are read back from their lines, in order.
pub proof fn lemma_parse_plain_headers(headers: Seq<HeaderModel>)
    requires
        forall|i: int| 0 <= i < headers.len() ==> header_is_plain(#[trigger] headers[i]),
    ensures
        parse_headers(header_texts(headers)) == headers,
    decreases headers.len(),
{
    let texts = header_texts(headers);
    if headers.len() == 0 {
        assert(parse_headers(texts) =~= headers);
    } else {
        let before = headers.drop_last();
        assert forall|i: int| 0 <= i < before.len() implies header_is_plain(
            #[trigger] before[i],
        ) by {
            assert(before[i] == headers[i]);
        }
        lemma_parse_plain_headers(before);
        assert(texts.drop_last() =~= header_texts(before));
        assert(texts.last() == header_text(headers.last()));
        lemma_split_plain_header(headers.last());
        assert(before.push(headers.last()) =~= headers);
    }
}

/// The head of an encoded response, cut into lines: each header gives its
/// own line, no line is empty, and what follows the headers is read as if it
/// stood alone.
proof fn lemma_header_block_lines(headers: Seq<HeaderModel>, tail: Seq<char>)
    requires
        forall|i: int| 0 <= i < headers.len() ==> header_is_plain(#[trigger] headers[i]),
        tail.len() > 0,
        tail[0] != '\r',
        no_empty_line(tail),
    ensures
        lines(header_block(headers) + tail) == header_texts(headers) + lines(tail),
        no_empty_line(header_block(headers) + tail),
        (header_block(headers) + tail)[0] != '\r',
        header_block(headers).len() > 0 ==> header_block(headers).last() == '\n',
    decreases headers.len(),
{
    reveal_strlit("\r\n");
    if headers.len() == 0 {
        assert(header_block(headers) + tail =~= tail);
        assert(header_texts(headers) + lines(tail) =~= lines(tail));
    } else {
        let before = headers.drop_last();
        let h = headers.last();
        assert(header_is_plain(h));
        assert forall|i: int| 0 <= i < before.len() implies header_is_plain(
            #[trigger] before[i],
        ) by {
            assert(before[i] == headers[i]);
        }
        lemma_header_text_shape(h);
        let t = header_text(h);
        let line = header_line(h);
        let rest = line + tail;
        assert(line.last() == '\n');
        assert(line[0] == t[0]);
        assert(rest[0] == line[0]);
        assert(no_empty_line(rest)) by {
            assert forall|j: int|
                0 <= j && j + 1 < rest.len() && #[trigger] rest[j] == '\n' implies rest[j + 1]
                != '\r' by {
                if j + 1 < line.len() {
                    assert(rest[j] == line[j]);
                    if j < t.len() {
                        assert(line[j] == t[j]);
                    } else {
                        assert(line[j] == "\r\n"@[j - t.len()]);
                    }
                } else if j + 1 == line.len() {
                    assert(rest[j + 1] == tail[0]);
                } else {
                    assert(rest[j] == tail[j - line.len()]);
                    assert(rest[j + 1] == tail[j + 1 - line.len()]);
                }
            }
        }
        lemma_header_block_lines(before, rest);
        assert(header_block(headers) + tail =~= header_block(before) + rest);
        lemma_lines_concat(line, tail);
        lemma_terminated_line(t);
        assert(header_texts(headers) =~= header_texts(before).push(t));
        assert(lines(header_block(headers) + tail) =~= header_texts(headers) + lines(tail));
        assert(header_block(headers).last() == line.last());
    }
}

proof fn lemma_find_blank_line_at(s: Seq<char>, i: int, k: int)
    requires
        0 <= i <= k,
        is_blank_line_at(s, k),
        forall|j: int| i <= j < k ==> !is_blank_line_at(s, j),
    ensures
        find_blank_line(s, i) == k,
    decreases k - i,
{
    if i < k {
        lemma_find_blank_line_at(s, i + 1, k);
    }
}

proof fn lemma_tokens_scan_to_space(s: Seq<char>, start: int, i: int, k: int)
    requires
        0 <= start <= i <= k < s.len(),
        start < k,
        is_whitespace(s[k]),
        forall|j: int| start <= j < k ==> !is_whitespace(s[j]),
    ensures
        tokens_scan(s, start, i) == seq![s.subrange(start, k)] + tokens_scan(s, k + 1, k + 1),
    decreases k - i,
{
    if i < k {
        lemma_tokens_scan_to_space(s, start, i + 1, k);
    }
}

/// The status line of an encoded response names the status it was encoded
/// with.
proof fn lemma_status_line(status: HttpStatusCode)
    ensures
        split_whitespace("HTTP/1.1 "@ + status.phrase()).len() >= 2,
        parse_u16(split_whitespace("HTTP/1.1 "@ + status.phrase())[1]) == Ok::<u16, NumberError>(
            status.number(),
        ),
        forall|j: int|
            0 <= j < ("HTTP/1.1 "@ + status.phrase()).len() ==> ("HTTP/1.1 "@
                + status.phrase())[j] != '\n',
{
    reveal_strlit("HTTP/1.1 ");
    reveal_strlit("200 OK");
    reveal_strlit("404 Not Found");
    reveal_strlit("400 Bad Request");
    let s = "HTTP/1.1 "@ + status.phrase();
    assert(s.len() >= 15);
    assert(is_whitespace(s[8]));
    assert(is_whitespace(s[12]));
    assert forall|j: int| 0 <= j < 8 implies !is_whitespace(s[j]) by {
        assert(s[j] == "HTTP/1.1 "@[j]);
    }
    assert forall|j: int| 9 <= j < 12 implies !is_whitespace(s[j]) by {
        assert(s[j] == status.phrase()[j - 9]);
    }
    lemma_tokens_scan_to_space(s, 0, 0, 8);
    lemma_tokens_scan_to_space(s, 9, 9, 12);
    let tokens = split_whitespace(s);
    let code = s.subrange(9, 12);
    assert(tokens =~= seq![s.subrange(0, 8)] + (seq![code] + tokens_scan(s, 13, 13)));
    assert(tokens[1] == code);
    assert(code[0] == status.phrase()[0]);
    assert(code[1] == status.phrase()[1]);
    assert(code[2] == status.phrase()[2]);
    reveal_with_fuel(parse_digits, 4);
    assert(parse_u16(code) == Ok::<u16, NumberError>(status.number()));
    assert forall|j: int| 0 <= j < s.len() implies s[j] != '\n' by {
        if j < 9 {
            assert(s[j] == "HTTP/1.1 "@[j]);
        } else {
            assert(s[j] == status.phrase()[j - 9]);
        }
    }
}

/// The decimal digits of a number are digits, and there is at least one.
pub proof fn lemma_decimal_digits(n: nat)
    ensures
        decimal(n).len() > 0,
        forall|j: int| 0 <= j < decimal(n).len() ==> is_digit(#[trigger] decimal(n)[j]),
    decreases n,
{
    if n >= 10 {
        lemma_decimal_digits(n / 10);
    }
    assert forall|d: nat| d < 10 implies is_digit(#[trigger] digit_char(d)) by {
        assert(d == 0 || d == 1 || d == 2 || d == 3 || d == 4 || d == 5 || d == 6 || d == 7 || d
            == 8 || d == 9);
    }
}

/// The computed `Content-Length` header is plain.
proof fn lemma_content_length_plain(r: ResponseModel)
    ensures
        header_is_plain(r.content_length()),
        header_text(r.content_length()) == "Content-Length: "@ + decimal(
            encode_utf8(r.body).len(),
        ),
{
    reveal_strlit("Content-Length");
    reveal_strlit("Content-Length: ");
    reveal_strlit(": ");
    let n = encode_utf8(r.body).len();
    let h = r.content_length();
    lemma_decimal_digits(n);
    assert forall|j: int| 0 <= j < h.1.len() implies h.1[j] != '\n' && !is_whitespace(
        h.1[j],
    ) by {
        assert(is_digit(decimal(n)[j]));
    }
    assert(header_text(h) =~= "Content-Length: "@ + decimal(n));
}

/// Round trip: the bytes of an encoded response decode to the response
/// itself, with the same status, the same headers in their order, and the
/// same body, whatever the body holds.
pub proof fn lemma_decode_encode(r: ResponseModel)
    requires
        survives_round_trip(r),
    ensures
        decode_response(r.wire_bytes()) == Ok::<ResponseModel, Seq<char>>(r),
{
    let text = r.wire_text();
    encode_utf8_valid_utf8(text);
    encode_utf8_decode_utf8(text);
    lemma_parse_encoded(r);
}

/// Round trip on text: the text of an encoded response parses to the
/// response itself.
pub proof fn lemma_parse_encoded(r: ResponseModel)
    requires
        survives_round_trip(r),
    ensures
        parse_response(r.wire_text()) == Ok::<ResponseModel, Seq<char>>(r),
{
    reveal_strlit("\r\n");
    reveal_strlit("\r\n\r\n");
    reveal_strlit("Content-Length: ");
    let text = r.wire_text();
    let head = r.wire_head();
    let status_line = "HTTP/1.1 "@ + r.status.phrase();
    let first = status_line + "\r\n"@;
    let length = r.content_length();
    let last = header_text(length);
    let all = r.wire_headers();
    lemma_content_length_plain(r);
    lemma_header_text_shape(length);
    lemma_status_line(r.status);
    assert forall|i: int| 0 <= i < all.len() implies header_is_plain(#[trigger] all[i]) by {
        if i < r.headers.len() {
            assert(all[i] == r.headers[i]);
        }
    }

    // The head is the status line, then one line for each header.
    lemma_lines_scan_to_end(last, 0, 0);
    assert(no_empty_line(last));
    lemma_header_block_lines(r.headers, last);
    let after = header_block(r.headers) + last;
    assert(head =~= first + after);
    lemma_lines_concat(first, after);
    lemma_terminated_line(status_line);
    lemma_open_line(last);
    let head_lines = lines(head);
    assert(head_lines =~= seq![status_line] + (header_texts(r.headers) + seq![last]));
    assert(head_lines[0] == status_line);
    assert(header_texts(all) =~= header_texts(r.headers).push(last));
    assert(head_lines.skip(1) =~= header_texts(all));
    lemma_parse_plain_headers(all);

    // No blank line stands in the head, one follows it, and none follows that.
    let h = head.len() as int;
    assert(head.last() == last.last());
    lemma_decimal_digits(encode_utf8(r.body).len());
    assert(last.last() == length.1.last());
    assert(is_digit(length.1[length.1.len() - 1]));
    assert(no_empty_line(head)) by {
        assert forall|j: int|
            0 <= j && j + 1 < head.len() && #[trigger] head[j] == '\n' implies head[j + 1]
            != '\r' by {
            if j + 1 < first.len() {
                assert(head[j] == first[j]);
                if j < status_line.len() {
                    assert(first[j] == status_line[j]);
                } else {
                    assert(first[j] == "\r\n"@[j - status_line.len()]);
                }
            } else {
                assert(head[j + 1] == after[j + 1 - first.len()]);
                if j + 1 > first.len() {
                    assert(head[j] == after[j - first.len()]);
                }
            }
        }
    }
    assert(is_blank_line_at(text, h)) by {
        assert(text[h] == "\r\n\r\n"@[0]);
        assert(text[h + 1] == "\r\n\r\n"@[1]);
        assert(text[h + 2] == "\r\n\r\n"@[2]);
        assert(text[h + 3] == "\r\n\r\n"@[3]);
    }
    assert forall|j: int| 0 <= j < h implies !is_blank_line_at(text, j) by {
        if is_blank_line_at(text, j) {
            if j + 1 < h {
                assert(text[j + 1] == head[j + 1]);
                if j + 2 < h {
                    assert(text[j + 2] == head[j + 2]);
                } else {
                    assert(head.last() == '\n');
                }
            } else {
                assert(text[j + 1] == "\r\n\r\n"@[0]);
            }
        }
    }
    lemma_find_blank_line_at(text, 0, h);
    assert(text.subrange(0, h) =~= head);
    assert(text.subrange(h + 4, text.len() as int) =~= r.body);
    assert(split_head_body(text) == Some((head, r.body)));

    // The last header on the wire is the computed one, and it is left out.
    assert(all.last() == length);
    assert(all.drop_last() =~= r.headers);
    assert(set_headers(all) == r.headers);
}

} // verus!
