//! Scanning of decoded text: whitespace, tokens, lines, trimming and decimal
//! numbers. Every function here works on characters; each executable
//! function stands beside the specification that it computes.

use vstd::prelude::*;
use vstd::slice::slice_subrange;
use vstd::utf8::{decode_utf8, valid_utf8};

verus! {

/// `String::push` appends one character.
pub assume_specification[ String::push ](s: &mut String, c: char)
    ensures
        final(s)@ == old(s)@.push(c),
;

/// The message that `std::str::Utf8Error` displays when `std::str::from_utf8`
/// refuses `bytes`.
pub uninterp spec fn utf8_error_text(bytes: Seq<u8>) -> Seq<char>;

/// `std::str::from_utf8`: bytes that are valid UTF-8 come back as the text
/// they encode; for any others the error comes back as the message that it
/// displays.
#[verifier::external_body]
pub(crate) fn utf8_text(bytes: &[u8]) -> (r: Result<&str, String>)
    ensures
        match r {
            Ok(text) => valid_utf8(bytes@) && text@ == decode_utf8(bytes@),
            Err(message) => !valid_utf8(bytes@) && message@ == utf8_error_text(bytes@),
        },
{
    match std::str::from_utf8(bytes) {
        Ok(text) => Ok(text),
        Err(e) => Err(e.to_string()),
    }
}

/// The characters of a string, for scanning by index.
pub fn chars_of(text: &str) -> (chars: Vec<char>)
    ensures
        chars@ == text@,
{
    let mut chars: Vec<char> = Vec::new();
    for c in it: text.chars()
        invariant
            chars@ == it.seq().take(it.index() as int),
    {
        chars.push(c);
    }
    chars
}

/// True for the characters with the Unicode property `White_Space`.
pub open spec fn is_whitespace(c: char) -> bool {
    let u = c as u32;
    ||| 0x09 <= u <= 0x0D
    ||| u == 0x20
    ||| u == 0x85
    ||| u == 0xA0
    ||| u == 0x1680
    ||| 0x2000 <= u <= 0x200A
    ||| u == 0x2028
    ||| u == 0x2029
    ||| u == 0x202F
    ||| u == 0x205F
    ||| u == 0x3000
}

/// Tells whether `c` is whitespace.
pub fn whitespace(c: char) -> (b: bool)
    ensures
        b == is_whitespace(c),
{
    let u: u32 = c as u32;
    (0x09 <= u && u <= 0x0D) || u == 0x20 || u == 0x85 || u == 0xA0 || u == 0x1680 || (0x2000 <= u
        && u <= 0x200A) || u == 0x2028 || u == 0x2029 || u == 0x202F || u == 0x205F || u == 0x3000
}

/// The character sequences behind a vector of slices.
pub open spec fn views(parts: Seq<&[char]>) -> Seq<Seq<char>> {
    parts.map_values(|p: &[char]| p@)
}

/// The whitespace-separated pieces of `s` from `start` on, where `s[start..i]`
/// is known to hold no whitespace.
pub open spec fn tokens_scan(s: Seq<char>, start: int, i: int) -> Seq<Seq<char>>
    decreases s.len() - i,
{
    if i >= s.len() {
        if start < i {
            seq![s.subrange(start, i)]
        } else {
            Seq::empty()
        }
    } else if is_whitespace(s[i]) {
        if start < i {
            seq![s.subrange(start, i)] + tokens_scan(s, i + 1, i + 1)
        } else {
            tokens_scan(s, i + 1, i + 1)
        }
    } else {
        tokens_scan(s, start, i + 1)
    }
}

/// The maximal runs of characters of `s` that are not whitespace, in order.
pub open spec fn split_whitespace(s: Seq<char>) -> Seq<Seq<char>> {
    tokens_scan(s, 0, 0)
}

/// The first `limit` whitespace-separated pieces of `s`, or all of them if
/// there are fewer.
pub fn first_tokens<'a>(s: &'a [char], limit: usize) -> (out: Vec<&'a [char]>)
    ensures
        out@.len() == if split_whitespace(s@).len() < limit {
            split_whitespace(s@).len()
        } else {
            limit as nat
        },
        views(out@) == split_whitespace(s@).take(out@.len() as int),
{
    let mut out: Vec<&'a [char]> = Vec::new();
    let mut start: usize = 0;
    let mut i: usize = 0;
    while i < s.len() && out.len() < limit
        invariant
            start <= i <= s.len(),
            out@.len() <= limit,
            split_whitespace(s@) == views(out@) + tokens_scan(s@, start as int, i as int),
        decreases s.len() - i,
    {
        if whitespace(s[i]) {
            if start < i {
                let ghost before = out@;
                let piece = slice_subrange(s, start, i);
                out.push(piece);
                assert(views(out@) =~= views(before).push(piece@));
                assert(views(out@) + tokens_scan(s@, i + 1, i + 1) =~= views(before) + (seq![
                    piece@,
                ] + tokens_scan(s@, i + 1, i + 1)));
            }
            start = i + 1;
        }
        i += 1;
    }
    if i == s.len() && start < i && out.len() < limit {
        let ghost before = out@;
        let piece = slice_subrange(s, start, i);
        out.push(piece);
        assert(views(out@) =~= views(before).push(piece@));
        assert(split_whitespace(s@) =~= views(out@));
    }
    assert(views(out@) =~= split_whitespace(s@).take(out@.len() as int));
    out
}

/// A line without the carriage return that may end it.
pub open spec fn strip_cr(line: Seq<char>) -> Seq<char> {
    if line.len() > 0 && line.last() == '\r' {
        line.drop_last()
    } else {
        line
    }
}

/// The lines of `s` from `start` on, where `s[start..i]` is known to hold no
/// line feed.
pub open spec fn lines_scan(s: Seq<char>, start: int, i: int) -> Seq<Seq<char>>
    decreases s.len() - i,
{
    if i >= s.len() {
        if start < i {
            seq![s.subrange(start, i)]
        } else {
            Seq::empty()
        }
    } else if s[i] == '\n' {
        seq![strip_cr(s.subrange(start, i))] + lines_scan(s, i + 1, i + 1)
    } else {
        lines_scan(s, start, i + 1)
    }
}

/// The lines of `s`. A line ends at a line feed; the line feed, and a
/// carriage return right before it, are not part of the line. What follows
/// the last line feed is a line of its own unless it is empty.
pub open spec fn lines(s: Seq<char>) -> Seq<Seq<char>> {
    lines_scan(s, 0, 0)
}

/// Splits `s` into its lines.
pub fn split_lines<'a>(s: &'a [char]) -> (out: Vec<&'a [char]>)
    ensures
        views(out@) == lines(s@),
{
    let mut out: Vec<&'a [char]> = Vec::new();
    let mut start: usize = 0;
    let mut i: usize = 0;
    while i < s.len()
        invariant
            start <= i <= s.len(),
            lines(s@) == views(out@) + lines_scan(s@, start as int, i as int),
        decreases s.len() - i,
    {
        if s[i] == '\n' {
            let end = if start < i && s[i - 1] == '\r' {
                i - 1
            } else {
                i
            };
            let ghost before = out@;
            let piece = slice_subrange(s, start, end);
            assert(piece@ =~= strip_cr(s@.subrange(start as int, i as int)));
            out.push(piece);
            assert(views(out@) =~= views(before).push(piece@));
            assert(views(out@) + lines_scan(s@, i + 1, i + 1) =~= views(before) + (seq![piece@]
                + lines_scan(s@, i + 1, i + 1)));
            start = i + 1;
        }
        i += 1;
    }
    if start < i {
        let ghost before = out@;
        let piece = slice_subrange(s, start, i);
        out.push(piece);
        assert(views(out@) =~= views(before).push(piece@));
    }
    assert(views(out@) =~= lines(s@));
    out
}

/// `s` without the whitespace at its start.
pub open spec fn trim_start(s: Seq<char>) -> Seq<char>
    decreases s.len(),
{
    if s.len() > 0 && is_whitespace(s[0]) {
        trim_start(s.drop_first())
    } else {
        s
    }
}

/// `s` without the whitespace at its end.
pub open spec fn trim_end(s: Seq<char>) -> Seq<char>
    decreases s.len(),
{
    if s.len() > 0 && is_whitespace(s.last()) {
        trim_end(s.drop_last())
    } else {
        s
    }
}

/// `s` without the whitespace at its start and at its end.
pub open spec fn trim(s: Seq<char>) -> Seq<char> {
    trim_end(trim_start(s))
}

/// Removes the whitespace at both ends of `s`.
pub fn trimmed<'a>(s: &'a [char]) -> (out: &'a [char])
    ensures
        out@ == trim(s@),
{
    let mut lo: usize = 0;
    assert(s@.subrange(0, s@.len() as int) =~= s@);
    while lo < s.len() && whitespace(s[lo])
        invariant
            lo <= s.len(),
            trim_start(s@) == trim_start(s@.subrange(lo as int, s@.len() as int)),
        decreases s.len() - lo,
    {
        assert(s@.subrange(lo as int, s@.len() as int).drop_first() =~= s@.subrange(
            lo + 1,
            s@.len() as int,
        ));
        lo += 1;
    }
    let mut hi: usize = s.len();
    while hi > lo && whitespace(s[hi - 1])
        invariant
            lo <= hi <= s.len(),
            trim(s@) == trim_end(s@.subrange(lo as int, hi as int)),
        decreases hi,
    {
        assert(s@.subrange(lo as int, hi as int).drop_last() =~= s@.subrange(
            lo as int,
            hi - 1,
        ));
        hi -= 1;
    }
    slice_subrange(s, lo, hi)
}

/// The index of the first `c` in `s` at or after `i`, or the length of `s`
/// if there is none.
pub open spec fn find_char(s: Seq<char>, c: char, i: int) -> int
    decreases s.len() - i,
{
    if i >= s.len() {
        s.len() as int
    } else if s[i] == c {
        i
    } else {
        find_char(s, c, i + 1)
    }
}

/// Finds the first `c` in `s`; the length of `s` stands for none.
pub fn find(s: &[char], c: char) -> (k: usize)
    ensures
        k == find_char(s@, c, 0),
        k <= s@.len(),
{
    let mut i: usize = 0;
    while i < s.len() && s[i] != c
        invariant
            i <= s.len(),
            find_char(s@, c, 0) == find_char(s@, c, i as int),
        decreases s.len() - i,
    {
        i += 1;
    }
    i
}

/// True for the ASCII digits.
pub open spec fn is_digit(c: char) -> bool {
    '0' <= c <= '9'
}

/// The value of an ASCII digit.
pub open spec fn digit_value(c: char) -> nat {
    (c as u32 - '0' as u32) as nat
}

/// The ASCII digit for a value below ten.
pub open spec fn digit_char(d: nat) -> char {
    (d + 48) as u8 as char
}

/// Why a sequence of characters is not a number that fits.
#[derive(Clone, Copy, Debug, PartialEq, Eq, Structural)]
pub enum NumberError {
    /// There are no characters at all.
    Empty,
    /// A character is not a digit where one is needed.
    InvalidDigit,
    /// The number is larger than the type can hold.
    Overflow,
}

/// Reads `d[i..]` as decimal digits that continue the number `acc`. The
/// first character that is no digit, or the first digit that takes the
/// number over the limit of `u16`, decides the error.
pub open spec fn parse_digits(d: Seq<char>, i: int, acc: nat) -> Result<u16, NumberError>
    decreases d.len() - i,
{
    if i >= d.len() {
        Ok(acc as u16)
    } else if !is_digit(d[i]) {
        Err(NumberError::InvalidDigit)
    } else if acc * 10 + digit_value(d[i]) > u16::MAX {
        Err(NumberError::Overflow)
    } else {
        parse_digits(d, i + 1, acc * 10 + digit_value(d[i]))
    }
}

/// The number that `s` writes in decimal: digits, after an optional `+`.
pub open spec fn parse_u16(s: Seq<char>) -> Result<u16, NumberError> {
    if s.len() == 0 {
        Err(NumberError::Empty)
    } else if s.len() == 1 && (s[0] == '+' || s[0] == '-') {
        Err(NumberError::InvalidDigit)
    } else if s[0] == '+' {
        parse_digits(s, 1, 0)
    } else {
        parse_digits(s, 0, 0)
    }
}

/// Reads a decimal number that fits in sixteen bits.
pub fn read_u16(s: &[char]) -> (r: Result<u16, NumberError>)
    ensures
        r == parse_u16(s@),
{
    if s.len() == 0 {
        return Err(NumberError::Empty);
    }
    if s.len() == 1 && (s[0] == '+' || s[0] == '-') {
        return Err(NumberError::InvalidDigit);
    }
    let mut i: usize = if s[0] == '+' {
        1
    } else {
        0
    };
    let mut acc: u32 = 0;
    while i < s.len()
        invariant
            i <= s.len(),
            acc <= u16::MAX,
            parse_u16(s@) == parse_digits(s@, i as int, acc as nat),
        decreases s.len() - i,
    {
        let c = s[i];
        if !('0' <= c && c <= '9') {
            return Err(NumberError::InvalidDigit);
        }
        let d: u32 = c as u32 - '0' as u32;
        if acc * 10 + d > 65535 {
            return Err(NumberError::Overflow);
        }
        acc = acc * 10 + d;
        i += 1;
    }
    Ok(acc as u16)
}

/// The decimal digits of `n`, without leading zeros.
pub open spec fn decimal(n: nat) -> Seq<char>
    decreases n,
{
    if n < 10 {
        seq![digit_char(n)]
    } else {
        decimal(n / 10).push(digit_char(n % 10))
    }
}

/// Appends the decimal digits of `n` to `out`.
pub fn push_decimal(out: &mut String, n: u64)
    ensures
        final(out)@ == old(out)@ + decimal(n as nat),
    decreases n,
{
    if n >= 10 {
        push_decimal(out, n / 10);
    }
    let d: u8 = (n % 10) as u8;
    out.push((d + 48) as char);
    assert(final(out)@ =~= old(out)@ + decimal(n as nat));
}

/// Copies characters into a string.
pub fn string_from(s: &[char]) -> (out: String)
    ensures
        out@ == s@,
{
    let mut out = String::new();
    let mut i: usize = 0;
    while i < s.len()
        invariant
            i <= s.len(),
            out@ == s@.subrange(0, i as int),
        decreases s.len() - i,
    {
        out.push(s[i]);
        assert(out@ =~= s@.subrange(0, i + 1));
        i += 1;
    }
    assert(out@ =~= s@);
    out
}

} // verus!
