use http_server_rs::http::request::{method_from, parse_request_chars, HttpMethod};
use http_server_rs::http::text::{
    chars_of, find, first_tokens, push_decimal, read_u16, split_lines, string_from, trimmed,
    whitespace, NumberError,
};

fn chars(s: &str) -> Vec<char> {
    s.chars().collect()
}

fn strings(parts: Vec<&[char]>) -> Vec<String> {
    parts.into_iter().map(|p| p.iter().collect()).collect()
}

const SAMPLES: [&str; 16] = [
    "",
    " ",
    "a",
    "a b",
    "  lead and trail  ",
    "tabs\tand\nfeeds\r\nand\x0bmore\x0c",
    "\u{85}next\u{a0}line",
    "\u{1680}ogham\u{2000}quad\u{200a}hair",
    "\u{2028}ls\u{2029}ps\u{202f}nn\u{205f}mm\u{3000}id",
    "\u{200b}zero\u{feff}width\u{180e}",
    "\n",
    "\r\n",
    "one\ntwo\r\nthree\rfour\n\nfive\r",
    "ends with feed\n",
    "\r",
    "a\r\r\nb",
];

#[test]
fn whitespace_is_that_of_std() {
    for code in 0..=0x10FFFFu32 {
        if let Some(c) = char::from_u32(code) {
            assert_eq!(whitespace(c), c.is_whitespace(), "U+{:04X}", code);
        }
    }
}

#[test]
fn tokens_are_those_of_std() {
    for s in SAMPLES {
        let text = chars(s);
        let expected: Vec<String> = s.split_whitespace().map(|t| t.to_string()).collect();
        assert_eq!(strings(first_tokens(&text, usize::MAX)), expected, "input {:?}", s);
        for limit in 0..4 {
            let want: Vec<String> = expected.iter().take(limit).cloned().collect();
            assert_eq!(strings(first_tokens(&text, limit)), want, "input {:?}", s);
        }
    }
}

#[test]
fn lines_are_those_of_std() {
    for s in SAMPLES {
        let text = chars(s);
        let expected: Vec<String> = s.lines().map(|t| t.to_string()).collect();
        assert_eq!(strings(split_lines(&text)), expected, "input {:?}", s);
    }
    let text = chars("a\r\nb\n\r\nc");
    assert_eq!(strings(split_lines(&text)), vec!["a", "b", "", "c"]);
}

#[test]
fn trimming_is_that_of_std() {
    for s in SAMPLES {
        let text = chars(s);
        let got: String = trimmed(&text).iter().collect();
        assert_eq!(got, s.trim(), "input {:?}", s);
    }
    let text = chars(" \t x y \u{3000}\n");
    let got: String = trimmed(&text).iter().collect();
    assert_eq!(got, "x y");
}

#[test]
fn find_gives_the_first_place() {
    assert_eq!(find(&chars("a:b:c"), ':'), 1);
    assert_eq!(find(&chars(":"), ':'), 0);
    assert_eq!(find(&chars("abc"), ':'), 3);
    assert_eq!(find(&chars(""), ':'), 0);
}

#[test]
fn numbers_are_read_as_std_reads_them() {
    let samples = [
        "", "+", "-", "0", "+0", "-0", "00012", "200", "404", "65535", "65536", "99999",
        "123456", "+65535", "+65536", "12a", "a12", "1 2", " 12", "12 ", "++1", "+-1", "6553x",
        "65535x", "65536x", "0000000000000000000001", "\u{661}", "1\u{e9}", "4294967296",
    ];
    for s in samples {
        let expected = s.parse::<u16>().map_err(|e| e.to_string());
        let got = read_u16(&chars(s)).map_err(|e| match e {
            NumberError::Empty => "cannot parse integer from empty string".to_string(),
            NumberError::InvalidDigit => "invalid digit found in string".to_string(),
            NumberError::Overflow => "number too large to fit in target type".to_string(),
        });
        assert_eq!(got, expected, "input {:?}", s);
    }
    assert_eq!(read_u16(&chars("200")), Ok(200));
    assert_eq!(read_u16(&chars("70000")), Err(NumberError::Overflow));
    assert_eq!(read_u16(&chars("")), Err(NumberError::Empty));
    assert_eq!(read_u16(&chars("2o0")), Err(NumberError::InvalidDigit));
}

#[test]
fn decimal_digits_are_those_of_std() {
    for n in [0u64, 1, 9, 10, 11, 99, 100, 101, 255, 1000, 65535, 4294967295, u64::MAX] {
        let mut out = String::from("n=");
        push_decimal(&mut out, n);
        assert_eq!(out, format!("n={}", n));
    }
}

#[test]
fn strings_and_chars_convert_both_ways() {
    for s in SAMPLES {
        assert_eq!(chars_of(s), chars(s));
        assert_eq!(string_from(&chars(s)), s);
    }
    assert_eq!(chars_of("\u{e9}\u{1f600}"), vec!['\u{e9}', '\u{1f600}']);
}

#[test]
fn methods_are_named_exactly() {
    assert_eq!(method_from(&chars("GET")), HttpMethod::GET);
    assert_eq!(method_from(&chars("HEAD")), HttpMethod::HEAD);
    assert_eq!(method_from(&chars("POST")), HttpMethod::POST);
    for other in ["", "get", "GETT", "HEA", "POS", "PUT", "PATCH", "HEAT", "POSE"] {
        assert_eq!(method_from(&chars(other)), HttpMethod::UNKNOWN);
    }
}

#[test]
fn requests_parse_from_text() {
    let req = parse_request_chars(&chars(" HEAD /x y z")).unwrap();
    assert_eq!(req.method, HttpMethod::HEAD);
    assert_eq!(req.path, "/x");
    assert!(parse_request_chars(&chars("HEAD")).is_none());
}
