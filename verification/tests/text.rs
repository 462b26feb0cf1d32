use vbar::text::{
    chars_of, first_word_at, is_space_char, lines_of, parse_i32_at, push_decimal, push_str,
    string_of, string_of_range, trim_at, trim_end_at, trim_start_at,
};

fn v(s: &str) -> Vec<char> {
    chars_of(s)
}

fn lines(s: &str) -> Vec<String> {
    let c = v(s);
    lines_of(&c).iter().map(|&(a, b)| string_of_range(&c, a, b)).collect()
}

fn parse(s: &str) -> Option<i32> {
    let c = v(s);
    parse_i32_at(&c, 0, c.len())
}

#[test]
fn whitespace_is_unicode_white_space() {
    for c in ['\t', '\n', '\u{b}', '\u{c}', '\r', ' ', '\u{85}', '\u{a0}', '\u{1680}', '\u{2000}', '\u{200a}', '\u{2028}', '\u{2029}', '\u{202f}', '\u{205f}', '\u{3000}'] {
        assert!(is_space_char(c), "{:?}", c);
        assert!(c.is_whitespace());
    }
    for c in ['a', '0', '\u{200b}', '\u{feff}', '\u{180e}', '_'] {
        assert!(!is_space_char(c), "{:?}", c);
        assert!(!c.is_whitespace());
    }
}

#[test]
fn trimming_matches_str() {
    for s in ["", "   ", "  ok \n", "\tx y\r\n", "\u{3000}title\u{a0}", "abc"] {
        let c = v(s);
        let (a, b) = trim_at(&c, 0, c.len());
        assert_eq!(string_of_range(&c, a, b), s.trim());
        let a = trim_start_at(&c, 0, c.len());
        assert_eq!(string_of_range(&c, a, c.len()), s.trim_start());
        let b = trim_end_at(&c, 0, c.len());
        assert_eq!(string_of_range(&c, 0, b), s.trim_end());
    }
}

#[test]
fn lines_match_str_lines() {
    for s in ["", "\n", "foo", "foo\n", "foo\nbar\n\r\nbaz\r", "a\r\nb\r\n", "\n\nx", "x\r", "\r\n"] {
        let expected: Vec<String> = s.lines().map(|l| l.to_string()).collect();
        assert_eq!(lines(s), expected, "{:?}", s);
    }
}

#[test]
fn first_word_matches_split_whitespace() {
    for s in ["", "  ", "3 (3) on", "  12\tx", "word", " a"] {
        let c = v(s);
        let got = first_word_at(&c, 0, c.len()).map(|(a, b)| string_of_range(&c, a, b));
        assert_eq!(got.as_deref(), s.split_whitespace().next(), "{:?}", s);
    }
}

#[test]
fn parse_matches_i32_from_str() {
    for s in [
        "0", "7", "+7", "-7", "007", "2147483647", "2147483648", "-2147483648", "-2147483649",
        "99999999999999999999", "", "+", "-", "+-1", "1a", "a1", " 1", "1 ", "-0", "٣",
    ] {
        assert_eq!(parse(s), s.parse::<i32>().ok(), "{:?}", s);
    }
}

#[test]
fn decimal_matches_display() {
    for i in [0, 1, 9, 10, 42, -1, -10, 1234567, i32::MAX, i32::MIN] {
        let mut out = Vec::new();
        push_decimal(&mut out, i);
        assert_eq!(string_of(&out), i.to_string());
    }
}

#[test]
fn parse_reads_back_decimal() {
    for i in [0, 5, -5, 100, i32::MAX, i32::MIN, -2147483647] {
        let mut out = Vec::new();
        push_decimal(&mut out, i);
        assert_eq!(parse_i32_at(&out, 0, out.len()), Some(i));
    }
}

#[test]
fn push_str_appends() {
    let mut out = vec!['a'];
    push_str(&mut out, "bç");
    assert_eq!(out, vec!['a', 'b', 'ç']);
    assert_eq!(string_of(&out), "abç");
}
