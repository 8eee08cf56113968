use m5mic::metadata::{metadata_priority, parse_u8};
use m5mic::text::{
    chars_equal, chars_of, contains_text, decode_text, equal_ignoring_case, find_text,
    is_whitespace, next_word, push_decimal, push_hex, split_line, starts_with, string_of,
    text_equal, to_ascii_lower, to_ascii_upper, trim, trim_line_ends, trim_text,
};

fn chars(s: &str) -> Vec<char> {
    s.chars().collect()
}

#[test]
fn text_is_utf8() {
    assert_eq!(decode_text("h\u{e9}llo \u{1f600}".as_bytes()), Some("h\u{e9}llo \u{1f600}"));
    assert_eq!(decode_text(b""), Some(""));
    assert_eq!(decode_text(&[0xff]), None);
    assert_eq!(decode_text(&[0xc3]), None);
    assert_eq!(decode_text(&[0xed, 0xa0, 0x80]), None);
    assert_eq!(decode_text(&[0xc0, 0xaf]), None);
}

#[test]
fn characters_and_strings_match() {
    assert_eq!(chars_of("a\u{e9}\u{4e2d}"), ['a', '\u{e9}', '\u{4e2d}']);
    assert_eq!(string_of(&['a', '\u{e9}']), "a\u{e9}");
    assert!(chars_equal(&['a'], &['a']));
    assert!(!chars_equal(&['a'], &['a', 'b']));
    assert!(text_equal("ab", "ab"));
    assert!(!text_equal("ab", "aB"));
    assert!(starts_with(&chars("WIFI FAIL"), &chars("WIFI")));
    assert!(!starts_with(&chars("WI"), &chars("WIFI")));
}

#[test]
fn white_space_is_that_of_unicode() {
    for code in 0..=0x10ffffu32 {
        if let Some(c) = char::from_u32(code) {
            assert_eq!(is_whitespace(c), c.is_whitespace(), "{code:x}");
        }
    }
}

#[test]
fn case_is_ascii_case() {
    for code in 0..=0x2ffu32 {
        if let Some(c) = char::from_u32(code) {
            assert_eq!(to_ascii_lower(c), c.to_ascii_lowercase());
            assert_eq!(to_ascii_upper(c), c.to_ascii_uppercase());
        }
    }
    assert!(equal_ignoring_case("M5Mic", "m5mIC"));
    assert!(!equal_ignoring_case("\u{c9}", "\u{e9}"));
    assert!(!equal_ignoring_case("m5mic", "m5mic "));
}

#[test]
fn words_are_found_between_spaces() {
    let s = chars(" \tab \n c");
    assert_eq!(next_word(&s, 0), Some((2, 4)));
    assert_eq!(next_word(&s, 3), Some((3, 4)));
    assert_eq!(next_word(&s, 4), Some((7, 8)));
    assert_eq!(next_word(&s, 8), None);
}

#[test]
fn text_is_trimmed() {
    assert_eq!(trim(&chars("\u{a0} a b \n")), &['a', ' ', 'b']);
    assert_eq!(trim_text(" \u{3000}x "), "x");
    assert_eq!(trim_text(" \t"), "");
    assert_eq!(trim_line_ends(&chars("a\r\n\n"), true), &['a']);
    assert_eq!(trim_line_ends(&chars("a\r\n\n"), false), &['a', '\r']);
}

#[test]
fn text_is_searched() {
    assert_eq!(find_text(&chars("abcabc"), &chars("ca")), Some(2));
    assert_eq!(find_text(&chars("abc"), &chars("")), Some(0));
    assert_eq!(find_text(&chars("abc"), &chars("cb")), None);
    assert!(contains_text("execution error: (-128)", "(-128)"));
    assert!(!contains_text("-12", "-128"));
}

#[test]
fn lines_are_split_off() {
    let s = chars("one\ntwo");
    let (line, rest) = split_line(&s);
    assert_eq!(line, chars("one"));
    assert_eq!(rest, chars("two"));
    let last = chars("two");
    let (line, rest) = split_line(&last);
    assert_eq!(line, chars("two"));
    assert!(rest.is_empty());
}

#[test]
fn numbers_are_written_out() {
    for n in [0u64, 7, 10, 1_024, u64::MAX] {
        let mut out = String::from("n=");
        push_decimal(&mut out, n);
        assert_eq!(out, format!("n={n}"));
    }
    for n in [0u64, 0xab, 0xffff_ffff] {
        let mut out = String::new();
        push_hex(&mut out, n, 8);
        assert_eq!(out, format!("{n:08x}"));
    }
}

#[test]
fn small_numbers_are_read() {
    assert_eq!(parse_u8(&chars("0")), Some(0));
    assert_eq!(parse_u8(&chars("255")), Some(255));
    assert_eq!(parse_u8(&chars("00042")), Some(42));
    assert_eq!(parse_u8(&chars("")), Some(0));
    assert_eq!(parse_u8(&chars("256")), None);
    assert_eq!(parse_u8(&chars("99999")), None);
    assert_eq!(parse_u8(&chars("1a")), None);
    assert_eq!(parse_u8(&chars("-1")), None);
}

#[test]
fn priority_is_the_first_that_can_be_read() {
    assert_eq!(metadata_priority(&chars("x priority=7 priority=9")), 7);
    assert_eq!(metadata_priority(&chars("priority=x priority=300 priority=9")), 9);
    assert_eq!(metadata_priority(&chars("Priority=7")), 0);
    assert_eq!(metadata_priority(&chars("")), 0);
}
