use uurlog_paymo::text::{
    blank, chars_of, decimal_len, find_char, parse_unsigned, push_decimal, push_padded, string_of,
    trim_range,
};
use uurlog_paymo::verbosity::{log_level, LogLevel};

fn chars(text: &str) -> Vec<char> {
    text.chars().collect()
}

fn number(text: &str, max: u64) -> Option<u64> {
    let chars = chars(text);
    parse_unsigned(&chars, 0, chars.len(), max)
}

#[test]
fn texts_and_characters_go_both_ways() {
    assert_eq!(chars_of("a\u{e9}\u{1f47e}"), vec!['a', '\u{e9}', '\u{1f47e}']);
    assert!(chars_of("").is_empty());
    let all = chars("hello world");
    assert_eq!(string_of(&all, 6, 11), "world");
    assert_eq!(string_of(&all, 0, 11), "hello world");
    assert_eq!(string_of(&all, 4, 4), "");
}

#[test]
fn numbers_are_written_in_decimal() {
    for n in [0u64, 1, 9, 10, 11, 99, 100, 12345, 4294967296, u64::MAX] {
        let mut text = "id ".to_string();
        push_decimal(&mut text, n);
        assert_eq!(text, format!("id {}", n));
        assert_eq!(decimal_len(n), format!("{}", n).len());
    }
}

#[test]
fn numbers_are_padded_with_zeros() {
    for (n, width, expected) in
        [(7u64, 2usize, "07"), (7, 4, "0007"), (12, 2, "12"), (123, 2, "123"), (0, 0, "0"), (0, 3, "000"), (5, 1, "5")]
    {
        let mut text = String::new();
        push_padded(&mut text, n, width);
        assert_eq!(text, expected);
    }
}

#[test]
fn unsigned_numbers_are_read() {
    assert_eq!(number("0", 10), Some(0));
    assert_eq!(number("10", 10), Some(10));
    assert_eq!(number("11", 10), None);
    assert_eq!(number("+10", 10), Some(10));
    assert_eq!(number("0000000000000000000000010", 10), Some(10));
    assert_eq!(number("18446744073709551615", u64::MAX), Some(u64::MAX));
    assert_eq!(number("18446744073709551616", u64::MAX), None);
    assert_eq!(number("184467440737095516150", u64::MAX), None);
    for text in ["", "+", "-", "-1", "1-", "a", "1a", " 1", "1 ", "++1", "1+", "\u{663}", "1_000"] {
        assert_eq!(number(text, u64::MAX), None, "{:?}", text);
    }
}

#[test]
fn unsigned_numbers_are_read_from_a_part_of_the_text() {
    let text = chars("ab+12cd");
    assert_eq!(parse_unsigned(&text, 2, 5, 100), Some(12));
    assert_eq!(parse_unsigned(&text, 3, 5, 100), Some(12));
    assert_eq!(parse_unsigned(&text, 3, 4, 100), Some(1));
    assert_eq!(parse_unsigned(&text, 3, 6, 100), None);
    assert_eq!(parse_unsigned(&text, 3, 3, 100), None);
    assert_eq!(parse_unsigned(&text, 2, 3, 100), None);
}

#[test]
fn white_space_is_what_the_standard_says() {
    for code in 0..=0x11_0000u32 {
        if let Some(c) = char::from_u32(code) {
            assert_eq!(blank(c), c.is_whitespace(), "{:x}", code);
        }
    }
}

#[test]
fn trimming_agrees_with_the_standard() {
    for text in ["", " ", "a", " a", "a ", "  a b  ", "\t\r\n", "\u{a0}x\u{3000}", "x  ", " \u{85}y z\u{2002}"] {
        let all = chars(text);
        let (from, to) = trim_range(&all, 0, all.len());
        assert_eq!(string_of(&all, from, to), text.trim(), "{:?}", text);
    }
    let all = chars("ab  cd  ef");
    assert_eq!(trim_range(&all, 2, 8), (4, 6));
    assert_eq!(trim_range(&all, 2, 4), (4, 4));
    assert_eq!(trim_range(&all, 5, 5), (5, 5));
}

#[test]
fn characters_are_found_from_the_front() {
    let all = chars("a=b=c");
    assert_eq!(find_char(&all, 0, 5, '='), 1);
    assert_eq!(find_char(&all, 2, 5, '='), 3);
    assert_eq!(find_char(&all, 4, 5, '='), 5);
    assert_eq!(find_char(&all, 0, 1, '='), 1);
    assert_eq!(find_char(&all, 3, 3, '='), 3);
}

#[test]
fn verbosity_moves_the_level_step_by_step() {
    assert_eq!(log_level(0, 0), LogLevel::Info);
    assert_eq!(log_level(1, 0), LogLevel::Debug);
    assert_eq!(log_level(2, 0), LogLevel::Trace);
    assert_eq!(log_level(255, 0), LogLevel::Trace);
    assert_eq!(log_level(0, 1), LogLevel::Warn);
    assert_eq!(log_level(0, 2), LogLevel::Error);
    assert_eq!(log_level(0, 255), LogLevel::Error);
    assert_eq!(log_level(3, 3), LogLevel::Info);
    assert_eq!(log_level(3, 4), LogLevel::Warn);
    assert_eq!(log_level(255, 254), LogLevel::Debug);
}
