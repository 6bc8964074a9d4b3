use spark_garden::number::{parse_number, push_decimal, push_fixed};
use spark_garden::text::{
    char_is_control, char_is_space, is_blank, lines_of, same_text, split_text, strip_text,
    text_after, text_before, text_begins_with, trim, trim_end, two_words,
};

const SAMPLES: &[&str] = &[
    "",
    " ",
    "a",
    " a b ",
    "\t\u{a0}x\u{2003}\r\n",
    "\u{1}a\u{1}",
    "\u{3000}\u{3000}",
    "a\r\nb\n\nc",
    "a\r",
    "a\r\r\n",
    "\n",
    "\r\n\r\n",
    "one two  three\n",
    "GET /x?y HTTP/1.1\r\n",
    "&a=b&&c",
    "\u{e9}t\u{e9}\u{85}",
];

#[test]
fn white_space_is_that_of_the_standard_library() {
    for code in 0u32..0x11_0000 {
        if let Some(c) = char::from_u32(code) {
            assert_eq!(char_is_space(c), c.is_whitespace(), "{:x}", code);
        }
    }
}

#[test]
fn control_characters_are_those_of_the_standard_library() {
    for code in 0u32..0x11_0000 {
        if let Some(c) = char::from_u32(code) {
            assert_eq!(char_is_control(c), c.is_control(), "{:x}", code);
        }
    }
}

#[test]
fn trimming_agrees_with_the_standard_library() {
    for s in SAMPLES {
        assert_eq!(trim(s), s.trim());
        assert_eq!(trim_end(s), s.trim_end());
        assert_eq!(is_blank(s), s.trim().is_empty());
    }
}

#[test]
fn splitting_agrees_with_the_standard_library() {
    for s in SAMPLES {
        for c in ['&', '\n', ' ', 'a'] {
            let expected: Vec<&str> = s.split(c).collect();
            assert_eq!(split_text(s, c), expected);
            let mut parts = s.splitn(2, c);
            assert_eq!(text_before(s, c), parts.next().unwrap_or_default());
            assert_eq!(text_after(s, c), parts.next().unwrap_or_default());
        }
        let expected: Vec<&str> = s.lines().collect();
        assert_eq!(lines_of(s), expected);
    }
}

#[test]
fn words_agree_with_the_standard_library() {
    for s in SAMPLES {
        let mut words = s.split_whitespace();
        let (first, second) = two_words(s);
        assert_eq!(first, words.next().unwrap_or_default());
        assert_eq!(second, words.next().unwrap_or_default());
    }
}

#[test]
fn prefixes_and_equality() {
    for s in SAMPLES {
        for t in SAMPLES {
            assert_eq!(same_text(s, t), s == t);
            assert_eq!(text_begins_with(s, t), s.starts_with(t));
            assert_eq!(strip_text(s, t).as_deref(), s.strip_prefix(t));
        }
    }
}

#[test]
fn decimal_numbers_are_written_and_read_back() {
    for n in [0u64, 1, 9, 10, 99, 100, 1_700_000_000, u64::MAX - 1, u64::MAX] {
        let mut out = String::from(">");
        push_decimal(&mut out, n);
        assert_eq!(out, format!(">{n}"));
        assert_eq!(parse_number(&out[1..], u64::MAX), Some(n));
    }
}

#[test]
fn fixed_digits_are_padded() {
    for n in [0u64, 7, 255, 1_700_000_000, u64::MAX] {
        let mut decimal = String::new();
        push_fixed(&mut decimal, n, 20, 10);
        assert_eq!(decimal, format!("{n:020}"));
        let mut hexadecimal = String::new();
        push_fixed(&mut hexadecimal, n, 16, 16);
        assert_eq!(hexadecimal, format!("{n:016x}"));
    }
}

#[test]
fn numbers_are_read_as_the_standard_library_reads_them() {
    for s in [
        "", "+", "-", "+1", "-1", "-0", "++1", "0", "007", " 1", "1 ", "1_000", "0x10", "12a", "a12",
        "\u{661}", "18446744073709551615", "18446744073709551616", "99999999999999999999999999",
        "18446744073709551616x", "+00000000000000000000000000000005",
    ] {
        assert_eq!(parse_number(s, u64::MAX), s.parse::<u64>().ok(), "{s:?}");
        assert_eq!(parse_number(s, u8::MAX as u64), s.parse::<u8>().ok().map(u64::from), "{s:?}");
    }
    assert_eq!(parse_number("5", 3), None);
    assert_eq!(parse_number("3", 3), Some(3));
}
