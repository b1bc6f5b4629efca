use cc_limit::text::{
    chars_of, parse_i32_chars, parse_i64_chars, parse_u32_chars, same_text, split_field_chars,
    trim_chars,
};

const SAMPLES: &[&str] = &[
    "", "+", "-", "0", "-0", "+0", "+5", "-5", "007", "12a", "a12", " 1", "1 ", "1_0", "１",
    "2147483647", "2147483648", "-2147483648", "-2147483649", "4294967295", "4294967296",
    "9223372036854775807", "9223372036854775808", "-9223372036854775808",
    "-9223372036854775809", "000000000000000000000000000000001", "--1", "+-1", "99999999999999999999999",
];

#[test]
fn integers_read_as_std_reads_them() {
    for s in SAMPLES {
        let v = chars_of(s);
        assert_eq!(parse_i64_chars(&v), s.parse::<i64>().ok(), "i64 {:?}", s);
        assert_eq!(parse_i32_chars(&v), s.parse::<i32>().ok(), "i32 {:?}", s);
        assert_eq!(parse_u32_chars(&v), s.parse::<u32>().ok(), "u32 {:?}", s);
    }
}

#[test]
fn trim_removes_what_std_trim_removes() {
    for s in [
        "", "  ", " a ", "\t\n\u{0B}\u{0C}\rx\r\n", "\u{85}\u{A0}y\u{1680}", "\u{2000}\u{200A}z\u{2028}\u{2029}",
        "\u{202F}w\u{205F}\u{3000}", "\u{200B}v\u{200B}", "a b", "\u{FEFF}q",
    ] {
        let v = chars_of(s);
        assert_eq!(trim_chars(&v), s.trim().chars().collect::<Vec<char>>(), "{:?}", s);
    }
}

#[test]
fn split_fields_as_std_splits() {
    for s in ["", "a", "a:b", "a:b:c", ":", "::x", "a:", "1.5:2"] {
        let v = chars_of(s);
        for n in 0..4 {
            let expected = s.split(':').nth(n).map(|p| p.chars().collect::<Vec<char>>());
            assert_eq!(split_field_chars(&v, ':', n), expected, "{:?} {}", s, n);
        }
    }
}

#[test]
fn text_comparison() {
    assert!(same_text("DISPLAY1", "DISPLAY1"));
    assert!(!same_text("DISPLAY1", "DISPLAY2"));
    assert!(!same_text("DISPLAY", "DISPLAY1"));
    assert!(same_text("", ""));
}
