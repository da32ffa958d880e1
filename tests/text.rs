use voicepeak_cli::number::{parse_i32_chars, push_decimal};
use voicepeak_cli::text::{chars_of, is_whitespace_char, string_of, trim_chars};

#[test]
fn white_space_matches_std_for_every_char() {
    for u in 0..=0x10FFFFu32 {
        if let Some(c) = char::from_u32(u) {
            assert_eq!(is_whitespace_char(c), c.is_whitespace(), "U+{:04X}", u);
        }
    }
}

#[test]
fn trim_matches_std() {
    for s in ["", "   ", " a ", "\u{3000}全角\u{3000}", "\t\nx y\r\n", "abc", " \u{85}z\u{a0}"] {
        let t = trim_chars(&chars_of(s));
        assert_eq!(string_of(&t), s.trim());
    }
}

#[test]
fn parse_matches_std() {
    let samples = [
        "0", "7", "-7", "+7", "007", "-0", "2147483647", "2147483648", "-2147483648",
        "-2147483649", "", "-", "+", "1a", " 1", "1 ", "++1", "+-1", "99999999999999999999",
        "-99999999999999999999", "１",
    ];
    for s in samples {
        assert_eq!(parse_i32_chars(&chars_of(s)), s.parse::<i32>().ok(), "{:?}", s);
    }
}

#[test]
fn decimal_matches_std() {
    for v in [0, 1, -1, 9, 10, -10, 12345, i32::MAX, i32::MIN, -2147483647] {
        let mut out = Vec::new();
        push_decimal(&mut out, v);
        assert_eq!(out.iter().collect::<String>(), v.to_string());
    }
}
