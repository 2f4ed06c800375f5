use ace_of_the_heavens::text::{
    chars_of, decimal_string, is_whitespace_char, parse_i64, parse_unsigned, split_whitespace,
};

fn v(s: &str) -> Vec<char> {
    s.chars().collect()
}

#[test]
fn decimal_formatting() {
    assert_eq!(decimal_string(0), "0");
    assert_eq!(decimal_string(7), "7");
    assert_eq!(decimal_string(10), "10");
    assert_eq!(decimal_string(u64::MAX), "18446744073709551615");
}

#[test]
fn unsigned_parsing_follows_std() {
    for s in ["0", "42", "+42", "007", "4294967295", "4294967296", "", "+", "-1", " 1", "1a"] {
        let expected: Option<u64> = s.parse::<u32>().ok().map(|x| x as u64);
        assert_eq!(parse_unsigned(&v(s), u32::MAX as u64), expected, "{}", s);
    }
    assert_eq!(parse_unsigned(&v("18446744073709551615"), u64::MAX), Some(u64::MAX));
    assert_eq!(parse_unsigned(&v("18446744073709551616"), u64::MAX), None);
}

#[test]
fn signed_parsing_follows_std() {
    for s in ["0", "-0", "+5", "-5", "-", "+", "", "9223372036854775807", "9223372036854775808",
        "-9223372036854775808", "-9223372036854775809", "--1"] {
        assert_eq!(parse_i64(&v(s)), s.parse::<i64>().ok(), "{}", s);
    }
}

#[test]
fn words_follow_split_whitespace() {
    for s in ["", "   ", "a", " a  b\tc\n", "nerf 1 2 3", "x\u{3000}y\u{85}z", "\u{a0}q\u{2003}"] {
        let expected: Vec<Vec<char>> = s.split_whitespace().map(|w| w.chars().collect()).collect();
        assert_eq!(split_whitespace(&v(s)), expected, "{:?}", s);
    }
}

#[test]
fn whitespace_matches_std() {
    for c in ['\t', '\n', ' ', '\u{85}', '\u{a0}', '\u{1680}', '\u{2000}', '\u{200a}', '\u{200b}',
        '\u{2028}', '\u{202f}', '\u{205f}', '\u{3000}', 'a', '0', '\u{8}', '\u{e}', '\u{feff}'] {
        assert_eq!(is_whitespace_char(c), c.is_whitespace(), "{:?}", c);
    }
    for code in 0u32..0x3100 {
        if let Some(c) = char::from_u32(code) {
            assert_eq!(is_whitespace_char(c), c.is_whitespace(), "{:?}", c);
        }
    }
}

#[test]
fn chars_of_unicode() {
    assert_eq!(chars_of("añ€😀"), vec!['a', 'ñ', '€', '😀']);
    assert_eq!(chars_of(""), Vec::<char>::new());
}
