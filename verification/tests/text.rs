use mneme::text::{
    together, decimal_string, is_whitespace, parse_i32, parse_unsigned, str_eq, strings_from, trim,
    IntError,
};

#[test]
fn decimal_numbers() {
    for n in [0u64, 7, 10, 99, 100, 4093, 65535, u32::MAX as u64, u64::MAX] {
        assert_eq!(decimal_string(n), format!("{n}"));
    }
}

#[test]
fn decimal_reads_back() {
    for n in [0u64, 1, 9, 10, 255, 65535, 1048576] {
        assert_eq!(parse_unsigned(&decimal_string(n), u64::MAX), Ok(n));
        assert_eq!(parse_i32(&decimal_string(n)), Ok(n as i32));
    }
}

/// What the standard library makes of a text as a `u16`.
fn std_u16(s: &str) -> Result<u16, String> {
    s.parse::<u16>().map_err(|e| format!("{e}"))
}

fn std_i32(s: &str) -> Result<i32, String> {
    s.parse::<i32>().map_err(|e| format!("{e}"))
}

#[test]
fn numbers_read_as_elsewhere() {
    let texts = [
        "", "+", "-", "0", "-0", "+0", "00012", "+5", "-5", "65535", "65536", "655350", "99999x",
        "x99999", "1 ", " 1", "1_000", "2147483647", "2147483648", "-2147483648", "-2147483649",
        "-99999999999x", "99999999999", "++1", "+-1", "--1", "\u{661}", "0x10", "1e3", "-x",
    ];
    for t in texts {
        let ours = parse_unsigned(t, u16::MAX as u64)
            .map(|v| v as u16)
            .map_err(|e| e.message().to_string());
        assert_eq!(ours, std_u16(t), "{t:?}");
        let ours = parse_i32(t).map_err(|e| e.message().to_string());
        assert_eq!(ours, std_i32(t), "{t:?}");
    }
}

#[test]
fn each_number_error() {
    assert_eq!(parse_unsigned("", 9), Err(IntError::Empty));
    assert_eq!(parse_unsigned("a", 9), Err(IntError::InvalidDigit));
    assert_eq!(parse_unsigned("10", 9), Err(IntError::PosOverflow));
    assert_eq!(parse_i32("-2147483649"), Err(IntError::NegOverflow));
    assert_eq!(parse_unsigned("18446744073709551615", u64::MAX), Ok(u64::MAX));
    assert_eq!(parse_unsigned("18446744073709551616", u64::MAX), Err(IntError::PosOverflow));
}

#[test]
fn white_space_is_unicode_white_space() {
    for n in 0u32..=0x10ffff {
        if let Some(c) = char::from_u32(n) {
            assert_eq!(is_whitespace(c), c.is_whitespace(), "U+{n:04X}");
        }
    }
}

#[test]
fn trimming() {
    for t in ["", " ", "a", " a", "a ", "\t\n a b \u{3000}", "\u{a0}x\u{2028}", "   "] {
        assert_eq!(trim(t), t.trim(), "{t:?}");
    }
}

#[test]
fn comparing_and_joining() {
    assert!(str_eq("", ""));
    assert!(str_eq("--rows", "--rows"));
    assert!(!str_eq("--rows", "--row"));
    assert!(!str_eq("\u{e9}", "e"));
    assert!(!str_eq("ab", "ba"));
    assert_eq!(together("ab", "\u{e9}c"), "ab\u{e9}c");
    let v = vec!["a".to_string(), "b".to_string(), "c".to_string()];
    assert_eq!(strings_from(&v, 1), vec!["b".to_string(), "c".to_string()]);
    assert!(strings_from(&v, 3).is_empty());
}
