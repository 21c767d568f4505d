use toon_mcp::number::{
    count_text, decimal_text, parse_i64, parse_u64, parse_usize, signed_decimal_text, whole,
};
use toon_mcp::ratio::Ratio;
use toon_mcp::text::{
    bytes_in, chars_of, comes_before, find_first, has_text, split_lines, trim, white_space,
};

#[test]
fn integers_parse_as_the_standard_library_does() {
    for s in [
        "", "+", "-", "0", "-0", "+0", "007", "12a", " 1", "1 ", "--1", "+-1", "٣",
        "9223372036854775807", "9223372036854775808", "-9223372036854775808",
        "-9223372036854775809", "18446744073709551615", "18446744073709551616",
        "99999999999999999999999999", "00000000000000000000000000000005",
    ] {
        assert_eq!(parse_i64(s), s.parse::<i64>().ok(), "{s}");
        assert_eq!(parse_u64(s), s.parse::<u64>().ok(), "{s}");
        assert_eq!(parse_usize(s), s.parse::<usize>().ok(), "{s}");
    }
}

#[test]
fn decimal_texts_read_back() {
    for n in [0, 7, 10, 99, 100, 12345, u64::MAX] {
        assert_eq!(decimal_text(n), n.to_string());
        assert_eq!(parse_u64(&decimal_text(n)), Some(n));
    }
    for i in [0, -1, 42, i64::MIN, i64::MAX] {
        assert_eq!(signed_decimal_text(i), i.to_string());
    }
    assert_eq!(count_text(1000), "1000");
}

#[test]
fn whole_numbers_are_told_from_their_bits() {
    for x in [
        0.0, -0.0, 1.0, -1.0, 0.5, 1.5, 2.5, 1e15, 4503599627370495.5, 4503599627370496.0,
        9007199254740993.0, 1e300, 1e-300, 5e-324, 123456.75, 0.1, 1048576.0, 3.0000000000000004,
    ] {
        assert_eq!(whole(f64::to_bits(x)), x.fract() == 0.0, "{x}");
    }
}

#[test]
fn ratios_bound_parts_of_wholes() {
    let r = Ratio { digits: 85, places: 2 };
    assert!(r.allows(85, 100) && !r.allows(86, 100) && r.allows(0, 0));
    let tiny = Ratio { digits: 1, places: 40 };
    assert!(tiny.allows(0, u64::MAX) && !tiny.allows(1, u64::MAX));
    let all = Ratio { digits: u64::MAX, places: 0 };
    assert!(all.allows(u64::MAX, u64::MAX) && !all.allows(1, 0));
    assert!(Ratio { digits: 10, places: 1 }.at_most_one());
    assert!(!Ratio { digits: 11, places: 1 }.at_most_one());
    assert!(Ratio { digits: u64::MAX, places: 20 }.at_most_one());
    assert!(!Ratio { digits: u64::MAX, places: 19 }.at_most_one());
}

#[test]
fn ratio_texts() {
    assert_eq!(Ratio::parse("0.85"), Some(Ratio { digits: 85, places: 2 }));
    assert_eq!(Ratio::parse("1.0"), Some(Ratio { digits: 10, places: 1 }));
    assert_eq!(Ratio::parse("1"), Some(Ratio { digits: 1, places: 0 }));
    assert_eq!(Ratio::parse("1.5e-7"), Some(Ratio { digits: 15, places: 8 }));
    assert_eq!(Ratio::parse("-0.0"), Some(Ratio { digits: 0, places: 1 }));
    for s in ["", "-", "1.1", "-0.5", "2", "1e5", "1e", "e-5", "0.5x", "0.5.5", "1e-99999999999"] {
        assert_eq!(Ratio::parse(s), None, "{s}");
    }
}

#[test]
fn white_space_is_unicode_white_space() {
    for u in 0..=0x3100u32 {
        if let Some(c) = char::from_u32(u) {
            assert_eq!(white_space(c), c.is_whitespace(), "U+{u:04X}");
        }
    }
    assert!(!white_space('\u{feff}'));
}

#[test]
fn lines_split_as_the_standard_library_does() {
    for s in ["", "\n", "a", "a\n", "a\nb", "a\r\nb\r\n", "a\r", "\r\n\r\n", "a\n\nb\n\n", "é\nx"] {
        let expected: Vec<String> = s.lines().map(str::to_string).collect();
        assert_eq!(split_lines(s), expected, "{s:?}");
    }
}

#[test]
fn texts_are_trimmed_and_searched() {
    for s in ["", "  ", " a b ", "\u{3000}x\u{85}", "\n\t-\r"] {
        assert_eq!(trim(s), s.trim());
    }
    assert!(has_text("username", "name") && !has_text("nam", "name") && has_text("x", ""));
    assert_eq!(find_first(&chars_of("a``b```c"), "```"), Some(4));
    assert_eq!(find_first(&chars_of("abc"), "d"), None);
    assert_eq!(bytes_in("aé東😀"), 10);
}

#[test]
fn texts_order_as_the_standard_library_does() {
    for (a, b) in [("", ""), ("", "a"), ("a", "ab"), ("ab", "b"), ("é", "z"), ("2023-11-14", "2023-11-15")] {
        assert_eq!(comes_before(a, b), a < b);
        assert_eq!(comes_before(b, a), b < a);
    }
}
