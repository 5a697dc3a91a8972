use rep_cxl::text::char_is_digit;
use rep_cxl::text::char_is_space;
use rep_cxl::text::find_char;
use rep_cxl::text::find_pair;
use rep_cxl::text::parse_unsigned;
use rep_cxl::text::to_decimal;
use rep_cxl::text::trim;

#[test]
fn trim_agrees_with_std() {
    let samples = [
        "", " ", "a", " a", "a ", "  a b  ", "\t\n x \r\n", "\u{a0}x\u{3000}", "\u{2003}\u{2028}",
        "x\u{85}", "\u{1680}y\u{202f}\u{205f}", "no space", "\u{200b}z",
    ];
    for s in samples {
        assert_eq!(trim(s), s.trim(), "{:?}", s);
    }
}

#[test]
fn white_space_agrees_with_std() {
    for n in 0..0x3100u32 {
        if let Some(c) = char::from_u32(n) {
            assert_eq!(char_is_space(c), c.is_whitespace(), "{:x}", n);
            assert_eq!(char_is_digit(c), c.is_ascii_digit(), "{:x}", n);
        }
    }
}

#[test]
fn numbers_agree_with_std() {
    let samples = [
        "0", "7", "42", "007", "+5", "+", "", "-1", " 1", "1 ", "1a", "a1", "18446744073709551615",
        "18446744073709551616", "99999999999999999999999", "4294967295", "4294967296", "++1", "1+",
        "٣", "1_000",
    ];
    for s in samples {
        assert_eq!(parse_unsigned(s, u64::MAX), s.parse::<u64>().ok(), "{:?}", s);
        assert_eq!(
            parse_unsigned(s, u32::MAX as u64),
            s.parse::<u32>().ok().map(|v| v as u64),
            "{:?}",
            s
        );
    }
    assert_eq!(parse_unsigned("10", 9), None);
    assert_eq!(parse_unsigned("9", 9), Some(9));
    assert_eq!(parse_unsigned("0", 0), Some(0));
}

#[test]
fn decimal_agrees_with_std() {
    for n in [0u64, 1, 9, 10, 11, 99, 100, 12345, 1_000_000_007, u64::MAX] {
        assert_eq!(to_decimal(n), n.to_string());
    }
}

#[test]
fn finding_characters() {
    assert_eq!(find_char("a,b,c", ',', 0), Some(1));
    assert_eq!(find_char("a,b,c", ',', 2), Some(3));
    assert_eq!(find_char("a,b,c", ',', 4), None);
    assert_eq!(find_char("a,b,c", ',', 5), None);
    assert_eq!(find_char("", ',', 0), None);
    assert_eq!(find_pair("0..3", '.'), Some(1));
    assert_eq!(find_pair("0.3", '.'), None);
    assert_eq!(find_pair("0.3..4", '.'), Some(3));
    assert_eq!(find_pair("...", '.'), Some(0));
    assert_eq!(find_pair(".", '.'), None);
    assert_eq!(find_pair("", '.'), None);
    assert_eq!(find_pair("é..3", '.'), Some(1));
}
