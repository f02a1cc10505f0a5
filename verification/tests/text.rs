use monkey::numeral::parse_u64;
use monkey::text::{same_text, text_of_bytes};

#[test]
fn parse_u64_reads_decimal_numerals() {
    assert_eq!(parse_u64("0"), Some(0));
    assert_eq!(parse_u64("5"), Some(5));
    assert_eq!(parse_u64("838383"), Some(838383));
    assert_eq!(parse_u64("0042"), Some(42));
}

#[test]
fn parse_u64_accepts_the_largest_value() {
    assert_eq!(parse_u64("18446744073709551615"), Some(u64::MAX));
    assert_eq!(parse_u64("00018446744073709551615"), Some(u64::MAX));
}

#[test]
fn parse_u64_rejects_overflow() {
    assert_eq!(parse_u64("18446744073709551616"), None);
    assert_eq!(parse_u64("18446744073709551620"), None);
    assert_eq!(parse_u64("99999999999999999999"), None);
    assert_eq!(parse_u64("100000000000000000000000"), None);
}

#[test]
fn parse_u64_rejects_what_is_no_numeral() {
    assert_eq!(parse_u64(""), None);
    assert_eq!(parse_u64("12a"), None);
    assert_eq!(parse_u64("a12"), None);
    assert_eq!(parse_u64("+5"), None);
    assert_eq!(parse_u64("-5"), None);
    assert_eq!(parse_u64(" 5"), None);
    assert_eq!(parse_u64("\u{663}"), None);
}

#[test]
fn same_text_compares_contents() {
    assert!(same_text("", ""));
    assert!(same_text("let", "let"));
    assert!(!same_text("let", "le"));
    assert!(!same_text("let", "lit"));
    assert!(!same_text("let", "Let"));
    assert!(same_text("\u{e9}", "\u{e9}"));
    assert!(!same_text("\u{e9}", "e"));
}

#[test]
fn text_of_bytes_spells_the_range() {
    let bytes = b"let x = 5;".to_vec();
    assert_eq!(text_of_bytes(&bytes, 0, 3), "let");
    assert_eq!(text_of_bytes(&bytes, 4, 5), "x");
    assert_eq!(text_of_bytes(&bytes, 3, 3), "");
    assert_eq!(text_of_bytes(&bytes, 0, bytes.len()), "let x = 5;");
}
