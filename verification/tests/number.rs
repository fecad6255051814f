use mf::number::{parse_decimal, parse_octal};

#[test]
fn decimal_numbers_are_read() {
    assert_eq!(parse_decimal("0"), Some(0));
    assert_eq!(parse_decimal("1000"), Some(1000));
    assert_eq!(parse_decimal("+42"), Some(42));
    assert_eq!(parse_decimal("007"), Some(7));
    assert_eq!(parse_decimal("4294967295"), Some(u32::MAX));
}

#[test]
fn what_is_no_decimal_number_is_refused() {
    assert_eq!(parse_decimal(""), None);
    assert_eq!(parse_decimal("+"), None);
    assert_eq!(parse_decimal("-1"), None);
    assert_eq!(parse_decimal("++1"), None);
    assert_eq!(parse_decimal("1+"), None);
    assert_eq!(parse_decimal(" 1"), None);
    assert_eq!(parse_decimal("1 "), None);
    assert_eq!(parse_decimal("12a"), None);
    assert_eq!(parse_decimal("0x10"), None);
    assert_eq!(parse_decimal("4294967296"), None);
    assert_eq!(parse_decimal("99999999999999999999999"), None);
    assert_eq!(parse_decimal("٣"), None);
}

#[test]
fn octal_numbers_are_read() {
    assert_eq!(parse_octal("644"), Some(0o644));
    assert_eq!(parse_octal("0755"), Some(0o755));
    assert_eq!(parse_octal("+7777"), Some(4095));
    assert_eq!(parse_octal("37777777777"), Some(u32::MAX));
}

#[test]
fn what_is_no_octal_number_is_refused() {
    assert_eq!(parse_octal(""), None);
    assert_eq!(parse_octal("8"), None);
    assert_eq!(parse_octal("79"), None);
    assert_eq!(parse_octal("rwx"), None);
    assert_eq!(parse_octal("40000000000"), None);
}

#[test]
fn numbers_are_read_as_the_standard_library_reads_them() {
    for s in ["", "+", "-", "0", "+0", "-0", "12", "0012", "4294967295", "4294967296", "1_000", "１２"] {
        assert_eq!(parse_decimal(s), s.parse::<u32>().ok(), "{:?}", s);
        assert_eq!(parse_octal(s), u32::from_str_radix(s, 8).ok(), "{:?}", s);
    }
}
