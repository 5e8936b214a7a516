use echo::decimal::{format_dimension, format_signed, parse_dimension};

#[test]
fn dimensions_are_written_in_decimal() {
    assert_eq!(format_dimension(0), "0");
    assert_eq!(format_dimension(768), "768");
    assert_eq!(format_dimension(usize::MAX), usize::MAX.to_string());
}

#[test]
fn signed_numbers_are_written_with_a_minus() {
    assert_eq!(format_signed(-42), "-42");
    assert_eq!(format_signed(7), "7");
    assert_eq!(format_signed(i64::MIN), i64::MIN.to_string());
}

#[test]
fn stored_dimension_reads_back() {
    for n in [0usize, 1, 9, 10, 384, 768, 1024, 4096, usize::MAX] {
        assert_eq!(parse_dimension(&format_dimension(n)), n);
    }
}

#[test]
fn unreadable_dimension_reads_as_zero() {
    assert_eq!(parse_dimension("+5"), 5);
    assert_eq!(parse_dimension("007"), 7);
    assert_eq!(parse_dimension(""), 0);
    assert_eq!(parse_dimension("+"), 0);
    assert_eq!(parse_dimension("-1"), 0);
    assert_eq!(parse_dimension("12a"), 0);
    assert_eq!(parse_dimension(" 12"), 0);
    assert_eq!(parse_dimension("99999999999999999999999"), 0);
}

#[test]
fn parse_agrees_with_std() {
    for s in ["0", "+0", "123", "+", "", "-3", "1_000", "18446744073709551615", "18446744073709551616"] {
        assert_eq!(parse_dimension(s), s.parse::<usize>().unwrap_or(0), "{}", s);
    }
}
