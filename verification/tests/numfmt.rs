use rich_py::numfmt::{decimal_string, push_grouped, push_signed_grouped, right_aligned_decimal, signed_decimal_string};

#[test]
fn decimal_text() {
    assert_eq!(decimal_string(0), "0");
    assert_eq!(decimal_string(1234567), "1234567");
    assert_eq!(decimal_string(u64::MAX), "18446744073709551615");
    assert_eq!(signed_decimal_string(-42), "-42");
    assert_eq!(signed_decimal_string(i64::MIN), "-9223372036854775808");
}

#[test]
fn grouped_text() {
    let mut s = String::new();
    push_grouped(&mut s, 1234567);
    assert_eq!(s, "1,234,567");
    let mut s = String::new();
    push_grouped(&mut s, 1000);
    assert_eq!(s, "1,000");
    let mut s = String::new();
    push_signed_grouped(&mut s, -1005);
    assert_eq!(s, "-1,005");
}

#[test]
fn right_aligned_text() {
    assert_eq!(right_aligned_decimal(5, 3), "  5");
    assert_eq!(right_aligned_decimal(-5, 3), " -5");
    assert_eq!(right_aligned_decimal(12345, 3), "12345");
}
