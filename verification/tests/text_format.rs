use lsc::text::{i64_to_text, push_centered, push_padded_after, push_padded_before, u64_to_text};

#[test]
fn decimal_of_zero_and_large_numbers() {
    assert_eq!(u64_to_text(0), "0");
    assert_eq!(u64_to_text(7), "7");
    assert_eq!(u64_to_text(1000), "1000");
    assert_eq!(u64_to_text(u64::MAX), u64::MAX.to_string());
}

#[test]
fn signed_decimal_matches_to_string() {
    assert_eq!(i64_to_text(-1), "-1");
    assert_eq!(i64_to_text(42), "42");
    assert_eq!(i64_to_text(i64::MIN), i64::MIN.to_string());
    assert_eq!(i64_to_text(i64::MAX), i64::MAX.to_string());
}

#[test]
fn padding_matches_format() {
    let mut s = String::new();
    push_padded_after(&mut s, "ab", 5);
    assert_eq!(s, format!("{:<5}", "ab"));
    let mut s = String::new();
    push_padded_before(&mut s, "-1", 4);
    assert_eq!(s, format!("{:>4}", -1));
    let mut s = String::new();
    push_centered(&mut s, "1000", 25);
    assert_eq!(s, format!("{:^25}", "1000"));
    let mut s = String::new();
    push_centered(&mut s, "abc", 6);
    assert_eq!(s, format!("{:^6}", "abc"));
    let mut s = String::new();
    push_padded_after(&mut s, "éé", 4);
    assert_eq!(s, format!("{:<4}", "éé"));
    let mut s = String::from("x");
    push_padded_after(&mut s, "toolong", 3);
    assert_eq!(s, "xtoolong");
}
