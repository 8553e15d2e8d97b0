use pathtracer::text::push_decimal;

#[test]
fn push_decimal_zero() {
    let mut s = String::new();
    push_decimal(&mut s, 0);
    assert_eq!(s, "0");
}

#[test]
fn push_decimal_single_and_many_digits() {
    let mut s = String::new();
    push_decimal(&mut s, 7);
    s.push(' ');
    push_decimal(&mut s, 1280);
    s.push(' ');
    push_decimal(&mut s, 1_000_000);
    assert_eq!(s, "7 1280 1000000");
}

#[test]
fn push_decimal_largest_value() {
    let mut s = String::new();
    push_decimal(&mut s, u64::MAX);
    assert_eq!(s, "18446744073709551615");
}

#[test]
fn push_decimal_keeps_the_prefix() {
    let mut s = String::from("width=");
    push_decimal(&mut s, 42);
    assert_eq!(s, "width=42");
}
