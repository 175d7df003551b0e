use scada::text::{char_is_whitespace, i64_to_string, u64_to_string};

#[test]
fn u64_renders_decimal_digits() {
    assert_eq!(u64_to_string(0), "0");
    assert_eq!(u64_to_string(7), "7");
    assert_eq!(u64_to_string(10), "10");
    assert_eq!(u64_to_string(5100), "5100");
    assert_eq!(u64_to_string(u64::MAX), u64::MAX.to_string());
}

#[test]
fn i64_renders_sign_and_digits() {
    assert_eq!(i64_to_string(0), "0");
    assert_eq!(i64_to_string(-1), "-1");
    assert_eq!(i64_to_string(-120), "-120");
    assert_eq!(i64_to_string(42), "42");
    assert_eq!(i64_to_string(i64::MIN), i64::MIN.to_string());
    assert_eq!(i64_to_string(i64::MAX), i64::MAX.to_string());
}

#[test]
fn whitespace_agrees_with_std_on_every_char() {
    for x in 0u32..=0x10FFFF {
        if let Some(c) = char::from_u32(x) {
            assert_eq!(char_is_whitespace(c), c.is_whitespace(), "U+{:04X}", x);
        }
    }
    assert!(char_is_whitespace(' '));
    assert!(!char_is_whitespace('/'));
    assert!(!char_is_whitespace('7'));
}
