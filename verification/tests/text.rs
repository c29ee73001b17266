use sierra::text::{decimal_string, hex_string, indent_string, lit, str_eq};

#[test]
fn numbers_in_decimal_and_hex() {
    assert_eq!(decimal_string(0), "0");
    assert_eq!(decimal_string(7), "7");
    assert_eq!(decimal_string(1234567890), "1234567890");
    assert_eq!(decimal_string(u64::MAX), u64::MAX.to_string());
    assert_eq!(hex_string(0), "0");
    assert_eq!(hex_string(255), "ff");
    assert_eq!(hex_string(0xdead_beef_0012), "deadbeef0012");
    assert_eq!(hex_string(u64::MAX), format!("{:x}", u64::MAX));
}

#[test]
fn indentation_and_literals() {
    assert_eq!(indent_string(0), "");
    assert_eq!(indent_string(3), "            ");
    assert_eq!(lit("abc"), "abc");
    assert!(str_eq("țară", "țară"));
    assert!(!str_eq("ab", "abc"));
    assert!(!str_eq("abd", "abc"));
}
