use rustadmin_transport::outside::sha256_of;
use rustadmin_transport::text::{
    constant_time_ascii_case_equal, decimal, hex_lower, hex_with_colons, is_control_char,
    is_not_after, parse_decimal, same_text, signed,
};

#[test]
fn decimals_round_trip() {
    for value in [0, 7, 10, 65_535, u64::MAX] {
        assert_eq!(decimal(value), format!("{}", value));
        assert_eq!(parse_decimal(&decimal(value), u64::MAX), Some(value));
    }
    assert_eq!(parse_decimal("65536", 65_535), None);
    assert_eq!(parse_decimal("", 10), None);
    assert_eq!(parse_decimal("+7", 10), "+7".parse::<u64>().ok());
    assert_eq!(parse_decimal("-7", 10), None);
    assert_eq!(parse_decimal("007", 10), Some(7));
    assert_eq!(parse_decimal("99999999999999999999999", u64::MAX), None);
    assert_eq!(signed(-12), "-12");
    assert_eq!(signed(i64::MIN), "-9223372036854775808");
}

#[test]
fn bytes_are_written_in_hexadecimal() {
    assert_eq!(hex_lower(&[0x0f, 0xa0]), "0fa0");
    assert_eq!(hex_with_colons(&[0x0f, 0xa0, 0xff]), "0F:A0:FF");
    assert_eq!(hex_with_colons(&[]), "");
}

#[test]
fn comparison_ignores_ascii_case_alone() {
    assert!(constant_time_ascii_case_equal("AB:0f", "ab:0F"));
    assert!(!constant_time_ascii_case_equal("AB", "AC"));
    assert!(!constant_time_ascii_case_equal("AB", "ABC"));
    assert!(same_text("a", "a"));
    assert!(!same_text("a", "A"));
}

#[test]
fn texts_are_ordered_as_strings_are() {
    for (left, right) in [("a", "b"), ("a", "aa"), ("b", "aa"), ("", "a"), ("a", "a")] {
        assert_eq!(is_not_after(left, right), left <= right);
        assert_eq!(is_not_after(right, left), right <= left);
    }
    for character in ['\u{0}', '\u{1f}', ' ', '~', '\u{7f}', '\u{9f}', '\u{a0}'] {
        assert_eq!(is_control_char(character), character.is_control());
    }
}

#[test]
fn digest_is_that_of_the_standard() {
    assert_eq!(
        hex_lower(&sha256_of(b"abc")),
        "ba7816bf8f01cfea414140de5dae2223b00361a396177a9cb410ff61f20015ad"
    );
}
