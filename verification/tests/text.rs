use r2d2::text::lower_digit_str;
use r2d2::text::push_byte_list;
use r2d2::text::push_decimal;
use r2d2::text::push_fixed_hex;
use r2d2::text::push_upper_hex;
use r2d2::text::upper_digit_str;

#[test]
fn decimal_digits_without_padding() {
    for (n, text) in [(0u64, "0"), (7, "7"), (10, "10"), (6000, "6000"), (u64::MAX, "18446744073709551615")] {
        let mut out = String::from("<");
        push_decimal(&mut out, n);
        assert_eq!(out, format!("<{}", text));
    }
}

#[test]
fn upper_hex_digits_without_padding() {
    for (n, text) in [(0u64, "0"), (10, "A"), (15, "F"), (16, "10"), (0xAB, "AB"), (255, "FF")] {
        let mut out = String::new();
        push_upper_hex(&mut out, n);
        assert_eq!(out, text);
    }
}

#[test]
fn fixed_hex_digits_are_padded() {
    let mut out = String::new();
    push_fixed_hex(&mut out, 0x1f, 16);
    assert_eq!(out, "000000000000001f");
    let mut out = String::new();
    push_fixed_hex(&mut out, u64::MAX, 16);
    assert_eq!(out, "ffffffffffffffff");
    let mut out = String::new();
    push_fixed_hex(&mut out, 0x1234, 2);
    assert_eq!(out, "34");
    let mut out = String::from("x");
    push_fixed_hex(&mut out, 5, 0);
    assert_eq!(out, "x");
}

#[test]
fn byte_lists_are_suffixed_and_separated() {
    let mut out = String::new();
    push_byte_list(&mut out, &[]);
    assert_eq!(out, "");
    push_byte_list(&mut out, &[9]);
    assert_eq!(out, "9u8");
    let mut out = String::from("[");
    push_byte_list(&mut out, &[0, 17, 255]);
    assert_eq!(out, "[0u8, 17u8, 255u8");
}

#[test]
fn digits_by_value() {
    let lower: String = (0u8..16).map(lower_digit_str).collect();
    let upper: String = (0u8..16).map(upper_digit_str).collect();
    assert_eq!(lower, "0123456789abcdef");
    assert_eq!(upper, "0123456789ABCDEF");
}
