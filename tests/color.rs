use fourier_gif::color::{color_from_hex, ColorError};

#[test]
fn hex_colour_components() {
    assert_eq!(color_from_hex("0x1a2B3c"), Ok((0x1a, 0x2b, 0x3c)));
    assert_eq!(color_from_hex("FFFFFF"), Ok((255, 255, 255)));
}

#[test]
fn repeated_prefixes_are_skipped() {
    assert_eq!(color_from_hex("0x0x000000"), Ok((0, 0, 0)));
}

#[test]
fn trailing_characters_are_not_read() {
    assert_eq!(color_from_hex("0x102030zz"), Ok((0x10, 0x20, 0x30)));
}

#[test]
fn plus_sign_and_one_digit() {
    assert_eq!(color_from_hex("0x+f0000"), Ok((15, 0, 0)));
}

#[test]
fn short_colour_is_an_error() {
    assert_eq!(color_from_hex("0x12345"), Err(ColorError::TooShort));
    assert_eq!(color_from_hex(""), Err(ColorError::TooShort));
}

#[test]
fn non_hex_digit_is_an_error() {
    assert_eq!(color_from_hex("0x12g456"), Err(ColorError::InvalidDigit));
}
