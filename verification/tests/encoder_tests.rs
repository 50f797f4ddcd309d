use huffr::encoder::{process_push, EncodingError};

fn digits(s: &str) -> Vec<u8> {
    s.as_bytes().to_vec()
}

#[test]
fn push_single_byte() {
    let r = process_push(&digits("01"));
    assert_eq!(r, Ok((0x60u8, vec![0x01u8])));
}

#[test]
fn push_zero_literal() {
    let r = process_push(&digits("00"));
    assert_eq!(r, Ok((0x5fu8, vec![0x00u8])));
}

#[test]
fn push_empty_text_is_zero() {
    let r = process_push(&digits(""));
    assert_eq!(r, Ok((0x5fu8, vec![0x00u8])));
}

#[test]
fn push_strips_leading_zeros() {
    let r = process_push(&digits("000a"));
    assert_eq!(r, Ok((0x60u8, vec![0x0au8])));
}

#[test]
fn push_odd_digit_count_left_pads() {
    let r = process_push(&digits("fff"));
    assert_eq!(r, Ok((0x61u8, vec![0x0fu8, 0xffu8])));
}

#[test]
fn push_uppercase_digits() {
    let r = process_push(&digits("FF"));
    assert_eq!(r, Ok((0x60u8, vec![0xffu8])));
}

#[test]
fn push_round_trip_digits() {
    // Encoding then decoding the payload reproduces the stripped digits.
    let stripped = "abc";
    let r = process_push(&digits(stripped)).unwrap();
    assert_eq!(r.1, vec![0x0au8, 0xbcu8]);
    let mut re_encoded = String::new();
    for b in &r.1 {
        re_encoded.push_str(&format!("{:02x}", b));
    }
    assert_eq!(&re_encoded[1..], stripped);
    assert_eq!(&re_encoded[..1], "0");
}

#[test]
fn push_widest_literal() {
    let r = process_push(&digits(&"ff".repeat(32))).unwrap();
    assert_eq!(r.0, 0x7fu8);
    assert_eq!(r.1, vec![0xffu8; 32]);
}

#[test]
fn push_over_max_width_fails() {
    let r = process_push(&digits(&"ff".repeat(33)));
    assert_eq!(r, Err(EncodingError::ExceedsMaxPushWidth));
}

#[test]
fn push_invalid_digit_fails() {
    let r = process_push(&digits("0g"));
    assert_eq!(r, Err(EncodingError::InvalidHexDigits));
}

#[test]
fn push_invalid_wins_over_width() {
    // A non-hexadecimal character is reported even when the text is
    // also too wide.
    let mut text = "ff".repeat(40);
    text.push('z');
    let r = process_push(&digits(&text));
    assert_eq!(r, Err(EncodingError::InvalidHexDigits));
}
