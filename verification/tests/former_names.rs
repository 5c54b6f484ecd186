use cryptopals::strings::{byte_as_partial_hex_ascii, hex_ascii_to_byte, hex_to_b64};

#[test]
fn strings_hex_to_base64_should_work() {
    let h = "a11012";
    assert_eq!(hex_to_b64(h), "oRAS");
}

#[test]
fn strings_hex_to_base64_should_pad_with_one_additional_zero() {
    let h = "a110";
    assert_eq!(hex_to_b64(h), "oRA=");
}

#[test]
fn strings_hex_to_base64_should_pad_with_one_additional_zero_for_longer_hex() {
    let h = "f10a11bdef";
    assert_eq!(hex_to_b64(h), "8QoRve8=");
}

#[test]
fn strings_hex_to_base64_should_pad_with_two_additional_zeroes() {
    let h = "1f";
    assert_eq!(hex_to_b64(h), "Hw==");
}

#[test]
fn strings_ascii_to_hex_happy_path() {
    assert_eq!(hex_ascii_to_byte('9' as u8, 'a' as u8), 0b10011010);
    assert_eq!(hex_ascii_to_byte('a' as u8, 'f' as u8), 0b10101111);
    assert_eq!(hex_ascii_to_byte('f' as u8, '0' as u8), 0b11110000);
    assert_eq!(hex_ascii_to_byte('0' as u8, '9' as u8), 0b00001001);
}

#[test]
fn strings_byte_as_partial_hex_ascii_should_convert_as_expected() {
    assert_eq!(byte_as_partial_hex_ascii(&0), 48);
    assert_eq!(byte_as_partial_hex_ascii(&1), 49);
    assert_eq!(byte_as_partial_hex_ascii(&9), 57);
    assert_eq!(byte_as_partial_hex_ascii(&10), 97);
    assert_eq!(byte_as_partial_hex_ascii(&15), 102);
}
