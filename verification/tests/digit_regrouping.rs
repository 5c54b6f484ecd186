use cryptopals::hex_to_base64::{ascii_to_hex, base64_table, convert, hex_triad_to_base64_diad};

#[test]
fn convert_should_work() {
    let h = "a11";
    assert_eq!(convert(h), "oR");
}

#[test]
fn convert_should_pad_with_one_additional_zero() {
    let h = "a1";
    assert_eq!(convert(h), "Ch");
}

#[test]
fn convert_should_pad_with_one_additional_zero_for_longer_hex() {
    let h = "f10a1";
    assert_eq!(convert(h), "DxCh");
}

#[test]
fn convert_should_pad_with_two_additional_zeroes() {
    let h = "1f0d";
    assert_eq!(convert(h), "AB8N");
}

#[test]
fn convert_should_return_nothing_for_no_digits() {
    assert_eq!(convert(""), "");
}

#[test]
fn convert_should_regroup_whole_triads() {
    assert_eq!(convert("f"), "AP");
    assert_eq!(convert("fff"), "//");
    assert_eq!(convert("000fff"), "AA//");
    assert_eq!(convert("0123456789abcdef"), "AAEjRWeJq83v");
}

#[test]
fn hex_to_base64_ascii_to_hex_happy_path() {
    assert_eq!(ascii_to_hex('a' as u8), 0b1010);
    assert_eq!(ascii_to_hex('f' as u8), 0b1111);
    assert_eq!(ascii_to_hex('0' as u8), 0b0000);
    assert_eq!(ascii_to_hex('9' as u8), 0b1001);
}

#[test]
fn base64_table_should_give_the_digit_of_each_number() {
    assert_eq!(base64_table(0), 'A' as u8);
    assert_eq!(base64_table(25), 'Z' as u8);
    assert_eq!(base64_table(26), 'a' as u8);
    assert_eq!(base64_table(51), 'z' as u8);
    assert_eq!(base64_table(52), '0' as u8);
    assert_eq!(base64_table(61), '9' as u8);
    assert_eq!(base64_table(62), '+' as u8);
    assert_eq!(base64_table(63), '/' as u8);
}

#[test]
fn hex_triad_to_base64_diad_should_split_twelve_bits_in_two() {
    assert_eq!(hex_triad_to_base64_diad(0xa, 0x1, 0x1), vec!['o' as u8, 'R' as u8]);
    assert_eq!(hex_triad_to_base64_diad(0, 0, 0), vec!['A' as u8, 'A' as u8]);
    assert_eq!(hex_triad_to_base64_diad(0xf, 0xf, 0xf), vec!['/' as u8, '/' as u8]);
}
