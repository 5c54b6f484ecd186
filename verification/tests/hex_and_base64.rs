use cryptopals::encodings::{
    b64_as_bytes, b64_ascii_to_byte, block_distances, byte_as_partial_hex_ascii,
    byte_to_b64_ascii, bytes_to_hex, combine, hamming_distance, hex_as_bytes, hex_ascii_to_byte,
    hex_to_b64, is_b64, is_hex, xor_hexes,
};

#[test]
fn encodings_hex_to_base64_should_work() {
    let h = "a11012";
    assert_eq!(hex_to_b64(h), "oRAS");
}

#[test]
fn encodings_hex_to_base64_should_pad_with_one_additional_zero() {
    let h = "a110";
    assert_eq!(hex_to_b64(h), "oRA=");
}

#[test]
fn encodings_hex_to_base64_should_pad_with_one_additional_zero_for_longer_hex() {
    let h = "f10a11bdef";
    assert_eq!(hex_to_b64(h), "8QoRve8=");
}

#[test]
fn encodings_hex_to_base64_should_pad_with_two_additional_zeroes() {
    let h = "1f";
    assert_eq!(hex_to_b64(h), "Hw==");
}

#[test]
fn hex_to_b64_should_pad_one_byte_with_two_marks() {
    assert_eq!(hex_to_b64("a1"), "oQ==".to_owned());
}

#[test]
fn hex_to_b64_should_return_nothing_for_no_digits() {
    assert_eq!(hex_to_b64(""), "");
}

#[test]
fn hex_to_b64_should_use_the_last_digits_of_the_alphabet() {
    assert_eq!(hex_to_b64("fbffbf"), "+/+/");
    assert_eq!(hex_to_b64("fffffe"), "///+");
    assert_eq!(hex_to_b64("4d616e"), "TWFu");
}

#[test]
fn hex_to_b64_should_convert_a_long_text() {
    let h = "49276d206b696c6c696e6720796f757220627261696e206c696b65206120706f69736f6e6f7573206d757368726f6f6d";
    assert_eq!(
        hex_to_b64(h),
        "SSdtIGtpbGxpbmcgeW91ciBicmFpbiBsaWtlIGEgcG9pc29ub3VzIG11c2hyb29t"
    );
}

#[test]
fn b64_as_bytes_should_convert_b64_strings_to_bytes() {
    assert_eq!(b64_as_bytes("oRAS"), vec![0xa1, 0x10, 0x12]);
    assert_eq!(b64_as_bytes("oRA="), vec![0xa1, 0x10]);
    assert_eq!(b64_as_bytes("8QoRve8="), vec![0xf1, 0x0a, 0x11, 0xbd, 0xef]);
    assert_eq!(b64_as_bytes("Hw=="), vec![0x1f]);
}

#[test]
fn b64_as_bytes_should_return_nothing_for_no_digits() {
    assert_eq!(b64_as_bytes(""), Vec::<u8>::new());
}

#[test]
fn b64_as_bytes_should_decode_each_group_of_four_by_itself() {
    assert_eq!(b64_as_bytes("Hw==oQ=="), vec![0x1f, 0xa1]);
    assert_eq!(b64_as_bytes("+/+////+"), vec![0xfb, 0xff, 0xbf, 0xff, 0xff, 0xfe]);
}

#[test]
fn b64_as_bytes_should_undo_hex_to_b64() {
    for h in ["", "00", "ff", "a110", "a11012", "f10a11bdef", "0123456789abcdef"] {
        assert_eq!(b64_as_bytes(&hex_to_b64(h)), hex_as_bytes(h));
    }
}

#[test]
fn encodings_ascii_to_hex_happy_path() {
    assert_eq!(hex_ascii_to_byte('9' as u8, 'a' as u8), 0b10011010);
    assert_eq!(hex_ascii_to_byte('a' as u8, 'f' as u8), 0b10101111);
    assert_eq!(hex_ascii_to_byte('f' as u8, '0' as u8), 0b11110000);
    assert_eq!(hex_ascii_to_byte('0' as u8, '9' as u8), 0b00001001);
}

#[test]
fn encodings_byte_as_partial_hex_ascii_should_convert_as_expected() {
    assert_eq!(byte_as_partial_hex_ascii(&0), 48);
    assert_eq!(byte_as_partial_hex_ascii(&1), 49);
    assert_eq!(byte_as_partial_hex_ascii(&9), 57);
    assert_eq!(byte_as_partial_hex_ascii(&10), 97);
    assert_eq!(byte_as_partial_hex_ascii(&15), 102);
}

#[test]
fn b64_ascii_to_byte_should_read_every_kind_of_digit() {
    assert_eq!(b64_ascii_to_byte('A' as u8), Some(0));
    assert_eq!(b64_ascii_to_byte('Z' as u8), Some(25));
    assert_eq!(b64_ascii_to_byte('a' as u8), Some(26));
    assert_eq!(b64_ascii_to_byte('z' as u8), Some(51));
    assert_eq!(b64_ascii_to_byte('0' as u8), Some(52));
    assert_eq!(b64_ascii_to_byte('9' as u8), Some(61));
    assert_eq!(b64_ascii_to_byte('+' as u8), Some(62));
    assert_eq!(b64_ascii_to_byte('/' as u8), Some(63));
    assert_eq!(b64_ascii_to_byte('=' as u8), None);
}

#[test]
fn byte_to_b64_ascii_should_undo_b64_ascii_to_byte() {
    for digit in 0..64u8 {
        assert_eq!(b64_ascii_to_byte(byte_to_b64_ascii(digit)), Some(digit));
    }
    assert_eq!(byte_to_b64_ascii(0), 'A' as u8);
    assert_eq!(byte_to_b64_ascii(26), 'a' as u8);
    assert_eq!(byte_to_b64_ascii(52), '0' as u8);
    assert_eq!(byte_to_b64_ascii(62), '+' as u8);
    assert_eq!(byte_to_b64_ascii(63), '/' as u8);
}

#[test]
fn hex_as_bytes_should_read_two_digits_to_a_byte() {
    assert_eq!(hex_as_bytes("ad1f"), vec![0b_1010_1101, 0b_0001_1111]);
    assert_eq!(hex_as_bytes(""), Vec::<u8>::new());
    assert_eq!(hex_as_bytes("00ff09a0"), vec![0x00, 0xff, 0x09, 0xa0]);
}

#[test]
fn bytes_to_hex_should_write_two_digits_for_a_byte() {
    assert_eq!(bytes_to_hex(&vec![0xad, 0x1f]), "ad1f");
    assert_eq!(bytes_to_hex(&vec![]), "");
    assert_eq!(bytes_to_hex(&vec![0x00, 0xff, 0x09, 0xa0]), "00ff09a0");
}

#[test]
fn bytes_to_hex_should_undo_hex_as_bytes() {
    let h = "0123456789abcdef";
    assert_eq!(bytes_to_hex(&hex_as_bytes(h)), h);
    let bytes: Vec<u8> = (0..=255u8).collect();
    assert_eq!(hex_as_bytes(&bytes_to_hex(&bytes)), bytes);
}

#[test]
fn xor_hexes_should_xor_the_bytes_of_both_texts() {
    assert_eq!(xor_hexes("0259acef", "bd134678"), "bf4aea97");
    assert_eq!(
        xor_hexes("1c0111001f010100061a024b53535009181c", "686974207468652062756c6c277320657965"),
        "746865206b696420646f6e277420706c6179"
    );
    assert_eq!(xor_hexes("", ""), "");
}

#[test]
fn hamming_distance_should_calculate() {
    assert_eq!(hamming_distance("this is a test", "wokka wokka!!!"), 37);
}

#[test]
fn hamming_distance_should_be_zero_between_equal_texts() {
    assert_eq!(hamming_distance("wokka", "wokka"), 0);
    assert_eq!(hamming_distance("", ""), 0);
}

#[test]
fn combine_should_combine() {
    let x = vec![0, 5, 10, 15];
    let k = combine(&x, &x);
    assert_eq!(
        k,
        vec![
            (&0, &5),
            (&0, &10),
            (&0, &15),
            (&5, &10),
            (&5, &15),
            (&10, &15)
        ]
    );
}

#[test]
fn combine_should_pair_places_not_values() {
    let v1 = vec![1, 2, 3];
    let v2 = vec![7, 8];
    assert_eq!(combine(&v1, &v2), vec![(&1, &8)]);
    let none: Vec<u8> = vec![];
    assert_eq!(combine(&none, &none), Vec::<(&u8, &u8)>::new());
    let one = vec![4];
    assert_eq!(combine(&one, &one), Vec::<(&i32, &i32)>::new());
}

#[test]
fn is_hex_should_accept_lower_case_digits_only() {
    assert!(is_hex(""));
    assert!(is_hex("0123456789abcdef"));
    assert!(is_hex("a11"));
    assert!(!is_hex("02g"));
    assert!(!is_hex("0A"));
    assert!(!is_hex("0z"));
    assert!(!is_hex("12 34"));
    assert!(!is_hex("/0"));
    assert!(!is_hex("9:"));
    assert!(!is_hex("`a"));
    assert!(!is_hex("\u{e9}"));
}

#[test]
fn is_b64_should_accept_whole_groups_only() {
    assert!(is_b64(""));
    assert!(is_b64("oRAS"));
    assert!(is_b64("oRA="));
    assert!(is_b64("Hw=="));
    assert!(is_b64("Hw==oQ=="));
    assert!(is_b64("+/+/"));
    assert!(!is_b64("8QoRve8"));
    assert!(!is_b64("H==="));
    assert!(!is_b64("===="));
    assert!(!is_b64("Hw=A"));
    assert!(!is_b64("oR-S"));
    assert!(!is_b64("oR S"));
}

#[test]
fn block_distances_should_compare_each_two_of_the_first_four_blocks() {
    let v = "this is a test".as_bytes().to_vec();
    assert_eq!(block_distances(2, &v), vec![8, 4, 5, 6, 7, 7]);
    assert_eq!(block_distances(3, &v), vec![5, 6, 8, 1, 9, 8]);
    assert_eq!(block_distances(1, &v), vec![3, 4, 3, 1, 4, 3]);
}

#[test]
fn block_distances_should_leave_out_blocks_that_reach_the_end() {
    let v = "this is a test".as_bytes().to_vec();
    assert_eq!(block_distances(4, &v), vec![11, 12, 11]);
    assert_eq!(block_distances(5, &v), vec![13]);
    assert_eq!(block_distances(7, &v), Vec::<u32>::new());
    assert_eq!(block_distances(14, &v), Vec::<u32>::new());
    assert_eq!(block_distances(0, &v), vec![0, 0, 0, 0, 0, 0]);
    assert_eq!(block_distances(2, &vec![]), Vec::<u32>::new());
}
