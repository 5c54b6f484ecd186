use cryptopals::decrypt::{chunk_and_transpose, single_byte_xor_candidates};
use cryptopals::encrypt::{repeated_key_xor, repeated_key_xor_with_strings};

#[test]
fn chunk_and_transpose_should_do_so() {
    let v = vec![0, 1, 2, 3, 4, 5, 6, 7, 8, 9, 0];
    assert_eq!(
        chunk_and_transpose(&v, 3),
        vec![vec![0, 3, 6, 9], vec![1, 4, 7, 0], vec![2, 5, 8]]
    );
}

#[test]
fn chunk_and_transpose_should_leave_late_vectors_empty() {
    let v = vec![7u8, 8];
    assert_eq!(chunk_and_transpose(&v, 4), vec![vec![7], vec![8], vec![], vec![]]);
    let none: Vec<u8> = vec![];
    assert_eq!(chunk_and_transpose(&none, 2), vec![Vec::<u8>::new(), vec![]]);
    assert_eq!(chunk_and_transpose(&vec![1u8, 2, 3], 1), vec![vec![1, 2, 3]]);
    assert_eq!(chunk_and_transpose(&vec![1u8, 2, 3, 4], 2), vec![vec![1, 3], vec![2, 4]]);
}

#[test]
fn repeated_key_xor_should_repeat_the_key() {
    assert_eq!(
        repeated_key_xor(&vec![0x00, 0x00, 0x00, 0xff, 0xff], &vec![0x01, 0x02]),
        vec![0x01, 0x02, 0x01, 0xfd, 0xfe]
    );
    assert_eq!(repeated_key_xor(&vec![], &vec![0x01]), Vec::<u8>::new());
    assert_eq!(repeated_key_xor(&vec![0x10], &vec![0x01, 0x02, 0x03]), vec![0x11]);
}

#[test]
fn repeated_key_xor_twice_should_return_the_bytes() {
    let bytes = vec![0x00, 0x7f, 0x80, 0xff, 0x55];
    let key = vec![0x13, 0x37];
    assert_eq!(repeated_key_xor(&repeated_key_xor(&bytes, &key), &key), bytes);
}

#[test]
fn repeated_key_xor_with_strings_should_encrypt_the_known_text() {
    let text = "Burning 'em, if you ain't quick and nimble\nI go crazy when I hear a cymbal";
    let key = "ICE";
    assert_eq!(
        repeated_key_xor_with_strings(text, key),
        "0b3637272a2b2e63622c2e69692a23693a2a3c6324202d623d63343c2a26226324272765272a282b2f20430a652e2c652a3124333a653e2b2027630c692b20283165286326302e27282f"
    );
}

#[test]
fn single_byte_xor_candidates_should_keep_every_key_for_ascii_bytes() {
    let bytes = vec![0x41, 0x42];
    let candidates = single_byte_xor_candidates(&bytes);
    assert_eq!(candidates.iter().filter(|(key, _)| *key < 128).count(), 128);
    assert_eq!(candidates[0], (0, "AB".to_owned()));
    assert_eq!(candidates[1], (1, "@C".to_owned()));
    assert_eq!(candidates[0x20], (0x20, "ab".to_owned()));
}

#[test]
fn single_byte_xor_candidates_should_drop_keys_that_give_no_text() {
    let candidates = single_byte_xor_candidates(&vec![0x80]);
    assert_eq!(candidates.len(), 128);
    assert_eq!(candidates[0], (128, "\u{0}".to_owned()));
    assert_eq!(candidates[127], (255, "\u{7f}".to_owned()));

    let candidates = single_byte_xor_candidates(&vec![0xc3, 0xa9]);
    assert_eq!(candidates.len(), 158);
    assert_eq!(candidates[0], (0, "\u{e9}".to_owned()));
    assert_eq!(candidates[1], (1, "\u{a8}".to_owned()));
    assert_eq!(candidates[2], (4, "\u{1ed}".to_owned()));
    assert_eq!(candidates[157], (255, "<V".to_owned()));
}

#[test]
fn single_byte_xor_candidates_should_give_the_empty_text_for_no_bytes() {
    let candidates = single_byte_xor_candidates(&vec![]);
    assert_eq!(candidates.len(), 256);
    assert_eq!(candidates[255], (255, String::new()));
}
