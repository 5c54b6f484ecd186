use cryptopals::blocks::{bytes_to_blocks, repeated_blocks};

#[test]
fn bytes_to_blocks_should_pack_sixteen_bytes_into_a_block() {
    let bytes: Vec<u8> = (0..32u8).collect();
    assert_eq!(
        bytes_to_blocks(&bytes),
        vec![
            0x00010203_04050607_08090a0b_0c0d0e0f,
            0x10111213_14151617_18191a1b_1c1d1e1f
        ]
    );
    assert_eq!(
        bytes_to_blocks(&"YELLOW SUBMARINE".as_bytes().to_vec()),
        vec![0x59454c4c_4f572053_55424d41_52494e45]
    );
}

#[test]
fn bytes_to_blocks_should_leave_out_a_last_part_block() {
    let bytes: Vec<u8> = (0..31u8).collect();
    assert_eq!(bytes_to_blocks(&bytes), vec![0x00010203_04050607_08090a0b_0c0d0e0f]);
    let short: Vec<u8> = (0..15u8).collect();
    assert_eq!(bytes_to_blocks(&short), Vec::<u128>::new());
    assert_eq!(bytes_to_blocks(&vec![]), Vec::<u128>::new());
}

#[test]
fn repeated_blocks_should_count_blocks_seen_before() {
    assert_eq!(repeated_blocks(&vec![]), 0);
    assert_eq!(repeated_blocks(&vec![1, 2, 3]), 0);
    assert_eq!(repeated_blocks(&vec![1, 2, 1]), 1);
    assert_eq!(repeated_blocks(&vec![7, 7, 7, 7]), 3);
    assert_eq!(repeated_blocks(&vec![1, 2, 1, 2, 3, 1]), 3);
}
