use cryptopals::aes128::s_box::{SBox, FORWARD_TABLE, INVERSE_TABLE};

#[test]
fn substitute_should_follow_the_forward_table() {
    let table = SBox::new();
    assert_eq!(table.substitute(0x00), 0x63);
    assert_eq!(table.substitute(0x01), 0x7c);
    assert_eq!(table.substitute(0x53), 0xed);
    assert_eq!(table.substitute(0xff), 0x16);
}

#[test]
fn substitute_should_follow_the_inverse_table() {
    let table = SBox::inverse_new();
    assert_eq!(table.substitute(0x63), 0x00);
    assert_eq!(table.substitute(0x7c), 0x01);
    assert_eq!(table.substitute(0xed), 0x53);
    assert_eq!(table.substitute(0x16), 0xff);
    assert_eq!(table.substitute(0x00), 0x52);
}

#[test]
fn inverse_table_should_undo_forward_table_for_every_byte() {
    let forward = SBox::new();
    let inverse = SBox::inverse_new();
    for byte in 0..=255u8 {
        assert_eq!(inverse.substitute(forward.substitute(byte)), byte);
        assert_eq!(forward.substitute(inverse.substitute(byte)), byte);
    }
}

#[test]
fn forward_table_should_hold_every_byte_once() {
    let mut seen = vec![false; 256];
    for byte in 0..256usize {
        let substitute = FORWARD_TABLE[byte] as usize;
        assert!(!seen[substitute]);
        seen[substitute] = true;
        assert_eq!(INVERSE_TABLE[substitute] as usize, byte);
    }
}

#[test]
fn byte_wise_s_word_32_should_substitute_each_byte() {
    assert_eq!(SBox::new().byte_wise_s_word_32(0x00_01_53_ff), 0x63_7c_ed_16);
    assert_eq!(SBox::inverse_new().byte_wise_s_word_32(0x63_7c_ed_16), 0x00_01_53_ff);
}

#[test]
fn byte_wise_s_word_128_should_substitute_each_byte() {
    let block = 0x00_01_02_03_10_20_30_40_53_7f_80_81_fc_fd_fe_ff;
    let expected = 0x63_7c_77_7b_ca_b7_04_09_ed_d2_cd_0c_b0_54_bb_16;
    assert_eq!(SBox::new().byte_wise_s_word_128(block), expected);
    assert_eq!(SBox::inverse_new().byte_wise_s_word_128(expected), block);
}
