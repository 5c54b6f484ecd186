use cryptopals::aes128::round_key::RoundKey;

#[test]
fn round_keys_should_be_correct() {
    let key = 0x54_68_61_74_73_20_6D_79_20_4B_75_6E_67_20_46_75;
    let expected: Vec<u32> = vec![
        0x54_68_61_74,
        0x73_20_6D_79,
        0x20_4B_75_6E,
        0x67_20_46_75,
        0xE2_32_FC_F1,
        0x91_12_91_88,
        0xB1_59_E4_E6,
        0xD6_79_A2_93,
        0x56_08_20_07,
        0xC7_1A_B1_8F,
        0x76_43_55_69,
        0xA0_3A_F7_FA,
        0xD2_60_0D_E7,
        0x15_7A_BC_68,
        0x63_39_E9_01,
        0xC3_03_1E_FB,
        0xA1_12_02_C9,
        0xB4_68_BE_A1,
        0xD7_51_57_A0,
        0x14_52_49_5B,
        0xB1_29_3B_33,
        0x05_41_85_92,
        0xD2_10_D2_32,
        0xC6_42_9B_69,
        0xBD_3D_C2_87,
        0xB8_7C_47_15,
        0x6A_6C_95_27,
        0xAC_2E_0E_4E,
        0xCC_96_ED_16,
        0x74_EA_AA_03,
        0x1E_86_3F_24,
        0xB2_A8_31_6A,
        0x8E_51_EF_21,
        0xFA_BB_45_22,
        0xE4_3D_7A_06,
        0x56_95_4B_6C,
        0xBF_E2_BF_90,
        0x45_59_FA_B2,
        0xA1_64_80_B4,
        0xF7_F1_CB_D8,
        0x28_FD_DE_F8,
        0x6D_A4_24_4A,
        0xCC_C0_A4_FE,
        0x3B_31_6F_26,
    ];
    let actual = RoundKey::new(key, 10).round_keys;
    assert_eq!(actual, expected);
}

#[test]
fn get_should_return_correct_elements() {
    let keys = RoundKey {
        round_keys: vec![0, 1, 2, 3, 4, 5, 6, 7, 8, 9, 10, 11, 12, 13],
    };
    let actual = keys.get(2);
    let expected = [8, 9, 10, 11];
    assert_eq!(actual, expected)
}

#[test]
fn left_cyclic_byte_rotate_test() {
    let actual = RoundKey::left_cyclic_byte_rotate(0x13579bdf);
    let expected = 0x579bdf13;
    assert_eq!(actual, expected);
}

#[test]
fn split_words_test() {
    let actual = RoundKey::split_words(0x13579bdf_23579adf_33579cdf_43579edf);
    let expected: [u32; 4] = [0x13579bdf, 0x23579adf, 0x33579cdf, 0x43579edf];
    assert_eq!(actual, expected);
}

#[test]
fn r_con_should_put_the_round_constant_in_the_most_significant_byte() {
    let expected: [u32; 10] = [
        0x01000000, 0x02000000, 0x04000000, 0x08000000, 0x10000000, 0x20000000, 0x40000000,
        0x80000000, 0x1b000000, 0x36000000,
    ];
    for round in 0..10u32 {
        assert_eq!(RoundKey::r_con(round), expected[round as usize]);
    }
}

#[test]
fn new_should_hold_only_the_key_for_zero_rounds() {
    let key = 0x54_68_61_74_73_20_6D_79_20_4B_75_6E_67_20_46_75;
    let actual = RoundKey::new(key, 0).round_keys;
    assert_eq!(actual, vec![0x54686174, 0x73206D79, 0x204B756E, 0x67204675]);
}

#[test]
fn new_should_expand_the_zero_key() {
    let schedule = RoundKey::new(0, 10);
    assert_eq!(schedule.round_keys.len(), 44);
    assert_eq!(schedule.get(0), [0, 0, 0, 0]);
    assert_eq!(schedule.get(1), [0x62636363, 0x62636363, 0x62636363, 0x62636363]);
    assert_eq!(schedule.get(10), [0xb4ef5bcb, 0x3e92e211, 0x23e951cf, 0x6f8f188e]);
}

#[test]
fn new_should_give_the_same_schedule_on_every_call() {
    let key = 0x2b7e1516_28aed2a6_abf71588_09cf4f3c;
    let first = RoundKey::new(key, 10).round_keys;
    let second = RoundKey::new(key, 10).round_keys;
    assert_eq!(first, second);
    assert_eq!(first[4], 0xa0fafe17);
    assert_eq!(first[43], 0xb6630ca6);
}
