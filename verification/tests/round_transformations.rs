use cryptopals::aes128::algorithm_utilities::{
    add_round_key, inverse_mix_columns, inverse_shift_rows, inverse_sub_bytes, merge_bytes,
    mix_columns, nth_byte, replace_byte, shift_rows, split_into_bytes, sub_bytes,
};

#[test]
fn nth_byte_should_return_last_byte() {
    let actual = nth_byte(0xabcdef, 15);
    assert_eq!(actual, 0xef);
}

#[test]
fn nth_byte_should_return_third_byte() {
    let actual = nth_byte(0xabcdef, 13);
    assert_eq!(actual, 0xab);
}

#[test]
fn nth_byte_should_return_first_byte() {
    let actual = nth_byte(0x12_34_56_78_90_ab_cd_ef_11_22_33_44_55_66_77_88, 0);
    assert_eq!(actual, 0x12);
}

#[test]
fn replace_byte_should_replace_the_required_byte() {
    let actual = replace_byte(0xabcde10234567789, 0xff, 13);
    let expected = 0xabcde10234ff7789;
    assert_eq!(actual, expected);
}

#[test]
fn replace_byte_should_replace_the_first_byte() {
    let actual = replace_byte(0x12_34_56_78_90_ab_cd_ef_11_22_33_44_55_66_77_88, 0xfe, 0);
    let expected = 0xfe_34_56_78_90_ab_cd_ef_11_22_33_44_55_66_77_88;
    assert_eq!(actual, expected);
}

#[test]
fn shift_rows_should_work_as_expected() {
    let state: u128 = 0x12_34_56_78_90_ab_cd_ef_11_22_33_44_55_66_77_88;
    let actual = shift_rows(state);
    let expected = 0x12_ab_33_88_90_22_77_78_11_66_56_ef_55_34_cd_44;
    assert_eq!(actual, expected);
}

#[test]
fn inverse_shift_rows_should_work_as_expected() {
    let state = 0x12_ab_33_88_90_22_77_78_11_66_56_ef_55_34_cd_44;
    let actual = inverse_shift_rows(state);
    let expected = 0x12_34_56_78_90_ab_cd_ef_11_22_33_44_55_66_77_88;
    assert_eq!(actual, expected);
}

#[test]
fn shift_rows_should_leave_row_zero_in_place() {
    let state: u128 = 0x00_01_02_03_04_05_06_07_08_09_0a_0b_0c_0d_0e_0f;
    let actual = shift_rows(state);
    let expected = 0x00_05_0a_0f_04_09_0e_03_08_0d_02_07_0c_01_06_0b;
    assert_eq!(actual, expected);
}

#[test]
fn shift_rows_and_inverse_shift_rows_should_undo_each_other() {
    let state: u128 = 0x00_01_02_03_04_05_06_07_08_09_0a_0b_0c_0d_0e_0f;
    assert_eq!(inverse_shift_rows(shift_rows(state)), state);
    assert_eq!(shift_rows(inverse_shift_rows(state)), state);
}

#[test]
fn split_into_bytes_should_split_as_expected() {
    let actual = split_into_bytes(0x12_34_56_78_90_ab_cd_ef_11_22_33_44_55_66_77_88);
    let expected = vec![
        0x12, 0x34, 0x56, 0x78, 0x90, 0xab, 0xcd, 0xef, 0x11, 0x22, 0x33, 0x44, 0x55, 0x66,
        0x77, 0x88,
    ];
    assert_eq!(actual, expected);
}

#[test]
fn merge_bytes_should_merge_as_expected() {
    let actual = merge_bytes(vec![
        0x12, 0x34, 0x56, 0x78, 0x90, 0xab, 0xcd, 0xef, 0x11, 0x22, 0x33, 0x44, 0x55, 0x66,
        0x77, 0x88,
    ]);
    let expected = 0x12_34_56_78_90_ab_cd_ef_11_22_33_44_55_66_77_88;
    assert_eq!(actual, expected);
}

#[test]
fn merge_bytes_should_merge_a_short_vector() {
    assert_eq!(merge_bytes(vec![]), 0);
    assert_eq!(merge_bytes(vec![0xab, 0xcd, 0xef]), 0xabcdef);
}

#[test]
fn merge_bytes_should_keep_the_last_sixteen_of_a_long_vector() {
    let actual = merge_bytes(vec![
        0xff, 0x12, 0x34, 0x56, 0x78, 0x90, 0xab, 0xcd, 0xef, 0x11, 0x22, 0x33, 0x44, 0x55,
        0x66, 0x77, 0x88,
    ]);
    assert_eq!(actual, 0x12_34_56_78_90_ab_cd_ef_11_22_33_44_55_66_77_88);
}

#[test]
fn mix_columns_should_work_as_expected() {
    let state = 0xdb135345_f20a225c_01010101_c6c6c6c6;
    let expected: u128 = 0x8e4da1bc_9fdc589d_01010101_c6c6c6c6;
    let actual = mix_columns(state);
    assert_eq!(actual, expected);
}

#[test]
fn inverse_mix_columns_should_work_as_expected() {
    let expected = 0xdb135345_f20a225c_01010101_c6c6c6c6;
    let state = 0x8e4da1bc_9fdc589d_01010101_c6c6c6c6;
    let actual = inverse_mix_columns(state);
    assert_eq!(actual, expected);
}

#[test]
fn add_round_key_should_return_0_for_same_keys_as_state() {
    let state = 0xdb135345_f20a225c_01010101_c6c6c6c6;
    let round_keys = [0xdb135345, 0xf20a225c, 0x01010101, 0xc6c6c6c6];
    let actual = add_round_key(state, &round_keys);
    assert_eq!(actual, 0);
}

#[test]
fn add_round_key_should_put_the_first_word_in_the_most_significant_place() {
    let actual = add_round_key(0, &[0x00000001, 0x00000002, 0x00000003, 0x00000004]);
    assert_eq!(actual, 0x00000001_00000002_00000003_00000004);
}

#[test]
fn add_round_key_twice_should_return_the_state() {
    let state = 0xdb135345_f20a225c_01010101_c6c6c6c6;
    let round_keys = [0x54686174, 0x73206d79, 0x204b756e, 0x67204675];
    assert_eq!(add_round_key(add_round_key(state, &round_keys), &round_keys), state);
}

#[test]
fn sub_bytes_should_substitute_each_byte() {
    let state = 0x00_01_02_03_10_20_30_40_53_7f_80_81_fc_fd_fe_ff;
    let expected = 0x63_7c_77_7b_ca_b7_04_09_ed_d2_cd_0c_b0_54_bb_16;
    assert_eq!(sub_bytes(state), expected);
}

#[test]
fn inverse_sub_bytes_should_undo_sub_bytes() {
    let state = 0x00_01_02_03_10_20_30_40_53_7f_80_81_fc_fd_fe_ff;
    let substituted = 0x63_7c_77_7b_ca_b7_04_09_ed_d2_cd_0c_b0_54_bb_16;
    assert_eq!(inverse_sub_bytes(substituted), state);
    assert_eq!(inverse_sub_bytes(sub_bytes(state)), state);
    assert_eq!(sub_bytes(inverse_sub_bytes(state)), state);
}
