use cryptopals::aes128::mds::{
    dot_product, into_1, into_11, into_13, into_14, into_2, into_3, into_4, into_8, into_9,
    modulus, multiply_circulant, multiply_circulant_inverse,
};

#[test]
fn modulus_should_return_0_if_leading_bit_is_unset() {
    let operand = 0x7f;
    assert_eq!(modulus(operand), 0);
}

#[test]
fn modulus_should_return_1b_if_leading_bit_is_set() {
    let operand = 0x80;
    assert_eq!(modulus(operand), 0x1b);
}

#[test]
fn into_1_should_return_the_operand() {
    assert_eq!(into_1(0xff), 0xff);
    assert_eq!(into_1(0), 0);
}

#[test]
fn into_2_should_work_as_expected() {
    let operand = 0xff;
    let expected = 0xe5;
    let actual = into_2(operand);
    assert_eq!(actual, expected);
}

#[test]
fn into_2_should_shift_without_reduction_below_0x80() {
    assert_eq!(into_2(0x57), 0xae);
    assert_eq!(into_2(0xae), 0x47);
    assert_eq!(into_2(0x47), 0x8e);
    assert_eq!(into_2(0x8e), 0x07);
}

#[test]
fn into_3_should_work_as_expected() {
    let operand = 0xff;
    let expected = 0x1a;
    let actual = into_3(operand);
    assert_eq!(actual, expected);
}

#[test]
fn into_4_should_work_as_expected() {
    let operand = 0xff;
    let expected = 0xd1;
    let actual = into_4(operand);
    assert_eq!(actual, expected);
}

#[test]
fn into_8_should_work_as_expected() {
    let operand = 0xff;
    let expected = 0xb9;
    let actual = into_8(operand);
    assert_eq!(actual, expected);
}

#[test]
fn into_9_should_work_as_expected() {
    let operand = 0xff;
    let expected = 0x46;
    let actual = into_9(operand);
    assert_eq!(actual, expected);
}

#[test]
fn into_11_should_work_as_expected() {
    let operand = 0xff;
    let expected = 0xa3;
    let actual = into_11(operand);
    assert_eq!(actual, expected);
}

#[test]
fn into_13_should_work_as_expected() {
    let operand = 0xff;
    let expected = 0x97;
    let actual = into_13(operand);
    assert_eq!(actual, expected);
}

#[test]
fn into_14_should_work_as_expected() {
    let operand = 0xff;
    let expected = 0x8d;
    let actual = into_14(operand);
    assert_eq!(actual, expected);
}

#[test]
fn multipliers_should_map_zero_to_zero() {
    assert_eq!(into_2(0), 0);
    assert_eq!(into_3(0), 0);
    assert_eq!(into_4(0), 0);
    assert_eq!(into_8(0), 0);
    assert_eq!(into_9(0), 0);
    assert_eq!(into_11(0), 0);
    assert_eq!(into_13(0), 0);
    assert_eq!(into_14(0), 0);
}

#[test]
fn dot_product_should_work_as_expected() {
    let into_11 = |operand: u8| 11 * operand;
    let into_13 = |operand: u8| 13 * operand;
    let into_17 = |operand: u8| 17 * operand;
    let into_19 = |operand: u8| 19 * operand;
    let actual = dot_product(&[2, 3, 5, 7], (into_11, into_13, into_17, into_19));
    let expected = 0xe1;
    assert_eq!(actual, expected);
}

#[test]
fn multiply_circulant_should_correctly_compute_1() {
    let vector = vec![219, 19, 83, 69];
    let actual = multiply_circulant(&vector);
    let expected = vec![142, 77, 161, 188];
    assert_eq!(actual, expected);
}

#[test]
fn multiply_circulant_should_correctly_compute_2() {
    let vector = vec![242, 10, 34, 92];
    let actual = multiply_circulant(&vector);
    let expected = vec![159, 220, 88, 157];
    assert_eq!(actual, expected);
}

#[test]
fn multiply_circulant_should_correctly_compute_3() {
    let vector = vec![1, 1, 1, 1];
    let actual = multiply_circulant(&vector);
    let expected = vec![1, 1, 1, 1];
    assert_eq!(actual, expected);
}

#[test]
fn multiply_circulant_should_correctly_compute_4() {
    let vector = vec![198, 198, 198, 198];
    let actual = multiply_circulant(&vector);
    let expected = vec![198, 198, 198, 198];
    assert_eq!(actual, expected);
}

#[test]
fn multiply_circulant_should_correctly_compute_5() {
    let vector = vec![212, 212, 212, 213];
    let actual = multiply_circulant(&vector);
    let expected = vec![213, 213, 215, 214];
    assert_eq!(actual, expected);
}

#[test]
fn multiply_circulant_should_correctly_compute_6() {
    let vector = vec![45, 38, 49, 76];
    let actual = multiply_circulant(&vector);
    let expected = vec![77, 126, 189, 248];
    assert_eq!(actual, expected);
}

#[test]
fn multiply_circulant_inverse_should_correctly_compute_1() {
    let vector = vec![142, 77, 161, 188];
    let actual = multiply_circulant_inverse(&vector);
    let expected = vec![219, 19, 83, 69];
    assert_eq!(actual, expected);
}

#[test]
fn multiply_circulant_inverse_should_correctly_compute_2() {
    let vector = vec![159, 220, 88, 157];
    let actual = multiply_circulant_inverse(&vector);
    let expected = vec![242, 10, 34, 92];
    assert_eq!(actual, expected);
}

#[test]
fn multiply_circulant_inverse_should_correctly_compute_3() {
    let vector = vec![1, 1, 1, 1];
    let actual = multiply_circulant_inverse(&vector);
    let expected = vec![1, 1, 1, 1];
    assert_eq!(actual, expected);
}

#[test]
fn multiply_circulant_inverse_should_correctly_compute_4() {
    let vector = vec![198, 198, 198, 198];
    let actual = multiply_circulant_inverse(&vector);
    let expected = vec![198, 198, 198, 198];
    assert_eq!(actual, expected);
}

#[test]
fn multiply_circulant_inverse_should_correctly_compute_5() {
    let vector = vec![213, 213, 215, 214];
    let actual = multiply_circulant_inverse(&vector);
    let expected = vec![212, 212, 212, 213];
    assert_eq!(actual, expected);
}

#[test]
fn multiply_circulant_inverse_should_correctly_compute_6() {
    let vector = vec![77, 126, 189, 248];
    let actual = multiply_circulant_inverse(&vector);
    let expected = vec![45, 38, 49, 76];
    assert_eq!(actual, expected);
}

#[test]
fn multiply_circulant_should_read_only_the_first_four_bytes() {
    let vector = vec![219, 19, 83, 69, 7, 7];
    assert_eq!(multiply_circulant(&vector), vec![142, 77, 161, 188]);
}

#[test]
fn multiply_circulant_inverse_should_undo_multiply_circulant_for_every_first_byte() {
    for first in 0..=255u8 {
        let column = vec![first, first ^ 0x5a, 0x3c, first.wrapping_mul(7)];
        let mixed = multiply_circulant(&column);
        assert_eq!(multiply_circulant_inverse(&mixed), column);
    }
}
