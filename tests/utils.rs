use authdecode::field::Bn256F;
use authdecode::matrix::{slice_to_columns, transpose_matrix};
use authdecode::utils::{
    bits_to_f, boolvec_to_u8vec, bytes_be_to_f, compose_bits, compose_bits_checked, f_to_bits,
    NonBooleanBit,
};
use num::BigUint;

#[test]
fn test_bytes_be_to_f() {
    assert_eq!(bytes_be_to_f(vec![1u8, 2u8]), Bn256F::from_u64(258u64));
}

#[test]
fn test_f_to_bits() {
    let mut bits = vec![false; 246];
    bits.extend([
        // 01 0000 0100 == 260
        false, true, false, false, false, false, false, true, false, false,
    ]);
    let expected: [bool; 256] = bits.try_into().unwrap();
    assert_eq!(f_to_bits(&Bn256F::from_u64(260u64)), expected);
}

#[test]
fn test_slice_to_columns() {
    let slice = [1, 2, 3, 4, 5, 6, 7, 8, 9, 10];

    // Padded and chunked, in row-major order:
    // 0 0 1 2
    // 3 0 0 4
    // 5 6 0 0
    // 7 8 9 0
    // 0 0 0 10
    // 0 0 0 0
    // then transposed to column-major order:
    let expected1 = vec![
        vec![0, 3, 5, 7, 0, 0],
        vec![0, 0, 6, 8, 0, 0],
        vec![1, 0, 0, 9, 0, 0],
        vec![2, 4, 0, 0, 10, 0],
    ];
    let expected2 = vec![
        vec![0, 0, 0, 0, 0, 0, 0, 0, 0, 0],
        vec![0, 1, 0, 4, 0, 7, 0, 0, 0, 0],
        vec![0, 2, 0, 5, 0, 8, 0, 0, 0, 0],
        vec![0, 3, 0, 6, 0, 9, 0, 10, 0, 0],
    ];
    assert_eq!(slice_to_columns(&slice, 3, 5, 6, 4), expected1);
    assert_eq!(slice_to_columns(&slice, 3, 8, 10, 4), expected2);
}

#[test]
fn test_compose_bits() {
    let two = BigUint::from(2u128);
    let mut bits: [Bn256F; 64] = [Bn256F::zero(); 64];

    for (i, expected) in (0..4).zip([1, 3, 7, 15]) {
        // On each iteration, set one more LSB.
        bits[63 - i] = Bn256F::one();
        assert_eq!(
            compose_bits(&bits, 3 - i),
            bytes_be_to_f((BigUint::from(expected as u32) * two.pow(64 * i as u32)).to_bytes_be())
        );
    }
}

#[test]
fn test_transpose_matrix() {
    let matrix = vec![
        vec![1, 2, 3],
        vec![4, 5, 6],
        vec![7, 8, 9],
        vec![10, 11, 12],
    ];

    let expected = vec![vec![1, 4, 7, 10], vec![2, 5, 8, 11], vec![3, 6, 9, 12]];
    assert_eq!(transpose_matrix(matrix), expected);
}

#[test]
fn test_boolvec_to_u8vec() {
    let bits = [true, false];
    assert_eq!(boolvec_to_u8vec(&bits), [2]);

    let bits = [true, false, false, false, false, false, false, true, true];
    assert_eq!(boolvec_to_u8vec(&bits), [1, 3]);
}

#[test]
fn test_bits_to_f() {
    // 01 0000 0011 == 259
    let bits = [
        false, true, false, false, false, false, false, false, true, true,
    ];
    assert_eq!(bits_to_f(&bits), Bn256F::from_u64(259u64));
}

fn modulus_be() -> Vec<u8> {
    let mut m = vec![
        0x30, 0x64, 0x4e, 0x72, 0xe1, 0x31, 0xa0, 0x29, 0xb8, 0x50, 0x45, 0xb6, 0x81, 0x81, 0x58,
        0x5d, 0x28, 0x33, 0xe8, 0x48, 0x79, 0xb9, 0x70, 0x91, 0x43, 0xe1, 0xf5, 0x93, 0xf0, 0x00,
        0x00, 0x01,
    ];
    m.shrink_to_fit();
    m
}

#[test]
fn bytes_bits_bytes_round_trip() {
    let b: Vec<u8> = (1u8..=32).collect();
    let back = boolvec_to_u8vec(&f_to_bits(&bytes_be_to_f(b.clone())));
    assert_eq!(back, b);

    let short = vec![0xab, 0xcd];
    let back = boolvec_to_u8vec(&f_to_bits(&bytes_be_to_f(short)));
    let mut expected = vec![0u8; 30];
    expected.extend([0xab, 0xcd]);
    assert_eq!(back, expected);
}

#[test]
fn bytes_be_to_f_reduces_by_the_modulus() {
    assert_eq!(bytes_be_to_f(modulus_be()), Bn256F::zero());
    let mut m_plus_5 = modulus_be();
    m_plus_5[31] += 5;
    assert_eq!(bytes_be_to_f(m_plus_5), Bn256F::from_u64(5));
    let mut wide = vec![0u8; 32];
    wide.extend(modulus_be());
    assert_eq!(bytes_be_to_f(wide), Bn256F::zero());
}

#[test]
fn bytes_be_to_f_of_nothing_is_zero() {
    assert_eq!(bytes_be_to_f(vec![]), Bn256F::zero());
    assert!(bytes_be_to_f(vec![0u8; 64]).is_zero());
}

#[test]
fn limbs_recompose_to_the_element() {
    let x = bytes_be_to_f((1u8..=31).collect());
    let bits = f_to_bits(&x);
    let mut sum = Bn256F::zero();
    for index in 0..4 {
        let mut limb = [Bn256F::zero(); 64];
        for i in 0..64 {
            if bits[64 * index + i] {
                limb[i] = Bn256F::one();
            }
        }
        sum = sum.add(&compose_bits(&limb, index));
    }
    assert_eq!(sum, x);
}

#[test]
fn compose_bits_of_the_top_limb_wraps_around_the_modulus() {
    let mut limb = [Bn256F::one(); 64];
    limb[0] = Bn256F::zero();
    let composed = compose_bits(&limb, 0);
    let mut expected = vec![0x7f, 0xff, 0xff, 0xff, 0xff, 0xff, 0xff, 0xff];
    expected.extend([0u8; 24]);
    assert_eq!(composed, bytes_be_to_f(expected));
    assert_ne!(composed, Bn256F::zero());
}

#[test]
fn field_arithmetic() {
    let a = Bn256F::from_u64(6);
    let b = Bn256F::from_u64(7);
    assert_eq!(a.mul(&b), Bn256F::from_u64(42));
    assert_eq!(a.add(&b), Bn256F::from_u64(13));
    assert_eq!(Bn256F::from_u64(2).pow(10), Bn256F::from_u64(1024));
    // p - 1 plus 1 wraps to zero.
    let mut m_minus_1 = modulus_be();
    m_minus_1[31] = 0;
    assert_eq!(bytes_be_to_f(m_minus_1).add(&Bn256F::one()), Bn256F::zero());
}

#[test]
fn f_to_bits_of_zero_and_one() {
    assert_eq!(f_to_bits(&Bn256F::zero()), [false; 256]);
    let mut one = [false; 256];
    one[255] = true;
    assert_eq!(f_to_bits(&Bn256F::one()), one);
}

#[test]
fn boolvec_to_u8vec_of_nothing_and_whole_bytes() {
    assert_eq!(boolvec_to_u8vec(&[]), Vec::<u8>::new());
    let bits = [true; 16];
    assert_eq!(boolvec_to_u8vec(&bits), [0xff, 0xff]);
}

#[test]
fn transpose_twice_gives_back_the_matrix() {
    let matrix = vec![vec![1u8, 2], vec![3, 4], vec![5, 6]];
    assert_eq!(transpose_matrix(transpose_matrix(matrix.clone())), matrix);
    let single = vec![vec![9u32]];
    assert_eq!(transpose_matrix(single.clone()), single);
}

#[test]
fn slice_to_columns_of_bools_and_empty_input() {
    let bits = [true, true, true];
    let cols = slice_to_columns(&bits, 2, 3, 2, 3);
    // Rows: [f t t] [f f t]
    assert_eq!(cols, vec![vec![false, false], vec![true, false], vec![true, true]]);
    let empty: [u8; 0] = [];
    assert_eq!(slice_to_columns(&empty, 1, 1, 2, 2), vec![vec![0, 0], vec![0, 0]]);
}

#[test]
fn compose_bits_checked_rejects_or_substitutes_a_non_boolean_element() {
    let mut bits = [Bn256F::zero(); 64];
    bits[63] = Bn256F::one();
    assert_eq!(
        compose_bits_checked(&bits, 3, NonBooleanBit::Reject),
        Some(Bn256F::from_u64(1))
    );
    bits[62] = Bn256F::from_u64(5);
    assert_eq!(compose_bits_checked(&bits, 3, NonBooleanBit::Reject), None);
    assert_eq!(
        compose_bits_checked(&bits, 3, NonBooleanBit::SubstituteOne),
        Some(Bn256F::from_u64(3))
    );
    assert_eq!(
        compose_bits_checked(&bits, 2, NonBooleanBit::SubstituteOne),
        Some(Bn256F::from_u64(3).mul(&Bn256F::from_u64(2).pow(64)))
    );
}
