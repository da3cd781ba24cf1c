use canonicity_gadgets::field::FieldElement;
use canonicity_gadgets::utilities::decompose_word;
use ff::{Field, PrimeField};
use pasta_curves::Fp;

fn recompose(digits: &[u8], window_num_bits: usize) -> u128 {
    let mut sum: u128 = 0;
    for (i, digit) in digits.iter().enumerate() {
        sum += (*digit as u128) << (i * window_num_bits);
    }
    sum
}

#[test]
fn decomposes_the_example_word() {
    let word = FieldElement::from_u64(0b101101);
    let digits = decompose_word(&word, 6, 3);
    assert_eq!(digits, vec![0b101u8, 0b101u8]);
    assert_eq!(recompose(&digits, 3), 45);
}

#[test]
fn round_trip_for_values_below_the_bit_length() {
    let cases: [(u64, usize, usize); 8] = [
        (0, 1, 1),
        (1, 1, 1),
        (0b1011, 4, 1),
        (0xdead_beef, 32, 3),
        (0xdead_beef, 32, 8),
        (u64::MAX, 64, 3),
        (u64::MAX, 64, 7),
        (12345, 20, 5),
    ];
    for (value, bits, width) in cases {
        let digits = decompose_word(&FieldElement::from_u64(value), bits, width);
        assert_eq!(digits.len(), (bits + width - 1) / width);
        assert_eq!(recompose(&digits, width), value as u128);
        for digit in &digits {
            assert!((*digit as u64) < (1u64 << width));
        }
    }
}

#[test]
fn pads_the_last_window_with_zero_bits() {
    // 7 bits in windows of 3: the last window holds a single bit of the word.
    let digits = decompose_word(&FieldElement::from_u64(0b1_110_101), 7, 3);
    assert_eq!(digits, vec![0b101u8, 0b110u8, 0b001u8]);
}

#[test]
fn truncates_the_word_to_the_bit_length() {
    // Only the low 4 bits of 0xff are decomposed.
    let digits = decompose_word(&FieldElement::from_u64(0xff), 4, 2);
    assert_eq!(digits, vec![0b11u8, 0b11u8]);
    // Bit 4 of the word does not reach the padding of the last window.
    let digits = decompose_word(&FieldElement::from_u64(0b1_1111), 4, 3);
    assert_eq!(digits, vec![0b111u8, 0b001u8]);
}

#[test]
fn zero_bits_give_no_windows() {
    let digits = decompose_word(&FieldElement::from_u64(77), 0, 3);
    assert_eq!(digits, Vec::<u8>::new());
}

#[test]
fn extends_the_word_with_zero_bits_beyond_the_field_size() {
    let digits = decompose_word(&FieldElement::from_u64(0x1ff), 264, 8);
    assert_eq!(digits.len(), 33);
    assert_eq!(digits[0], 0xff);
    assert_eq!(digits[1], 0x01);
    for digit in &digits[2..] {
        assert_eq!(*digit, 0);
    }
}

#[test]
fn the_widest_window_holds_a_whole_byte() {
    let digits = decompose_word(&FieldElement::from_u64(0xff01), 16, 8);
    assert_eq!(digits, vec![0x01u8, 0xffu8]);
    let digits = decompose_word(&FieldElement::from_u64(0x1ff), 9, 8);
    assert_eq!(digits, vec![0xffu8, 0x01u8]);
}

#[test]
fn decomposes_the_largest_field_element() {
    let minus_one = -Fp::one();
    let word = FieldElement::from_repr(minus_one.to_repr()).unwrap();
    let digits = decompose_word(&word, 255, 8);
    assert_eq!(digits.len(), 32);
    let repr = minus_one.to_repr();
    for i in 0..32 {
        assert_eq!(digits[i], repr[i]);
    }
}

#[test]
fn from_repr_accepts_canonical_bytes_only() {
    let modulus_bytes: [u8; 32] = [
        0x01, 0x00, 0x00, 0x00, 0xed, 0x30, 0x2d, 0x99, 0x1b, 0xf9, 0x4c, 0x09, 0xfc, 0x98, 0x46,
        0x22, 0x00, 0x00, 0x00, 0x00, 0x00, 0x00, 0x00, 0x00, 0x00, 0x00, 0x00, 0x00, 0x00, 0x00,
        0x00, 0x40,
    ];
    assert!(FieldElement::from_repr(modulus_bytes).is_none());
    assert!(FieldElement::from_repr([0xff; 32]).is_none());
    let mut below = modulus_bytes;
    below[0] = 0;
    let element = FieldElement::from_repr(below).unwrap();
    assert_eq!(element.to_repr(), below);
    assert_eq!(Fp::from_repr(below).unwrap(), -Fp::one());
}

#[test]
fn from_u64_agrees_with_the_field() {
    let element = FieldElement::from_u64(0x0123_4567_89ab_cdef);
    assert_eq!(element.to_repr(), Fp::from(0x0123_4567_89ab_cdefu64).to_repr());
    assert_eq!(FieldElement::from_u64(0).to_repr(), [0u8; 32]);
}
