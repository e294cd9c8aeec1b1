use nublog::bitarray::{
    bitarray, bitarray_ge, bitarray_le, bitarray_naive, spread_least_first, spread_most_first,
};
use nublog::distinct9::distinct9_naive;

fn least_byte_first() -> bool {
    1u16.to_ne_bytes()[0] == 1
}

#[test]
fn naive_bits_of_some_bytes() {
    assert_eq!(bitarray_naive(0), [0, 0, 0, 0, 0, 0, 0, 0]);
    assert_eq!(bitarray_naive(0xff), [1, 1, 1, 1, 1, 1, 1, 1]);
    assert_eq!(bitarray_naive(0x80), [1, 0, 0, 0, 0, 0, 0, 0]);
    assert_eq!(bitarray_naive(0x01), [0, 0, 0, 0, 0, 0, 0, 1]);
    assert_eq!(bitarray_naive(0b1011_0010), [1, 0, 1, 1, 0, 0, 1, 0]);
}

#[test]
fn bitarray_is_naive_for_every_byte() {
    for x in 0..=255u8 {
        assert_eq!(bitarray(x), bitarray_naive(x));
    }
}

#[test]
fn bitarray_of_a_byte_that_is_no_palindrome() {
    assert_eq!(bitarray(0b1100_0001), [1, 1, 0, 0, 0, 0, 0, 1]);
}

#[test]
fn bitarray_le_and_ge_follow_the_byte_order() {
    for x in 0..=255u8 {
        let naive = bitarray_naive(x);
        let mut turned = naive;
        turned.reverse();
        let le = bitarray_le(x);
        let ge = bitarray_ge(x);
        if least_byte_first() {
            assert_eq!(le, naive);
            assert_eq!(ge, turned);
        } else {
            assert_eq!(le, turned);
            assert_eq!(ge, naive);
        }
    }
}

#[test]
fn bits_spread_over_a_word() {
    assert_eq!(spread_most_first(0), 0);
    assert_eq!(spread_least_first(0), 0);
    assert_eq!(spread_most_first(0xff), 0x0101_0101_0101_0101);
    assert_eq!(spread_least_first(0xff), 0x0101_0101_0101_0101);
    assert_eq!(spread_most_first(0b1100_0000), 0x0101_0000_0000_0000);
    assert_eq!(spread_least_first(0b1100_0000), 0x0000_0000_0000_0101);
    assert_eq!(spread_most_first(0b0000_0001), 0x0000_0000_0000_0001);
    assert_eq!(spread_least_first(0b0000_0001), 0x0100_0000_0000_0000);
    assert_eq!(spread_most_first(0b0010_0110), 0x0000_0100_0001_0100);
    assert_eq!(spread_least_first(0b0010_0110), 0x0001_0100_0001_0000);
}

#[test]
fn spread_bits_byte_by_byte() {
    for x in 0..=255u8 {
        let naive = bitarray_naive(x);
        let mut turned = naive;
        turned.reverse();
        assert_eq!(spread_most_first(x).to_be_bytes(), naive);
        assert_eq!(spread_least_first(x).to_le_bytes(), naive);
        assert_eq!(spread_most_first(x).to_le_bytes(), turned);
    }
}

#[test]
fn nine_different_numbers() {
    assert!(distinct9_naive(&[1, 2, 3, 4, 5, 6, 7, 8, 9]));
    assert!(distinct9_naive(&[i32::MIN, -1, 0, 1, 2, 3, 4, 5, i32::MAX]));
}

#[test]
fn nine_numbers_with_a_pair() {
    for i in 0..9 {
        for j in (i + 1)..9 {
            let mut arr = [1, 2, 3, 4, 5, 6, 7, 8, 9];
            arr[j] = arr[i];
            assert!(!distinct9_naive(&arr));
        }
    }
    assert!(!distinct9_naive(&[0; 9]));
}
