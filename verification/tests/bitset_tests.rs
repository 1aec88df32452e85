use pieshop::bitset::{can_decode, can_hold_position, pad_to_match, set_bit, test_bit, Bitset};

fn bools(bits: &Bitset) -> Vec<bool> {
    (0..bits.len()).map(|i| bits.get(i).unwrap()).collect()
}

fn pattern(len: usize) -> Bitset {
    let mut bits = Bitset::from_elem(len, false);
    for i in 0..len {
        bits.set(i, i % 3 == 0 || i % 7 == 2);
    }
    bits
}

fn round_trip_is_exact(len: usize) {
    let bits = pattern(len);
    let bytes = bits.to_bytes();
    assert_eq!(bytes.len(), (len + 7) / 8);
    let back = Bitset::from_bytes(&bytes);
    assert_eq!(back.len(), 8 * bytes.len());
    for i in 0..len {
        assert_eq!(back.get(i), bits.get(i), "bit {} of {}", i, len);
    }
    for i in len..back.len() {
        assert_eq!(back.get(i), Some(false), "padding bit {} of {}", i, len);
    }
    assert_eq!(back.to_bytes(), bytes);
}

#[test]
fn round_trip_of_length_0() {
    round_trip_is_exact(0);
    assert_eq!(Bitset::from_elem(0, false).to_bytes(), Vec::<u8>::new());
    assert_eq!(Bitset::from_bytes(&[]).len(), 0);
}

#[test]
fn round_trip_of_length_1() {
    round_trip_is_exact(1);
    assert_eq!(Bitset::from_elem(1, true).to_bytes(), vec![0b1000_0000]);
}

#[test]
fn round_trip_of_length_7() {
    round_trip_is_exact(7);
    assert_eq!(Bitset::from_elem(7, true).to_bytes(), vec![0b1111_1110]);
}

#[test]
fn round_trip_of_length_8() {
    round_trip_is_exact(8);
    assert_eq!(Bitset::from_elem(8, true).to_bytes(), vec![0b1111_1111]);
}

#[test]
fn round_trip_of_length_9() {
    round_trip_is_exact(9);
    assert_eq!(Bitset::from_elem(9, true).to_bytes(), vec![0b1111_1111, 0b1000_0000]);
}

#[test]
fn round_trip_of_length_33() {
    round_trip_is_exact(33);
    assert_eq!(
        Bitset::from_elem(33, true).to_bytes(),
        vec![0xff, 0xff, 0xff, 0xff, 0b1000_0000]
    );
}

#[test]
fn from_bytes_reads_the_most_significant_bit_first() {
    let bits = Bitset::from_bytes(&[0b1010_0000, 0b0001_0010]);
    assert_eq!(
        bools(&bits),
        vec![
            true, false, true, false, false, false, false, false, false, false, false, true,
            false, false, true, false
        ]
    );
}

#[test]
fn to_bytes_fills_the_last_byte_with_zero_bits() {
    let mut bits = Bitset::from_elem(3, true);
    bits.set(1, false);
    assert_eq!(bits.to_bytes(), vec![0b1010_0000]);
    let mut bits = Bitset::from_elem(9, false);
    bits.set(2, true);
    bits.set(8, true);
    assert_eq!(bits.to_bytes(), vec![0b0010_0000, 0b1000_0000]);
}

#[test]
fn from_elem_makes_equal_bits() {
    assert_eq!(bools(&Bitset::from_elem(3, true)), vec![true, true, true]);
    assert_eq!(bools(&Bitset::from_elem(2, false)), vec![false, false]);
    assert_eq!(Bitset::from_elem(0, true).len(), 0);
}

#[test]
fn get_is_none_past_the_end() {
    let bits = Bitset::from_bytes(&[0b0110_0000]);
    assert_eq!(bits.get(0), Some(false));
    assert_eq!(bits.get(1), Some(true));
    assert_eq!(bits.get(7), Some(false));
    assert_eq!(bits.get(8), None);
    assert_eq!(bits.get(100), None);
    assert!(bits.is_set(2));
    assert!(!bits.is_set(3));
    assert!(!bits.is_set(100));
}

#[test]
fn set_writes_one_bit() {
    let mut bits = Bitset::from_elem(5, false);
    bits.set(3, true);
    assert_eq!(bools(&bits), vec![false, false, false, true, false]);
    bits.set(3, false);
    assert_eq!(bools(&bits), vec![false; 5]);
}

#[test]
fn grow_appends_bits() {
    let mut bits = Bitset::from_bytes(&[0b0100_1011]);
    bits.grow(2, true);
    assert_eq!(bits.len(), 10);
    assert_eq!(bits.to_bytes(), vec![0b0100_1011, 0b1100_0000]);
}

#[test]
fn negate_flips_every_bit() {
    let mut bits = Bitset::from_bytes(&[0b0110_0000]);
    bits.negate();
    assert_eq!(bits.to_bytes(), vec![0b1001_1111]);
    let mut short = Bitset::from_elem(3, false);
    short.negate();
    assert_eq!(bools(&short), vec![true, true, true]);
    assert_eq!(short.to_bytes(), vec![0b1110_0000]);
}

#[test]
fn intersect_is_bitwise_and() {
    let mut a = Bitset::from_bytes(&[0b0110_0100]);
    let b = Bitset::from_bytes(&[0b0101_1010]);
    a.intersect(&b);
    assert_eq!(a.to_bytes(), vec![0b0100_0000]);
    assert_eq!(b.to_bytes(), vec![0b0101_1010]);
}

#[test]
fn any_set_sees_a_single_bit() {
    let mut bits = Bitset::from_elem(10, false);
    assert!(!bits.any_set());
    bits.set(9, true);
    assert!(bits.any_set());
    assert!(!Bitset::from_elem(0, true).any_set());
}

#[test]
fn clone_keeps_the_bits_and_is_independent() {
    let mut bits = Bitset::from_bytes(&[0b1100_0000]);
    let copy = bits.clone();
    bits.set(0, false);
    assert_eq!(copy.to_bytes(), vec![0b1100_0000]);
    assert_eq!(bits.to_bytes(), vec![0b0100_0000]);
}

#[test]
fn pad_to_match_grows_the_shorter_with_false_bits() {
    let mut short = Bitset::from_bytes(&[0b1011_0001]);
    let mut long = Bitset::from_bytes(&[0b0000_1111, 0b1111_0101]);
    pad_to_match(&mut short, &mut long);
    assert_eq!(short.len(), 16);
    assert_eq!(long.len(), 16);
    for i in 8..16 {
        assert_eq!(short.get(i), Some(false));
    }
    assert_eq!(short.to_bytes(), vec![0b1011_0001, 0]);
    assert_eq!(long.to_bytes(), vec![0b0000_1111, 0b1111_0101]);
}

#[test]
fn pad_to_match_grows_the_second_where_it_is_shorter() {
    let mut long = Bitset::from_elem(5, true);
    let mut short = Bitset::from_elem(2, true);
    pad_to_match(&mut long, &mut short);
    assert_eq!(bools(&long), vec![true; 5]);
    assert_eq!(bools(&short), vec![true, true, false, false, false]);
}

#[test]
fn pad_to_match_leaves_equal_lengths_alone() {
    let mut a = Bitset::from_elem(4, true);
    let mut b = Bitset::from_elem(4, false);
    pad_to_match(&mut a, &mut b);
    assert_eq!(bools(&a), vec![true; 4]);
    assert_eq!(bools(&b), vec![false; 4]);
    let mut none = Bitset::from_elem(0, false);
    let mut some = Bitset::from_elem(1, true);
    pad_to_match(&mut none, &mut some);
    assert_eq!(bools(&none), vec![false]);
    assert_eq!(bools(&some), vec![true]);
}

#[test]
fn test_bit_reads_bytes_and_nothing_past_them() {
    let bytes = [0b0100_0000u8, 0b0000_0001];
    assert!(!test_bit(&bytes, 0));
    assert!(test_bit(&bytes, 1));
    assert!(test_bit(&bytes, 15));
    assert!(!test_bit(&bytes, 14));
    assert!(!test_bit(&bytes, 16));
    assert!(!test_bit(&[], 0));
}

#[test]
fn set_bit_grows_the_bytes_as_far_as_needed() {
    assert_eq!(set_bit(&[], 0), vec![0b1000_0000]);
    assert_eq!(set_bit(&[], 7), vec![0b0000_0001]);
    assert_eq!(set_bit(&[], 8), vec![0, 0b1000_0000]);
    assert_eq!(set_bit(&[0b0000_0001], 19), vec![0b0000_0001, 0, 0b0001_0000]);
}

#[test]
fn set_bit_keeps_every_other_bit() {
    assert_eq!(set_bit(&[0b0100_0010, 0xff], 0), vec![0b1100_0010, 0xff]);
    assert_eq!(set_bit(&[0b0100_0010], 1), vec![0b0100_0010]);
    let bytes = set_bit(&set_bit(&[], 3), 12);
    assert!(test_bit(&bytes, 3));
    assert!(test_bit(&bytes, 12));
    assert!(!test_bit(&bytes, 4));
    assert_eq!(bytes, vec![0b0001_0000, 0b0000_1000]);
}

#[test]
fn only_countable_bits_can_be_decoded_or_set() {
    assert!(can_decode(&[]));
    assert!(can_decode(&[0u8; 64]));
    assert!(can_hold_position(0));
    assert!(can_hold_position(usize::MAX - 8));
    assert!(!can_hold_position(usize::MAX - 7));
    assert!(!can_hold_position(usize::MAX));
}
