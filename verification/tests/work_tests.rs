use dit::work::bit_match;

const BYTES_0: [u8; 5] = [0x43, 0x33, 0xF8, 0x00, 0xFA];
const BYTES_1: [u8; 5] = [0x43, 0x33, 0xF8, 0x80, 0xFA];
const ONE_BYTE: [u8; 1] = [0b10_0000];

#[test]
fn work_bit_match_same_string() {
    assert!(bit_match(40, &BYTES_0, &BYTES_0))
}

#[test]
fn work_bit_match_same_end() {
    assert!(bit_match(15, &BYTES_0, &BYTES_1))
}

#[test]
fn work_bit_match_different_end() {
    assert!(!bit_match(16, &BYTES_0, &BYTES_1))
}

#[test]
fn work_bit_match_different_end_2() {
    assert!(!bit_match(17, &BYTES_0, &[0x01, 0x00, 0xFA]))
}

#[test]
fn work_bit_match_only_same_at_last_bit() {
    assert!(bit_match(1, &[0xFE], &[0x0]))
}

#[test]
fn work_bit_match_matches_one_byte() {
    assert!(bit_match(8, &ONE_BYTE, &ONE_BYTE))
}

#[test]
fn bit_match_matching_smaller_than_threshold() {
    assert!(bit_match(9, &ONE_BYTE, &ONE_BYTE))
}

#[test]
fn bit_match_matching_with_extra_zeroes() {
    let extra_zero = [0b0, 0b10_0000];
    assert!(bit_match(9, &extra_zero, &ONE_BYTE))
}

#[test]
fn bit_match_matching_no_bytes_are_treated_like_zero() {
    assert!(bit_match(5, &[], &ONE_BYTE))
}

#[test]
fn lib_bit_match_same_string() {
    assert!(bit_match(40, &BYTES_0, &BYTES_0))
}

#[test]
fn lib_bit_match_same_end() {
    assert!(bit_match(15, &BYTES_0, &BYTES_1))
}

#[test]
fn lib_bit_match_different_end() {
    assert!(!bit_match(16, &BYTES_0, &BYTES_1))
}

#[test]
fn lib_bit_match_different_end_2() {
    assert!(!bit_match(17, &BYTES_0, &[0x01, 0x00, 0xFA]))
}

#[test]
fn lib_bit_match_only_same_at_last_bit() {
    assert!(bit_match(1, &[0xFE], &[0x0]))
}

#[test]
fn lib_bit_match_matches_one_byte() {
    let one_byte = [0b1111];
    assert!(bit_match(8, &one_byte, &one_byte))
}

#[test]
fn bit_match_zero_threshold_any_buffers() {
    assert!(bit_match(0, &BYTES_0, &BYTES_1));
    assert!(bit_match(0, &[], &[]));
    assert!(bit_match(0, &[], &BYTES_1));
}

#[test]
fn bit_match_reflexive_many_widths() {
    for n in 0..=40 {
        assert!(bit_match(n, &BYTES_0, &BYTES_0));
    }
}

#[test]
fn bit_match_zero_padded_example() {
    assert!(bit_match(5, &[], &[0b0010_0000]));
    assert!(!bit_match(6, &[], &[0b0010_0000]));
}
