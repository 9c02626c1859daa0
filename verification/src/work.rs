//! Bit-precision equality over two byte buffers' trailing bits.
//!
//! This comparator decides proof-of-work acceptance: a candidate digest is
//! accepted when its trailing bits agree with the previous key's bits.

use vstd::prelude::*;

verus! {

/// The byte `k` positions from the end of `s`; buffers too short to reach
/// that position are treated as zero-extended on their most-significant side.
pub open spec fn byte_from_end(s: Seq<u8>, k: int) -> u8 {
    if 0 <= k < s.len() {
        s[s.len() - 1 - k]
    } else {
        0
    }
}

/// The `i`-th bit of `s`, counting from the least-significant bit of the
/// last byte. Bits beyond the buffer are zero.
pub open spec fn bit_at(s: Seq<u8>, i: int) -> bool {
    (byte_from_end(s, i / 8) >> ((i % 8) as u8)) & 1 == 1
}

/// The trailing `n` bits of `left` and `right` agree.
pub open spec fn bits_match(n: int, left: Seq<u8>, right: Seq<u8>) -> bool {
    forall|i: int| 0 <= i < n ==> bit_at(left, i) == bit_at(right, i)
}

/// The trailing `n` bits of any buffer agree with themselves.
pub proof fn lemma_bits_match_reflexive(n: int, a: Seq<u8>)
    ensures
        bits_match(n, a, a),
{
}

/// A zero-bit comparison holds between any two buffers.
pub proof fn lemma_bits_match_zero(a: Seq<u8>, b: Seq<u8>)
    ensures
        bits_match(0, a, b),
{
}

fn byte_from_end_exec(s: &[u8], k: usize) -> (r: u8)
    ensures
        r == byte_from_end(s@, k as int),
{
    if k < s.len() {
        s[s.len() - 1 - k]
    } else {
        0
    }
}

/// Two bytes are equal exactly when all eight of their bits are equal.
proof fn lemma_byte_eq_iff_bits(x: u8, y: u8)
    ensures
        (x == y) <==> (forall|j: u8| j < 8 ==> (x >> j) & 1 == (y >> j) & 1),
{
    if forall|j: u8| j < 8 ==> (x >> j) & 1 == (y >> j) & 1 {
        assert((x >> 0) & 1 == (y >> 0) & 1 && (x >> 1) & 1 == (y >> 1) & 1 && (x >> 2) & 1 == (
        y >> 2) & 1 && (x >> 3) & 1 == (y >> 3) & 1 && (x >> 4) & 1 == (y >> 4) & 1 && (x >> 5) & 1
            == (y >> 5) & 1 && (x >> 6) & 1 == (y >> 6) & 1 && (x >> 7) & 1 == (y >> 7) & 1);
        assert(((x >> 0) & 1 == (y >> 0) & 1 && (x >> 1) & 1 == (y >> 1) & 1 && (x >> 2) & 1 == (
        y >> 2) & 1 && (x >> 3) & 1 == (y >> 3) & 1 && (x >> 4) & 1 == (y >> 4) & 1 && (x >> 5) & 1
            == (y >> 5) & 1 && (x >> 6) & 1 == (y >> 6) & 1 && (x >> 7) & 1 == (y >> 7) & 1) ==> x
            == y) by (bit_vector);
    }
}

/// The low `r` bits of two bytes agree exactly when masking with `2^r - 1`
/// yields equal values, for `r < 8`.
proof fn lemma_mask_eq_iff_low_bits(x: u8, y: u8, r: u8)
    requires
        r < 8,
    ensures
        (x & (((1u8 << r) - 1) as u8) == y & (((1u8 << r) - 1) as u8)) <==> (forall|j: u8| j < r ==> (x >> j) & 1
            == (y >> j) & 1),
{
    if x & (((1u8 << r) - 1) as u8) == y & (((1u8 << r) - 1) as u8) {
        assert forall|j: u8| j < r implies (x >> j) & 1 == (y >> j) & 1 by {
            assert((x & (((1u8 << r) - 1) as u8) == y & (((1u8 << r) - 1) as u8) && j < r && r < 8) ==> (x >> j) & 1
                == (y >> j) & 1) by (bit_vector);
        }
    } else {
        assert(!((0 < r ==> (x >> 0) & 1 == (y >> 0) & 1) && (1 < r ==> (x >> 1) & 1 == (y >> 1)
            & 1) && (2 < r ==> (x >> 2) & 1 == (y >> 2) & 1) && (3 < r ==> (x >> 3) & 1 == (y >> 3)
            & 1) && (4 < r ==> (x >> 4) & 1 == (y >> 4) & 1) && (5 < r ==> (x >> 5) & 1 == (y >> 5)
            & 1) && (6 < r ==> (x >> 6) & 1 == (y >> 6) & 1) && (7 < r ==> (x >> 7) & 1 == (y >> 7)
            & 1))) by (bit_vector)
            requires
                r < 8 && x & (((1u8 << r) - 1) as u8) != y & (((1u8 << r) - 1) as u8),
        ;
    }
}

/// A single extracted bit is either zero or one.
proof fn lemma_bit_is_zero_or_one(x: u8, j: u8)
    ensures
        (x >> j) & 1 == 1 || (x >> j) & 1 == 0,
{
    assert((x >> j) & 1 == 1 || (x >> j) & 1 == 0) by (bit_vector);
}

/// Bit `8k + j` of a buffer is bit `j` of the byte `k` positions from its end.
proof fn lemma_bit_at_decompose(s: Seq<u8>, k: int, j: int)
    requires
        0 <= k,
        0 <= j < 8,
    ensures
        bit_at(s, 8 * k + j) == ((byte_from_end(s, k) >> (j as u8)) & 1 == 1),
{
    assert((8 * k + j) / 8 == k && (8 * k + j) % 8 == j) by (nonlinear_arith)
        requires
            0 <= k && 0 <= j < 8,
    ;
}

/// Tests whether two byte slices match in their trailing `match_count` bits.
///
/// Buffers that do not hold `match_count` bits are treated as zero-padded on
/// their most-significant side, so buffers of differing lengths, and empty
/// buffers, compare meaningfully.
pub fn bit_match(match_count: usize, left: &[u8], right: &[u8]) -> (r: bool)
    ensures
        r == bits_match(match_count as int, left@, right@),
{
    let full: usize = match_count / 8;
    let rem: usize = match_count % 8;
    let mut k: usize = 0;
    while k < full
        invariant
            k <= full,
            full == match_count as int / 8,
            rem == match_count as int % 8,
            forall|i: int| 0 <= i < 8 * k ==> bit_at(left@, i) == bit_at(right@, i),
        decreases full - k,
    {
        let xl = byte_from_end_exec(left, k);
        let xr = byte_from_end_exec(right, k);
        if xl != xr {
            proof {
                lemma_byte_eq_iff_bits(xl, xr);
                assert(exists|j: u8| j < 8 && (xl >> j) & 1 != (xr >> j) & 1);
                let j = choose|j: u8| j < 8 && (xl >> j) & 1 != (xr >> j) & 1;
                lemma_bit_is_zero_or_one(xl, j);
                lemma_bit_is_zero_or_one(xr, j);
                lemma_bit_at_decompose(left@, k as int, j as int);
                lemma_bit_at_decompose(right@, k as int, j as int);
                assert(bit_at(left@, 8 * (k as int) + j) != bit_at(right@, 8 * (k as int) + j));
                assert(8 * (k as int) + j < match_count as int) by (nonlinear_arith)
                    requires
                        k < full && full == match_count as int / 8 && j < 8,
                ;
            }
            return false;
        }
        proof {
            lemma_byte_eq_iff_bits(xl, xr);
            assert forall|i: int| 0 <= i < 8 * (k + 1) implies bit_at(left@, i) == bit_at(
                right@,
                i,
            ) by {
                if 8 * k <= i {
                    lemma_bit_at_decompose(left@, k as int, i - 8 * (k as int));
                    lemma_bit_at_decompose(right@, k as int, i - 8 * (k as int));
                }
            }
        }
        k += 1;
    }
    if rem > 0 {
        let xl = byte_from_end_exec(left, full);
        let xr = byte_from_end_exec(right, full);
        proof {
            assert(1u8 << (rem as u8) >= 1) by (bit_vector)
                requires
                    (rem as u8) < 8,
            ;
        }
        let mask: u8 = (1u8 << (rem as u8)) - 1;
        proof {
            lemma_mask_eq_iff_low_bits(xl, xr, rem as u8);
        }
        if xl & mask != xr & mask {
            proof {
                assert(exists|j: u8| j < rem as u8 && (xl >> j) & 1 != (xr >> j) & 1);
                let j = choose|j: u8| j < rem as u8 && (xl >> j) & 1 != (xr >> j) & 1;
                lemma_bit_is_zero_or_one(xl, j);
                lemma_bit_is_zero_or_one(xr, j);
                lemma_bit_at_decompose(left@, full as int, j as int);
                lemma_bit_at_decompose(right@, full as int, j as int);
                assert(bit_at(left@, 8 * (full as int) + j) != bit_at(
                    right@,
                    8 * (full as int) + j,
                ));
                assert(8 * (full as int) + j < match_count as int) by (nonlinear_arith)
                    requires
                        full == match_count as int / 8 && rem == match_count as int % 8 && j
                            < rem,
                ;
            }
            return false;
        }
        proof {
            assert forall|i: int| 0 <= i < match_count as int implies bit_at(left@, i) == bit_at(
                right@,
                i,
            ) by {
                if 8 * (full as int) <= i {
                    assert(i - 8 * (full as int) < rem as int) by (nonlinear_arith)
                        requires
                            i < match_count as int && full == match_count as int / 8 && rem
                                == match_count as int % 8,
                    ;
                    lemma_bit_at_decompose(left@, full as int, i - 8 * (full as int));
                    lemma_bit_at_decompose(right@, full as int, i - 8 * (full as int));
                }
            }
        }
        return true;
    }
    proof {
        assert forall|i: int| 0 <= i < match_count as int implies bit_at(left@, i) == bit_at(
            right@,
            i,
        ) by {
            assert(i < 8 * (full as int)) by (nonlinear_arith)
                requires
                    i < match_count as int && full == match_count as int / 8 && rem
                        == match_count as int % 8 && rem == 0,
            ;
        }
    }
    true
}

} // verus!
