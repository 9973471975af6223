//! The bit-level model of bytes, words and buffers.
use vstd::arithmetic::power2::{
    lemma2_to64_rest, lemma_pow2_strictly_increases, lemma_pow2_unfold, pow2,
};
use vstd::prelude::*;

verus! {

/// Bit `i` of the byte `x`; bit 0 is the least significant.
pub open spec fn u8_bit(x: u8, i: int) -> bool {
    0 <= i < 8 && (x >> (i as u8)) & 1u8 == 1u8
}

/// Bit `i` of the word `x`; bit 0 is the least significant.
pub open spec fn u64_bit(x: u64, i: int) -> bool {
    0 <= i < 64 && (x >> (i as u64)) & 1u64 == 1u64
}

/// Bit `i` of the accumulator `x`; bit 0 is the least significant.
pub open spec fn u128_bit(x: u128, i: int) -> bool {
    0 <= i < 128 && (x >> (i as u128)) & 1u128 == 1u128
}

/// Bit `i` of a byte sequence: bit `i % 8` of byte `i / 8`. Bits past the
/// end of the sequence (and below index 0) are clear.
pub open spec fn seq_bit(b: Seq<u8>, i: int) -> bool {
    0 <= i < 8 * b.len() && u8_bit(b[i / 8], i % 8)
}

/// The number whose binary digits, least significant first, are the `w`
/// bits of `b` from index `s` up.
pub open spec fn field_value(b: Seq<u8>, s: int, w: nat) -> nat
    decreases w,
{
    if w == 0 {
        0
    } else {
        2 * field_value(b, s + 1, (w - 1) as nat) + if seq_bit(b, s) {
            1nat
        } else {
            0nat
        }
    }
}

/// Two bytes with the same bits are equal.
pub proof fn lemma_u8_eq_from_bits(x: u8, y: u8)
    requires
        forall|i: int| 0 <= i < 8 ==> (u8_bit(x, i) <==> u8_bit(y, i)),
    ensures
        x == y,
{
    assert(u8_bit(x, 0) == u8_bit(y, 0));
    assert(u8_bit(x, 1) == u8_bit(y, 1));
    assert(u8_bit(x, 2) == u8_bit(y, 2));
    assert(u8_bit(x, 3) == u8_bit(y, 3));
    assert(u8_bit(x, 4) == u8_bit(y, 4));
    assert(u8_bit(x, 5) == u8_bit(y, 5));
    assert(u8_bit(x, 6) == u8_bit(y, 6));
    assert(u8_bit(x, 7) == u8_bit(y, 7));
    assert(x == y) by (bit_vector)
        requires
            ((x >> 0u8) & 1u8 == 1u8) == ((y >> 0u8) & 1u8 == 1u8),
            ((x >> 1u8) & 1u8 == 1u8) == ((y >> 1u8) & 1u8 == 1u8),
            ((x >> 2u8) & 1u8 == 1u8) == ((y >> 2u8) & 1u8 == 1u8),
            ((x >> 3u8) & 1u8 == 1u8) == ((y >> 3u8) & 1u8 == 1u8),
            ((x >> 4u8) & 1u8 == 1u8) == ((y >> 4u8) & 1u8 == 1u8),
            ((x >> 5u8) & 1u8 == 1u8) == ((y >> 5u8) & 1u8 == 1u8),
            ((x >> 6u8) & 1u8 == 1u8) == ((y >> 6u8) & 1u8 == 1u8),
            ((x >> 7u8) & 1u8 == 1u8) == ((y >> 7u8) & 1u8 == 1u8),
    ;
}

/// Two words that agree on every bit from `m` up agree after a shift right by `m`.
proof fn lemma_u64_shr_eq_from_bits(x: u64, y: u64, m: u64)
    requires
        m <= 64,
        forall|i: int| m <= i < 64 ==> (u64_bit(x, i) <==> u64_bit(y, i)),
    ensures
        x >> m == y >> m,
    decreases 64 - m,
{
    if m == 64 {
        assert(x >> 64u64 == y >> 64u64) by (bit_vector);
    } else {
        lemma_u64_shr_eq_from_bits(x, y, (m + 1) as u64);
        assert(u64_bit(x, m as int) == u64_bit(y, m as int));
        assert(x >> m == y >> m) by (bit_vector)
            requires
                m < 64,
                x >> ((m + 1) as u64) == y >> ((m + 1) as u64),
                ((x >> m) & 1u64 == 1u64) == ((y >> m) & 1u64 == 1u64),
        ;
    }
}

/// Two words with the same bits are equal.
pub proof fn lemma_u64_eq_from_bits(x: u64, y: u64)
    requires
        forall|i: int| 0 <= i < 64 ==> (u64_bit(x, i) <==> u64_bit(y, i)),
    ensures
        x == y,
{
    lemma_u64_shr_eq_from_bits(x, y, 0);
    assert(x >> 0u64 == x && y >> 0u64 == y) by (bit_vector);
}

/// The value of a field of at most 64 bits is below `2^w`, so it fits a
/// word, and bit `k` of that word is bit `s + k` of the buffer.
pub proof fn lemma_field_value_bits(b: Seq<u8>, s: int, w: nat)
    requires
        w <= 64,
    ensures
        field_value(b, s, w) < pow2(w),
        field_value(b, s, w) < 0x1_0000_0000_0000_0000,
        forall|k: int|
            0 <= k < 64 ==> (#[trigger] u64_bit(field_value(b, s, w) as u64, k) <==> (k < w
                && seq_bit(b, s + k))),
    decreases w,
{
    lemma2_to64_rest();
    if w < 64 {
        lemma_pow2_strictly_increases(w, 64);
    }
    if w == 0 {
        assert(pow2(0) == 1) by {
            vstd::arithmetic::power2::lemma2_to64();
        }
        assert forall|k: int| 0 <= k < 64 implies !#[trigger] u64_bit(0u64, k) by {
            let kk = k as u64;
            assert((0u64 >> kk) & 1u64 != 1u64) by (bit_vector);
        }
    } else {
        let w1 = (w - 1) as nat;
        lemma_field_value_bits(b, s + 1, w1);
        lemma_pow2_unfold(w);
        lemma_pow2_strictly_increases(w1, 64);
        let v = field_value(b, s, w);
        let v1 = field_value(b, s + 1, w1);
        let c: u64 = if seq_bit(b, s) {
            1
        } else {
            0
        };
        let x = v as u64;
        let y = v1 as u64;
        assert(v1 < 0x8000_0000_0000_0000);
        assert(x == 2 * y + c);
        assert forall|k: int| 0 <= k < 64 implies (#[trigger] u64_bit(x, k) <==> (k < w && seq_bit(
            b,
            s + k,
        ))) by {
            let kk = k as u64;
            if k == 0 {
                assert(((x >> 0u64) & 1u64 == 1u64) == (c == 1)) by (bit_vector)
                    requires
                        c <= 1,
                        x == 2 * y + c,
                ;
            } else {
                assert(((x >> kk) & 1u64 == 1u64) == ((y >> ((kk - 1) as u64)) & 1u64 == 1u64))
                    by (bit_vector)
                    requires
                        1 <= kk < 64,
                        c <= 1,
                        y < 0x8000_0000_0000_0000,
                        x == 2 * y + c,
                ;
                assert(u64_bit(y, k - 1) <==> (k - 1 < w1 && seq_bit(b, s + 1 + (k - 1))));
            }
        }
    }
}

} // verus!
