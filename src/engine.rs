//! Assembling bytes into an accumulator and back, and the read and write
//! engines built on it.
use crate::bits::{
    field_value, lemma_field_value_bits, lemma_u64_eq_from_bits, seq_bit, u128_bit, u64_bit, u8_bit,
};
use crate::range::{
    bounds_valid, field_width, first_bit, last_bit, setup_iter, BitBound, BitRangeBounds,
};
use vstd::prelude::*;

verus! {

/// The order in which a buffer's bytes are taken: from its first byte
/// (little-endian) or from its last (big-endian).
#[derive(Clone, Copy, Debug, PartialEq, Eq, Structural)]
pub enum Endian {
    Little,
    Big,
}

/// Where the `j`-th byte in the given order sits in a buffer of `len` bytes.
pub open spec fn position(len: int, j: int, order: Endian) -> int {
    match order {
        Endian::Little => j,
        Endian::Big => len - 1 - j,
    }
}

/// The buffer's bytes in the given order.
pub open spec fn ordered(b: Seq<u8>, order: Endian) -> Seq<u8> {
    Seq::new(b.len(), |j: int| b[position(b.len() as int, j, order)])
}

/// Bit `i` of the buffer in the given order.
pub open spec fn ordered_bit(b: Seq<u8>, order: Endian, i: int) -> bool {
    seq_bit(ordered(b, order), i)
}

/// The value of the field that `bounds` names in the buffer, bytes taken in
/// the given order. Bits past the end of the buffer read as zero.
pub open spec fn read_field(b: Seq<u8>, order: Endian, bounds: (BitBound, BitBound)) -> nat {
    field_value(ordered(b, order), first_bit(bounds.0), field_width(bounds) as nat)
}

/// `after` is `before` with the `w` bits from index `s` up replaced by the low
/// bits of `v`; bits of the field that lie past the end of the buffer are
/// dropped, and every other bit is kept.
pub open spec fn field_written(before: Seq<u8>, after: Seq<u8>, s: int, w: int, v: u64) -> bool {
    &&& after.len() == before.len()
    &&& forall|i: int|
        0 <= i < 8 * before.len() ==> (#[trigger] seq_bit(after, i) <==> if s <= i < s + w {
            u64_bit(v, i - s)
        } else {
            seq_bit(before, i)
        })
}

/// The buffer `after` is `before` with the field that `bounds` names, bytes taken
/// in the given order, set to `v`.
pub open spec fn range_written(
    before: Seq<u8>,
    after: Seq<u8>,
    order: Endian,
    bounds: (BitBound, BitBound),
    v: u64,
) -> bool {
    field_written(
        ordered(before, order),
        ordered(after, order),
        first_bit(bounds.0),
        field_width(bounds),
        v,
    )
}

/// The accumulator with its `w` low bits set.
pub open spec fn low_mask(w: u128) -> u128 {
    ((1u128 << w) - 1) as u128
}

proof fn lemma_shift_in_byte(acc: u128, x: u8, p: int)
    requires
        0 <= p < 128,
    ensures
        u128_bit((acc << 8u32) | (x as u128), p) <==> if p < 8 {
            u8_bit(x, p)
        } else {
            u128_bit(acc, p - 8)
        },
{
    let pp = p as u128;
    if p < 8 {
        let p8 = p as u8;
        assert(((((acc << 8u32) | (x as u128)) >> pp) & 1u128 == 1u128) == ((x >> p8) & 1u8
            == 1u8)) by (bit_vector)
            requires
                pp < 8,
                p8 == pp,
        ;
    } else {
        assert(((((acc << 8u32) | (x as u128)) >> pp) & 1u128 == 1u128) == ((acc >> ((pp
            - 8) as u128)) & 1u128 == 1u128)) by (bit_vector)
            requires
                8 <= pp < 128,
        ;
    }
}

proof fn lemma_byte_of_accumulator(x: u128, q: int, t: int)
    requires
        0 <= q < 16,
        0 <= t < 8,
    ensures
        u8_bit((x >> ((8 * q) as u128)) as u8, t) <==> u128_bit(x, 8 * q + t),
{
    let qq = q as u128;
    let tt = t as u8;
    let t128 = t as u128;
    assert(((((x >> (8 * qq)) as u8) >> tt) & 1u8 == 1u8) == ((x >> (8 * qq + t128)) & 1u128
        == 1u128)) by (bit_vector)
        requires
            qq < 16,
            tt < 8,
            t128 == tt,
    ;
}

proof fn lemma_extract_bits(acc: u128, sb: u128, w: u128, k: int)
    requires
        sb < 8,
        1 <= w <= 64,
        0 <= k < 64,
    ensures
        u64_bit((((acc >> sb) & low_mask(w)) as u64), k) <==> (k < w && u128_bit(
            acc,
            sb + k,
        )),
{
    let kk = k as u64;
    let k128 = k as u128;
    assert((((((acc >> sb) & low_mask(w)) as u64) >> kk) & 1u64 == 1u64) == (k128 < w
        && (acc >> (sb + k128)) & 1u128 == 1u128)) by (bit_vector)
        requires
            sb < 8,
            1 <= w <= 64,
            kk < 64,
            k128 == kk,
    ;
}

proof fn lemma_merge_bits(work: u128, val: u64, sb: u128, w: u128, p: int)
    requires
        sb < 8,
        1 <= w <= 64,
        0 <= p < 128,
    ensures
        u128_bit(
            (work & !(low_mask(w) << sb)) | (((val as u128) << sb) & (low_mask(w)
                << sb)),
            p,
        ) <==> if sb <= p < sb + w {
            u64_bit(val, p - sb)
        } else {
            u128_bit(work, p)
        },
{
    let pp = p as u128;
    let mask = low_mask(w) << sb;
    let merged = (work & !mask) | (((val as u128) << sb) & mask);
    if sb <= pp < sb + w {
        let q = (pp - sb) as u64;
        let q128 = (pp - sb) as u128;
        assert(((merged >> pp) & 1u128 == 1u128) == ((val >> q) & 1u64 == 1u64)) by (bit_vector)
            requires
                mask == low_mask(w) << sb,
                merged == (work & !mask) | (((val as u128) << sb) & mask),
                sb < 8,
                1 <= w <= 64,
                sb <= pp < sb + w,
                q128 == pp - sb,
                q == q128,
        ;
    } else {
        assert(((merged >> pp) & 1u128 == 1u128) == ((work >> pp) & 1u128 == 1u128))
            by (bit_vector)
            requires
                mask == low_mask(w) << sb,
                merged == (work & !mask) | (((val as u128) << sb) & mask),
                sb < 8,
                1 <= w <= 64,
                pp < 128,
                !(sb <= pp < sb + w),
        ;
    }
}

/// Where the `j`-th byte in the given order sits in a buffer of `len` bytes.
fn byte_position(len: usize, j: usize, order: Endian) -> (r: usize)
    requires
        j < len,
    ensures
        r == position(len as int, j as int, order),
        r < len,
{
    match order {
        Endian::Little => j,
        Endian::Big => len - 1 - j,
    }
}

/// Assembles the bytes `start..end` of the buffer, taken in the given order,
/// into an accumulator: byte `start` is its least significant byte.
pub fn read_u128_le(input: &[u8], order: Endian, start: usize, end: usize) -> (r: u128)
    requires
        start <= end <= input@.len(),
        end - start <= 16,
    ensures
        forall|p: int|
            0 <= p < 128 ==> (#[trigger] u128_bit(r, p) <==> (p < 8 * (end - start)
                && ordered_bit(input@, order, 8 * start + p))),
{
    let len = input.len();
    let mut acc: u128 = 0;
    let mut j: usize = end;
    assert forall|p: int| 0 <= p < 128 implies !#[trigger] u128_bit(0u128, p) by {
        let pp = p as u128;
        assert((0u128 >> pp) & 1u128 != 1u128) by (bit_vector);
    }
    while j > start
        invariant
            start <= j <= end <= len == input@.len(),
            end - start <= 16,
            forall|p: int|
                0 <= p < 128 ==> (#[trigger] u128_bit(acc, p) <==> (p < 8 * (end - j)
                    && ordered_bit(input@, order, 8 * j + p))),
        decreases j,
    {
        j -= 1;
        let byte = input[byte_position(len, j, order)];
        let ghost prev = acc;
        acc = (acc << 8u32) | (byte as u128);
        assert forall|p: int| 0 <= p < 128 implies (#[trigger] u128_bit(acc, p) <==> (p < 8 * (
        end - j) && ordered_bit(input@, order, 8 * j + p))) by {
            lemma_shift_in_byte(prev, byte, p);
            if p < 8 {
                assert((8 * j + p) / 8 == j && (8 * j + p) % 8 == p);
            } else {
                assert(8 * (j + 1) + (p - 8) == 8 * j + p);
            }
        }
    }
    acc
}

/// Stores the low `end - start` bytes of `value` into the bytes
/// `start..end` of the buffer, taken in the given order: byte `start` gets
/// the least significant byte. The other bytes are kept.
pub fn write_value_le(output: &mut [u8], order: Endian, start: usize, end: usize, value: u128)
    requires
        start <= end <= old(output)@.len(),
        end - start <= 16,
    ensures
        final(output)@.len() == old(output)@.len(),
        forall|j: int|
            0 <= j < old(output)@.len() ==> #[trigger] ordered(final(output)@, order)[j] == if start
                <= j < end {
                (value >> ((8 * (j - start)) as u128)) as u8
            } else {
                ordered(old(output)@, order)[j]
            },
{
    let len = output.len();
    let mut j: usize = start;
    while j < end
        invariant
            start <= j <= end <= len == output@.len() == old(output)@.len(),
            end - start <= 16,
            forall|i: int|
                0 <= i < len ==> #[trigger] output@[position(len as int, i, order)] == if start
                    <= i < j {
                    (value >> ((8 * (i - start)) as u128)) as u8
                } else {
                    old(output)@[position(len as int, i, order)]
                },
        decreases end - j,
    {
        let pos = byte_position(len, j, order);
        let byte = (value >> (8 * (j - start)) as u32) as u8;
        output[pos] = byte;
        j += 1;
    }
    assert forall|i: int| 0 <= i < len implies #[trigger] ordered(output@, order)[i] == if start
        <= i < end {
        (value >> ((8 * (i - start)) as u128)) as u8
    } else {
        ordered(old(output)@, order)[i]
    } by {
        assert(output@[position(len as int, i, order)] == if start <= i < end {
            (value >> ((8 * (i - start)) as u128)) as u8
        } else {
            old(output)@[position(len as int, i, order)]
        });
    }
}

/// The mask of the `w` low bits of the accumulator.
fn field_mask(w: usize) -> (r: u128)
    requires
        1 <= w <= 64,
    ensures
        r == low_mask(w as u128),
{
    let ww = w as u32;
    assert(1u128 << ww >= 1) by (bit_vector)
        requires
            1 <= ww <= 64,
    ;
    (1u128 << ww) - 1
}

/// The bytes that a field touches, `start_byte..=end_byte` as
/// `setup_iter` resolves them, cut to the buffer: `(lo, hi)` with
/// `lo <= hi <= len`.
fn touched_span(len: usize, start_byte: usize, end_byte: usize) -> (r: (usize, usize))
    requires
        end_byte <= len,
    ensures
        r.1 == if end_byte < len {
            end_byte + 1
        } else {
            len as int
        },
        r.0 == if start_byte < r.1 {
            start_byte as int
        } else {
            r.1 as int
        },
{
    let hi: usize = if end_byte < len {
        end_byte + 1
    } else {
        len
    };
    let lo: usize = if start_byte < hi {
        start_byte
    } else {
        hi
    };
    (lo, hi)
}

/// Reads the field that `range` names, bytes taken in the given order.
pub fn bit_range_read_le_iter_impl<R: BitRangeBounds>(input: &[u8], order: Endian, range: R) -> (r:
    u64)
    requires
        bounds_valid(range.spec_bounds()),
    ensures
        r as int == read_field(input@, order, range.spec_bounds()),
{
    let ghost bounds = range.spec_bounds();
    let (start_bit, total_bits, start_byte, end_byte) = setup_iter(input.len(), range);
    let (lo, hi) = touched_span(input.len(), start_byte, end_byte);
    let acc = read_u128_le(input, order, lo, hi);
    let mask = field_mask(total_bits);
    let output: u128 = (acc >> start_bit as u32) & mask;
    assert(output <= u64::MAX) by (bit_vector)
        requires
            output == (acc >> start_bit as u32) & mask,
            mask == low_mask(total_bits as u128),
            1 <= total_bits <= 64,
    ;
    let r = output as u64;
    proof {
        let b = ordered(input@, order);
        let s = first_bit(bounds.0);
        let e = last_bit(bounds.1);
        let w = total_bits as nat;
        lemma_field_value_bits(b, s, w);
        let f = field_value(b, s, w) as u64;
        assert forall|k: int| 0 <= k < 64 implies (u64_bit(r, k) <==> u64_bit(f, k)) by {
            lemma_extract_bits(acc, start_bit as u128, total_bits as u128, k);
            if k < w && seq_bit(b, s + k) {
                assert(s + k <= e);
                assert(8 * lo + start_bit == s);
            }
        }
        lemma_u64_eq_from_bits(r, f);
    }
    r
}

/// Sets the field that `range` names, bytes taken in the given order, to
/// the low bits of `val`.
pub fn range_write<R: BitRangeBounds>(output: &mut [u8], order: Endian, val: u64, range: R)
    requires
        bounds_valid(range.spec_bounds()),
    ensures
        range_written(old(output)@, final(output)@, order, range.spec_bounds(), val),
{
    let ghost bounds = range.spec_bounds();
    let (start_bit, total_bits, start_byte, end_byte) = setup_iter(output.len(), range);
    let (lo, hi) = touched_span(output.len(), start_byte, end_byte);
    let mut work_value = read_u128_le(output, order, lo, hi);
    let ghost before = work_value;
    let mask: u128 = field_mask(total_bits) << start_bit as u32;
    let val_bits: u128 = ((val as u128) << start_bit as u32) & mask;
    work_value = (work_value & !mask) | val_bits;
    write_value_le(output, order, lo, hi, work_value);
    proof {
        let old_b = ordered(old(output)@, order);
        let new_b = ordered(output@, order);
        let s = first_bit(bounds.0);
        let e = last_bit(bounds.1);
        let w = total_bits as int;
        let sb = start_bit as u128;
        assert(mask == low_mask(total_bits as u128) << sb);
        assert forall|i: int| 0 <= i < 8 * old_b.len() implies (#[trigger] seq_bit(new_b, i) <==> if s
            <= i < s + w {
            u64_bit(val, i - s)
        } else {
            seq_bit(old_b, i)
        }) by {
            let j = i / 8;
            let t = i % 8;
            if lo <= j < hi {
                let q = j - lo;
                let p = 8 * q + t;
                lemma_byte_of_accumulator(work_value, q, t);
                lemma_merge_bits(before, val, sb, total_bits as u128, p);
                assert(p == i - 8 * lo);
                assert(8 * lo + start_bit == s);
            } else {
                assert(new_b[j] == old_b[j]);
            }
        }
    }
}

/// Sets the field that `range` names, bytes taken from the first, to the
/// low bits of `val`.
pub fn write_le_compound<R: BitRangeBounds>(output: &mut [u8], val: u64, range: R)
    requires
        bounds_valid(range.spec_bounds()),
    ensures
        range_written(old(output)@, final(output)@, Endian::Little, range.spec_bounds(), val),
{
    range_write(output, Endian::Little, val, range)
}

/// Sets the field that `range` names, bytes taken from the last, to the low
/// bits of `val`.
pub fn write_be_compound<R: BitRangeBounds>(output: &mut [u8], val: u64, range: R)
    requires
        bounds_valid(range.spec_bounds()),
    ensures
        range_written(old(output)@, final(output)@, Endian::Big, range.spec_bounds(), val),
{
    range_write(output, Endian::Big, val, range)
}

} // verus!
