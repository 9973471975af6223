//! Properties that relate reads and writes of fields.
use crate::bits::{
    field_value, lemma_field_value_bits, lemma_u64_eq_from_bits, lemma_u8_eq_from_bits, seq_bit,
    u64_bit, u8_bit,
};
use crate::engine::{ordered, position, range_written, read_field, Endian};
use crate::range::{bounds_valid, field_width, first_bit, last_bit, BitBound};
use vstd::prelude::*;

verus! {

/// Two buffers of one length whose bits agree everywhere are equal.
proof fn lemma_eq_from_ordered_bits(a: Seq<u8>, b: Seq<u8>, order: Endian)
    requires
        a.len() == b.len(),
        forall|i: int|
            0 <= i < 8 * a.len() ==> (#[trigger] seq_bit(ordered(a, order), i) <==> seq_bit(
                ordered(b, order),
                i,
            )),
    ensures
        a == b,
{
    let oa = ordered(a, order);
    let ob = ordered(b, order);
    assert forall|j: int| 0 <= j < a.len() implies oa[j] == ob[j] by {
        assert forall|t: int| 0 <= t < 8 implies (u8_bit(oa[j], t) <==> u8_bit(ob[j], t)) by {
            let i = 8 * j + t;
            assert(i / 8 == j && i % 8 == t);
            assert(seq_bit(oa, i) <==> seq_bit(ob, i));
        }
        lemma_u8_eq_from_bits(oa[j], ob[j]);
    }
    assert forall|x: int| 0 <= x < a.len() implies a[x] == b[x] by {
        let j = position(a.len() as int, x, order);
        assert(position(a.len() as int, j, order) == x);
        assert(oa[j] == ob[j]);
    }
    assert(a =~= b);
}

/// Round trip: setting a field to the value just read from it leaves the
/// buffer as it was.
pub proof fn lemma_write_read_round_trip(
    before: Seq<u8>,
    after: Seq<u8>,
    order: Endian,
    bounds: (BitBound, BitBound),
)
    requires
        bounds_valid(bounds),
        range_written(before, after, order, bounds, read_field(before, order, bounds) as u64),
    ensures
        after == before,
{
    let b = ordered(before, order);
    let s = first_bit(bounds.0);
    let w = field_width(bounds) as nat;
    lemma_field_value_bits(b, s, w);
    let v = field_value(b, s, w) as u64;
    assert forall|i: int| 0 <= i < 8 * after.len() implies (#[trigger] seq_bit(
        ordered(after, order),
        i,
    ) <==> seq_bit(ordered(before, order), i)) by {
        if s <= i < s + w {
            assert(u64_bit(v, i - s) <==> seq_bit(b, s + (i - s)));
        }
    }
    lemma_eq_from_ordered_bits(after, before, order);
}

/// Non-interference: setting a field changes no byte outside the bytes from
/// the one holding its first bit to the one holding its last, in the order
/// the bytes are taken.
pub proof fn lemma_write_keeps_other_bytes(
    before: Seq<u8>,
    after: Seq<u8>,
    order: Endian,
    bounds: (BitBound, BitBound),
    v: u64,
)
    requires
        bounds_valid(bounds),
        range_written(before, after, order, bounds, v),
    ensures
        after.len() == before.len(),
        forall|j: int|
            0 <= j < before.len() && !(first_bit(bounds.0) / 8 <= j <= last_bit(bounds.1) / 8)
                ==> #[trigger] ordered(after, order)[j] == ordered(before, order)[j],
{
    let oa = ordered(after, order);
    let ob = ordered(before, order);
    let s = first_bit(bounds.0);
    let e = last_bit(bounds.1);
    assert forall|j: int|
        0 <= j < before.len() && !(s / 8 <= j <= e / 8) implies #[trigger] oa[j] == ob[j] by {
        assert forall|t: int| 0 <= t < 8 implies (u8_bit(oa[j], t) <==> u8_bit(ob[j], t)) by {
            let i = 8 * j + t;
            assert(i / 8 == j && i % 8 == t);
            assert(seq_bit(oa, i) <==> seq_bit(ob, i));
        }
        lemma_u8_eq_from_bits(oa[j], ob[j]);
    }
}

/// Endianness symmetry: a field read with the bytes taken from the first
/// equals the same field read from the buffer with its bytes reversed, taken
/// from the last.
pub proof fn lemma_endian_symmetry(b: Seq<u8>, bounds: (BitBound, BitBound))
    ensures
        read_field(b, Endian::Little, bounds) == read_field(b.reverse(), Endian::Big, bounds),
{
    assert(ordered(b, Endian::Little) =~= ordered(b.reverse(), Endian::Big));
}

/// Truncation on write: reading back a field of fewer than 64 bits that lies
/// within the buffer, just after setting it to `v`, gives the low bits of `v`.
pub proof fn lemma_read_after_write(
    before: Seq<u8>,
    after: Seq<u8>,
    order: Endian,
    bounds: (BitBound, BitBound),
    v: u64,
)
    requires
        bounds_valid(bounds),
        field_width(bounds) < 64,
        first_bit(bounds.0) + field_width(bounds) <= 8 * before.len(),
        range_written(before, after, order, bounds, v),
    ensures
        read_field(after, order, bounds) == v & (((1u64 << (field_width(bounds) as u64)) - 1) as u64),
{
    let a = ordered(after, order);
    let s = first_bit(bounds.0);
    let w = field_width(bounds) as nat;
    let ww = w as u64;
    let m = ((1u64 << ww) - 1) as u64;
    lemma_field_value_bits(a, s, w);
    let f = field_value(a, s, w) as u64;
    assert forall|k: int| 0 <= k < 64 implies (u64_bit(f, k) <==> u64_bit(v & m, k)) by {
        let kk = k as u64;
        assert((((v & m) >> kk) & 1u64 == 1u64) == (kk < ww && (v >> kk) & 1u64 == 1u64))
            by (bit_vector)
            requires
                ww < 64,
                kk < 64,
                m == ((1u64 << ww) - 1) as u64,
        ;
        if k < w {
            assert(seq_bit(a, s + k) <==> u64_bit(v, s + k - s));
        }
    }
    lemma_u64_eq_from_bits(f, v & m);
}

} // verus!
