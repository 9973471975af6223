//! Bit ranges and their resolution into a field and a span of bytes.
use core::ops::{Range, RangeFrom, RangeFull, RangeInclusive, RangeTo, RangeToInclusive};
use vstd::prelude::*;

verus! {

/// One end of a range of bit indices.
#[derive(Clone, Copy, Debug)]
pub enum BitBound {
    Included(usize),
    Excluded(usize),
    Unbounded,
}

/// The absolute index of the first bit of a field, given its start bound.
pub open spec fn first_bit(start: BitBound) -> int {
    match start {
        BitBound::Included(s) => s as int,
        BitBound::Excluded(s) => s + 1,
        BitBound::Unbounded => 0,
    }
}

/// The absolute index of the last bit of a field, given its end bound. An
/// open end stands for bit 63, so that `..` names the first 64 bits.
pub open spec fn last_bit(end: BitBound) -> int {
    match end {
        BitBound::Included(e) => e as int,
        BitBound::Excluded(e) => e - 1,
        BitBound::Unbounded => 63,
    }
}

/// The number of bits that a pair of bounds selects.
pub open spec fn field_width(bounds: (BitBound, BitBound)) -> int {
    last_bit(bounds.1) - first_bit(bounds.0) + 1
}

/// Bounds that name a field of 1 to 64 bits whose indices fit a `usize`.
pub open spec fn bounds_valid(bounds: (BitBound, BitBound)) -> bool {
    &&& first_bit(bounds.0) <= usize::MAX
    &&& 1 <= field_width(bounds) <= 64
}

/// A range of bit indices, as the standard range expressions write it.
pub trait BitRangeBounds {
    /// The start and end bounds of the range.
    spec fn spec_bounds(&self) -> (BitBound, BitBound);

    /// Takes the range apart into its start and end bounds.
    fn bounds(self) -> (r: (BitBound, BitBound))
        ensures
            r == self.spec_bounds(),
    ;
}

#[verifier::external_type_specification]
#[verifier::external_body]
pub struct ExRangeFull(RangeFull);

#[verifier::external_type_specification]
#[verifier::reject_recursive_types(Idx)]
pub struct ExRangeFrom<Idx>(RangeFrom<Idx>);

#[verifier::external_type_specification]
#[verifier::reject_recursive_types(Idx)]
pub struct ExRangeTo<Idx>(RangeTo<Idx>);

#[verifier::external_type_specification]
#[verifier::reject_recursive_types(Idx)]
pub struct ExRangeToInclusive<Idx>(RangeToInclusive<Idx>);

/// Relies on `RangeInclusive::into_inner`: it hands back the start and the
/// (inclusive) end that the range was built with.
pub assume_specification<Idx>[ RangeInclusive::<Idx>::into_inner ](r: RangeInclusive<Idx>) -> (res:
    (Idx, Idx))
    ensures
        res.0 == r@.start,
        res.1 == r@.end,
;

impl BitRangeBounds for Range<usize> {
    open spec fn spec_bounds(&self) -> (BitBound, BitBound) {
        (BitBound::Included(self.start), BitBound::Excluded(self.end))
    }

    fn bounds(self) -> (r: (BitBound, BitBound)) {
        (BitBound::Included(self.start), BitBound::Excluded(self.end))
    }
}

/// An inclusive range is read by the bounds it was built with, also once it
/// has been iterated to its end.
impl BitRangeBounds for RangeInclusive<usize> {
    open spec fn spec_bounds(&self) -> (BitBound, BitBound) {
        (BitBound::Included(self@.start), BitBound::Included(self@.end))
    }

    fn bounds(self) -> (r: (BitBound, BitBound)) {
        let (start, end) = self.into_inner();
        (BitBound::Included(start), BitBound::Included(end))
    }
}

impl BitRangeBounds for RangeFull {
    open spec fn spec_bounds(&self) -> (BitBound, BitBound) {
        (BitBound::Unbounded, BitBound::Unbounded)
    }

    fn bounds(self) -> (r: (BitBound, BitBound)) {
        (BitBound::Unbounded, BitBound::Unbounded)
    }
}

impl BitRangeBounds for RangeFrom<usize> {
    open spec fn spec_bounds(&self) -> (BitBound, BitBound) {
        (BitBound::Included(self.start), BitBound::Unbounded)
    }

    fn bounds(self) -> (r: (BitBound, BitBound)) {
        (BitBound::Included(self.start), BitBound::Unbounded)
    }
}

impl BitRangeBounds for RangeTo<usize> {
    open spec fn spec_bounds(&self) -> (BitBound, BitBound) {
        (BitBound::Unbounded, BitBound::Excluded(self.end))
    }

    fn bounds(self) -> (r: (BitBound, BitBound)) {
        (BitBound::Unbounded, BitBound::Excluded(self.end))
    }
}

impl BitRangeBounds for RangeToInclusive<usize> {
    open spec fn spec_bounds(&self) -> (BitBound, BitBound) {
        (BitBound::Unbounded, BitBound::Included(self.end))
    }

    fn bounds(self) -> (r: (BitBound, BitBound)) {
        (BitBound::Unbounded, BitBound::Included(self.end))
    }
}

impl BitRangeBounds for (BitBound, BitBound) {
    open spec fn spec_bounds(&self) -> (BitBound, BitBound) {
        *self
    }

    fn bounds(self) -> (r: (BitBound, BitBound)) {
        self
    }
}

/// Resolves a range over a buffer of `input_len` bytes into
/// `(start_bit, total_bits, start_byte, end_byte)`: the field's first bit
/// within its first byte, its width, the index of its first byte, and the
/// index of its last byte, clamped to the buffer's length.
pub fn setup_iter<R: BitRangeBounds>(input_len: usize, range: R) -> (r: (
    usize,
    usize,
    usize,
    usize,
))
    requires
        bounds_valid(range.spec_bounds()),
    ensures
        r.0 == first_bit(range.spec_bounds().0) % 8,
        r.1 == field_width(range.spec_bounds()),
        r.2 == first_bit(range.spec_bounds().0) / 8,
        r.3 == if last_bit(range.spec_bounds().1) / 8 < input_len {
            last_bit(range.spec_bounds().1) / 8
        } else {
            input_len as int
        },
{
    let (start, end) = range.bounds();
    let start_bit: usize = match start {
        BitBound::Included(s) => s,
        BitBound::Excluded(s) => s + 1,
        BitBound::Unbounded => 0,
    };
    let end_bit: usize = match end {
        BitBound::Included(e) => e,
        BitBound::Excluded(e) => e - 1,
        BitBound::Unbounded => 63,
    };
    let total_bits: usize = end_bit - start_bit + 1;
    let start_byte: usize = start_bit / 8;
    let end_byte: usize = if end_bit / 8 < input_len {
        end_bit / 8
    } else {
        input_len
    };
    let start_bit: usize = start_bit - start_byte * 8;
    (start_bit, total_bits, start_byte, end_byte)
}

} // verus!
