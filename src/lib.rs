//! Reading and writing bit fields of arbitrary width and alignment inside
//! byte buffers, in little-endian or big-endian order.
//!
//! A field is named by a range of bit indices. Bit 0 is the least
//! significant bit of the first byte in the chosen order; the field's bits,
//! from its lowest index up, are the binary digits of its value from the
//! least significant up.
use vstd::prelude::*;

pub mod bits;
pub mod range;
pub mod engine;
pub mod laws;

pub use engine::{
    bit_range_read_le_iter_impl, range_write, read_u128_le, write_be_compound, write_le_compound,
    write_value_le, Endian,
};
pub use range::{setup_iter, BitBound, BitRangeBounds};

verus! {

use engine::{range_written, read_field};
use range::bounds_valid;

/// A word that a field can be read into: the field's value cut to the
/// word's width.
pub trait ReadWord: Sized {
    /// The word holding the low bits of `v`.
    spec fn spec_from_u64(v: u64) -> Self;

    /// Returns the word holding the low bits of `v`.
    fn from_u64(v: u64) -> (r: Self)
        ensures
            r == Self::spec_from_u64(v),
    ;
}

/// A word that a field can be set from: its bits, widened to 64 (a signed
/// word is sign-extended).
pub trait WriteWord: Sized {
    /// The word widened to 64 bits.
    spec fn spec_to_u64(self) -> u64;

    /// Returns the word widened to 64 bits.
    fn to_u64(self) -> (r: u64)
        ensures
            r == self.spec_to_u64(),
    ;
}

impl ReadWord for u8 {
    open spec fn spec_from_u64(v: u64) -> u8 {
        v as u8
    }

    fn from_u64(v: u64) -> (r: u8) {
        v as u8
    }
}

impl ReadWord for u16 {
    open spec fn spec_from_u64(v: u64) -> u16 {
        v as u16
    }

    fn from_u64(v: u64) -> (r: u16) {
        v as u16
    }
}

impl ReadWord for u32 {
    open spec fn spec_from_u64(v: u64) -> u32 {
        v as u32
    }

    fn from_u64(v: u64) -> (r: u32) {
        v as u32
    }
}

impl ReadWord for u64 {
    open spec fn spec_from_u64(v: u64) -> u64 {
        v
    }

    fn from_u64(v: u64) -> (r: u64) {
        v
    }
}

impl WriteWord for u8 {
    open spec fn spec_to_u64(self) -> u64 {
        self as u64
    }

    fn to_u64(self) -> (r: u64) {
        self as u64
    }
}

impl WriteWord for u16 {
    open spec fn spec_to_u64(self) -> u64 {
        self as u64
    }

    fn to_u64(self) -> (r: u64) {
        self as u64
    }
}

impl WriteWord for i32 {
    open spec fn spec_to_u64(self) -> u64 {
        self as u64
    }

    fn to_u64(self) -> (r: u64) {
        self as u64
    }
}

impl WriteWord for u32 {
    open spec fn spec_to_u64(self) -> u64 {
        self as u64
    }

    fn to_u64(self) -> (r: u64) {
        self as u64
    }
}

impl WriteWord for u64 {
    open spec fn spec_to_u64(self) -> u64 {
        self
    }

    fn to_u64(self) -> (r: u64) {
        self
    }
}

/// Reading a field of bits out of a byte buffer.
pub trait BitRangeRead<U: ReadWord>: View<V = Seq<u8>> + Sized {
    /// Reads the field that `range` names, bytes taken from the first.
    fn range_read_le<R: BitRangeBounds>(self, range: R) -> (r: U)
        requires
            bounds_valid(range.spec_bounds()),
        ensures
            r == U::spec_from_u64(read_field(self@, Endian::Little, range.spec_bounds()) as u64),
    ;

    /// Reads the field that `range` names, bytes taken from the last.
    fn range_read_be<R: BitRangeBounds>(self, range: R) -> (r: U)
        requires
            bounds_valid(range.spec_bounds()),
        ensures
            r == U::spec_from_u64(read_field(self@, Endian::Big, range.spec_bounds()) as u64),
    ;
}

/// Setting a field of bits inside a byte buffer.
pub trait BitRangeWrite<U: WriteWord>: View<V = Seq<u8>> {
    /// Sets the field that `range` names, bytes taken from the first, to
    /// the low bits of `value`.
    fn range_write_le<R: BitRangeBounds>(&mut self, range: R, value: U)
        requires
            bounds_valid(range.spec_bounds()),
        ensures
            range_written(
                old(self)@,
                final(self)@,
                Endian::Little,
                range.spec_bounds(),
                value.spec_to_u64(),
            ),
    ;

    /// Sets the field that `range` names, bytes taken from the last, to the
    /// low bits of `value`.
    fn range_write_be<R: BitRangeBounds>(&mut self, range: R, value: U)
        requires
            bounds_valid(range.spec_bounds()),
        ensures
            range_written(
                old(self)@,
                final(self)@,
                Endian::Big,
                range.spec_bounds(),
                value.spec_to_u64(),
            ),
    ;
}

impl<'a, U: ReadWord> BitRangeRead<U> for &'a [u8] {
    fn range_read_le<R: BitRangeBounds>(self, range: R) -> (r: U) {
        let res: u64 = bit_range_read_le_iter_impl(self, Endian::Little, range);
        U::from_u64(res)
    }

    fn range_read_be<R: BitRangeBounds>(self, range: R) -> (r: U) {
        let res: u64 = bit_range_read_le_iter_impl(self, Endian::Big, range);
        U::from_u64(res)
    }
}

impl<U: WriteWord> BitRangeWrite<U> for [u8] {
    fn range_write_le<R: BitRangeBounds>(&mut self, range: R, value: U) {
        write_le_compound(self, value.to_u64(), range);
    }

    fn range_write_be<R: BitRangeBounds>(&mut self, range: R, value: U) {
        write_be_compound(self, value.to_u64(), range);
    }
}

} // verus!
