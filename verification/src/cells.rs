//! Table cells.
//!
//! A cell is either null, a 64-bit integer, a real number carried as its
//! IEEE-754 bit pattern, or raw text bytes. Carrying reals as bit patterns
//! keeps every pipeline stage exact: nothing is rounded or reformatted
//! between the transform, the join, and the persisted artifact.

use vstd::prelude::*;

verus! {

/// One cell of a feature or weather table.
#[derive(Debug, PartialEq, Eq)]
pub enum Cell {
    /// A missing value.
    Null,
    /// An integer value.
    Int(i64),
    /// A real value, as the bit pattern of an IEEE-754 binary64 number.
    Real(u64),
    /// An opaque text value, as raw bytes.
    Text(Vec<u8>),
}

/// The mathematical value of a [`Cell`].
pub enum CellValue {
    Null,
    Int(int),
    Real(u64),
    Text(Seq<u8>),
}

impl DeepView for Cell {
    type V = CellValue;

    open spec fn deep_view(&self) -> CellValue {
        match self {
            Cell::Null => CellValue::Null,
            Cell::Int(i) => CellValue::Int(*i as int),
            Cell::Real(b) => CellValue::Real(*b),
            Cell::Text(t) => CellValue::Text(t@),
        }
    }
}

/// Whether a binary64 bit pattern denotes a NaN: all exponent bits set and a
/// non-zero fraction.
pub open spec fn is_nan_bits(b: u64) -> bool {
    (b >> 52) & 0x7ff == 0x7ff && b & 0xf_ffff_ffff_ffff != 0
}

/// Runtime NaN test on a binary64 bit pattern.
pub fn real_is_nan(b: u64) -> (r: bool)
    ensures
        r == is_nan_bits(b),
{
    (b >> 52) & 0x7ff == 0x7ff && b & 0xf_ffff_ffff_ffff != 0
}

} // verus!
