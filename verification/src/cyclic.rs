//! Cyclical encodings of hour-of-day and day-of-year.
//!
//! Hour 23 and hour 0 are adjacent in reality but far apart as raw integers,
//! so the transform encodes each periodic quantity as a (sin, cos) pair. The
//! trigonometric values themselves are floating point, which this library
//! does not compute; the caller supplies them once, as binary64 bit patterns
//! indexed by hour (period 24) and by ordinal day of year (index 1..=366).
//! The transform is verified against whatever table the caller provides: a
//! derived row's encoding cells are exactly the table entries for its hour
//! and day.

use vstd::prelude::*;

verus! {

/// Caller-supplied sin/cos tables, as binary64 bit patterns.
///
/// `hour_sin[h]` / `hour_cos[h]` encode hour `h` of the day for `h < 24`;
/// `day_sin[d]` / `day_cos[d]` encode ordinal day `d` of the year for
/// `1 <= d <= 366` (index 0 is unused padding).
#[derive(Debug, Clone)]
pub struct CyclicEncoder {
    pub hour_sin: Vec<u64>,
    pub hour_cos: Vec<u64>,
    pub day_sin: Vec<u64>,
    pub day_cos: Vec<u64>,
}

impl CyclicEncoder {
    /// The tables cover every hour of a day and every ordinal day of a year.
    pub open spec fn wf(&self) -> bool {
        &&& self.hour_sin@.len() == 24
        &&& self.hour_cos@.len() == 24
        &&& self.day_sin@.len() == 367
        &&& self.day_cos@.len() == 367
    }

    /// Runtime check of [`CyclicEncoder::wf`], for unverified callers.
    pub fn well_formed(&self) -> (r: bool)
        ensures
            r == self.wf(),
    {
        self.hour_sin.len() == 24 && self.hour_cos.len() == 24 && self.day_sin.len() == 367
            && self.day_cos.len() == 367
    }
}

} // verus!
