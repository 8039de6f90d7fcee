//! Per-dataset feature derivation from raw taxi trip records.
//!
//! A raw record carries nullable pickup/dropoff timestamps and nullable
//! numeric measurements (reals as binary64 bit patterns). The transform
//! projects and derives the fixed modeling columns, drops any record with a
//! null or NaN field, and keeps only trips whose duration lies strictly
//! between 0 and 36000 seconds. Records with a pickup before the epoch are
//! treated as invalid and dropped as well, so every derived hour and day is
//! well defined.

use vstd::prelude::*;

use crate::cells::is_nan_bits;
use crate::cyclic::CyclicEncoder;
use crate::time::{hour_of, hour_of_timestamp, ordinal_day_of, ordinal_day_of_timestamp};

verus! {

/// One raw taxi trip record, as handed over by a raw-source reader.
///
/// `None` marks a null field; real-valued fields are binary64 bit patterns.
#[derive(Debug, Clone, Copy, PartialEq, Eq)]
pub struct TripRecord {
    /// Pickup instant, nanoseconds since the epoch.
    pub pickup_ns: Option<i64>,
    /// Dropoff instant, nanoseconds since the epoch.
    pub dropoff_ns: Option<i64>,
    pub passenger_count: Option<u64>,
    pub trip_distance: Option<u64>,
    pub tolls_amount: Option<u64>,
}

/// One derived feature row. Field order is the column order of the feature
/// table, with `time` first; `time` exists only to drive the temporal join
/// and is dropped from the joined output.
#[derive(Debug, Clone, Copy, PartialEq, Eq)]
pub struct FeatureRow {
    /// The pickup instant: the temporal join key.
    pub time: i64,
    pub passenger_count: u64,
    pub trip_distance: u64,
    pub tolls_amount: u64,
    pub pickup_hour: u32,
    pub pickup_hour_sin: u64,
    pub pickup_hour_cos: u64,
    pub pickup_day: u32,
    pub pickup_day_sin: u64,
    pub pickup_day_cos: u64,
    pub total_seconds: i64,
}

/// Trip duration in whole seconds.
pub open spec fn trip_seconds(pickup: int, dropoff: int) -> int {
    (dropoff - pickup) / 1_000_000_000
}

/// A record survives cleaning: no field is null or NaN, the pickup is not
/// before the epoch, and the duration is strictly inside (0, 36000) seconds.
pub open spec fn trip_valid(t: TripRecord) -> bool {
    match (t.pickup_ns, t.dropoff_ns, t.passenger_count, t.trip_distance, t.tolls_amount) {
        (Some(pickup), Some(dropoff), Some(pc), Some(dist), Some(tolls)) => {
            &&& pickup >= 0
            &&& !is_nan_bits(pc)
            &&& !is_nan_bits(dist)
            &&& !is_nan_bits(tolls)
            &&& 0 < trip_seconds(pickup as int, dropoff as int) < 36000
        },
        _ => false,
    }
}

/// The feature row derived from a valid record under an encoding table.
pub open spec fn derive_row(t: TripRecord, enc: CyclicEncoder) -> FeatureRow
    recommends
        trip_valid(t),
        enc.wf(),
{
    match (t.pickup_ns, t.dropoff_ns, t.passenger_count, t.trip_distance, t.tolls_amount) {
        (Some(pickup), Some(dropoff), Some(pc), Some(dist), Some(tolls)) => FeatureRow {
            time: pickup,
            passenger_count: pc,
            trip_distance: dist,
            tolls_amount: tolls,
            pickup_hour: hour_of(pickup as int) as u32,
            pickup_hour_sin: enc.hour_sin@[hour_of(pickup as int)],
            pickup_hour_cos: enc.hour_cos@[hour_of(pickup as int)],
            pickup_day: ordinal_day_of(pickup as int) as u32,
            pickup_day_sin: enc.day_sin@[ordinal_day_of(pickup as int)],
            pickup_day_cos: enc.day_cos@[ordinal_day_of(pickup as int)],
            total_seconds: trip_seconds(pickup as int, dropoff as int) as i64,
        },
        _ => FeatureRow {
            time: 0,
            passenger_count: 0,
            trip_distance: 0,
            tolls_amount: 0,
            pickup_hour: 0,
            pickup_hour_sin: 0,
            pickup_hour_cos: 0,
            pickup_day: 0,
            pickup_day_sin: 0,
            pickup_day_cos: 0,
            total_seconds: 0,
        },
    }
}

/// The cleaned feature rows of a record sequence, in source order: the
/// derivations of exactly the valid records.
pub open spec fn clean_spec(trips: Seq<TripRecord>, enc: CyclicEncoder) -> Seq<FeatureRow>
    decreases trips.len(),
{
    if trips.len() == 0 {
        Seq::empty()
    } else {
        let rest = clean_spec(trips.drop_last(), enc);
        if trip_valid(trips.last()) {
            rest.push(derive_row(trips.last(), enc))
        } else {
            rest
        }
    }
}

/// Cleans raw trip records into feature rows (the cold-path transform).
///
/// Exactly the valid records survive, in source order, each mapped to its
/// derived feature row; every surviving duration is strictly inside
/// (0, 36000) seconds, never clamped.
pub fn clean(trips: &Vec<TripRecord>, enc: &CyclicEncoder) -> (out: Vec<FeatureRow>)
    requires
        enc.wf(),
    ensures
        out@ == clean_spec(trips@, *enc),
        forall|j: int| 0 <= j < out@.len() ==> 0 < #[trigger] out@[j].total_seconds < 36000,
{
    let mut out: Vec<FeatureRow> = Vec::new();
    let n = trips.len();
    for i in 0..n
        invariant
            n == trips@.len(),
            enc.wf(),
            out@ == clean_spec(trips@.take(i as int), *enc),
            forall|j: int| 0 <= j < out@.len() ==> 0 < #[trigger] out@[j].total_seconds < 36000,
    {
        let t = trips[i];
        proof {
            assert(trips@.take(i + 1).drop_last() =~= trips@.take(i as int));
            assert(trips@.take(i + 1).last() == t);
        }
        match (t.pickup_ns, t.dropoff_ns, t.passenger_count, t.trip_distance, t.tolls_amount) {
            (Some(pickup), Some(dropoff), Some(pc), Some(dist), Some(tolls)) => {
                if pickup >= 0 && dropoff > pickup && !crate::cells::real_is_nan(pc)
                    && !crate::cells::real_is_nan(dist) && !crate::cells::real_is_nan(tolls) {
                    let secs: i64 = (dropoff - pickup) / 1_000_000_000;
                    if 0 < secs && secs < 36000 {
                        let hour = hour_of_timestamp(pickup);
                        let day = ordinal_day_of_timestamp(pickup);
                        let row = FeatureRow {
                            time: pickup,
                            passenger_count: pc,
                            trip_distance: dist,
                            tolls_amount: tolls,
                            pickup_hour: hour,
                            pickup_hour_sin: enc.hour_sin[hour as usize],
                            pickup_hour_cos: enc.hour_cos[hour as usize],
                            pickup_day: day,
                            pickup_day_sin: enc.day_sin[day as usize],
                            pickup_day_cos: enc.day_cos[day as usize],
                            total_seconds: secs,
                        };
                        proof {
                            assert(trip_valid(t));
                            assert(row == derive_row(t, *enc));
                        }
                        out.push(row);
                    } else {
                        proof {
                            assert(!trip_valid(t));
                        }
                    }
                } else {
                    proof {
                        if dropoff <= pickup {
                            assert(trip_seconds(pickup as int, dropoff as int) <= 0);
                        }
                        assert(!trip_valid(t));
                    }
                }
            },
            _ => {
                proof {
                    assert(!trip_valid(t));
                }
            },
        }
    }
    proof {
        assert(trips@.take(n as int) =~= trips@);
    }
    out
}

} // verus!
