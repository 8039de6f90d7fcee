//! Temporal (as-of) join of feature rows against the weather table.
//!
//! Every feature row is matched with the weather observation whose key is
//! the greatest `time_ns` not exceeding the row's `time`; if several rows
//! share that key, the last one in table order wins (a defined, documented
//! tie-break), and if no key qualifies the weather cells are null. The join
//! scaffolding columns `time` and `time_ns` are dropped from the output.

use vstd::prelude::*;
use vstd::string::StringSliceAdditionalSpecFns;

use crate::cells::{Cell, CellValue};
use crate::table::{clone_cells, Table};
use crate::transform::FeatureRow;
use crate::weather::WeatherTable;

verus! {

/// The index of the as-of match for key `t` among `keys`: the last index
/// holding the greatest key value `<= t`, if any key qualifies.
pub open spec fn asof_index(keys: Seq<i64>, t: i64) -> Option<int>
    decreases keys.len(),
{
    if keys.len() == 0 {
        None
    } else {
        let prev = asof_index(keys.drop_last(), t);
        if keys.last() <= t {
            match prev {
                Some(p) => if keys[p] <= keys.last() {
                    Some(keys.len() - 1)
                } else {
                    Some(p)
                },
                None => Some(keys.len() - 1),
            }
        } else {
            prev
        }
    }
}

/// The as-of match is the nearest preceding observation: a matched key is
/// the maximum among keys `<= t` and its index is the last one attaining
/// that maximum; no match exists exactly when every key exceeds `t`.
pub proof fn lemma_asof_nearest_preceding(keys: Seq<i64>, t: i64)
    ensures
        match asof_index(keys, t) {
            Some(j) => {
                &&& 0 <= j < keys.len()
                &&& keys[j] <= t
                &&& forall|k: int| 0 <= k < keys.len() && #[trigger] keys[k] <= t ==> keys[k] <= keys[j]
                &&& forall|k: int| j < k < keys.len() && #[trigger] keys[k] <= t ==> keys[k] < keys[j]
            },
            None => forall|k: int| 0 <= k < keys.len() ==> #[trigger] keys[k] > t,
        },
    decreases keys.len(),
{
    if keys.len() > 0 {
        lemma_asof_nearest_preceding(keys.drop_last(), t);
        assert(forall|k: int|
            0 <= k < keys.len() - 1 ==> #[trigger] keys[k] == keys.drop_last()[k]);
    }
}

/// The ten feature cells of a derived row, in column order (`time` is join
/// scaffolding and is not among them).
pub open spec fn feature_cells_spec(f: FeatureRow) -> Seq<CellValue> {
    seq![
        CellValue::Real(f.passenger_count),
        CellValue::Real(f.trip_distance),
        CellValue::Real(f.tolls_amount),
        CellValue::Int(f.pickup_hour as int),
        CellValue::Real(f.pickup_hour_sin),
        CellValue::Real(f.pickup_hour_cos),
        CellValue::Int(f.pickup_day as int),
        CellValue::Real(f.pickup_day_sin),
        CellValue::Real(f.pickup_day_cos),
        CellValue::Int(f.total_seconds as int),
    ]
}

/// The feature column names, in output order.
pub open spec fn feature_names_spec() -> Seq<Seq<u8>> {
    seq![
        "passenger_count".spec_bytes(),
        "trip_distance".spec_bytes(),
        "tolls_amount".spec_bytes(),
        "pickup_hour".spec_bytes(),
        "pickup_hour_sin".spec_bytes(),
        "pickup_hour_cos".spec_bytes(),
        "pickup_day".spec_bytes(),
        "pickup_day_sin".spec_bytes(),
        "pickup_day_cos".spec_bytes(),
        "total_seconds".spec_bytes(),
    ]
}

/// A row of `n` null cells.
pub open spec fn null_cells(n: int) -> Seq<CellValue> {
    Seq::new(n as nat, |i| CellValue::Null)
}

/// The weather cells attached to a row with join key `t`.
pub open spec fn weather_match_spec(w: WeatherTable, t: i64) -> Seq<CellValue> {
    match asof_index(w.time_ns@, t) {
        Some(j) => w.rows_view()[j],
        None => null_cells(w.names@.len() as int),
    }
}

/// One joined output row: the feature cells followed by the matched (or
/// null) weather cells.
pub open spec fn joined_row_spec(f: FeatureRow, w: WeatherTable) -> Seq<CellValue> {
    feature_cells_spec(f) + weather_match_spec(w, f.time)
}

/// Builds the feature column names.
pub fn feature_names() -> (out: Vec<Vec<u8>>)
    ensures
        out.deep_view() == feature_names_spec(),
{
    let mut out: Vec<Vec<u8>> = Vec::new();
    out.push(vstd::slice::slice_to_vec("passenger_count".as_bytes()));
    out.push(vstd::slice::slice_to_vec("trip_distance".as_bytes()));
    out.push(vstd::slice::slice_to_vec("tolls_amount".as_bytes()));
    out.push(vstd::slice::slice_to_vec("pickup_hour".as_bytes()));
    out.push(vstd::slice::slice_to_vec("pickup_hour_sin".as_bytes()));
    out.push(vstd::slice::slice_to_vec("pickup_hour_cos".as_bytes()));
    out.push(vstd::slice::slice_to_vec("pickup_day".as_bytes()));
    out.push(vstd::slice::slice_to_vec("pickup_day_sin".as_bytes()));
    out.push(vstd::slice::slice_to_vec("pickup_day_cos".as_bytes()));
    out.push(vstd::slice::slice_to_vec("total_seconds".as_bytes()));
    proof {
        assert(out.deep_view() =~~= feature_names_spec());
    }
    out
}

/// Builds the ten feature cells of one row.
fn feature_cells(f: &FeatureRow) -> (out: Vec<Cell>)
    ensures
        out.deep_view() == feature_cells_spec(*f),
{
    let mut out: Vec<Cell> = Vec::new();
    out.push(Cell::Real(f.passenger_count));
    out.push(Cell::Real(f.trip_distance));
    out.push(Cell::Real(f.tolls_amount));
    out.push(Cell::Int(f.pickup_hour as i64));
    out.push(Cell::Real(f.pickup_hour_sin));
    out.push(Cell::Real(f.pickup_hour_cos));
    out.push(Cell::Int(f.pickup_day as i64));
    out.push(Cell::Real(f.pickup_day_sin));
    out.push(Cell::Real(f.pickup_day_cos));
    out.push(Cell::Int(f.total_seconds));
    proof {
        assert(out.deep_view() =~= feature_cells_spec(*f));
    }
    out
}

/// Builds a row of `n` null cells.
fn null_row(n: usize) -> (out: Vec<Cell>)
    ensures
        out.deep_view() == null_cells(n as int),
{
    let mut out: Vec<Cell> = Vec::new();
    for i in 0..n
        invariant
            out@.len() == i,
            forall|j: int| 0 <= j < i ==> out@[j] == Cell::Null,
    {
        out.push(Cell::Null);
    }
    proof {
        assert(out.deep_view() =~= null_cells(n as int));
    }
    out
}

/// Finds the as-of match index for key `t` among the weather keys.
fn find_asof(keys: &Vec<i64>, t: i64) -> (best: Option<usize>)
    ensures
        best is None ==> asof_index(keys@, t) is None,
        best matches Some(b) ==> b < keys@.len() && asof_index(keys@, t) == Some(b as int),
{
    let mut best: Option<usize> = None;
    let m = keys.len();
    for k in 0..m
        invariant
            m == keys@.len(),
            best is None ==> asof_index(keys@.take(k as int), t) is None,
            best matches Some(b) ==> b < k && asof_index(keys@.take(k as int), t) == Some(
                b as int,
            ),
    {
        proof {
            assert(keys@.take(k + 1).drop_last() =~= keys@.take(k as int));
            assert(keys@.take(k + 1).last() == keys@[k as int]);
        }
        let key = keys[k];
        if key <= t {
            match best {
                Some(b) => {
                    if keys[b] <= key {
                        best = Some(k);
                    }
                },
                None => {
                    best = Some(k);
                },
            }
        }
    }
    proof {
        assert(keys@.take(m as int) =~= keys@);
    }
    best
}

/// Joins cleaned feature rows against the shared weather table by
/// nearest-preceding timestamp, dropping the two key columns.
pub fn asof_join(feats: &Vec<FeatureRow>, weather: &WeatherTable) -> (out: Table)
    requires
        weather.wf(),
    ensures
        out.wf(),
        out.names_view() == feature_names_spec() + weather.names_view(),
        out.rows_view().len() == feats@.len(),
        forall|i: int|
            0 <= i < feats@.len() ==> out.rows_view()[i] == joined_row_spec(
                feats@[i],
                *weather,
            ),
{
    let mut names = feature_names();
    proof {
        assert(names.deep_view().len() == names@.len());
        assert(feature_names_spec().len() == 10);
    }
    let wn = weather.names.len();
    for i in 0..wn
        invariant
            wn == weather.names@.len(),
            names@.len() == 10 + i,
            forall|j: int|
                0 <= j < 10 + i ==> (#[trigger] names@[j]).deep_view() == (feature_names_spec()
                    + weather.names_view())[j],
    {
        names.push(vstd::slice::slice_to_vec(weather.names[i].as_slice()));
        proof {
            assert(names@[10 + i as int].deep_view() =~= weather.names@[i as int].deep_view());
        }
    }
    proof {
        assert(names.deep_view() =~= feature_names_spec() + weather.names_view());
    }
    let mut rows: Vec<Vec<Cell>> = Vec::new();
    let n = feats.len();
    for i in 0..n
        invariant
            n == feats@.len(),
            weather.wf(),
            wn == weather.names@.len(),
            rows@.len() == i,
            forall|j: int|
                0 <= j < i ==> (#[trigger] rows@[j]).deep_view() == joined_row_spec(
                    feats@[j],
                    *weather,
                ),
            forall|j: int| 0 <= j < i ==> (#[trigger] rows@[j])@.len() == 10 + wn,
    {
        let f = feats[i];
        let mut row = feature_cells(&f);
        proof {
            assert(row.deep_view().len() == row@.len());
            assert(feature_cells_spec(f).len() == 10);
        }
        let matched = find_asof(&weather.time_ns, f.time);
        let tail = match matched {
            Some(j) => clone_cells(&weather.rows[j]),
            None => null_row(wn),
        };
        proof {
            assert(tail.deep_view() == weather_match_spec(*weather, f.time));
            assert(tail@.len() == wn);
        }
        let tail = tail;
        let tlen = tail.len();
        for q in 0..tlen
            invariant
                tlen == tail@.len(),
                tail.deep_view() == weather_match_spec(*weather, f.time),
                row@.len() == 10 + q,
                forall|j: int|
                    0 <= j < 10 + q ==> (#[trigger] row@[j]).deep_view() == (feature_cells_spec(f)
                        + tail.deep_view())[j],
        {
            row.push(tail[q].clone());
            proof {
                assert(row@[10 + q as int].deep_view() == tail.deep_view()[q as int]);
            }
        }
        proof {
            assert(row.deep_view() =~= feature_cells_spec(f) + tail.deep_view());
            assert(row.deep_view() == joined_row_spec(f, *weather));
        }
        rows.push(row);
    }
    let out = Table { names, rows };
    proof {
        assert(out.names_view() == feature_names_spec() + weather.names_view());
        assert(forall|i: int|
            0 <= i < feats@.len() ==> out.rows_view()[i] == joined_row_spec(
                feats@[i],
                *weather,
            ));
        assert(out.names@.len() == 10 + wn);
        assert(out.wf());
    }
    out
}

} // verus!
