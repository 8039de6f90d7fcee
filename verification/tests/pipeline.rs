use std::f64::consts::TAU;

use taxi_weather::cells::Cell;
use taxi_weather::cyclic::CyclicEncoder;
use taxi_weather::join::asof_join;
use taxi_weather::transform::{clean, TripRecord};
use taxi_weather::weather::{scan_csv, WeatherTable};

const JAN1_2020_NS: i64 = 1_577_836_800 * 1_000_000_000;
const NS: i64 = 1_000_000_000;

/// The cyclical encoding convention used by tests and the application:
/// period 24 for hours, period 365.25 for ordinal days.
fn encoder() -> CyclicEncoder {
    let mut hour_sin = Vec::new();
    let mut hour_cos = Vec::new();
    for h in 0..24u32 {
        let a = TAU * h as f64 / 24.0;
        hour_sin.push(a.sin().to_bits());
        hour_cos.push(a.cos().to_bits());
    }
    let mut day_sin = Vec::new();
    let mut day_cos = Vec::new();
    for d in 0..=366u32 {
        let a = TAU * d as f64 / 365.25;
        day_sin.push(a.sin().to_bits());
        day_cos.push(a.cos().to_bits());
    }
    CyclicEncoder { hour_sin, hour_cos, day_sin, day_cos }
}

fn trip(pickup: i64, dropoff: i64) -> TripRecord {
    TripRecord {
        pickup_ns: Some(pickup),
        dropoff_ns: Some(dropoff),
        passenger_count: Some(1.0f64.to_bits()),
        trip_distance: Some(2.0f64.to_bits()),
        tolls_amount: Some(0.0f64.to_bits()),
    }
}

#[test]
fn trig_identity_of_cyclical_encoding() {
    let enc = encoder();
    for h in 0..24 {
        let s = f64::from_bits(enc.hour_sin[h]);
        let c = f64::from_bits(enc.hour_cos[h]);
        assert!((s * s + c * c - 1.0).abs() < 1e-9);
    }
    for d in 1..=366 {
        let s = f64::from_bits(enc.day_sin[d]);
        let c = f64::from_bits(enc.day_cos[d]);
        assert!((s * s + c * c - 1.0).abs() < 1e-9);
    }
}

#[test]
fn clean_keeps_only_durations_strictly_inside_bounds() {
    let enc = encoder();
    let trips = vec![
        trip(JAN1_2020_NS, JAN1_2020_NS + 600 * NS),   // 600 s: kept
        trip(JAN1_2020_NS, JAN1_2020_NS),              // 0 s: dropped
        trip(JAN1_2020_NS, JAN1_2020_NS + 36_000 * NS), // 36000 s: dropped
        trip(JAN1_2020_NS, JAN1_2020_NS + 35_999 * NS), // 35999 s: kept
        trip(JAN1_2020_NS + 600 * NS, JAN1_2020_NS),   // negative: dropped
        trip(JAN1_2020_NS, JAN1_2020_NS + 999_999_999), // under one second: dropped
    ];
    let out = clean(&trips, &enc);
    assert_eq!(out.len(), 2);
    for row in &out {
        assert!(0 < row.total_seconds && row.total_seconds < 36_000);
    }
    assert_eq!(out[0].total_seconds, 600);
    assert_eq!(out[1].total_seconds, 35_999);
}

#[test]
fn clean_drops_null_and_nan_rows() {
    let enc = encoder();
    let mut null_pc = trip(JAN1_2020_NS, JAN1_2020_NS + 600 * NS);
    null_pc.passenger_count = None;
    let mut nan_dist = trip(JAN1_2020_NS, JAN1_2020_NS + 600 * NS);
    nan_dist.trip_distance = Some(f64::NAN.to_bits());
    let trips = vec![null_pc, nan_dist, trip(JAN1_2020_NS, JAN1_2020_NS + 600 * NS)];
    let out = clean(&trips, &enc);
    assert_eq!(out.len(), 1);
}

#[test]
fn clean_derives_hour_and_day_features() {
    let enc = encoder();
    // 2020-03-01T13:00:00, duration 20 minutes
    let pickup = JAN1_2020_NS + ((31 + 29) * 86_400 + 13 * 3600) * NS;
    let out = clean(&vec![trip(pickup, pickup + 1200 * NS)], &enc);
    assert_eq!(out.len(), 1);
    assert_eq!(out[0].pickup_hour, 13);
    assert_eq!(out[0].pickup_day, 61);
    assert_eq!(out[0].pickup_hour_sin, enc.hour_sin[13]);
    assert_eq!(out[0].pickup_hour_cos, enc.hour_cos[13]);
    assert_eq!(out[0].pickup_day_sin, enc.day_sin[61]);
    assert_eq!(out[0].pickup_day_cos, enc.day_cos[61]);
    assert_eq!(out[0].time, pickup);
}

fn weather_with_keys(keys: &[i64]) -> WeatherTable {
    let names = vec![b"marker".to_vec()];
    let rows = keys
        .iter()
        .map(|k| vec![Cell::Int(*k)])
        .collect::<Vec<_>>();
    WeatherTable { names, time_ns: keys.to_vec(), rows }
}

#[test]
fn asof_join_attaches_nearest_preceding_observation() {
    let enc = encoder();
    let w = weather_with_keys(&[100 * NS, 200 * NS, 300 * NS]);
    let trips = vec![trip(250 * NS, 250 * NS + 600 * NS)];
    let feats = clean(&trips, &enc);
    let t = asof_join(&feats, &w);
    assert_eq!(t.rows.len(), 1);
    // ten feature cells, then the matched weather cell
    assert_eq!(t.rows[0].len(), 11);
    assert_eq!(t.rows[0][10], Cell::Int(200 * NS));
}

#[test]
fn asof_join_ties_take_the_last_right_row() {
    let enc = encoder();
    let names = vec![b"marker".to_vec()];
    let w = WeatherTable {
        names,
        time_ns: vec![100 * NS, 200 * NS, 200 * NS, 300 * NS],
        rows: vec![
            vec![Cell::Int(0)],
            vec![Cell::Int(1)],
            vec![Cell::Int(2)],
            vec![Cell::Int(3)],
        ],
    };
    let feats = clean(&vec![trip(250 * NS, 250 * NS + 600 * NS)], &enc);
    let t = asof_join(&feats, &w);
    assert_eq!(t.rows[0][10], Cell::Int(2));
}

#[test]
fn asof_join_with_no_preceding_observation_yields_nulls() {
    let enc = encoder();
    let w = weather_with_keys(&[400 * NS, 500 * NS]);
    let feats = clean(&vec![trip(250 * NS, 250 * NS + 600 * NS)], &enc);
    let t = asof_join(&feats, &w);
    assert_eq!(t.rows[0][10], Cell::Null);
}

#[test]
fn joined_table_drops_key_columns_and_keeps_names() {
    let enc = encoder();
    let w = weather_with_keys(&[100 * NS]);
    let feats = clean(&vec![trip(250 * NS, 250 * NS + 600 * NS)], &enc);
    let t = asof_join(&feats, &w);
    let names: Vec<&[u8]> = t.names.iter().map(|n| n.as_slice()).collect();
    assert_eq!(
        names,
        vec![
            b"passenger_count".as_slice(),
            b"trip_distance".as_slice(),
            b"tolls_amount".as_slice(),
            b"pickup_hour".as_slice(),
            b"pickup_hour_sin".as_slice(),
            b"pickup_hour_cos".as_slice(),
            b"pickup_day".as_slice(),
            b"pickup_day_sin".as_slice(),
            b"pickup_day_cos".as_slice(),
            b"total_seconds".as_slice(),
            b"marker".as_slice(),
        ]
    );
    assert!(!t.names.iter().any(|n| n == b"time" || n == b"time_ns"));
}

#[test]
fn end_to_end_single_trip_with_weather() {
    let enc = encoder();
    // weather observation at 2020-01-01T00:00 with temperature 5.0
    let csv = b"time,temperature\n2020-01-01T00:00,5.0\n".to_vec();
    let w = scan_csv(&csv).expect("weather parses");
    assert_eq!(w.names, vec![b"temperature".to_vec()]);
    assert_eq!(w.time_ns, vec![JAN1_2020_NS]);

    let trips = vec![trip(JAN1_2020_NS, JAN1_2020_NS + 600 * NS)];
    let feats = clean(&trips, &enc);
    let t = asof_join(&feats, &w);
    assert_eq!(t.rows.len(), 1);
    let row = &t.rows[0];
    assert_eq!(row[3], Cell::Int(0)); // pickup_hour
    assert_eq!(row[4], Cell::Real(0.0f64.to_bits())); // pickup_hour_sin
    assert_eq!(row[5], Cell::Real(1.0f64.to_bits())); // pickup_hour_cos
    assert_eq!(row[9], Cell::Int(600)); // total_seconds
    assert_eq!(row[10], Cell::Text(b"5.0".to_vec())); // temperature
}

#[test]
fn scan_csv_requires_the_time_column() {
    let csv = b"temp,wind\n1.0,2.0\n".to_vec();
    assert!(scan_csv(&csv).is_err());
}

#[test]
fn scan_csv_rejects_ragged_rows_and_bad_timestamps() {
    let ragged = b"time,temp\n2020-01-01T00:00,1.0,extra\n".to_vec();
    assert!(scan_csv(&ragged).is_err());
    let bad_ts = b"time,temp\nyesterday,1.0\n".to_vec();
    assert!(scan_csv(&bad_ts).is_err());
}

#[test]
fn scan_csv_skips_blank_lines_and_handles_crlf() {
    let csv = b"time,temp\r\n2020-01-01T00:00,1.5\r\n\r\n".to_vec();
    let w = scan_csv(&csv).expect("weather parses");
    assert_eq!(w.time_ns.len(), 1);
    assert_eq!(w.rows[0][0], Cell::Text(b"1.5".to_vec()));
}

#[test]
fn scan_csv_reads_empty_measurements_as_null() {
    let csv = b"time,temp,wind\n2020-01-01T00:00,,3.2\n".to_vec();
    let w = scan_csv(&csv).expect("weather parses");
    assert_eq!(w.rows[0][0], Cell::Null);
    assert_eq!(w.rows[0][1], Cell::Text(b"3.2".to_vec()));
}
