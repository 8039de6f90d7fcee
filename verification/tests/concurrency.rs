use std::f64::consts::TAU;

use rayon::iter::{IntoParallelIterator, ParallelIterator};
use taxi_weather::cells::Cell;
use taxi_weather::cyclic::CyclicEncoder;
use taxi_weather::resolver::{cold_path, preproc, DatasetInput};
use taxi_weather::transform::TripRecord;
use taxi_weather::weather::WeatherTable;

const JAN1_2020_NS: i64 = 1_577_836_800 * 1_000_000_000;
const NS: i64 = 1_000_000_000;

fn encoder() -> CyclicEncoder {
    let mut hour_sin = Vec::new();
    let mut hour_cos = Vec::new();
    for h in 0..24u32 {
        let a = TAU * h as f64 / 24.0;
        hour_sin.push(a.sin().to_bits());
        hour_cos.push(a.cos().to_bits());
    }
    let mut day_sin = Vec::new();
    let mut day_cos = Vec::new();
    for d in 0..=366u32 {
        let a = TAU * d as f64 / 365.25;
        day_sin.push(a.sin().to_bits());
        day_cos.push(a.cos().to_bits());
    }
    CyclicEncoder { hour_sin, hour_cos, day_sin, day_cos }
}

fn dataset(name: &[u8], offset_hours: i64, trips: usize) -> DatasetInput {
    let mut rows = Vec::new();
    for k in 0..trips {
        let pickup = JAN1_2020_NS + (offset_hours * 3600 + k as i64 * 120) * NS;
        rows.push(TripRecord {
            pickup_ns: Some(pickup),
            dropoff_ns: Some(pickup + (300 + k as i64) * NS),
            passenger_count: Some((1.0 + k as f64).to_bits()),
            trip_distance: Some((0.5 * k as f64).to_bits()),
            tolls_amount: Some(0.0f64.to_bits()),
        });
    }
    DatasetInput { name: name.to_vec(), trips: rows }
}

fn shared_weather() -> WeatherTable {
    let mut time_ns = Vec::new();
    let mut rows = Vec::new();
    for h in 0..48i64 {
        time_ns.push(JAN1_2020_NS + h * 3600 * NS);
        rows.push(vec![Cell::Text(format!("{:.1}", h as f64 / 2.0).into_bytes())]);
    }
    WeatherTable { names: vec![b"temperature".to_vec()], time_ns, rows }
}

#[test]
fn concurrent_runs_match_the_sequential_driver() {
    let enc = encoder();
    let weather = shared_weather();
    let inputs = vec![
        dataset(b"Jan", 0, 40),
        dataset(b"Mar", 7, 35),
        dataset(b"May", 20, 50),
    ];

    let sequential = preproc(&inputs, &weather, &enc);
    assert_eq!(sequential.len(), inputs.len());

    // The same datasets resolved in parallel against the shared read-only
    // weather table.
    let parallel: Vec<_> = inputs
        .into_par_iter()
        .map(|input| {
            let t = cold_path(&input.trips, &weather, &enc);
            (input.name, t)
        })
        .collect();

    for (seq, (name, table)) in sequential.iter().zip(parallel.iter()) {
        assert_eq!(seq.name(), name);
        assert_eq!(seq.df(), table);
    }
}

#[test]
fn driver_returns_one_artifact_per_dataset() {
    let enc = encoder();
    let weather = shared_weather();
    let inputs = vec![dataset(b"Jan", 0, 3), dataset(b"Mar", 5, 0)];
    let outs = preproc(&inputs, &weather, &enc);
    assert_eq!(outs.len(), 2);
    assert_eq!(outs[0].name(), &b"Jan".to_vec());
    assert_eq!(outs[1].name(), &b"Mar".to_vec());
    assert_eq!(outs[0].df().rows.len(), 3);
    assert_eq!(outs[1].df().rows.len(), 0);
}
