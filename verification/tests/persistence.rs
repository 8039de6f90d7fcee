use std::f64::consts::TAU;

use taxi_weather::cells::Cell;
use taxi_weather::cyclic::CyclicEncoder;
use taxi_weather::errors::PipelineError;
use taxi_weather::persist::{artifact_path, decode_table, encode_table, load_csv, save_csv};
use taxi_weather::resolver::{
    cold_path, probe_for, CacheProbe, CacheResolver, RawData, ResolveStep,
};
use taxi_weather::table::{NamedData, Table};
use taxi_weather::transform::TripRecord;
use taxi_weather::weather::WeatherTable;
use taxi_weather::Args;

const JAN1_2020_NS: i64 = 1_577_836_800 * 1_000_000_000;
const NS: i64 = 1_000_000_000;

fn encoder() -> CyclicEncoder {
    let mut hour_sin = Vec::new();
    let mut hour_cos = Vec::new();
    for h in 0..24u32 {
        let a = TAU * h as f64 / 24.0;
        hour_sin.push(a.sin().to_bits());
        hour_cos.push(a.cos().to_bits());
    }
    let mut day_sin = Vec::new();
    let mut day_cos = Vec::new();
    for d in 0..=366u32 {
        let a = TAU * d as f64 / 365.25;
        day_sin.push(a.sin().to_bits());
        day_cos.push(a.cos().to_bits());
    }
    CyclicEncoder { hour_sin, hour_cos, day_sin, day_cos }
}

fn trip(pickup: i64, dropoff: i64) -> TripRecord {
    TripRecord {
        pickup_ns: Some(pickup),
        dropoff_ns: Some(dropoff),
        passenger_count: Some(1.0f64.to_bits()),
        trip_distance: Some(2.5f64.to_bits()),
        tolls_amount: Some(0.0f64.to_bits()),
    }
}

fn sample_weather() -> WeatherTable {
    WeatherTable {
        names: vec![b"temperature".to_vec(), b"wind".to_vec()],
        time_ns: vec![JAN1_2020_NS, JAN1_2020_NS + 3600 * NS],
        rows: vec![
            vec![Cell::Text(b"5.0".to_vec()), Cell::Null],
            vec![Cell::Text(b"6.5".to_vec()), Cell::Text(b"12.0".to_vec())],
        ],
    }
}

fn sample_trips() -> Vec<TripRecord> {
    vec![
        trip(JAN1_2020_NS, JAN1_2020_NS + 600 * NS),
        trip(JAN1_2020_NS + 4000 * NS, JAN1_2020_NS + 5000 * NS),
    ]
}

fn sample_table() -> Table {
    Table {
        names: vec![b"alpha".to_vec(), b"strange, name\n".to_vec()],
        rows: vec![
            vec![Cell::Int(-42), Cell::Text(b"a,b\\c\nd\r".to_vec())],
            vec![Cell::Null, Cell::Real(3.25f64.to_bits())],
            vec![Cell::Int(i64::MIN), Cell::Int(i64::MAX)],
        ],
    }
}

#[test]
fn round_trip_reproduces_table_exactly() {
    let t = sample_table();
    let bytes = encode_table(&t);
    let back = decode_table(&bytes).expect("decodes");
    assert_eq!(back, t);
}

#[test]
fn round_trip_of_empty_and_single_cell_tables() {
    let empty_rows = Table { names: vec![b"only".to_vec()], rows: vec![] };
    let bytes = encode_table(&empty_rows);
    assert_eq!(decode_table(&bytes).expect("decodes"), empty_rows);

    let one_null = Table { names: vec![b"c".to_vec()], rows: vec![vec![Cell::Null]] };
    let bytes = encode_table(&one_null);
    assert_eq!(decode_table(&bytes).expect("decodes"), one_null);
}

#[test]
fn cold_path_is_byte_for_byte_idempotent() {
    let enc = encoder();
    let w = sample_weather();
    let trips = sample_trips();
    let t1 = cold_path(&trips, &w, &enc);
    let t2 = cold_path(&trips, &w, &enc);
    let a1 = NamedData::new(b"Jan".to_vec(), t1);
    let a2 = NamedData::new(b"Jan".to_vec(), t2);
    let (p1, b1) = save_csv(&a1);
    let (p2, b2) = save_csv(&a2);
    assert_eq!(p1, p2);
    assert_eq!(b1, b2);
}

#[test]
fn artifact_path_is_canonical() {
    let p = artifact_path(&b"Jan".to_vec());
    assert_eq!(p, b"db/record/taxi_weather-Jan.csv".to_vec());
}

#[test]
fn load_csv_reports_corruption_on_garbage() {
    let r = load_csv(&b"definitely not an artifact".to_vec(), b"Jan".to_vec());
    assert_eq!(r.unwrap_err(), PipelineError::CacheCorruption);
    let r = load_csv(&b"".to_vec(), b"Jan".to_vec());
    assert_eq!(r.unwrap_err(), PipelineError::CacheCorruption);
}

#[test]
fn load_csv_reports_corruption_on_truncated_artifact() {
    let t = sample_table();
    let mut bytes = encode_table(&t);
    bytes.truncate(bytes.len() - 3);
    let r = load_csv(&bytes, b"Jan".to_vec());
    assert_eq!(r.unwrap_err(), PipelineError::CacheCorruption);
}

/// Drives one dataset through the resolver, counting raw-source reads.
/// `disk` mimics the artifact file at the probe path.
fn resolve(
    rebuild: bool,
    disk: &mut Option<Vec<u8>>,
    trips: &Vec<TripRecord>,
    weather: &WeatherTable,
    enc: &CyclicEncoder,
    raw_reads: &mut usize,
) -> Result<NamedData, PipelineError> {
    let probe = probe_for(&b"Jan".to_vec(), disk.is_some());
    let mut resolver = CacheResolver::new(b"Jan".to_vec(), probe, rebuild);
    let mut step = resolver.start();
    loop {
        step = match step {
            ResolveStep::LoadArtifact => resolver.on_artifact(disk.clone()),
            ResolveStep::FetchRaw => {
                *raw_reads += 1;
                resolver.on_raw(Some(trips.clone()), weather, enc)
            }
            ResolveStep::Persist(bytes) => {
                *disk = Some(bytes);
                resolver.on_persist(true)
            }
            ResolveStep::Finish(d) => return Ok(d),
            ResolveStep::Fail(e) => return Err(e),
        };
    }
}

#[test]
fn warm_path_equals_cold_path_without_touching_raw_sources() {
    let enc = encoder();
    let w = sample_weather();
    let trips = sample_trips();

    // Cold run populates the artifact.
    let mut disk = None;
    let mut cold_reads = 0;
    let cold = resolve(false, &mut disk, &trips, &w, &enc, &mut cold_reads).expect("cold run");
    assert_eq!(cold_reads, 1);
    assert!(disk.is_some());

    // Warm run: same table, zero raw reads.
    let mut warm_reads = 0;
    let warm = resolve(false, &mut disk, &trips, &w, &enc, &mut warm_reads).expect("warm run");
    assert_eq!(warm_reads, 0);
    assert_eq!(warm.df(), cold.df());
    assert_eq!(warm.name(), cold.name());
}

#[test]
fn rebuild_flag_forces_the_cold_path() {
    let enc = encoder();
    let w = sample_weather();
    let trips = sample_trips();
    let mut disk = None;
    let mut reads = 0;
    resolve(false, &mut disk, &trips, &w, &enc, &mut reads).expect("first run");
    resolve(true, &mut disk, &trips, &w, &enc, &mut reads).expect("rebuild run");
    assert_eq!(reads, 2);
}

#[test]
fn corrupted_artifact_self_heals_and_next_warm_read_succeeds() {
    let enc = encoder();
    let w = sample_weather();
    let trips = sample_trips();

    let mut disk = Some(b"corrupted beyond repair".to_vec());
    let mut reads = 0;
    let healed = resolve(false, &mut disk, &trips, &w, &enc, &mut reads).expect("self-heal");
    // Fallback recomputed from raw and overwrote the artifact.
    assert_eq!(reads, 1);
    let expected = cold_path(&trips, &w, &enc);
    assert_eq!(healed.df(), &expected);

    // The replacement artifact is valid: the next warm read succeeds.
    let mut warm_reads = 0;
    let warm = resolve(false, &mut disk, &trips, &w, &enc, &mut warm_reads).expect("warm run");
    assert_eq!(warm_reads, 0);
    assert_eq!(warm.df(), &expected);
}

#[test]
fn schema_failure_is_isolated_to_the_dataset() {
    let enc = encoder();
    let w = sample_weather();
    let probe = probe_for(&b"Jan".to_vec(), false);
    let mut resolver = CacheResolver::new(b"Jan".to_vec(), probe, false);
    let step = resolver.start();
    assert!(matches!(step, ResolveStep::FetchRaw));
    let step = resolver.on_raw(None, &w, &enc);
    match step {
        ResolveStep::Fail(e) => assert_eq!(e, PipelineError::Schema),
        _ => panic!("expected a schema failure"),
    }
}

#[test]
fn failed_persist_surfaces_as_io_error() {
    let enc = encoder();
    let w = sample_weather();
    let trips = sample_trips();
    let probe = probe_for(&b"Jan".to_vec(), false);
    let mut resolver = CacheResolver::new(b"Jan".to_vec(), probe, false);
    let step = resolver.start();
    assert!(matches!(step, ResolveStep::FetchRaw));
    let step = resolver.on_raw(Some(trips), &w, &enc);
    assert!(matches!(step, ResolveStep::Persist(_)));
    let step = resolver.on_persist(false);
    match step {
        ResolveStep::Fail(e) => assert_eq!(e, PipelineError::Io),
        _ => panic!("expected an I/O failure"),
    }
}

#[test]
fn probe_points_at_the_canonical_path() {
    let p: CacheProbe = probe_for(&b"May".to_vec(), true);
    assert!(p.exists);
    assert_eq!(p.path, b"db/record/taxi_weather-May.csv".to_vec());
}

#[test]
fn raw_data_keeps_name_and_source() {
    let d = RawData::new(b"Jan".to_vec(), b"db/raw/trips.parquet".to_vec());
    assert_eq!(d.name, b"Jan".to_vec());
    assert_eq!(d.ent, b"db/raw/trips.parquet".to_vec());
}

#[test]
fn args_report_the_rebuild_flag() {
    assert!(Args::new(true).rebuild());
    assert!(!Args::new(false).rebuild());
}

#[test]
fn round_trip_preserves_nan_bits_exactly() {
    let bits = f64::NAN.to_bits();
    let t = Table { names: vec![b"v".to_vec()], rows: vec![vec![Cell::Real(bits)]] };
    let back = decode_table(&encode_table(&t)).expect("decodes");
    assert_eq!(back.rows[0][0], Cell::Real(bits));
}

#[test]
fn decode_rejects_a_row_with_the_wrong_cell_count() {
    let t = Table {
        names: vec![b"a".to_vec(), b"b".to_vec()],
        rows: vec![vec![Cell::Int(1), Cell::Int(2)]],
    };
    let mut bytes = encode_table(&t);
    // Append one extra encoded null cell (a bare comma) to the row line.
    let last = bytes.pop().unwrap();
    assert_eq!(last, b'\n');
    bytes.push(b',');
    bytes.push(b'\n');
    assert!(decode_table(&bytes).is_none());
}
