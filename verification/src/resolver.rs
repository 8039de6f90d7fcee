//! Cache resolution and the pipeline driver.
//!
//! For each dataset the resolver decides between the cold path (recompute
//! from raw records, then persist) and the warm path (load the persisted
//! artifact), falling back to the cold path transparently when a persisted
//! artifact turns out to be unreadable. The resolver is a small state
//! machine: it never performs I/O itself, it tells its caller which step to
//! perform next and consumes the step's outcome, so a warm hit provably
//! never asks for the raw source.

use vstd::prelude::*;

use crate::cells::CellValue;
use crate::cyclic::CyclicEncoder;
use crate::errors::PipelineError;
use crate::join::{asof_join, feature_names_spec, joined_row_spec};
use crate::persist::{
    artifact_path, artifact_path_spec, cell_wf, decode_table_spec, encode_table,
    encode_table_spec, lemma_table_round_trip, load_csv, table_enc_wf,
};
use crate::table::{NamedData, Table};
use crate::transform::{clean, clean_spec, TripRecord};
use crate::weather::WeatherTable;

verus! {

/// The cache probe of one dataset: whether its canonical artifact path
/// existed at pipeline start, and that path. Computed once, never mutated.
#[derive(Debug, Clone, PartialEq, Eq)]
pub struct CacheProbe {
    pub exists: bool,
    pub path: Vec<u8>,
}

/// One raw taxi dataset: a unique human-readable name (the cache key and
/// chart label) and the path of its raw source.
#[derive(Debug, Clone, PartialEq, Eq)]
pub struct RawData {
    pub name: Vec<u8>,
    pub ent: Vec<u8>,
}

impl RawData {
    pub fn new(name: Vec<u8>, ent: Vec<u8>) -> (d: RawData)
        ensures
            d.name@ == name@,
            d.ent@ == ent@,
    {
        RawData { name, ent }
    }
}

/// The column names a cold run produces: the feature columns, then the
/// weather measurement columns.
pub open spec fn cold_names_spec(w: WeatherTable) -> Seq<Seq<u8>> {
    feature_names_spec() + w.names_view()
}

/// The rows a cold run produces: every valid trip record, cleaned and
/// joined against its nearest preceding weather observation.
pub open spec fn cold_rows_spec(
    trips: Seq<TripRecord>,
    w: WeatherTable,
    enc: CyclicEncoder,
) -> Seq<Seq<CellValue>> {
    Seq::new(
        clean_spec(trips, enc).len(),
        |i: int| joined_row_spec(clean_spec(trips, enc)[i], w),
    )
}

/// Runs the cold-path computation: clean, then join. Pure; persisting the
/// result is a separate step.
pub fn cold_path(trips: &Vec<TripRecord>, weather: &WeatherTable, enc: &CyclicEncoder) -> (t:
    Table)
    requires
        weather.wf(),
        enc.wf(),
    ensures
        t.wf(),
        t.names_view() == cold_names_spec(*weather),
        t.rows_view() == cold_rows_spec(trips@, *weather, *enc),
{
    let feats = clean(trips, enc);
    let t = asof_join(&feats, weather);
    proof {
        assert(t.rows_view() =~= cold_rows_spec(trips@, *weather, *enc));
    }
    t
}

/// A cold-path table is always encodable: rectangular, with every cell
/// representable.
pub proof fn lemma_cold_table_enc_wf(trips: Seq<TripRecord>, w: WeatherTable, enc: CyclicEncoder)
    requires
        w.wf(),
    ensures
        table_enc_wf(cold_names_spec(w), cold_rows_spec(trips, w, enc)),
{
    let names = cold_names_spec(w);
    let rows = cold_rows_spec(trips, w, enc);
    assert forall|i: int| 0 <= i < rows.len() implies (#[trigger] rows[i]).len()
        == names.len() by {
        let f = clean_spec(trips, enc)[i];
        match crate::join::asof_index(w.time_ns@, f.time) {
            Some(j) => {
                assert(0 <= j < w.rows@.len()) by {
                    crate::join::lemma_asof_nearest_preceding(w.time_ns@, f.time);
                }
                assert(w.rows_view()[j].len() == w.rows@[j]@.len());
            },
            None => {},
        }
    }
    assert forall|i: int, j: int|
        0 <= i < rows.len() && 0 <= j < rows[i].len() implies cell_wf(
        #[trigger] rows[i][j],
    ) by {
        let f = clean_spec(trips, enc)[i];
        if j >= 10 {
            match crate::join::asof_index(w.time_ns@, f.time) {
                Some(k) => {
                    assert(0 <= k < w.rows@.len()) by {
                        crate::join::lemma_asof_nearest_preceding(w.time_ns@, f.time);
                    }
                    let cell = w.rows@[k]@[j - 10];
                    assert(rows[i][j] == cell.deep_view());
                },
                None => {},
            }
        }
    }
}

/// Cache correctness and self-healing both rest on this: the artifact that
/// a cold run persists decodes back to exactly the cold run's table, so a
/// warm read of a valid artifact equals the recomputation it skips, and a
/// rebuilt artifact is readable on the next warm pass.
pub proof fn lemma_warm_equals_cold(trips: Seq<TripRecord>, w: WeatherTable, enc: CyclicEncoder)
    requires
        w.wf(),
    ensures
        decode_table_spec(encode_table_spec(cold_names_spec(w), cold_rows_spec(trips, w, enc)))
            == Some((cold_names_spec(w), cold_rows_spec(trips, w, enc))),
{
    lemma_cold_table_enc_wf(trips, w, enc);
    lemma_table_round_trip(cold_names_spec(w), cold_rows_spec(trips, w, enc));
}

/// Cold runs are deterministic: any two tables that satisfy the cold-path
/// contract for the same inputs persist to byte-identical artifacts.
pub proof fn lemma_cold_path_idempotent(
    t1: Table,
    t2: Table,
    trips: Seq<TripRecord>,
    w: WeatherTable,
    enc: CyclicEncoder,
)
    requires
        t1.names_view() == cold_names_spec(w),
        t1.rows_view() == cold_rows_spec(trips, w, enc),
        t2.names_view() == cold_names_spec(w),
        t2.rows_view() == cold_rows_spec(trips, w, enc),
    ensures
        encode_table_spec(t1.names_view(), t1.rows_view()) == encode_table_spec(
            t2.names_view(),
            t2.rows_view(),
        ),
{
}

/// What the resolver asks its caller to do next.
pub enum ResolveStep {
    /// Read the artifact bytes at the probe path and report them (or their
    /// absence) through `on_artifact`.
    LoadArtifact,
    /// Read the raw trip records of the dataset and report them (or a
    /// schema failure) through `on_raw`.
    FetchRaw,
    /// Write these bytes at the probe path, replacing any previous file,
    /// and report the outcome through `on_persist`.
    Persist(Vec<u8>),
    /// The dataset is resolved.
    Finish(NamedData),
    /// The dataset failed; its error names the stage.
    Fail(PipelineError),
}

/// Where the resolver stands in its protocol.
#[derive(Debug, Clone, Copy, PartialEq, Eq, Structural)]
pub enum ResolverState {
    Start,
    AwaitingArtifact,
    AwaitingRaw,
    AwaitingPersist,
    Done,
}

/// The per-dataset cache resolver.
pub struct CacheResolver {
    name: Vec<u8>,
    probe: CacheProbe,
    rebuild: bool,
    state: ResolverState,
    pending: Option<NamedData>,
}

impl CacheResolver {
    pub closed spec fn spec_name(&self) -> Seq<u8> {
        self.name@
    }

    pub closed spec fn spec_probe_exists(&self) -> bool {
        self.probe.exists
    }

    pub closed spec fn spec_rebuild(&self) -> bool {
        self.rebuild
    }

    pub closed spec fn spec_state(&self) -> ResolverState {
        self.state
    }

    /// The cold table computed while awaiting persistence.
    pub closed spec fn spec_pending(&self) -> Option<NamedData> {
        self.pending
    }

    pub fn new(name: Vec<u8>, probe: CacheProbe, rebuild: bool) -> (r: CacheResolver)
        ensures
            r.spec_name() == name@,
            r.spec_probe_exists() == probe.exists,
            r.spec_rebuild() == rebuild,
            r.spec_state() == ResolverState::Start,
    {
        CacheResolver { name, probe, rebuild, state: ResolverState::Start, pending: None }
    }

    /// Decides the first step: a rebuild run, or a missing artifact, goes
    /// cold; an existing artifact is tried warm.
    pub fn start(&mut self) -> (step: ResolveStep)
        requires
            old(self).spec_state() == ResolverState::Start,
        ensures
            final(self).spec_name() == old(self).spec_name(),
            final(self).spec_rebuild() == old(self).spec_rebuild(),
            final(self).spec_probe_exists() == old(self).spec_probe_exists(),
            if old(self).spec_rebuild() || !old(self).spec_probe_exists() {
                step is FetchRaw && final(self).spec_state() == ResolverState::AwaitingRaw
            } else {
                step is LoadArtifact && final(self).spec_state()
                    == ResolverState::AwaitingArtifact
            },
    {
        if self.rebuild || !self.probe.exists {
            self.state = ResolverState::AwaitingRaw;
            ResolveStep::FetchRaw
        } else {
            self.state = ResolverState::AwaitingArtifact;
            ResolveStep::LoadArtifact
        }
    }

    /// Consumes the warm read's outcome. A decodable artifact finishes the
    /// dataset without ever touching the raw source; an unreadable or
    /// missing one falls back to the cold path (self-healing), never to a
    /// failure.
    pub fn on_artifact(&mut self, bytes: Option<Vec<u8>>) -> (step: ResolveStep)
        requires
            old(self).spec_state() == ResolverState::AwaitingArtifact,
        ensures
            final(self).spec_name() == old(self).spec_name(),
            final(self).spec_rebuild() == old(self).spec_rebuild(),
            final(self).spec_probe_exists() == old(self).spec_probe_exists(),
            match bytes {
                Some(b) => match decode_table_spec(b@) {
                    Some(nr) => {
                        &&& final(self).spec_state() == ResolverState::Done
                        &&& step matches ResolveStep::Finish(d) && d.spec_name() == old(
                            self,
                        ).spec_name() && d.spec_df().names_view() == nr.0
                            && d.spec_df().rows_view() == nr.1 && d.spec_df().wf()
                    },
                    None => step is FetchRaw && final(self).spec_state()
                        == ResolverState::AwaitingRaw,
                },
                None => step is FetchRaw && final(self).spec_state()
                    == ResolverState::AwaitingRaw,
            },
    {
        match bytes {
            Some(b) => {
                let name = vstd::slice::slice_to_vec(self.name.as_slice());
                match load_csv(&b, name) {
                    Ok(d) => {
                        self.state = ResolverState::Done;
                        ResolveStep::Finish(d)
                    },
                    Err(_) => {
                        self.state = ResolverState::AwaitingRaw;
                        ResolveStep::FetchRaw
                    },
                }
            },
            None => {
                self.state = ResolverState::AwaitingRaw;
                ResolveStep::FetchRaw
            },
        }
    }

    /// Consumes the raw read's outcome: computes the cold table and asks
    /// for it to be persisted, or reports the dataset's schema failure.
    pub fn on_raw(
        &mut self,
        trips: Option<Vec<TripRecord>>,
        weather: &WeatherTable,
        enc: &CyclicEncoder,
    ) -> (step: ResolveStep)
        requires
            old(self).spec_state() == ResolverState::AwaitingRaw,
            weather.wf(),
            enc.wf(),
        ensures
            final(self).spec_name() == old(self).spec_name(),
            match trips {
                Some(tr) => {
                    &&& final(self).spec_state() == ResolverState::AwaitingPersist
                    &&& step matches ResolveStep::Persist(b) && b@ == encode_table_spec(
                        cold_names_spec(*weather),
                        cold_rows_spec(tr@, *weather, *enc),
                    )
                    &&& final(self).spec_pending() matches Some(d) && d.spec_name() == old(
                        self,
                    ).spec_name() && d.spec_df().names_view() == cold_names_spec(*weather)
                        && d.spec_df().rows_view() == cold_rows_spec(tr@, *weather, *enc)
                        && d.spec_df().wf()
                },
                None => final(self).spec_state() == ResolverState::Done && (step matches
                    ResolveStep::Fail(e) && e == PipelineError::Schema),
            },
    {
        match trips {
            Some(tr) => {
                let t = cold_path(&tr, weather, enc);
                let bytes = encode_table(&t);
                let name = vstd::slice::slice_to_vec(self.name.as_slice());
                self.pending = Some(NamedData::new(name, t));
                self.state = ResolverState::AwaitingPersist;
                ResolveStep::Persist(bytes)
            },
            None => {
                self.state = ResolverState::Done;
                ResolveStep::Fail(PipelineError::Schema)
            },
        }
    }

    /// Consumes the persist outcome: a successful write finishes with the
    /// cold table; a failed write surfaces as an I/O failure.
    pub fn on_persist(&mut self, ok: bool) -> (step: ResolveStep)
        requires
            old(self).spec_state() == ResolverState::AwaitingPersist,
            old(self).spec_pending() is Some,
        ensures
            final(self).spec_state() == ResolverState::Done,
            if ok {
                step matches ResolveStep::Finish(d) && Some(d) == old(self).spec_pending()
            } else {
                step matches ResolveStep::Fail(e) && e == PipelineError::Io
            },
    {
        self.state = ResolverState::Done;
        if ok {
            let d = self.pending.take().unwrap();
            ResolveStep::Finish(d)
        } else {
            ResolveStep::Fail(PipelineError::Io)
        }
    }
}

/// One dataset's pre-fetched inputs for a batch cold run.
pub struct DatasetInput {
    pub name: Vec<u8>,
    pub trips: Vec<TripRecord>,
}

/// Runs the cold path for a whole batch of datasets against the shared
/// read-only weather table.
///
/// Each output is a function of its own dataset and the weather table
/// alone — no output depends on any other dataset — so resolving the
/// datasets concurrently yields exactly the results of this sequential
/// run. The result holds one artifact per requested dataset, in request
/// order; callers that run concurrently key on the name.
pub fn preproc(inputs: &Vec<DatasetInput>, weather: &WeatherTable, enc: &CyclicEncoder) -> (outs:
    Vec<NamedData>)
    requires
        weather.wf(),
        enc.wf(),
    ensures
        outs@.len() == inputs@.len(),
        forall|i: int|
            0 <= i < inputs@.len() ==> {
                &&& (#[trigger] outs@[i]).spec_name() == inputs@[i].name@
                &&& outs@[i].spec_df().names_view() == cold_names_spec(*weather)
                &&& outs@[i].spec_df().rows_view() == cold_rows_spec(
                    inputs@[i].trips@,
                    *weather,
                    *enc,
                )
            },
{
    let mut outs: Vec<NamedData> = Vec::new();
    let n = inputs.len();
    for i in 0..n
        invariant
            n == inputs@.len(),
            weather.wf(),
            enc.wf(),
            outs@.len() == i,
            forall|j: int|
                0 <= j < i ==> {
                    &&& (#[trigger] outs@[j]).spec_name() == inputs@[j].name@
                    &&& outs@[j].spec_df().names_view() == cold_names_spec(*weather)
                    &&& outs@[j].spec_df().rows_view() == cold_rows_spec(
                        inputs@[j].trips@,
                        *weather,
                        *enc,
                    )
                },
    {
        let t = cold_path(&inputs[i].trips, weather, enc);
        let name = vstd::slice::slice_to_vec(inputs[i].name.as_slice());
        outs.push(NamedData::new(name, t));
    }
    outs
}

/// Builds the cache probe of a dataset from its name and the caller's
/// answer to "does the canonical artifact path exist?".
pub fn probe_for(name: &Vec<u8>, exists: bool) -> (p: CacheProbe)
    ensures
        p.path@ == artifact_path_spec(name@),
        p.exists == exists,
{
    CacheProbe { exists, path: artifact_path(name) }
}

} // verus!
