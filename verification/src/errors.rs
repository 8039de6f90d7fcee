//! The failure taxonomy of the pipeline.

use vstd::prelude::*;

verus! {

/// What can go wrong while resolving one dataset or loading shared data.
#[derive(Debug, Clone, Copy, PartialEq, Eq, Structural)]
pub enum PipelineError {
    /// A raw source could not be read into the expected columns; fatal for
    /// that dataset only.
    Schema,
    /// The shared weather source is malformed (bad header, field layout or
    /// timestamp); fatal for the whole run.
    Parse,
    /// A persisted artifact could not be written; surfaced to the caller so
    /// the run is flagged unhealthy.
    Io,
    /// A persisted artifact is unreadable or schema-mismatched. Never
    /// propagated as a failure: the resolver converts it into a cold-path
    /// rebuild.
    CacheCorruption,
}

} // verus!
