//! Run configuration: the single externally configurable switch of the core.

use vstd::prelude::*;

verus! {

/// Command-line configuration for a pipeline run. The `rebuild` switch
/// distinguishes "always recompute" from "use the cache resolver logic".
pub struct Args {
    rebuild: bool,
}

impl Args {
    /// Whether this run was asked to recompute every artifact from raw data.
    pub closed spec fn spec_rebuild(&self) -> bool {
        self.rebuild
    }

    pub fn new(rebuild: bool) -> (a: Args)
        ensures
            a.spec_rebuild() == rebuild,
    {
        Args { rebuild }
    }

    pub fn rebuild(&self) -> (r: bool)
        ensures
            r == self.spec_rebuild(),
    {
        self.rebuild
    }
}

} // verus!
