//! The host's table of compiled pipelines, indexed by compilation ticket.
use vstd::prelude::*;

verus! {

/// The compiled compute pipelines known to the host, indexed by the ticket
/// that queued their compilation. An entry is `None` while compilation is
/// pending or did not yield a compute pipeline.
pub struct AppPipelineCache {
    pub pipeline_cache: Vec<Option<u64>>,
}

/// The compiled pipeline that a cache holds for a ticket.
pub open spec fn cache_lookup(cache: Seq<Option<u64>>, id: usize) -> Option<u64> {
    if id < cache.len() {
        cache[id as int]
    } else {
        None
    }
}

impl AppPipelineCache {
    /// The compiled compute pipeline for a ticket, if it is ready.
    pub fn get_compute_pipeline(&self, id: usize) -> (r: Option<u64>)
        ensures
            r == cache_lookup(self.pipeline_cache@, id),
    {
        if id < self.pipeline_cache.len() {
            self.pipeline_cache[id]
        } else {
            None
        }
    }
}

} // verus!
