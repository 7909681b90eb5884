//! The unit of exchange through the mailbox.

use vstd::prelude::*;

verus! {

/// One observed API call record. Immutable once created; the identifier is
/// all the dispatch core ever reads of it.
#[derive(PartialEq, Eq, Structural, Clone, Copy, Debug)]
pub struct ApiTrace {
    pub id: u64,
}

/// The output of analyzing a trace. Opaque to the dispatch core beyond
/// identity; it may be supplied upstream or computed by the worker.
#[derive(PartialEq, Eq, Structural, Clone, Copy, Debug)]
pub struct ProcessTraceRes {
    pub value: u64,
}

/// A `(trace, optional precomputed result)` pair: the unit that producers
/// submit and the worker consumes, exactly once each.
#[derive(PartialEq, Eq, Clone, Copy, Debug)]
pub struct WorkItem {
    pub trace: ApiTrace,
    pub maybe_result: Option<ProcessTraceRes>,
}

impl WorkItem {
    /// A work item whose result must still be computed by the worker.
    pub fn pending(trace: ApiTrace) -> (item: WorkItem)
        ensures
            item.trace == trace,
            item.maybe_result is None,
    {
        WorkItem { trace, maybe_result: None }
    }

    /// A work item whose result was already computed upstream.
    pub fn precomputed(trace: ApiTrace, result: ProcessTraceRes) -> (item: WorkItem)
        ensures
            item.trace == trace,
            item.maybe_result == Some(result),
    {
        WorkItem { trace, maybe_result: Some(result) }
    }
}

} // verus!
