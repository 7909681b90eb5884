//! Turning one work item into forward progress.
//!
//! The dispatcher never runs the external analysis function itself: analysis
//! is outside work the caller performs. Instead [`Dispatcher::plan`] decides
//! whether analysis is needed at all, and [`Dispatcher::complete`] turns the
//! analysis outcome into the final disposition of the item. A precomputed
//! result is forwarded as-is and analysis is never consulted; an analysis
//! failure is propagated as a fault, never absorbed as if it had succeeded.

use vstd::prelude::*;

use crate::work::ApiTrace;
use crate::work::ProcessTraceRes;
use crate::work::WorkItem;

verus! {

/// What must happen next for one work item.
#[derive(PartialEq, Eq, Clone, Copy, Debug)]
pub enum DispatchPlan {
    /// The producer already supplied the result: hand this pair straight to
    /// the sink, without invoking analysis.
    Deliver(ApiTrace, ProcessTraceRes),
    /// No result was supplied: the caller must invoke the analysis function
    /// on this trace, then report its outcome through `complete`.
    Analyze(ApiTrace),
}

/// What the external analysis function did with a trace.
#[derive(PartialEq, Eq, Clone, Copy, Debug)]
pub enum AnalysisOutcome {
    /// Analysis returned a result.
    Produced(ProcessTraceRes),
    /// Analysis failed or ended abnormally.
    Failed,
}

/// The disposition of one work item.
#[derive(PartialEq, Eq, Clone, Copy, Debug)]
pub enum DispatchOutcome {
    /// This pair goes to the downstream sink.
    Delivered(ApiTrace, ProcessTraceRes),
    /// The item's analysis failed; the fault must reach the supervisor.
    Faulted(ApiTrace),
}

/// The disposition of `item` when the analysis function, had it been
/// consulted, would have behaved as `analysis` says. A precomputed result
/// makes the disposition independent of `analysis`.
pub open spec fn dispatch_spec(item: WorkItem, analysis: AnalysisOutcome) -> DispatchOutcome {
    match item.maybe_result {
        Some(r) => DispatchOutcome::Delivered(item.trace, r),
        None => match analysis {
            AnalysisOutcome::Produced(r) => DispatchOutcome::Delivered(item.trace, r),
            AnalysisOutcome::Failed => DispatchOutcome::Faulted(item.trace),
        },
    }
}

pub struct Dispatcher;

impl Dispatcher {
    /// Decide what one item needs: delivery as-is when a result was
    /// precomputed, one analysis invocation otherwise.
    pub fn plan(item: WorkItem) -> (p: DispatchPlan)
        ensures
            item.maybe_result matches Some(r) ==> p == DispatchPlan::Deliver(item.trace, r),
            item.maybe_result is None ==> p == DispatchPlan::Analyze(item.trace),
    {
        match item.maybe_result {
            Some(r) => DispatchPlan::Deliver(item.trace, r),
            None => DispatchPlan::Analyze(item.trace),
        }
    }

    /// Turn the outcome of the analysis invocation that `plan` requested
    /// into the item's disposition: success is delivered, failure is
    /// propagated as a fault and never passed off as success.
    pub fn complete(trace: ApiTrace, outcome: AnalysisOutcome) -> (r: DispatchOutcome)
        ensures
            outcome matches AnalysisOutcome::Produced(res) ==> r == DispatchOutcome::Delivered(
                trace,
                res,
            ),
            outcome is Failed ==> r == DispatchOutcome::Faulted(trace),
    {
        match outcome {
            AnalysisOutcome::Produced(res) => DispatchOutcome::Delivered(trace, res),
            AnalysisOutcome::Failed => DispatchOutcome::Faulted(trace),
        }
    }

    /// Dispatch one item, given how the analysis function would behave on
    /// its trace. The analysis outcome is consulted exactly when the item
    /// carries no precomputed result.
    pub fn dispatch(item: WorkItem, analysis: AnalysisOutcome) -> (r: DispatchOutcome)
        ensures
            r == dispatch_spec(item, analysis),
    {
        match Dispatcher::plan(item) {
            DispatchPlan::Deliver(trace, res) => DispatchOutcome::Delivered(trace, res),
            DispatchPlan::Analyze(trace) => Dispatcher::complete(trace, analysis),
        }
    }
}

/// A precomputed result makes dispatch skip analysis entirely: the
/// disposition is the supplied pair, whatever analysis would have done.
pub proof fn lemma_precomputed_skips_analysis(
    item: WorkItem,
    a1: AnalysisOutcome,
    a2: AnalysisOutcome,
)
    requires
        item.maybe_result is Some,
    ensures
        dispatch_spec(item, a1) == dispatch_spec(item, a2),
        item.maybe_result matches Some(r) ==> dispatch_spec(item, a1)
            == DispatchOutcome::Delivered(item.trace, r),
{
}

/// An item without a precomputed result is decided by analysis alone: its
/// output is forwarded on success, and a failure becomes a fault — never a
/// silent success.
pub proof fn lemma_fallback_follows_analysis(item: WorkItem, analysis: AnalysisOutcome)
    requires
        item.maybe_result is None,
    ensures
        analysis matches AnalysisOutcome::Produced(r) ==> dispatch_spec(item, analysis)
            == DispatchOutcome::Delivered(item.trace, r),
        analysis is Failed ==> dispatch_spec(item, analysis) == DispatchOutcome::Faulted(
            item.trace,
        ),
        dispatch_spec(item, analysis) is Faulted <==> analysis is Failed,
{
}

} // verus!
