//! Keeping the single worker alive across unbounded internal faults.
//!
//! The worker thread runs one cooperative scheduler and an inner loop of
//! "take one item, dispatch it" inside a fault boundary. The supervisor's
//! policy, [`SupervisorState::observe`], decides what the boundary does with
//! each observed event: a successful dispatch continues the inner loop, a
//! fault restarts it immediately — the thread never exits for a fault — and
//! only a closed mailbox (no producer can ever submit again) is terminal.
//!
//! [`worker_outputs`] is the run model: the sequence of pairs the sink
//! receives when the worker drains a backlog, given how analysis behaves on
//! each item. The laws below show that one faulting item perturbs nothing
//! around it and that the worker still delivers after any number of faults.

use vstd::prelude::*;

use crate::dispatcher::dispatch_spec;
use crate::dispatcher::AnalysisOutcome;
use crate::dispatcher::DispatchOutcome;
use crate::dispatcher::Dispatcher;
use crate::mailbox::Mailbox;
use crate::work::ApiTrace;
use crate::work::ProcessTraceRes;
use crate::work::WorkItem;

verus! {

/// `x + 1`, stopping at the largest counter value instead of wrapping.
pub open spec fn sat_inc(x: u64) -> u64 {
    if x == u64::MAX {
        u64::MAX
    } else {
        (x + 1) as u64
    }
}

/// What one pass of the worker's inner loop reported to the supervisor.
#[derive(PartialEq, Eq, Structural, Clone, Copy, Debug)]
pub enum WorkerEvent {
    /// An item was taken and dispatched; its disposition reached the sink.
    ItemDispatched,
    /// The fault boundary caught an abnormal condition; the in-flight item
    /// is abandoned but the mailbox backlog is untouched.
    DispatchFaulted,
    /// The mailbox can never yield another item: every producer handle is
    /// gone. The process invariant of a live global producer is broken.
    MailboxClosed,
}

/// What the supervisor tells the worker thread to do next.
#[derive(PartialEq, Eq, Structural, Clone, Copy, Debug)]
pub enum SupervisorAction {
    /// Keep the inner loop running.
    Continue,
    /// Discard the failed inner-loop state and start it again at once, on
    /// the same scheduler and the same mailbox.
    RestartInner,
    /// Stop: an unrecoverable invariant violation, not an internal fault.
    Halt,
}

/// The supervisor's record of the worker it keeps alive.
#[derive(PartialEq, Eq, Structural, Clone, Copy, Debug)]
pub struct SupervisorState {
    /// Items whose dispatch ran to completion.
    pub dispatched: u64,
    /// Faults caught and converted into inner-loop restarts.
    pub restarts: u64,
}

impl SupervisorState {
    /// The state of a freshly started worker: nothing observed yet.
    pub fn new() -> (s: SupervisorState)
        ensures
            s.dispatched == 0,
            s.restarts == 0,
    {
        SupervisorState { dispatched: 0, restarts: 0 }
    }

    /// Absorb one event and decide the worker's next step. A fault always
    /// answers `RestartInner` and only bumps the restart count: the worker
    /// is never halted by a fault, however many have come before. `Halt` is
    /// answered exactly for a closed mailbox.
    pub fn observe(&mut self, event: WorkerEvent) -> (a: SupervisorAction)
        ensures
            a == SupervisorAction::Halt <==> event == WorkerEvent::MailboxClosed,
            event == WorkerEvent::ItemDispatched ==> a == SupervisorAction::Continue
                && final(self).dispatched == sat_inc(old(self).dispatched)
                && final(self).restarts == old(self).restarts,
            event == WorkerEvent::DispatchFaulted ==> a == SupervisorAction::RestartInner
                && final(self).restarts == sat_inc(old(self).restarts)
                && final(self).dispatched == old(self).dispatched,
            event == WorkerEvent::MailboxClosed ==> *final(self) == *old(self),
    {
        match event {
            WorkerEvent::ItemDispatched => {
                if self.dispatched < u64::MAX {
                    self.dispatched = self.dispatched + 1;
                }
                SupervisorAction::Continue
            },
            WorkerEvent::DispatchFaulted => {
                if self.restarts < u64::MAX {
                    self.restarts = self.restarts + 1;
                }
                SupervisorAction::RestartInner
            },
            WorkerEvent::MailboxClosed => SupervisorAction::Halt,
        }
    }
}

/// The pairs the sink receives when the worker dispatches `items` in order,
/// analysis behaving on the `i`-th item as `analyses[i]` says. A faulted
/// item contributes nothing; the worker restarts and moves on, so every
/// later item is still processed.
pub open spec fn worker_outputs(items: Seq<WorkItem>, analyses: Seq<AnalysisOutcome>) -> Seq<
    (ApiTrace, ProcessTraceRes),
>
    decreases items.len(),
{
    if items.len() == 0 || analyses.len() == 0 {
        Seq::empty()
    } else {
        let rest = worker_outputs(items.drop_first(), analyses.drop_first());
        match dispatch_spec(items[0], analyses[0]) {
            DispatchOutcome::Delivered(t, r) => seq![(t, r)] + rest,
            DispatchOutcome::Faulted(_) => rest,
        }
    }
}

/// Drain a backlog: take and dispatch every buffered item, oldest first,
/// and return what reached the sink. Faulted items are skipped, delivered
/// ones come out in submission order, and the mailbox ends empty.
pub fn drain(mailbox: Mailbox, analyses: &Vec<AnalysisOutcome>) -> (res: (
    Mailbox,
    Vec<(ApiTrace, ProcessTraceRes)>,
))
    requires
        mailbox.well_formed(),
        analyses@.len() == mailbox@.len(),
    ensures
        res.0.well_formed(),
        res.0@.len() == 0,
        res.0.cap() == mailbox.cap(),
        res.1@ == worker_outputs(mailbox@, analyses@),
{
    let mut mbx = mailbox;
    let mut out: Vec<(ApiTrace, ProcessTraceRes)> = Vec::new();
    let mut i: usize = 0;
    proof {
        assert(mailbox@.skip(0) =~= mailbox@);
        assert(analyses@.skip(0) =~= analyses@);
        assert(Seq::<(ApiTrace, ProcessTraceRes)>::empty() + worker_outputs(mailbox@, analyses@)
            =~= worker_outputs(mailbox@, analyses@));
    }
    while i < analyses.len()
        invariant
            mbx.well_formed(),
            mbx.cap() == mailbox.cap(),
            analyses@.len() == mailbox@.len(),
            i <= analyses@.len(),
            mbx@ =~= mailbox@.skip(i as int),
            out@ + worker_outputs(mbx@, analyses@.skip(i as int)) == worker_outputs(
                mailbox@,
                analyses@,
            ),
        decreases analyses@.len() - i,
    {
        proof {
            assert(mbx@.len() > 0);
        }
        let item = mbx.take().unwrap();
        let outcome = Dispatcher::dispatch(item, analyses[i]);
        proof {
            let s = mailbox@.skip(i as int);
            let a = analyses@.skip(i as int);
            assert(s.drop_first() =~= mailbox@.skip(i + 1));
            assert(a.drop_first() =~= analyses@.skip(i + 1));
            assert(worker_outputs(s, a) == match dispatch_spec(s[0], a[0]) {
                DispatchOutcome::Delivered(t, r) => seq![(t, r)] + worker_outputs(
                    mailbox@.skip(i + 1),
                    analyses@.skip(i + 1),
                ),
                DispatchOutcome::Faulted(_) => worker_outputs(
                    mailbox@.skip(i + 1),
                    analyses@.skip(i + 1),
                ),
            });
        }
        match outcome {
            DispatchOutcome::Delivered(t, r) => {
                out.push((t, r));
                proof {
                    assert(out@ + worker_outputs(mbx@, analyses@.skip(i + 1)) =~= out@.drop_last()
                        + (seq![(t, r)] + worker_outputs(mbx@, analyses@.skip(i + 1))));
                }
            },
            DispatchOutcome::Faulted(_) => {},
        }
        i = i + 1;
    }
    proof {
        assert(mbx@.len() == 0);
        assert(worker_outputs(mbx@, analyses@.skip(i as int)) =~= Seq::<
            (ApiTrace, ProcessTraceRes),
        >::empty());
        assert(out@ =~= out@ + Seq::<(ApiTrace, ProcessTraceRes)>::empty());
    }
    (mbx, out)
}

/// One step of the run model, written out: the oldest item's disposition
/// decides whether a pair is prepended to the outputs of the rest.
proof fn lemma_outputs_unfold(items: Seq<WorkItem>, analyses: Seq<AnalysisOutcome>)
    requires
        items.len() > 0,
        analyses.len() > 0,
    ensures
        worker_outputs(items, analyses) == (match dispatch_spec(items[0], analyses[0]) {
            DispatchOutcome::Delivered(t, r) => seq![(t, r)] + worker_outputs(
                items.drop_first(),
                analyses.drop_first(),
            ),
            DispatchOutcome::Faulted(_) => worker_outputs(
                items.drop_first(),
                analyses.drop_first(),
            ),
        }),
{
}

/// Law: fault isolation. If dispatching the item at position `k` faults,
/// the sink still receives everything the earlier items deliver followed by
/// everything the later items deliver: one fault costs at most its own
/// in-flight item, and every item queued behind it is still dispatched, in
/// order.
pub proof fn lemma_fault_isolation(items: Seq<WorkItem>, analyses: Seq<AnalysisOutcome>, k: int)
    requires
        items.len() == analyses.len(),
        0 <= k < items.len(),
        dispatch_spec(items[k], analyses[k]) is Faulted,
    ensures
        worker_outputs(items, analyses) == worker_outputs(items.take(k), analyses.take(k))
            + worker_outputs(items.skip(k + 1), analyses.skip(k + 1)),
    decreases k,
{
    lemma_outputs_unfold(items, analyses);
    if k == 0 {
        assert(items.take(0) =~= Seq::<WorkItem>::empty());
        assert(analyses.take(0) =~= Seq::<AnalysisOutcome>::empty());
        assert(items.skip(1) =~= items.drop_first());
        assert(analyses.skip(1) =~= analyses.drop_first());
        assert(Seq::<(ApiTrace, ProcessTraceRes)>::empty() + worker_outputs(
            items.drop_first(),
            analyses.drop_first(),
        ) =~= worker_outputs(items.drop_first(), analyses.drop_first()));
    } else {
        let di = items.drop_first();
        let da = analyses.drop_first();
        assert(di[k - 1] == items[k]);
        assert(da[k - 1] == analyses[k]);
        lemma_fault_isolation(di, da, k - 1);
        assert(di.take(k - 1) =~= items.take(k).drop_first());
        assert(da.take(k - 1) =~= analyses.take(k).drop_first());
        assert(di.skip(k) =~= items.skip(k + 1));
        assert(da.skip(k) =~= analyses.skip(k + 1));
        lemma_outputs_unfold(items.take(k), analyses.take(k));
        assert(items.take(k)[0] == items[0]);
        assert(analyses.take(k)[0] == analyses[0]);
        let early = worker_outputs(di.take(k - 1), da.take(k - 1));
        let late = worker_outputs(di.skip(k), da.skip(k));
        match dispatch_spec(items[0], analyses[0]) {
            DispatchOutcome::Delivered(t, r) => {
                assert(seq![(t, r)] + (early + late) =~= (seq![(t, r)] + early) + late);
            },
            DispatchOutcome::Faulted(_) => {},
        }
    }
}

/// Law: a run of faulting items is invisible downstream. However long the
/// run, the worker survives it and the sink receives exactly what the items
/// after it deliver.
pub proof fn lemma_faults_are_transparent(
    faulty: Seq<WorkItem>,
    fa: Seq<AnalysisOutcome>,
    rest: Seq<WorkItem>,
    ra: Seq<AnalysisOutcome>,
)
    requires
        faulty.len() == fa.len(),
        forall|i: int| 0 <= i < faulty.len() ==> dispatch_spec(faulty[i], fa[i]) is Faulted,
    ensures
        worker_outputs(faulty + rest, fa + ra) == worker_outputs(rest, ra),
    decreases faulty.len(),
{
    if faulty.len() == 0 {
        assert(faulty + rest =~= rest);
        assert(fa + ra =~= ra);
    } else {
        lemma_outputs_unfold(faulty + rest, fa + ra);
        assert((faulty + rest)[0] == faulty[0]);
        assert((fa + ra)[0] == fa[0]);
        assert((faulty + rest).drop_first() =~= faulty.drop_first() + rest);
        assert((fa + ra).drop_first() =~= fa.drop_first() + ra);
        assert(forall|i: int|
            0 <= i < faulty.drop_first().len() ==> dispatch_spec(
                faulty.drop_first()[i],
                fa.drop_first()[i],
            ) is Faulted) by {
            assert(forall|i: int|
                0 <= i < faulty.drop_first().len() ==> faulty.drop_first()[i] == faulty[i + 1]
                    && fa.drop_first()[i] == fa[i + 1]);
        }
        lemma_faults_are_transparent(faulty.drop_first(), fa.drop_first(), rest, ra);
    }
}

/// Law: liveness. After any number of consecutive faulting items, a
/// subsequent well-formed item is still dispatched successfully: the sink
/// receives exactly its pair.
pub proof fn lemma_liveness(
    faulty: Seq<WorkItem>,
    fa: Seq<AnalysisOutcome>,
    good: WorkItem,
    analysis: AnalysisOutcome,
    t: ApiTrace,
    r: ProcessTraceRes,
)
    requires
        faulty.len() == fa.len(),
        forall|i: int| 0 <= i < faulty.len() ==> dispatch_spec(faulty[i], fa[i]) is Faulted,
        dispatch_spec(good, analysis) == DispatchOutcome::Delivered(t, r),
    ensures
        worker_outputs(faulty.push(good), fa.push(analysis)) == seq![(t, r)],
{
    assert(faulty.push(good) =~= faulty + seq![good]);
    assert(fa.push(analysis) =~= fa + seq![analysis]);
    lemma_faults_are_transparent(faulty, fa, seq![good], seq![analysis]);
    lemma_outputs_unfold(seq![good], seq![analysis]);
    assert(seq![good].drop_first() =~= Seq::<WorkItem>::empty());
    assert(seq![(t, r)] + Seq::<(ApiTrace, ProcessTraceRes)>::empty() =~= seq![(t, r)]);
}

} // verus!
