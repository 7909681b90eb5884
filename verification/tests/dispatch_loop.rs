use trace_dispatch::dispatcher::AnalysisOutcome;
use trace_dispatch::dispatcher::DispatchOutcome;
use trace_dispatch::dispatcher::DispatchPlan;
use trace_dispatch::dispatcher::Dispatcher;
use trace_dispatch::mailbox::Mailbox;
use trace_dispatch::mailbox::SubmitOutcome;
use trace_dispatch::supervisor::drain;
use trace_dispatch::supervisor::SupervisorAction;
use trace_dispatch::supervisor::SupervisorState;
use trace_dispatch::supervisor::WorkerEvent;
use trace_dispatch::work::ApiTrace;
use trace_dispatch::work::ProcessTraceRes;
use trace_dispatch::work::WorkItem;

fn trace(id: u64) -> ApiTrace {
    ApiTrace { id }
}

fn result(value: u64) -> ProcessTraceRes {
    ProcessTraceRes { value }
}

#[test]
fn fifo_order_single_producer() {
    let mut mailbox = Mailbox::new(100);
    for id in 0..10u64 {
        let outcome = mailbox.submit(WorkItem::pending(trace(id)));
        assert_eq!(outcome, SubmitOutcome::Enqueued);
    }
    for id in 0..10u64 {
        let item = mailbox.take().expect("an item must be buffered");
        assert_eq!(item.trace, trace(id));
    }
    assert_eq!(mailbox.take(), None);
}

#[test]
fn fifo_order_empty_sequence() {
    let mut mailbox = Mailbox::new(100);
    assert_eq!(mailbox.len(), 0);
    assert_eq!(mailbox.take(), None);
    assert_eq!(mailbox.len(), 0);
}

#[test]
fn backpressure_full_mailbox_makes_producer_wait() {
    let mut mailbox = Mailbox::new(2);
    assert_eq!(mailbox.submit(WorkItem::pending(trace(1))), SubmitOutcome::Enqueued);
    assert_eq!(mailbox.submit(WorkItem::pending(trace(2))), SubmitOutcome::Enqueued);
    // The (capacity+1)-th submission must wait; nothing is dropped or moved.
    assert_eq!(mailbox.submit(WorkItem::pending(trace(3))), SubmitOutcome::MustWait);
    assert_eq!(mailbox.len(), 2);
    // One take frees a slot and the waiting submission then succeeds.
    assert_eq!(mailbox.take().unwrap().trace, trace(1));
    assert_eq!(mailbox.submit(WorkItem::pending(trace(3))), SubmitOutcome::Enqueued);
    assert_eq!(mailbox.take().unwrap().trace, trace(2));
    assert_eq!(mailbox.take().unwrap().trace, trace(3));
}

#[test]
fn backpressure_capacity_one() {
    let mut mailbox = Mailbox::new(1);
    assert_eq!(mailbox.capacity(), 1);
    assert_eq!(mailbox.submit(WorkItem::pending(trace(1))), SubmitOutcome::Enqueued);
    assert_eq!(mailbox.submit(WorkItem::pending(trace(2))), SubmitOutcome::MustWait);
    assert_eq!(mailbox.take().unwrap().trace, trace(1));
    assert_eq!(mailbox.submit(WorkItem::pending(trace(2))), SubmitOutcome::Enqueued);
}

#[test]
fn fallback_analysis_runs_only_when_result_missing() {
    // Missing result: the plan demands exactly one analysis invocation.
    let pending = WorkItem::pending(trace(5));
    assert_eq!(Dispatcher::plan(pending), DispatchPlan::Analyze(trace(5)));
    let produced = Dispatcher::complete(trace(5), AnalysisOutcome::Produced(result(50)));
    assert_eq!(produced, DispatchOutcome::Delivered(trace(5), result(50)));

    // Precomputed result: the plan is direct delivery, analysis untouched.
    let precomputed = WorkItem::precomputed(trace(6), result(60));
    assert_eq!(Dispatcher::plan(precomputed), DispatchPlan::Deliver(trace(6), result(60)));

    // Even a failing analysis cannot change a precomputed item's fate.
    let d = Dispatcher::dispatch(precomputed, AnalysisOutcome::Failed);
    assert_eq!(d, DispatchOutcome::Delivered(trace(6), result(60)));
}

#[test]
fn analysis_failure_becomes_fault_not_success() {
    let pending = WorkItem::pending(trace(9));
    let d = Dispatcher::dispatch(pending, AnalysisOutcome::Failed);
    assert_eq!(d, DispatchOutcome::Faulted(trace(9)));
    let c = Dispatcher::complete(trace(9), AnalysisOutcome::Failed);
    assert_eq!(c, DispatchOutcome::Faulted(trace(9)));
}

#[test]
fn fault_isolation_later_items_still_dispatched() {
    let mut mailbox = Mailbox::new(10);
    let mut analyses = Vec::new();
    for id in 0..5u64 {
        mailbox.submit(WorkItem::pending(trace(id)));
        // Item 2 makes analysis fail; every other item succeeds.
        if id == 2 {
            analyses.push(AnalysisOutcome::Failed);
        } else {
            analyses.push(AnalysisOutcome::Produced(result(id * 10)));
        }
    }
    let (drained, delivered) = drain(mailbox, &analyses);
    assert_eq!(drained.len(), 0);
    // The faulting item is the only loss; order of the rest is untouched.
    assert_eq!(
        delivered,
        vec![
            (trace(0), result(0)),
            (trace(1), result(10)),
            (trace(3), result(30)),
            (trace(4), result(40)),
        ]
    );
}

#[test]
fn supervisor_restarts_on_fault_and_halts_only_when_closed() {
    let mut state = SupervisorState::new();
    assert_eq!(state.observe(WorkerEvent::ItemDispatched), SupervisorAction::Continue);
    assert_eq!(state.observe(WorkerEvent::DispatchFaulted), SupervisorAction::RestartInner);
    assert_eq!(state.dispatched, 1);
    assert_eq!(state.restarts, 1);
    assert_eq!(state.observe(WorkerEvent::MailboxClosed), SupervisorAction::Halt);
    assert_eq!(state.dispatched, 1);
    assert_eq!(state.restarts, 1);
}

#[test]
fn liveness_after_ten_thousand_faults() {
    let mut state = SupervisorState::new();
    for _ in 0..10_000 {
        // Every fault is converted into an immediate restart, never a halt.
        assert_eq!(state.observe(WorkerEvent::DispatchFaulted), SupervisorAction::RestartInner);
    }
    assert_eq!(state.restarts, 10_000);
    // A subsequent well-formed item is still dispatched successfully.
    assert_eq!(state.observe(WorkerEvent::ItemDispatched), SupervisorAction::Continue);
    assert_eq!(state.dispatched, 1);

    let mut mailbox = Mailbox::new(20_000);
    let mut analyses = Vec::new();
    for id in 0..10_000u64 {
        mailbox.submit(WorkItem::pending(trace(id)));
        analyses.push(AnalysisOutcome::Failed);
    }
    mailbox.submit(WorkItem::pending(trace(10_000)));
    analyses.push(AnalysisOutcome::Produced(result(7)));
    let (_, delivered) = drain(mailbox, &analyses);
    assert_eq!(delivered, vec![(trace(10_000), result(7))]);
}

#[test]
fn supervisor_counters_saturate() {
    let mut state = SupervisorState { dispatched: u64::MAX, restarts: u64::MAX };
    assert_eq!(state.observe(WorkerEvent::ItemDispatched), SupervisorAction::Continue);
    assert_eq!(state.observe(WorkerEvent::DispatchFaulted), SupervisorAction::RestartInner);
    assert_eq!(state.dispatched, u64::MAX);
    assert_eq!(state.restarts, u64::MAX);
}

#[test]
fn init_once_creates_exactly_one_mailbox() {
    let mut slot: Option<Mailbox> = None;
    assert!(Mailbox::init_once(&mut slot, 100));
    slot.as_mut().unwrap().submit(WorkItem::pending(trace(1)));
    // A second initialization attempt must leave the existing mailbox,
    // and what it buffered, untouched.
    assert!(!Mailbox::init_once(&mut slot, 100));
    let mailbox = slot.as_mut().unwrap();
    assert_eq!(mailbox.len(), 1);
    assert_eq!(mailbox.take().unwrap().trace, trace(1));
}

#[test]
fn example_scenario_capacity_two() {
    // capacity = 2; T1 (no result), T2 (precomputed R2), T3 (no result).
    let r2 = result(22);
    let t1 = WorkItem::pending(trace(1));
    let t2 = WorkItem::precomputed(trace(2), r2);
    let t3 = WorkItem::pending(trace(3));

    let mut mailbox = Mailbox::new(2);
    assert_eq!(mailbox.submit(t1), SubmitOutcome::Enqueued);
    assert_eq!(mailbox.submit(t2), SubmitOutcome::Enqueued);
    // T3's submission suspends until a take occurs.
    assert_eq!(mailbox.submit(t3), SubmitOutcome::MustWait);

    // The worker starts: T1 comes out first and needs analysis.
    let first = mailbox.take().unwrap();
    assert_eq!(first, t1);
    assert_eq!(Dispatcher::plan(first), DispatchPlan::Analyze(trace(1)));
    let r1 = result(11);
    assert_eq!(
        Dispatcher::complete(trace(1), AnalysisOutcome::Produced(r1)),
        DispatchOutcome::Delivered(trace(1), r1)
    );

    // The freed slot admits T3.
    assert_eq!(mailbox.submit(t3), SubmitOutcome::Enqueued);

    // T2 is next: R2 is forwarded as-is, analysis not invoked.
    let second = mailbox.take().unwrap();
    assert_eq!(second, t2);
    assert_eq!(Dispatcher::plan(second), DispatchPlan::Deliver(trace(2), r2));

    // T3 is last and needs analysis.
    let third = mailbox.take().unwrap();
    assert_eq!(third, t3);
    assert_eq!(Dispatcher::plan(third), DispatchPlan::Analyze(trace(3)));
    let r3 = result(33);
    assert_eq!(
        Dispatcher::complete(trace(3), AnalysisOutcome::Produced(r3)),
        DispatchOutcome::Delivered(trace(3), r3)
    );

    assert_eq!(mailbox.take(), None);
}
