//! Resilient single-worker trace dispatch.
//!
//! Captured API call records ("traces") are handed off through a bounded,
//! ordered mailbox to one dedicated background worker. The worker fills in a
//! missing analysis result, hands the pair to a downstream sink, and survives
//! any number of internal faults: a failed dispatch is contained and the
//! worker keeps draining the mailbox.

pub mod dispatcher;
pub mod mailbox;
pub mod supervisor;
pub mod work;

pub use dispatcher::AnalysisOutcome;
pub use dispatcher::DispatchOutcome;
pub use dispatcher::DispatchPlan;
pub use dispatcher::Dispatcher;
pub use mailbox::Mailbox;
pub use mailbox::SubmitOutcome;
pub use supervisor::SupervisorAction;
pub use supervisor::SupervisorState;
pub use supervisor::WorkerEvent;
pub use work::ApiTrace;
pub use work::ProcessTraceRes;
pub use work::WorkItem;
