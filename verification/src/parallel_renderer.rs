//! Worker-pool coordination: the decisions of the persistent pool.
//!
//! A pool keeps one long-lived thread per processor.  Each worker walks
//! a fixed cycle per render pass: wait idle for a work descriptor, meet
//! the others at a barrier so every worker has observed the descriptor
//! before any starts, drain the pixel queue, report completion, and meet
//! at the barrier again so the descriptor is retired only after every
//! worker is done.  The platform layer performs the waiting, the barrier
//! and the callback; the phase transitions and the completion count that
//! releases the caller are decided here.

use vstd::prelude::*;

verus! {

/// Where one worker stands in a render pass.
#[derive(Clone, Copy, PartialEq, Eq, Structural, Debug)]
pub enum WorkerPhase {
    /// Waiting for a work descriptor to be published.
    Idle,
    /// Descriptor observed; waiting for every other worker to observe it.
    SyncStart,
    /// Claiming pixel ranges and rendering them.
    Draining,
    /// Finished draining; signalling completion.
    Reporting,
    /// Completion signalled; waiting for every other worker to finish.
    SyncEnd,
}

/// What just happened to a worker.
#[derive(Clone, Copy, PartialEq, Eq, Structural, Debug)]
pub enum WorkerEvent {
    /// A work descriptor was published.
    Published,
    /// The barrier released.
    Synced,
    /// A pixel range was claimed and rendered.
    RangeDone,
    /// The queue handed out nothing: the pass is drained.
    QueueEmpty,
    /// Completion was signalled.
    Reported,
}

/// The worker cycle: which phase an event moves a worker to.  An event
/// that the phase does not expect is a protocol violation and moves the
/// worker nowhere.
pub open spec fn phase_after(phase: WorkerPhase, event: WorkerEvent) -> Option<WorkerPhase> {
    match (phase, event) {
        (WorkerPhase::Idle, WorkerEvent::Published) => Some(WorkerPhase::SyncStart),
        (WorkerPhase::SyncStart, WorkerEvent::Synced) => Some(WorkerPhase::Draining),
        (WorkerPhase::Draining, WorkerEvent::RangeDone) => Some(WorkerPhase::Draining),
        (WorkerPhase::Draining, WorkerEvent::QueueEmpty) => Some(WorkerPhase::Reporting),
        (WorkerPhase::Reporting, WorkerEvent::Reported) => Some(WorkerPhase::SyncEnd),
        (WorkerPhase::SyncEnd, WorkerEvent::Synced) => Some(WorkerPhase::Idle),
        _ => None,
    }
}

/// Advances one worker's phase, exactly per [`phase_after`].
pub fn worker_step(phase: WorkerPhase, event: WorkerEvent) -> (r: Option<WorkerPhase>)
    ensures
        r == phase_after(phase, event),
{
    match (phase, event) {
        (WorkerPhase::Idle, WorkerEvent::Published) => Some(WorkerPhase::SyncStart),
        (WorkerPhase::SyncStart, WorkerEvent::Synced) => Some(WorkerPhase::Draining),
        (WorkerPhase::Draining, WorkerEvent::RangeDone) => Some(WorkerPhase::Draining),
        (WorkerPhase::Draining, WorkerEvent::QueueEmpty) => Some(WorkerPhase::Reporting),
        (WorkerPhase::Reporting, WorkerEvent::Reported) => Some(WorkerPhase::SyncEnd),
        (WorkerPhase::SyncEnd, WorkerEvent::Synced) => Some(WorkerPhase::Idle),
        _ => None,
    }
}

/// A worker only drains after the descriptor was published and the
/// start barrier passed, and only returns to idle through the
/// report-then-sync tail of the cycle: no phase reaches `Draining`
/// except from `SyncStart` or `Draining` itself, and none reaches
/// `Idle` except from `SyncEnd`.
pub proof fn lemma_worker_cycle(phase: WorkerPhase, event: WorkerEvent)
    ensures
        phase_after(phase, event) == Some(WorkerPhase::Draining) ==> (phase == WorkerPhase::SyncStart
            || phase == WorkerPhase::Draining),
        phase_after(phase, event) == Some(WorkerPhase::Idle) ==> phase == WorkerPhase::SyncEnd,
        phase_after(phase, event) == Some(WorkerPhase::SyncStart) ==> phase == WorkerPhase::Idle,
{
}

/// The caller's view of one render pass: how many of the pool's workers
/// have reported completion.  The pass is over — and the output buffer
/// fully populated — exactly when every worker has reported once.
pub struct RenderPass {
    worker_count: usize,
    completions: usize,
}

impl RenderPass {
    /// Number of workers the pass waits for.
    pub closed spec fn workers(self) -> int {
        self.worker_count as int
    }

    /// Completions received so far.
    pub closed spec fn completed(self) -> int {
        self.completions as int
    }

    /// No more completions than workers.
    pub closed spec fn wf(self) -> bool {
        self.completions <= self.worker_count
    }

    /// Starts a pass over `worker_count` workers.
    pub fn new(worker_count: usize) -> (r: RenderPass)
        ensures
            r.wf(),
            r.workers() == worker_count,
            r.completed() == 0,
    {
        RenderPass { worker_count, completions: 0 }
    }

    /// Records one worker's completion signal.  Each worker reports
    /// exactly once per pass, so more signals than workers is a
    /// protocol violation, excluded by precondition.
    pub fn worker_done(&mut self)
        requires
            old(self).wf(),
            old(self).completed() < old(self).workers(),
        ensures
            final(self).wf(),
            final(self).workers() == old(self).workers(),
            final(self).completed() == old(self).completed() + 1,
    {
        self.completions = self.completions + 1;
    }

    /// Whether every worker has reported, releasing the caller.
    pub fn is_complete(&self) -> (r: bool)
        requires
            self.wf(),
        ensures
            r == (self.completed() == self.workers()),
    {
        self.completions == self.worker_count
    }
}

} // verus!
