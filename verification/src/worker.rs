//! A worker of the pool: one consumer of the job queue.

use vstd::prelude::*;

verus! {

/// Where a worker stands in its loop.
#[derive(Clone, Copy, Debug, PartialEq, Eq, Structural)]
pub enum WorkerPhase {
    /// At the queue, with no job in hand.
    Waiting,
    /// Executing the job it received last.
    Working,
    /// Out of its loop for good: it found the queue closed and empty.
    Exited,
}

/// How the execution of a job ended.
#[derive(Clone, Copy, Debug, PartialEq, Eq, Structural)]
pub enum JobOutcome {
    /// The job ran to its end.
    Completed,
    /// The job failed inside; the failure stayed inside the job.
    Failed,
}

/// A worker, as a mathematical value.
pub struct WorkerView {
    /// The worker's index in its pool.
    pub id: nat,
    /// Where the worker stands.
    pub phase: WorkerPhase,
    /// True until the worker has been joined.
    pub joinable: bool,
    /// While the worker is `Working`: the number of the job it executes,
    /// counted in the order in which jobs were accepted.
    pub ticket: nat,
}

/// One worker of a pool.
pub struct Worker {
    id: usize,
    phase: WorkerPhase,
    handle: bool,
    ticket: Ghost<nat>,
}

impl View for Worker {
    type V = WorkerView;

    closed spec fn view(&self) -> WorkerView {
        WorkerView {
            id: self.id as nat,
            phase: self.phase,
            joinable: self.handle,
            ticket: self.ticket@,
        }
    }
}

impl WorkerView {
    /// A worker that has just been started.
    pub open spec fn fresh(id: nat) -> WorkerView {
        WorkerView { id, phase: WorkerPhase::Waiting, joinable: true, ticket: 0 }
    }

    /// True until the worker has left its loop.
    pub open spec fn alive(self) -> bool {
        self.phase != WorkerPhase::Exited
    }
}

impl Worker {
    /// A worker with the given index, waiting at the queue, not yet joined.
    pub fn new(id: usize) -> (worker: Worker)
        ensures
            worker@ == WorkerView::fresh(id as nat),
    {
        Worker { id, phase: WorkerPhase::Waiting, handle: true, ticket: Ghost(0) }
    }

    /// The worker's index in its pool.
    pub fn id(&self) -> (id: usize)
        ensures
            id == self@.id,
    {
        self.id
    }

    /// Where the worker stands.
    pub fn phase(&self) -> (phase: WorkerPhase)
        ensures
            phase == self@.phase,
    {
        self.phase
    }

    /// True until the worker has left its loop.
    pub fn is_alive(&self) -> (alive: bool)
        ensures
            alive == self@.alive(),
    {
        match self.phase {
            WorkerPhase::Exited => false,
            WorkerPhase::Waiting | WorkerPhase::Working => true,
        }
    }

    /// True until the worker has been joined.
    pub fn is_joinable(&self) -> (joinable: bool)
        ensures
            joinable == self@.joinable,
    {
        self.handle
    }

    /// The worker takes up the job with the given number.
    pub(crate) fn start(&mut self, ticket: Ghost<nat>)
        ensures
            final(self)@ == (WorkerView {
                phase: WorkerPhase::Working,
                ticket: ticket@,
                ..old(self)@
            }),
    {
        self.phase = WorkerPhase::Working;
        self.ticket = ticket;
    }

    /// The worker returns to the queue.
    pub(crate) fn wait(&mut self)
        ensures
            final(self)@ == (WorkerView { phase: WorkerPhase::Waiting, ..old(self)@ }),
    {
        self.phase = WorkerPhase::Waiting;
    }

    /// The worker leaves its loop.
    pub(crate) fn exit(&mut self)
        ensures
            final(self)@ == (WorkerView { phase: WorkerPhase::Exited, ..old(self)@ }),
    {
        self.phase = WorkerPhase::Exited;
    }

    /// The worker's handle is taken: it counts as joined from now on.
    pub(crate) fn take_handle(&mut self)
        ensures
            final(self)@ == (WorkerView { joinable: false, ..old(self)@ }),
    {
        self.handle = false;
    }
}

} // verus!
