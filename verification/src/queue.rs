//! The job queue: first in, first out, without bound, and with a closed
//! state that ends submission but not delivery.

use std::collections::VecDeque;
use vstd::prelude::*;

verus! {

/// What a queue holds, as a mathematical value.
pub struct QueueView<J> {
    /// The jobs that wait to be delivered, oldest first.
    pub pending: Seq<J>,
    /// True once the sending side is gone.
    pub closed: bool,
}

/// Why a job was not taken into the queue.
#[derive(Clone, Copy, Debug, PartialEq, Eq, Structural)]
pub enum SubmitError {
    /// The sending side was closed before the job arrived.
    Closed,
}

/// What a receive finds.
pub enum Received<J> {
    /// The oldest pending job, now removed from the queue.
    Job(J),
    /// Nothing is pending, but more may come: the receiver has to wait.
    Empty,
    /// Nothing is pending and nothing will come.
    Closed,
}

/// An unbounded first-in-first-out queue of jobs that can be closed.
///
/// Closing stops new jobs from entering. Jobs that entered before stay in
/// the queue until they are received.
pub struct JobQueue<J> {
    jobs: VecDeque<J>,
    closed: bool,
}

impl<J> View for JobQueue<J> {
    type V = QueueView<J>;

    closed spec fn view(&self) -> QueueView<J> {
        QueueView { pending: self.jobs@, closed: self.closed }
    }
}

impl<J> JobQueue<J> {
    /// An open queue with nothing in it.
    pub fn new() -> (queue: Self)
        ensures
            queue@ == (QueueView { pending: Seq::<J>::empty(), closed: false }),
    {
        JobQueue { jobs: VecDeque::new(), closed: false }
    }

    /// Appends `job` unless the queue is closed. A refused job is dropped.
    pub fn send(&mut self, job: J) -> (res: Result<(), SubmitError>)
        ensures
            match res {
                Ok(()) => !old(self)@.closed && final(self)@ == (QueueView {
                    pending: old(self)@.pending.push(job),
                    closed: false,
                }),
                Err(SubmitError::Closed) => old(self)@.closed && final(self)@ == old(self)@,
            },
    {
        if self.closed {
            Err(SubmitError::Closed)
        } else {
            self.jobs.push_back(job);
            Ok(())
        }
    }

    /// Removes and returns the oldest pending job. Where nothing is pending,
    /// tells whether anything can still come.
    pub fn recv(&mut self) -> (res: Received<J>)
        ensures
            match res {
                Received::Job(job) => {
                    &&& old(self)@.pending.len() > 0
                    &&& job == old(self)@.pending[0]
                    &&& final(self)@ == (QueueView {
                        pending: old(self)@.pending.skip(1),
                        closed: old(self)@.closed,
                    })
                },
                Received::Empty => {
                    &&& old(self)@.pending.len() == 0
                    &&& !old(self)@.closed
                    &&& final(self)@ == old(self)@
                },
                Received::Closed => {
                    &&& old(self)@.pending.len() == 0
                    &&& old(self)@.closed
                    &&& final(self)@ == old(self)@
                },
            },
    {
        match self.jobs.pop_front() {
            Some(job) => {
                assert(self.jobs@ =~= old(self).jobs@.skip(1));
                Received::Job(job)
            },
            None => {
                if self.closed {
                    Received::Closed
                } else {
                    Received::Empty
                }
            },
        }
    }

    /// Closes the sending side. What is pending stays; closing again changes
    /// nothing.
    pub fn close(&mut self)
        ensures
            final(self)@ == (QueueView { pending: old(self)@.pending, closed: true }),
    {
        self.closed = true;
    }

    /// True once the queue has been closed.
    pub fn is_closed(&self) -> (closed: bool)
        ensures
            closed == self@.closed,
    {
        self.closed
    }

    /// The number of pending jobs.
    pub fn len(&self) -> (n: usize)
        ensures
            n == self@.pending.len(),
    {
        self.jobs.len()
    }

    /// True when nothing is pending.
    pub fn is_empty(&self) -> (empty: bool)
        ensures
            empty == (self@.pending.len() == 0),
    {
        self.jobs.len() == 0
    }
}

} // verus!
