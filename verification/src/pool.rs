//! The dispatcher: a fixed set of workers around one job queue.
//!
//! The pool decides; it does not run anything. Whoever drives it owns the
//! threads: each thread asks the pool for its next job, executes it, and
//! reports how it ended. Every call is one atomic step of the state machine
//! in [`crate::model`].

use crate::model::{
    lemma_complete_inv, lemma_deliver_inv, lemma_fresh_inv, lemma_join_inv, lemma_retire_inv,
    lemma_live_count_update, lemma_shut_down_inv, lemma_submit_inv, live_count, PoolView, Run,
};
use crate::queue::{JobQueue, Received, SubmitError};
use crate::worker::{JobOutcome, Worker, WorkerPhase, WorkerView};
use vstd::prelude::*;

verus! {

/// Why a pool could not be built.
#[derive(Clone, Copy, Debug, PartialEq, Eq, Structural)]
pub enum PoolCreationError {
    /// A pool needs at least one worker.
    InvalidPoolSize,
}

/// Why the pool did not take a worker's call.
#[derive(Clone, Copy, Debug, PartialEq, Eq, Structural)]
pub enum WorkerError {
    /// The pool has no worker with that index.
    NoSuchWorker,
    /// The worker is not where the call expects it: only a waiting worker
    /// asks for a job, and only a working one ends a job.
    WrongPhase,
}

/// What a worker that asked for a job does next.
pub enum Assignment<J> {
    /// Execute this job, then report its outcome.
    Run(J),
    /// Nothing is pending but the queue is open: wait, then ask again.
    Wait,
    /// The queue is closed and empty: leave the loop.
    Exit,
}

/// One step of joining the workers at shutdown.
#[derive(Clone, Copy, Debug, PartialEq, Eq, Structural)]
pub enum JoinStep {
    /// This worker had left its loop and is now joined.
    Joined(usize),
    /// This worker is next but still alive: wait for it, then step again.
    Wait(usize),
    /// Every worker has been joined.
    Done,
}

/// A fixed-size pool of workers that share one queue of jobs of type `J`.
pub struct ThreadPool<J> {
    workers: Vec<Worker>,
    queue: JobQueue<J>,
    running: bool,
    accepted: Ghost<Seq<J>>,
    runs: Ghost<Seq<Run>>,
}

impl<J> View for ThreadPool<J> {
    type V = PoolView<J>;

    closed spec fn view(&self) -> PoolView<J> {
        PoolView {
            workers: Seq::new(self.workers@.len(), |i: int| self.workers@[i]@),
            pending: self.queue@.pending,
            closed: self.queue@.closed,
            running: self.running,
            accepted: self.accepted@,
            runs: self.runs@,
        }
    }
}

impl<J> ThreadPool<J> {
    /// The pool is well formed: its state satisfies the invariant of the
    /// state machine.
    pub open spec fn wf(&self) -> bool {
        self@.inv()
    }

    /// Builds a pool of `size` workers, all waiting at an open, empty queue.
    /// A pool of no workers is refused.
    pub fn new(size: usize) -> (res: Result<Self, PoolCreationError>)
        ensures
            match res {
                Ok(pool) => {
                    &&& size >= 1
                    &&& pool.wf()
                    &&& pool@ == PoolView::<J>::fresh(size as nat)
                    &&& pool@.workers.len() == size
                    &&& pool@.live() == size
                },
                Err(PoolCreationError::InvalidPoolSize) => size == 0,
            },
    {
        if size == 0 {
            return Err(PoolCreationError::InvalidPoolSize);
        }
        let mut workers: Vec<Worker> = Vec::new();
        let mut id: usize = 0;
        while id < size
            invariant
                id <= size,
                workers@.len() == id,
                forall|i: int| 0 <= i < id ==> (#[trigger] workers@[i])@ == WorkerView::fresh(i as nat),
            decreases size - id,
        {
            workers.push(Worker::new(id));
            id += 1;
        }
        let pool = ThreadPool {
            workers,
            queue: JobQueue::new(),
            running: true,
            accepted: Ghost(Seq::empty()),
            runs: Ghost(Seq::empty()),
        };
        proof {
            lemma_fresh_inv::<J>(size as nat);
            assert(pool@.workers =~= PoolView::<J>::fresh(size as nat).workers);
        }
        Ok(pool)
    }

    /// The number of workers.
    pub fn size(&self) -> (n: usize)
        ensures
            n == self@.workers.len(),
    {
        self.workers.len()
    }

    /// The liveness flag: true from construction until shutdown begins.
    pub fn is_running(&self) -> (running: bool)
        ensures
            running == self@.running,
    {
        self.running
    }

    /// The number of jobs that wait in the queue.
    pub fn pending_jobs(&self) -> (n: usize)
        ensures
            n == self@.pending.len(),
    {
        self.queue.len()
    }

    /// Worker `index`, if the pool has one.
    pub fn worker(&self, index: usize) -> (res: Option<&Worker>)
        ensures
            match res {
                Some(worker) => self@.has_worker(index as int) && worker@ == self@.workers[index as int],
                None => !self@.has_worker(index as int),
            },
    {
        if index < self.workers.len() {
            Some(&self.workers[index])
        } else {
            None
        }
    }

    /// The number of workers that have not left their loop.
    pub fn live_workers(&self) -> (n: usize)
        ensures
            n == self@.live(),
    {
        let mut n: usize = 0;
        let mut i: usize = 0;
        while i < self.workers.len()
            invariant
                i <= self.workers@.len(),
                n <= i,
                n == live_count(self@.workers.take(i as int)),
                self@.workers.len() == self.workers@.len(),
            decreases self.workers@.len() - i,
        {
            proof {
                let next = self@.workers.take(i + 1);
                assert(next.drop_last() =~= self@.workers.take(i as int));
                assert(next.last() == self.workers@[i as int]@);
            }
            if self.workers[i].is_alive() {
                n += 1;
            }
            i += 1;
        }
        assert(self@.workers.take(i as int) =~= self@.workers);
        n
    }

    /// True once every worker has been joined.
    pub fn is_terminated(&self) -> (done: bool)
        ensures
            done == self@.terminated(),
    {
        let mut w: usize = 0;
        while w < self.workers.len()
            invariant
                w <= self.workers@.len(),
                self@.workers.len() == self.workers@.len(),
                forall|j: int| 0 <= j < w ==> !(#[trigger] self@.workers[j]).joinable,
            decreases self.workers@.len() - w,
        {
            assert(self@.workers[w as int] == self.workers@[w as int]@);
            if self.workers[w].is_joinable() {
                return false;
            }
            w += 1;
        }
        true
    }

    /// Submits a job. While the queue is open the job is accepted and will
    /// be handed to exactly one worker; it never waits for a worker to be
    /// free. Once the queue is closed the job is dropped and the caller is
    /// told so.
    pub fn execute(&mut self, job: J) -> (res: Result<(), SubmitError>)
        ensures
            old(self).wf() ==> final(self).wf(),
            final(self)@ == old(self)@.submit(job),
            match res {
                Ok(()) => {
                    &&& !old(self)@.closed
                    &&& final(self)@.accepted == old(self)@.accepted.push(job)
                    &&& final(self)@.pending == old(self)@.pending.push(job)
                },
                Err(SubmitError::Closed) => old(self)@.closed && final(self)@ == old(self)@,
            },
    {
        proof {
            if self.wf() {
                lemma_submit_inv(self@, job);
            }
        }
        match self.queue.send(job) {
            Ok(()) => {
                proof {
                    self.accepted@ = self.accepted@.push(job);
                }
                assert(self@.workers =~= old(self)@.workers);
                Ok(())
            },
            Err(e) => Err(e),
        }
    }

    /// The step of a worker that stands at the queue: it receives the oldest
    /// pending job, or is told to wait, or, when the queue is closed and
    /// empty, leaves its loop for good.
    pub fn next_job(&mut self, worker: usize) -> (res: Result<Assignment<J>, WorkerError>)
        ensures
            old(self).wf() ==> final(self).wf(),
            final(self)@ == old(self)@.receive(worker as int),
            match res {
                Ok(Assignment::Run(job)) => {
                    &&& old(self)@.waiting(worker as int)
                    &&& old(self)@.pending.len() > 0
                    &&& job == old(self)@.pending[0]
                    &&& old(self).wf() ==> job == old(self)@.accepted[old(self)@.delivered() as int]
                    &&& final(self)@ == old(self)@.deliver(worker as int)
                },
                Ok(Assignment::Wait) => {
                    &&& old(self)@.waiting(worker as int)
                    &&& old(self)@.pending.len() == 0
                    &&& !old(self)@.closed
                    &&& final(self)@ == old(self)@
                },
                Ok(Assignment::Exit) => {
                    &&& old(self)@.waiting(worker as int)
                    &&& old(self)@.pending.len() == 0
                    &&& old(self)@.closed
                    &&& final(self)@ == old(self)@.retire(worker as int)
                },
                Err(WorkerError::NoSuchWorker) => {
                    &&& !old(self)@.has_worker(worker as int)
                    &&& final(self)@ == old(self)@
                },
                Err(WorkerError::WrongPhase) => {
                    &&& old(self)@.has_worker(worker as int)
                    &&& !old(self)@.waiting(worker as int)
                    &&& final(self)@ == old(self)@
                },
            },
    {
        if worker >= self.workers.len() {
            return Err(WorkerError::NoSuchWorker);
        }
        assert(self@.workers[worker as int] == self.workers@[worker as int]@);
        match self.workers[worker].phase() {
            WorkerPhase::Waiting => {},
            WorkerPhase::Working | WorkerPhase::Exited => {
                return Err(WorkerError::WrongPhase);
            },
        }
        match self.queue.recv() {
            Received::Job(job) => {
                proof {
                    if old(self).wf() {
                        lemma_deliver_inv(old(self)@, worker as int);
                    }
                }
                self.workers[worker].start(Ghost(self.runs@.len()));
                proof {
                    self.runs@ = self.runs@.push(Run { worker: worker as nat, outcome: None });
                }
                assert(self@.workers =~= old(self)@.deliver(worker as int).workers);
                Ok(Assignment::Run(job))
            },
            Received::Empty => {
                assert(self@.workers =~= old(self)@.workers);
                Ok(Assignment::Wait)
            },
            Received::Closed => {
                proof {
                    if old(self).wf() {
                        lemma_retire_inv(old(self)@, worker as int);
                    }
                }
                self.workers[worker].exit();
                assert(self@.workers =~= old(self)@.retire(worker as int).workers);
                Ok(Assignment::Exit)
            },
        }
    }

    /// The step of a worker that has executed its job: the outcome is
    /// recorded and the worker is back at the queue. A failed job does not
    /// cost the pool its worker.
    pub fn finish_job(&mut self, worker: usize, outcome: JobOutcome) -> (res: Result<
        (),
        WorkerError,
    >)
        ensures
            old(self).wf() ==> final(self).wf(),
            final(self)@ == old(self)@.finish(worker as int, outcome),
            match res {
                Ok(()) => {
                    &&& old(self)@.working(worker as int)
                    &&& final(self)@ == old(self)@.complete(worker as int, outcome)
                    &&& final(self)@.waiting(worker as int)
                    &&& final(self)@.live() == old(self)@.live()
                },
                Err(WorkerError::NoSuchWorker) => {
                    &&& !old(self)@.has_worker(worker as int)
                    &&& final(self)@ == old(self)@
                },
                Err(WorkerError::WrongPhase) => {
                    &&& old(self)@.has_worker(worker as int)
                    &&& !old(self)@.working(worker as int)
                    &&& final(self)@ == old(self)@
                },
            },
    {
        if worker >= self.workers.len() {
            return Err(WorkerError::NoSuchWorker);
        }
        assert(self@.workers[worker as int] == self.workers@[worker as int]@);
        match self.workers[worker].phase() {
            WorkerPhase::Working => {},
            WorkerPhase::Waiting | WorkerPhase::Exited => {
                return Err(WorkerError::WrongPhase);
            },
        }
        proof {
            if old(self).wf() {
                lemma_complete_inv(old(self)@, worker as int, outcome);
            }
            self.runs@ = self.runs@.update(
                self.workers@[worker as int]@.ticket as int,
                Run { worker: worker as nat, outcome: Some(outcome) },
            );
        }
        self.workers[worker].wait();
        assert(self@.workers =~= old(self)@.complete(worker as int, outcome).workers);
        proof {
            lemma_live_count_update(old(self)@.workers, worker as int, self@.workers[worker as int]);
        }
        Ok(())
    }

    /// Begins the shutdown: the liveness flag goes down and the queue is
    /// closed. Jobs that are pending stay pending and will still be handed
    /// out. A second call changes nothing.
    pub fn begin_shutdown(&mut self)
        ensures
            old(self).wf() ==> final(self).wf(),
            final(self)@ == old(self)@.shut_down(),
    {
        proof {
            if self.wf() {
                lemma_shut_down_inv(self@);
            }
        }
        self.running = false;
        self.queue.close();
        assert(self@.workers =~= old(self)@.workers);
    }

    /// One step of the teardown. Shutdown begins if it has not begun. Then
    /// the workers are joined in the order of their indices: the step joins
    /// the first worker that is not joined yet if it has left its loop,
    /// and otherwise names it, so that the caller can wait for it.
    pub fn join_next(&mut self) -> (step: JoinStep)
        ensures
            old(self).wf() ==> final(self).wf(),
            ({
                let shut = old(self)@.shut_down();
                match step {
                    JoinStep::Joined(w) => {
                        &&& shut.next_to_join(w as int)
                        &&& shut.exited(w as int)
                        &&& final(self)@ == shut.join(w as int)
                        &&& final(self)@ == old(self)@.reap(w as int)
                    },
                    JoinStep::Wait(w) => {
                        &&& shut.next_to_join(w as int)
                        &&& !shut.exited(w as int)
                        &&& final(self)@ == shut
                        &&& final(self)@ == old(self)@.reap(w as int)
                    },
                    JoinStep::Done => shut.terminated() && final(self)@ == shut,
                }
            }),
    {
        self.begin_shutdown();
        let ghost shut = self@;
        let mut w: usize = 0;
        while w < self.workers.len() && !self.workers[w].is_joinable()
            invariant
                w <= self.workers@.len(),
                self@ == shut,
                shut.workers.len() == self.workers@.len(),
                forall|j: int| 0 <= j < w ==> !(#[trigger] shut.workers[j]).joinable,
            decreases self.workers@.len() - w,
        {
            assert(shut.workers[w as int] == self.workers@[w as int]@);
            w += 1;
        }
        if w == self.workers.len() {
            return JoinStep::Done;
        }
        assert(shut.workers[w as int] == self.workers@[w as int]@);
        if self.workers[w].is_alive() {
            JoinStep::Wait(w)
        } else {
            proof {
                if shut.inv() {
                    lemma_join_inv(shut, w as int);
                }
            }
            self.workers[w].take_handle();
            assert(self@.workers =~= shut.join(w as int).workers);
            JoinStep::Joined(w)
        }
    }
}

} // verus!
