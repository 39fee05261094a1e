//! The pool as a mathematical state machine: its state, the steps it can
//! take, the invariant that every step keeps, and what follows from it.
//!
//! Jobs are numbered in the order in which the pool accepted them. The state
//! remembers every job it ever accepted and, for every job that was handed
//! to a worker, which worker got it and how the execution ended.

use crate::worker::{JobOutcome, WorkerPhase, WorkerView};
use vstd::prelude::*;

verus! {

/// The record of one job handed to a worker.
pub struct Run {
    /// The worker that received the job.
    pub worker: nat,
    /// How the execution ended; `None` while it lasts.
    pub outcome: Option<JobOutcome>,
}

/// The state of a pool.
pub struct PoolView<J> {
    /// The workers, by index.
    pub workers: Seq<WorkerView>,
    /// The jobs in the queue, oldest first.
    pub pending: Seq<J>,
    /// True once the sending side of the queue is closed.
    pub closed: bool,
    /// The liveness flag that callers may read.
    pub running: bool,
    /// Every job that was ever accepted, in the order of acceptance.
    pub accepted: Seq<J>,
    /// One record for every job handed to a worker: record `k` is about
    /// job `k` of `accepted`.
    pub runs: Seq<Run>,
}

/// One step of a pool. A step that a pool cannot take in its state leaves
/// the state as it is.
pub enum Step<J> {
    /// A job is submitted.
    Submit(J),
    /// The worker with this index asks for its next job.
    Receive(int),
    /// The worker with this index reports how its job ended.
    Finish(int, JobOutcome),
    /// Shutdown begins.
    ShutDown,
    /// The teardown looks at the worker with this index, to join it.
    Join(int),
}

/// How many of `workers` are alive.
pub open spec fn live_count(workers: Seq<WorkerView>) -> nat
    decreases workers.len(),
{
    if workers.len() == 0 {
        0
    } else {
        live_count(workers.drop_last()) + if workers.last().alive() {
            1nat
        } else {
            0nat
        }
    }
}

impl<J> PoolView<J> {
    /// A pool that has just been built with `size` workers.
    pub open spec fn fresh(size: nat) -> Self {
        PoolView {
            workers: Seq::new(size, |i: int| WorkerView::fresh(i as nat)),
            pending: Seq::empty(),
            closed: false,
            running: true,
            accepted: Seq::empty(),
            runs: Seq::empty(),
        }
    }

    /// Worker `w` exists.
    pub open spec fn has_worker(self, w: int) -> bool {
        0 <= w < self.workers.len()
    }

    /// Worker `w` exists and waits at the queue.
    pub open spec fn waiting(self, w: int) -> bool {
        self.has_worker(w) && self.workers[w].phase == WorkerPhase::Waiting
    }

    /// Worker `w` exists and executes a job.
    pub open spec fn working(self, w: int) -> bool {
        self.has_worker(w) && self.workers[w].phase == WorkerPhase::Working
    }

    /// Worker `w` exists and has left its loop.
    pub open spec fn exited(self, w: int) -> bool {
        self.has_worker(w) && self.workers[w].phase == WorkerPhase::Exited
    }

    /// Worker `w` is the one to join next: not joined yet, while every worker
    /// with a lower index is.
    pub open spec fn next_to_join(self, w: int) -> bool {
        &&& self.has_worker(w)
        &&& self.workers[w].joinable
        &&& forall|j: int| 0 <= j < w ==> !(#[trigger] self.workers[j]).joinable
    }

    /// Every worker has been joined.
    pub open spec fn terminated(self) -> bool {
        forall|w: int| 0 <= w < self.workers.len() ==> !(#[trigger] self.workers[w]).joinable
    }

    /// The number of workers that are alive.
    pub open spec fn live(self) -> nat {
        live_count(self.workers)
    }

    /// The number of jobs handed to workers so far.
    pub open spec fn delivered(self) -> nat {
        self.runs.len()
    }

    /// Job `k` has been executed to its end, well or badly.
    pub open spec fn executed(self, k: int) -> bool {
        0 <= k < self.runs.len() && self.runs[k].outcome is Some
    }

    /// The invariant of the pool.
    #[verifier::opaque]
    pub open spec fn inv(self) -> bool {
        &&& self.workers.len() >= 1
        &&& self.running == !self.closed
        &&& self.runs.len() <= self.accepted.len()
        &&& self.pending == self.accepted.skip(self.runs.len() as int)
        &&& forall|k: int|
            0 <= k < self.runs.len() ==> {
                let run = #[trigger] self.runs[k];
                &&& run.worker < self.workers.len()
                &&& run.outcome is None ==> {
                    &&& self.workers[run.worker as int].phase == WorkerPhase::Working
                    &&& self.workers[run.worker as int].ticket == k
                }
            }
        &&& forall|w: int|
            0 <= w < self.workers.len() ==> {
                let worker = #[trigger] self.workers[w];
                &&& worker.id == w
                &&& worker.phase == WorkerPhase::Working ==> {
                    &&& worker.ticket < self.runs.len()
                    &&& self.runs[worker.ticket as int].worker == w
                    &&& self.runs[worker.ticket as int].outcome is None
                }
                &&& worker.phase == WorkerPhase::Exited ==> self.closed && self.pending.len() == 0
                &&& !worker.joinable ==> worker.phase == WorkerPhase::Exited
            }
        &&& forall|a: int, b: int|
            0 <= a < b < self.workers.len() && !(#[trigger] self.workers[b]).joinable ==> !(
            #[trigger] self.workers[a]).joinable
    }

    /// A job is submitted: it is accepted and queued while the queue is
    /// open, and dropped once it is closed.
    pub open spec fn submit(self, job: J) -> Self {
        if self.closed {
            self
        } else {
            PoolView {
                pending: self.pending.push(job),
                accepted: self.accepted.push(job),
                ..self
            }
        }
    }

    /// Waiting worker `w` receives the oldest pending job.
    pub open spec fn deliver(self, w: int) -> Self {
        PoolView {
            workers: self.workers.update(
                w,
                WorkerView {
                    phase: WorkerPhase::Working,
                    ticket: self.runs.len(),
                    ..self.workers[w]
                },
            ),
            pending: self.pending.skip(1),
            runs: self.runs.push(Run { worker: w as nat, outcome: None }),
            ..self
        }
    }

    /// Waiting worker `w` finds the queue closed and empty, and leaves.
    pub open spec fn retire(self, w: int) -> Self {
        PoolView {
            workers: self.workers.update(
                w,
                WorkerView { phase: WorkerPhase::Exited, ..self.workers[w] },
            ),
            ..self
        }
    }

    /// Working worker `w` ends its job with `outcome` and returns to the
    /// queue, whatever the outcome.
    pub open spec fn complete(self, w: int, outcome: JobOutcome) -> Self {
        PoolView {
            workers: self.workers.update(
                w,
                WorkerView { phase: WorkerPhase::Waiting, ..self.workers[w] },
            ),
            runs: self.runs.update(
                self.workers[w].ticket as int,
                Run { worker: w as nat, outcome: Some(outcome) },
            ),
            ..self
        }
    }

    /// Shutdown begins: the flag goes down and the queue is closed.
    pub open spec fn shut_down(self) -> Self {
        PoolView { closed: true, running: false, ..self }
    }

    /// Worker `w` is joined.
    pub open spec fn join(self, w: int) -> Self {
        PoolView {
            workers: self.workers.update(w, WorkerView { joinable: false, ..self.workers[w] }),
            ..self
        }
    }

    /// Worker `w` asks for its next job. A waiting worker receives the
    /// oldest pending job; finding none, it leaves if the queue is closed
    /// and goes on waiting if it is open. From any other worker the call
    /// changes nothing.
    pub open spec fn receive(self, w: int) -> Self {
        if !self.waiting(w) {
            self
        } else if self.pending.len() > 0 {
            self.deliver(w)
        } else if self.closed {
            self.retire(w)
        } else {
            self
        }
    }

    /// Worker `w` reports the outcome of its job. From a worker that
    /// executes no job the call changes nothing.
    pub open spec fn finish(self, w: int, outcome: JobOutcome) -> Self {
        if self.working(w) {
            self.complete(w, outcome)
        } else {
            self
        }
    }

    /// The teardown looks at worker `w`: shutdown begins if it has not
    /// begun, and the worker is joined if it is the next to join and has
    /// left its loop.
    pub open spec fn reap(self, w: int) -> Self {
        let shut = self.shut_down();
        if shut.next_to_join(w) && shut.exited(w) {
            shut.join(w)
        } else {
            shut
        }
    }

    /// The state after one step.
    pub open spec fn step(self, step: Step<J>) -> Self {
        match step {
            Step::Submit(job) => self.submit(job),
            Step::Receive(w) => self.receive(w),
            Step::Finish(w, outcome) => self.finish(w, outcome),
            Step::ShutDown => self.shut_down(),
            Step::Join(w) => self.reap(w),
        }
    }

    /// The state after a sequence of steps.
    pub open spec fn after(self, steps: Seq<Step<J>>) -> Self
        decreases steps.len(),
    {
        if steps.len() == 0 {
            self
        } else {
            self.after(steps.drop_last()).step(steps.last())
        }
    }

    /// `later` continues the history of `self`: the same workers; every
    /// job accepted then is accepted now, under the same number; every job
    /// handed out then is still with the same worker, and what was executed
    /// stays as it was recorded; a closed queue stays closed and accepts
    /// nothing more; a worker that has left stays away, and a joined one
    /// stays joined.
    pub open spec fn grows_into(self, later: Self) -> bool {
        &&& later.workers.len() == self.workers.len()
        &&& self.accepted.is_prefix_of(later.accepted)
        &&& self.runs.len() <= later.runs.len()
        &&& forall|k: int|
            0 <= k < self.runs.len() ==> {
                &&& (#[trigger] later.runs[k]).worker == self.runs[k].worker
                &&& self.runs[k].outcome is Some ==> later.runs[k] == self.runs[k]
            }
        &&& self.closed ==> later.closed && later.accepted == self.accepted
        &&& forall|w: int|
            0 <= w < self.workers.len() ==> {
                &&& self.workers[w].phase == WorkerPhase::Exited ==> (
                #[trigger] later.workers[w]).phase == WorkerPhase::Exited
                &&& !self.workers[w].joinable ==> !later.workers[w].joinable
            }
    }
}

/// At most all workers are alive: exactly all where each one is, and none
/// where none is.
pub proof fn lemma_live_count(workers: Seq<WorkerView>)
    ensures
        live_count(workers) <= workers.len(),
        (forall|i: int| 0 <= i < workers.len() ==> (#[trigger] workers[i]).alive())
            ==> live_count(workers) == workers.len(),
        (forall|i: int| 0 <= i < workers.len() ==> !(#[trigger] workers[i]).alive())
            ==> live_count(workers) == 0,
    decreases workers.len(),
{
    if workers.len() > 0 {
        let front = workers.drop_last();
        lemma_live_count(front);
        assert(forall|i: int| 0 <= i < front.len() ==> front[i] == workers[i]);
        if forall|i: int| 0 <= i < workers.len() ==> (#[trigger] workers[i]).alive() {
            assert(forall|i: int| 0 <= i < front.len() ==> (#[trigger] front[i]).alive());
        }
        if forall|i: int| 0 <= i < workers.len() ==> !(#[trigger] workers[i]).alive() {
            assert(forall|i: int| 0 <= i < front.len() ==> !(#[trigger] front[i]).alive());
        }
    }
}

/// Replacing a worker by one that is as alive as it was leaves the number
/// of live workers as it was.
pub proof fn lemma_live_count_update(workers: Seq<WorkerView>, w: int, worker: WorkerView)
    requires
        0 <= w < workers.len(),
        worker.alive() == workers[w].alive(),
    ensures
        live_count(workers.update(w, worker)) == live_count(workers),
    decreases workers.len(),
{
    let after = workers.update(w, worker);
    if w == workers.len() - 1 {
        assert(after.drop_last() =~= workers.drop_last());
    } else {
        lemma_live_count_update(workers.drop_last(), w, worker);
        assert(after.drop_last() =~= workers.drop_last().update(w, worker));
    }
}

/// A new pool satisfies the invariant, has exactly as many workers as were
/// asked for, all of them alive and at the queue, and it has no history.
pub proof fn lemma_fresh_inv<J>(size: nat)
    requires
        size >= 1,
    ensures
        PoolView::<J>::fresh(size).inv(),
        PoolView::<J>::fresh(size).workers.len() == size,
        PoolView::<J>::fresh(size).live() == size,
        forall|w: int| 0 <= w < size ==> PoolView::<J>::fresh(size).waiting(w),
{
    reveal(PoolView::inv);
    let v = PoolView::<J>::fresh(size);
    assert(v.pending =~= v.accepted.skip(0));
    lemma_live_count(v.workers);
}

/// Submitting keeps the invariant.
pub proof fn lemma_submit_inv<J>(v: PoolView<J>, job: J)
    requires
        v.inv(),
    ensures
        v.submit(job).inv(),
{
    reveal(PoolView::inv);
    let n = v.submit(job);
    if !v.closed {
        assert(n.pending =~= n.accepted.skip(n.runs.len() as int));
        assert forall|w: int| 0 <= w < n.workers.len() implies (#[trigger] n.workers[w]).phase
            != WorkerPhase::Exited by {
            assert(v.workers[w].phase == WorkerPhase::Exited ==> v.closed);
        }
    }
}

/// Handing the oldest pending job to a waiting worker keeps the invariant.
pub proof fn lemma_deliver_inv<J>(v: PoolView<J>, w: int)
    requires
        v.inv(),
        v.waiting(w),
        v.pending.len() > 0,
    ensures
        v.deliver(w).inv(),
        v.pending[0] == v.accepted[v.runs.len() as int],
{
    reveal(PoolView::inv);
    let n = v.deliver(w);
    assert(n.pending =~= n.accepted.skip(n.runs.len() as int));
    assert forall|k: int| 0 <= k < n.runs.len() implies {
        let run = #[trigger] n.runs[k];
        &&& run.worker < n.workers.len()
        &&& run.outcome is None ==> {
            &&& n.workers[run.worker as int].phase == WorkerPhase::Working
            &&& n.workers[run.worker as int].ticket == k
        }
    } by {
        if k < v.runs.len() {
            assert(n.runs[k] == v.runs[k]);
        }
    }
    assert forall|x: int| 0 <= x < n.workers.len() implies {
        let worker = #[trigger] n.workers[x];
        &&& worker.id == x
        &&& worker.phase == WorkerPhase::Working ==> {
            &&& worker.ticket < n.runs.len()
            &&& n.runs[worker.ticket as int].worker == x
            &&& n.runs[worker.ticket as int].outcome is None
        }
        &&& worker.phase == WorkerPhase::Exited ==> n.closed && n.pending.len() == 0
        &&& !worker.joinable ==> worker.phase == WorkerPhase::Exited
    } by {
        assert(v.workers[w].phase != WorkerPhase::Exited);
        if x != w {
            assert(n.workers[x] == v.workers[x]);
            assert(v.workers[x].phase == WorkerPhase::Exited ==> v.pending.len() == 0);
        }
    }
    assert forall|a: int, b: int|
        0 <= a < b < n.workers.len() && !(#[trigger] n.workers[b]).joinable implies !(
    #[trigger] n.workers[a]).joinable by {
        assert(n.workers[a].joinable == v.workers[a].joinable);
        assert(n.workers[b].joinable == v.workers[b].joinable);
    }
}

/// A waiting worker that leaves a closed and empty queue keeps the
/// invariant.
pub proof fn lemma_retire_inv<J>(v: PoolView<J>, w: int)
    requires
        v.inv(),
        v.waiting(w),
        v.closed,
        v.pending.len() == 0,
    ensures
        v.retire(w).inv(),
{
    reveal(PoolView::inv);
    let n = v.retire(w);
    assert forall|k: int| 0 <= k < n.runs.len() implies {
        let run = #[trigger] n.runs[k];
        &&& run.worker < n.workers.len()
        &&& run.outcome is None ==> {
            &&& n.workers[run.worker as int].phase == WorkerPhase::Working
            &&& n.workers[run.worker as int].ticket == k
        }
    } by {
        assert(n.runs[k] == v.runs[k]);
    }
    assert forall|x: int| 0 <= x < n.workers.len() implies {
        let worker = #[trigger] n.workers[x];
        &&& worker.id == x
        &&& worker.phase == WorkerPhase::Working ==> {
            &&& worker.ticket < n.runs.len()
            &&& n.runs[worker.ticket as int].worker == x
            &&& n.runs[worker.ticket as int].outcome is None
        }
        &&& worker.phase == WorkerPhase::Exited ==> n.closed && n.pending.len() == 0
        &&& !worker.joinable ==> worker.phase == WorkerPhase::Exited
    } by {
        if x != w {
            assert(n.workers[x] == v.workers[x]);
        }
    }
    assert forall|a: int, b: int|
        0 <= a < b < n.workers.len() && !(#[trigger] n.workers[b]).joinable implies !(
    #[trigger] n.workers[a]).joinable by {
        assert(n.workers[a].joinable == v.workers[a].joinable);
        assert(n.workers[b].joinable == v.workers[b].joinable);
    }
}

/// Ending a job keeps the invariant, and the worker is alive afterwards,
/// whether the job failed or not.
pub proof fn lemma_complete_inv<J>(v: PoolView<J>, w: int, outcome: JobOutcome)
    requires
        v.inv(),
        v.working(w),
    ensures
        v.complete(w, outcome).inv(),
        v.complete(w, outcome).waiting(w),
        v.complete(w, outcome).executed(v.workers[w].ticket as int),
{
    reveal(PoolView::inv);
    let n = v.complete(w, outcome);
    let t = v.workers[w].ticket as int;
    assert forall|k: int| 0 <= k < n.runs.len() implies {
        let run = #[trigger] n.runs[k];
        &&& run.worker < n.workers.len()
        &&& run.outcome is None ==> {
            &&& n.workers[run.worker as int].phase == WorkerPhase::Working
            &&& n.workers[run.worker as int].ticket == k
        }
    } by {
        if k != t {
            assert(n.runs[k] == v.runs[k]);
            if v.runs[k].outcome is None {
                assert(v.workers[v.runs[k].worker as int].ticket == k);
                assert(v.runs[k].worker != w);
            }
        }
    }
    assert forall|x: int| 0 <= x < n.workers.len() implies {
        let worker = #[trigger] n.workers[x];
        &&& worker.id == x
        &&& worker.phase == WorkerPhase::Working ==> {
            &&& worker.ticket < n.runs.len()
            &&& n.runs[worker.ticket as int].worker == x
            &&& n.runs[worker.ticket as int].outcome is None
        }
        &&& worker.phase == WorkerPhase::Exited ==> n.closed && n.pending.len() == 0
        &&& !worker.joinable ==> worker.phase == WorkerPhase::Exited
    } by {
        if x != w {
            assert(n.workers[x] == v.workers[x]);
            if v.workers[x].phase == WorkerPhase::Working {
                assert(v.runs[v.workers[x].ticket as int].worker == x);
                assert(v.workers[x].ticket != t);
            }
        } else {
            assert(v.workers[w].joinable);
        }
    }
    assert forall|a: int, b: int|
        0 <= a < b < n.workers.len() && !(#[trigger] n.workers[b]).joinable implies !(
    #[trigger] n.workers[a]).joinable by {
        assert(n.workers[a].joinable == v.workers[a].joinable);
        assert(n.workers[b].joinable == v.workers[b].joinable);
    }
}

/// Beginning the shutdown keeps the invariant, loses no job, and is
/// idempotent.
pub proof fn lemma_shut_down_inv<J>(v: PoolView<J>)
    requires
        v.inv(),
    ensures
        v.shut_down().inv(),
        v.shut_down().pending == v.pending,
        v.shut_down().accepted == v.accepted,
        v.shut_down().shut_down() == v.shut_down(),
{
    reveal(PoolView::inv);
    let n = v.shut_down();
    assert forall|k: int| 0 <= k < n.runs.len() implies {
        let run = #[trigger] n.runs[k];
        &&& run.worker < n.workers.len()
        &&& run.outcome is None ==> {
            &&& n.workers[run.worker as int].phase == WorkerPhase::Working
            &&& n.workers[run.worker as int].ticket == k
        }
    } by {
        assert(n.runs[k] == v.runs[k]);
    }
}

/// Joining the next worker, once it has left its loop, keeps the invariant.
pub proof fn lemma_join_inv<J>(v: PoolView<J>, w: int)
    requires
        v.inv(),
        v.next_to_join(w),
        v.exited(w),
    ensures
        v.join(w).inv(),
{
    reveal(PoolView::inv);
    let n = v.join(w);
    assert forall|k: int| 0 <= k < n.runs.len() implies {
        let run = #[trigger] n.runs[k];
        &&& run.worker < n.workers.len()
        &&& run.outcome is None ==> {
            &&& n.workers[run.worker as int].phase == WorkerPhase::Working
            &&& n.workers[run.worker as int].ticket == k
        }
    } by {
        assert(n.runs[k] == v.runs[k]);
        if v.runs[k].outcome is None {
            assert(v.runs[k].worker != w);
        }
    }
    assert forall|x: int| 0 <= x < n.workers.len() implies {
        let worker = #[trigger] n.workers[x];
        &&& worker.id == x
        &&& worker.phase == WorkerPhase::Working ==> {
            &&& worker.ticket < n.runs.len()
            &&& n.runs[worker.ticket as int].worker == x
            &&& n.runs[worker.ticket as int].outcome is None
        }
        &&& worker.phase == WorkerPhase::Exited ==> n.closed && n.pending.len() == 0
        &&& !worker.joinable ==> worker.phase == WorkerPhase::Exited
    } by {
        if x != w {
            assert(n.workers[x] == v.workers[x]);
        }
    }
    assert forall|a: int, b: int|
        0 <= a < b < n.workers.len() && !(#[trigger] n.workers[b]).joinable implies !(
    #[trigger] n.workers[a]).joinable by {
        if b != w {
            assert(n.workers[b] == v.workers[b]);
            assert(!v.workers[a].joinable);
        }
        if a != w {
            assert(n.workers[a].joinable == v.workers[a].joinable);
        }
    }
}

/// Workers are joined in the order of their indices, and only after they
/// have left their loop: below a joined worker every worker is joined, and
/// every joined worker has exited.
pub proof fn lemma_joined_in_index_order<J>(v: PoolView<J>, a: int, b: int)
    requires
        v.inv(),
        0 <= a <= b < v.workers.len(),
        !v.workers[b].joinable,
    ensures
        !v.workers[a].joinable,
        v.exited(a),
        v.exited(b),
{
    reveal(PoolView::inv);
}

/// No job is lost and none is handed out twice: the jobs handed out so far
/// are the first of the accepted ones, in order, and the rest are those
/// that wait in the queue. Each job handed out has one record, which names
/// one worker of the pool.
pub proof fn lemma_every_job_once<J>(v: PoolView<J>)
    requires
        v.inv(),
    ensures
        v.delivered() <= v.accepted.len(),
        v.accepted == v.accepted.take(v.delivered() as int) + v.pending,
        v.accepted.len() == v.delivered() + v.pending.len(),
        forall|k: int| 0 <= k < v.delivered() ==> v.has_worker((#[trigger] v.runs[k]).worker as int),
        forall|k: int|
            0 <= k < v.delivered() ==> (v.executed(k) || (v.working(
                (#[trigger] v.runs[k]).worker as int,
            ) && v.workers[v.runs[k].worker as int].ticket == k)),
{
    reveal(PoolView::inv);
    assert(v.accepted =~= v.accepted.take(v.delivered() as int) + v.pending);
}

/// A worker executes one job at a time, and no job is in the hands of two
/// workers: two working workers hold different jobs.
pub proof fn lemma_one_job_per_worker<J>(v: PoolView<J>, a: int, b: int)
    requires
        v.inv(),
        v.working(a),
        v.working(b),
        a != b,
    ensures
        v.workers[a].ticket != v.workers[b].ticket,
{
    reveal(PoolView::inv);
    assert(v.runs[v.workers[a].ticket as int].worker == a);
    assert(v.runs[v.workers[b].ticket as int].worker == b);
}

/// Once every worker has been joined, no worker is alive, the queue is
/// closed and empty, and every job that was ever accepted has been executed
/// to its end.
pub proof fn lemma_terminated_ran_everything<J>(v: PoolView<J>)
    requires
        v.inv(),
        v.terminated(),
    ensures
        forall|w: int| 0 <= w < v.workers.len() ==> v.exited(w),
        v.live() == 0,
        v.closed,
        !v.running,
        v.pending.len() == 0,
        v.delivered() == v.accepted.len(),
        forall|k: int| 0 <= k < v.accepted.len() ==> v.executed(k),
{
    reveal(PoolView::inv);
    assert forall|w: int| 0 <= w < v.workers.len() implies v.exited(w) by {
        assert(!v.workers[w].joinable);
    }
    assert(v.exited(0));
    lemma_live_count(v.workers);
    assert forall|k: int| 0 <= k < v.accepted.len() implies v.executed(k) by {
        let run = v.runs[k];
        if run.outcome is None {
            assert(v.exited(run.worker as int));
        }
    }
}

/// Every step keeps the invariant.
pub proof fn lemma_step_inv<J>(v: PoolView<J>, step: Step<J>)
    requires
        v.inv(),
    ensures
        v.step(step).inv(),
{
    match step {
        Step::Submit(job) => {
            lemma_submit_inv(v, job);
        },
        Step::Receive(w) => {
            if v.waiting(w) {
                if v.pending.len() > 0 {
                    lemma_deliver_inv(v, w);
                } else if v.closed {
                    lemma_retire_inv(v, w);
                }
            }
        },
        Step::Finish(w, outcome) => {
            if v.working(w) {
                lemma_complete_inv(v, w, outcome);
            }
        },
        Step::ShutDown => {
            lemma_shut_down_inv(v);
        },
        Step::Join(w) => {
            lemma_shut_down_inv(v);
            let shut = v.shut_down();
            if shut.next_to_join(w) && shut.exited(w) {
                lemma_join_inv(shut, w);
            }
        },
    }
}

/// No step rewrites history: whatever the step, the state after it
/// continues the history of the state before it. In particular a job that
/// was handed to a worker is never handed out again, a job that was
/// executed is never executed again, and a closed pool accepts nothing.
pub proof fn lemma_step_history<J>(v: PoolView<J>, step: Step<J>)
    requires
        v.inv(),
    ensures
        v.grows_into(v.step(step)),
{
    reveal(PoolView::inv);
    let n = v.step(step);
    assert(v.accepted =~= n.accepted.subrange(0, v.accepted.len() as int));
}

/// Continuing a history is transitive.
pub proof fn lemma_grows_transitive<J>(a: PoolView<J>, b: PoolView<J>, c: PoolView<J>)
    requires
        a.grows_into(b),
        b.grows_into(c),
    ensures
        a.grows_into(c),
{
    assert(a.accepted =~= c.accepted.subrange(0, a.accepted.len() as int)) by {
        assert(a.accepted == b.accepted.subrange(0, a.accepted.len() as int));
        assert(b.accepted == c.accepted.subrange(0, b.accepted.len() as int));
    }
    assert forall|k: int| 0 <= k < a.runs.len() implies {
        &&& (#[trigger] c.runs[k]).worker == a.runs[k].worker
        &&& a.runs[k].outcome is Some ==> c.runs[k] == a.runs[k]
    } by {
        assert(b.runs[k].worker == a.runs[k].worker);
    }
    assert forall|w: int| 0 <= w < a.workers.len() implies {
        &&& a.workers[w].phase == WorkerPhase::Exited ==> (#[trigger] c.workers[w]).phase
            == WorkerPhase::Exited
        &&& !a.workers[w].joinable ==> !c.workers[w].joinable
    } by {
        assert(a.workers[w].phase == WorkerPhase::Exited ==> b.workers[w].phase
            == WorkerPhase::Exited);
    }
}

/// Whatever steps a pool takes, in whatever order, the invariant holds of
/// the state it arrives at, and that state continues the history of the
/// state it started from.
pub proof fn lemma_after<J>(v: PoolView<J>, steps: Seq<Step<J>>)
    requires
        v.inv(),
    ensures
        v.after(steps).inv(),
        v.grows_into(v.after(steps)),
    decreases steps.len(),
{
    if steps.len() == 0 {
        assert(v.accepted =~= v.accepted.subrange(0, v.accepted.len() as int));
    } else {
        let before = v.after(steps.drop_last());
        lemma_after(v, steps.drop_last());
        lemma_step_inv(before, steps.last());
        lemma_step_history(before, steps.last());
        lemma_grows_transitive(v, before, v.after(steps));
    }
}

/// No accepted job is left behind: if, after whatever further steps, every
/// worker has been joined, then every job that is accepted now has been
/// executed by then, under the number it has now.
pub proof fn lemma_accepted_jobs_run<J>(v: PoolView<J>, steps: Seq<Step<J>>)
    requires
        v.inv(),
        v.after(steps).terminated(),
    ensures
        forall|k: int|
            0 <= k < v.accepted.len() ==> {
                &&& #[trigger] v.after(steps).executed(k)
                &&& v.after(steps).accepted[k] == v.accepted[k]
            },
{
    let end = v.after(steps);
    lemma_after(v, steps);
    lemma_terminated_ran_everything(end);
    assert forall|k: int| 0 <= k < v.accepted.len() implies {
        &&& #[trigger] end.executed(k)
        &&& end.accepted[k] == v.accepted[k]
    } by {
        assert(v.accepted[k] == end.accepted.subrange(0, v.accepted.len() as int)[k]);
    }
}

/// Every state that a pool of at least one worker can reach satisfies the
/// invariant. So in every such state each accepted job is either waiting
/// in the queue or has been handed to exactly one worker, and once all
/// workers are joined each accepted job has been executed.
pub proof fn lemma_reachable<J>(size: nat, steps: Seq<Step<J>>)
    requires
        size >= 1,
    ensures
        PoolView::<J>::fresh(size).after(steps).inv(),
        PoolView::<J>::fresh(size).after(steps).workers.len() == size,
{
    lemma_fresh_inv::<J>(size);
    lemma_after(PoolView::<J>::fresh(size), steps);
}

} // verus!
