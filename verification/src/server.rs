//! The acceptor: what the accept loop does next, given the stop flag, the
//! pool, and what the listening socket said.
//!
//! The server owns the pool and the stop flag. It owns no socket: whoever
//! drives it asks before each accept whether to go on, performs the accept,
//! and reports what came of it.

use crate::model::{
    lemma_grows_transitive, lemma_step_history, lemma_step_inv, lemma_terminated_ran_everything,
    PoolView, Step,
};
use crate::pool::ThreadPool;
use crate::queue::SubmitError;
use vstd::prelude::*;

verus! {

/// The address the server listens on.
pub const BIND_ADDRESS: &'static str = "127.0.0.1:2333";

/// The number of workers of the server's pool.
pub const POOL_SIZE: usize = 5;

/// How long, in milliseconds, the accept loop sleeps when no connection is
/// pending, before it looks at the stop flag again.
pub const POLL_INTERVAL_MILLIS: u64 = 5;

/// The stop flag: down at first, raised by a stop notification, and never
/// lowered again.
pub struct ShutdownFlag {
    raised: bool,
}

impl View for ShutdownFlag {
    type V = bool;

    closed spec fn view(&self) -> bool {
        self.raised
    }
}

impl ShutdownFlag {
    /// A flag that is down.
    pub fn new() -> (flag: ShutdownFlag)
        ensures
            !flag@,
    {
        ShutdownFlag { raised: false }
    }

    /// Raises the flag. Raising a raised flag changes nothing.
    pub fn raise(&mut self)
        ensures
            final(self)@,
    {
        self.raised = true;
    }

    /// True once the flag has been raised.
    pub fn is_raised(&self) -> (raised: bool)
        ensures
            raised == self@,
    {
        self.raised
    }
}

/// What the accept loop does at the top of an iteration.
#[derive(Clone, Copy, Debug, PartialEq, Eq, Structural)]
pub enum Directive {
    /// Try to accept a connection.
    Accept,
    /// Accept nothing in this iteration: the pool takes no more jobs.
    Skip,
    /// Leave the loop: a stop was requested.
    Stop,
}

/// What an attempt to accept a connection came to.
pub enum AcceptEvent<J> {
    /// A connection was accepted; this is the job that handles it.
    Connection(J),
    /// No connection is pending.
    WouldBlock,
    /// The listening socket failed in another way.
    Failed,
}

/// What the accept loop does about an [`AcceptEvent`].
#[derive(Clone, Copy, Debug, PartialEq, Eq, Structural)]
pub enum Reaction {
    /// The job is in the queue of the pool.
    Dispatched,
    /// The pool was closed already: the job was dropped.
    Rejected,
    /// Sleep for so many milliseconds, then start the next iteration.
    Sleep { millis: u64 },
    /// The listening socket is unusable: give up.
    Abort,
}

/// The directive for an iteration that finds the stop flag and the pool's
/// liveness flag as given. A raised stop flag ends the loop whatever the
/// pool says.
pub open spec fn directive(stopping: bool, pool_running: bool) -> Directive {
    if stopping {
        Directive::Stop
    } else if pool_running {
        Directive::Accept
    } else {
        Directive::Skip
    }
}

/// The reaction to an attempt to accept, for a pool whose queue is closed
/// or not.
pub open spec fn reaction<J>(event: AcceptEvent<J>, pool_closed: bool) -> Reaction {
    match event {
        AcceptEvent::Connection(_) => if pool_closed {
            Reaction::Rejected
        } else {
            Reaction::Dispatched
        },
        AcceptEvent::WouldBlock => Reaction::Sleep { millis: POLL_INTERVAL_MILLIS },
        AcceptEvent::Failed => Reaction::Abort,
    }
}

/// One step of a server.
pub enum ServerStep<J> {
    /// A stop notification arrives.
    Stop,
    /// An attempt to accept has ended.
    Accept(AcceptEvent<J>),
    /// The pool takes a step of its own.
    Pool(Step<J>),
    /// Disposal begins.
    ShutDown,
}

/// The state of a server.
pub struct ServerView<J> {
    /// The state of its pool.
    pub pool: PoolView<J>,
    /// True once a stop has been requested.
    pub stopping: bool,
}

impl<J> ServerView<J> {
    /// A server that has just been built.
    pub open spec fn fresh() -> Self {
        ServerView { pool: PoolView::fresh(POOL_SIZE as nat), stopping: false }
    }

    /// The state after an attempt to accept: a connection's job is
    /// submitted to the pool, and nothing else changes anything.
    pub open spec fn accept(self, event: AcceptEvent<J>) -> Self {
        match event {
            AcceptEvent::Connection(job) => ServerView { pool: self.pool.submit(job), ..self },
            AcceptEvent::WouldBlock | AcceptEvent::Failed => self,
        }
    }

    /// The state after disposal has begun: the stop flag is up and the pool
    /// is shutting down.
    pub open spec fn shut_down(self) -> Self {
        ServerView { pool: self.pool.shut_down(), stopping: true }
    }

    /// The state after one step.
    pub open spec fn step(self, step: ServerStep<J>) -> Self {
        match step {
            ServerStep::Stop => ServerView { stopping: true, ..self },
            ServerStep::Accept(event) => self.accept(event),
            ServerStep::Pool(step) => ServerView { pool: self.pool.step(step), ..self },
            ServerStep::ShutDown => self.shut_down(),
        }
    }

    /// The state after a sequence of steps.
    pub open spec fn after(self, steps: Seq<ServerStep<J>>) -> Self
        decreases steps.len(),
    {
        if steps.len() == 0 {
            self
        } else {
            self.after(steps.drop_last()).step(steps.last())
        }
    }

    /// What the accept loop does when it looks at this state.
    pub open spec fn directive(self) -> Directive {
        directive(self.stopping, self.pool.running)
    }
}

/// The server: a pool of workers and a stop flag.
pub struct WebServer<J> {
    threadpool: ThreadPool<J>,
    stop: ShutdownFlag,
}

impl<J> View for WebServer<J> {
    type V = ServerView<J>;

    closed spec fn view(&self) -> ServerView<J> {
        ServerView { pool: self.threadpool@, stopping: self.stop@ }
    }
}

impl<J> WebServer<J> {
    /// The server is well formed: its pool is.
    pub open spec fn wf(&self) -> bool {
        self@.pool.inv()
    }

    /// Builds a server with a pool of [`POOL_SIZE`] workers and the stop
    /// flag down.
    pub fn new() -> (server: WebServer<J>)
        ensures
            server.wf(),
            server@ == ServerView::<J>::fresh(),
    {
        WebServer { threadpool: ThreadPool::new(POOL_SIZE).unwrap(), stop: ShutdownFlag::new() }
    }

    /// Takes a stop notification: the stop flag goes up and stays up. Any
    /// number of notifications has the effect of one.
    pub fn request_stop(&mut self)
        ensures
            final(self)@ == old(self)@.step(ServerStep::Stop),
            final(self)@ == (ServerView { stopping: true, ..old(self)@ }),
    {
        self.stop.raise();
    }

    /// True once a stop has been requested.
    pub fn stop_requested(&self) -> (stopping: bool)
        ensures
            stopping == self@.stopping,
    {
        self.stop.is_raised()
    }

    /// Decides what the accept loop does at the top of an iteration. To be
    /// asked before every attempt to accept, and again after every sleep.
    pub fn poll(&self) -> (next: Directive)
        ensures
            next == self@.directive(),
    {
        if self.stop.is_raised() {
            Directive::Stop
        } else if self.threadpool.is_running() {
            Directive::Accept
        } else {
            Directive::Skip
        }
    }

    /// Takes what an attempt to accept came to, and says what to do about
    /// it. The job of an accepted connection goes to the pool.
    pub fn handle_accept(&mut self, event: AcceptEvent<J>) -> (next: Reaction)
        ensures
            old(self).wf() ==> final(self).wf(),
            final(self)@ == old(self)@.accept(event),
            next == reaction(event, old(self)@.pool.closed),
    {
        match event {
            AcceptEvent::Connection(job) => match self.threadpool.execute(job) {
                Ok(()) => Reaction::Dispatched,
                Err(SubmitError::Closed) => Reaction::Rejected,
            },
            AcceptEvent::WouldBlock => Reaction::Sleep { millis: POLL_INTERVAL_MILLIS },
            AcceptEvent::Failed => Reaction::Abort,
        }
    }

    /// The pool, to look at.
    pub fn pool(&self) -> (pool: &ThreadPool<J>)
        ensures
            pool@ == self@.pool,
    {
        &self.threadpool
    }

    /// The pool, for the calls of its workers and for joining them.
    pub fn pool_mut(&mut self) -> (pool: &mut ThreadPool<J>)
        ensures
            pool@ == old(self)@.pool,
            final(self)@ == (ServerView { pool: final(pool)@, stopping: old(self)@.stopping }),
    {
        &mut self.threadpool
    }

    /// Begins the disposal of the server: the stop flag is raised once
    /// more, and the pool begins its shutdown. What remains is to join the
    /// workers.
    pub fn shutdown(&mut self)
        ensures
            old(self).wf() ==> final(self).wf(),
            final(self)@ == old(self)@.shut_down(),
    {
        self.stop.raise();
        self.threadpool.begin_shutdown();
    }
}

/// Once a stop has been requested the accept loop ends at its next look,
/// whatever the pool says; and it tries to accept only while no stop was
/// requested and the pool is running.
pub proof fn lemma_stop_ends_loop(stopping: bool, pool_running: bool)
    ensures
        stopping ==> directive(stopping, pool_running) == Directive::Stop,
        directive(stopping, pool_running) == Directive::Accept <==> !stopping && pool_running,
        directive(stopping, pool_running) == Directive::Skip <==> !stopping && !pool_running,
{
}

/// A step of the server is a step of its pool or none: it keeps the
/// invariant of the pool, continues its history, and never lowers the stop
/// flag.
pub proof fn lemma_server_step<J>(v: ServerView<J>, step: ServerStep<J>)
    requires
        v.pool.inv(),
    ensures
        v.step(step).pool.inv(),
        v.pool.grows_into(v.step(step).pool),
        v.stopping ==> v.step(step).stopping,
{
    let pool_step = match step {
        ServerStep::Stop => None,
        ServerStep::Accept(event) => match event {
            AcceptEvent::Connection(job) => Some(Step::Submit(job)),
            AcceptEvent::WouldBlock | AcceptEvent::Failed => None,
        },
        ServerStep::Pool(step) => Some(step),
        ServerStep::ShutDown => Some(Step::ShutDown),
    };
    match pool_step {
        Some(s) => {
            assert(v.step(step).pool == v.pool.step(s));
            lemma_step_inv(v.pool, s);
            lemma_step_history(v.pool, s);
        },
        None => {
            assert(v.step(step).pool == v.pool);
            assert(v.pool.accepted =~= v.pool.accepted.subrange(0, v.pool.accepted.len() as int));
        },
    }
}

/// Whatever the server does after a stop was requested, the request
/// stands: at every later look the accept loop is told to stop. And
/// whatever it does at all, its pool stays well formed and loses nothing
/// of its history: a job that was accepted stays accepted.
pub proof fn lemma_server_after<J>(v: ServerView<J>, steps: Seq<ServerStep<J>>)
    requires
        v.pool.inv(),
    ensures
        v.after(steps).pool.inv(),
        v.pool.grows_into(v.after(steps).pool),
        v.stopping ==> v.after(steps).stopping,
        v.stopping ==> v.after(steps).directive() == Directive::Stop,
    decreases steps.len(),
{
    if steps.len() == 0 {
        assert(v.pool.accepted =~= v.pool.accepted.subrange(0, v.pool.accepted.len() as int));
    } else {
        let before = v.after(steps.drop_last());
        lemma_server_after(v, steps.drop_last());
        lemma_server_step(before, steps.last());
        lemma_grows_transitive(v.pool, before.pool, v.after(steps).pool);
    }
}

/// The server is disposed of when every worker of its pool has been
/// joined. That happens only after every job dispatched before has been
/// executed: if, after whatever steps, all workers are joined, then no
/// worker is alive and each job that the pool has accepted by now has been
/// executed.
pub proof fn lemma_exit_after_drain<J>(v: ServerView<J>, steps: Seq<ServerStep<J>>)
    requires
        v.pool.inv(),
        v.after(steps).pool.terminated(),
    ensures
        v.after(steps).pool.live() == 0,
        v.after(steps).pool.pending.len() == 0,
        forall|k: int|
            0 <= k < v.pool.accepted.len() ==> {
                &&& #[trigger] v.after(steps).pool.executed(k)
                &&& v.after(steps).pool.accepted[k] == v.pool.accepted[k]
            },
{
    let end = v.after(steps).pool;
    lemma_server_after(v, steps);
    lemma_terminated_ran_everything(end);
    assert forall|k: int| 0 <= k < v.pool.accepted.len() implies {
        &&& #[trigger] end.executed(k)
        &&& end.accepted[k] == v.pool.accepted[k]
    } by {
        assert(v.pool.accepted[k] == end.accepted.subrange(0, v.pool.accepted.len() as int)[k]);
    }
}

} // verus!
