use webserver::pool::{Assignment, JoinStep};
use webserver::server::{
    AcceptEvent, Directive, Reaction, ShutdownFlag, WebServer, BIND_ADDRESS, POLL_INTERVAL_MILLIS,
    POOL_SIZE,
};
use webserver::worker::{JobOutcome, WorkerPhase};

#[test]
fn server_defaults() {
    assert_eq!(BIND_ADDRESS, "127.0.0.1:2333");
    assert_eq!(POOL_SIZE, 5);
    assert_eq!(POLL_INTERVAL_MILLIS, 5);
}

#[test]
fn flag_is_down_until_raised_and_stays_up() {
    let mut flag = ShutdownFlag::new();
    assert!(!flag.is_raised());
    flag.raise();
    assert!(flag.is_raised());
    flag.raise();
    assert!(flag.is_raised());
}

#[test]
fn new_server_has_five_waiting_workers_and_accepts() {
    let server: WebServer<u32> = WebServer::new();
    assert!(!server.stop_requested());
    assert_eq!(server.pool().size(), 5);
    assert_eq!(server.pool().live_workers(), 5);
    assert!(server.pool().is_running());
    assert_eq!(server.pool().pending_jobs(), 0);
    for w in 0..5 {
        assert_eq!(server.pool().worker(w).unwrap().phase(), WorkerPhase::Waiting);
    }
    assert_eq!(server.poll(), Directive::Accept);
}

#[test]
fn accepted_connection_is_dispatched_to_the_pool() {
    let mut server: WebServer<u32> = WebServer::new();
    assert_eq!(server.handle_accept(AcceptEvent::Connection(41)), Reaction::Dispatched);
    assert_eq!(server.handle_accept(AcceptEvent::Connection(42)), Reaction::Dispatched);
    assert_eq!(server.pool().pending_jobs(), 2);
    assert!(matches!(server.pool_mut().next_job(3), Ok(Assignment::Run(41))));
    assert!(matches!(server.pool_mut().next_job(0), Ok(Assignment::Run(42))));
    assert_eq!(server.poll(), Directive::Accept);
}

#[test]
fn would_block_sleeps_for_the_poll_interval() {
    let mut server: WebServer<u32> = WebServer::new();
    assert_eq!(server.handle_accept(AcceptEvent::WouldBlock), Reaction::Sleep { millis: 5 });
    assert_eq!(server.pool().pending_jobs(), 0);
    assert!(!server.stop_requested());
    assert_eq!(server.poll(), Directive::Accept);
}

#[test]
fn listener_failure_aborts() {
    let mut server: WebServer<u32> = WebServer::new();
    assert_eq!(server.handle_accept(AcceptEvent::Failed), Reaction::Abort);
    assert_eq!(server.pool().pending_jobs(), 0);
    assert_eq!(server.pool().live_workers(), 5);
}

#[test]
fn stop_request_ends_the_loop_at_the_next_look() {
    let mut server: WebServer<u32> = WebServer::new();
    assert_eq!(server.poll(), Directive::Accept);
    server.request_stop();
    assert!(server.stop_requested());
    assert_eq!(server.poll(), Directive::Stop);
    assert!(server.pool().is_running());
    assert_eq!(server.handle_accept(AcceptEvent::WouldBlock), Reaction::Sleep { millis: 5 });
    assert_eq!(server.poll(), Directive::Stop);
}

#[test]
fn repeated_stop_requests_count_as_one() {
    let mut server: WebServer<u32> = WebServer::new();
    server.request_stop();
    server.request_stop();
    server.request_stop();
    assert!(server.stop_requested());
    assert_eq!(server.poll(), Directive::Stop);
    assert_eq!(server.pool().live_workers(), 5);
    assert_eq!(server.pool().pending_jobs(), 0);
}

#[test]
fn stopped_pool_is_skipped_while_no_stop_was_requested() {
    let mut server: WebServer<u32> = WebServer::new();
    server.pool_mut().begin_shutdown();
    assert!(!server.stop_requested());
    assert_eq!(server.poll(), Directive::Skip);
    server.request_stop();
    assert_eq!(server.poll(), Directive::Stop);
}

#[test]
fn connection_that_slips_through_after_shutdown_is_rejected() {
    let mut server: WebServer<u32> = WebServer::new();
    assert_eq!(server.handle_accept(AcceptEvent::Connection(1)), Reaction::Dispatched);
    server.shutdown();
    assert_eq!(server.handle_accept(AcceptEvent::Connection(2)), Reaction::Rejected);
    assert_eq!(server.pool().pending_jobs(), 1);
}

#[test]
fn connection_accepted_after_a_stop_request_is_still_dispatched() {
    let mut server: WebServer<u32> = WebServer::new();
    server.request_stop();
    assert_eq!(server.handle_accept(AcceptEvent::Connection(8)), Reaction::Dispatched);
    assert_eq!(server.pool().pending_jobs(), 1);
}

#[test]
fn disposal_raises_the_flag_and_closes_the_pool() {
    let mut server: WebServer<u32> = WebServer::new();
    server.shutdown();
    assert!(server.stop_requested());
    assert!(!server.pool().is_running());
    assert_eq!(server.poll(), Directive::Stop);
    assert_eq!(server.pool().live_workers(), 5);
    server.shutdown();
    assert!(server.stop_requested());
    assert!(!server.pool().is_running());
}

#[test]
fn stop_then_disposal_completes_every_accepted_job() {
    let mut server: WebServer<u32> = WebServer::new();
    let mut accepted = 0u32;
    let mut script = vec![
        AcceptEvent::Connection(0),
        AcceptEvent::Connection(1),
        AcceptEvent::WouldBlock,
        AcceptEvent::Connection(2),
        AcceptEvent::Connection(3),
        AcceptEvent::Connection(4),
        AcceptEvent::Connection(5),
        AcceptEvent::Connection(6),
        AcceptEvent::WouldBlock,
    ]
    .into_iter();
    let mut sleeps = 0;
    while server.poll() == Directive::Accept {
        match script.next() {
            Some(event) => match server.handle_accept(event) {
                Reaction::Dispatched => accepted += 1,
                Reaction::Sleep { millis } => {
                    assert_eq!(millis, 5);
                    sleeps += 1;
                }
                Reaction::Rejected | Reaction::Abort => panic!("the open pool refused a job"),
            },
            None => server.request_stop(),
        }
    }
    assert_eq!(accepted, 7);
    assert_eq!(sleeps, 2);
    assert_eq!(server.poll(), Directive::Stop);

    server.shutdown();
    let mut executed = Vec::new();
    let mut joined = Vec::new();
    loop {
        match server.pool_mut().join_next() {
            JoinStep::Done => break,
            JoinStep::Joined(w) => joined.push(w),
            JoinStep::Wait(w) => loop {
                match server.pool_mut().next_job(w) {
                    Ok(Assignment::Run(job)) => {
                        executed.push(job);
                        server.pool_mut().finish_job(w, JobOutcome::Completed).unwrap();
                    }
                    Ok(Assignment::Exit) => break,
                    Ok(Assignment::Wait) => panic!("a closed queue told a worker to wait"),
                    Err(e) => panic!("worker {} was refused: {:?}", w, e),
                }
            },
        }
    }
    assert_eq!(executed, vec![0, 1, 2, 3, 4, 5, 6]);
    assert_eq!(joined, vec![0, 1, 2, 3, 4]);
    assert!(server.pool().is_terminated());
    assert_eq!(server.pool().live_workers(), 0);
    assert_eq!(server.pool().pending_jobs(), 0);
}

#[test]
fn pool_and_server_are_named_at_the_crate_root() {
    let refused: Result<webserver::ThreadPool<u8>, webserver::PoolCreationError> =
        webserver::ThreadPool::new(0);
    assert!(matches!(refused, Err(webserver::PoolCreationError::InvalidPoolSize)));
    let pool: webserver::ThreadPool<u8> = webserver::ThreadPool::new(4).unwrap();
    assert_eq!(pool.size(), 4);
    let server: webserver::WebServer<u8> = webserver::WebServer::new();
    assert_eq!(server.pool().size(), POOL_SIZE);
}
