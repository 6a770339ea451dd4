use core::ops::ControlFlow;

use rio::config::Config;
use rio::config::HostEnv;
use rio::config::Reaper;
use rio::config::RingParams;
use rio::config::StartError;
use rio::config::IORING_SETUP_CQSIZE;
use rio::engine::Engine;
use rio::engine::SubmitError;

fn plain_env() -> HostEnv {
    HostEnv { privileged: false, enough_lockable_memory: true }
}

fn config_with_depth(depth: usize) -> Config {
    let mut c = Config::default();
    c.depth = depth;
    c
}

/// Depth 4 with a raw parameter block asking for completion depth 4,
/// so that exactly 4 tickets exist.
fn small_config() -> Config {
    let mut c = Config::default();
    c.depth = 4;
    c.raw_params = Some(RingParams {
        flags: IORING_SETUP_CQSIZE,
        sq_thread_cpu: 0,
        sq_entries: 0,
        cq_entries: 4,
    });
    c
}

#[test]
fn start_returns_working_engine_or_error() {
    let (engine, reaper) = Config::default().start(true, &plain_env()).expect("default start");
    assert!(reaper.is_some());
    assert_eq!(engine.sq.ring.slots.len(), 256);
    assert_eq!(engine.cq.ring.slots.len(), 512);
    assert_eq!(engine.tickets.depth, 512);
    assert_eq!(engine.tickets.free.len(), 512);
    assert!(engine.in_flight.slots.iter().all(|s| s.is_none()));
    assert!(!engine.shut_down);
}

#[test]
fn start_rounds_depth_up_never_down() {
    let (engine, _) = config_with_depth(5).start(true, &plain_env()).expect("start");
    assert_eq!(engine.sq.ring.slots.len(), 8);
    assert_eq!(engine.cq.ring.slots.len(), 16);
}

#[test]
fn start_rejects_bad_depths() {
    assert_eq!(
        config_with_depth(0).start(true, &plain_env()).err(),
        Some(StartError::InvalidParameters)
    );
    assert!(matches!(
        config_with_depth(40000).start(true, &plain_env()),
        Err(StartError::InvalidParameters)
    ));
}

#[test]
fn start_rejects_undersized_completion_request() {
    let mut c = config_with_depth(64);
    c.raw_params = Some(RingParams {
        flags: IORING_SETUP_CQSIZE,
        sq_thread_cpu: 0,
        sq_entries: 0,
        cq_entries: 16,
    });
    assert!(matches!(c.start(true, &plain_env()), Err(StartError::InvalidParameters)));
}

#[test]
fn privileged_polling_without_privilege_fails_start() {
    let mut c = Config::default();
    c.sq_poll = true;
    let r = c.start(true, &plain_env());
    assert!(matches!(r, Err(StartError::PermissionDenied)));
}

#[test]
fn privileged_polling_with_privilege_starts() {
    let mut c = Config::default();
    c.sq_poll = true;
    c.sq_poll_affinity = 2;
    let env = HostEnv { privileged: true, enough_lockable_memory: true };
    let (engine, _) = c.start(true, &env).expect("privileged start");
    assert!(engine.sq.sq_poll);
    assert!(engine.sq.poller_awake);
}

#[test]
fn low_lockable_memory_is_rewritten() {
    let env = HostEnv { privileged: false, enough_lockable_memory: false };
    let err = Config::default().start(true, &env).err().expect("must fail");
    assert_eq!(err, StartError::LockedMemoryExhausted);
    assert!(err.message().contains("memlock rlimit"));
}

#[test]
fn no_own_reaper_means_no_reaper_handle() {
    let (_, reaper) = Config::default().start(false, &plain_env()).expect("start");
    assert!(reaper.is_none());
}

#[test]
fn depth_four_submit_four_drain_four() {
    let (mut engine, reaper) = small_config().start(true, &plain_env()).expect("start");
    let mut reaper = reaper.unwrap();
    assert_eq!(engine.tickets.free.len(), 4);

    let mut tickets = Vec::new();
    for i in 0..4u64 {
        let t = engine.submit(1000 + i, 100 + i).expect("submit");
        assert!(!tickets.contains(&t));
        tickets.push(t);
    }
    // The kernel consumes and completes everything.
    for _ in 0..4 {
        assert!(engine.kernel_fetch());
    }
    assert!(!engine.kernel_fetch());
    for _ in 0..4 {
        engine.kernel_complete(0, 0);
    }
    match reaper.poll(&mut engine) {
        ControlFlow::Continue(n) => assert_eq!(n, 4),
        ControlFlow::Break(()) => panic!("ring is not shut down"),
    }
    let deliveries = engine.take_deliveries();
    assert_eq!(deliveries.len(), 4);
    let mut resolved: Vec<usize> = deliveries.iter().map(|d| d.ticket).collect();
    resolved.sort();
    let mut issued = tickets.clone();
    issued.sort();
    // Exactly the issued tickets, each resolved once.
    assert_eq!(resolved, issued);
    // Each resolution went to the destination recorded at submission.
    for d in &deliveries {
        let i = tickets.iter().position(|t| *t == d.ticket).unwrap();
        assert_eq!(d.dest, 100 + i as u64);
    }
    // Table empty, all four tickets free again.
    assert!(engine.in_flight.slots.iter().all(|s| s.is_none()));
    assert_eq!(engine.tickets.free.len(), 4);
}

#[test]
fn completions_resolve_out_of_order() {
    let (mut engine, reaper) = small_config().start(true, &plain_env()).expect("start");
    let mut reaper = reaper.unwrap();
    let t0 = engine.submit(1, 500).expect("submit");
    let t1 = engine.submit(2, 501).expect("submit");
    assert!(engine.kernel_fetch());
    assert!(engine.kernel_fetch());
    // The kernel finishes the second operation first.
    engine.kernel_complete(1, 9);
    engine.kernel_complete(0, 8);
    assert!(matches!(reaper.poll(&mut engine), ControlFlow::Continue(2)));
    let deliveries = engine.take_deliveries();
    assert_eq!(deliveries.len(), 2);
    assert_eq!((deliveries[0].ticket, deliveries[0].dest, deliveries[0].result), (t1, 501, 9));
    assert_eq!((deliveries[1].ticket, deliveries[1].dest, deliveries[1].result), (t0, 500, 8));
}

#[test]
fn submission_backpressure_is_reported() {
    let (mut engine, _) = small_config().start(true, &plain_env()).expect("start");
    for i in 0..4u64 {
        engine.submit(i, i).expect("submit");
    }
    // The submission ring (4 slots) is full.
    assert_eq!(engine.submit(9, 9), Err(SubmitError::SubmissionRingFull));
    // After the kernel consumes the ring there is space, but every
    // ticket is still outstanding.
    for _ in 0..4 {
        engine.kernel_fetch();
    }
    assert_eq!(engine.submit(9, 9), Err(SubmitError::NoFreeTickets));
}

#[test]
fn ticket_reissued_only_after_resolution() {
    let (mut engine, reaper) = small_config().start(true, &plain_env()).expect("start");
    let mut reaper = reaper.unwrap();
    for i in 0..4u64 {
        engine.submit(i, i).expect("submit");
    }
    for _ in 0..4 {
        engine.kernel_fetch();
    }
    assert_eq!(engine.submit(9, 9), Err(SubmitError::NoFreeTickets));
    // Resolve one operation; exactly one ticket comes back.
    engine.kernel_complete(2, 0);
    assert!(matches!(reaper.poll(&mut engine), ControlFlow::Continue(1)));
    let freed = engine.take_deliveries()[0].ticket;
    let again = engine.submit(9, 9).expect("a ticket is free again");
    assert_eq!(again, freed);
}

#[test]
fn poll_with_nothing_available_returns_zero_without_blocking() {
    let (mut engine, reaper) = small_config().start(true, &plain_env()).expect("start");
    let mut reaper = reaper.unwrap();
    assert!(matches!(reaper.poll(&mut engine), ControlFlow::Continue(0)));
}

#[test]
fn block_returns_at_least_one_when_work_exists() {
    let (mut engine, reaper) = small_config().start(true, &plain_env()).expect("start");
    let mut reaper = reaper.unwrap();
    engine.submit(1, 1).expect("submit");
    engine.kernel_fetch();
    engine.kernel_complete(0, 0);
    match reaper.block(&mut engine) {
        ControlFlow::Continue(n) => assert!(n >= 1),
        ControlFlow::Break(()) => panic!("ring is not shut down"),
    }
}

#[test]
fn shutdown_turns_both_passes_into_stop() {
    let (mut engine, reaper) = small_config().start(true, &plain_env()).expect("start");
    let mut reaper = reaper.unwrap();
    engine.shutdown();
    assert!(engine.shut_down);
    assert!(matches!(reaper.poll(&mut engine), ControlFlow::Break(())));
    assert!(matches!(reaper.block(&mut engine), ControlFlow::Break(())));
    // Idempotent: tearing down again changes nothing.
    engine.shutdown();
    assert!(matches!(reaper.poll(&mut engine), ControlFlow::Break(())));
}

#[test]
fn background_style_drain_without_reaper_handle() {
    // With `own_reaper` false the caller gets no reaper; the background
    // party owns the drain loop instead and drives it the same way.
    let (mut engine, none) = small_config().start(false, &plain_env()).expect("start");
    assert!(none.is_none());
    let mut background = Reaper {};
    engine.submit(1, 42).expect("submit");
    engine.kernel_fetch();
    engine.kernel_complete(0, 7);
    assert!(matches!(background.block(&mut engine), ControlFlow::Continue(1)));
    let deliveries = engine.take_deliveries();
    assert_eq!(deliveries[0].dest, 42);
    assert_eq!(deliveries[0].result, 7);
    engine.shutdown();
    assert!(matches!(background.block(&mut engine), ControlFlow::Break(())));
}

#[test]
fn polling_thread_wakeup_protocol() {
    let mut c = Config::default();
    c.depth = 4;
    c.sq_poll = true;
    let env = HostEnv { privileged: true, enough_lockable_memory: true };
    let (mut engine, _) = c.start(true, &env).expect("start");
    assert!(engine.sq.poller_awake);
    // The poller finds nothing and goes idle.
    assert!(!engine.kernel_fetch());
    assert!(!engine.sq.poller_awake);
    // The next submission must wake it.
    engine.submit(1, 1).expect("submit");
    assert!(engine.sq.poller_awake);
}

#[test]
fn outstanding_never_exceeds_completion_depth() {
    let (mut engine, _) = small_config().start(true, &plain_env()).expect("start");
    for i in 0..4u64 {
        engine.submit(i, i).expect("submit");
    }
    for _ in 0..4 {
        engine.kernel_fetch();
    }
    for _ in 0..4 {
        engine.kernel_complete(0, 0);
    }
    // All four completions fit in the completion ring at once.
    assert_eq!(engine.cq.ring.len, 4);
    let outstanding = engine.sq.ring.len + engine.running.len() + engine.cq.ring.len;
    assert!(outstanding <= engine.tickets.depth);
}

#[test]
fn engine_is_assembled_from_granted_parameters() {
    let granted = RingParams { flags: 0, sq_thread_cpu: 0, sq_entries: 8, cq_entries: 16 };
    let engine = Engine::assemble(Config::default(), granted);
    assert_eq!(engine.sq.ring.slots.len(), 8);
    assert_eq!(engine.cq.ring.slots.len(), 16);
    assert_eq!(engine.tickets.depth, 16);
    assert!(!engine.shut_down);
}
