use rio::config::Config;
use rio::config::RingParams;
use rio::config::StartError;
use rio::config::next_power_of_two_at_least;
use rio::config::IORING_SETUP_CQSIZE;
use rio::config::IORING_SETUP_SQPOLL;
use rio::in_flight::InFlightTable;
use rio::ring::Ring;
use rio::ring::SubmissionEntry;
use rio::ticket::TicketQueue;

#[test]
fn ring_publishes_and_consumes_in_order() {
    let fill = SubmissionEntry { ticket: 0, op: 0 };
    let mut r: Ring<SubmissionEntry> = Ring::new(2, fill);
    assert_eq!(r.available(), 0);
    r.publish(SubmissionEntry { ticket: 1, op: 11 });
    r.publish(SubmissionEntry { ticket: 2, op: 22 });
    assert!(r.is_full());
    assert_eq!(r.consume(), SubmissionEntry { ticket: 1, op: 11 });
    // Wrap around: the freed slot is reused.
    r.publish(SubmissionEntry { ticket: 3, op: 33 });
    assert_eq!(r.consume(), SubmissionEntry { ticket: 2, op: 22 });
    assert_eq!(r.consume(), SubmissionEntry { ticket: 3, op: 33 });
    assert_eq!(r.available(), 0);
}

#[test]
fn ticket_queue_issues_all_distinct_then_exhausts() {
    let mut tq = TicketQueue::new(4);
    assert_eq!(tq.free_count(), 4);
    let mut got = Vec::new();
    for _ in 0..4 {
        let t = tq.try_next().expect("a ticket should be free");
        assert!(t < 4);
        assert!(!got.contains(&t));
        got.push(t);
    }
    assert_eq!(tq.free_count(), 0);
    assert_eq!(tq.try_next(), None);
}

#[test]
fn ticket_queue_retire_allows_reissue() {
    let mut tq = TicketQueue::new(2);
    let a = tq.try_next().unwrap();
    let b = tq.try_next().unwrap();
    assert_eq!(tq.try_next(), None);
    tq.retire(a);
    assert_eq!(tq.free_count(), 1);
    let c = tq.try_next().unwrap();
    assert_eq!(c, a);
    tq.retire(b);
    tq.retire(c);
    assert_eq!(tq.free_count(), 2);
}

#[test]
fn in_flight_insert_and_remove() {
    let mut inf = InFlightTable::new(4);
    inf.insert(2, 77);
    assert_eq!(inf.remove(2), Some(77));
    // The slot is gone now: a second resolution of the same ticket is
    // the protocol violation the drain must detect.
    assert_eq!(inf.remove(2), None);
}

#[test]
fn in_flight_unknown_ticket_is_reported() {
    let mut inf = InFlightTable::new(4);
    assert_eq!(inf.remove(0), None);
    // Out of range counts as unknown too.
    assert_eq!(inf.remove(100), None);
}

#[test]
fn power_of_two_rounding() {
    assert_eq!(next_power_of_two_at_least(1), 1);
    assert_eq!(next_power_of_two_at_least(2), 2);
    assert_eq!(next_power_of_two_at_least(3), 4);
    assert_eq!(next_power_of_two_at_least(5), 8);
    assert_eq!(next_power_of_two_at_least(256), 256);
    assert_eq!(next_power_of_two_at_least(257), 512);
    assert_eq!(next_power_of_two_at_least(32768), 32768);
}

#[test]
fn default_config_matches_documented_defaults() {
    let c = Config::default();
    assert_eq!(c.depth, 256);
    assert!(!c.sq_poll);
    assert_eq!(c.sq_poll_affinity, 0);
    assert!(!c.io_poll);
    assert!(!c.print_profile_on_drop);
    assert!(c.raw_params.is_none());
}

#[test]
fn resolve_params_sets_polling_flag_and_affinity() {
    let mut c = Config::default();
    let p = c.resolve_params();
    assert_eq!(p, RingParams::default());
    c.sq_poll = true;
    c.sq_poll_affinity = 3;
    let p = c.resolve_params();
    assert_eq!(p.flags, IORING_SETUP_SQPOLL);
    assert_eq!(p.sq_thread_cpu, 3);
    // A raw block overrides everything else.
    let raw = RingParams { flags: IORING_SETUP_CQSIZE, sq_thread_cpu: 9, sq_entries: 0, cq_entries: 64 };
    c.raw_params = Some(raw);
    assert_eq!(c.resolve_params(), raw);
}

#[test]
fn error_messages_are_actionable() {
    assert_eq!(
        StartError::LockedMemoryExhausted.message(),
        "Not enough lockable memory. You probably need to raise the memlock rlimit, which often defaults to a pretty low number."
    );
    assert_eq!(StartError::InvalidParameters.message(), "invalid ring parameters");
    assert_eq!(
        StartError::PermissionDenied.message(),
        "privileged polling requires elevated privileges"
    );
}
