use eurocore::error::{ErrorKind, SubmitError};
use eurocore::jobs::JobState;
use eurocore::queue::{BoundedQueue, PushError};
use eurocore::rate::{Bucket, RateGate};
use eurocore::send::{SendPayload, SendStep, SendWorker};

fn queue(recipient: &str, category: u64) -> SendPayload {
    SendPayload::Queue { recipient: recipient.to_string(), template: "%TEMPLATE-1%".to_string(), category }
}

fn worker(interval: u64) -> SendWorker {
    let mut gate = RateGate::new();
    assert!(gate.add_bucket(7, interval));
    assert!(gate.add_bucket(8, interval * 2));
    SendWorker::new(16, gate)
}

#[test]
fn sends_of_one_category_are_spaced() {
    let mut w = worker(100);
    for r in ["a", "b", "c", "d", "e"] {
        w.submit("u".to_string(), queue(r, 7)).unwrap();
    }
    let mut now: u64 = 0;
    let mut starts = Vec::new();
    while starts.len() < 5 {
        match w.start_next(now) {
            SendStep::Call { job, .. } => {
                starts.push(now);
                assert_eq!(w.complete(true), Some((job, Ok(job as u64))));
                now += 30;
            }
            SendStep::Wait { until } => {
                assert!(until > now);
                now = until;
            }
            other => panic!("unexpected step {:?}", other),
        }
    }
    assert_eq!(starts, vec![0, 100, 200, 300, 400]);
    for pair in starts.windows(2) {
        assert!(pair[1] - pair[0] >= 100);
    }
}

#[test]
fn failed_send_still_starts_cooldown() {
    let mut w = worker(100);
    w.submit("u".to_string(), queue("a", 7)).unwrap();
    w.submit("u".to_string(), queue("b", 7)).unwrap();
    assert!(matches!(w.start_next(10), SendStep::Call { job: 0, .. }));
    assert_eq!(w.complete(false), Some((0, Err(ErrorKind::ExternalApiError))));
    assert!(matches!(w.start_next(20), SendStep::Wait { until: 110 }));
    assert_eq!(w.status(1), Some(JobState::Queued));
    assert!(matches!(w.start_next(110), SendStep::Call { job: 1, .. }));
}

#[test]
fn list_and_delete_bypass_the_gate() {
    let mut w = worker(100);
    w.submit("u".to_string(), queue("a", 7)).unwrap();
    w.submit("u".to_string(), SendPayload::List).unwrap();
    let del = SendPayload::Delete { recipient: "a".to_string(), template: "%TEMPLATE-1%".to_string() };
    w.submit("u".to_string(), del).unwrap();
    w.submit("u".to_string(), queue("b", 7)).unwrap();
    assert!(matches!(w.start_next(0), SendStep::Call { job: 0, .. }));
    w.complete(true);
    match w.start_next(1) {
        SendStep::Listed { job, listing } => {
            assert_eq!(job, 1);
            assert_eq!(listing, vec![("b".to_string(), vec!["%TEMPLATE-1%".to_string()])]);
        }
        other => panic!("unexpected step {:?}", other),
    }
    assert_eq!(w.status(1), Some(JobState::Succeeded(1)));
    assert!(!w.is_busy());
    match w.start_next(2) {
        SendStep::Call { job: 2, call: SendPayload::Delete { recipient, .. } } => assert_eq!(recipient, "a"),
        other => panic!("unexpected step {:?}", other),
    }
    w.complete(true);
    assert!(matches!(w.start_next(3), SendStep::Wait { until: 100 }));
    assert!(matches!(w.start_next(100), SendStep::Call { job: 3, .. }));
}

#[test]
fn buckets_cool_down_independently() {
    let mut w = worker(100);
    w.submit("u".to_string(), queue("a", 7)).unwrap();
    w.submit("u".to_string(), queue("b", 8)).unwrap();
    assert!(matches!(w.start_next(0), SendStep::Call { job: 0, .. }));
    w.complete(true);
    assert!(matches!(w.start_next(1), SendStep::Call { job: 1, .. }));
}

#[test]
fn unknown_category_and_empty_fields_are_rejected() {
    let mut w = worker(100);
    assert_eq!(w.submit("u".to_string(), queue("a", 9)), Err(SubmitError::Rejected(ErrorKind::ValidationError)));
    assert_eq!(w.submit("u".to_string(), queue("", 7)), Err(SubmitError::Rejected(ErrorKind::ValidationError)));
    let del = SendPayload::Delete { recipient: "a".to_string(), template: String::new() };
    assert_eq!(w.submit("u".to_string(), del), Err(SubmitError::Rejected(ErrorKind::ValidationError)));
    assert_eq!(w.queued_count(), 0);
}

#[test]
fn send_queue_closes() {
    let mut w = worker(100);
    w.close();
    assert_eq!(w.submit("u".to_string(), SendPayload::List), Err(SubmitError::Rejected(ErrorKind::Unavailable)));
    assert!(matches!(w.start_next(0), SendStep::Idle));
}

#[test]
fn send_status_is_stable_after_completion() {
    let mut w = worker(100);
    w.submit("u".to_string(), SendPayload::List).unwrap();
    w.start_next(0);
    w.complete(true);
    assert_eq!(w.status(0), Some(JobState::Succeeded(0)));
    assert_eq!(w.status(0), Some(JobState::Succeeded(0)));
    assert_eq!(w.complete(true), None);
    assert_eq!(w.status(0), Some(JobState::Succeeded(0)));
}

#[test]
fn gate_refuses_duplicate_category() {
    let mut gate = RateGate::new();
    assert!(gate.add_bucket(1, 10));
    assert!(!gate.add_bucket(1, 20));
    assert_eq!(gate.bucket_count(), 1);
    assert_eq!(gate.find(1), Some(0));
    assert_eq!(gate.find(2), None);
    assert_eq!(gate.bucket(0), Bucket { category: 1, interval: 10, next_eligible: 0 });
    gate.start_send(0, 15);
    assert_eq!(gate.bucket(0).next_eligible, 25);
    assert!(gate.check_fits(u64::MAX - 10));
    assert!(!gate.check_fits(u64::MAX - 9));
}

#[test]
fn bounded_queue_is_fifo() {
    let mut q: BoundedQueue<u32> = BoundedQueue::new(2);
    assert_eq!(q.push(1), Ok(()));
    assert_eq!(q.push(2), Ok(()));
    assert_eq!(q.push(3), Err(PushError::Full));
    assert_eq!(q.peek(), Some(&1));
    assert_eq!(q.pop(), Some(1));
    assert_eq!(q.pop(), Some(2));
    assert_eq!(q.pop(), None);
    q.close();
    assert_eq!(q.push(4), Err(PushError::Closed));
    assert!(q.is_closed());
    assert_eq!(q.len(), 0);
    assert_eq!(q.capacity(), 2);
}

#[test]
fn list_maps_recipients_to_queued_templates() {
    let mut w = worker(100);
    w.submit("u".to_string(), SendPayload::List).unwrap();
    let send = |r: &str, t: &str, c: u64| SendPayload::Queue { recipient: r.to_string(), template: t.to_string(), category: c };
    w.submit("u".to_string(), send("a", "t1", 7)).unwrap();
    w.submit("u".to_string(), send("b", "t2", 8)).unwrap();
    w.submit("u".to_string(), SendPayload::Delete { recipient: "a".to_string(), template: "t1".to_string() }).unwrap();
    w.submit("u".to_string(), send("a", "t3", 7)).unwrap();
    assert_eq!(w.queued_for(&"a".to_string()), vec!["t1".to_string(), "t3".to_string()]);
    assert_eq!(w.queued_for(&"c".to_string()), Vec::<String>::new());
    let expected = vec![
        ("a".to_string(), vec!["t1".to_string(), "t3".to_string()]),
        ("b".to_string(), vec!["t2".to_string()]),
    ];
    assert_eq!(w.listing(), expected);
    match w.start_next(0) {
        SendStep::Listed { job: 0, listing } => assert_eq!(listing, expected),
        other => panic!("unexpected step {:?}", other),
    }
    assert_eq!(w.complete(true), None);
    assert_eq!(w.queued_count(), 4);
}

#[test]
fn empty_queue_lists_nothing() {
    let mut w = worker(100);
    w.submit("u".to_string(), SendPayload::List).unwrap();
    match w.start_next(0) {
        SendStep::Listed { job: 0, listing } => assert!(listing.is_empty()),
        other => panic!("unexpected step {:?}", other),
    }
}
