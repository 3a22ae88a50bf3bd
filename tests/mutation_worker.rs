use eurocore::error::{ErrorKind, SubmitError};
use eurocore::jobs::JobState;
use eurocore::mutation::{AdapterReply, ExternalCall, MutationPayload, MutationStep, MutationWorker};
use eurocore::store::{classify_insert_failure, Content, Record};

fn content(category: &str, subcategory: &str, title: &str, text: &str) -> Content {
    Content {
        category: category.to_string(),
        subcategory: subcategory.to_string(),
        title: title.to_string(),
        text: text.to_string(),
    }
}

fn sample() -> Content {
    content("meta", "gameplay", "X", "Y")
}

/// Runs one queued command through the worker, answering a remote call with `reply`.
fn serve(w: &mut MutationWorker, reply: AdapterReply, now: u64) -> (usize, Result<u64, ErrorKind>) {
    match w.start_next() {
        MutationStep::Call { job, .. } => {
            let (done, outcome) = w.complete(reply, now).unwrap();
            assert_eq!(done, job);
            (job, outcome)
        }
        MutationStep::Completed { job, outcome } => (job, outcome),
        MutationStep::Idle => panic!("nothing to serve"),
    }
}

#[test]
fn new_creates_record_and_first_version() {
    let mut w = MutationWorker::new(8);
    let job = w.submit("upc".to_string(), MutationPayload::New { content: sample() }).unwrap();
    assert_eq!(job, 0);
    assert_eq!(w.status(0), Some(JobState::Queued));
    match w.start_next() {
        MutationStep::Call { job, call: ExternalCall::Create { content } } => {
            assert_eq!(job, 0);
            assert_eq!(content.category, "meta");
            assert_eq!(content.subcategory, "gameplay");
            assert_eq!(content.title, "X");
            assert_eq!(content.text, "Y");
        }
        other => panic!("unexpected step {:?}", other),
    }
    assert_eq!(w.status(0), Some(JobState::Processing));
    assert_eq!(w.complete(AdapterReply::Accepted { remote_id: 555 }, 1000), Some((0, Ok(1))));
    assert_eq!(w.record(1), Some(Record { local_id: 1, remote_id: Some(555), is_active: true }));
    assert_eq!(w.record_count(), 1);
    assert_eq!(w.version_count(), 1);
    let v = w.version(0).unwrap();
    assert_eq!(v.local_id, 1);
    assert_eq!(v.content.title, "X");
    assert_eq!(v.created_by, "upc");
    assert_eq!(v.created_at, 1000);
    assert_eq!(w.status(0), Some(JobState::Succeeded(1)));
}

#[test]
fn delete_then_edit_is_not_found() {
    let mut w = MutationWorker::new(8);
    w.submit("upc".to_string(), MutationPayload::New { content: sample() }).unwrap();
    serve(&mut w, AdapterReply::Accepted { remote_id: 555 }, 1);
    let job = w.submit("upc".to_string(), MutationPayload::Delete { id: 1 }).unwrap();
    match w.start_next() {
        MutationStep::Call { job: j, call: ExternalCall::Remove { remote_id } } => {
            assert_eq!(j, job);
            assert_eq!(remote_id, 555);
        }
        other => panic!("unexpected step {:?}", other),
    }
    assert_eq!(w.complete(AdapterReply::Accepted { remote_id: 0 }, 2), Some((job, Ok(1))));
    assert_eq!(w.record(1), Some(Record { local_id: 1, remote_id: Some(555), is_active: false }));
    assert_eq!(w.version_count(), 1);
    let edit = MutationPayload::Edit { id: 1, content: content("meta", "gameplay", "X2", "Y2") };
    assert_eq!(w.submit("upc".to_string(), edit), Err(SubmitError::Rejected(ErrorKind::NotFound)));
}

#[test]
fn edit_and_delete_of_missing_record_are_not_found() {
    let mut w = MutationWorker::new(8);
    let edit = MutationPayload::Edit { id: 42, content: sample() };
    assert_eq!(w.submit("upc".to_string(), edit), Err(SubmitError::Rejected(ErrorKind::NotFound)));
    assert_eq!(
        w.submit("upc".to_string(), MutationPayload::Delete { id: 42 }),
        Err(SubmitError::Rejected(ErrorKind::NotFound))
    );
    let malformed = MutationPayload::Edit { id: 42, content: content("", "", "", "") };
    assert_eq!(w.submit("upc".to_string(), malformed), Err(SubmitError::Rejected(ErrorKind::NotFound)));
    assert_eq!(w.queued_count(), 0);
    assert!(matches!(w.start_next(), MutationStep::Idle));
}

#[test]
fn stale_delete_fails_in_worker_without_remote_call() {
    let mut w = MutationWorker::new(8);
    w.submit("upc".to_string(), MutationPayload::New { content: sample() }).unwrap();
    serve(&mut w, AdapterReply::Accepted { remote_id: 9 }, 1);
    let first = w.submit("upc".to_string(), MutationPayload::Delete { id: 1 }).unwrap();
    let second = w.submit("upc".to_string(), MutationPayload::Delete { id: 1 }).unwrap();
    assert_eq!(serve(&mut w, AdapterReply::Accepted { remote_id: 0 }, 2), (first, Ok(1)));
    match w.start_next() {
        MutationStep::Completed { job, outcome } => {
            assert_eq!(job, second);
            assert_eq!(outcome, Err(ErrorKind::NotFound));
        }
        other => panic!("expected a completion without a call, got {:?}", other),
    }
    assert!(!w.is_busy());
    assert_eq!(w.status(second), Some(JobState::Failed(ErrorKind::NotFound)));
}

#[test]
fn edit_appends_a_version() {
    let mut w = MutationWorker::new(8);
    w.submit("a".to_string(), MutationPayload::New { content: sample() }).unwrap();
    serve(&mut w, AdapterReply::Accepted { remote_id: 77 }, 1);
    let edit = MutationPayload::Edit { id: 1, content: content("meta", "gameplay", "X2", "Y2") };
    let job = w.submit("b".to_string(), edit).unwrap();
    match w.start_next() {
        MutationStep::Call { call: ExternalCall::Update { remote_id, content }, .. } => {
            assert_eq!(remote_id, 77);
            assert_eq!(content.title, "X2");
        }
        other => panic!("unexpected step {:?}", other),
    }
    assert_eq!(w.complete(AdapterReply::Accepted { remote_id: 77 }, 5), Some((job, Ok(1))));
    assert_eq!(w.version_count(), 2);
    assert_eq!(w.version(0).unwrap().content.title, "X");
    assert_eq!(w.version(1).unwrap().content.title, "X2");
    assert_eq!(w.version(1).unwrap().created_by, "b");
    assert_eq!(w.record(1).unwrap().is_active, true);
}

#[test]
fn remote_calls_follow_submission_order() {
    let mut w = MutationWorker::new(8);
    for title in ["a", "b", "c", "d"] {
        w.submit("u".to_string(), MutationPayload::New { content: content("c", "s", title, "t") }).unwrap();
    }
    let mut seen = Vec::new();
    let mut remote: u64 = 100;
    loop {
        match w.start_next() {
            MutationStep::Call { job, call: ExternalCall::Create { content } } => {
                seen.push((job, content.title));
                w.complete(AdapterReply::Accepted { remote_id: remote }, 0).unwrap();
                remote += 1;
            }
            MutationStep::Idle => break,
            other => panic!("unexpected step {:?}", other),
        }
    }
    let expected: Vec<(usize, String)> =
        vec![(0, "a".to_string()), (1, "b".to_string()), (2, "c".to_string()), (3, "d".to_string())];
    assert_eq!(seen, expected);
    assert_eq!(w.record(4), Some(Record { local_id: 4, remote_id: Some(103), is_active: true }));
}

#[test]
fn no_second_call_while_one_is_in_flight() {
    let mut w = MutationWorker::new(8);
    w.submit("u".to_string(), MutationPayload::New { content: sample() }).unwrap();
    w.submit("u".to_string(), MutationPayload::New { content: sample() }).unwrap();
    assert!(matches!(w.start_next(), MutationStep::Call { job: 0, .. }));
    assert!(w.is_busy());
    assert!(matches!(w.start_next(), MutationStep::Idle));
    assert_eq!(w.status(1), Some(JobState::Queued));
    assert_eq!(w.queued_count(), 1);
    w.complete(AdapterReply::Accepted { remote_id: 1 }, 0).unwrap();
    assert!(matches!(w.start_next(), MutationStep::Call { job: 1, .. }));
}

#[test]
fn each_job_is_resolved_once() {
    let mut w = MutationWorker::new(8);
    w.submit("u".to_string(), MutationPayload::New { content: sample() }).unwrap();
    assert_eq!(w.complete(AdapterReply::Accepted { remote_id: 1 }, 0), None);
    w.start_next();
    assert_eq!(w.complete(AdapterReply::Failed, 0), Some((0, Err(ErrorKind::ExternalApiError))));
    assert_eq!(w.complete(AdapterReply::Accepted { remote_id: 1 }, 0), None);
    assert_eq!(w.status(0), Some(JobState::Failed(ErrorKind::ExternalApiError)));
    assert_eq!(w.record_count(), 0);
    assert_eq!(w.version_count(), 0);
}

#[test]
fn terminal_status_is_stable() {
    let mut w = MutationWorker::new(8);
    w.submit("u".to_string(), MutationPayload::New { content: sample() }).unwrap();
    serve(&mut w, AdapterReply::Accepted { remote_id: 5 }, 0);
    let first = w.status(0);
    assert_eq!(first, Some(JobState::Succeeded(1)));
    assert_eq!(w.status(0), first);
    w.submit("u".to_string(), MutationPayload::Delete { id: 1 }).unwrap();
    serve(&mut w, AdapterReply::Failed, 0);
    assert_eq!(w.status(0), first);
    assert_eq!(w.status(1), Some(JobState::Failed(ErrorKind::ExternalApiError)));
    assert_eq!(w.status(2), None);
}

#[test]
fn malformed_payload_is_rejected() {
    let mut w = MutationWorker::new(8);
    let bad = MutationPayload::New { content: content("meta", "", "X", "Y") };
    assert_eq!(w.submit("u".to_string(), bad), Err(SubmitError::Rejected(ErrorKind::ValidationError)));
    assert_eq!(w.queued_count(), 0);
    assert_eq!(w.status(0), None);
}

#[test]
fn full_queue_applies_backpressure() {
    let mut w = MutationWorker::new(1);
    assert_eq!(w.submit("u".to_string(), MutationPayload::New { content: sample() }), Ok(0));
    assert_eq!(w.submit("u".to_string(), MutationPayload::New { content: sample() }), Err(SubmitError::Full));
    w.start_next();
    assert_eq!(w.submit("u".to_string(), MutationPayload::New { content: sample() }), Ok(1));
}

#[test]
fn closed_queue_is_unavailable_but_drains() {
    let mut w = MutationWorker::new(4);
    w.submit("u".to_string(), MutationPayload::New { content: sample() }).unwrap();
    w.close();
    assert_eq!(
        w.submit("u".to_string(), MutationPayload::New { content: sample() }),
        Err(SubmitError::Rejected(ErrorKind::Unavailable))
    );
    assert_eq!(serve(&mut w, AdapterReply::Accepted { remote_id: 3 }, 0), (0, Ok(1)));
}

#[test]
fn insert_failures_are_classified() {
    assert_eq!(classify_insert_failure(true), ErrorKind::AlreadyExists);
    assert_eq!(classify_insert_failure(false), ErrorKind::StorageError);
}
