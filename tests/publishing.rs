use zero2prod::idempotency::{IdempotencyKey, KeyError};
use zero2prod::newsletter::{publish_newsletter, publish_newsletter_with_id, FormData, PublishNewsletterError};
use zero2prod::response::SavedResponse;
use zero2prod::store::delivery::{resolve_attempt, DeliveryOutcome, TaskResolution};
use zero2prod::store::{NewsletterStore, NextAction, PersistenceError};

const KEY: &str = "b5f2a1c4-7d3e-4f60-9a8b-0c1d2e3f4a5b";

fn form(key: &str) -> FormData {
    FormData {
        title: "Newsletter title".to_string(),
        text_content: "Newsletter body as plain text".to_string(),
        html_content: "<p>Newsletter body as HTML</p>".to_string(),
        idempotency_key: key.to_string(),
    }
}

fn subscribers(n: usize) -> Vec<String> {
    (0..n).map(|i| format!("subscriber{}@example.com", i)).collect()
}

fn same(a: &SavedResponse, b: &SavedResponse) -> bool {
    a.status == b.status
        && a.body == b.body
        && a.headers.len() == b.headers.len()
        && a.headers.iter().zip(b.headers.iter()).all(|(x, y)| x.name == y.name && x.value == y.value)
}

/// Drains the queue; `fails` says whether the transport fails for a recipient.
/// Returns the transport calls made, recipient by recipient.
fn drain(store: &mut NewsletterStore, max_retries: u32, fails: &dyn Fn(&str) -> bool) -> Vec<String> {
    let mut calls = Vec::new();
    while let Some(task) = store.dequeue_task() {
        let issue = store.get_issue(task.issue_id).expect("the task's issue is committed");
        assert_eq!(issue.title, "Newsletter title");
        calls.push(task.email.clone());
        let outcome = if fails(&task.email) { DeliveryOutcome::TransientFailure } else { DeliveryOutcome::Delivered };
        store.complete_task(task, outcome, max_retries).expect("the task is held");
    }
    calls
}

#[test]
fn three_subscribers_get_one_issue_and_three_deliveries() {
    let mut store = NewsletterStore::new();
    let r = publish_newsletter(&mut store, 7, &form(KEY), &subscribers(3)).unwrap();
    assert_eq!(r.status, 303);
    assert_eq!(r.headers[0].name, "location");
    assert_eq!(r.headers[0].value, "/admin/newsletters");
    assert_eq!(store.issue_count(), 1);
    assert_eq!(store.pending_tasks(), 3);
    let calls = drain(&mut store, 3, &|_| false);
    assert_eq!(calls.len(), 3);
    assert_eq!(store.pending_tasks(), 0);
    assert_eq!(store.issue_count(), 1);
}

#[test]
fn a_resubmission_replays_the_first_response() {
    let mut store = NewsletterStore::new();
    let first = publish_newsletter(&mut store, 7, &form(KEY), &subscribers(3)).unwrap();
    let second = publish_newsletter(&mut store, 7, &form(KEY), &subscribers(3)).unwrap();
    assert!(same(&first, &second));
    assert_eq!(store.issue_count(), 1);
    assert_eq!(store.pending_tasks(), 3);
}

#[test]
fn n_resubmissions_give_n_identical_responses() {
    let mut store = NewsletterStore::new();
    let first = publish_newsletter_with_id(&mut store, 1, &form(KEY), 10, &subscribers(2)).unwrap();
    for id in 11..20 {
        let again = publish_newsletter_with_id(&mut store, 1, &form(KEY), id, &subscribers(5)).unwrap();
        assert!(same(&first, &again));
    }
    assert_eq!(store.issue_count(), 1);
    assert_eq!(store.pending_tasks(), 2);
}

#[test]
fn the_same_key_from_another_user_is_another_request() {
    let mut store = NewsletterStore::new();
    publish_newsletter(&mut store, 1, &form(KEY), &subscribers(1)).unwrap();
    publish_newsletter(&mut store, 2, &form(KEY), &subscribers(1)).unwrap();
    assert_eq!(store.issue_count(), 2);
    assert_eq!(store.record_count(), 2);
}

#[test]
fn an_empty_key_is_a_client_error_and_writes_nothing() {
    let mut store = NewsletterStore::new();
    let err = publish_newsletter(&mut store, 7, &form(""), &subscribers(3)).unwrap_err();
    assert_eq!(err, PublishNewsletterError::InvalidKey(KeyError::Empty));
    assert_eq!(err.status_code(), 400);
    assert_eq!(store.record_count(), 0);
    assert_eq!(store.issue_count(), 0);
    assert_eq!(store.pending_tasks(), 0);
}

#[test]
fn key_validation() {
    assert!(IdempotencyKey::parse("a".repeat(50)).is_ok());
    assert_eq!(IdempotencyKey::parse("a".repeat(51)).unwrap_err(), KeyError::TooLong);
    assert_eq!(IdempotencyKey::parse(String::new()).unwrap_err(), KeyError::Empty);
    assert_eq!(IdempotencyKey::parse("ab cd".to_string()).unwrap_err(), KeyError::InvalidCharacter);
    assert_eq!(IdempotencyKey::parse("ab\tcd".to_string()).unwrap_err(), KeyError::InvalidCharacter);
    assert_eq!(IdempotencyKey::parse("clé".to_string()).unwrap_err(), KeyError::InvalidCharacter);
    assert_eq!(IdempotencyKey::parse("!~".to_string()).unwrap().as_str(), "!~");
    // Fifty characters of two bytes each are fifty characters, and invalid only by their kind.
    assert_eq!(IdempotencyKey::parse("é".repeat(50)).unwrap_err(), KeyError::InvalidCharacter);
    assert_eq!(KeyError::Empty.message(), "The idempotency key cannot be empty");
    let mut store = NewsletterStore::new();
    let err = publish_newsletter(&mut store, 7, &form(&"k".repeat(51)), &subscribers(1)).unwrap_err();
    assert_eq!(err, PublishNewsletterError::InvalidKey(KeyError::TooLong));
    assert_eq!(store.record_count(), 0);
}

#[test]
fn a_concurrent_duplicate_waits_then_gets_the_same_response() {
    let mut store = NewsletterStore::new();
    let key = IdempotencyKey::parse(KEY.to_string()).unwrap();
    let tx = match store.try_processing(7, &key) {
        NextAction::StartProcessing(tx) => tx,
        other => panic!("expected to start, got {:?}", other),
    };
    // The second submission arrives while the first is in flight.
    let err = publish_newsletter(&mut store, 7, &form(KEY), &subscribers(3)).unwrap_err();
    assert_eq!(err, PublishNewsletterError::InFlight);
    assert_eq!(store.issue_count(), 0);
    // The first one finishes.
    let issue_id = store.insert_newsletter_issue(&tx, "Newsletter title", "text", "<p>html</p>").unwrap();
    store.enqueue_delivery_tasks(&tx, issue_id, &subscribers(3)).unwrap();
    let first = store.save_response(tx, SavedResponse::see_other("/admin/newsletters")).unwrap();
    // The second one retries and gets the very same response.
    let second = publish_newsletter(&mut store, 7, &form(KEY), &subscribers(3)).unwrap();
    assert!(same(&first, &second));
    assert_eq!(store.issue_count(), 1);
    assert_eq!(store.pending_tasks(), 3);
}

#[test]
fn fan_out_enqueues_one_task_per_subscriber() {
    let mut store = NewsletterStore::new();
    publish_newsletter(&mut store, 7, &form(KEY), &subscribers(17)).unwrap();
    assert_eq!(store.pending_tasks(), 17);
    let mut calls = drain(&mut store, 0, &|_| false);
    calls.sort();
    calls.dedup();
    assert_eq!(calls.len(), 17);
}

#[test]
fn no_subscribers_means_no_tasks() {
    let mut store = NewsletterStore::new();
    publish_newsletter(&mut store, 7, &form(KEY), &Vec::new()).unwrap();
    assert_eq!(store.issue_count(), 1);
    assert_eq!(store.pending_tasks(), 0);
    assert!(store.dequeue_task().is_none());
}

#[test]
fn a_duplicate_recipient_rolls_the_request_back() {
    let mut store = NewsletterStore::new();
    let subs = vec!["a@example.com".to_string(), "a@example.com".to_string()];
    let err = publish_newsletter(&mut store, 7, &form(KEY), &subs).unwrap_err();
    assert_eq!(err, PublishNewsletterError::Persistence(PersistenceError::DuplicateTask));
    assert_eq!(err.status_code(), 500);
    assert_eq!(store.issue_count(), 0);
    assert_eq!(store.pending_tasks(), 0);
    assert_eq!(store.record_count(), 0);
    // The key is free again.
    publish_newsletter(&mut store, 7, &form(KEY), &subscribers(2)).unwrap();
    assert_eq!(store.issue_count(), 1);
}

#[test]
fn a_taken_issue_id_rolls_the_request_back() {
    let mut store = NewsletterStore::new();
    publish_newsletter_with_id(&mut store, 7, &form("first"), 42, &subscribers(1)).unwrap();
    let err = publish_newsletter_with_id(&mut store, 7, &form("second"), 42, &subscribers(1)).unwrap_err();
    assert_eq!(err, PublishNewsletterError::Persistence(PersistenceError::DuplicateIssue));
    assert_eq!(store.issue_count(), 1);
    assert_eq!(store.record_count(), 1);
}

#[test]
fn rollback_after_fan_out_leaves_nothing() {
    let mut store = NewsletterStore::new();
    let key = IdempotencyKey::parse(KEY.to_string()).unwrap();
    let tx = match store.try_processing(7, &key) {
        NextAction::StartProcessing(tx) => tx,
        other => panic!("expected to start, got {:?}", other),
    };
    let issue_id = store.insert_newsletter_issue(&tx, "t", "x", "h").unwrap();
    store.enqueue_delivery_tasks(&tx, issue_id, &subscribers(3)).unwrap();
    assert_eq!(store.issue_count(), 1);
    assert_eq!(store.pending_tasks(), 3);
    // Uncommitted tasks are invisible to the worker.
    assert!(store.dequeue_task().is_none());
    store.rollback(tx);
    assert_eq!(store.issue_count(), 0);
    assert_eq!(store.pending_tasks(), 0);
    assert_eq!(store.record_count(), 0);
    assert!(matches!(store.try_processing(7, &key), NextAction::StartProcessing(_)));
}

#[test]
fn a_finished_transaction_cannot_write() {
    let mut store = NewsletterStore::new();
    let key = IdempotencyKey::parse(KEY.to_string()).unwrap();
    let tx = match store.try_processing(7, &key) {
        NextAction::StartProcessing(tx) => tx,
        other => panic!("expected to start, got {:?}", other),
    };
    let key2 = IdempotencyKey::parse("other".to_string()).unwrap();
    let tx2 = match store.try_processing(7, &key2) {
        NextAction::StartProcessing(tx) => tx,
        other => panic!("expected to start, got {:?}", other),
    };
    store.rollback(tx2);
    store.save_response(tx, SavedResponse::see_other("/x")).unwrap();
    let tx3 = match store.try_processing(7, &key2) {
        NextAction::StartProcessing(tx) => tx,
        other => panic!("expected to start, got {:?}", other),
    };
    let id = store.insert_newsletter_issue(&tx3, "t", "x", "h").unwrap();
    assert_eq!(store.enqueue_delivery_tasks(&tx3, id + 1, &subscribers(1)), Err(PersistenceError::UnknownIssue));
    assert!(matches!(store.try_processing(7, &key), NextAction::ReturnSavedResponse(_)));
    assert!(matches!(store.try_processing(7, &key2), NextAction::AwaitInFlight));
}

#[test]
fn a_failing_recipient_is_attempted_max_retries_plus_one_times() {
    let mut store = NewsletterStore::new();
    publish_newsletter(&mut store, 7, &form(KEY), &subscribers(3)).unwrap();
    let calls = drain(&mut store, 3, &|e| e == "subscriber1@example.com");
    let failing = calls.iter().filter(|e| e.as_str() == "subscriber1@example.com").count();
    assert_eq!(failing, 4);
    assert_eq!(calls.len(), 4 + 2);
    assert_eq!(store.pending_tasks(), 0);
}

#[test]
fn retry_policy() {
    let max = 3;
    let mut n = 0;
    let mut attempts = 0;
    loop {
        attempts += 1;
        match resolve_attempt(n, DeliveryOutcome::TransientFailure, max) {
            TaskResolution::Requeued(next) => {
                assert_eq!(next, n + 1);
                n = next;
            }
            TaskResolution::Abandoned => break,
            other => panic!("unexpected {:?}", other),
        }
    }
    assert_eq!(attempts, max + 1);
    assert_eq!(resolve_attempt(0, DeliveryOutcome::InvalidRecipient, 3), TaskResolution::Dropped);
    assert_eq!(resolve_attempt(2, DeliveryOutcome::Delivered, 3), TaskResolution::Completed);
    assert_eq!(resolve_attempt(u32::MAX, DeliveryOutcome::TransientFailure, u32::MAX), TaskResolution::Abandoned);
}

#[test]
fn an_invalid_recipient_is_dropped_after_one_attempt() {
    let mut store = NewsletterStore::new();
    let subs = vec!["not-an-email".to_string(), "ok@example.com".to_string()];
    publish_newsletter(&mut store, 7, &form(KEY), &subs).unwrap();
    let mut attempts = 0;
    while let Some(task) = store.dequeue_task() {
        attempts += 1;
        let outcome = match zero2prod::store::delivery::plan_attempt(&task) {
            zero2prod::store::delivery::AttemptPlan::Send(email) => {
                assert_eq!(email.as_str(), task.email);
                DeliveryOutcome::Delivered
            }
            zero2prod::store::delivery::AttemptPlan::Drop => DeliveryOutcome::InvalidRecipient,
        };
        let expected = if outcome == DeliveryOutcome::Delivered { TaskResolution::Completed } else { TaskResolution::Dropped };
        assert_eq!(store.complete_task(task, outcome, 3), Some(expected));
    }
    assert_eq!(attempts, 2);
    assert_eq!(store.pending_tasks(), 0);
}

#[test]
fn a_released_task_is_claimed_again() {
    let mut store = NewsletterStore::new();
    publish_newsletter(&mut store, 7, &form(KEY), &subscribers(1)).unwrap();
    let task = store.dequeue_task().unwrap();
    assert!(store.dequeue_task().is_none());
    let again = zero2prod::store::delivery::ClaimedTask {
        issue_id: task.issue_id,
        email: task.email.clone(),
        n_retries: task.n_retries,
    };
    store.release_task(task);
    let task2 = store.dequeue_task().unwrap();
    assert_eq!(task2.email, again.email);
    assert_eq!(store.complete_task(task2, DeliveryOutcome::Delivered, 3), Some(TaskResolution::Completed));
    assert_eq!(store.complete_task(again, DeliveryOutcome::Delivered, 3), None);
}

#[test]
fn generated_issue_ids_differ() {
    let mut store = NewsletterStore::new();
    for i in 0..20 {
        publish_newsletter(&mut store, 7, &form(&format!("key-{}", i)), &subscribers(1)).unwrap();
    }
    assert_eq!(store.issue_count(), 20);
}

#[test]
fn a_transaction_of_another_store_is_not_open() {
    let mut a = NewsletterStore::new();
    let mut b = NewsletterStore::new();
    let key = IdempotencyKey::parse(KEY.to_string()).unwrap();
    let tx = match a.try_processing(7, &key) {
        NextAction::StartProcessing(tx) => tx,
        other => panic!("expected to start, got {:?}", other),
    };
    assert_eq!(b.insert_newsletter_issue(&tx, "t", "x", "h"), Err(PersistenceError::TransactionNotOpen));
    assert_eq!(b.enqueue_delivery_tasks(&tx, 1, &subscribers(1)), Err(PersistenceError::TransactionNotOpen));
    assert_eq!(b.save_response(tx, SavedResponse::see_other("/x")).unwrap_err(), PersistenceError::TransactionNotOpen);
    assert_eq!(b.issue_count(), 0);
    assert_eq!(b.record_count(), 0);
}
