//! What holds of the guard, the outbox and the worker across several calls,
//! proved over the same spec functions that the operations' contracts use.
use vstd::prelude::*;
use crate::idempotency::key::key_check;
use crate::newsletter::{accepted_response, process_spec, publish_spec, PublishNewsletterError};
use crate::response::ResponseView;
use crate::store::{
    begin_spec, commit_spec, has_issue, in_flight, lemma_begin_wf, lemma_commit_wf, lemma_record_unique,
    lemma_retain_all, lemma_retain_append_dropped, owned_by, record_index, record_matches, retain, rollback_spec,
    store_wf, task_key, tasks_unique, BeginView, IssueRowView, IssueView, OwnerView, StoreView, TaskView,
};
use crate::store::delivery::{resolve_spec, settle_spec, claimed_index, DeliveryOutcome, TaskResolution};
use crate::store::outbox::{
    enqueue_spec, fan_out_conflict, insert_issue_spec, lemma_enqueue_wf, lemma_insert_issue_wf, new_tasks,
};

verus! {

/// Key validation: a key that is empty, longer than 50 characters, or holds
/// a character that is not printable ASCII (or is a space) is refused with a
/// client error, and nothing is written.
pub proof fn lemma_invalid_key_writes_nothing(
    s: StoreView,
    user_id: u128,
    key: Seq<char>,
    issue: IssueView,
    emails: Seq<Seq<char>>,
)
    requires
        key.len() == 0 || key.len() > 50 || exists|i: int| 0 <= i < key.len() && !('!' <= #[trigger] key[i] && key[i] <= '~'),
    ensures
        publish_spec(s, user_id, key, issue, emails).0 == s,
        publish_spec(s, user_id, key, issue, emails).1 is Err,
        publish_spec(s, user_id, key, issue, emails).1->Err_0 is InvalidKey,
{
}

/// After a request has been answered, any identical request (under the same
/// user and key, whatever issue id it would generate) gets the same response
/// and writes nothing.
pub proof fn lemma_answered_request_replays(
    s: StoreView,
    user_id: u128,
    key: Seq<char>,
    issue: IssueView,
    emails: Seq<Seq<char>>,
    issue2: IssueView,
    emails2: Seq<Seq<char>>,
)
    requires
        store_wf(s),
        publish_spec(s, user_id, key, issue, emails).1 is Ok,
    ensures
        store_wf(publish_spec(s, user_id, key, issue, emails).0),
        publish_spec(publish_spec(s, user_id, key, issue, emails).0, user_id, key, issue2, emails2)
            == publish_spec(s, user_id, key, issue, emails),
{
    let o: OwnerView = (user_id, key);
    let (s1, b) = begin_spec(s, o);
    lemma_begin_wf(s, o);
    match b {
        BeginView::Start => {
            let n = s.records.len() as int;
            assert(record_matches(s1.records[n], o));
            lemma_record_unique(s1.records, o, n);
            let s2 = insert_issue_spec(s1, o, issue)->Ok_0;
            lemma_insert_issue_wf(s1, o, issue);
            let s3 = enqueue_spec(s2, o, issue.issue_id, emails)->Ok_0;
            lemma_enqueue_wf(s2, o, issue.issue_id, emails);
            assert(s3.records == s1.records);
            assert(in_flight(s3, o));
            lemma_commit_wf(s3, o, accepted_response());
            let s4 = commit_spec(s3, o, accepted_response())->0;
            assert(record_matches(s4.records[n], o));
            lemma_record_unique(s4.records, o, n);
        },
        _ => {},
    }
}

/// The state and the responses after `ids.len()` identical submissions, the
/// `i`-th of which would generate issue id `ids[i]`.
pub open spec fn submit_all(
    s: StoreView,
    user_id: u128,
    key: Seq<char>,
    issue: IssueView,
    ids: Seq<u128>,
    emails: Seq<Seq<char>>,
) -> (StoreView, Seq<Result<ResponseView, PublishNewsletterError>>)
    decreases ids.len(),
{
    if ids.len() == 0 {
        (s, Seq::empty())
    } else {
        let (s1, r) = publish_spec(s, user_id, key, IssueView { issue_id: ids[0], ..issue }, emails);
        let (s2, rs) = submit_all(s1, user_id, key, issue, ids.drop_first(), emails);
        (s2, seq![r] + rs)
    }
}

/// Idempotent replay: when the first of N identical submissions of a new
/// `(user, key)` succeeds, all N responses are identical and exactly one
/// newsletter issue is written.
pub proof fn lemma_idempotent_replay(
    s: StoreView,
    user_id: u128,
    key: Seq<char>,
    issue: IssueView,
    ids: Seq<u128>,
    emails: Seq<Seq<char>>,
)
    requires
        store_wf(s),
        record_index(s.records, (user_id, key)) is None,
        ids.len() > 0,
        publish_spec(s, user_id, key, IssueView { issue_id: ids[0], ..issue }, emails).1 is Ok,
    ensures
        submit_all(s, user_id, key, issue, ids, emails).1.len() == ids.len(),
        forall|i: int| 0 <= i < ids.len() ==> #[trigger] submit_all(s, user_id, key, issue, ids, emails).1[i]
            == publish_spec(s, user_id, key, IssueView { issue_id: ids[0], ..issue }, emails).1,
        submit_all(s, user_id, key, issue, ids, emails).0.issues.len() == s.issues.len() + 1,
{
    let first = IssueView { issue_id: ids[0], ..issue };
    let (s1, r) = publish_spec(s, user_id, key, first, emails);
    lemma_answered_request_replays(s, user_id, key, first, emails, first, emails);
    lemma_first_publish_writes_one_issue(s, user_id, key, first, emails);
    lemma_replays_stay(s1, user_id, key, issue, ids.drop_first(), emails, r);
    assert(submit_all(s, user_id, key, issue, ids, emails).1 =~= seq![r] + submit_all(s1, user_id, key, issue, ids.drop_first(), emails).1);
}

/// The first successful request of a new pair writes exactly one issue.
pub proof fn lemma_first_publish_writes_one_issue(
    s: StoreView,
    user_id: u128,
    key: Seq<char>,
    issue: IssueView,
    emails: Seq<Seq<char>>,
)
    requires
        store_wf(s),
        record_index(s.records, (user_id, key)) is None,
        publish_spec(s, user_id, key, issue, emails).1 is Ok,
    ensures
        publish_spec(s, user_id, key, issue, emails).0.issues.len() == s.issues.len() + 1,
        publish_spec(s, user_id, key, issue, emails).0.tasks.len() == s.tasks.len() + emails.len(),
{
}

/// Once `(user_id, key)` has its response `r` saved, every further
/// submission replays `r` and leaves the state as it is.
pub proof fn lemma_replays_stay(
    s: StoreView,
    user_id: u128,
    key: Seq<char>,
    issue: IssueView,
    ids: Seq<u128>,
    emails: Seq<Seq<char>>,
    r: Result<ResponseView, PublishNewsletterError>,
)
    requires
        r is Ok,
        forall|id: u128, e: Seq<Seq<char>>| #[trigger] publish_spec(s, user_id, key, IssueView { issue_id: id, ..issue }, e) == (s, r),
    ensures
        submit_all(s, user_id, key, issue, ids, emails).0 == s,
        submit_all(s, user_id, key, issue, ids, emails).1.len() == ids.len(),
        forall|i: int| 0 <= i < ids.len() ==> #[trigger] submit_all(s, user_id, key, issue, ids, emails).1[i] == r,
    decreases ids.len(),
{
    if ids.len() > 0 {
        assert(publish_spec(s, user_id, key, IssueView { issue_id: ids[0], ..issue }, emails) == (s, r));
        lemma_replays_stay(s, user_id, key, issue, ids.drop_first(), emails, r);
    }
}

/// Concurrent dedup: while the first request of a new pair is in flight, a
/// second one with the same key writes nothing and is told to wait; once the
/// first has committed, the second gets the identical response, and exactly
/// one issue and one task per recipient exist.
pub proof fn lemma_concurrent_dedup(
    s: StoreView,
    user_id: u128,
    key: Seq<char>,
    issue_a: IssueView,
    emails_a: Seq<Seq<char>>,
    issue_b: IssueView,
    emails_b: Seq<Seq<char>>,
)
    requires
        store_wf(s),
        key_check(key) is Ok,
        record_index(s.records, (user_id, key)) is None,
    ensures
        ({
            let during = begin_spec(s, (user_id, key)).0;
            &&& publish_spec(during, user_id, key, issue_b, emails_b)
                == (during, Err::<ResponseView, PublishNewsletterError>(PublishNewsletterError::InFlight))
            &&& process_spec(during, (user_id, key), issue_a, emails_a).1 is Ok ==> {
                let done = process_spec(during, (user_id, key), issue_a, emails_a).0;
                &&& publish_spec(done, user_id, key, issue_b, emails_b) == (done, process_spec(during, (user_id, key), issue_a, emails_a).1)
                &&& done.issues.len() == s.issues.len() + 1
                &&& done.tasks.len() == s.tasks.len() + emails_a.len()
            }
        }),
{
    let o: OwnerView = (user_id, key);
    let during = begin_spec(s, o).0;
    lemma_begin_wf(s, o);
    let n = s.records.len() as int;
    assert(record_matches(during.records[n], o));
    lemma_record_unique(during.records, o, n);
    if process_spec(during, o, issue_a, emails_a).1 is Ok {
        assert(publish_spec(s, user_id, key, issue_a, emails_a) == process_spec(during, o, issue_a, emails_a));
        lemma_answered_request_replays(s, user_id, key, issue_a, emails_a, issue_b, emails_b);
        lemma_first_publish_writes_one_issue(s, user_id, key, issue_a, emails_a);
    }
}

/// Fan-out completeness: inside the transaction that wrote the issue,
/// enqueueing M distinct recipients adds exactly M tasks, the `k`-th for
/// `(issue_id, emails[k])`, and every task stays unique by its pair.
pub proof fn lemma_fan_out(s: StoreView, o: OwnerView, issue_id: u128, emails: Seq<Seq<char>>)
    requires
        store_wf(s),
        in_flight(s, o),
        has_issue(s.issues, issue_id, Some(o)),
        forall|a: int, b: int| 0 <= a < b < emails.len() ==> emails[a] != emails[b],
        forall|t: int| 0 <= t < s.tasks.len() ==> (#[trigger] s.tasks[t]).issue_id != issue_id,
    ensures
        enqueue_spec(s, o, issue_id, emails) is Ok,
        ({
            let t = enqueue_spec(s, o, issue_id, emails)->Ok_0;
            &&& t.tasks.len() == s.tasks.len() + emails.len()
            &&& forall|k: int| 0 <= k < emails.len() ==> task_key(#[trigger] t.tasks[s.tasks.len() + k]) == (issue_id, emails[k])
            &&& tasks_unique(t.tasks)
            &&& t.issues == s.issues
        }),
{
    assert(!fan_out_conflict(s.tasks, issue_id, emails));
    lemma_enqueue_wf(s, o, issue_id, emails);
    let t = enqueue_spec(s, o, issue_id, emails)->Ok_0;
    assert forall|k: int| 0 <= k < emails.len() implies task_key(#[trigger] t.tasks[s.tasks.len() + k]) == (issue_id, emails[k]) by {
        assert(t.tasks[s.tasks.len() + k] == new_tasks(issue_id, emails, o)[k]);
    }
}

/// How many attempts a task makes, from `n_retries` earlier retries, when
/// every attempt fails transiently.
pub open spec fn attempts_while_failing(n_retries: u32, max_retries: u32) -> nat
    decreases max_retries - n_retries,
{
    if n_retries >= max_retries {
        1
    } else {
        1 + attempts_while_failing((n_retries + 1) as u32, max_retries)
    }
}

/// Retry bound: a task that always fails transiently is requeued after each
/// of its first `max_retries` attempts and abandoned at the next, so it is
/// attempted `max_retries + 1` times in all; a task for an invalid recipient
/// is dropped at its first attempt.
pub proof fn lemma_retry_bound(max_retries: u32)
    ensures
        attempts_while_failing(0, max_retries) == max_retries + 1,
        forall|r: u32| r < max_retries ==> #[trigger] resolve_spec(r, DeliveryOutcome::TransientFailure, max_retries)
            == TaskResolution::Requeued((r + 1) as u32),
        resolve_spec(max_retries, DeliveryOutcome::TransientFailure, max_retries) == TaskResolution::Abandoned,
        forall|r: u32| #[trigger] resolve_spec(r, DeliveryOutcome::InvalidRecipient, max_retries) == TaskResolution::Dropped,
{
    lemma_attempts_count(0, max_retries);
}

proof fn lemma_attempts_count(n_retries: u32, max_retries: u32)
    requires
        n_retries <= max_retries,
    ensures
        attempts_while_failing(n_retries, max_retries) == max_retries - n_retries + 1,
    decreases max_retries - n_retries,
{
    if n_retries < max_retries {
        lemma_attempts_count((n_retries + 1) as u32, max_retries);
    }
}

/// In the store, settling a held task after a transient failure keeps it,
/// unclaimed and with one more retry, below the ceiling, and deletes it at
/// the ceiling; after an invalid recipient it is deleted at once.
pub proof fn lemma_settle_failure(s: StoreView, key: (u128, Seq<char>), max_retries: u32)
    requires
        claimed_index(s.tasks, key) is Some,
    ensures
        ({
            let i = claimed_index(s.tasks, key)->0;
            let r = s.tasks[i].n_retries;
            let (t, res) = settle_spec(s, key, DeliveryOutcome::TransientFailure, max_retries);
            &&& r < max_retries ==> t.tasks.len() == s.tasks.len() && t.tasks[i].n_retries == r + 1 && !t.tasks[i].claimed
                && task_key(t.tasks[i]) == key
            &&& r >= max_retries ==> t.tasks == s.tasks.remove(i) && res == Some(TaskResolution::Abandoned)
        }),
        settle_spec(s, key, DeliveryOutcome::InvalidRecipient, max_retries).0.tasks
            == s.tasks.remove(claimed_index(s.tasks, key)->0),
{
}

/// Crash safety: rolling back, instead of committing, after the issue and
/// its tasks were written restores the state exactly as it was before the
/// request: no issue, no task, and the key free for a fresh attempt.
pub proof fn lemma_rollback_restores(s: StoreView, o: OwnerView, issue: IssueView, emails: Seq<Seq<char>>)
    requires
        store_wf(s),
        begin_spec(s, o).1 == BeginView::Start,
        insert_issue_spec(begin_spec(s, o).0, o, issue) is Ok,
        enqueue_spec(insert_issue_spec(begin_spec(s, o).0, o, issue)->Ok_0, o, issue.issue_id, emails) is Ok,
    ensures
        rollback_spec(enqueue_spec(insert_issue_spec(begin_spec(s, o).0, o, issue)->Ok_0, o, issue.issue_id, emails)->Ok_0, o) == s,
        begin_spec(
            rollback_spec(enqueue_spec(insert_issue_spec(begin_spec(s, o).0, o, issue)->Ok_0, o, issue.issue_id, emails)->Ok_0, o),
            o,
        ).1 == BeginView::Start,
{
    let s1 = begin_spec(s, o).0;
    let s2 = insert_issue_spec(s1, o, issue)->Ok_0;
    let s3 = enqueue_spec(s2, o, issue.issue_id, emails)->Ok_0;
    lemma_begin_wf(s, o);
    let n = s.records.len() as int;
    assert(record_matches(s1.records[n], o));
    lemma_record_unique(s1.records, o, n);
    assert(s3.records == s1.records);
    assert(in_flight(s3, o));
    let r = rollback_spec(s3, o);
    assert(r.records =~= s.records);
    let keep_i = |x: IssueRowView| !owned_by(x.owner, o);
    let keep_t = |x: TaskView| !owned_by(x.owner, o);
    assert(!in_flight(s, o));
    assert forall|i: int| 0 <= i < s.issues.len() implies keep_i(#[trigger] s.issues[i]) by {
        if s.issues[i].owner == Some(o) {
            assert(in_flight(s, s.issues[i].owner->0));
        }
    }
    assert forall|i: int| 0 <= i < s.tasks.len() implies keep_t(#[trigger] s.tasks[i]) by {
        if s.tasks[i].owner == Some(o) {
            assert(in_flight(s, s.tasks[i].owner->0));
        }
    }
    lemma_retain_all(s.issues, keep_i);
    lemma_retain_all(s.tasks, keep_t);
    assert(s3.issues == s.issues.push(IssueRowView { issue, owner: Some(o) }));
    assert(s3.issues.drop_last() =~= s.issues);
    assert(r.issues == retain(s.issues, keep_i));
    let fresh = new_tasks(issue.issue_id, emails, o);
    assert forall|i: int| 0 <= i < fresh.len() implies !keep_t(#[trigger] fresh[i]) by {}
    lemma_retain_append_dropped(s.tasks, fresh, keep_t);
    assert(r.tasks == retain(s.tasks, keep_t));
    assert(r == s);
}

} // verus!
