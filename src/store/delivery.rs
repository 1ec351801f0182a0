//! The delivery worker's side of the store: claim one pending task, then
//! settle it by the outcome of the transport call.
use vstd::prelude::*;
use crate::domain::{is_valid_email, SubscriberEmail};
use super::{
    has_issue, in_flight, issue_row_view, store_wf, task_key, task_view, NewsletterIssue, NewsletterStore,
    StoreView, TaskRow, TaskView,
};

verus! {

/// What the email transport reported for one attempt.
#[derive(Debug, Clone, Copy, PartialEq, Eq, Structural)]
pub enum DeliveryOutcome {
    /// The message was accepted.
    Delivered,
    /// The recipient is not a valid address: a permanent failure.
    InvalidRecipient,
    /// A timeout or a server error: worth another attempt.
    TransientFailure,
}

/// What becomes of a task after one attempt.
#[derive(Debug, Clone, Copy, PartialEq, Eq, Structural)]
pub enum TaskResolution {
    /// Sent: the task is deleted.
    Completed,
    /// Invalid recipient: the task is deleted, never retried.
    Dropped,
    /// Transient failure under the ceiling: the task stays, with this count.
    Requeued(u32),
    /// Transient failure at the ceiling: the task is deleted and logged.
    Abandoned,
}

/// The retry policy: after a transient failure a task with `n_retries`
/// earlier retries is retried while `n_retries < max_retries`.
pub open spec fn resolve_spec(n_retries: u32, outcome: DeliveryOutcome, max_retries: u32) -> TaskResolution {
    match outcome {
        DeliveryOutcome::Delivered => TaskResolution::Completed,
        DeliveryOutcome::InvalidRecipient => TaskResolution::Dropped,
        DeliveryOutcome::TransientFailure => if n_retries < max_retries {
            TaskResolution::Requeued((n_retries + 1) as u32)
        } else {
            TaskResolution::Abandoned
        },
    }
}

/// The worker's decision for one attempt.
pub fn resolve_attempt(n_retries: u32, outcome: DeliveryOutcome, max_retries: u32) -> (r: TaskResolution)
    ensures
        r == resolve_spec(n_retries, outcome, max_retries),
{
    match outcome {
        DeliveryOutcome::Delivered => TaskResolution::Completed,
        DeliveryOutcome::InvalidRecipient => TaskResolution::Dropped,
        DeliveryOutcome::TransientFailure => if n_retries < max_retries {
            TaskResolution::Requeued(n_retries + 1)
        } else {
            TaskResolution::Abandoned
        },
    }
}

/// A committed task that nobody has claimed.
pub open spec fn ready(t: TaskView) -> bool {
    !t.claimed && t.owner is None
}

/// The task that one worker holds while it attempts delivery.
#[derive(Debug)]
pub struct ClaimedTask {
    pub issue_id: u128,
    pub email: String,
    pub n_retries: u32,
}

/// What the worker does with a task it has claimed, before any transport
/// call.
#[derive(Debug)]
pub enum AttemptPlan {
    /// The recipient is not a valid address: settle the task as
    /// `InvalidRecipient`, without sending.
    Drop,
    /// Send the issue to this address.
    Send(SubscriberEmail),
}

/// Resolves the task's recipient as a validated email address.
pub fn plan_attempt(task: &ClaimedTask) -> (r: AttemptPlan)
    ensures
        match r {
            AttemptPlan::Drop => !is_valid_email(task.email@),
            AttemptPlan::Send(e) => is_valid_email(task.email@) && e@ == task.email@,
        },
{
    match SubscriberEmail::parse(task.email.clone()) {
        Ok(e) => AttemptPlan::Send(e),
        Err(_) => AttemptPlan::Drop,
    }
}

/// The row of the task `key` that a worker holds, if any.
pub open spec fn claimed_index(tasks: Seq<TaskView>, key: (u128, Seq<char>)) -> Option<int> {
    if exists|i: int| 0 <= i < tasks.len() && task_key(#[trigger] tasks[i]) == key && tasks[i].claimed {
        Some(choose|i: int| 0 <= i < tasks.len() && task_key(#[trigger] tasks[i]) == key && tasks[i].claimed)
    } else {
        None
    }
}

/// Settling a claimed task: delete it, or put it back with one more retry.
pub open spec fn settle_spec(s: StoreView, key: (u128, Seq<char>), outcome: DeliveryOutcome, max_retries: u32) -> (StoreView, Option<TaskResolution>) {
    match claimed_index(s.tasks, key) {
        None => (s, None),
        Some(i) => {
            let res = resolve_spec(s.tasks[i].n_retries, outcome, max_retries);
            match res {
                TaskResolution::Requeued(n) => (
                    StoreView { tasks: s.tasks.update(i, TaskView { n_retries: n, claimed: false, ..s.tasks[i] }), ..s },
                    Some(res),
                ),
                _ => (StoreView { tasks: s.tasks.remove(i), ..s }, Some(res)),
            }
        },
    }
}

/// Releasing a claim without an outcome (the attempt was cut short).
pub open spec fn release_spec(s: StoreView, key: (u128, Seq<char>)) -> StoreView {
    match claimed_index(s.tasks, key) {
        None => s,
        Some(i) => StoreView { tasks: s.tasks.update(i, TaskView { claimed: false, ..s.tasks[i] }), ..s },
    }
}

/// With unique task keys, the task that matches `key` is the only one.
pub proof fn lemma_task_unique(tasks: Seq<TaskView>, i: int)
    requires
        forall|a: int, b: int| 0 <= a < tasks.len() && 0 <= b < tasks.len() && a != b ==> task_key(#[trigger] tasks[a]) != task_key(#[trigger] tasks[b]),
        0 <= i < tasks.len(),
    ensures
        forall|w: int| 0 <= w < tasks.len() && task_key(#[trigger] tasks[w]) == task_key(tasks[i]) ==> w == i,
{
}

/// Changing one task's counter or claim keeps the invariant.
pub proof fn lemma_update_task_wf(s: StoreView, i: int, t: TaskView)
    requires
        store_wf(s),
        0 <= i < s.tasks.len(),
        task_key(t) == task_key(s.tasks[i]),
        t.owner == s.tasks[i].owner,
        t.claimed ==> t.owner is None,
    ensures
        store_wf(StoreView { tasks: s.tasks.update(i, t), ..s }),
{
    let u = StoreView { tasks: s.tasks.update(i, t), ..s };
    assert forall|a: int, b: int| 0 <= a < u.tasks.len() && 0 <= b < u.tasks.len() && a != b
        implies task_key(#[trigger] u.tasks[a]) != task_key(#[trigger] u.tasks[b]) by {
        assert(task_key(s.tasks[a]) != task_key(s.tasks[b]));
    }
    assert forall|k: int| 0 <= k < u.tasks.len() implies has_issue(u.issues, (#[trigger] u.tasks[k]).issue_id, u.tasks[k].owner) by {
        assert(has_issue(s.issues, s.tasks[k].issue_id, s.tasks[k].owner));
    }
    assert forall|k: int| 0 <= k < u.tasks.len() && (#[trigger] u.tasks[k]).owner is Some
        implies in_flight(u, u.tasks[k].owner->0) by {
        assert(s.tasks[k].owner is Some);
        assert(in_flight(s, s.tasks[k].owner->0));
        let w = choose|w: int| 0 <= w < s.records.len() && super::record_matches(#[trigger] s.records[w], s.tasks[k].owner->0)
            && s.records[w].response is None;
        assert(u.records[w] == s.records[w]);
    }
    assert forall|k: int| 0 <= k < u.issues.len() && (#[trigger] u.issues[k]).owner is Some
        implies in_flight(u, u.issues[k].owner->0) by {
        assert(in_flight(s, s.issues[k].owner->0));
        let w = choose|w: int| 0 <= w < s.records.len() && super::record_matches(#[trigger] s.records[w], s.issues[k].owner->0)
            && s.records[w].response is None;
        assert(u.records[w] == s.records[w]);
    }
}

/// Deleting one task keeps the invariant.
pub proof fn lemma_remove_task_wf(s: StoreView, i: int)
    requires
        store_wf(s),
        0 <= i < s.tasks.len(),
    ensures
        store_wf(StoreView { tasks: s.tasks.remove(i), ..s }),
{
    let u = StoreView { tasks: s.tasks.remove(i), ..s };
    assert forall|a: int, b: int| 0 <= a < u.tasks.len() && 0 <= b < u.tasks.len() && a != b
        implies task_key(#[trigger] u.tasks[a]) != task_key(#[trigger] u.tasks[b]) by {
        let a2 = if a < i { a } else { a + 1 };
        let b2 = if b < i { b } else { b + 1 };
        assert(u.tasks[a] == s.tasks[a2] && u.tasks[b] == s.tasks[b2]);
        assert(task_key(s.tasks[a2]) != task_key(s.tasks[b2]));
    }
    assert forall|k: int| 0 <= k < u.tasks.len() implies has_issue(u.issues, (#[trigger] u.tasks[k]).issue_id, u.tasks[k].owner) by {
        let k2 = if k < i { k } else { k + 1 };
        assert(u.tasks[k] == s.tasks[k2]);
        assert(has_issue(s.issues, s.tasks[k2].issue_id, s.tasks[k2].owner));
    }
    assert forall|k: int| 0 <= k < u.tasks.len() && (#[trigger] u.tasks[k]).owner is Some
        implies in_flight(u, u.tasks[k].owner->0) by {
        let k2 = if k < i { k } else { k + 1 };
        assert(u.tasks[k] == s.tasks[k2]);
        assert(in_flight(s, s.tasks[k2].owner->0));
        let w = choose|w: int| 0 <= w < s.records.len() && super::record_matches(#[trigger] s.records[w], s.tasks[k2].owner->0)
            && s.records[w].response is None;
        assert(u.records[w] == s.records[w]);
    }
    assert forall|k: int| 0 <= k < u.tasks.len() && (#[trigger] u.tasks[k]).claimed implies u.tasks[k].owner is None by {
        let k2 = if k < i { k } else { k + 1 };
        assert(u.tasks[k] == s.tasks[k2]);
    }
    assert forall|k: int| 0 <= k < u.issues.len() && (#[trigger] u.issues[k]).owner is Some
        implies in_flight(u, u.issues[k].owner->0) by {
        assert(in_flight(s, s.issues[k].owner->0));
        let w = choose|w: int| 0 <= w < s.records.len() && super::record_matches(#[trigger] s.records[w], s.issues[k].owner->0)
            && s.records[w].response is None;
        assert(u.records[w] == s.records[w]);
    }
}

impl NewsletterStore {
    /// Claims one committed task that no other worker holds; other workers
    /// skip it until it is settled or released.
    pub fn dequeue_task(&mut self) -> (r: Option<ClaimedTask>)
        requires
            old(self).wf(),
        ensures
            final(self).wf(),
            match r {
                None => final(self)@ == old(self)@
                    && forall|i: int| 0 <= i < old(self)@.tasks.len() ==> !ready(#[trigger] old(self)@.tasks[i]),
                Some(c) => exists|i: int| 0 <= i < old(self)@.tasks.len() && ready(#[trigger] old(self)@.tasks[i])
                    && task_key(old(self)@.tasks[i]) == (c.issue_id, c.email@)
                    && c.n_retries == old(self)@.tasks[i].n_retries
                    && final(self)@ == StoreView {
                        tasks: old(self)@.tasks.update(i, TaskView { claimed: true, ..old(self)@.tasks[i] }),
                        ..old(self)@
                    },
            },
    {
        let ghost s0 = self@;
        let mut i: usize = 0;
        while i < self.tasks.len()
            invariant
                0 <= i <= self.tasks@.len(),
                self@ == s0,
                s0 == old(self)@,
                store_wf(s0),
                forall|j: int| 0 <= j < i ==> !ready(#[trigger] s0.tasks[j]),
            decreases self.tasks@.len() - i,
        {
            assert(self@.tasks[i as int] == task_view(self.tasks@[i as int]));
            if !self.tasks[i].claimed && self.tasks[i].owner.is_none() {
                let t = &self.tasks[i];
                let c = ClaimedTask { issue_id: t.issue_id, email: t.email.clone(), n_retries: t.n_retries };
                let row = TaskRow { issue_id: t.issue_id, email: t.email.clone(), n_retries: t.n_retries, claimed: true, owner: None };
                self.tasks.set(i, row);
                assert(self@.tasks =~= s0.tasks.update(i as int, TaskView { claimed: true, ..s0.tasks[i as int] }));
                proof {
                    lemma_update_task_wf(s0, i as int, TaskView { claimed: true, ..s0.tasks[i as int] });
                }
                assert(ready(s0.tasks[i as int]));
                return Some(c);
            }
            i = i + 1;
        }
        None
    }

    fn find_claimed(&self, issue_id: u128, email: &String) -> (r: Option<usize>)
        requires
            self.wf(),
        ensures
            match r {
                Some(i) => claimed_index(self@.tasks, (issue_id, email@)) == Some(i as int),
                None => claimed_index(self@.tasks, (issue_id, email@)) is None,
            },
    {
        let ghost key = (issue_id, email@);
        let mut i: usize = 0;
        while i < self.tasks.len()
            invariant
                0 <= i <= self.tasks@.len(),
                self.wf(),
                key == (issue_id, email@),
                forall|j: int| 0 <= j < i ==> !(task_key(#[trigger] self@.tasks[j]) == key && self@.tasks[j].claimed),
            decreases self.tasks@.len() - i,
        {
            assert(self@.tasks[i as int] == task_view(self.tasks@[i as int]));
            if self.tasks[i].issue_id == issue_id && self.tasks[i].email == *email && self.tasks[i].claimed {
                proof {
                    lemma_task_unique(self@.tasks, i as int);
                }
                return Some(i);
            }
            i = i + 1;
        }
        None
    }

    /// Settles a claimed task by the outcome of its attempt: deletes it on
    /// success, on an invalid recipient, or at the retry ceiling; otherwise
    /// puts it back with its retry count raised by one. `None` where the task
    /// is not held.
    pub fn complete_task(&mut self, task: ClaimedTask, outcome: DeliveryOutcome, max_retries: u32) -> (r: Option<TaskResolution>)
        requires
            old(self).wf(),
        ensures
            final(self).wf(),
            (final(self)@, r) == settle_spec(old(self)@, (task.issue_id, task.email@), outcome, max_retries),
    {
        let ghost s0 = self@;
        let i = match self.find_claimed(task.issue_id, &task.email) {
            Some(i) => i,
            None => return None,
        };
        assert(self@.tasks[i as int] == task_view(self.tasks@[i as int]));
        let res = resolve_attempt(self.tasks[i].n_retries, outcome, max_retries);
        match res {
            TaskResolution::Requeued(n) => {
                let t = &self.tasks[i];
                let row = TaskRow { issue_id: t.issue_id, email: t.email.clone(), n_retries: n, claimed: false, owner: None };
                self.tasks.set(i, row);
                assert(self@.tasks =~= s0.tasks.update(i as int, TaskView { n_retries: n, claimed: false, ..s0.tasks[i as int] }));
                proof {
                    lemma_update_task_wf(s0, i as int, TaskView { n_retries: n, claimed: false, ..s0.tasks[i as int] });
                }
            },
            _ => {
                self.tasks.remove(i);
                assert(self@.tasks =~= s0.tasks.remove(i as int));
                proof {
                    lemma_remove_task_wf(s0, i as int);
                }
            },
        }
        Some(res)
    }

    /// Gives a claimed task back unchanged, for another attempt later.
    pub fn release_task(&mut self, task: ClaimedTask)
        requires
            old(self).wf(),
        ensures
            final(self).wf(),
            final(self)@ == release_spec(old(self)@, (task.issue_id, task.email@)),
    {
        let ghost s0 = self@;
        let i = match self.find_claimed(task.issue_id, &task.email) {
            Some(i) => i,
            None => return,
        };
        assert(self@.tasks[i as int] == task_view(self.tasks@[i as int]));
        let t = &self.tasks[i];
        let row = TaskRow { issue_id: t.issue_id, email: t.email.clone(), n_retries: t.n_retries, claimed: false, owner: None };
        self.tasks.set(i, row);
        assert(self@.tasks =~= s0.tasks.update(i as int, TaskView { claimed: false, ..s0.tasks[i as int] }));
        proof {
            lemma_update_task_wf(s0, i as int, TaskView { claimed: false, ..s0.tasks[i as int] });
        }
    }

    /// The committed issue with this id, for the worker to send.
    pub fn get_issue(&self, issue_id: u128) -> (r: Option<NewsletterIssue>)
        requires
            self.wf(),
        ensures
            match r {
                Some(x) => x@.issue_id == issue_id && exists|k: int| 0 <= k < self@.issues.len()
                    && (#[trigger] self@.issues[k]).issue == x@ && self@.issues[k].owner is None,
                None => !has_issue(self@.issues, issue_id, None),
            },
    {
        let mut k: usize = 0;
        while k < self.issues.len()
            invariant
                0 <= k <= self.issues@.len(),
                forall|m: int| 0 <= m < k ==> !((#[trigger] self@.issues[m]).issue.issue_id == issue_id && self@.issues[m].owner is None),
            decreases self.issues@.len() - k,
        {
            assert(self@.issues[k as int] == issue_row_view(self.issues@[k as int]));
            if self.issues[k].issue.issue_id == issue_id && self.issues[k].owner.is_none() {
                return Some(self.issues[k].issue.duplicate());
            }
            k = k + 1;
        }
        None
    }

    /// The number of newsletter issue rows, committed or not.
    pub fn issue_count(&self) -> (r: usize)
        ensures
            r == self@.issues.len(),
    {
        self.issues.len()
    }

    /// The number of idempotency records, placeholders included.
    pub fn record_count(&self) -> (r: usize)
        ensures
            r == self@.records.len(),
    {
        self.records.len()
    }

    /// The number of delivery tasks still pending, claimed or not.
    pub fn pending_tasks(&self) -> (r: usize)
        ensures
            r == self@.tasks.len(),
    {
        self.tasks.len()
    }
}

} // verus!
