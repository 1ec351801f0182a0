//! The persisted state that the guard, the outbox writer and the delivery
//! worker share: idempotency records, newsletter issues and delivery tasks.
//! A row written inside an open transaction carries its owner, the
//! `(user, key)` pair whose placeholder record holds the transaction open;
//! commit clears the owner, rollback removes the owned rows.
pub mod delivery;
pub mod guard;
pub mod outbox;

use vstd::prelude::*;
use crate::response::{ResponseView, SavedResponse};

verus! {

/// The open transaction of one `(user_id, key)` pair.
pub type OwnerView = (u128, Seq<char>);

pub struct RecordView {
    pub user_id: u128,
    pub key: Seq<char>,
    /// `None` while the request that inserted the placeholder is in flight.
    pub response: Option<ResponseView>,
}

pub struct IssueView {
    pub issue_id: u128,
    pub title: Seq<char>,
    pub text_content: Seq<char>,
    pub html_content: Seq<char>,
}

pub struct IssueRowView {
    pub issue: IssueView,
    pub owner: Option<OwnerView>,
}

pub struct TaskView {
    pub issue_id: u128,
    pub email: Seq<char>,
    pub n_retries: u32,
    pub claimed: bool,
    pub owner: Option<OwnerView>,
}

pub struct StoreView {
    pub records: Seq<RecordView>,
    pub issues: Seq<IssueRowView>,
    pub tasks: Seq<TaskView>,
}

pub open spec fn record_matches(r: RecordView, o: OwnerView) -> bool {
    r.user_id == o.0 && r.key == o.1
}

/// Where the record of `o` stands, if there is one.
pub open spec fn record_index(records: Seq<RecordView>, o: OwnerView) -> Option<int> {
    if exists|i: int| 0 <= i < records.len() && record_matches(#[trigger] records[i], o) {
        Some(choose|i: int| 0 <= i < records.len() && record_matches(#[trigger] records[i], o))
    } else {
        None
    }
}

/// The placeholder of `o` stands and its transaction is open.
pub open spec fn in_flight(s: StoreView, o: OwnerView) -> bool {
    exists|i: int|
        0 <= i < s.records.len() && record_matches(#[trigger] s.records[i], o) && s.records[i].response is None
}

pub open spec fn records_unique(records: Seq<RecordView>) -> bool {
    forall|i: int, j: int|
        0 <= i < records.len() && 0 <= j < records.len() && i != j ==> !record_matches(
            #[trigger] records[i],
            (#[trigger] records[j].user_id, records[j].key),
        )
}

pub open spec fn issues_unique(issues: Seq<IssueRowView>) -> bool {
    forall|i: int, j: int|
        0 <= i < issues.len() && 0 <= j < issues.len() && i != j ==> (#[trigger] issues[i]).issue.issue_id
            != (#[trigger] issues[j]).issue.issue_id
}

pub open spec fn task_key(t: TaskView) -> (u128, Seq<char>) {
    (t.issue_id, t.email)
}

pub open spec fn tasks_unique(tasks: Seq<TaskView>) -> bool {
    forall|i: int, j: int|
        0 <= i < tasks.len() && 0 <= j < tasks.len() && i != j ==> task_key(#[trigger] tasks[i])
            != task_key(#[trigger] tasks[j])
}

/// Some issue row has this id and this owner.
pub open spec fn has_issue(issues: Seq<IssueRowView>, issue_id: u128, owner: Option<OwnerView>) -> bool {
    exists|k: int| 0 <= k < issues.len() && (#[trigger] issues[k]).issue.issue_id == issue_id && issues[k].owner == owner
}

/// The invariant of the persisted state.
pub open spec fn store_wf(s: StoreView) -> bool {
    &&& records_unique(s.records)
    &&& issues_unique(s.issues)
    &&& tasks_unique(s.tasks)
    &&& forall|i: int| 0 <= i < s.issues.len() && (#[trigger] s.issues[i]).owner is Some
        ==> in_flight(s, s.issues[i].owner->0)
    &&& forall|i: int| 0 <= i < s.tasks.len() && (#[trigger] s.tasks[i]).owner is Some
        ==> in_flight(s, s.tasks[i].owner->0)
    &&& forall|i: int| 0 <= i < s.tasks.len() ==> has_issue(s.issues, (#[trigger] s.tasks[i]).issue_id, s.tasks[i].owner)
    &&& forall|i: int| 0 <= i < s.tasks.len() && (#[trigger] s.tasks[i]).claimed ==> s.tasks[i].owner is None
}

/// What the guard decides for one request.
pub enum BeginView {
    Start,
    Replay(ResponseView),
    Wait,
}

/// The guard's step: the first request of a pair inserts its placeholder and
/// starts processing; a later one replays the saved response, or waits while
/// the first is still in flight.
pub open spec fn begin_spec(s: StoreView, o: OwnerView) -> (StoreView, BeginView) {
    match record_index(s.records, o) {
        None => (
            StoreView { records: s.records.push(RecordView { user_id: o.0, key: o.1, response: None }), ..s },
            BeginView::Start,
        ),
        Some(i) => match s.records[i].response {
            Some(r) => (s, BeginView::Replay(r)),
            None => (s, BeginView::Wait),
        },
    }
}

pub open spec fn owned_by(owner: Option<OwnerView>, o: OwnerView) -> bool {
    owner == Some(o)
}

pub open spec fn commit_issue(r: IssueRowView, o: OwnerView) -> IssueRowView {
    if owned_by(r.owner, o) { IssueRowView { owner: None, ..r } } else { r }
}

pub open spec fn commit_task(t: TaskView, o: OwnerView) -> TaskView {
    if owned_by(t.owner, o) { TaskView { owner: None, ..t } } else { t }
}

/// Commit: fill in the response and make the transaction's rows permanent.
/// `None` where `o` has no open transaction.
pub open spec fn commit_spec(s: StoreView, o: OwnerView, resp: ResponseView) -> Option<StoreView> {
    if in_flight(s, o) {
        let i = record_index(s.records, o)->0;
        Some(StoreView {
            records: s.records.update(i, RecordView { response: Some(resp), ..s.records[i] }),
            issues: s.issues.map_values(|r: IssueRowView| commit_issue(r, o)),
            tasks: s.tasks.map_values(|t: TaskView| commit_task(t, o)),
        })
    } else {
        None
    }
}

/// The rows of `s` that `keep` accepts, in order.
pub open spec fn retain<A>(s: Seq<A>, keep: spec_fn(A) -> bool) -> Seq<A>
    decreases s.len(),
{
    if s.len() == 0 {
        s
    } else {
        let rest = retain(s.drop_last(), keep);
        if keep(s.last()) { rest.push(s.last()) } else { rest }
    }
}

/// Rollback: the placeholder and every row of the transaction vanish.
pub open spec fn rollback_spec(s: StoreView, o: OwnerView) -> StoreView {
    if in_flight(s, o) {
        StoreView {
            records: s.records.remove(record_index(s.records, o)->0),
            issues: retain(s.issues, |r: IssueRowView| !owned_by(r.owner, o)),
            tasks: retain(s.tasks, |t: TaskView| !owned_by(t.owner, o)),
        }
    } else {
        s
    }
}

/// `x` is a row of `s` that `keep` accepts.
pub open spec fn kept_row<A>(s: Seq<A>, keep: spec_fn(A) -> bool, x: A) -> bool {
    exists|j: int| 0 <= j < s.len() && x == #[trigger] s[j] && keep(s[j])
}

/// Every row that `retain` keeps comes from `s` and is accepted by `keep`.
pub proof fn lemma_retain_from<A>(s: Seq<A>, keep: spec_fn(A) -> bool)
    ensures
        retain(s, keep).len() <= s.len(),
        forall|k: int| 0 <= k < retain(s, keep).len() ==> kept_row(s, keep, #[trigger] retain(s, keep)[k]),
    decreases s.len(),
{
    if s.len() > 0 {
        let rest = s.drop_last();
        lemma_retain_from(rest, keep);
        assert forall|k: int| 0 <= k < retain(s, keep).len() implies kept_row(s, keep, #[trigger] retain(s, keep)[k]) by {
            if k < retain(rest, keep).len() {
                assert(kept_row(rest, keep, retain(rest, keep)[k]));
                let j = choose|j: int| 0 <= j < rest.len() && retain(rest, keep)[k] == #[trigger] rest[j] && keep(rest[j]);
                assert(s[j] == rest[j]);
            } else {
                assert(s[s.len() - 1] == s.last());
            }
        }
    }
}

/// Every row of `s` that `keep` accepts is in `retain(s, keep)`.
pub proof fn lemma_retain_keeps<A>(s: Seq<A>, keep: spec_fn(A) -> bool)
    ensures
        forall|j: int| 0 <= j < s.len() && keep(#[trigger] s[j]) ==> exists|k: int|
            0 <= k < retain(s, keep).len() && retain(s, keep)[k] == s[j],
    decreases s.len(),
{
    if s.len() > 0 {
        let rest = s.drop_last();
        lemma_retain_keeps(rest, keep);
        lemma_retain_from(rest, keep);
        assert forall|j: int| 0 <= j < s.len() && keep(#[trigger] s[j]) implies exists|k: int|
            0 <= k < retain(s, keep).len() && retain(s, keep)[k] == s[j] by {
            if j < rest.len() {
                assert(rest[j] == s[j]);
                let k = choose|k: int| 0 <= k < retain(rest, keep).len() && retain(rest, keep)[k] == rest[j];
                assert(retain(s, keep)[k] == retain(rest, keep)[k]);
            } else {
                assert(retain(s, keep)[retain(rest, keep).len() as int] == s.last());
            }
        }
    }
}

/// `retain` keeps keys pairwise distinct.
pub proof fn lemma_retain_unique<A, K>(s: Seq<A>, keep: spec_fn(A) -> bool, key: spec_fn(A) -> K)
    requires
        forall|i: int, j: int| 0 <= i < s.len() && 0 <= j < s.len() && i != j ==> key(#[trigger] s[i]) != key(#[trigger] s[j]),
    ensures
        forall|i: int, j: int|
            0 <= i < retain(s, keep).len() && 0 <= j < retain(s, keep).len() && i != j ==> key(#[trigger] retain(s, keep)[i])
                != key(#[trigger] retain(s, keep)[j]),
    decreases s.len(),
{
    if s.len() > 0 {
        let rest = s.drop_last();
        assert forall|i: int, j: int| 0 <= i < rest.len() && 0 <= j < rest.len() && i != j implies key(#[trigger] rest[i]) != key(#[trigger] rest[j]) by {
            assert(rest[i] == s[i] && rest[j] == s[j]);
        }
        lemma_retain_unique(rest, keep, key);
        lemma_retain_from(rest, keep);
        let r = retain(rest, keep);
        if keep(s.last()) {
            assert forall|i: int, j: int|
                0 <= i < retain(s, keep).len() && 0 <= j < retain(s, keep).len() && i != j implies key(#[trigger] retain(s, keep)[i])
                    != key(#[trigger] retain(s, keep)[j]) by {
                let n = r.len() as int;
                if i < n && j < n {
                } else if i == n {
                    assert(kept_row(rest, keep, r[j]));
                    let w = choose|w: int| 0 <= w < rest.len() && r[j] == #[trigger] rest[w] && keep(rest[w]);
                    assert(s[w] == rest[w]);
                    assert(key(s[s.len() - 1]) != key(s[w]));
                } else {
                    assert(kept_row(rest, keep, r[i]));
                    let w = choose|w: int| 0 <= w < rest.len() && r[i] == #[trigger] rest[w] && keep(rest[w]);
                    assert(s[w] == rest[w]);
                    assert(key(s[s.len() - 1]) != key(s[w]));
                }
            }
        }
    }
}

/// `retain` leaves a sequence whose rows are all accepted unchanged.
pub proof fn lemma_retain_all<A>(s: Seq<A>, keep: spec_fn(A) -> bool)
    requires
        forall|i: int| 0 <= i < s.len() ==> keep(#[trigger] s[i]),
    ensures
        retain(s, keep) == s,
    decreases s.len(),
{
    if s.len() > 0 {
        let rest = s.drop_last();
        assert forall|i: int| 0 <= i < rest.len() implies keep(#[trigger] rest[i]) by {
            assert(rest[i] == s[i]);
        }
        lemma_retain_all(rest, keep);
        assert(keep(s[s.len() - 1]));
        assert(rest.push(s.last()) =~= s);
    }
}

/// Rows that `retain` drops can be appended without changing its result.
pub proof fn lemma_retain_append_dropped<A>(s: Seq<A>, t: Seq<A>, keep: spec_fn(A) -> bool)
    requires
        forall|i: int| 0 <= i < t.len() ==> !keep(#[trigger] t[i]),
    ensures
        retain(s + t, keep) == retain(s, keep),
    decreases t.len(),
{
    if t.len() == 0 {
        assert(s + t =~= s);
    } else {
        let t2 = t.drop_last();
        assert forall|i: int| 0 <= i < t2.len() implies !keep(#[trigger] t2[i]) by {
            assert(t2[i] == t[i]);
        }
        lemma_retain_append_dropped(s, t2, keep);
        assert((s + t).drop_last() =~= s + t2);
        assert((s + t).last() == t[t.len() - 1]);
    }
}

/// With unique records, the record that matches `o` is the only one.
pub proof fn lemma_record_unique(records: Seq<RecordView>, o: OwnerView, i: int)
    requires
        records_unique(records),
        0 <= i < records.len(),
        record_matches(records[i], o),
    ensures
        record_index(records, o) == Some(i),
        forall|w: int| 0 <= w < records.len() && record_matches(#[trigger] records[w], o) ==> w == i,
{
    assert forall|w: int| 0 <= w < records.len() && record_matches(#[trigger] records[w], o) implies w == i by {
        if w != i {
            assert(!record_matches(records[w], (records[i].user_id, records[i].key)));
        }
    }
}

/// The guard's step keeps the invariant.
pub proof fn lemma_begin_wf(s: StoreView, o: OwnerView)
    requires
        store_wf(s),
    ensures
        store_wf(begin_spec(s, o).0),
{
    if record_index(s.records, o) is None {
        let t = begin_spec(s, o).0;
        let n = s.records.len() as int;
        assert forall|i: int| 0 <= i < t.issues.len() && (#[trigger] t.issues[i]).owner is Some
            implies in_flight(t, t.issues[i].owner->0) by {
            let w = choose|w: int| 0 <= w < s.records.len()
                && record_matches(#[trigger] s.records[w], s.issues[i].owner->0) && s.records[w].response is None;
            assert(t.records[w] == s.records[w]);
        }
        assert forall|i: int| 0 <= i < t.tasks.len() && (#[trigger] t.tasks[i]).owner is Some
            implies in_flight(t, t.tasks[i].owner->0) by {
            let w = choose|w: int| 0 <= w < s.records.len()
                && record_matches(#[trigger] s.records[w], s.tasks[i].owner->0) && s.records[w].response is None;
            assert(t.records[w] == s.records[w]);
        }
        assert forall|i: int, j: int| 0 <= i < t.records.len() && 0 <= j < t.records.len() && i != j
            implies !record_matches(#[trigger] t.records[i], (#[trigger] t.records[j].user_id, t.records[j].key)) by {
            if i < n && j < n {
                assert(!record_matches(s.records[i], (s.records[j].user_id, s.records[j].key)));
            } else if i == n {
                assert(!record_matches(s.records[j], o));
            } else {
                assert(!record_matches(s.records[i], o));
            }
        }
    }
}

/// Committing the open transaction of `o` keeps the invariant.
pub proof fn lemma_commit_wf(s: StoreView, o: OwnerView, resp: ResponseView)
    requires
        store_wf(s),
        in_flight(s, o),
    ensures
        commit_spec(s, o, resp) is Some,
        store_wf(commit_spec(s, o, resp)->0),
        record_index(s.records, o) is Some,
{
    let w0 = choose|w: int| 0 <= w < s.records.len() && record_matches(#[trigger] s.records[w], o) && s.records[w].response is None;
    let i = record_index(s.records, o)->0;
    assert(i == w0) by {
        if i != w0 {
            assert(!record_matches(s.records[i], (s.records[w0].user_id, s.records[w0].key)));
        }
    }
    let t = commit_spec(s, o, resp)->0;
    assert forall|a: int, b: int| 0 <= a < t.records.len() && 0 <= b < t.records.len() && a != b
        implies !record_matches(#[trigger] t.records[a], (#[trigger] t.records[b].user_id, t.records[b].key)) by {
        assert(!record_matches(s.records[a], (s.records[b].user_id, s.records[b].key)));
    }
    assert forall|a: int, b: int| 0 <= a < t.issues.len() && 0 <= b < t.issues.len() && a != b
        implies (#[trigger] t.issues[a]).issue.issue_id != (#[trigger] t.issues[b]).issue.issue_id by {
        assert(s.issues[a].issue.issue_id != s.issues[b].issue.issue_id);
    }
    assert forall|a: int, b: int| 0 <= a < t.tasks.len() && 0 <= b < t.tasks.len() && a != b
        implies task_key(#[trigger] t.tasks[a]) != task_key(#[trigger] t.tasks[b]) by {
        assert(task_key(s.tasks[a]) != task_key(s.tasks[b]));
    }
    assert forall|k: int| 0 <= k < t.issues.len() && (#[trigger] t.issues[k]).owner is Some
        implies in_flight(t, t.issues[k].owner->0) by {
        let o2 = s.issues[k].owner->0;
        assert(s.issues[k].owner is Some && o2 != o);
        let w = choose|w: int| 0 <= w < s.records.len() && record_matches(#[trigger] s.records[w], o2) && s.records[w].response is None;
        assert(w != i);
        assert(t.records[w] == s.records[w]);
    }
    assert forall|k: int| 0 <= k < t.tasks.len() && (#[trigger] t.tasks[k]).owner is Some
        implies in_flight(t, t.tasks[k].owner->0) by {
        let o2 = s.tasks[k].owner->0;
        assert(s.tasks[k].owner is Some && o2 != o);
        let w = choose|w: int| 0 <= w < s.records.len() && record_matches(#[trigger] s.records[w], o2) && s.records[w].response is None;
        assert(w != i);
        assert(t.records[w] == s.records[w]);
    }
    assert forall|k: int| 0 <= k < t.tasks.len() implies has_issue(t.issues, (#[trigger] t.tasks[k]).issue_id, t.tasks[k].owner) by {
        assert(has_issue(s.issues, s.tasks[k].issue_id, s.tasks[k].owner));
        let m = choose|m: int| 0 <= m < s.issues.len() && (#[trigger] s.issues[m]).issue.issue_id == s.tasks[k].issue_id
            && s.issues[m].owner == s.tasks[k].owner;
        assert(t.issues[m].issue.issue_id == t.tasks[k].issue_id && t.issues[m].owner == t.tasks[k].owner);
    }
    assert forall|k: int| 0 <= k < t.tasks.len() && (#[trigger] t.tasks[k]).claimed implies t.tasks[k].owner is None by {
        assert(s.tasks[k].claimed);
    }
}

/// Rolling back the open transaction of `o` keeps the invariant.
pub proof fn lemma_rollback_wf(s: StoreView, o: OwnerView)
    requires
        store_wf(s),
    ensures
        store_wf(rollback_spec(s, o)),
{
    if in_flight(s, o) {
        let w0 = choose|w: int| 0 <= w < s.records.len() && record_matches(#[trigger] s.records[w], o) && s.records[w].response is None;
        let i = record_index(s.records, o)->0;
        assert(i == w0) by {
            if i != w0 {
                assert(!record_matches(s.records[i], (s.records[w0].user_id, s.records[w0].key)));
            }
        }
        let keep_i = |r: IssueRowView| !owned_by(r.owner, o);
        let keep_t = |t: TaskView| !owned_by(t.owner, o);
        let t = rollback_spec(s, o);
        assert(t.issues == retain(s.issues, keep_i));
        assert(t.tasks == retain(s.tasks, keep_t));
        lemma_retain_from(s.issues, keep_i);
        lemma_retain_from(s.tasks, keep_t);
        lemma_retain_keeps(s.issues, keep_i);
        lemma_retain_unique(s.issues, keep_i, |r: IssueRowView| r.issue.issue_id);
        lemma_retain_unique(s.tasks, keep_t, |x: TaskView| task_key(x));
        assert forall|a: int, b: int| 0 <= a < t.records.len() && 0 <= b < t.records.len() && a != b
            implies !record_matches(#[trigger] t.records[a], (#[trigger] t.records[b].user_id, t.records[b].key)) by {
            let a2 = if a < i { a } else { a + 1 };
            let b2 = if b < i { b } else { b + 1 };
            assert(t.records[a] == s.records[a2] && t.records[b] == s.records[b2]);
            assert(!record_matches(s.records[a2], (s.records[b2].user_id, s.records[b2].key)));
        }
        assert forall|a: int, b: int| 0 <= a < t.issues.len() && 0 <= b < t.issues.len() && a != b
            implies (#[trigger] t.issues[a]).issue.issue_id != (#[trigger] t.issues[b]).issue.issue_id by {
            let f = |r: IssueRowView| r.issue.issue_id;
            assert(f(t.issues[a]) != f(t.issues[b]));
        }
        assert forall|a: int, b: int| 0 <= a < t.tasks.len() && 0 <= b < t.tasks.len() && a != b
            implies task_key(#[trigger] t.tasks[a]) != task_key(#[trigger] t.tasks[b]) by {
            let f = |x: TaskView| task_key(x);
            assert(f(t.tasks[a]) != f(t.tasks[b]));
        }
        assert forall|o2: OwnerView| o2 != o && #[trigger] in_flight(s, o2) implies in_flight(t, o2) by {
            let w = choose|w: int| 0 <= w < s.records.len() && record_matches(#[trigger] s.records[w], o2) && s.records[w].response is None;
            assert(w != i);
            let w2 = if w < i { w } else { w - 1 };
            assert(t.records[w2] == s.records[w]);
        }
        assert forall|k: int| 0 <= k < t.issues.len() && (#[trigger] t.issues[k]).owner is Some
            implies in_flight(t, t.issues[k].owner->0) by {
            assert(kept_row(s.issues, keep_i, t.issues[k]));
            let j = choose|j: int| 0 <= j < s.issues.len() && t.issues[k] == #[trigger] s.issues[j] && keep_i(s.issues[j]);
            assert(in_flight(s, s.issues[j].owner->0));
        }
        assert forall|k: int| 0 <= k < t.tasks.len() && (#[trigger] t.tasks[k]).owner is Some
            implies in_flight(t, t.tasks[k].owner->0) by {
            assert(kept_row(s.tasks, keep_t, t.tasks[k]));
            let j = choose|j: int| 0 <= j < s.tasks.len() && t.tasks[k] == #[trigger] s.tasks[j] && keep_t(s.tasks[j]);
            assert(in_flight(s, s.tasks[j].owner->0));
        }
        assert forall|k: int| 0 <= k < t.tasks.len() implies has_issue(t.issues, (#[trigger] t.tasks[k]).issue_id, t.tasks[k].owner) by {
            assert(kept_row(s.tasks, keep_t, t.tasks[k]));
            let j = choose|j: int| 0 <= j < s.tasks.len() && t.tasks[k] == #[trigger] s.tasks[j] && keep_t(s.tasks[j]);
            assert(has_issue(s.issues, s.tasks[j].issue_id, s.tasks[j].owner));
            let m = choose|m: int| 0 <= m < s.issues.len() && (#[trigger] s.issues[m]).issue.issue_id == s.tasks[j].issue_id
                && s.issues[m].owner == s.tasks[j].owner;
            assert(keep_i(s.issues[m]));
            let m2 = choose|m2: int| 0 <= m2 < retain(s.issues, keep_i).len() && retain(s.issues, keep_i)[m2] == s.issues[m];
            assert(t.issues[m2] == s.issues[m]);
        }
        assert forall|k: int| 0 <= k < t.tasks.len() && (#[trigger] t.tasks[k]).claimed implies t.tasks[k].owner is None by {
            assert(kept_row(s.tasks, keep_t, t.tasks[k]));
            let j = choose|j: int| 0 <= j < s.tasks.len() && t.tasks[k] == #[trigger] s.tasks[j] && keep_t(s.tasks[j]);
        }
    }
}

/// Why a write to the store was refused.
#[derive(Debug, Clone, Copy, PartialEq, Eq, Structural)]
pub enum PersistenceError {
    /// The transaction is not open in this store.
    TransactionNotOpen,
    /// An issue with this id exists already.
    DuplicateIssue,
    /// The transaction holds no issue with this id.
    UnknownIssue,
    /// A delivery task for this issue and recipient exists already.
    DuplicateTask,
}

struct RecordRow {
    user_id: u128,
    key: String,
    response: Option<SavedResponse>,
}

struct Owner {
    user_id: u128,
    key: String,
}

/// A newsletter issue; immutable once committed.
#[derive(Debug)]
pub struct NewsletterIssue {
    pub issue_id: u128,
    pub title: String,
    pub text_content: String,
    pub html_content: String,
}

impl View for NewsletterIssue {
    type V = IssueView;

    open spec fn view(&self) -> IssueView {
        IssueView {
            issue_id: self.issue_id,
            title: self.title@,
            text_content: self.text_content@,
            html_content: self.html_content@,
        }
    }
}

struct IssueRow {
    issue: NewsletterIssue,
    owner: Option<Owner>,
}

struct TaskRow {
    issue_id: u128,
    email: String,
    n_retries: u32,
    claimed: bool,
    owner: Option<Owner>,
}

pub open spec fn opt_response_view(r: Option<SavedResponse>) -> Option<ResponseView> {
    match r {
        Some(x) => Some(x@),
        None => None,
    }
}

spec fn owner_view(o: Option<Owner>) -> Option<OwnerView> {
    match o {
        Some(x) => Some((x.user_id, x.key@)),
        None => None,
    }
}

spec fn record_view(r: RecordRow) -> RecordView {
    RecordView { user_id: r.user_id, key: r.key@, response: opt_response_view(r.response) }
}

spec fn issue_row_view(r: IssueRow) -> IssueRowView {
    IssueRowView { issue: r.issue@, owner: owner_view(r.owner) }
}

spec fn task_view(t: TaskRow) -> TaskView {
    TaskView {
        issue_id: t.issue_id,
        email: t.email@,
        n_retries: t.n_retries,
        claimed: t.claimed,
        owner: owner_view(t.owner),
    }
}

impl NewsletterIssue {
    /// A copy equal to `self`.
    pub fn duplicate(&self) -> (r: NewsletterIssue)
        ensures
            r@ == self@,
    {
        NewsletterIssue {
            issue_id: self.issue_id,
            title: self.title.clone(),
            text_content: self.text_content.clone(),
            html_content: self.html_content.clone(),
        }
    }
}

fn owner_is(owner: &Option<Owner>, user_id: u128, key: &String) -> (r: bool)
    ensures
        r == owned_by(owner_view(*owner), (user_id, key@)),
{
    match owner {
        Some(o) => o.user_id == user_id && o.key == *key,
        None => false,
    }
}

fn copy_owner(owner: &Option<Owner>) -> (r: Option<Owner>)
    ensures
        owner_view(r) == owner_view(*owner),
{
    match owner {
        Some(o) => Some(Owner { user_id: o.user_id, key: o.key.clone() }),
        None => None,
    }
}

fn copy_task(t: &TaskRow) -> (r: TaskRow)
    ensures
        task_view(r) == task_view(*t),
{
    TaskRow {
        issue_id: t.issue_id,
        email: t.email.clone(),
        n_retries: t.n_retries,
        claimed: t.claimed,
        owner: copy_owner(&t.owner),
    }
}

/// The open transaction of one `(user_id, key)` pair: the handle that the
/// guard gives to the first request of that pair.
#[derive(Debug)]
pub struct Transaction {
    user_id: u128,
    key: String,
}

impl View for Transaction {
    type V = OwnerView;

    closed spec fn view(&self) -> OwnerView {
        (self.user_id, self.key@)
    }
}

/// What the guard tells a request to do.
#[derive(Debug)]
pub enum NextAction {
    /// First request of its pair: do the work inside this transaction.
    StartProcessing(Transaction),
    /// A repeat: answer with the response saved by the first request.
    ReturnSavedResponse(SavedResponse),
    /// The first request of the pair is still in flight: try again once it
    /// has committed or rolled back.
    AwaitInFlight,
}

pub open spec fn next_action_view(r: NextAction) -> BeginView {
    match r {
        NextAction::StartProcessing(_) => BeginView::Start,
        NextAction::ReturnSavedResponse(resp) => BeginView::Replay(resp@),
        NextAction::AwaitInFlight => BeginView::Wait,
    }
}

/// The persisted state, held in memory.
pub struct NewsletterStore {
    records: Vec<RecordRow>,
    issues: Vec<IssueRow>,
    tasks: Vec<TaskRow>,
}

impl View for NewsletterStore {
    type V = StoreView;

    closed spec fn view(&self) -> StoreView {
        StoreView {
            records: self.records@.map_values(|r: RecordRow| record_view(r)),
            issues: self.issues@.map_values(|r: IssueRow| issue_row_view(r)),
            tasks: self.tasks@.map_values(|t: TaskRow| task_view(t)),
        }
    }
}

impl NewsletterStore {
    /// The store's invariant, which every operation keeps.
    pub open spec fn wf(&self) -> bool {
        store_wf(self@)
    }

    pub fn new() -> (r: NewsletterStore)
        ensures
            r@.records.len() == 0,
            r@.issues.len() == 0,
            r@.tasks.len() == 0,
            r.wf(),
    {
        let r = NewsletterStore { records: Vec::new(), issues: Vec::new(), tasks: Vec::new() };
        assert(r@.records =~= Seq::<RecordView>::empty());
        assert(r@.issues =~= Seq::<IssueRowView>::empty());
        assert(r@.tasks =~= Seq::<TaskView>::empty());
        r
    }
}

} // verus!
