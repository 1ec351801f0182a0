//! The outbox writer: inside the guard's transaction it inserts the issue and
//! one delivery task per confirmed subscriber.
use vstd::prelude::*;
use super::{
    has_issue, in_flight, issue_row_view, lemma_record_unique, owner_is, record_view, store_wf, task_key, task_view,
    IssueRow, IssueRowView, IssueView, NewsletterIssue, NewsletterStore, Owner, OwnerView, PersistenceError,
    StoreView, TaskRow, TaskView, Transaction,
};

verus! {

/// The issue row that a transaction writes, before it commits.
pub open spec fn insert_issue_spec(s: StoreView, o: OwnerView, issue: IssueView) -> Result<StoreView, PersistenceError> {
    if !in_flight(s, o) {
        Err(PersistenceError::TransactionNotOpen)
    } else if exists|k: int| 0 <= k < s.issues.len() && (#[trigger] s.issues[k]).issue.issue_id == issue.issue_id {
        Err(PersistenceError::DuplicateIssue)
    } else {
        Ok(StoreView { issues: s.issues.push(IssueRowView { issue, owner: Some(o) }), ..s })
    }
}

/// One pending task per recipient, in the order given.
pub open spec fn new_tasks(issue_id: u128, emails: Seq<Seq<char>>, o: OwnerView) -> Seq<TaskView> {
    Seq::new(
        emails.len(),
        |i: int| TaskView { issue_id, email: emails[i], n_retries: 0, claimed: false, owner: Some(o) },
    )
}

/// The fan-out would write a `(issue_id, email)` pair twice.
pub open spec fn fan_out_conflict(tasks: Seq<TaskView>, issue_id: u128, emails: Seq<Seq<char>>) -> bool {
    (exists|a: int, b: int| 0 <= a < b < emails.len() && #[trigger] emails[a] == #[trigger] emails[b])
    || (exists|t: int, k: int|
        0 <= t < tasks.len() && 0 <= k < emails.len() && (#[trigger] tasks[t]).issue_id == issue_id
            && tasks[t].email == #[trigger] emails[k])
}

pub open spec fn enqueue_spec(s: StoreView, o: OwnerView, issue_id: u128, emails: Seq<Seq<char>>) -> Result<StoreView, PersistenceError> {
    if !in_flight(s, o) {
        Err(PersistenceError::TransactionNotOpen)
    } else if !has_issue(s.issues, issue_id, Some(o)) {
        Err(PersistenceError::UnknownIssue)
    } else if fan_out_conflict(s.tasks, issue_id, emails) {
        Err(PersistenceError::DuplicateTask)
    } else {
        Ok(StoreView { tasks: s.tasks + new_tasks(issue_id, emails, o), ..s })
    }
}

pub open spec fn emails_view(v: Seq<String>) -> Seq<Seq<char>> {
    v.map_values(|x: String| x@)
}

pub proof fn lemma_insert_issue_wf(s: StoreView, o: OwnerView, issue: IssueView)
    requires
        store_wf(s),
        insert_issue_spec(s, o, issue) is Ok,
    ensures
        store_wf(insert_issue_spec(s, o, issue)->Ok_0),
{
    let t = insert_issue_spec(s, o, issue)->Ok_0;
    assert forall|k: int| 0 <= k < t.tasks.len() implies has_issue(t.issues, (#[trigger] t.tasks[k]).issue_id, t.tasks[k].owner) by {
        assert(has_issue(s.issues, s.tasks[k].issue_id, s.tasks[k].owner));
        let m = choose|m: int| 0 <= m < s.issues.len() && (#[trigger] s.issues[m]).issue.issue_id == s.tasks[k].issue_id
            && s.issues[m].owner == s.tasks[k].owner;
        assert(t.issues[m] == s.issues[m]);
    }
    assert forall|k: int| 0 <= k < t.issues.len() && (#[trigger] t.issues[k]).owner is Some
        implies in_flight(t, t.issues[k].owner->0) by {
        if k < s.issues.len() {
            assert(t.issues[k] == s.issues[k]);
        }
    }
}

pub proof fn lemma_enqueue_wf(s: StoreView, o: OwnerView, issue_id: u128, emails: Seq<Seq<char>>)
    requires
        store_wf(s),
        enqueue_spec(s, o, issue_id, emails) is Ok,
    ensures
        store_wf(enqueue_spec(s, o, issue_id, emails)->Ok_0),
{
    let t = enqueue_spec(s, o, issue_id, emails)->Ok_0;
    let n = s.tasks.len() as int;
    let fresh = new_tasks(issue_id, emails, o);
    assert forall|a: int, b: int| 0 <= a < t.tasks.len() && 0 <= b < t.tasks.len() && a != b
        implies task_key(#[trigger] t.tasks[a]) != task_key(#[trigger] t.tasks[b]) by {
        if a < n && b < n {
            assert(task_key(s.tasks[a]) != task_key(s.tasks[b]));
        } else if a >= n && b >= n {
            if a < b {
                assert(!(emails[a - n] == emails[b - n]));
            } else {
                assert(!(emails[b - n] == emails[a - n]));
            }
        } else if a < n {
            assert(t.tasks[a] == s.tasks[a]);
            assert(t.tasks[b] == fresh[b - n]);
            assert(!(s.tasks[a].issue_id == issue_id && s.tasks[a].email == emails[b - n]));
        } else {
            assert(t.tasks[b] == s.tasks[b]);
            assert(t.tasks[a] == fresh[a - n]);
            assert(!(s.tasks[b].issue_id == issue_id && s.tasks[b].email == emails[a - n]));
        }
    }
    assert forall|k: int| 0 <= k < t.tasks.len() implies has_issue(t.issues, (#[trigger] t.tasks[k]).issue_id, t.tasks[k].owner) by {
        if k < n {
            assert(t.tasks[k] == s.tasks[k]);
        } else {
            assert(t.tasks[k] == fresh[k - n]);
        }
    }
    assert forall|k: int| 0 <= k < t.tasks.len() && (#[trigger] t.tasks[k]).owner is Some
        implies in_flight(t, t.tasks[k].owner->0) by {
        if k < n {
            assert(t.tasks[k] == s.tasks[k]);
        } else {
            assert(t.tasks[k] == fresh[k - n]);
        }
    }
    assert forall|k: int| 0 <= k < t.tasks.len() && (#[trigger] t.tasks[k]).claimed implies t.tasks[k].owner is None by {
        if k < n {
            assert(t.tasks[k] == s.tasks[k]);
        } else {
            assert(t.tasks[k] == fresh[k - n]);
        }
    }
}

/// Relies on `uuid::Uuid::new_v4`: a random identifier; nothing is promised
/// of its value.
#[verifier::external_body]
pub(crate) fn new_issue_id() -> u128 {
    uuid::Uuid::new_v4().as_u128()
}

impl NewsletterStore {
    /// Writes the issue inside the open transaction `tx`, under the given id.
    pub fn insert_newsletter_issue_with_id(
        &mut self,
        tx: &Transaction,
        issue_id: u128,
        title: &str,
        text_content: &str,
        html_content: &str,
    ) -> (r: Result<(), PersistenceError>)
        requires
            old(self).wf(),
        ensures
            final(self).wf(),
            ({
                let issue = IssueView {
                    issue_id,
                    title: title@,
                    text_content: text_content@,
                    html_content: html_content@,
                };
                match insert_issue_spec(old(self)@, tx@, issue) {
                    Ok(s2) => r is Ok && final(self)@ == s2,
                    Err(e) => r == Err::<(), PersistenceError>(e) && final(self)@ == old(self)@,
                }
            }),
    {
        let ghost s0 = self@;
        let ghost o = tx@;
        let i = match self.find_record(tx.user_id, &tx.key) {
            Some(i) => i,
            None => return Err(PersistenceError::TransactionNotOpen),
        };
        assert(self@.records[i as int] == record_view(self.records@[i as int]));
        proof {
            lemma_record_unique(s0.records, o, i as int);
        }
        if self.records[i].response.is_some() {
            return Err(PersistenceError::TransactionNotOpen);
        }
        let mut k: usize = 0;
        while k < self.issues.len()
            invariant
                0 <= k <= self.issues@.len(),
                self@ == s0,
                s0 == old(self)@,
                o == tx@,
                store_wf(s0),
                in_flight(s0, o),
                forall|m: int| 0 <= m < k ==> (#[trigger] s0.issues[m]).issue.issue_id != issue_id,
            decreases self.issues@.len() - k,
        {
            assert(self@.issues[k as int] == issue_row_view(self.issues@[k as int]));
            if self.issues[k].issue.issue_id == issue_id {
                assert(s0.issues[k as int].issue.issue_id == issue_id);
                return Err(PersistenceError::DuplicateIssue);
            }
            k = k + 1;
        }
        let issue = NewsletterIssue {
            issue_id,
            title: String::from_str(title),
            text_content: String::from_str(text_content),
            html_content: String::from_str(html_content),
        };
        let ghost iv = issue@;
        self.issues.push(IssueRow { issue, owner: Some(Owner { user_id: tx.user_id, key: tx.key.clone() }) });
        assert(self@.issues =~= s0.issues.push(IssueRowView { issue: iv, owner: Some(o) }));
        assert(self@.records =~= s0.records);
        assert(self@.tasks =~= s0.tasks);
        proof {
            lemma_insert_issue_wf(s0, o, iv);
        }
        Ok(())
    }

    /// Writes the issue inside the open transaction `tx` under a freshly
    /// generated id, and returns the id.
    pub fn insert_newsletter_issue(&mut self, tx: &Transaction, title: &str, text_content: &str, html_content: &str) -> (r: Result<u128, PersistenceError>)
        requires
            old(self).wf(),
        ensures
            final(self).wf(),
            match r {
                Ok(id) => insert_issue_spec(
                    old(self)@,
                    tx@,
                    IssueView { issue_id: id, title: title@, text_content: text_content@, html_content: html_content@ },
                ) == Ok::<StoreView, PersistenceError>(final(self)@),
                Err(e) => final(self)@ == old(self)@ && exists|id: u128| insert_issue_spec(
                    old(self)@,
                    tx@,
                    IssueView { issue_id: id, title: title@, text_content: text_content@, html_content: html_content@ },
                ) == Err::<StoreView, PersistenceError>(e),
            },
    {
        let issue_id = new_issue_id();
        match self.insert_newsletter_issue_with_id(tx, issue_id, title, text_content, html_content) {
            Ok(()) => Ok(issue_id),
            Err(e) => Err(e),
        }
    }

    /// Enqueues one delivery task per recipient for `issue_id`, inside `tx`:
    /// all of them, or none where a pair would be written twice.
    pub fn enqueue_delivery_tasks(&mut self, tx: &Transaction, issue_id: u128, subscribers: &Vec<String>) -> (r: Result<(), PersistenceError>)
        requires
            old(self).wf(),
        ensures
            final(self).wf(),
            match enqueue_spec(old(self)@, tx@, issue_id, emails_view(subscribers@)) {
                Ok(s2) => r is Ok && final(self)@ == s2,
                Err(e) => r == Err::<(), PersistenceError>(e) && final(self)@ == old(self)@,
            },
    {
        let ghost s0 = self@;
        let ghost o = tx@;
        let ghost emails = emails_view(subscribers@);
        let i = match self.find_record(tx.user_id, &tx.key) {
            Some(i) => i,
            None => return Err(PersistenceError::TransactionNotOpen),
        };
        assert(self@.records[i as int] == record_view(self.records@[i as int]));
        proof {
            lemma_record_unique(s0.records, o, i as int);
        }
        if self.records[i].response.is_some() {
            return Err(PersistenceError::TransactionNotOpen);
        }
        let mut found = false;
        let mut k: usize = 0;
        while k < self.issues.len()
            invariant
                0 <= k <= self.issues@.len(),
                self@ == s0,
                o == tx@,
                found == exists|m: int| 0 <= m < k && (#[trigger] s0.issues[m]).issue.issue_id == issue_id && s0.issues[m].owner == Some(o),
            decreases self.issues@.len() - k,
        {
            assert(self@.issues[k as int] == issue_row_view(self.issues@[k as int]));
            if self.issues[k].issue.issue_id == issue_id && owner_is(&self.issues[k].owner, tx.user_id, &tx.key) {
                found = true;
            }
            k = k + 1;
        }
        if !found {
            return Err(PersistenceError::UnknownIssue);
        }
        let n = subscribers.len();
        let mut a: usize = 0;
        while a < n
            invariant
                n == subscribers@.len(),
                emails == emails_view(subscribers@),
                self@ == s0,
                s0 == old(self)@,
                o == tx@,
                store_wf(s0),
                in_flight(s0, o),
                has_issue(s0.issues, issue_id, Some(o)),
                0 <= a <= n,
                forall|x: int, y: int| 0 <= x < y < n && x < a ==> emails[x] != emails[y],
            decreases n - a,
        {
            let mut b: usize = a + 1;
            while b < n
                invariant
                    n == subscribers@.len(),
                    emails == emails_view(subscribers@),
                    self@ == s0,
                    s0 == old(self)@,
                    o == tx@,
                    store_wf(s0),
                    in_flight(s0, o),
                    has_issue(s0.issues, issue_id, Some(o)),
                    0 <= a < b <= n,
                    forall|x: int, y: int| 0 <= x < y < n && x < a ==> emails[x] != emails[y],
                    forall|y: int| a < y < b ==> emails[a as int] != emails[y],
                decreases n - b,
            {
                if subscribers[a] == subscribers[b] {
                    assert(emails[a as int] == emails[b as int]);
                    assert(fan_out_conflict(s0.tasks, issue_id, emails));
                    return Err(PersistenceError::DuplicateTask);
                }
                b = b + 1;
            }
            a = a + 1;
        }
        let mut t: usize = 0;
        while t < self.tasks.len()
            invariant
                0 <= t <= self.tasks@.len(),
                self@ == s0,
                s0 == old(self)@,
                o == tx@,
                store_wf(s0),
                in_flight(s0, o),
                has_issue(s0.issues, issue_id, Some(o)),
                n == subscribers@.len(),
                emails == emails_view(subscribers@),
                forall|x: int, y: int| 0 <= x < y < n ==> emails[x] != emails[y],
                forall|x: int, k2: int| 0 <= x < t && 0 <= k2 < n ==> !((#[trigger] s0.tasks[x]).issue_id == issue_id
                    && s0.tasks[x].email == #[trigger] emails[k2]),
            decreases self.tasks@.len() - t,
        {
            assert(self@.tasks[t as int] == task_view(self.tasks@[t as int]));
            if self.tasks[t].issue_id == issue_id {
                let mut k2: usize = 0;
                while k2 < n
                    invariant
                        0 <= t < self.tasks@.len(),
                        self@ == s0,
                        s0 == old(self)@,
                        o == tx@,
                        store_wf(s0),
                        in_flight(s0, o),
                        has_issue(s0.issues, issue_id, Some(o)),
                        s0.tasks[t as int].issue_id == issue_id,
                        self@.tasks[t as int] == task_view(self.tasks@[t as int]),
                        n == subscribers@.len(),
                        emails == emails_view(subscribers@),
                        0 <= k2 <= n,
                        forall|y: int| 0 <= y < k2 ==> s0.tasks[t as int].email != #[trigger] emails[y],
                    decreases n - k2,
                {
                    if self.tasks[t].email == subscribers[k2] {
                        assert(s0.tasks[t as int].email == emails[k2 as int]);
                        assert(fan_out_conflict(s0.tasks, issue_id, emails));
                        return Err(PersistenceError::DuplicateTask);
                    }
                    k2 = k2 + 1;
                }
            }
            t = t + 1;
        }
        assert(!fan_out_conflict(s0.tasks, issue_id, emails));
        let mut k2: usize = 0;
        while k2 < n
            invariant
                0 <= k2 <= n,
                n == subscribers@.len(),
                emails == emails_view(subscribers@),
                o == tx@,
                self@.records == s0.records,
                self@.issues == s0.issues,
                self@.tasks == s0.tasks + new_tasks(issue_id, emails, o).subrange(0, k2 as int),
            decreases n - k2,
        {
            let ghost before = self@.tasks;
            self.tasks.push(TaskRow {
                issue_id,
                email: subscribers[k2].clone(),
                n_retries: 0,
                claimed: false,
                owner: Some(Owner { user_id: tx.user_id, key: tx.key.clone() }),
            });
            assert(self@.tasks =~= before.push(new_tasks(issue_id, emails, o)[k2 as int]));
            assert(new_tasks(issue_id, emails, o).subrange(0, k2 + 1) =~= new_tasks(issue_id, emails, o).subrange(0, k2 as int).push(new_tasks(issue_id, emails, o)[k2 as int]));
            k2 = k2 + 1;
        }
        assert(new_tasks(issue_id, emails, o).subrange(0, n as int) =~= new_tasks(issue_id, emails, o));
        proof {
            lemma_enqueue_wf(s0, o, issue_id, emails);
        }
        Ok(())
    }
}

} // verus!
