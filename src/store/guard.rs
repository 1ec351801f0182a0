//! The idempotency guard: the first request of a `(user, key)` pair holds
//! the pair's transaction; repeats replay its saved response.
use vstd::prelude::*;
use crate::idempotency::key::IdempotencyKey;
use crate::response::SavedResponse;
use super::{
    begin_spec, commit_issue, commit_spec, commit_task, in_flight, issue_row_view, lemma_begin_wf, lemma_commit_wf,
    lemma_record_unique, lemma_rollback_wf, next_action_view, owned_by, owner_is, record_index, record_matches,
    record_view, retain, rollback_spec, store_wf, copy_owner, copy_task, task_view, IssueRow, IssueRowView,
    NewsletterStore, NextAction, PersistenceError, RecordRow, RecordView, TaskRow, TaskView, Transaction,
};

verus! {

impl NewsletterStore {
    pub(super) fn find_record(&self, user_id: u128, key: &String) -> (r: Option<usize>)
        requires
            self.wf(),
        ensures
            match r {
                Some(i) => record_index(self@.records, (user_id, key@)) == Some(i as int),
                None => record_index(self@.records, (user_id, key@)) is None,
            },
            r is Some ==> r->0 < self.records@.len(),
    {
        let ghost o = (user_id, key@);
        let mut i: usize = 0;
        while i < self.records.len()
            invariant
                0 <= i <= self.records@.len(),
                self@.records.len() == self.records@.len(),
                store_wf(self@),
                o == (user_id, key@),
                forall|j: int| 0 <= j < i ==> !record_matches(#[trigger] self@.records[j], o),
            decreases self.records@.len() - i,
        {
            let r = &self.records[i];
            if r.user_id == user_id && r.key == *key {
                assert(self@.records[i as int] == record_view(self.records@[i as int]));
                proof {
                    lemma_record_unique(self@.records, o, i as int);
                }
                return Some(i);
            }
            i = i + 1;
        }
        None
    }

    /// The guard: the first request of `(user_id, key)` inserts its
    /// placeholder and gets the open transaction; a repeat gets a copy of the
    /// saved response; while the first is in flight, a repeat is told to wait.
    pub fn try_processing(&mut self, user_id: u128, key: &IdempotencyKey) -> (r: NextAction)
        requires
            old(self).wf(),
        ensures
            final(self).wf(),
            final(self)@ == begin_spec(old(self)@, (user_id, key@)).0,
            begin_spec(old(self)@, (user_id, key@)).1 == next_action_view(r),
            r is StartProcessing ==> (r->StartProcessing_0)@ == (user_id, key@),
    {
        let k = key.as_string();
        match self.find_record(user_id, k) {
            None => {
                let ghost old_s = self@;
                self.records.push(RecordRow { user_id, key: k.clone(), response: None });
                assert(self@.records =~= old_s.records.push(RecordView { user_id, key: key@, response: None }));
                assert(self@.issues == old_s.issues);
                assert(self@.tasks == old_s.tasks);
                proof {
                    lemma_begin_wf(old_s, (user_id, key@));
                }
                let t = Transaction { user_id, key: k.clone() };
                NextAction::StartProcessing(t)
            },
            Some(i) => {
                assert(self@.records[i as int] == record_view(self.records@[i as int]));
                match &self.records[i].response {
                    Some(resp) => NextAction::ReturnSavedResponse(resp.duplicate()),
                    None => NextAction::AwaitInFlight,
                }
            },
        }
    }

    /// Completion: saves `response` as the pair's receipt and commits the
    /// transaction, issue and delivery tasks included, in one step. Returns
    /// the response, which every later request of the pair replays.
    pub fn save_response(&mut self, tx: Transaction, response: SavedResponse) -> (r: Result<SavedResponse, PersistenceError>)
        requires
            old(self).wf(),
        ensures
            final(self).wf(),
            match commit_spec(old(self)@, tx@, response@) {
                Some(s2) => final(self)@ == s2 && r is Ok && (r->Ok_0)@ == response@,
                None => final(self)@ == old(self)@ && r == Err::<SavedResponse, PersistenceError>(
                    PersistenceError::TransactionNotOpen,
                ),
            },
    {
        let ghost s0 = self@;
        let ghost o = tx@;
        let i = match self.find_record(tx.user_id, &tx.key) {
            Some(i) => i,
            None => return Err(PersistenceError::TransactionNotOpen),
        };
        assert(self@.records[i as int] == record_view(self.records@[i as int]));
        if self.records[i].response.is_some() {
            return Err(PersistenceError::TransactionNotOpen);
        }
        assert(in_flight(s0, o));
        proof {
            lemma_commit_wf(s0, o, response@);
        }
        let saved = response.duplicate();
        let ghost resp_v = response@;
        self.records.set(i, RecordRow { user_id: tx.user_id, key: tx.key.clone(), response: Some(response) });
        assert(self@.records =~= s0.records.update(i as int, RecordView { response: Some(resp_v), ..s0.records[i as int] }));
        let ghost records1 = self.records@;
        let ghost tasks0 = self.tasks@;
        assert(tasks0.map_values(|t: TaskRow| task_view(t)) == s0.tasks);
        let mut j: usize = 0;
        while j < self.issues.len()
            invariant
                0 <= j <= self.issues@.len(),
                self.issues@.len() == s0.issues.len(),
                self.records@ == records1,
                self.tasks@ == tasks0,
                o == tx@,
                forall|k: int| 0 <= k < j ==> #[trigger] self@.issues[k] == commit_issue(s0.issues[k], o),
                forall|k: int| j <= k < s0.issues.len() ==> #[trigger] self@.issues[k] == s0.issues[k],
            decreases self.issues@.len() - j,
        {
            assert(self@.issues[j as int] == issue_row_view(self.issues@[j as int]));
            let ghost before = self@.issues;
            if owner_is(&self.issues[j].owner, tx.user_id, &tx.key) {
                let row = IssueRow { issue: self.issues[j].issue.duplicate(), owner: None };
                self.issues.set(j, row);
                assert(self@.issues =~= before.update(j as int, commit_issue(s0.issues[j as int], o)));
            }
            j = j + 1;
        }
        assert(self@.issues =~= s0.issues.map_values(|r: IssueRowView| commit_issue(r, o)));
        let ghost issues2 = self.issues@;
        let mut j: usize = 0;
        while j < self.tasks.len()
            invariant
                0 <= j <= self.tasks@.len(),
                self.tasks@.len() == s0.tasks.len(),
                self.records@ == records1,
                self.issues@ == issues2,
                o == tx@,
                forall|k: int| 0 <= k < j ==> #[trigger] self@.tasks[k] == commit_task(s0.tasks[k], o),
                forall|k: int| j <= k < s0.tasks.len() ==> #[trigger] self@.tasks[k] == s0.tasks[k],
            decreases self.tasks@.len() - j,
        {
            assert(self@.tasks[j as int] == task_view(self.tasks@[j as int]));
            let ghost before = self@.tasks;
            if owner_is(&self.tasks[j].owner, tx.user_id, &tx.key) {
                let mut row = copy_task(&self.tasks[j]);
                row.owner = None;
                self.tasks.set(j, row);
                assert(self@.tasks =~= before.update(j as int, commit_task(s0.tasks[j as int], o)));
            }
            j = j + 1;
        }
        assert(self@.tasks =~= s0.tasks.map_values(|t: TaskView| commit_task(t, o)));
        Ok(saved)
    }

    /// Abort: the placeholder and every row written in the transaction vanish,
    /// so a later request with the same key starts afresh.
    pub fn rollback(&mut self, tx: Transaction)
        requires
            old(self).wf(),
        ensures
            final(self).wf(),
            final(self)@ == rollback_spec(old(self)@, tx@),
    {
        let ghost s0 = self@;
        let ghost o = tx@;
        proof {
            lemma_rollback_wf(s0, o);
        }
        let i = match self.find_record(tx.user_id, &tx.key) {
            Some(i) => i,
            None => return,
        };
        assert(self@.records[i as int] == record_view(self.records@[i as int]));
        proof {
            lemma_record_unique(s0.records, o, i as int);
        }
        if self.records[i].response.is_some() {
            return;
        }
        assert(in_flight(s0, o));
        self.records.remove(i);
        assert(self@.records =~= s0.records.remove(i as int));
        let ghost keep_i = |r: IssueRowView| !owned_by(r.owner, o);
        let ghost keep_t = |t: TaskView| !owned_by(t.owner, o);
        let ghost records1 = self.records@;
        let ghost tasks0 = self.tasks@;
        let mut old_issues: Vec<IssueRow> = Vec::new();
        std::mem::swap(&mut old_issues, &mut self.issues);
        assert(old_issues@.map_values(|r: IssueRow| issue_row_view(r)) == s0.issues);
        let mut j: usize = 0;
        while j < old_issues.len()
            invariant
                0 <= j <= old_issues@.len(),
                old_issues@.map_values(|r: IssueRow| issue_row_view(r)) == s0.issues,
                self.records@ == records1,
                self.tasks@ == tasks0,
                o == tx@,
                keep_i == (|r: IssueRowView| !owned_by(r.owner, o)),
                self@.issues == retain(s0.issues.subrange(0, j as int), keep_i),
            decreases old_issues@.len() - j,
        {
            let ghost before = self@.issues;
            assert(s0.issues.subrange(0, j + 1).drop_last() =~= s0.issues.subrange(0, j as int));
            assert(s0.issues[j as int] == issue_row_view(old_issues@[j as int]));
            if !owner_is(&old_issues[j].owner, tx.user_id, &tx.key) {
                let row = IssueRow { issue: old_issues[j].issue.duplicate(), owner: copy_owner(&old_issues[j].owner) };
                self.issues.push(row);
                assert(self@.issues =~= before.push(s0.issues[j as int]));
            } else {
                assert(self@.issues =~= before);
            }
            j = j + 1;
        }
        assert(s0.issues.subrange(0, s0.issues.len() as int) =~= s0.issues);
        let ghost issues2 = self.issues@;
        let mut old_tasks: Vec<TaskRow> = Vec::new();
        std::mem::swap(&mut old_tasks, &mut self.tasks);
        assert(old_tasks@.map_values(|t: TaskRow| task_view(t)) == s0.tasks);
        let mut j: usize = 0;
        while j < old_tasks.len()
            invariant
                0 <= j <= old_tasks@.len(),
                old_tasks@.map_values(|t: TaskRow| task_view(t)) == s0.tasks,
                self.records@ == records1,
                self.issues@ == issues2,
                o == tx@,
                keep_t == (|t: TaskView| !owned_by(t.owner, o)),
                self@.tasks == retain(s0.tasks.subrange(0, j as int), keep_t),
            decreases old_tasks@.len() - j,
        {
            let ghost before = self@.tasks;
            assert(s0.tasks.subrange(0, j + 1).drop_last() =~= s0.tasks.subrange(0, j as int));
            assert(s0.tasks[j as int] == task_view(old_tasks@[j as int]));
            if !owner_is(&old_tasks[j].owner, tx.user_id, &tx.key) {
                self.tasks.push(copy_task(&old_tasks[j]));
                assert(self@.tasks =~= before.push(s0.tasks[j as int]));
            } else {
                assert(self@.tasks =~= before);
            }
            j = j + 1;
        }
        assert(s0.tasks.subrange(0, s0.tasks.len() as int) =~= s0.tasks);
    }
}

} // verus!
