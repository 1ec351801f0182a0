//! Publishing one newsletter issue: the request handler's logic, from the
//! raw idempotency key to the response that the client gets.
use vstd::prelude::*;
use crate::idempotency::key::{key_check, IdempotencyKey, KeyError};
use crate::response::{ResponseView, SavedResponse, SEE_OTHER};
use crate::store::{
    begin_spec, commit_spec, in_flight, rollback_spec, BeginView, IssueView, NewsletterStore, NextAction, OwnerView,
    PersistenceError, StoreView,
};
use crate::store::outbox::{emails_view, enqueue_spec, insert_issue_spec, new_issue_id};

verus! {

/// The publish form: the issue's content and the client's idempotency key.
#[derive(Debug)]
pub struct FormData {
    pub title: String,
    pub text_content: String,
    pub html_content: String,
    pub idempotency_key: String,
}

/// Why a publish request got no response to keep.
#[derive(Debug, Clone, Copy, PartialEq, Eq, Structural)]
pub enum PublishNewsletterError {
    /// The idempotency key is malformed: a client error, nothing is written.
    InvalidKey(KeyError),
    /// The first request with this key is still in flight: try again once
    /// it has committed or rolled back.
    InFlight,
    /// A write failed: the transaction was rolled back.
    Persistence(PersistenceError),
}

impl PublishNewsletterError {
    /// The HTTP status the error maps to.
    pub fn status_code(&self) -> (r: u16)
        ensures
            r == match *self {
                PublishNewsletterError::InvalidKey(_) => 400u16,
                PublishNewsletterError::InFlight => 409u16,
                PublishNewsletterError::Persistence(_) => 500u16,
            },
    {
        match self {
            PublishNewsletterError::InvalidKey(_) => 400,
            PublishNewsletterError::InFlight => 409,
            PublishNewsletterError::Persistence(_) => 500,
        }
    }
}

/// Where the client is sent once the issue is accepted.
pub open spec fn accepted_response() -> ResponseView {
    ResponseView { status: SEE_OTHER, headers: seq![("location"@, "/admin/newsletters"@)], body: Seq::empty() }
}

/// The first request of a pair, inside its open transaction: write the
/// issue, fan out, commit with the response; roll back on a failed write.
pub open spec fn process_spec(
    s: StoreView,
    o: OwnerView,
    issue: IssueView,
    emails: Seq<Seq<char>>,
) -> (StoreView, Result<ResponseView, PublishNewsletterError>) {
    match insert_issue_spec(s, o, issue) {
        Err(e) => (rollback_spec(s, o), Err(PublishNewsletterError::Persistence(e))),
        Ok(s2) => match enqueue_spec(s2, o, issue.issue_id, emails) {
            Err(e) => (rollback_spec(s2, o), Err(PublishNewsletterError::Persistence(e))),
            Ok(s3) => match commit_spec(s3, o, accepted_response()) {
                Some(s4) => (s4, Ok(accepted_response())),
                None => (s3, Err(PublishNewsletterError::Persistence(PersistenceError::TransactionNotOpen))),
            },
        },
    }
}

/// One publish request, start to end.
pub open spec fn publish_spec(
    s: StoreView,
    user_id: u128,
    key: Seq<char>,
    issue: IssueView,
    emails: Seq<Seq<char>>,
) -> (StoreView, Result<ResponseView, PublishNewsletterError>) {
    match key_check(key) {
        Err(e) => (s, Err(PublishNewsletterError::InvalidKey(e))),
        Ok(_) => {
            let (s1, b) = begin_spec(s, (user_id, key));
            match b {
                BeginView::Replay(r) => (s1, Ok(r)),
                BeginView::Wait => (s1, Err(PublishNewsletterError::InFlight)),
                BeginView::Start => process_spec(s1, (user_id, key), issue, emails),
            }
        },
    }
}

pub open spec fn form_issue(form: FormData, issue_id: u128) -> IssueView {
    IssueView {
        issue_id,
        title: form.title@,
        text_content: form.text_content@,
        html_content: form.html_content@,
    }
}

pub open spec fn result_view(r: Result<SavedResponse, PublishNewsletterError>) -> Result<ResponseView, PublishNewsletterError> {
    match r {
        Ok(x) => Ok(x@),
        Err(e) => Err(e),
    }
}

/// Publishes an issue with the given id for `user_id`, deduplicated by the
/// form's idempotency key: a malformed key is refused before anything is
/// written; a repeat of a completed request gets its saved response; the
/// first request writes the issue and one delivery task per subscriber and
/// commits them together with its response, or writes nothing.
pub fn publish_newsletter_with_id(
    store: &mut NewsletterStore,
    user_id: u128,
    form: &FormData,
    issue_id: u128,
    subscribers: &Vec<String>,
) -> (r: Result<SavedResponse, PublishNewsletterError>)
    requires
        old(store).wf(),
    ensures
        final(store).wf(),
        (final(store)@, result_view(r)) == publish_spec(
            old(store)@,
            user_id,
            form.idempotency_key@,
            form_issue(*form, issue_id),
            emails_view(subscribers@),
        ),
{
    let ghost s0 = store@;
    let key = match IdempotencyKey::parse(form.idempotency_key.clone()) {
        Ok(k) => k,
        Err(e) => return Err(PublishNewsletterError::InvalidKey(e)),
    };
    let ghost o: OwnerView = (user_id, key@);
    let tx = match store.try_processing(user_id, &key) {
        NextAction::StartProcessing(t) => t,
        NextAction::ReturnSavedResponse(saved) => return Ok(saved),
        NextAction::AwaitInFlight => return Err(PublishNewsletterError::InFlight),
    };
    if let Err(e) = store.insert_newsletter_issue_with_id(
        &tx,
        issue_id,
        form.title.as_str(),
        form.text_content.as_str(),
        form.html_content.as_str(),
    ) {
        store.rollback(tx);
        return Err(PublishNewsletterError::Persistence(e));
    }
    if let Err(e) = store.enqueue_delivery_tasks(&tx, issue_id, subscribers) {
        store.rollback(tx);
        return Err(PublishNewsletterError::Persistence(e));
    }
    let response = SavedResponse::see_other("/admin/newsletters");
    assert(response@ == accepted_response());
    match store.save_response(tx, response) {
        Ok(saved) => Ok(saved),
        Err(e) => Err(PublishNewsletterError::Persistence(e)),
    }
}

/// Publishes an issue under a freshly generated id; see
/// `publish_newsletter_with_id`, which this is for some id.
pub fn publish_newsletter(
    store: &mut NewsletterStore,
    user_id: u128,
    form: &FormData,
    subscribers: &Vec<String>,
) -> (r: Result<SavedResponse, PublishNewsletterError>)
    requires
        old(store).wf(),
    ensures
        final(store).wf(),
        exists|issue_id: u128|
            (final(store)@, result_view(r)) == #[trigger] publish_spec(
                old(store)@,
                user_id,
                form.idempotency_key@,
                form_issue(*form, issue_id),
                emails_view(subscribers@),
            ),
{
    let issue_id = new_issue_id();
    publish_newsletter_with_id(store, user_id, form, issue_id, subscribers)
}

} // verus!
