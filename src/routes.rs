//! The data that the HTTP handlers receive and the errors they answer with.
use vstd::prelude::*;
use crate::authentication::AuthError;
use crate::response::{HeaderPair, SavedResponse};

verus! {

/// The JSON body of a newsletter sent through the API.
#[derive(Debug)]
pub struct BodyData {
    pub title: String,
    pub content: Content,
}

#[derive(Debug)]
pub struct Content {
    pub html: String,
    pub text: String,
}

/// The query of a confirmation link.
#[derive(Debug)]
pub struct Parameters {
    pub subscription_token: String,
}

/// The base URL under which the application is reachable.
#[derive(Debug)]
pub struct ApplicationBaseUrl(pub String);

/// Why publishing through the API failed.
#[derive(Debug)]
pub enum PublishError {
    UnexpectError(String),
    AuthError(String),
}

pub const UNAUTHORIZED: u16 = 401;
pub const INTERNAL_SERVER_ERROR: u16 = 500;
pub const BAD_REQUEST: u16 = 400;

impl PublishError {
    /// `500` for an unexpected error; `401` with a `Basic` challenge for a
    /// failed authentication.
    pub fn error_response(&self) -> (r: SavedResponse)
        ensures
            r@.body.len() == 0,
            match self {
                PublishError::UnexpectError(_) => r@.status == INTERNAL_SERVER_ERROR && r@.headers.len() == 0,
                PublishError::AuthError(_) => r@.status == UNAUTHORIZED
                    && r@.headers == seq![("www-authenticate"@, "Basic realm=\"publish\""@)],
            },
    {
        match self {
            PublishError::UnexpectError(_) => {
                let r = SavedResponse { status: INTERNAL_SERVER_ERROR, headers: Vec::new(), body: Vec::new() };
                assert(r@.headers.len() == 0);
                r
            },
            PublishError::AuthError(_) => {
                let mut headers: Vec<HeaderPair> = Vec::new();
                headers.push(HeaderPair {
                    name: String::from_str("www-authenticate"),
                    value: String::from_str("Basic realm=\"publish\""),
                });
                let r = SavedResponse { status: UNAUTHORIZED, headers, body: Vec::new() };
                assert(r@.headers =~= seq![("www-authenticate"@, "Basic realm=\"publish\""@)]);
                r
            },
        }
    }
}

/// Why a sign-up failed.
#[derive(Debug)]
pub enum SubscribeError {
    ValidationError(String),
    UnexpectError(String),
}

impl SubscribeError {
    pub fn status_code(&self) -> (r: u16)
        ensures
            r == match self {
                SubscribeError::ValidationError(_) => BAD_REQUEST,
                SubscribeError::UnexpectError(_) => INTERNAL_SERVER_ERROR,
            },
    {
        match self {
            SubscribeError::ValidationError(_) => BAD_REQUEST,
            SubscribeError::UnexpectError(_) => INTERNAL_SERVER_ERROR,
        }
    }
}

/// Why a login failed.
#[derive(Debug)]
pub enum LoginError {
    AuthError(String),
    UnexpectError(String),
}

impl LoginError {
    /// Invalid credentials become an authentication failure; anything else
    /// stays unexpected.
    pub fn from_auth_error(e: AuthError) -> (r: LoginError)
        ensures
            match e {
                AuthError::InvalidCredentials(m) => r == LoginError::AuthError(m),
                AuthError::UnexpectError(m) => r == LoginError::UnexpectError(m),
            },
    {
        match e {
            AuthError::InvalidCredentials(m) => LoginError::AuthError(m),
            AuthError::UnexpectError(m) => LoginError::UnexpectError(m),
        }
    }

    /// The text shown on the login page.
    pub fn message(&self) -> (r: &'static str)
        ensures
            match self {
                LoginError::AuthError(_) => r@ == "Authentication failed"@,
                LoginError::UnexpectError(_) => r@ == "Something went wrong"@,
            },
    {
        match self {
            LoginError::AuthError(_) => "Authentication failed",
            LoginError::UnexpectError(_) => "Something went wrong",
        }
    }
}

/// The link that confirms a subscription.
pub open spec fn confirmation_link_spec(base_url: Seq<char>, token: Seq<char>) -> Seq<char> {
    base_url + "/subscriptions/confirm?subscription_token="@ + token
}

pub fn confirmation_link(base_url: &str, subscription_token: &str) -> (r: String)
    ensures
        r@ == confirmation_link_spec(base_url@, subscription_token@),
{
    String::from_str(base_url).concat("/subscriptions/confirm?subscription_token=").concat(subscription_token)
}

/// The welcome email's HTML and plain-text bodies around the link.
pub fn confirmation_email_bodies(link: &str) -> (r: (String, String))
    ensures
        r.0@ == "Welcome to our newsletter<br />Click <a href=\""@ + link@ + ">hereM/a> to confirm your subscription."@,
        r.1@ == "Welcome to our newsletter!\nvisit "@ + link@ + " to confirm your subscription."@,
{
    let html = String::from_str("Welcome to our newsletter<br />Click <a href=\"")
        .concat(link)
        .concat(">hereM/a> to confirm your subscription.");
    let plain = String::from_str("Welcome to our newsletter!\nvisit ").concat(link).concat(" to confirm your subscription.");
    (html, plain)
}

} // verus!
