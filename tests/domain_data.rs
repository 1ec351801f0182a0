use zero2prod::authentication::{basic_authentication, split_credentials, AuthError, BasicAuthError};
use zero2prod::configuration::{select_environment, Environment};
use zero2prod::domain::{NewSubscriber, SubscriberEmail};
use zero2prod::routes::{
    confirmation_email_bodies, confirmation_link, LoginError, PublishError, SubscribeError,
};

#[test]
fn valid_emails_are_accepted() {
    let e = SubscriberEmail::parse("ursula_le_guin@gmail.com".to_string()).unwrap();
    assert_eq!(e.as_str(), "ursula_le_guin@gmail.com");
}

#[test]
fn malformed_emails_are_rejected() {
    for s in ["", "ursuladomain.com", "@domain.com", "ursula@", "a@b@c", "a b@c.com"] {
        assert!(SubscriberEmail::parse(s.to_string()).is_err(), "{}", s);
    }
    assert_eq!(
        SubscriberEmail::parse("definitely-not_an-email".to_string()).unwrap_err(),
        "definitely-not_an-email is not a valid subscriber email."
    );
}

#[test]
fn new_subscriber_checks_name_before_email() {
    let err = NewSubscriber::parse("bad".to_string(), "".to_string()).unwrap_err();
    assert_eq!(err, " is not a valid subscriber name.");
    let err = NewSubscriber::parse("".to_string(), "Ursula".to_string()).unwrap_err();
    assert_eq!(err, " is not a valid subscriber email.");
    let ok = NewSubscriber::parse("ursula@gmail.com".to_string(), "le guin".to_string()).unwrap();
    assert_eq!(ok.name.as_str(), "le guin");
    assert_eq!(ok.email.as_str(), "ursula@gmail.com");
}

#[test]
fn environments_parse_in_any_case() {
    assert_eq!(Environment::parse("LOCAL".to_string()), Ok(Environment::Local));
    assert_eq!(Environment::parse("Production".to_string()), Ok(Environment::Production));
    assert_eq!(
        Environment::parse("Staging".to_string()),
        Err("staging is not a supported environment. Use either local or productoin.".to_string())
    );
    assert_eq!(Environment::Local.as_str(), "local");
    assert_eq!(Environment::Production.file_name(), "production.yaml");
}

#[test]
fn the_environment_defaults_to_local() {
    assert_eq!(select_environment(None), Ok(Environment::Local));
    assert_eq!(select_environment(Some("production".to_string())), Ok(Environment::Production));
}

#[test]
fn basic_credentials_are_decoded() {
    // "user:pa:ss" in base64, right after the scheme name.
    let c = basic_authentication(Some(b"BasicdXNlcjpwYTpzcw==".to_vec())).unwrap();
    assert_eq!(c.username, "user");
    assert_eq!(c.password, "pa:ss");
}

#[test]
fn basic_auth_errors() {
    assert_eq!(basic_authentication(None).unwrap_err(), BasicAuthError::MissingHeader);
    assert_eq!(
        basic_authentication(Some(vec![b'B', 0x7f])).unwrap_err(),
        BasicAuthError::HeaderNotVisibleAscii
    );
    assert_eq!(basic_authentication(Some(b"Bearer abc".to_vec())).unwrap_err(), BasicAuthError::NotBasicScheme);
    assert_eq!(basic_authentication(Some(b"Basic".to_vec())).unwrap_err(), BasicAuthError::MissingPassword);
    assert_eq!(basic_authentication(Some(b"Basic!!!".to_vec())).unwrap_err(), BasicAuthError::NotBase64);
    // The scheme is stripped without the space that follows it.
    assert_eq!(basic_authentication(Some(b"Basic dXNlcjpwYXNz".to_vec())).unwrap_err(), BasicAuthError::NotBase64);
    // 0xff 0xfe in base64 is not UTF-8 once decoded.
    assert_eq!(basic_authentication(Some(b"Basic//4=".to_vec())).unwrap_err(), BasicAuthError::CredentialsNotUtf8);
    // "user" without a colon.
    assert_eq!(basic_authentication(Some(b"BasicdXNlcg==".to_vec())).unwrap_err(), BasicAuthError::MissingPassword);
    assert_eq!(BasicAuthError::MissingHeader.message(), "The 'Authorization' header was missing");
}

#[test]
fn credentials_split_at_the_first_colon() {
    let c = split_credentials(":x:y").unwrap();
    assert_eq!(c.username, "");
    assert_eq!(c.password, "x:y");
    assert_eq!(split_credentials("nocolon").unwrap_err(), BasicAuthError::MissingPassword);
}

#[test]
fn error_statuses() {
    let r = PublishError::AuthError("x".to_string()).error_response();
    assert_eq!(r.status, 401);
    assert_eq!(r.headers.len(), 1);
    assert_eq!(r.headers[0].name, "www-authenticate");
    assert_eq!(r.headers[0].value, "Basic realm=\"publish\"");
    assert_eq!(PublishError::UnexpectError("x".to_string()).error_response().status, 500);
    assert_eq!(SubscribeError::ValidationError("x".to_string()).status_code(), 400);
    assert_eq!(SubscribeError::UnexpectError("x".to_string()).status_code(), 500);
    let e = LoginError::from_auth_error(AuthError::InvalidCredentials("bad".to_string()));
    assert_eq!(e.message(), "Authentication failed");
    let e = LoginError::from_auth_error(AuthError::UnexpectError("db".to_string()));
    assert_eq!(e.message(), "Something went wrong");
    assert_eq!(AuthError::InvalidCredentials("x".to_string()).message(), "Invalid credentials.");
}

#[test]
fn confirmation_email_text() {
    let link = confirmation_link("http://127.0.0.1", "abc");
    assert_eq!(link, "http://127.0.0.1/subscriptions/confirm?subscription_token=abc");
    let (html, plain) = confirmation_email_bodies(&link);
    assert_eq!(plain, format!("Welcome to our newsletter!\nvisit {} to confirm your subscription.", link));
    assert!(html.contains(&link));
}
