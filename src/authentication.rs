//! Credentials, and reading them from a `Basic` authorization header.
use vstd::prelude::*;

verus! {

/// A username and the password offered with it.
#[derive(Debug)]
pub struct Credentials {
    pub username: String,
    pub password: String,
}

/// Why credentials were not accepted.
#[derive(Debug)]
pub enum AuthError {
    /// Unknown user or wrong password; the payload says which check failed.
    InvalidCredentials(String),
    /// Something other than the credentials went wrong.
    UnexpectError(String),
}

impl AuthError {
    /// The text shown for the error.
    pub fn message(&self) -> (r: String)
        ensures
            match self {
                AuthError::InvalidCredentials(_) => r@ == "Invalid credentials."@,
                AuthError::UnexpectError(m) => r@ == m@,
            },
    {
        match self {
            AuthError::InvalidCredentials(_) => String::from_str("Invalid credentials."),
            AuthError::UnexpectError(m) => m.clone(),
        }
    }
}

/// The bytes that standard base64 decodes `s` to, if `s` is valid base64.
pub uninterp spec fn base64_decoded(s: Seq<char>) -> Option<Seq<u8>>;

/// The text that `b` holds, if `b` is valid UTF-8.
pub uninterp spec fn utf8_decoded(b: Seq<u8>) -> Option<Seq<char>>;

/// Relies on `base64::decode_config(s, base64::STANDARD)`: the decoded
/// bytes, or an error where `s` is not valid base64.
#[verifier::external_body]
fn decode_base64(s: &str) -> (r: Option<Vec<u8>>)
    ensures
        match r {
            Some(v) => base64_decoded(s@) == Some(v@),
            None => base64_decoded(s@) is None,
        },
{
    base64::decode_config(s, base64::STANDARD).ok()
}

/// Relies on `String::from_utf8`: the text, or an error where `b` is not
/// valid UTF-8.
#[verifier::external_body]
fn decode_utf8(b: Vec<u8>) -> (r: Option<String>)
    ensures
        match r {
            Some(s) => utf8_decoded(b@) == Some(s@),
            None => utf8_decoded(b@) is None,
        },
{
    String::from_utf8(b).ok()
}

/// Why a `Basic` authorization header could not be read.
#[derive(Debug, Clone, Copy, PartialEq, Eq, Structural)]
pub enum BasicAuthError {
    MissingHeader,
    HeaderNotVisibleAscii,
    NotBasicScheme,
    NotBase64,
    CredentialsNotUtf8,
    MissingPassword,
}

impl BasicAuthError {
    pub fn message(&self) -> (r: &'static str)
        ensures
            *self == BasicAuthError::MissingHeader ==> r@ == "The 'Authorization' header was missing"@,
            *self == BasicAuthError::HeaderNotVisibleAscii ==> r@ == "The 'Authorization' header was not a valid UTF8 string"@,
            *self == BasicAuthError::NotBasicScheme ==> r@ == "The authorization scheme was not 'Basic'."@,
            *self == BasicAuthError::NotBase64 ==> r@ == "Failed to base64-decode 'Basic' credentials."@,
            *self == BasicAuthError::CredentialsNotUtf8 ==> r@ == "The decoded credential string is not valid UTF8."@,
            *self == BasicAuthError::MissingPassword ==> r@ == "A password must be provided in 'Basic' auth."@,
    {
        match self {
            BasicAuthError::MissingHeader => "The 'Authorization' header was missing",
            BasicAuthError::HeaderNotVisibleAscii => "The 'Authorization' header was not a valid UTF8 string",
            BasicAuthError::NotBasicScheme => "The authorization scheme was not 'Basic'.",
            BasicAuthError::NotBase64 => "Failed to base64-decode 'Basic' credentials.",
            BasicAuthError::CredentialsNotUtf8 => "The decoded credential string is not valid UTF8.",
            BasicAuthError::MissingPassword => "A password must be provided in 'Basic' auth.",
        }
    }
}

/// A header value byte that may be read as text: visible ASCII or tab.
pub open spec fn is_visible_ascii(b: u8) -> bool {
    (32 <= b && b < 127) || b == 9
}

/// `p` is the first `:` of `d`.
pub open spec fn first_colon(d: Seq<char>, p: int) -> bool {
    0 <= p < d.len() && d[p] == ':' && forall|j: int| 0 <= j < p ==> (#[trigger] d[j]) != ':'
}

pub open spec fn bytes_view(b: Option<Vec<u8>>) -> Option<Seq<u8>> {
    match b {
        Some(v) => Some(v@),
        None => None,
    }
}

/// `r` is `d` split at its first `:`, or the missing-password error where
/// `d` has none.
pub open spec fn split_result(d: Seq<char>, r: Result<Credentials, BasicAuthError>) -> bool {
    match r {
        Ok(c) => exists|p: int| first_colon(d, p) && c.username@ == d.subrange(0, p)
            && c.password@ == d.subrange(p + 1, d.len() as int),
        Err(e) => e == BasicAuthError::MissingPassword && forall|j: int| 0 <= j < d.len() ==> (#[trigger] d[j]) != ':',
    }
}

/// Splits decoded `user:password` text at its first `:`.
pub fn split_credentials(decoded: &str) -> (r: Result<Credentials, BasicAuthError>)
    ensures
        split_result(decoded@, r),
{
    let n = decoded.unicode_len();
    let mut i: usize = 0;
    while i < n
        invariant
            n == decoded@.len(),
            0 <= i <= n,
            forall|j: int| 0 <= j < i ==> (#[trigger] decoded@[j]) != ':',
        decreases n - i,
    {
        if decoded.get_char(i) == ':' {
            let username = String::from_str(decoded.substring_char(0, i));
            let password = String::from_str(decoded.substring_char(i + 1, n));
            assert(first_colon(decoded@, i as int));
            return Ok(Credentials { username, password });
        }
        i = i + 1;
    }
    Err(BasicAuthError::MissingPassword)
}

/// What reading `header` as `Basic` credentials gives, step by step.
pub open spec fn basic_auth_spec(header: Option<Seq<u8>>) -> Result<Seq<char>, BasicAuthError> {
    match header {
        None => Err(BasicAuthError::MissingHeader),
        Some(h) => if !(forall|i: int| 0 <= i < h.len() ==> is_visible_ascii(#[trigger] h[i])) {
            Err(BasicAuthError::HeaderNotVisibleAscii)
        } else {
            match utf8_decoded(h) {
                None => Err(BasicAuthError::HeaderNotVisibleAscii),
                Some(text) => if !(text.len() >= 5 && text.subrange(0, 5) == "Basic"@) {
                    Err(BasicAuthError::NotBasicScheme)
                } else {
                    match base64_decoded(text.subrange(5, text.len() as int)) {
                        None => Err(BasicAuthError::NotBase64),
                        Some(bytes) => match utf8_decoded(bytes) {
                            None => Err(BasicAuthError::CredentialsNotUtf8),
                            Some(d) => Ok(d),
                        },
                    }
                },
            }
        },
    }
}

/// Reads credentials from the raw bytes of an `Authorization` header: the
/// text after the `Basic` prefix is base64 of `user:password`.
pub fn basic_authentication(header: Option<Vec<u8>>) -> (r: Result<Credentials, BasicAuthError>)
    ensures
        match basic_auth_spec(bytes_view(header)) {
            Err(e) => r == Err::<Credentials, BasicAuthError>(e),
            Ok(d) => split_result(d, r),
        },
{
    let h = match header {
        None => return Err(BasicAuthError::MissingHeader),
        Some(h) => h,
    };
    let mut i: usize = 0;
    while i < h.len()
        invariant
            0 <= i <= h@.len(),
            header == Some(h),
            forall|j: int| 0 <= j < i ==> is_visible_ascii(#[trigger] h@[j]),
        decreases h@.len() - i,
    {
        let b = h[i];
        if !((32 <= b && b < 127) || b == 9) {
            assert(!is_visible_ascii(h@[i as int]));
            return Err(BasicAuthError::HeaderNotVisibleAscii);
        }
        i = i + 1;
    }
    let ghost hv = h@;
    assert(bytes_view(header) == Some(hv));
    assert(forall|j: int| 0 <= j < hv.len() ==> is_visible_ascii(#[trigger] hv[j]));
    let text = match decode_utf8(h) {
        None => return Err(BasicAuthError::HeaderNotVisibleAscii),
        Some(t) => t,
    };
    let n = text.as_str().unicode_len();
    if n < 5 {
        return Err(BasicAuthError::NotBasicScheme);
    }
    let prefix = String::from_str(text.as_str().substring_char(0, 5));
    if !(prefix == String::from_str("Basic")) {
        return Err(BasicAuthError::NotBasicScheme);
    }
    let bytes = match decode_base64(text.as_str().substring_char(5, n)) {
        None => return Err(BasicAuthError::NotBase64),
        Some(b) => b,
    };
    let decoded = match decode_utf8(bytes) {
        None => return Err(BasicAuthError::CredentialsNotUtf8),
        Some(d) => d,
    };
    assert(text@.subrange(0, 5) == "Basic"@);
    assert(basic_auth_spec(Some(hv)) == Ok::<Seq<char>, BasicAuthError>(decoded@));
    split_credentials(decoded.as_str())
}

} // verus!
