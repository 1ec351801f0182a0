//! The runtime environment that selects the configuration file.
use vstd::prelude::*;

verus! {

/// The runtime environments the application knows.
#[derive(Debug, Clone, Copy, PartialEq, Eq, Structural)]
pub enum Environment {
    Local,
    Production,
}

/// What `to_lowercase` makes of `s`.
pub uninterp spec fn lowercase_of(s: Seq<char>) -> Seq<char>;

/// Relies on `str::to_lowercase`: the lowercase mapping of each character,
/// a function of the characters alone.
#[verifier::external_body]
fn to_lowercase(s: &str) -> (r: String)
    ensures
        r@ == lowercase_of(s@),
{
    s.to_lowercase()
}

pub open spec fn environment_name(e: Environment) -> Seq<char> {
    match e {
        Environment::Local => "local"@,
        Environment::Production => "production"@,
    }
}

pub open spec fn unsupported_environment_message(lowered: Seq<char>) -> Seq<char> {
    lowered + " is not a supported environment. Use either local or productoin."@
}

/// The environment that an already lowercased name selects.
pub open spec fn environment_of(lowered: Seq<char>) -> Option<Environment> {
    if lowered == "local"@ {
        Some(Environment::Local)
    } else if lowered == "production"@ {
        Some(Environment::Production)
    } else {
        None
    }
}

impl Environment {
    pub fn as_str(&self) -> (r: &'static str)
        ensures
            r@ == environment_name(*self),
    {
        match self {
            Environment::Local => "local",
            Environment::Production => "production",
        }
    }

    /// Selects the environment named by `lowered`, which is already in
    /// lowercase.
    pub fn from_lowercase(lowered: String) -> (r: Result<Environment, String>)
        ensures
            match environment_of(lowered@) {
                Some(e) => r == Ok::<Environment, String>(e),
                None => r is Err && r->Err_0@ == unsupported_environment_message(lowered@),
            },
    {
        if lowered == String::from_str("local") {
            Ok(Environment::Local)
        } else if lowered == String::from_str("production") {
            Ok(Environment::Production)
        } else {
            Err(lowered.concat(" is not a supported environment. Use either local or productoin."))
        }
    }

    /// Selects the environment named by `s`, in any case.
    pub fn parse(s: String) -> (r: Result<Environment, String>)
        ensures
            match environment_of(lowercase_of(s@)) {
                Some(e) => r == Ok::<Environment, String>(e),
                None => r is Err && r->Err_0@ == unsupported_environment_message(lowercase_of(s@)),
            },
    {
        Environment::from_lowercase(to_lowercase(s.as_str()))
    }

    /// The configuration file of this environment: `<name>.yaml`.
    pub fn file_name(&self) -> (r: String)
        ensures
            r@ == environment_name(*self) + ".yaml"@,
    {
        String::from_str(self.as_str()).concat(".yaml")
    }
}

/// The environment to run in: the one named by `app_environment`, or the
/// local one where that is not set.
pub fn select_environment(app_environment: Option<String>) -> (r: Result<Environment, String>)
    ensures
        match app_environment {
            None => r == Ok::<Environment, String>(Environment::Local),
            Some(s) => match environment_of(lowercase_of(s@)) {
                Some(e) => r == Ok::<Environment, String>(e),
                None => r is Err && r->Err_0@ == unsupported_environment_message(lowercase_of(s@)),
            },
        },
{
    match app_environment {
        None => Ok(Environment::Local),
        Some(s) => Environment::parse(s),
    }
}

} // verus!
