use vstd::prelude::*;

verus! {

/// The largest number of characters an idempotency key may hold.
pub const MAX_KEY_LEN: usize = 50;

/// A key character is printable ASCII other than the space: `'!'..='~'`.
pub open spec fn is_key_char(c: char) -> bool {
    '!' <= c && c <= '~'
}

/// Why a candidate idempotency key was refused.
#[derive(Debug, Clone, Copy, PartialEq, Eq, Structural)]
pub enum KeyError {
    Empty,
    TooLong,
    InvalidCharacter,
}

/// What validation decides for a candidate key, as a mathematical function.
pub open spec fn key_check(s: Seq<char>) -> Result<(), KeyError> {
    if s.len() == 0 {
        Err(KeyError::Empty)
    } else if s.len() > MAX_KEY_LEN {
        Err(KeyError::TooLong)
    } else if exists|i: int| 0 <= i < s.len() && !is_key_char(#[trigger] s[i]) {
        Err(KeyError::InvalidCharacter)
    } else {
        Ok(())
    }
}

pub open spec fn is_valid_key(s: Seq<char>) -> bool {
    key_check(s) is Ok
}

impl KeyError {
    /// The message shown to a client whose key was refused.
    pub fn message(&self) -> (r: &'static str)
        ensures
            *self == KeyError::Empty ==> r@ == "The idempotency key cannot be empty"@,
            *self == KeyError::TooLong ==> r@ == "The idempotency key must be at most 50 characters long"@,
            *self == KeyError::InvalidCharacter ==> r@
                == "The idempotency key must only contain printable ASCII characters other than space"@,
    {
        match self {
            KeyError::Empty => "The idempotency key cannot be empty",
            KeyError::TooLong => "The idempotency key must be at most 50 characters long",
            KeyError::InvalidCharacter =>
                "The idempotency key must only contain printable ASCII characters other than space",
        }
    }
}

/// A client-supplied token naming one logical publish request.
#[derive(Debug)]
pub struct IdempotencyKey {
    key: String,
}

impl View for IdempotencyKey {
    type V = Seq<char>;

    closed spec fn view(&self) -> Seq<char> {
        self.key@
    }
}

impl IdempotencyKey {
    #[verifier::type_invariant]
    spec fn well_formed(self) -> bool {
        is_valid_key(self.key@)
    }

    /// Accepts `s` exactly when it holds 1 to 50 characters, each printable
    /// ASCII other than the space.
    pub fn parse(s: String) -> (r: Result<IdempotencyKey, KeyError>)
        ensures
            match r {
                Ok(k) => key_check(s@) is Ok && k@ == s@,
                Err(e) => key_check(s@) == Err::<(), KeyError>(e),
            },
    {
        let n = s.as_str().unicode_len();
        if n == 0 {
            return Err(KeyError::Empty);
        }
        if n > MAX_KEY_LEN {
            return Err(KeyError::TooLong);
        }
        let mut i: usize = 0;
        while i < n
            invariant
                n == s@.len(),
                0 < n <= MAX_KEY_LEN,
                0 <= i <= n,
                forall|j: int| 0 <= j < i ==> is_key_char(#[trigger] s@[j]),
            decreases n - i,
        {
            let c = s.as_str().get_char(i);
            if !('!' <= c && c <= '~') {
                assert(!is_key_char(s@[i as int]));
                return Err(KeyError::InvalidCharacter);
            }
            i = i + 1;
        }
        Ok(IdempotencyKey { key: s })
    }

    pub fn as_string(&self) -> (r: &String)
        ensures
            r@ == self@,
    {
        &self.key
    }

    pub fn as_str(&self) -> (r: &str)
        ensures
            r@ == self@,
            is_valid_key(r@),
    {
        proof {
            use_type_invariant(self);
        }
        self.key.as_str()
    }
}

} // verus!
