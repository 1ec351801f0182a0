//! Validated subscriber data: names and email addresses.
use vstd::prelude::*;
use unicode_segmentation::UnicodeSegmentation;

verus! {

/// The number of extended grapheme clusters in `s`, as
/// `unicode_segmentation` counts them.
pub uninterp spec fn grapheme_count(s: Seq<char>) -> nat;

/// Whether `c` has the Unicode `White_Space` property.
pub uninterp spec fn white_space(c: char) -> bool;

/// Relies on `UnicodeSegmentation::graphemes(s, true).count()`: the number of
/// extended grapheme clusters, a function of the characters alone.
#[verifier::external_body]
fn count_graphemes(s: &str) -> (r: usize)
    ensures
        r == grapheme_count(s@),
{
    s.graphemes(true).count()
}

/// Relies on `char::is_whitespace`: the Unicode `White_Space` property.
#[verifier::external_body]
fn is_white_space(c: char) -> (r: bool)
    ensures
        r == white_space(c),
{
    c.is_whitespace()
}

/// The longest name, in grapheme clusters.
pub const MAX_NAME_GRAPHEMES: usize = 256;

/// Characters that a name may not hold.
pub open spec fn is_forbidden_name_char(c: char) -> bool {
    c == '/' || c == '(' || c == ')' || c == '"' || c == '<' || c == '>' || c == '\\' || c == '{' || c == '}'
}

/// Empty, or whitespace only.
pub open spec fn is_blank(s: Seq<char>) -> bool {
    forall|i: int| 0 <= i < s.len() ==> white_space(#[trigger] s[i])
}

pub open spec fn has_forbidden_name_char(s: Seq<char>) -> bool {
    exists|i: int| 0 <= i < s.len() && is_forbidden_name_char(#[trigger] s[i])
}

/// A name is valid when it is not blank, has at most 256 grapheme clusters
/// (given as `graphemes`) and holds no forbidden character.
pub open spec fn is_valid_name(s: Seq<char>, graphemes: nat) -> bool {
    !is_blank(s) && graphemes <= MAX_NAME_GRAPHEMES && !has_forbidden_name_char(s)
}

/// The message that a refused name gets.
pub open spec fn invalid_name_message(s: Seq<char>) -> Seq<char> {
    s + " is not a valid subscriber name."@
}

fn all_white_space(s: &str) -> (r: bool)
    ensures
        r == is_blank(s@),
{
    let n = s.unicode_len();
    let mut i: usize = 0;
    while i < n
        invariant
            n == s@.len(),
            0 <= i <= n,
            forall|j: int| 0 <= j < i ==> white_space(#[trigger] s@[j]),
        decreases n - i,
    {
        if !is_white_space(s.get_char(i)) {
            return false;
        }
        i = i + 1;
    }
    true
}

fn any_forbidden_name_char(s: &str) -> (r: bool)
    ensures
        r == has_forbidden_name_char(s@),
{
    let n = s.unicode_len();
    let mut i: usize = 0;
    while i < n
        invariant
            n == s@.len(),
            0 <= i <= n,
            forall|j: int| 0 <= j < i ==> !is_forbidden_name_char(#[trigger] s@[j]),
        decreases n - i,
    {
        let c = s.get_char(i);
        if c == '/' || c == '(' || c == ')' || c == '"' || c == '<' || c == '>' || c == '\\' || c == '{' || c == '}' {
            assert(is_forbidden_name_char(s@[i as int]));
            return true;
        }
        i = i + 1;
    }
    false
}

/// A subscriber's name that passed validation.
#[derive(Debug)]
pub struct SubscriberName(String);

impl View for SubscriberName {
    type V = Seq<char>;

    closed spec fn view(&self) -> Seq<char> {
        self.0@
    }
}

impl SubscriberName {
    #[verifier::type_invariant]
    spec fn well_formed(self) -> bool {
        !is_blank(self.0@) && !has_forbidden_name_char(self.0@)
    }

    /// Validates `s` against a grapheme count of `graphemes`.
    pub fn parse_counted(s: String, graphemes: usize) -> (r: Result<SubscriberName, String>)
        ensures
            match r {
                Ok(name) => is_valid_name(s@, graphemes as nat) && name@ == s@,
                Err(e) => !is_valid_name(s@, graphemes as nat) && e@ == invalid_name_message(s@),
            },
    {
        let is_empty_or_whitespace = all_white_space(s.as_str());
        let is_too_long = graphemes > MAX_NAME_GRAPHEMES;
        let contains_forbidden_characters = any_forbidden_name_char(s.as_str());
        if is_empty_or_whitespace || is_too_long || contains_forbidden_characters {
            Err(s.concat(" is not a valid subscriber name."))
        } else {
            Ok(SubscriberName(s))
        }
    }

    /// Accepts `s` when it is not blank, has at most 256 grapheme clusters
    /// and holds none of `/ ( ) " < > \ { }`.
    pub fn parse(s: String) -> (r: Result<SubscriberName, String>)
        ensures
            match r {
                Ok(name) => is_valid_name(s@, grapheme_count(s@)) && name@ == s@,
                Err(e) => !is_valid_name(s@, grapheme_count(s@)) && e@ == invalid_name_message(s@),
            },
    {
        let graphemes = count_graphemes(s.as_str());
        SubscriberName::parse_counted(s, graphemes)
    }

    pub fn as_str(&self) -> (r: &str)
        ensures
            r@ == self@,
    {
        self.0.as_str()
    }
}

/// An email address is valid when it holds exactly one `@`, with characters
/// on both sides of it, and no whitespace.
pub open spec fn is_valid_email(s: Seq<char>) -> bool {
    exists|at: int| 0 < at < s.len() - 1 && s[at] == '@' && forall|i: int| 0 <= i < s.len() && i != at ==> (#[trigger] s[i]) != '@'
    && !white_space(s[i])
}

pub open spec fn invalid_email_message(s: Seq<char>) -> Seq<char> {
    s + " is not a valid subscriber email."@
}

/// A subscriber's email address that passed validation.
#[derive(Debug)]
pub struct SubscriberEmail(String);

impl View for SubscriberEmail {
    type V = Seq<char>;

    closed spec fn view(&self) -> Seq<char> {
        self.0@
    }
}

impl SubscriberEmail {
    #[verifier::type_invariant]
    spec fn well_formed(self) -> bool {
        is_valid_email(self.0@)
    }

    pub fn parse(s: String) -> (r: Result<SubscriberEmail, String>)
        ensures
            match r {
                Ok(email) => is_valid_email(s@) && email@ == s@,
                Err(e) => !is_valid_email(s@) && e@ == invalid_email_message(s@),
            },
    {
        let n = s.as_str().unicode_len();
        let mut at: usize = n;
        let mut i: usize = 0;
        let mut ok = true;
        while i < n
            invariant
                n == s@.len(),
                0 <= i <= n,
                at == n || (0 <= at < i && s@[at as int] == '@'),
                ok ==> forall|j: int| 0 <= j < i && j != at ==> (#[trigger] s@[j]) != '@' && !white_space(s@[j]),
                ok ==> (at == n ==> forall|j: int| 0 <= j < i ==> (#[trigger] s@[j]) != '@'),
                !ok ==> !is_valid_email(s@),
            decreases n - i,
        {
            let c = s.as_str().get_char(i);
            if ok {
                if c == '@' {
                    if at == n {
                        at = i;
                    } else {
                        ok = false;
                        assert forall|a: int| 0 < a < s@.len() - 1 && s@[a] == '@' implies !(forall|j: int|
                            0 <= j < s@.len() && j != a ==> (#[trigger] s@[j]) != '@' && !white_space(s@[j])) by {
                            if a == at as int {
                                assert(s@[i as int] == '@');
                            } else {
                                assert(s@[at as int] == '@');
                            }
                        }
                    }
                } else if is_white_space(c) {
                    ok = false;
                    assert forall|a: int| 0 < a < s@.len() - 1 && s@[a] == '@' implies !(forall|j: int|
                        0 <= j < s@.len() && j != a ==> (#[trigger] s@[j]) != '@' && !white_space(s@[j])) by {
                        assert(s@[i as int] != '@' && white_space(s@[i as int]));
                    }
                }
            }
            i = i + 1;
        }
        if ok && at != n && at > 0 && at + 1 < n {
            Ok(SubscriberEmail(s))
        } else {
            if ok {
                assert forall|a: int| 0 < a < s@.len() - 1 && s@[a] == '@' implies !(forall|j: int|
                    0 <= j < s@.len() && j != a ==> (#[trigger] s@[j]) != '@' && !white_space(s@[j])) by {
                    if at != n && a != at as int {
                        assert(s@[at as int] == '@');
                    }
                }
            }
            Err(s.concat(" is not a valid subscriber email."))
        }
    }

    pub fn as_str(&self) -> (r: &str)
        ensures
            r@ == self@,
    {
        self.0.as_str()
    }
}

/// A sign-up whose name and email both passed validation.
#[derive(Debug)]
pub struct NewSubscriber {
    pub email: SubscriberEmail,
    pub name: SubscriberName,
}

impl NewSubscriber {
    /// Validates the name first, then the email, as the sign-up form does.
    pub fn parse(email: String, name: String) -> (r: Result<NewSubscriber, String>)
        ensures
            match r {
                Ok(sub) => is_valid_name(name@, grapheme_count(name@)) && is_valid_email(email@)
                    && sub.name@ == name@ && sub.email@ == email@,
                Err(e) => if !is_valid_name(name@, grapheme_count(name@)) {
                    e@ == invalid_name_message(name@)
                } else {
                    !is_valid_email(email@) && e@ == invalid_email_message(email@)
                },
            },
    {
        let name = SubscriberName::parse(name)?;
        let email = SubscriberEmail::parse(email)?;
        Ok(NewSubscriber { email, name })
    }
}

} // verus!
