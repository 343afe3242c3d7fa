//! Texts that are safe to place in a GECOS field.

use vstd::prelude::*;
use crate::error::GecosError;

verus! {

/// Whether `c` is one of the six characters that the passwd line format
/// reserves: `,` `:` `=` `\` `"` and the line feed.
pub open spec fn is_illegal_passwd_char(c: char) -> bool {
    c == ',' || c == ':' || c == '=' || c == '\\' || c == '"' || c == '\n'
}

/// Whether no character of `s` is reserved.
pub open spec fn is_sanitized(s: Seq<char>) -> bool {
    forall|i: int| 0 <= i < s.len() ==> !is_illegal_passwd_char(#[trigger] s[i])
}

/// Whether `c` is the leftmost reserved character of `s`.
pub open spec fn is_leftmost_illegal(s: Seq<char>, c: char) -> bool {
    exists|i: int|
        0 <= i < s.len() && #[trigger] s[i] == c && is_illegal_passwd_char(c) && is_sanitized(
            s.take(i),
        )
}

/// The leftmost reserved character of `s`, if it has one.
pub open spec fn leftmost_illegal(s: Seq<char>) -> Option<char>
    decreases s.len(),
{
    if s.len() == 0 {
        None
    } else if is_illegal_passwd_char(s.first()) {
        Some(s.first())
    } else {
        leftmost_illegal(s.drop_first())
    }
}

/// `leftmost_illegal` finds nothing exactly in sanitized texts, and otherwise
/// finds the one character that `is_leftmost_illegal` describes.
pub proof fn lemma_leftmost_illegal(s: Seq<char>)
    ensures
        leftmost_illegal(s) is None <==> is_sanitized(s),
        forall|c: char| leftmost_illegal(s) == Some(c) <==> is_leftmost_illegal(s, c),
    decreases s.len(),
{
    if s.len() == 0 {
    } else if is_illegal_passwd_char(s.first()) {
        assert(s.take(0).len() == 0);
        assert(s[0] == s.first());
        assert(is_leftmost_illegal(s, s.first()));
        assert forall|c: char| is_leftmost_illegal(s, c) implies c == s.first() by {
            let i = choose|i: int|
                0 <= i < s.len() && #[trigger] s[i] == c && is_illegal_passwd_char(c)
                    && is_sanitized(s.take(i));
            if i > 0 {
                assert(s.take(i)[0] == s[0]);
            }
        }
    } else {
        let rest = s.drop_first();
        lemma_leftmost_illegal(rest);
        if is_sanitized(rest) {
            assert forall|i: int| 0 <= i < s.len() implies !is_illegal_passwd_char(
                #[trigger] s[i],
            ) by {
                if i > 0 {
                    assert(s[i] == rest[i - 1]);
                }
            }
        } else if is_sanitized(s) {
            assert forall|i: int| 0 <= i < rest.len() implies !is_illegal_passwd_char(
                #[trigger] rest[i],
            ) by {
                assert(rest[i] == s[i + 1]);
            }
        }
        assert forall|c: char| is_leftmost_illegal(rest, c) implies is_leftmost_illegal(s, c) by {
            let i = choose|i: int|
                0 <= i < rest.len() && #[trigger] rest[i] == c && is_illegal_passwd_char(c)
                    && is_sanitized(rest.take(i));
            assert(s[i + 1] == c);
            assert forall|j: int| 0 <= j < i + 1 implies !is_illegal_passwd_char(
                #[trigger] s.take(i + 1)[j],
            ) by {
                if j > 0 {
                    assert(s.take(i + 1)[j] == rest.take(i)[j - 1]);
                }
            }
        }
        assert forall|c: char| is_leftmost_illegal(s, c) implies is_leftmost_illegal(rest, c) by {
            let i = choose|i: int|
                0 <= i < s.len() && #[trigger] s[i] == c && is_illegal_passwd_char(c)
                    && is_sanitized(s.take(i));
            assert(i > 0);
            assert(rest[i - 1] == c);
            assert forall|j: int| 0 <= j < i - 1 implies !is_illegal_passwd_char(
                #[trigger] rest.take(i - 1)[j],
            ) by {
                assert(rest.take(i - 1)[j] == s.take(i)[j + 1]);
            }
        }
    }
}

/// Decides whether `c` is reserved by the passwd line format.
pub fn illegal_passwd_char(c: char) -> (b: bool)
    ensures
        b == is_illegal_passwd_char(c),
{
    c == ',' || c == ':' || c == '=' || c == '\\' || c == '"' || c == '\n'
}

/// A text that holds none of the characters reserved by the passwd line
/// format.
#[derive(Debug)]
pub struct GecosSanitizedString {
    str: String,
}

impl View for GecosSanitizedString {
    type V = Seq<char>;

    closed spec fn view(&self) -> Seq<char> {
        self.str@
    }
}

impl GecosSanitizedString {
    /// Every value of the type is free of reserved characters.
    #[verifier::type_invariant]
    pub open spec fn wf(&self) -> bool {
        is_sanitized(self@)
    }

    /// What construction makes of `value`.
    pub closed spec fn spec_new(value: String) -> Result<Self, GecosError> {
        match leftmost_illegal(value@) {
            None => Ok(GecosSanitizedString { str: value }),
            Some(c) => Err(GecosError::IllegalPasswdChar(c)),
        }
    }

    /// What `spec_new` says in terms of texts.
    pub proof fn lemma_spec_new(value: String)
        ensures
            Self::spec_new(value) is Ok <==> is_sanitized(value@),
            match Self::spec_new(value) {
                Ok(field) => field@ == value@,
                Err(err) => is_leftmost_illegal(value@, err.illegal_char()),
            },
    {
        lemma_leftmost_illegal(value@);
    }

    /// Accepts `value` unchanged if it is free of reserved characters, and
    /// otherwise reports the leftmost reserved character in it.
    pub fn new(value: String) -> (res: Result<Self, GecosError>)
        ensures
            res is Ok <==> is_sanitized(value@),
            match res {
                Ok(field) => field@ == value@,
                Err(err) => is_leftmost_illegal(value@, err.illegal_char()),
            },
            res == Self::spec_new(value),
    {
        let text = value.as_str();
        for c in it: text.chars()
            invariant
                text@ == value@,
                it.seq() == text@,
                is_sanitized(text@.take(it.index())),
        {
            if illegal_passwd_char(c) {
                proof {
                    lemma_leftmost_illegal(value@);
                }
                return Err(GecosError::IllegalPasswdChar(c));
            }
            assert(text@.take(it.index() + 1) == text@.take(it.index()).push(c));
        }
        proof {
            assert(text@.take(text@.len() as int) == text@);
            lemma_leftmost_illegal(value@);
        }
        Ok(GecosSanitizedString { str: value })
    }

    /// The text, exactly as it was accepted.
    pub fn as_str(&self) -> (text: &str)
        ensures
            text@ == self@,
            is_sanitized(text@),
    {
        proof {
            use_type_invariant(self);
        }
        self.str.as_str()
    }

    /// Whether the text holds no character at all.
    pub fn is_empty(&self) -> (empty: bool)
        ensures
            empty == (self@.len() == 0),
    {
        self.str.as_str().is_empty()
    }

    /// A copy of the text, exactly as it was accepted.
    pub fn to_string(&self) -> (text: String)
        ensures
            text@ == self@,
            is_sanitized(text@),
    {
        proof {
            use_type_invariant(self);
        }
        self.str.clone()
    }
}

impl Clone for GecosSanitizedString {
    fn clone(&self) -> (copy: Self)
        ensures
            copy@ == self@,
    {
        proof {
            use_type_invariant(self);
        }
        GecosSanitizedString { str: self.str.clone() }
    }
}

impl TryFrom<String> for GecosSanitizedString {
    type Error = GecosError;

    /// The same as [`GecosSanitizedString::new`].
    fn try_from(value: String) -> (res: Result<Self, GecosError>)
        ensures
            res is Ok <==> is_sanitized(value@),
            match res {
                Ok(field) => field@ == value@,
                Err(err) => is_leftmost_illegal(value@, err.illegal_char()),
            },
    {
        GecosSanitizedString::new(value)
    }
}

impl vstd::std_specs::convert::TryFromSpecImpl<String> for GecosSanitizedString {
    open spec fn obeys_try_from_spec() -> bool {
        true
    }

    closed spec fn try_from_spec(value: String) -> Result<Self, GecosError> {
        GecosSanitizedString::spec_new(value)
    }
}

impl<'a> From<&'a GecosSanitizedString> for &'a String {
    /// The text, exactly as it was accepted.
    fn from(value: &'a GecosSanitizedString) -> (text: &'a String)
        ensures
            text@ == value@,
            is_sanitized(text@),
    {
        proof {
            use_type_invariant(value);
        }
        &value.str
    }
}

impl<'a> vstd::std_specs::convert::FromSpecImpl<&'a GecosSanitizedString> for &'a String {
    open spec fn obeys_from_spec() -> bool {
        true
    }

    closed spec fn from_spec(value: &'a GecosSanitizedString) -> &'a String {
        &value.str
    }
}

impl PartialEq for GecosSanitizedString {
    fn eq(&self, other: &Self) -> (same: bool) {
        self.str == other.str
    }
}

impl vstd::std_specs::cmp::PartialEqSpecImpl for GecosSanitizedString {
    open spec fn obeys_eq_spec() -> bool {
        true
    }

    /// Two texts are equal when they hold the same characters.
    open spec fn eq_spec(&self, other: &Self) -> bool {
        self@ == other@
    }
}

} // verus!
