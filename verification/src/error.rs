//! The error reported when a text cannot stand in a GECOS field.

use vstd::prelude::*;
use vstd::string::*;

verus! {

/// What every error of this library says in words.
pub const ILLEGAL_CHAR_MESSAGE: &'static str =
    "String contains invalid char, which is not allowed inside a Gecos field! (Chars ',', ':', '=', '\\', '\"', '\\n' are not allowed)";

/// Why a text was refused as part of a GECOS field.
#[derive(Debug)]
pub enum GecosError {
    /// The text holds this character, which the passwd line format reserves.
    IllegalPasswdChar(char),
}

impl GecosError {
    /// The character that the error reports.
    pub open spec fn illegal_char(self) -> char {
        match self {
            GecosError::IllegalPasswdChar(c) => c,
        }
    }

    /// The message for a reader. It names the reserved characters, not the
    /// one that was found.
    pub fn to_string(&self) -> (text: String)
        ensures
            text@ == ILLEGAL_CHAR_MESSAGE@,
    {
        String::from_str(ILLEGAL_CHAR_MESSAGE)
    }
}

} // verus!
