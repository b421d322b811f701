//! How a status message is presented to the user.

use vstd::prelude::*;

verus! {

/// Whether a message needs the user's attention. The kind is set by the
/// state transition that produced the message, never guessed from its text.
#[derive(Clone, Copy, Debug, PartialEq, Eq, Structural)]
pub enum StatusKind {
    Informational,
    CandidateNotFound,
    SearchRange,
    Error,
}

impl Default for StatusKind {
    fn default() -> (r: Self)
        ensures
            r == StatusKind::Informational,
    {
        StatusKind::Informational
    }
}

impl StatusKind {
    /// Field notices are the "no candidate" and "outside the search range"
    /// messages.
    pub fn is_field_notice(self) -> (r: bool)
        ensures
            r == (self == StatusKind::CandidateNotFound || self == StatusKind::SearchRange),
    {
        match self {
            StatusKind::CandidateNotFound | StatusKind::SearchRange => true,
            _ => false,
        }
    }
}

} // verus!
