//! Offsets the user keeps for reuse, per timer.

use vstd::prelude::*;

verus! {

/// One saved offset and the note the user attached to it.
#[derive(Clone, Debug, PartialEq, Eq)]
pub struct SavedOffset {
    pub value: i64,
    pub memo: String,
}

/// Saved offsets of the hatch, field and plain timers.
#[derive(Clone, Debug, PartialEq, Eq)]
pub struct OffsetStore {
    /// Hatch tab: frames between leaving the hatch screen and the encounter.
    pub hatch: Vec<SavedOffset>,
    /// Field tab: frames added to the target timer.
    pub field: Vec<SavedOffset>,
    /// Plain timer: frames added to the wait.
    pub normal: Vec<SavedOffset>,
}

impl OffsetStore {
    /// A store with no saved offsets.
    pub fn empty() -> (r: Self)
        ensures
            r.hatch@.len() == 0,
            r.field@.len() == 0,
            r.normal@.len() == 0,
    {
        OffsetStore { hatch: Vec::new(), field: Vec::new(), normal: Vec::new() }
    }
}

} // verus!
