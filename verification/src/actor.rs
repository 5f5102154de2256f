//! What is left of a task that no longer answers.

use vstd::prelude::*;

verus! {

/// The actor stopped before it could answer: its task has ended, which
/// happens only if it panicked or every handle to it was dropped while a
/// call was in flight.
#[derive(Clone, Copy, Debug, PartialEq, Eq, Structural)]
pub struct Gone;

impl Gone {
    /// The reason in words.
    pub fn message(self) -> (text: String)
        ensures
            text@ == "the actor has stopped"@,
    {
        "the actor has stopped".to_owned()
    }
}

} // verus!
