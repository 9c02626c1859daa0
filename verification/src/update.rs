//! Pairing an action with a report of how producing it went.

use vstd::prelude::*;

verus! {

/// A report on producing an action: a human-readable message and
/// whether the produced action should be committed.
#[derive(Debug)]
pub struct Update {
    pub message: String,
    pub successful: bool,
}

impl Clone for Update {
    /// A clone carries the same report.
    fn clone(&self) -> (r: Self)
        ensures
            r.message@ == self.message@,
            r.successful == self.successful,
    {
        Update { message: self.message.clone(), successful: self.successful }
    }
}

impl Default for Update {
    /// The default report: empty message, committed.
    fn default() -> (r: Update)
        ensures
            r.message@ == Seq::<char>::empty(),
            r.successful == true,
    {
        Update { message: String::new(), successful: true }
    }
}

/// What an action producer may hand back: either a bare action, or an
/// action together with an [`Update`] report.
pub trait ToActionUpdate<A>: Sized {
    /// Split into the action and its report.
    fn to_action_update(self) -> (A, Update);
}

impl<A> ToActionUpdate<A> for (A, Update) {
    /// An explicit pair is returned as it is.
    fn to_action_update(self) -> (r: (A, Update))
        ensures
            r == self,
    {
        self
    }
}

} // verus!
