//! The mouse-button event tap's creation error.
use crate::text::owned;
use vstd::prelude::*;

verus! {

/// The mouse-button event tap couldn't be created (in practice: Input
/// Monitoring permission is missing).
#[derive(Debug, Clone, Copy, PartialEq, Eq, Structural)]
pub struct TapCreationError;

impl TapCreationError {
    /// The readable message for this error.
    pub fn message(&self) -> (s: String)
        ensures
            s@
                == "failed to create the mouse-button CGEventTap (Input Monitoring permission missing?)"@,
    {
        owned("failed to create the mouse-button CGEventTap (Input Monitoring permission missing?)")
    }
}

} // verus!
