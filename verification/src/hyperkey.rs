//! The hyper key: a plain down/up flag on one configured keycode -- key
//! down makes hyper active, key up makes it inactive; nothing is remembered
//! between events.
use crate::text::owned;
use vstd::prelude::*;

verus! {

/// The keyboard event tap couldn't be created (in practice: Input
/// Monitoring permission is missing).
#[derive(Debug, Clone, Copy, PartialEq, Eq, Structural)]
pub struct TapCreationError;

impl TapCreationError {
    /// The readable message for this error.
    pub fn message(&self) -> (s: String)
        ensures
            s@ == "failed to create the CGEventTap (Input Monitoring permission missing?)"@,
    {
        owned("failed to create the CGEventTap (Input Monitoring permission missing?)")
    }
}

/// The hyper-active flag a key event sets: `Some(key_down)` when the event
/// is for the watched keycode, `None` (no change) otherwise.
pub fn hyper_change(event_keycode: i64, watch_keycode: u16, key_down: bool) -> (r: Option<bool>)
    ensures
        r == (if event_keycode == watch_keycode as int {
            Some(key_down)
        } else {
            None::<bool>
        }),
{
    if event_keycode == watch_keycode as i64 {
        Some(key_down)
    } else {
        None
    }
}

} // verus!
