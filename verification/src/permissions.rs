//! The two permissions the daemon needs (Accessibility and Input
//! Monitoring), and the instructions shown for whichever is missing.
use crate::text::push_str;
use vstd::prelude::*;

verus! {

/// Which of the required permissions are granted.
#[derive(Debug, Clone, Copy, PartialEq, Eq, Structural)]
pub struct PermissionStatus {
    pub accessibility: bool,
    pub input_monitoring: bool,
}

/// The instruction line for a missing Accessibility permission.
pub open spec fn accessibility_line() -> Seq<char> {
    "  - Accessibility: System Settings > Privacy & Security > Accessibility, then enable it for this app (add it with \"+\" if it isn't listed)."@
}

/// The instruction line for a missing Input Monitoring permission.
pub open spec fn input_monitoring_line() -> Seq<char> {
    "  - Input Monitoring: System Settings > Privacy & Security > Input Monitoring, then enable it for this app (add it with \"+\" if it isn't listed)."@
}

impl PermissionStatus {
    /// Both permissions are granted.
    pub fn all_granted(&self) -> (r: bool)
        ensures
            r == (self.accessibility && self.input_monitoring),
    {
        self.accessibility && self.input_monitoring
    }

    /// One instruction line per missing permission, separated by newlines;
    /// empty when everything is granted.
    pub fn instructions(&self) -> (r: String)
        ensures
            r@ == (if !self.accessibility && !self.input_monitoring {
                accessibility_line() + "\n"@ + input_monitoring_line()
            } else if !self.accessibility {
                accessibility_line()
            } else if !self.input_monitoring {
                input_monitoring_line()
            } else {
                Seq::<char>::empty()
            }),
    {
        let mut r = String::new();
        if !self.accessibility {
            push_str(
                &mut r,
                "  - Accessibility: System Settings > Privacy & Security > Accessibility, then enable it for this app (add it with \"+\" if it isn't listed).",
            );
        }
        if !self.input_monitoring {
            if !self.accessibility {
                push_str(&mut r, "\n");
            }
            push_str(
                &mut r,
                "  - Input Monitoring: System Settings > Privacy & Security > Input Monitoring, then enable it for this app (add it with \"+\" if it isn't listed).",
            );
        }
        proof {
            if self.accessibility && self.input_monitoring {
                assert(r@ =~= Seq::<char>::empty());
            }
            if self.accessibility && !self.input_monitoring {
                assert(r@ =~= input_monitoring_line());
            }
        }
        r
    }
}

} // verus!
