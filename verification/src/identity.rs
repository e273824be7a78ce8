//! A running app's identity (bundle ID and display name), matched against
//! `floating.always_float_apps`, which accepts either form.
use crate::text::{chars_of, eq_ignore_ascii_case, equal_ignoring_ascii_case};
use vstd::prelude::*;

verus! {

/// A running app's bundle ID and/or display name (either can be absent,
/// e.g. for a process with no bundle).
#[derive(Debug, Clone)]
pub struct AppIdentity {
    pub bundle_id: Option<String>,
    pub name: Option<String>,
}

impl Default for AppIdentity {
    fn default() -> (r: AppIdentity)
        ensures
            r.bundle_id is None,
            r.name is None,
    {
        AppIdentity { bundle_id: None, name: None }
    }
}

/// `value` is present and equals `pattern` ignoring ASCII case.
pub open spec fn field_matches(value: Option<String>, pattern: Seq<char>) -> bool {
    match value {
        Some(v) => eq_ignore_ascii_case(v@, pattern),
        None => false,
    }
}

fn matches_field(value: &Option<String>, pattern: &str) -> (r: bool)
    ensures
        r == field_matches(*value, pattern@),
{
    match value {
        Some(v) => {
            let cs = chars_of(v.as_str());
            equal_ignoring_ascii_case(&cs, pattern)
        },
        None => false,
    }
}

impl AppIdentity {
    /// Whether `pattern` (from `floating.always_float_apps`) matches this
    /// app's bundle ID or name, case-insensitively.
    pub fn matches(&self, pattern: &str) -> (r: bool)
        ensures
            r == (field_matches(self.bundle_id, pattern@) || field_matches(self.name, pattern@)),
    {
        matches_field(&self.bundle_id, pattern) || matches_field(&self.name, pattern)
    }
}

} // verus!
