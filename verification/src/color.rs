//! ANSI colouring for `status` output. Colour is used only when the caller
//! has decided it is wanted (standard output is a terminal and `NO_COLOR`
//! is unset); otherwise every helper hands the text back unchanged.
use crate::text::{owned, push_str};
use vstd::prelude::*;

verus! {

/// `text` wrapped in the SGR code(s) `code` when `enabled`, else `text`.
pub open spec fn painted(enabled: bool, code: Seq<char>, text: Seq<char>) -> Seq<char> {
    if enabled {
        "\x1b["@ + code + "m"@ + text + "\x1b[0m"@
    } else {
        text
    }
}

/// Applies ANSI colours, or doesn't.
#[derive(Debug, Clone, Copy)]
pub struct Painter {
    enabled: bool,
}

impl Painter {
    /// Whether this painter colours its text.
    pub closed spec fn is_enabled(self) -> bool {
        self.enabled
    }

    /// A painter that colours exactly when `enabled`.
    pub fn new(enabled: bool) -> (p: Painter)
        ensures
            p.is_enabled() == enabled,
    {
        Painter { enabled }
    }

    /// Wraps `text` in the given SGR code(s) (e.g. `"32"` for green,
    /// `"1;31"` for bold red); a no-op when colouring is disabled.
    pub fn colorize(&self, code: &str, text: &str) -> (r: String)
        ensures
            r@ == painted(self.is_enabled(), code@, text@),
    {
        if self.enabled {
            let mut r = owned("\x1b[");
            push_str(&mut r, code);
            push_str(&mut r, "m");
            push_str(&mut r, text);
            push_str(&mut r, "\x1b[0m");
            r
        } else {
            owned(text)
        }
    }

    pub fn bold(&self, text: &str) -> (r: String)
        ensures
            r@ == painted(self.is_enabled(), "1"@, text@),
    {
        self.colorize("1", text)
    }

    pub fn dim(&self, text: &str) -> (r: String)
        ensures
            r@ == painted(self.is_enabled(), "2"@, text@),
    {
        self.colorize("2", text)
    }

    pub fn green(&self, text: &str) -> (r: String)
        ensures
            r@ == painted(self.is_enabled(), "32"@, text@),
    {
        self.colorize("32", text)
    }

    pub fn red(&self, text: &str) -> (r: String)
        ensures
            r@ == painted(self.is_enabled(), "31"@, text@),
    {
        self.colorize("31", text)
    }

    pub fn bold_green(&self, text: &str) -> (r: String)
        ensures
            r@ == painted(self.is_enabled(), "1;32"@, text@),
    {
        self.colorize("1;32", text)
    }

    pub fn bold_red(&self, text: &str) -> (r: String)
        ensures
            r@ == painted(self.is_enabled(), "1;31"@, text@),
    {
        self.colorize("1;31", text)
    }
}

} // verus!
