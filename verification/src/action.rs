//! The built-in actions a `[keybinds]` entry can name.
use crate::text::str_equal;
use vstd::prelude::*;

verus! {

/// A built-in window-management action.
#[derive(Debug, Clone, Copy, PartialEq, Eq, Structural)]
pub enum Action {
    ToggleFloat,
    Maximize,
    MoveLeft,
    MoveDown,
    MoveUp,
    MoveRight,
    ResizeLeft,
    ResizeDown,
    ResizeUp,
    ResizeRight,
    AutoTile,
}

impl Action {
    /// The configuration name of the action.
    pub open spec fn name(self) -> Seq<char> {
        match self {
            Action::ToggleFloat => "toggle_float"@,
            Action::Maximize => "maximize"@,
            Action::MoveLeft => "move_left"@,
            Action::MoveDown => "move_down"@,
            Action::MoveUp => "move_up"@,
            Action::MoveRight => "move_right"@,
            Action::ResizeLeft => "resize_left"@,
            Action::ResizeDown => "resize_down"@,
            Action::ResizeUp => "resize_up"@,
            Action::ResizeRight => "resize_right"@,
            Action::AutoTile => "auto_tile"@,
        }
    }

    /// The action whose configuration name is exactly `raw`, if any.
    pub fn parse(raw: &str) -> (r: Option<Action>)
        ensures
            r == action_named(raw@),
    {
        if str_equal(raw, "toggle_float") {
            Some(Action::ToggleFloat)
        } else if str_equal(raw, "maximize") {
            Some(Action::Maximize)
        } else if str_equal(raw, "move_left") {
            Some(Action::MoveLeft)
        } else if str_equal(raw, "move_down") {
            Some(Action::MoveDown)
        } else if str_equal(raw, "move_up") {
            Some(Action::MoveUp)
        } else if str_equal(raw, "move_right") {
            Some(Action::MoveRight)
        } else if str_equal(raw, "resize_left") {
            Some(Action::ResizeLeft)
        } else if str_equal(raw, "resize_down") {
            Some(Action::ResizeDown)
        } else if str_equal(raw, "resize_up") {
            Some(Action::ResizeUp)
        } else if str_equal(raw, "resize_right") {
            Some(Action::ResizeRight)
        } else if str_equal(raw, "auto_tile") {
            Some(Action::AutoTile)
        } else {
            None
        }
    }

    /// The configuration name of the action.
    pub fn as_str(&self) -> (s: &'static str)
        ensures
            s@ == self.name(),
    {
        match self {
            Action::ToggleFloat => "toggle_float",
            Action::Maximize => "maximize",
            Action::MoveLeft => "move_left",
            Action::MoveDown => "move_down",
            Action::MoveUp => "move_up",
            Action::MoveRight => "move_right",
            Action::ResizeLeft => "resize_left",
            Action::ResizeDown => "resize_down",
            Action::ResizeUp => "resize_up",
            Action::ResizeRight => "resize_right",
            Action::AutoTile => "auto_tile",
        }
    }
}

/// The action named `s`, if `s` is one of the configuration names.
pub open spec fn action_named(s: Seq<char>) -> Option<Action> {
    if s == "toggle_float"@ {
        Some(Action::ToggleFloat)
    } else if s == "maximize"@ {
        Some(Action::Maximize)
    } else if s == "move_left"@ {
        Some(Action::MoveLeft)
    } else if s == "move_down"@ {
        Some(Action::MoveDown)
    } else if s == "move_up"@ {
        Some(Action::MoveUp)
    } else if s == "move_right"@ {
        Some(Action::MoveRight)
    } else if s == "resize_left"@ {
        Some(Action::ResizeLeft)
    } else if s == "resize_down"@ {
        Some(Action::ResizeDown)
    } else if s == "resize_up"@ {
        Some(Action::ResizeUp)
    } else if s == "resize_right"@ {
        Some(Action::ResizeRight)
    } else if s == "auto_tile"@ {
        Some(Action::AutoTile)
    } else {
        None
    }
}

/// Parsing an action's own name gives that action back, and whatever parses
/// is named exactly by the text it was parsed from.
pub proof fn law_action_name_round_trip(a: Action, s: Seq<char>)
    ensures
        action_named(a.name()) == Some(a),
        action_named(s) matches Some(b) ==> b.name() == s,
{
    reveal_strlit("toggle_float");
    reveal_strlit("maximize");
    reveal_strlit("move_left");
    reveal_strlit("move_down");
    reveal_strlit("move_up");
    reveal_strlit("move_right");
    reveal_strlit("resize_left");
    reveal_strlit("resize_down");
    reveal_strlit("resize_up");
    reveal_strlit("resize_right");
    reveal_strlit("auto_tile");
    assert("toggle_float"@[0] != "maximize"@[0]);
    assert("toggle_float"@[0] != "move_left"@[0]);
    assert("toggle_float"@[0] != "move_down"@[0]);
    assert("toggle_float"@[0] != "move_up"@[0]);
    assert("toggle_float"@[0] != "move_right"@[0]);
    assert("toggle_float"@[0] != "resize_left"@[0]);
    assert("toggle_float"@[0] != "resize_down"@[0]);
    assert("toggle_float"@[0] != "resize_up"@[0]);
    assert("toggle_float"@[0] != "resize_right"@[0]);
    assert("toggle_float"@[0] != "auto_tile"@[0]);
    assert("maximize"@[1] != "move_left"@[1]);
    assert("maximize"@[1] != "move_down"@[1]);
    assert("maximize"@[1] != "move_up"@[1]);
    assert("maximize"@[1] != "move_right"@[1]);
    assert("maximize"@[0] != "resize_left"@[0]);
    assert("maximize"@[0] != "resize_down"@[0]);
    assert("maximize"@[0] != "resize_up"@[0]);
    assert("maximize"@[0] != "resize_right"@[0]);
    assert("maximize"@[0] != "auto_tile"@[0]);
    assert("move_left"@[5] != "move_down"@[5]);
    assert("move_left"@[5] != "move_up"@[5]);
    assert("move_left"@[5] != "move_right"@[5]);
    assert("move_left"@[0] != "resize_left"@[0]);
    assert("move_left"@[0] != "resize_down"@[0]);
    assert("move_left"@[0] != "resize_up"@[0]);
    assert("move_left"@[0] != "resize_right"@[0]);
    assert("move_left"@[0] != "auto_tile"@[0]);
    assert("move_down"@[5] != "move_up"@[5]);
    assert("move_down"@[5] != "move_right"@[5]);
    assert("move_down"@[0] != "resize_left"@[0]);
    assert("move_down"@[0] != "resize_down"@[0]);
    assert("move_down"@[0] != "resize_up"@[0]);
    assert("move_down"@[0] != "resize_right"@[0]);
    assert("move_down"@[0] != "auto_tile"@[0]);
    assert("move_up"@[5] != "move_right"@[5]);
    assert("move_up"@[0] != "resize_left"@[0]);
    assert("move_up"@[0] != "resize_down"@[0]);
    assert("move_up"@[0] != "resize_up"@[0]);
    assert("move_up"@[0] != "resize_right"@[0]);
    assert("move_up"@[0] != "auto_tile"@[0]);
    assert("move_right"@[0] != "resize_left"@[0]);
    assert("move_right"@[0] != "resize_down"@[0]);
    assert("move_right"@[0] != "resize_up"@[0]);
    assert("move_right"@[0] != "resize_right"@[0]);
    assert("move_right"@[0] != "auto_tile"@[0]);
    assert("resize_left"@[7] != "resize_down"@[7]);
    assert("resize_left"@[7] != "resize_up"@[7]);
    assert("resize_left"@[7] != "resize_right"@[7]);
    assert("resize_left"@[0] != "auto_tile"@[0]);
    assert("resize_down"@[7] != "resize_up"@[7]);
    assert("resize_down"@[7] != "resize_right"@[7]);
    assert("resize_down"@[0] != "auto_tile"@[0]);
    assert("resize_up"@[7] != "resize_right"@[7]);
    assert("resize_up"@[0] != "auto_tile"@[0]);
    assert("resize_right"@[0] != "auto_tile"@[0]);
}

} // verus!
