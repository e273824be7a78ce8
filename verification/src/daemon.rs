//! Small daemon-side decisions and errors: how windows found at adoption
//! time are treated, and why the control socket could not be bound.
use crate::action::Action;
use crate::geometry::Direction;
use crate::text::{owned, str_equal};
use vstd::prelude::*;

verus! {

/// How to treat the windows found already open when an app is adopted.
#[derive(Debug, Clone, Copy, PartialEq, Eq, Structural)]
pub enum AdoptionPolicy {
    /// Run each window through the normal tile-or-float insertion rule --
    /// for an app that launched during the daemon's own run.
    ClassifyForTiling,
    /// Register each window but leave it floating, without spending a
    /// `max_tiled_windows` slot -- for apps already running at startup.
    FloatOnly,
}

/// Why the control socket couldn't be bound.
#[derive(Debug, Clone, PartialEq, Eq)]
pub enum BindError {
    /// A live daemon is already listening at the socket path.
    AlreadyRunning,
    /// Any other bind, connect or remove failure, with its message.
    Io(String),
}

impl BindError {
    /// The readable message for this error.
    pub fn message(&self) -> (s: String)
        ensures
            s@ == (match self {
                BindError::AlreadyRunning => "another hyperwm-daemon instance is already running"@,
                BindError::Io(m) => m@,
            }),
    {
        match self {
            BindError::AlreadyRunning => owned("another hyperwm-daemon instance is already running"),
            BindError::Io(m) => owned(m.as_str()),
        }
    }
}

/// What to do after trying to bind the control socket.
#[derive(Debug, Clone, Copy, PartialEq, Eq, Structural)]
pub enum BindStep {
    /// The listener is bound; use it.
    Listen,
    /// The path is taken: connect to it to find out whether a daemon lives
    /// there.
    ProbeExisting,
    /// Nothing answered at the path: the socket file is stale; remove it and
    /// bind again.
    RemoveStaleAndRebind,
    /// Give up with this error.
    Fail,
}

/// The decision after a bind attempt: `bound` when it succeeded, else
/// `address_in_use` when the path was taken.
pub fn after_bind(bound: bool, address_in_use: bool) -> (s: BindStep)
    ensures
        s == (if bound {
            BindStep::Listen
        } else if address_in_use {
            BindStep::ProbeExisting
        } else {
            BindStep::Fail
        }),
{
    if bound {
        BindStep::Listen
    } else if address_in_use {
        BindStep::ProbeExisting
    } else {
        BindStep::Fail
    }
}

/// The decision after probing a taken socket path: a live daemon answered
/// (`connected`), so another instance runs; otherwise the file is stale.
pub fn after_probe(connected: bool) -> (r: Result<BindStep, BindError>)
    ensures
        connected ==> r == Err::<BindStep, BindError>(BindError::AlreadyRunning),
        !connected ==> r == Ok::<BindStep, BindError>(BindStep::RemoveStaleAndRebind),
{
    if connected {
        Err(BindError::AlreadyRunning)
    } else {
        Ok(BindStep::RemoveStaleAndRebind)
    }
}

/// The window operation a built-in action performs.
#[derive(Debug, Clone, Copy, PartialEq, Eq, Structural)]
pub enum Operation {
    ToggleFloat,
    Maximize,
    /// Swap with the tiled neighbour, or nudge a floating window.
    Move(Direction),
    /// Adjust the nearest matching split of a tiled window.
    Resize(Direction),
    AutoTile,
}

/// The operation behind each built-in action.
pub fn operation_for(action: Action) -> (op: Operation)
    ensures
        op == (match action {
            Action::ToggleFloat => Operation::ToggleFloat,
            Action::Maximize => Operation::Maximize,
            Action::MoveLeft => Operation::Move(Direction::Left),
            Action::MoveDown => Operation::Move(Direction::Down),
            Action::MoveUp => Operation::Move(Direction::Up),
            Action::MoveRight => Operation::Move(Direction::Right),
            Action::ResizeLeft => Operation::Resize(Direction::Left),
            Action::ResizeDown => Operation::Resize(Direction::Down),
            Action::ResizeUp => Operation::Resize(Direction::Up),
            Action::ResizeRight => Operation::Resize(Direction::Right),
            Action::AutoTile => Operation::AutoTile,
        }),
{
    match action {
        Action::ToggleFloat => Operation::ToggleFloat,
        Action::Maximize => Operation::Maximize,
        Action::MoveLeft => Operation::Move(Direction::Left),
        Action::MoveDown => Operation::Move(Direction::Down),
        Action::MoveUp => Operation::Move(Direction::Up),
        Action::MoveRight => Operation::Move(Direction::Right),
        Action::ResizeLeft => Operation::Resize(Direction::Left),
        Action::ResizeDown => Operation::Resize(Direction::Down),
        Action::ResizeUp => Operation::Resize(Direction::Up),
        Action::ResizeRight => Operation::Resize(Direction::Right),
        Action::AutoTile => Operation::AutoTile,
    }
}

/// An accessibility notification as it reaches the daemon: its name (such as
/// `AXWindowMoved`) and the element it fired for.
pub struct AXNotification<E> {
    pub name: String,
    pub element: E,
}

/// What the daemon does with an accessibility notification.
#[derive(Debug, Clone, Copy, PartialEq, Eq, Structural)]
pub enum NotificationEvent {
    /// A window appeared: classify it for tiling or floating.
    WindowCreated,
    /// The element went away: forget the window.
    ElementDestroyed,
    /// The window was moved or resized from outside: put it back in place.
    Drift,
    /// Another window of the app took focus.
    FocusChanged,
    /// Not a notification the daemon acts on.
    Ignored,
}

/// The event behind a notification name.
pub open spec fn notification_event(name: Seq<char>) -> NotificationEvent {
    if name == "AXWindowCreated"@ {
        NotificationEvent::WindowCreated
    } else if name == "AXUIElementDestroyed"@ {
        NotificationEvent::ElementDestroyed
    } else if name == "AXWindowMoved"@ || name == "AXWindowResized"@ {
        NotificationEvent::Drift
    } else if name == "AXFocusedWindowChanged"@ {
        NotificationEvent::FocusChanged
    } else {
        NotificationEvent::Ignored
    }
}

impl<E> AXNotification<E> {
    /// What the daemon does with this notification, decided by its name.
    pub fn event(&self) -> (ev: NotificationEvent)
        ensures
            ev == notification_event(self.name@),
    {
        let name = self.name.as_str();
        if str_equal(name, "AXWindowCreated") {
            NotificationEvent::WindowCreated
        } else if str_equal(name, "AXUIElementDestroyed") {
            NotificationEvent::ElementDestroyed
        } else if str_equal(name, "AXWindowMoved") || str_equal(name, "AXWindowResized") {
            NotificationEvent::Drift
        } else if str_equal(name, "AXFocusedWindowChanged") {
            NotificationEvent::FocusChanged
        } else {
            NotificationEvent::Ignored
        }
    }
}

} // verus!
