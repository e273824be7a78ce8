//! The CLI-to-daemon requests carried over the daemon's Unix socket.
use vstd::prelude::*;

verus! {

/// A CLI subcommand's request to the running daemon.
#[derive(Debug, Clone, Copy, PartialEq, Eq, Structural)]
pub enum Request {
    /// `hyperwm reload`: re-read and re-validate the config file and apply
    /// it going forward.
    Reload,
    /// `hyperwm status`: current tiling state, focused window, and daemon
    /// health.
    Status,
}

} // verus!
