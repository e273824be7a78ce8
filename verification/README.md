# hyperwm

A keyboard-driven tiling window manager for macOS: every binding is a
`hyper+<key>` chord on a dedicated hyper key (a spare function key such as
F18, with Caps Lock remapped onto it), each space keeps a binary
space-partitioning tree of up to `max_tiled_windows` tiled windows, and the
rest float.

## Layout

- `src/` — the library, verified with Verus. Every public function states in
  its contract what it returns or changes:
  - `tree.rs`, `workspace.rs`, `space.rs`, `registry.rs` — the tiling tree,
    the tiled/floating membership of a space (`toggle_float`, `auto_tile`,
    new and closed windows), the per-space layout cache keyed by window set,
    and the window registry.
  - `keybind.rs`, `action.rs`, `keycode.rs`, `config.rs`, `router.rs` — key
    names and keybind syntax, built-in actions, macOS virtual keycodes,
    configuration validation with its error messages, and keybind routing.
  - `cli.rs`, `launchd.rs`, `keymap.rs`, `color.rs`, `timestamp.rs`,
    `permissions.rs`, `identity.rs`, `daemon.rs`, `protocol.rs`,
    `hyperkey.rs`, `mouse.rs`, `text.rs` — the command-line front end's
    decisions and text, and small daemon-side decisions.
  - Proof functions named `law_*` state properties that span several calls
    (parsing what is printed gives it back, routes are sound and complete,
    a validated configuration binds no keybind twice, and so on).
- `app/` — the `hyperwm` command-line program: reading `config.toml` (TOML
  decoding, floating-point range checks, script file permissions), the
  floating-point geometry that lays a tree out on screen, the daemon socket
  protocol, and running `launchctl`/`hidutil`. The daemon program itself
  (accessibility observers, event taps, the run loop and the socket server)
  is not here: it is built on the macOS crates (`accessibility-sys`,
  `core-graphics`, `objc2` and its AppKit/Foundation bindings), which build
  only for Apple targets. Its decisions are in `src/`: `daemon.rs`
  (socket binding, notification dispatch, actions), `workspace.rs` and
  `space.rs` (what each window event and space change does to the tiled and
  floating windows), `hyperkey.rs` and `router.rs`.
- `tests/` — tests of the library.
