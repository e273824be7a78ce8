//! hyperwm: a keyboard-driven tiling window manager for macOS.
//!
//! This crate holds the platform-independent logic, each function with its
//! contract: the per-space BSP tiling tree and the tiled/floating membership
//! around it, the per-space layout cache, the window registry,
//! configuration validation (keybind syntax, key names, actions, defaults
//! and error reporting), keybind routing, and the command-line front end's
//! argument handling, `launchd` agent management and text formatting.
mod action;
mod cli;
mod color;
mod config;
mod daemon;
mod geometry;
pub mod hyperkey;
mod identity;
mod keybind;
mod keycode;
mod keymap;
mod launchd;
pub mod mouse;
mod permissions;
mod protocol;
mod registry;
mod router;
mod space;
mod text;
mod timestamp;
mod tree;
mod workspace;

pub use action::{action_named, law_action_name_round_trip, Action};
pub use cli::{
    config_candidate_paths, default_config_path, law_documented_commands, mark_candidates,
    parse_command, usage_table,
    parse_daemon_command, parse_verify_args, wants_help, CandidateMark, Command, ConfigCandidate,
    DaemonCommand, VerifyArgsError,
};
pub use color::Painter;
pub use config::{
    binding_key, join, join_path, law_accepted_keybinds_distinct, law_insert_heuristic_names,
    law_name_order_sorts, name_precedes,
    order_by_name, parse_and_check_duplicate, parse_float_placement, parse_insert_heuristic,
    settings_outcome, validate, validate_hyperkey, validate_keybinds, validate_max_tiled_windows,
    validate_scripts, BindingItem, BindingsView, ConfigError, ConfigErrorView, FloatCheck,
    FloatPlacement, HyperkeyConfig, KeybindsConfig, RawSettings, ScriptBinding, ScriptFileStatus,
    ScriptsConfig, SettingsView, ValidSettings,
};
pub use daemon::{
    after_bind, after_probe, notification_event, operation_for, AXNotification, AdoptionPolicy,
    BindError, BindStep, NotificationEvent, Operation,
};
pub use geometry::{Direction, WindowId};
pub use identity::AppIdentity;
pub use keybind::{
    is_known_key, is_known_key_name, keybind_outcome, keybind_text, law_keybind_case_insensitive,
    law_keybind_text_round_trip, parse_keybind, KeyName, Keybind, KeybindSyntaxError,
    KeybindSyntaxErrorView,
};
pub use keycode::{
    canonical_key, carbon_keycodes, key_code, law_key_aliases, law_key_codes_distinct,
    law_key_codes_match_carbon, law_known_keys_have_codes, lookup,
};
pub use keymap::{
    function_key_usage_id, hidutil_json, keymap_program_args, CAPS_LOCK_USAGE_ID, KEYBOARD_PAGE,
};
pub use launchd::{
    bootout, bootstrap, domain_target, is_bootstrapped, is_running, job_state, kickstart,
    launchctl_failure, law_plist_run_at_load, plist_path, plist_xml, print_args, restart_inner,
    start_step,
    start_stopped_daemon, stop_step, xml_escape, JobState, LaunchStep,
};
pub use permissions::PermissionStatus;
pub use protocol::Request;
pub use registry::{ids_with_pid, Entry, WindowRegistry};
pub use router::{
    law_action_route_complete, law_action_route_exact, law_action_route_sound, law_routes_disjoint,
    law_script_route_complete, law_script_route_exact, law_script_route_sound,
    law_validated_routes, Router,
};
pub use space::{same_window_set, SavedSpace, SpaceCache};
pub use timestamp::{
    civil_from_days, law_date_unique, law_timestamp_shape, law_timestamps_sorted, text_le, timestamp,
};
pub use tree::{
    law_move_keeps_shape, law_remove_undoes_insert, law_resize_changes_one_split,
    law_resize_follows_pressed_direction,
    law_resize_keeps_windows, windows_without,
    law_resize_target_unique, split_direction_for, InsertHeuristic, InsertOutcome, Node, Side,
    SplitDirection, Tree,
};
pub use workspace::{space_step, Placement, Removal, SpaceStep, Toggle, Workspace};
