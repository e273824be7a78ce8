use hyperwm::{
    validate, Action, ConfigError, FloatCheck, FloatPlacement, InsertHeuristic, KeybindSyntaxError,
    RawSettings, ScriptBinding, ScriptFileStatus,
};

/// Settings with every required field present and nothing else, as the
/// minimal `[hyperkey]` + `[gaps]` file would give them.
fn minimal_required() -> RawSettings {
    RawSettings {
        watch_keycode: Some("f18".to_string()),
        max_tiled_windows: None,
        split_ratio_default: FloatCheck::Valid,
        insert_heuristic: None,
        resize_step: FloatCheck::Valid,
        resize_min_ratio: FloatCheck::Valid,
        resize_max_ratio: FloatCheck::Valid,
        resize_order: FloatCheck::Valid,
        gaps_outer: Some(FloatCheck::Valid),
        gaps_inner: Some(FloatCheck::Valid),
        always_float_apps: Vec::new(),
        new_float_placement: None,
        float_move_step: FloatCheck::Valid,
        scripts_dir: None,
        builtin_keybinds: Vec::new(),
        script_keybinds: Vec::new(),
    }
}

fn builtin(raw: &str, action: &str) -> (String, String) {
    (raw.to_string(), action.to_string())
}

fn script(raw: &str, name: &str, status: ScriptFileStatus) -> ScriptBinding {
    ScriptBinding { keybind: raw.to_string(), script: name.to_string(), status }
}

#[test]
fn builtin_action_names_round_trip() {
    for (name, action) in [
        ("toggle_float", Action::ToggleFloat),
        ("maximize", Action::Maximize),
        ("move_left", Action::MoveLeft),
        ("move_down", Action::MoveDown),
        ("move_up", Action::MoveUp),
        ("move_right", Action::MoveRight),
        ("resize_left", Action::ResizeLeft),
        ("resize_down", Action::ResizeDown),
        ("resize_up", Action::ResizeUp),
        ("resize_right", Action::ResizeRight),
    ] {
        assert_eq!(action.as_str(), name);
    }
}

#[test]
fn action_names_parse_back() {
    for name in [
        "toggle_float",
        "maximize",
        "move_left",
        "move_down",
        "move_up",
        "move_right",
        "resize_left",
        "resize_down",
        "resize_up",
        "resize_right",
        "auto_tile",
    ] {
        let action = Action::parse(name).expect("a built-in action name");
        assert_eq!(action.as_str(), name);
    }
    assert_eq!(Action::parse("teleport_left"), None);
    assert_eq!(Action::parse("Move_Left"), None);
}

#[test]
fn missing_required_field_is_reported_specifically() {
    let mut raw = minimal_required();
    raw.gaps_inner = None;
    let err = validate(raw, "/cfg").unwrap_err();
    assert_eq!(err, ConfigError::MissingField("gaps.inner"));
    assert_eq!(err.message(), "missing required field \"gaps.inner\"");
}

#[test]
fn missing_hyperkey_table_is_reported_specifically() {
    let mut raw = minimal_required();
    raw.watch_keycode = None;
    let err = validate(raw, "/cfg").unwrap_err();
    assert_eq!(err, ConfigError::MissingField("hyperkey.watch_keycode"));
}

#[test]
fn bad_keybind_syntax_missing_hyper_prefix() {
    let mut raw = minimal_required();
    raw.builtin_keybinds = vec![builtin("ctrl+h", "move_left")];
    match validate(raw, "/cfg").unwrap_err() {
        ConfigError::InvalidKeybind { raw, reason } => {
            assert_eq!(raw, "ctrl+h");
            assert_eq!(reason, KeybindSyntaxError::MissingHyperPrefix);
        }
        other => panic!("expected InvalidKeybind, got {other:?}"),
    }
}

#[test]
fn bad_keybind_syntax_unknown_key_name() {
    let mut raw = minimal_required();
    raw.builtin_keybinds = vec![builtin("hyper+doesnotexist", "move_left")];
    assert!(matches!(
        validate(raw, "/cfg").unwrap_err(),
        ConfigError::InvalidKeybind { reason: KeybindSyntaxError::UnknownKeyName(_), .. }
    ));
}

#[test]
fn bad_keybind_syntax_unknown_modifier() {
    let mut raw = minimal_required();
    raw.builtin_keybinds = vec![builtin("hyper+ctrl+h", "move_left")];
    assert!(matches!(
        validate(raw, "/cfg").unwrap_err(),
        ConfigError::InvalidKeybind { reason: KeybindSyntaxError::UnknownModifier(_), .. }
    ));
}

#[test]
fn unknown_builtin_action_is_reported_specifically() {
    let mut raw = minimal_required();
    raw.builtin_keybinds = vec![builtin("hyper+h", "teleport_left")];
    match validate(raw, "/cfg").unwrap_err() {
        ConfigError::UnknownAction { keybind, action } => {
            assert_eq!(keybind, "hyper+h");
            assert_eq!(action, "teleport_left");
        }
        other => panic!("expected UnknownAction, got {other:?}"),
    }
}

#[test]
fn duplicate_keybind_across_builtin_and_scripts_is_rejected() {
    let mut raw = minimal_required();
    raw.builtin_keybinds = vec![builtin("hyper+g", "toggle_float")];
    raw.script_keybinds = vec![script("hyper+g", "foo.sh", ScriptFileStatus::Executable)];
    match validate(raw, "/cfg").unwrap_err() {
        ConfigError::DuplicateKeybind { keybind } => assert_eq!(keybind, "hyper+g"),
        other => panic!("expected DuplicateKeybind, got {other:?}"),
    }
}

#[test]
fn script_reference_to_nonexistent_file_is_rejected() {
    let mut raw = minimal_required();
    raw.scripts_dir = Some("scripts".to_string());
    raw.script_keybinds = vec![script("hyper+g", "does_not_exist.sh", ScriptFileStatus::Missing)];
    match validate(raw, "/cfg").unwrap_err() {
        ConfigError::ScriptNotFound { keybind, script, path } => {
            assert_eq!(keybind, "hyper+g");
            assert_eq!(script, "does_not_exist.sh");
            assert_eq!(path, "/cfg/scripts/does_not_exist.sh");
        }
        other => panic!("expected ScriptNotFound, got {other:?}"),
    }
}

#[test]
fn script_reference_to_non_executable_file_is_rejected() {
    let mut raw = minimal_required();
    raw.script_keybinds =
        vec![script("hyper+g", "not_executable.sh", ScriptFileStatus::NotExecutable)];
    match validate(raw, "/cfg").unwrap_err() {
        ConfigError::ScriptNotExecutable { keybind, script, path } => {
            assert_eq!(keybind, "hyper+g");
            assert_eq!(script, "not_executable.sh");
            assert_eq!(path, "/cfg/scripts/not_executable.sh");
        }
        other => panic!("expected ScriptNotExecutable, got {other:?}"),
    }
}

#[test]
fn script_reference_to_executable_file_succeeds() {
    let mut raw = minimal_required();
    raw.script_keybinds = vec![script("hyper+g", "runnable.sh", ScriptFileStatus::Executable)];
    let settings = validate(raw, "/cfg").expect("valid executable script should load");
    assert_eq!(settings.keybinds.scripts.len(), 1);
    let (keybind, name) = &settings.keybinds.scripts[0];
    assert_eq!(keybind.to_display_string(), "hyper+g");
    assert_eq!(name, "runnable.sh");
}

#[test]
fn out_of_range_value_is_rejected() {
    let mut raw = minimal_required();
    raw.split_ratio_default = FloatCheck::Invalid("must be between 0.0 and 1.0, got 1.5".to_string());
    match validate(raw, "/cfg").unwrap_err() {
        ConfigError::InvalidValue { field, .. } => {
            assert_eq!(field, "tiling.split_ratio_default");
        }
        other => panic!("expected InvalidValue, got {other:?}"),
    }
}

#[test]
fn defaults_are_filled_in() {
    let settings = validate(minimal_required(), "/home/u/.config/hyperwm").unwrap();
    assert_eq!(settings.hyperkey.watch_keycode.as_str(), "f18");
    assert_eq!(settings.max_tiled_windows, 4);
    assert_eq!(settings.insert_heuristic, InsertHeuristic::AspectRatio);
    assert_eq!(settings.new_float_placement, FloatPlacement::Cascade);
    assert_eq!(settings.scripts.dir, "/home/u/.config/hyperwm/scripts");
    assert!(settings.keybinds.builtin.is_empty());
    assert!(settings.keybinds.scripts.is_empty());
}

#[test]
fn absolute_scripts_dir_is_used_as_is() {
    let mut raw = minimal_required();
    raw.scripts_dir = Some("/opt/hyperwm-scripts".to_string());
    let settings = validate(raw, "/cfg").unwrap();
    assert_eq!(settings.scripts.dir, "/opt/hyperwm-scripts");
}

#[test]
fn blank_scripts_dir_is_rejected() {
    let mut raw = minimal_required();
    raw.scripts_dir = Some("   ".to_string());
    assert_eq!(
        validate(raw, "/cfg").unwrap_err(),
        ConfigError::InvalidValue { field: "scripts.dir", reason: "must not be empty".to_string() }
    );
}

#[test]
fn watch_keycode_is_canonicalized_and_checked() {
    let mut raw = minimal_required();
    raw.watch_keycode = Some("F18".to_string());
    assert_eq!(validate(raw, "/cfg").unwrap().hyperkey.watch_keycode.as_str(), "f18");

    let mut raw = minimal_required();
    raw.watch_keycode = Some("f25".to_string());
    let err = validate(raw, "/cfg").unwrap_err();
    assert_eq!(
        err,
        ConfigError::InvalidValue {
            field: "hyperkey.watch_keycode",
            reason: "\"f25\" isn't a recognized key name".to_string(),
        }
    );
    assert_eq!(
        err.message(),
        "invalid value for \"hyperkey.watch_keycode\": \"f25\" isn't a recognized key name"
    );
}

#[test]
fn max_tiled_windows_must_be_positive() {
    let mut raw = minimal_required();
    raw.max_tiled_windows = Some(0);
    assert_eq!(
        validate(raw, "/cfg").unwrap_err(),
        ConfigError::InvalidValue {
            field: "tiling.max_tiled_windows",
            reason: "must be at least 1".to_string(),
        }
    );
    let mut raw = minimal_required();
    raw.max_tiled_windows = Some(-3);
    assert_eq!(
        validate(raw, "/cfg").unwrap_err(),
        ConfigError::InvalidValue {
            field: "tiling.max_tiled_windows",
            reason: "must be a positive integer".to_string(),
        }
    );
    let mut raw = minimal_required();
    raw.max_tiled_windows = Some(7);
    assert_eq!(validate(raw, "/cfg").unwrap().max_tiled_windows, 7);
}

#[test]
fn unknown_heuristic_and_placement_are_rejected() {
    let mut raw = minimal_required();
    raw.insert_heuristic = Some("spiral".to_string());
    assert_eq!(
        validate(raw, "/cfg").unwrap_err().message(),
        "invalid value for \"tiling.insert_heuristic\": \"spiral\" is not one of \
         \"aspect_ratio\", \"always_vertical\", \"always_horizontal\""
    );
    let mut raw = minimal_required();
    raw.new_float_placement = Some("corner".to_string());
    assert_eq!(
        validate(raw, "/cfg").unwrap_err().message(),
        "invalid value for \"floating.new_float_placement\": \"corner\" is not one of \
         \"cascade\", \"center\""
    );
    let mut raw = minimal_required();
    raw.insert_heuristic = Some("always_horizontal".to_string());
    raw.new_float_placement = Some("center".to_string());
    let settings = validate(raw, "/cfg").unwrap();
    assert_eq!(settings.insert_heuristic, InsertHeuristic::AlwaysHorizontal);
    assert_eq!(settings.new_float_placement, FloatPlacement::Center);
}

#[test]
fn checks_run_in_section_order() {
    // A bad tiling value is reported before missing gaps, which is reported
    // before a bad keybind.
    let mut raw = minimal_required();
    raw.resize_order = FloatCheck::Invalid("must be greater than tiling.resize.min_ratio".to_string());
    raw.gaps_outer = None;
    raw.builtin_keybinds = vec![builtin("nonsense", "move_left")];
    assert!(matches!(
        validate(raw, "/cfg").unwrap_err(),
        ConfigError::InvalidValue { field: "tiling.resize.max_ratio", .. }
    ));

    let mut raw = minimal_required();
    raw.gaps_outer = None;
    raw.builtin_keybinds = vec![builtin("nonsense", "move_left")];
    assert_eq!(validate(raw, "/cfg").unwrap_err(), ConfigError::MissingField("gaps.outer"));
}

#[test]
fn keybind_entries_are_checked_in_name_order() {
    // "hyper+a" sorts before "hyper+b": its unknown action is the error
    // reported, although it is listed second.
    let mut raw = minimal_required();
    raw.builtin_keybinds = vec![builtin("hyper+b", "bogus_b"), builtin("hyper+a", "bogus_a")];
    match validate(raw, "/cfg").unwrap_err() {
        ConfigError::UnknownAction { keybind, action } => {
            assert_eq!(keybind, "hyper+a");
            assert_eq!(action, "bogus_a");
        }
        other => panic!("expected UnknownAction, got {other:?}"),
    }
}

#[test]
fn duplicate_reports_the_first_spelling() {
    // "HYPER+h" sorts before "hyper+h" (upper case first); both are the same
    // keybind, so the second is the duplicate and the first is named.
    let mut raw = minimal_required();
    raw.builtin_keybinds =
        vec![builtin("hyper+h", "move_left"), builtin("HYPER+h", "move_right")];
    let err = validate(raw, "/cfg").unwrap_err();
    assert_eq!(err, ConfigError::DuplicateKeybind { keybind: "HYPER+h".to_string() });
    assert_eq!(err.message(), "keybind \"HYPER+h\" is bound more than once");
}

#[test]
fn valid_keybinds_are_kept_in_name_order() {
    let mut raw = minimal_required();
    raw.builtin_keybinds = vec![
        builtin("hyper+shift+h", "resize_left"),
        builtin("hyper+h", "move_left"),
        builtin("hyper+t", "auto_tile"),
    ];
    raw.script_keybinds = vec![script("hyper+n", "new_note.sh", ScriptFileStatus::Executable)];
    let settings = validate(raw, "/cfg").unwrap();
    let builtin: Vec<(String, Action)> = settings
        .keybinds
        .builtin
        .iter()
        .map(|(k, a)| (k.to_display_string(), *a))
        .collect();
    assert_eq!(
        builtin,
        vec![
            ("hyper+h".to_string(), Action::MoveLeft),
            ("hyper+shift+h".to_string(), Action::ResizeLeft),
            ("hyper+t".to_string(), Action::AutoTile),
        ]
    );
    assert_eq!(settings.keybinds.scripts.len(), 1);
}

#[test]
fn error_messages_match_the_documentation() {
    let e = ConfigError::UnknownAction {
        keybind: "hyper+f".to_string(),
        action: "float_toggle".to_string(),
    };
    assert_eq!(e.message(), "keybind \"hyper+f\" is bound to unknown action \"float_toggle\"");
    let e = ConfigError::ScriptNotFound {
        keybind: "hyper+g".to_string(),
        script: "toggle_ghostty.sh".to_string(),
        path: "/Users/you/.config/hyperwm/scripts/toggle_ghostty.sh".to_string(),
    };
    assert_eq!(
        e.message(),
        "keybind \"hyper+g\" references script \"toggle_ghostty.sh\", which doesn't exist at \
         /Users/you/.config/hyperwm/scripts/toggle_ghostty.sh"
    );
    let e = ConfigError::ScriptNotExecutable {
        keybind: "hyper+g".to_string(),
        script: "x.sh".to_string(),
        path: "/s/x.sh".to_string(),
    };
    assert_eq!(
        e.message(),
        "keybind \"hyper+g\" references script \"x.sh\" at /s/x.sh, which exists but isn't \
         executable (missing the executable bit)"
    );
    let e = ConfigError::InvalidKeybind {
        raw: "hyper+cmd+h".to_string(),
        reason: KeybindSyntaxError::UnknownModifier("cmd".to_string()),
    };
    assert_eq!(
        e.message(),
        "invalid keybind \"hyper+cmd+h\": unknown modifier \"cmd\" (only \"shift\" is supported)"
    );
}

#[test]
fn join_follows_unix_path_rules() {
    assert_eq!(hyperwm::join("/a/b", "c.sh"), "/a/b/c.sh");
    assert_eq!(hyperwm::join("/a/b/", "c.sh"), "/a/b/c.sh");
    assert_eq!(hyperwm::join("/a/b", "/abs/c.sh"), "/abs/c.sh");
    assert_eq!(hyperwm::join("", "c.sh"), "c.sh");
}

#[test]
fn name_order_is_by_character() {
    assert!(hyperwm::name_precedes("hyper+a", "hyper+b"));
    assert!(hyperwm::name_precedes("hyper+a", "hyper+a"));
    assert!(!hyperwm::name_precedes("hyper+b", "hyper+a"));
    assert!(hyperwm::name_precedes("hyper", "hyper+a"));
    assert!(hyperwm::name_precedes("HYPER+h", "hyper+h"));
    let names: Vec<String> =
        ["c", "a", "b", "a"].iter().map(|s| s.to_string()).collect();
    assert_eq!(hyperwm::order_by_name(&names), vec![3, 1, 2, 0]);
}

#[test]
fn key_aliases_are_one_binding_across_tables() {
    // `return` and `enter` are one key (keycode 0x24): binding one to an
    // action and the other to a script would route that key twice.
    let mut raw = minimal_required();
    raw.builtin_keybinds = vec![builtin("hyper+return", "toggle_float")];
    raw.script_keybinds = vec![script("hyper+enter", "x.sh", ScriptFileStatus::Executable)];
    match validate(raw, "/cfg").unwrap_err() {
        ConfigError::DuplicateKeybind { keybind } => assert_eq!(keybind, "hyper+return"),
        other => panic!("expected DuplicateKeybind, got {other:?}"),
    }
}

#[test]
fn key_aliases_are_one_binding_within_a_table() {
    let mut raw = minimal_required();
    raw.builtin_keybinds =
        vec![builtin("hyper+delete", "move_left"), builtin("hyper+backspace", "move_right")];
    // "hyper+backspace" sorts first, so "hyper+delete" is the duplicate.
    assert_eq!(
        validate(raw, "/cfg").unwrap_err(),
        ConfigError::DuplicateKeybind { keybind: "hyper+backspace".to_string() }
    );
}

#[test]
fn aliases_with_different_shift_are_distinct() {
    let mut raw = minimal_required();
    raw.builtin_keybinds =
        vec![builtin("hyper+return", "toggle_float"), builtin("hyper+shift+enter", "maximize")];
    assert!(validate(raw, "/cfg").is_ok());
}
