use hyperwm::{
    lookup, validate, Action, FloatCheck, RawSettings, Router, ScriptBinding, ScriptFileStatus,
};

fn settings(builtin: Vec<(&str, &str)>, scripts: Vec<(&str, &str)>) -> RawSettings {
    RawSettings {
        watch_keycode: Some("f18".to_string()),
        max_tiled_windows: None,
        split_ratio_default: FloatCheck::Valid,
        insert_heuristic: None,
        resize_step: FloatCheck::Valid,
        resize_min_ratio: FloatCheck::Valid,
        resize_max_ratio: FloatCheck::Valid,
        resize_order: FloatCheck::Valid,
        gaps_outer: Some(FloatCheck::Valid),
        gaps_inner: Some(FloatCheck::Valid),
        always_float_apps: Vec::new(),
        new_float_placement: None,
        float_move_step: FloatCheck::Valid,
        scripts_dir: None,
        builtin_keybinds: builtin
            .into_iter()
            .map(|(k, a)| (k.to_string(), a.to_string()))
            .collect(),
        script_keybinds: scripts
            .into_iter()
            .map(|(k, s)| ScriptBinding {
                keybind: k.to_string(),
                script: s.to_string(),
                status: ScriptFileStatus::Executable,
            })
            .collect(),
    }
}

fn router(builtin: Vec<(&str, &str)>, scripts: Vec<(&str, &str)>) -> Router {
    let valid = validate(settings(builtin, scripts), "/cfg").expect("test config should be valid");
    Router::build(&valid.keybinds, &valid.scripts.dir)
}

#[test]
fn script_keybind_resolves_to_its_full_path() {
    let router = router(vec![], vec![("hyper+g", "toggle_ghostty.sh")]);
    let keycode = lookup("g").unwrap();
    assert_eq!(
        router.script_for(keycode, false),
        Some("/cfg/scripts/toggle_ghostty.sh".to_string())
    );
    assert_eq!(router.action_for(keycode, false), None);
}

#[test]
fn builtin_and_script_keybinds_do_not_collide() {
    let router = router(vec![("hyper+f", "toggle_float")], vec![("hyper+n", "new_note.sh")]);
    let f = lookup("f").unwrap();
    let n = lookup("n").unwrap();

    assert_eq!(router.action_for(f, false), Some(Action::ToggleFloat));
    assert_eq!(router.script_for(f, false), None);
    assert!(router.script_for(n, false).is_some());
    assert_eq!(router.action_for(n, false), None);
}

#[test]
fn unbound_keycode_resolves_to_neither() {
    let router = router(vec![], vec![]);
    let h = lookup("h").unwrap();

    assert_eq!(router.action_for(h, false), None);
    assert_eq!(router.script_for(h, false), None);
}

#[test]
fn shift_is_part_of_the_route() {
    let router = router(vec![("hyper+h", "move_left"), ("hyper+shift+h", "resize_left")], vec![]);
    let h = lookup("h").unwrap();
    assert_eq!(router.action_for(h, false), Some(Action::MoveLeft));
    assert_eq!(router.action_for(h, true), Some(Action::ResizeLeft));
}

#[test]
fn keys_without_a_keycode_are_skipped() {
    let router = router(vec![("hyper+f21", "maximize"), ("hyper+m", "maximize")], vec![]);
    let skipped: Vec<String> = router.skipped().iter().map(|k| k.to_display_string()).collect();
    assert_eq!(skipped, vec!["hyper+f21".to_string()]);
    assert_eq!(router.action_for(lookup("m").unwrap(), false), Some(Action::Maximize));
}
