use hyperwm::{function_key_usage_id, hidutil_json, keymap_program_args, lookup, KeyName};

#[test]
fn known_keys_resolve() {
    assert_eq!(lookup("f18"), Some(0x4F));
    assert_eq!(lookup("a"), Some(0x00));
    assert_eq!(lookup("space"), Some(0x31));
}

#[test]
fn unassigned_function_keys_are_none() {
    assert_eq!(lookup("f21"), None);
    assert_eq!(lookup("f24"), None);
}

#[test]
fn unknown_name_is_none() {
    assert_eq!(lookup("bogus"), None);
}

#[test]
fn aliases_share_a_keycode() {
    assert_eq!(lookup("return"), Some(0x24));
    assert_eq!(lookup("enter"), Some(0x24));
    assert_eq!(lookup("delete"), Some(0x33));
    assert_eq!(lookup("backspace"), Some(0x33));
}

#[test]
fn digits_and_function_keys_resolve() {
    assert_eq!(lookup("0"), Some(0x1D));
    assert_eq!(lookup("9"), Some(0x19));
    assert_eq!(lookup("f1"), Some(0x7A));
    assert_eq!(lookup("f20"), Some(0x5A));
    assert_eq!(lookup("F18"), None);
    assert_eq!(lookup("f0"), None);
}

#[test]
fn every_known_key_but_f21_to_f24_has_a_keycode() {
    let mut names: Vec<String> = Vec::new();
    for c in 'a'..='z' {
        names.push(c.to_string());
    }
    for c in '0'..='9' {
        names.push(c.to_string());
    }
    for n in 1..=24 {
        names.push(format!("f{n}"));
    }
    for n in [
        "space", "tab", "escape", "return", "enter", "delete", "backspace", "up", "down", "left",
        "right", "minus", "equal", "comma", "period", "slash", "semicolon", "quote",
        "leftbracket", "rightbracket", "backslash", "grave",
    ] {
        names.push(n.to_string());
    }
    for name in &names {
        let key = KeyName::parse(name).expect("documented key name");
        let unassigned = ["f21", "f22", "f23", "f24"].contains(&name.as_str());
        assert_eq!(lookup(key.as_str()).is_none(), unassigned, "{name}");
    }
}

#[test]
fn function_key_usage_ids() {
    assert_eq!(function_key_usage_id("f1"), Some(0x3A));
    assert_eq!(function_key_usage_id("f12"), Some(0x45));
    assert_eq!(function_key_usage_id("f13"), Some(0x68));
    assert_eq!(function_key_usage_id("f18"), Some(0x6D));
    assert_eq!(function_key_usage_id("f20"), Some(0x6F));
    assert_eq!(function_key_usage_id("f21"), None);
    assert_eq!(function_key_usage_id("a"), None);
    assert_eq!(function_key_usage_id("space"), None);
}

#[test]
fn hidutil_json_maps_caps_lock_onto_the_target() {
    assert_eq!(
        hidutil_json(0x6D),
        "{\"UserKeyMapping\":[{\"HIDKeyboardModifierMappingSrc\":0x700000039,\
         \"HIDKeyboardModifierMappingDst\":0x70000006D}]}"
    );
    let args = keymap_program_args("{}");
    assert_eq!(args, vec!["/usr/bin/hidutil", "property", "--set", "{}"]);
}

#[test]
fn keycodes_are_distinct_apart_from_aliases() {
    let mut names: Vec<String> = ('a'..='z').chain('0'..='9').map(|c| c.to_string()).collect();
    for n in 1..=20 {
        names.push(format!("f{n}"));
    }
    for n in [
        "space", "tab", "escape", "return", "enter", "delete", "backspace", "up", "down", "left",
        "right", "minus", "equal", "comma", "period", "slash", "semicolon", "quote",
        "leftbracket", "rightbracket", "backslash", "grave",
    ] {
        names.push(n.to_string());
    }
    let canonical = |s: &str| match s {
        "enter" => "return".to_string(),
        "backspace" => "delete".to_string(),
        other => other.to_string(),
    };
    for a in &names {
        for b in &names {
            if lookup(a) == lookup(b) {
                assert_eq!(canonical(a), canonical(b), "{a} and {b}");
            }
        }
    }
}
