use hyperwm::{is_known_key_name, parse_keybind, KeyName, Keybind, KeybindSyntaxError};

fn parsed(raw: &str) -> (bool, String) {
    let kb: Keybind = parse_keybind(raw).expect("valid keybind");
    (kb.shift, kb.key.as_str().to_string())
}

#[test]
fn plain_and_shifted_keybinds_parse() {
    assert_eq!(parsed("hyper+h"), (false, "h".to_string()));
    assert_eq!(parsed("hyper+shift+h"), (true, "h".to_string()));
    assert_eq!(parsed("hyper+f18"), (false, "f18".to_string()));
    assert_eq!(parsed("hyper+leftbracket"), (false, "leftbracket".to_string()));
}

#[test]
fn keybinds_are_case_insensitive() {
    assert_eq!(parsed("HYPER+H"), parsed("hyper+h"));
    assert_eq!(parsed("Hyper+SHIFT+Space"), (true, "space".to_string()));
}

#[test]
fn each_syntax_error_is_specific() {
    assert_eq!(parse_keybind(""), Err(KeybindSyntaxError::Empty));
    assert_eq!(parse_keybind("   "), Err(KeybindSyntaxError::Empty));
    assert_eq!(parse_keybind("ctrl+h"), Err(KeybindSyntaxError::MissingHyperPrefix));
    assert_eq!(parse_keybind("h"), Err(KeybindSyntaxError::MissingHyperPrefix));
    assert_eq!(parse_keybind("hyper"), Err(KeybindSyntaxError::MissingKey));
    assert_eq!(parse_keybind("hyper+"), Err(KeybindSyntaxError::MissingKey));
    assert_eq!(parse_keybind("hyper+shift+"), Err(KeybindSyntaxError::MissingKey));
    assert_eq!(
        parse_keybind("hyper+cmd+h"),
        Err(KeybindSyntaxError::UnknownModifier("cmd".to_string()))
    );
    assert_eq!(
        parse_keybind("hyper+fn"),
        Err(KeybindSyntaxError::UnknownKeyName("fn".to_string()))
    );
    assert_eq!(parse_keybind("hyper+shift+h+j"), Err(KeybindSyntaxError::TooManyParts));
    assert_eq!(parse_keybind("h+shift+h"), Err(KeybindSyntaxError::MissingHyperPrefix));
}

#[test]
fn syntax_error_messages() {
    assert_eq!(KeybindSyntaxError::Empty.message(), "keybind is empty");
    assert_eq!(
        KeybindSyntaxError::MissingHyperPrefix.message(),
        "keybind must start with \"hyper+\""
    );
    assert_eq!(
        KeybindSyntaxError::UnknownModifier("cmd".to_string()).message(),
        "unknown modifier \"cmd\" (only \"shift\" is supported)"
    );
    assert_eq!(
        KeybindSyntaxError::UnknownKeyName("fn".to_string()).message(),
        "unknown key name \"fn\""
    );
    assert_eq!(
        KeybindSyntaxError::MissingKey.message(),
        "keybind has no key after the modifiers"
    );
    assert_eq!(
        KeybindSyntaxError::TooManyParts.message(),
        "keybind has too many \"+\"-separated parts"
    );
}

#[test]
fn display_text_parses_back() {
    for raw in ["hyper+h", "hyper+shift+h", "hyper+f24", "hyper+shift+grave", "hyper+0"] {
        let kb = parse_keybind(raw).unwrap();
        let text = kb.to_display_string();
        assert_eq!(text, raw);
        assert_eq!(parse_keybind(&text).unwrap(), kb);
    }
    let kb = parse_keybind("HYPER+Shift+Q").unwrap();
    assert_eq!(kb.to_display_string(), "hyper+shift+q");
}

#[test]
fn key_names_follow_the_documented_set() {
    for ok in ["a", "z", "0", "9", "f1", "f9", "f10", "f24", "space", "grave", "backslash"] {
        assert!(KeyName::parse(ok).is_some(), "{ok}");
    }
    for bad in ["", "f", "f0", "f25", "f01", "fn", "ab", "é", "+", "spaces", "f100"] {
        let expected_known = bad == "f";
        assert_eq!(KeyName::parse(bad).is_some(), expected_known, "{bad}");
    }
    assert_eq!(KeyName::parse("SPACE").unwrap().as_str(), "space");
    let chars: Vec<char> = "tab".chars().collect();
    assert!(is_known_key_name(&chars));
}

#[test]
fn same_binding_compares_by_shift_and_key() {
    let a = parse_keybind("hyper+h").unwrap();
    let b = parse_keybind("HYPER+H").unwrap();
    let c = parse_keybind("hyper+shift+h").unwrap();
    assert!(a.same_as(&b));
    assert!(!a.same_as(&c));
    assert_eq!(a.clone(), b);
}
