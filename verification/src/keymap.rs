//! `hyperwm install-keymap`: remapping Caps Lock onto the hyper key with
//! `hidutil`. Only `f1`..`f20` are automated targets -- the range that has
//! macOS keycodes; remapping Caps Lock onto a key that types something would
//! silently take that key away everywhere.
use crate::keybind::{fkey_number, function_key_number};
use crate::text::{chars_of, hex, hex_chars, owned, push_str, string_of};
use vstd::prelude::*;

verus! {

/// The USB HID usage page for Keyboard/Keypad (0x07), shifted into the
/// 64-bit form `hidutil`'s `UserKeyMapping` expects (`page << 32 | usage`).
pub const KEYBOARD_PAGE: u64 = 0x7_0000_0000;

/// Caps Lock's usage on the Keyboard/Keypad page.
pub const CAPS_LOCK_USAGE_ID: u64 = 0x39;

/// The HID usage of function key `f<n>` on the Keyboard/Keypad page: F1-F12
/// sit at 0x3A-0x45, F13-F20 at 0x68-0x6F.
pub open spec fn fkey_usage(n: nat) -> Option<u64> {
    if 1 <= n && n <= 12 {
        Some((0x3A + (n - 1)) as u64)
    } else if 13 <= n && n <= 20 {
        Some((0x68 + (n - 13)) as u64)
    } else {
        None
    }
}

/// The HID usage of the function key named `key_name` (`f1`..`f20`), if it
/// is one.
pub fn function_key_usage_id(key_name: &str) -> (r: Option<u64>)
    ensures
        r == (match fkey_number(key_name@) {
            Some(n) => fkey_usage(n),
            None => None,
        }),
{
    let cs = chars_of(key_name);
    match function_key_number(&cs) {
        Some(n) => {
            if 1 <= n && n <= 12 {
                Some(0x3A + ((n - 1) as u64))
            } else if 13 <= n && n <= 20 {
                Some(0x68 + ((n - 13) as u64))
            } else {
                None
            }
        },
        None => None,
    }
}

/// The `hidutil property --set` JSON remapping Caps Lock onto `target`.
pub open spec fn hidutil_text(target: u64) -> Seq<char> {
    "{\"UserKeyMapping\":[{\"HIDKeyboardModifierMappingSrc\":0x"@ + hex(
        (KEYBOARD_PAGE + CAPS_LOCK_USAGE_ID) as nat,
    ) + ",\"HIDKeyboardModifierMappingDst\":0x"@ + hex((KEYBOARD_PAGE + target) as nat)
        + "}]}"@
}

/// The `hidutil` JSON for remapping Caps Lock onto the key with usage
/// `target_usage_id`.
pub fn hidutil_json(target_usage_id: u64) -> (r: String)
    requires
        target_usage_id <= u64::MAX - KEYBOARD_PAGE,
    ensures
        r@ == hidutil_text(target_usage_id),
{
    let mut r = owned("{\"UserKeyMapping\":[{\"HIDKeyboardModifierMappingSrc\":0x");
    let src = string_of(&hex_chars(KEYBOARD_PAGE + CAPS_LOCK_USAGE_ID));
    push_str(&mut r, src.as_str());
    push_str(&mut r, ",\"HIDKeyboardModifierMappingDst\":0x");
    let dst = string_of(&hex_chars(KEYBOARD_PAGE + target_usage_id));
    push_str(&mut r, dst.as_str());
    push_str(&mut r, "}]}");
    r
}

/// The command line the login agent runs to reapply the remap.
pub fn keymap_program_args(json: &str) -> (args: Vec<String>)
    ensures
        args@.map_values(|s: String| s@) == seq![
            "/usr/bin/hidutil"@,
            "property"@,
            "--set"@,
            json@,
        ],
{
    let mut args: Vec<String> = Vec::new();
    args.push(owned("/usr/bin/hidutil"));
    args.push(owned("property"));
    args.push(owned("--set"));
    args.push(owned(json));
    proof {
        assert(args@.map_values(|s: String| s@) =~= seq![
            "/usr/bin/hidutil"@,
            "property"@,
            "--set"@,
            json@,
        ]);
    }
    args
}

} // verus!
