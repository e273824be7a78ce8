//! macOS virtual keycodes (`CGKeyCode`, Carbon's `kVK_*` constants) for
//! the key names the configuration accepts, so `hyperkey.watch_keycode` and
//! keybinds can be matched against what a keyboard event tap reports.
//!
//! The table is independent of keyboard layout: it is the physical ANSI-US
//! key position, as the `kVK_*` constants themselves are.
use crate::keybind::{
    fkey_number, function_key_number, is_known_key, is_named_key, lemma_named_key_shape,
};
use crate::text::is_ascii_lower_letter;
use crate::text::{chars_equal, chars_of};
use vstd::prelude::*;

verus! {

/// The keycode of a single-character key name.
pub open spec fn char_key_code(c: char) -> Option<u16> {
    if c == 'a' {
        Some(0x00u16)
    } else if c == 'b' {
        Some(0x0Bu16)
    } else if c == 'c' {
        Some(0x08u16)
    } else if c == 'd' {
        Some(0x02u16)
    } else if c == 'e' {
        Some(0x0Eu16)
    } else if c == 'f' {
        Some(0x03u16)
    } else if c == 'g' {
        Some(0x05u16)
    } else if c == 'h' {
        Some(0x04u16)
    } else if c == 'i' {
        Some(0x22u16)
    } else if c == 'j' {
        Some(0x26u16)
    } else if c == 'k' {
        Some(0x28u16)
    } else if c == 'l' {
        Some(0x25u16)
    } else if c == 'm' {
        Some(0x2Eu16)
    } else if c == 'n' {
        Some(0x2Du16)
    } else if c == 'o' {
        Some(0x1Fu16)
    } else if c == 'p' {
        Some(0x23u16)
    } else if c == 'q' {
        Some(0x0Cu16)
    } else if c == 'r' {
        Some(0x0Fu16)
    } else if c == 's' {
        Some(0x01u16)
    } else if c == 't' {
        Some(0x11u16)
    } else if c == 'u' {
        Some(0x20u16)
    } else if c == 'v' {
        Some(0x09u16)
    } else if c == 'w' {
        Some(0x0Du16)
    } else if c == 'x' {
        Some(0x07u16)
    } else if c == 'y' {
        Some(0x10u16)
    } else if c == 'z' {
        Some(0x06u16)
    } else if c == '0' {
        Some(0x1Du16)
    } else if c == '1' {
        Some(0x12u16)
    } else if c == '2' {
        Some(0x13u16)
    } else if c == '3' {
        Some(0x14u16)
    } else if c == '4' {
        Some(0x15u16)
    } else if c == '5' {
        Some(0x17u16)
    } else if c == '6' {
        Some(0x16u16)
    } else if c == '7' {
        Some(0x1Au16)
    } else if c == '8' {
        Some(0x1Cu16)
    } else if c == '9' {
        Some(0x19u16)
    } else {
        None
    }
}

/// The keycode of function key `f<n>`. Apple defines `kVK_*` constants only
/// up to F20.
pub open spec fn fkey_code(n: nat) -> Option<u16> {
    if n == 1 {
        Some(0x7Au16)
    } else if n == 2 {
        Some(0x78u16)
    } else if n == 3 {
        Some(0x63u16)
    } else if n == 4 {
        Some(0x76u16)
    } else if n == 5 {
        Some(0x60u16)
    } else if n == 6 {
        Some(0x61u16)
    } else if n == 7 {
        Some(0x62u16)
    } else if n == 8 {
        Some(0x64u16)
    } else if n == 9 {
        Some(0x65u16)
    } else if n == 10 {
        Some(0x6Du16)
    } else if n == 11 {
        Some(0x67u16)
    } else if n == 12 {
        Some(0x6Fu16)
    } else if n == 13 {
        Some(0x69u16)
    } else if n == 14 {
        Some(0x6Bu16)
    } else if n == 15 {
        Some(0x71u16)
    } else if n == 16 {
        Some(0x6Au16)
    } else if n == 17 {
        Some(0x40u16)
    } else if n == 18 {
        Some(0x4Fu16)
    } else if n == 19 {
        Some(0x50u16)
    } else if n == 20 {
        Some(0x5Au16)
    } else {
        None
    }
}

/// The keycode of a named key.
pub open spec fn named_key_code(s: Seq<char>) -> Option<u16> {
    if s == "space"@ {
        Some(0x31u16)
    } else if s == "tab"@ {
        Some(0x30u16)
    } else if s == "escape"@ {
        Some(0x35u16)
    } else if s == "return"@ {
        Some(0x24u16)
    } else if s == "enter"@ {
        Some(0x24u16)
    } else if s == "delete"@ {
        Some(0x33u16)
    } else if s == "backspace"@ {
        Some(0x33u16)
    } else if s == "up"@ {
        Some(0x7Eu16)
    } else if s == "down"@ {
        Some(0x7Du16)
    } else if s == "left"@ {
        Some(0x7Bu16)
    } else if s == "right"@ {
        Some(0x7Cu16)
    } else if s == "minus"@ {
        Some(0x1Bu16)
    } else if s == "equal"@ {
        Some(0x18u16)
    } else if s == "comma"@ {
        Some(0x2Bu16)
    } else if s == "period"@ {
        Some(0x2Fu16)
    } else if s == "slash"@ {
        Some(0x2Cu16)
    } else if s == "semicolon"@ {
        Some(0x29u16)
    } else if s == "quote"@ {
        Some(0x27u16)
    } else if s == "leftbracket"@ {
        Some(0x21u16)
    } else if s == "rightbracket"@ {
        Some(0x1Eu16)
    } else if s == "backslash"@ {
        Some(0x2Au16)
    } else if s == "grave"@ {
        Some(0x32u16)
    } else {
        None
    }
}

/// The keycode of the key named `s`, if it has one.
pub open spec fn key_code(s: Seq<char>) -> Option<u16> {
    if s.len() == 1 {
        char_key_code(s[0])
    } else {
        match fkey_number(s) {
            Some(n) => fkey_code(n),
            None => named_key_code(s),
        }
    }
}

fn char_code(c: char) -> (r: Option<u16>)
    ensures
        r == char_key_code(c),
{
    if c == 'a' {
        Some(0x00u16)
    } else if c == 'b' {
        Some(0x0Bu16)
    } else if c == 'c' {
        Some(0x08u16)
    } else if c == 'd' {
        Some(0x02u16)
    } else if c == 'e' {
        Some(0x0Eu16)
    } else if c == 'f' {
        Some(0x03u16)
    } else if c == 'g' {
        Some(0x05u16)
    } else if c == 'h' {
        Some(0x04u16)
    } else if c == 'i' {
        Some(0x22u16)
    } else if c == 'j' {
        Some(0x26u16)
    } else if c == 'k' {
        Some(0x28u16)
    } else if c == 'l' {
        Some(0x25u16)
    } else if c == 'm' {
        Some(0x2Eu16)
    } else if c == 'n' {
        Some(0x2Du16)
    } else if c == 'o' {
        Some(0x1Fu16)
    } else if c == 'p' {
        Some(0x23u16)
    } else if c == 'q' {
        Some(0x0Cu16)
    } else if c == 'r' {
        Some(0x0Fu16)
    } else if c == 's' {
        Some(0x01u16)
    } else if c == 't' {
        Some(0x11u16)
    } else if c == 'u' {
        Some(0x20u16)
    } else if c == 'v' {
        Some(0x09u16)
    } else if c == 'w' {
        Some(0x0Du16)
    } else if c == 'x' {
        Some(0x07u16)
    } else if c == 'y' {
        Some(0x10u16)
    } else if c == 'z' {
        Some(0x06u16)
    } else if c == '0' {
        Some(0x1Du16)
    } else if c == '1' {
        Some(0x12u16)
    } else if c == '2' {
        Some(0x13u16)
    } else if c == '3' {
        Some(0x14u16)
    } else if c == '4' {
        Some(0x15u16)
    } else if c == '5' {
        Some(0x17u16)
    } else if c == '6' {
        Some(0x16u16)
    } else if c == '7' {
        Some(0x1Au16)
    } else if c == '8' {
        Some(0x1Cu16)
    } else if c == '9' {
        Some(0x19u16)
    } else {
        None
    }
}

fn function_code(n: u32) -> (r: Option<u16>)
    ensures
        r == fkey_code(n as nat),
{
    if n == 1 {
        Some(0x7Au16)
    } else if n == 2 {
        Some(0x78u16)
    } else if n == 3 {
        Some(0x63u16)
    } else if n == 4 {
        Some(0x76u16)
    } else if n == 5 {
        Some(0x60u16)
    } else if n == 6 {
        Some(0x61u16)
    } else if n == 7 {
        Some(0x62u16)
    } else if n == 8 {
        Some(0x64u16)
    } else if n == 9 {
        Some(0x65u16)
    } else if n == 10 {
        Some(0x6Du16)
    } else if n == 11 {
        Some(0x67u16)
    } else if n == 12 {
        Some(0x6Fu16)
    } else if n == 13 {
        Some(0x69u16)
    } else if n == 14 {
        Some(0x6Bu16)
    } else if n == 15 {
        Some(0x71u16)
    } else if n == 16 {
        Some(0x6Au16)
    } else if n == 17 {
        Some(0x40u16)
    } else if n == 18 {
        Some(0x4Fu16)
    } else if n == 19 {
        Some(0x50u16)
    } else if n == 20 {
        Some(0x5Au16)
    } else {
        None
    }
}

fn named_code(name: &Vec<char>) -> (r: Option<u16>)
    ensures
        r == named_key_code(name@),
{
    if chars_equal(name, "space") {
        Some(0x31u16)
    } else if chars_equal(name, "tab") {
        Some(0x30u16)
    } else if chars_equal(name, "escape") {
        Some(0x35u16)
    } else if chars_equal(name, "return") {
        Some(0x24u16)
    } else if chars_equal(name, "enter") {
        Some(0x24u16)
    } else if chars_equal(name, "delete") {
        Some(0x33u16)
    } else if chars_equal(name, "backspace") {
        Some(0x33u16)
    } else if chars_equal(name, "up") {
        Some(0x7Eu16)
    } else if chars_equal(name, "down") {
        Some(0x7Du16)
    } else if chars_equal(name, "left") {
        Some(0x7Bu16)
    } else if chars_equal(name, "right") {
        Some(0x7Cu16)
    } else if chars_equal(name, "minus") {
        Some(0x1Bu16)
    } else if chars_equal(name, "equal") {
        Some(0x18u16)
    } else if chars_equal(name, "comma") {
        Some(0x2Bu16)
    } else if chars_equal(name, "period") {
        Some(0x2Fu16)
    } else if chars_equal(name, "slash") {
        Some(0x2Cu16)
    } else if chars_equal(name, "semicolon") {
        Some(0x29u16)
    } else if chars_equal(name, "quote") {
        Some(0x27u16)
    } else if chars_equal(name, "leftbracket") {
        Some(0x21u16)
    } else if chars_equal(name, "rightbracket") {
        Some(0x1Eu16)
    } else if chars_equal(name, "backslash") {
        Some(0x2Au16)
    } else if chars_equal(name, "grave") {
        Some(0x32u16)
    } else {
        None
    }
}

/// Looks up the `CGKeyCode` for a key name (expected lower case, as
/// `KeyName` stores it). `None` for anything else, including `f21` through
/// `f24`, which the configuration accepts but which have no macOS keycode.
pub fn lookup(name: &str) -> (r: Option<u16>)
    ensures
        r == key_code(name@),
{
    let cs = chars_of(name);
    if cs.len() == 1 {
        return char_code(cs[0]);
    }
    match function_key_number(&cs) {
        Some(n) => function_code(n),
        None => named_code(&cs),
    }
}

/// Every recognized key name has a keycode, except `f21` through `f24`.
pub proof fn law_known_keys_have_codes(s: Seq<char>)
    requires
        is_known_key(s),
    ensures
        key_code(s) is Some <==> !(fkey_number(s) matches Some(n) && 21 <= n <= 24),
{
    if is_named_key(s) {
        lemma_named_key_shape(s);
        if s.len() == 2 || s.len() == 3 {
            assert(is_ascii_lower_letter(s[1]));
        }
    }
}

/// The name `s` stands for: `enter` is another name for `return`, and
/// `backspace` for `delete`; every other name stands for itself.
pub open spec fn canonical_key(s: Seq<char>) -> Seq<char> {
    if s == "enter"@ {
        "return"@
    } else if s == "backspace"@ {
        "delete"@
    } else {
        s
    }
}

proof fn lemma_char_codes_distinct(c1: char, c2: char)
    requires
        char_key_code(c1) is Some,
        char_key_code(c1) == char_key_code(c2),
    ensures
        c1 == c2,
{
}

proof fn lemma_fkey_codes_distinct(n1: nat, n2: nat)
    requires
        fkey_code(n1) is Some,
        fkey_code(n1) == fkey_code(n2),
    ensures
        n1 == n2,
{
}

proof fn lemma_fkey_number_distinct(s1: Seq<char>, s2: Seq<char>)
    requires
        fkey_number(s1) is Some,
        fkey_number(s1) == fkey_number(s2),
    ensures
        s1 == s2,
{
    if s1.len() == 2 {
        assert(s2.len() == 2);
        assert(s1[1] as nat == s2[1] as nat);
        assert(s1 =~= s2);
    } else {
        assert(s2.len() == 3);
        assert(s1[1] as nat == s2[1] as nat);
        assert(s1[2] as nat == s2[2] as nat);
        assert(s1 =~= s2);
    }
}

proof fn lemma_named_codes_distinct(s1: Seq<char>, s2: Seq<char>)
    requires
        named_key_code(s1) is Some,
        named_key_code(s1) == named_key_code(s2),
    ensures
        canonical_key(s1) == canonical_key(s2),
{
    reveal_strlit("return");
    reveal_strlit("enter");
    reveal_strlit("delete");
    reveal_strlit("backspace");
}

/// Keycodes are distinct per key: two names with the same keycode are the
/// same key, either the same name or `return`/`enter` or
/// `delete`/`backspace`, which share one.
pub proof fn law_key_codes_distinct(s1: Seq<char>, s2: Seq<char>)
    requires
        key_code(s1) is Some,
        key_code(s1) == key_code(s2),
    ensures
        canonical_key(s1) == canonical_key(s2),
{
    if s1.len() == 1 && s2.len() == 1 {
        lemma_char_codes_distinct(s1[0], s2[0]);
        assert(s1 =~= s2);
    } else if s1.len() != 1 && s2.len() != 1 && fkey_number(s1) is Some && fkey_number(s2) is Some {
        lemma_fkey_codes_distinct(fkey_number(s1)->Some_0, fkey_number(s2)->Some_0);
        lemma_fkey_number_distinct(s1, s2);
    } else if s1.len() != 1 && s2.len() != 1 && fkey_number(s1) is None && fkey_number(s2) is None {
        lemma_named_codes_distinct(s1, s2);
    }
}

/// `return` and `enter` are one key, as are `delete` and `backspace`.
pub proof fn law_key_aliases()
    ensures
        key_code("return"@) == Some(0x24u16),
        key_code("enter"@) == Some(0x24u16),
        key_code("delete"@) == Some(0x33u16),
        key_code("backspace"@) == Some(0x33u16),
{
    reveal_strlit("return");
    reveal_strlit("enter");
    reveal_strlit("delete");
    reveal_strlit("backspace");
    reveal_strlit("space");
    reveal_strlit("tab");
    reveal_strlit("escape");
}

/// Carbon's virtual keycodes (`kVK_*` in `HIToolbox/Events.h`), in the
/// order of their values, each with the key name that stands for it:
/// `kVK_ANSI_A` = 0x00, `kVK_ANSI_S` = 0x01, ... `kVK_UpArrow` = 0x7E, then
/// the two aliases, `enter` for `kVK_Return` and `backspace` for
/// `kVK_Delete`.
pub open spec fn carbon_keycodes() -> Seq<(Seq<char>, u16)> {
    seq![
        (seq!['a'], 0x00u16),
        (seq!['s'], 0x01u16),
        (seq!['d'], 0x02u16),
        (seq!['f'], 0x03u16),
        (seq!['h'], 0x04u16),
        (seq!['g'], 0x05u16),
        (seq!['z'], 0x06u16),
        (seq!['x'], 0x07u16),
        (seq!['c'], 0x08u16),
        (seq!['v'], 0x09u16),
        (seq!['b'], 0x0Bu16),
        (seq!['q'], 0x0Cu16),
        (seq!['w'], 0x0Du16),
        (seq!['e'], 0x0Eu16),
        (seq!['r'], 0x0Fu16),
        (seq!['y'], 0x10u16),
        (seq!['t'], 0x11u16),
        (seq!['1'], 0x12u16),
        (seq!['2'], 0x13u16),
        (seq!['3'], 0x14u16),
        (seq!['4'], 0x15u16),
        (seq!['6'], 0x16u16),
        (seq!['5'], 0x17u16),
        ("equal"@, 0x18u16),
        (seq!['9'], 0x19u16),
        (seq!['7'], 0x1Au16),
        ("minus"@, 0x1Bu16),
        (seq!['8'], 0x1Cu16),
        (seq!['0'], 0x1Du16),
        ("rightbracket"@, 0x1Eu16),
        (seq!['o'], 0x1Fu16),
        (seq!['u'], 0x20u16),
        ("leftbracket"@, 0x21u16),
        (seq!['i'], 0x22u16),
        (seq!['p'], 0x23u16),
        ("return"@, 0x24u16),
        (seq!['l'], 0x25u16),
        (seq!['j'], 0x26u16),
        ("quote"@, 0x27u16),
        (seq!['k'], 0x28u16),
        ("semicolon"@, 0x29u16),
        ("backslash"@, 0x2Au16),
        ("comma"@, 0x2Bu16),
        ("slash"@, 0x2Cu16),
        (seq!['n'], 0x2Du16),
        (seq!['m'], 0x2Eu16),
        ("period"@, 0x2Fu16),
        ("tab"@, 0x30u16),
        ("space"@, 0x31u16),
        ("grave"@, 0x32u16),
        ("delete"@, 0x33u16),
        ("escape"@, 0x35u16),
        ("f17"@, 0x40u16),
        ("f18"@, 0x4Fu16),
        ("f19"@, 0x50u16),
        ("f20"@, 0x5Au16),
        ("f5"@, 0x60u16),
        ("f6"@, 0x61u16),
        ("f7"@, 0x62u16),
        ("f3"@, 0x63u16),
        ("f8"@, 0x64u16),
        ("f9"@, 0x65u16),
        ("f11"@, 0x67u16),
        ("f13"@, 0x69u16),
        ("f16"@, 0x6Au16),
        ("f14"@, 0x6Bu16),
        ("f10"@, 0x6Du16),
        ("f12"@, 0x6Fu16),
        ("f15"@, 0x71u16),
        ("f4"@, 0x76u16),
        ("f2"@, 0x78u16),
        ("f1"@, 0x7Au16),
        ("left"@, 0x7Bu16),
        ("right"@, 0x7Cu16),
        ("down"@, 0x7Du16),
        ("up"@, 0x7Eu16),
        ("enter"@, 0x24u16),
        ("backspace"@, 0x33u16),
    ]
}

/// Every key name gets the keycode Carbon's `kVK_*` table gives its key.
pub proof fn law_key_codes_match_carbon(i: int)
    requires
        0 <= i < carbon_keycodes().len(),
    ensures
        key_code(carbon_keycodes()[i].0) == Some(carbon_keycodes()[i].1),
{
    reveal_strlit("equal");
    reveal_strlit("minus");
    reveal_strlit("rightbracket");
    reveal_strlit("leftbracket");
    reveal_strlit("return");
    reveal_strlit("quote");
    reveal_strlit("semicolon");
    reveal_strlit("backslash");
    reveal_strlit("comma");
    reveal_strlit("slash");
    reveal_strlit("period");
    reveal_strlit("tab");
    reveal_strlit("space");
    reveal_strlit("grave");
    reveal_strlit("delete");
    reveal_strlit("escape");
    reveal_strlit("f17");
    reveal_strlit("f18");
    reveal_strlit("f19");
    reveal_strlit("f20");
    reveal_strlit("f5");
    reveal_strlit("f6");
    reveal_strlit("f7");
    reveal_strlit("f3");
    reveal_strlit("f8");
    reveal_strlit("f9");
    reveal_strlit("f11");
    reveal_strlit("f13");
    reveal_strlit("f16");
    reveal_strlit("f14");
    reveal_strlit("f10");
    reveal_strlit("f12");
    reveal_strlit("f15");
    reveal_strlit("f4");
    reveal_strlit("f2");
    reveal_strlit("f1");
    reveal_strlit("left");
    reveal_strlit("right");
    reveal_strlit("down");
    reveal_strlit("up");
    reveal_strlit("enter");
    reveal_strlit("backspace");
    assert(key_code(seq!['a']) == Some(0x00u16));
    assert(key_code(seq!['s']) == Some(0x01u16));
    assert(key_code(seq!['d']) == Some(0x02u16));
    assert(key_code(seq!['f']) == Some(0x03u16));
    assert(key_code(seq!['h']) == Some(0x04u16));
    assert(key_code(seq!['g']) == Some(0x05u16));
    assert(key_code(seq!['z']) == Some(0x06u16));
    assert(key_code(seq!['x']) == Some(0x07u16));
    assert(key_code(seq!['c']) == Some(0x08u16));
    assert(key_code(seq!['v']) == Some(0x09u16));
    assert(key_code(seq!['b']) == Some(0x0Bu16));
    assert(key_code(seq!['q']) == Some(0x0Cu16));
    assert(key_code(seq!['w']) == Some(0x0Du16));
    assert(key_code(seq!['e']) == Some(0x0Eu16));
    assert(key_code(seq!['r']) == Some(0x0Fu16));
    assert(key_code(seq!['y']) == Some(0x10u16));
    assert(key_code(seq!['t']) == Some(0x11u16));
    assert(key_code(seq!['1']) == Some(0x12u16));
    assert(key_code(seq!['2']) == Some(0x13u16));
    assert(key_code(seq!['3']) == Some(0x14u16));
    assert(key_code(seq!['4']) == Some(0x15u16));
    assert(key_code(seq!['6']) == Some(0x16u16));
    assert(key_code(seq!['5']) == Some(0x17u16));
    assert("equal"@[0] != "space"@[0] && "equal"@[1] != "enter"@[1] && "equal"@[0] != "right"@[0]
        && "equal"@[0] != "minus"@[0]);
    assert(key_code("equal"@) == Some(0x18u16));
    assert(key_code(seq!['9']) == Some(0x19u16));
    assert(key_code(seq!['7']) == Some(0x1Au16));
    assert(key_code("minus"@) == Some(0x1Bu16));
    assert(key_code(seq!['8']) == Some(0x1Cu16));
    assert(key_code(seq!['0']) == Some(0x1Du16));
    assert(key_code("rightbracket"@) == Some(0x1Eu16));
    assert(key_code(seq!['o']) == Some(0x1Fu16));
    assert(key_code(seq!['u']) == Some(0x20u16));
    assert(key_code("leftbracket"@) == Some(0x21u16));
    assert(key_code(seq!['i']) == Some(0x22u16));
    assert(key_code(seq!['p']) == Some(0x23u16));
    assert(key_code("return"@) == Some(0x24u16));
    assert(key_code(seq!['l']) == Some(0x25u16));
    assert(key_code(seq!['j']) == Some(0x26u16));
    assert(key_code("quote"@) == Some(0x27u16));
    assert(key_code(seq!['k']) == Some(0x28u16));
    assert(key_code("semicolon"@) == Some(0x29u16));
    assert("backslash"@[5] != "backspace"@[5] && "backslash"@[0] != "semicolon"@[0]);
    assert(key_code("backslash"@) == Some(0x2Au16));
    assert(key_code("comma"@) == Some(0x2Bu16));
    assert("slash"@[1] != "space"@[1] && "slash"@[0] != "enter"@[0] && "slash"@[0] != "right"@[0]
        && "slash"@[0] != "minus"@[0] && "slash"@[0] != "equal"@[0] && "slash"@[0] != "comma"@[0]);
    assert(key_code("slash"@) == Some(0x2Cu16));
    assert(key_code(seq!['n']) == Some(0x2Du16));
    assert(key_code(seq!['m']) == Some(0x2Eu16));
    assert(key_code("period"@) == Some(0x2Fu16));
    assert(key_code("tab"@) == Some(0x30u16));
    assert(key_code("space"@) == Some(0x31u16));
    assert(key_code("grave"@) == Some(0x32u16));
    assert(key_code("delete"@) == Some(0x33u16));
    assert(key_code("escape"@) == Some(0x35u16));
    assert(key_code("f17"@) == Some(0x40u16));
    assert(key_code("f18"@) == Some(0x4Fu16));
    assert(key_code("f19"@) == Some(0x50u16));
    assert(key_code("f20"@) == Some(0x5Au16));
    assert(key_code("f5"@) == Some(0x60u16));
    assert(key_code("f6"@) == Some(0x61u16));
    assert(key_code("f7"@) == Some(0x62u16));
    assert(key_code("f3"@) == Some(0x63u16));
    assert(key_code("f8"@) == Some(0x64u16));
    assert(key_code("f9"@) == Some(0x65u16));
    assert(key_code("f11"@) == Some(0x67u16));
    assert(key_code("f13"@) == Some(0x69u16));
    assert(key_code("f16"@) == Some(0x6Au16));
    assert(key_code("f14"@) == Some(0x6Bu16));
    assert(key_code("f10"@) == Some(0x6Du16));
    assert(key_code("f12"@) == Some(0x6Fu16));
    assert(key_code("f15"@) == Some(0x71u16));
    assert(key_code("f4"@) == Some(0x76u16));
    assert(key_code("f2"@) == Some(0x78u16));
    assert(key_code("f1"@) == Some(0x7Au16));
    assert(key_code("left"@) == Some(0x7Bu16));
    assert(key_code("right"@) == Some(0x7Cu16));
    assert(key_code("down"@) == Some(0x7Du16));
    assert(key_code("up"@) == Some(0x7Eu16));
    assert(key_code("enter"@) == Some(0x24u16));
    assert(key_code("backspace"@) == Some(0x33u16));
    let t = carbon_keycodes();
    assert forall|j: int| 0 <= j < t.len() implies key_code(#[trigger] t[j].0) == Some(t[j].1) by {
        if j == 0 {
            assert(t[j] == (seq!['a'], 0x00u16));
        } else if j == 1 {
            assert(t[j] == (seq!['s'], 0x01u16));
        } else if j == 2 {
            assert(t[j] == (seq!['d'], 0x02u16));
        } else if j == 3 {
            assert(t[j] == (seq!['f'], 0x03u16));
        } else if j == 4 {
            assert(t[j] == (seq!['h'], 0x04u16));
        } else if j == 5 {
            assert(t[j] == (seq!['g'], 0x05u16));
        } else if j == 6 {
            assert(t[j] == (seq!['z'], 0x06u16));
        } else if j == 7 {
            assert(t[j] == (seq!['x'], 0x07u16));
        } else if j == 8 {
            assert(t[j] == (seq!['c'], 0x08u16));
        } else if j == 9 {
            assert(t[j] == (seq!['v'], 0x09u16));
        } else if j == 10 {
            assert(t[j] == (seq!['b'], 0x0Bu16));
        } else if j == 11 {
            assert(t[j] == (seq!['q'], 0x0Cu16));
        } else if j == 12 {
            assert(t[j] == (seq!['w'], 0x0Du16));
        } else if j == 13 {
            assert(t[j] == (seq!['e'], 0x0Eu16));
        } else if j == 14 {
            assert(t[j] == (seq!['r'], 0x0Fu16));
        } else if j == 15 {
            assert(t[j] == (seq!['y'], 0x10u16));
        } else if j == 16 {
            assert(t[j] == (seq!['t'], 0x11u16));
        } else if j == 17 {
            assert(t[j] == (seq!['1'], 0x12u16));
        } else if j == 18 {
            assert(t[j] == (seq!['2'], 0x13u16));
        } else if j == 19 {
            assert(t[j] == (seq!['3'], 0x14u16));
        } else if j == 20 {
            assert(t[j] == (seq!['4'], 0x15u16));
        } else if j == 21 {
            assert(t[j] == (seq!['6'], 0x16u16));
        } else if j == 22 {
            assert(t[j] == (seq!['5'], 0x17u16));
        } else if j == 23 {
            assert(t[j] == ("equal"@, 0x18u16));
        } else if j == 24 {
            assert(t[j] == (seq!['9'], 0x19u16));
        } else if j == 25 {
            assert(t[j] == (seq!['7'], 0x1Au16));
        } else if j == 26 {
            assert(t[j] == ("minus"@, 0x1Bu16));
        } else if j == 27 {
            assert(t[j] == (seq!['8'], 0x1Cu16));
        } else if j == 28 {
            assert(t[j] == (seq!['0'], 0x1Du16));
        } else if j == 29 {
            assert(t[j] == ("rightbracket"@, 0x1Eu16));
        } else if j == 30 {
            assert(t[j] == (seq!['o'], 0x1Fu16));
        } else if j == 31 {
            assert(t[j] == (seq!['u'], 0x20u16));
        } else if j == 32 {
            assert(t[j] == ("leftbracket"@, 0x21u16));
        } else if j == 33 {
            assert(t[j] == (seq!['i'], 0x22u16));
        } else if j == 34 {
            assert(t[j] == (seq!['p'], 0x23u16));
        } else if j == 35 {
            assert(t[j] == ("return"@, 0x24u16));
        } else if j == 36 {
            assert(t[j] == (seq!['l'], 0x25u16));
        } else if j == 37 {
            assert(t[j] == (seq!['j'], 0x26u16));
        } else if j == 38 {
            assert(t[j] == ("quote"@, 0x27u16));
        } else if j == 39 {
            assert(t[j] == (seq!['k'], 0x28u16));
        } else if j == 40 {
            assert(t[j] == ("semicolon"@, 0x29u16));
        } else if j == 41 {
            assert(t[j] == ("backslash"@, 0x2Au16));
        } else if j == 42 {
            assert(t[j] == ("comma"@, 0x2Bu16));
        } else if j == 43 {
            assert(t[j] == ("slash"@, 0x2Cu16));
        } else if j == 44 {
            assert(t[j] == (seq!['n'], 0x2Du16));
        } else if j == 45 {
            assert(t[j] == (seq!['m'], 0x2Eu16));
        } else if j == 46 {
            assert(t[j] == ("period"@, 0x2Fu16));
        } else if j == 47 {
            assert(t[j] == ("tab"@, 0x30u16));
        } else if j == 48 {
            assert(t[j] == ("space"@, 0x31u16));
        } else if j == 49 {
            assert(t[j] == ("grave"@, 0x32u16));
        } else if j == 50 {
            assert(t[j] == ("delete"@, 0x33u16));
        } else if j == 51 {
            assert(t[j] == ("escape"@, 0x35u16));
        } else if j == 52 {
            assert(t[j] == ("f17"@, 0x40u16));
        } else if j == 53 {
            assert(t[j] == ("f18"@, 0x4Fu16));
        } else if j == 54 {
            assert(t[j] == ("f19"@, 0x50u16));
        } else if j == 55 {
            assert(t[j] == ("f20"@, 0x5Au16));
        } else if j == 56 {
            assert(t[j] == ("f5"@, 0x60u16));
        } else if j == 57 {
            assert(t[j] == ("f6"@, 0x61u16));
        } else if j == 58 {
            assert(t[j] == ("f7"@, 0x62u16));
        } else if j == 59 {
            assert(t[j] == ("f3"@, 0x63u16));
        } else if j == 60 {
            assert(t[j] == ("f8"@, 0x64u16));
        } else if j == 61 {
            assert(t[j] == ("f9"@, 0x65u16));
        } else if j == 62 {
            assert(t[j] == ("f11"@, 0x67u16));
        } else if j == 63 {
            assert(t[j] == ("f13"@, 0x69u16));
        } else if j == 64 {
            assert(t[j] == ("f16"@, 0x6Au16));
        } else if j == 65 {
            assert(t[j] == ("f14"@, 0x6Bu16));
        } else if j == 66 {
            assert(t[j] == ("f10"@, 0x6Du16));
        } else if j == 67 {
            assert(t[j] == ("f12"@, 0x6Fu16));
        } else if j == 68 {
            assert(t[j] == ("f15"@, 0x71u16));
        } else if j == 69 {
            assert(t[j] == ("f4"@, 0x76u16));
        } else if j == 70 {
            assert(t[j] == ("f2"@, 0x78u16));
        } else if j == 71 {
            assert(t[j] == ("f1"@, 0x7Au16));
        } else if j == 72 {
            assert(t[j] == ("left"@, 0x7Bu16));
        } else if j == 73 {
            assert(t[j] == ("right"@, 0x7Cu16));
        } else if j == 74 {
            assert(t[j] == ("down"@, 0x7Du16));
        } else if j == 75 {
            assert(t[j] == ("up"@, 0x7Eu16));
        } else if j == 76 {
            assert(t[j] == ("enter"@, 0x24u16));
        } else if j == 77 {
            assert(t[j] == ("backspace"@, 0x33u16));
        }
    }

}

} // verus!
