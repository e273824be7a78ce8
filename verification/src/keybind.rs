//! Key names and the keybind string syntax: `"hyper+<key>"` or
//! `"hyper+shift+<key>"`. `hyper` is always required and always first;
//! `shift` is the only other modifier and, when present, sits between
//! `hyper` and the key. Modifier keywords are case-insensitive; key names
//! are stored in canonical lower case.
use crate::text::{
    ascii_lower_seq, ascii_lowercase, blank, chars_equal, chars_of, eq_ignore_ascii_case,
    equal_ignoring_ascii_case, is_ascii_digit, is_ascii_lower_letter, is_blank, is_whitespace,
    lemma_ascii_lower_idempotent, lemma_blank_lower, lemma_split_on_lower, lemma_split_on_nonempty,
    lemma_split_on_sep_then, owned, push_str, split_chars, split_on, string_of,
};
use vstd::prelude::*;

verus! {

/// The named (non-letter, non-digit, non-function) keys.
pub open spec fn is_named_key(s: Seq<char>) -> bool {
    ||| s == "space"@
    ||| s == "tab"@
    ||| s == "escape"@
    ||| s == "return"@
    ||| s == "enter"@
    ||| s == "delete"@
    ||| s == "backspace"@
    ||| s == "up"@
    ||| s == "down"@
    ||| s == "left"@
    ||| s == "right"@
    ||| s == "minus"@
    ||| s == "equal"@
    ||| s == "comma"@
    ||| s == "period"@
    ||| s == "slash"@
    ||| s == "semicolon"@
    ||| s == "quote"@
    ||| s == "leftbracket"@
    ||| s == "rightbracket"@
    ||| s == "backslash"@
    ||| s == "grave"@
}

/// The number of a function-key name written `f<n>` (no sign, no leading
/// zero, at most two digits).
pub open spec fn fkey_number(s: Seq<char>) -> Option<nat> {
    if s.len() == 2 && s[0] == 'f' && '1' <= s[1] && s[1] <= '9' {
        Some((s[1] as nat - '0' as nat) as nat)
    } else if s.len() == 3 && s[0] == 'f' && '1' <= s[1] && s[1] <= '9' && is_ascii_digit(s[2]) {
        Some((10 * (s[1] as nat - '0' as nat) + (s[2] as nat - '0' as nat)) as nat)
    } else {
        None
    }
}

/// `s` is `f1` through `f24`.
pub open spec fn is_function_key(s: Seq<char>) -> bool {
    fkey_number(s) matches Some(n) && 1 <= n && n <= 24
}

/// `s` is one of the key names hyperwm recognizes: a lower-case letter, a
/// digit, `f1`–`f24`, or a named key.
pub open spec fn is_known_key(s: Seq<char>) -> bool {
    ||| s.len() == 1 && (is_ascii_lower_letter(s[0]) || is_ascii_digit(s[0]))
    ||| is_function_key(s)
    ||| is_named_key(s)
}

fn is_named_key_name(name: &Vec<char>) -> (r: bool)
    ensures
        r == is_named_key(name@),
{
    chars_equal(name, "space") || chars_equal(name, "tab") || chars_equal(name, "escape")
        || chars_equal(name, "return") || chars_equal(name, "enter") || chars_equal(name, "delete")
        || chars_equal(name, "backspace") || chars_equal(name, "up") || chars_equal(name, "down")
        || chars_equal(name, "left") || chars_equal(name, "right") || chars_equal(name, "minus")
        || chars_equal(name, "equal") || chars_equal(name, "comma") || chars_equal(name, "period")
        || chars_equal(name, "slash") || chars_equal(name, "semicolon") || chars_equal(
        name,
        "quote",
    ) || chars_equal(name, "leftbracket") || chars_equal(name, "rightbracket") || chars_equal(
        name,
        "backslash",
    ) || chars_equal(name, "grave")
}

fn digit_value(c: char) -> (v: u32)
    requires
        is_ascii_digit(c),
    ensures
        v == c as nat - '0' as nat,
        v <= 9,
{
    (c as u32) - ('0' as u32)
}

/// The number of a function-key name (see `fkey_number`).
pub fn function_key_number(name: &Vec<char>) -> (r: Option<u32>)
    ensures
        match fkey_number(name@) {
            Some(n) => r == Some(n as u32),
            None => r is None,
        },
{
    if name.len() == 2 && name[0] == 'f' && '1' <= name[1] && name[1] <= '9' {
        Some(digit_value(name[1]))
    } else if name.len() == 3 && name[0] == 'f' && '1' <= name[1] && name[1] <= '9' && '0'
        <= name[2] && name[2] <= '9' {
        Some(10 * digit_value(name[1]) + digit_value(name[2]))
    } else {
        None
    }
}

/// Whether `name` is one of the recognized key names.
pub fn is_known_key_name(name: &Vec<char>) -> (r: bool)
    ensures
        r == is_known_key(name@),
{
    if name.len() == 1 {
        let c = name[0];
        proof {
            if is_named_key(name@) {
                lemma_named_key_shape(name@);
            }
        }
        return ('a' <= c && c <= 'z') || ('0' <= c && c <= '9');
    }
    match function_key_number(name) {
        Some(n) => {
            if 1 <= n && n <= 24 {
                return true;
            }
        },
        None => {},
    }
    is_named_key_name(name)
}

/// Every named key is at least two lower-case letters long.
pub proof fn lemma_named_key_shape(s: Seq<char>)
    requires
        is_named_key(s),
    ensures
        s.len() >= 2,
        forall|i: int| 0 <= i < s.len() ==> is_ascii_lower_letter(#[trigger] s[i]),
{
    reveal_strlit("space");
    reveal_strlit("tab");
    reveal_strlit("escape");
    reveal_strlit("return");
    reveal_strlit("enter");
    reveal_strlit("delete");
    reveal_strlit("backspace");
    reveal_strlit("up");
    reveal_strlit("down");
    reveal_strlit("left");
    reveal_strlit("right");
    reveal_strlit("minus");
    reveal_strlit("equal");
    reveal_strlit("comma");
    reveal_strlit("period");
    reveal_strlit("slash");
    reveal_strlit("semicolon");
    reveal_strlit("quote");
    reveal_strlit("leftbracket");
    reveal_strlit("rightbracket");
    reveal_strlit("backslash");
    reveal_strlit("grave");
}

/// Every recognized key name is already in lower case.
pub proof fn lemma_known_key_is_lower(s: Seq<char>)
    requires
        is_known_key(s),
    ensures
        ascii_lower_seq(s) == s,
{
    if is_named_key(s) {
        lemma_named_key_shape(s);
    }
    assert(ascii_lower_seq(s) =~= s);
}

/// One of the key names hyperwm recognizes, used both for
/// `hyperkey.watch_keycode` and for the `<key>` part of a keybind string.
/// Stored canonicalized (lower case), so equal names compare equal
/// regardless of the casing used in the config file.
#[derive(Debug, PartialEq, Eq, Hash)]
pub struct KeyName(String);

impl View for KeyName {
    type V = Seq<char>;

    closed spec fn view(&self) -> Seq<char> {
        self.0@
    }
}

impl KeyName {
    #[verifier::type_invariant]
    spec fn canonical(self) -> bool {
        is_known_key(self.0@) && ascii_lower_seq(self.0@) == self.0@
    }

    /// The key name spelled `raw`, compared case-insensitively.
    pub fn parse(raw: &str) -> (r: Option<KeyName>)
        ensures
            r is Some == is_known_key(ascii_lower_seq(raw@)),
            r matches Some(k) ==> k@ == ascii_lower_seq(raw@),
    {
        let lower = ascii_lowercase(raw);
        let cs = chars_of(lower.as_str());
        if is_known_key_name(&cs) {
            proof {
                lemma_known_key_is_lower(lower@);
            }
            Some(KeyName(lower))
        } else {
            None
        }
    }

    /// The key name spelled by the characters `raw`, compared
    /// case-insensitively.
    pub fn parse_chars(raw: &Vec<char>) -> (r: Option<KeyName>)
        ensures
            r is Some == is_known_key(ascii_lower_seq(raw@)),
            r matches Some(k) ==> k@ == ascii_lower_seq(raw@),
    {
        let s = string_of(raw);
        KeyName::parse(s.as_str())
    }

    /// The canonical (lower-case) name.
    pub fn as_str(&self) -> (s: &str)
        ensures
            s@ == self@,
            is_known_key(self@),
            ascii_lower_seq(self@) == self@,
    {
        proof {
            use_type_invariant(self);
        }
        self.0.as_str()
    }

}

impl Clone for KeyName {
    fn clone(&self) -> (k: KeyName)
        ensures
            k@ == self@,
    {
        proof {
            use_type_invariant(self);
        }
        KeyName(self.0.clone())
    }
}

/// A parsed `"hyper+..."` keybind: the hyper prefix plus an optional shift
/// modifier and the base key.
#[derive(Debug, PartialEq, Eq, Hash)]
pub struct Keybind {
    pub shift: bool,
    pub key: KeyName,
}

impl Clone for Keybind {
    fn clone(&self) -> (k: Keybind)
        ensures
            k.shift == self.shift,
            k.key@ == self.key@,
    {
        Keybind { shift: self.shift, key: self.key.clone() }
    }
}

/// The canonical text of a keybind.
pub open spec fn keybind_text(shift: bool, key: Seq<char>) -> Seq<char> {
    if shift {
        "hyper+shift+"@ + key
    } else {
        "hyper+"@ + key
    }
}

impl Keybind {
    /// `"hyper+<key>"` or `"hyper+shift+<key>"`.
    pub fn to_display_string(&self) -> (s: String)
        ensures
            s@ == keybind_text(self.shift, self.key@),
    {
        let mut s = if self.shift {
            owned("hyper+shift+")
        } else {
            owned("hyper+")
        };
        push_str(&mut s, self.key.as_str());
        s
    }

    /// Whether the two keybinds are the same binding.
    pub fn same_as(&self, other: &Keybind) -> (b: bool)
        ensures
            b == (self.shift == other.shift && self.key@ == other.key@),
    {
        self.shift == other.shift && crate::text::str_equal(self.key.as_str(), other.key.as_str())
    }
}

/// Why a keybind string failed to parse.
#[derive(Debug, Clone, PartialEq, Eq)]
pub enum KeybindSyntaxError {
    Empty,
    MissingHyperPrefix,
    UnknownModifier(String),
    UnknownKeyName(String),
    MissingKey,
    TooManyParts,
}

/// A `KeybindSyntaxError` with its text taken by view.
pub enum KeybindSyntaxErrorView {
    Empty,
    MissingHyperPrefix,
    UnknownModifier(Seq<char>),
    UnknownKeyName(Seq<char>),
    MissingKey,
    TooManyParts,
}

impl View for KeybindSyntaxError {
    type V = KeybindSyntaxErrorView;

    open spec fn view(&self) -> KeybindSyntaxErrorView {
        match self {
            KeybindSyntaxError::Empty => KeybindSyntaxErrorView::Empty,
            KeybindSyntaxError::MissingHyperPrefix => KeybindSyntaxErrorView::MissingHyperPrefix,
            KeybindSyntaxError::UnknownModifier(m) => KeybindSyntaxErrorView::UnknownModifier(m@),
            KeybindSyntaxError::UnknownKeyName(k) => KeybindSyntaxErrorView::UnknownKeyName(k@),
            KeybindSyntaxError::MissingKey => KeybindSyntaxErrorView::MissingKey,
            KeybindSyntaxError::TooManyParts => KeybindSyntaxErrorView::TooManyParts,
        }
    }
}

/// The readable message for a keybind syntax error.
pub open spec fn syntax_error_message(e: KeybindSyntaxErrorView) -> Seq<char> {
    match e {
        KeybindSyntaxErrorView::Empty => "keybind is empty"@,
        KeybindSyntaxErrorView::MissingHyperPrefix => "keybind must start with \"hyper+\""@,
        KeybindSyntaxErrorView::UnknownModifier(m) => "unknown modifier \""@ + m
            + "\" (only \"shift\" is supported)"@,
        KeybindSyntaxErrorView::UnknownKeyName(k) => "unknown key name \""@ + k + "\""@,
        KeybindSyntaxErrorView::MissingKey => "keybind has no key after the modifiers"@,
        KeybindSyntaxErrorView::TooManyParts => "keybind has too many \"+\"-separated parts"@,
    }
}

impl KeybindSyntaxError {
    /// The readable message for this error.
    pub fn message(&self) -> (s: String)
        ensures
            s@ == syntax_error_message(self@),
    {
        match self {
            KeybindSyntaxError::Empty => owned("keybind is empty"),
            KeybindSyntaxError::MissingHyperPrefix => owned("keybind must start with \"hyper+\""),
            KeybindSyntaxError::UnknownModifier(m) => {
                let mut s = owned("unknown modifier \"");
                push_str(&mut s, m.as_str());
                push_str(&mut s, "\" (only \"shift\" is supported)");
                s
            },
            KeybindSyntaxError::UnknownKeyName(k) => {
                let mut s = owned("unknown key name \"");
                push_str(&mut s, k.as_str());
                push_str(&mut s, "\"");
                s
            },
            KeybindSyntaxError::MissingKey => owned("keybind has no key after the modifiers"),
            KeybindSyntaxError::TooManyParts => owned(
                "keybind has too many \"+\"-separated parts",
            ),
        }
    }
}

/// What parsing a keybind's key part gives.
pub open spec fn key_outcome(shift: bool, key: Seq<char>) -> Result<
    (bool, Seq<char>),
    KeybindSyntaxErrorView,
> {
    if key.len() == 0 {
        Err(KeybindSyntaxErrorView::MissingKey)
    } else if is_known_key(ascii_lower_seq(key)) {
        Ok((shift, ascii_lower_seq(key)))
    } else {
        Err(KeybindSyntaxErrorView::UnknownKeyName(key))
    }
}

/// What parsing the keybind string `raw` gives: the shift flag and the
/// canonical key name, or the reason it is rejected.
pub open spec fn keybind_outcome(raw: Seq<char>) -> Result<(bool, Seq<char>), KeybindSyntaxErrorView> {
    let parts = split_on(raw, '+');
    if is_blank(raw) {
        Err(KeybindSyntaxErrorView::Empty)
    } else if parts.len() == 1 {
        if !eq_ignore_ascii_case(parts[0], "hyper"@) {
            Err(KeybindSyntaxErrorView::MissingHyperPrefix)
        } else {
            Err(KeybindSyntaxErrorView::MissingKey)
        }
    } else if parts.len() == 2 {
        if !eq_ignore_ascii_case(parts[0], "hyper"@) {
            Err(KeybindSyntaxErrorView::MissingHyperPrefix)
        } else {
            key_outcome(false, parts[1])
        }
    } else if parts.len() == 3 {
        if !eq_ignore_ascii_case(parts[0], "hyper"@) {
            Err(KeybindSyntaxErrorView::MissingHyperPrefix)
        } else if !eq_ignore_ascii_case(parts[1], "shift"@) {
            Err(KeybindSyntaxErrorView::UnknownModifier(parts[1]))
        } else {
            key_outcome(true, parts[2])
        }
    } else {
        Err(KeybindSyntaxErrorView::TooManyParts)
    }
}

/// The result of a keybind parse, taken by view.
pub open spec fn keybind_result_view(r: Result<Keybind, KeybindSyntaxError>) -> Result<
    (bool, Seq<char>),
    KeybindSyntaxErrorView,
> {
    match r {
        Ok(kb) => Ok((kb.shift, kb.key@)),
        Err(e) => Err(e@),
    }
}

fn parse_key_part(shift: bool, key: &Vec<char>) -> (r: Result<Keybind, KeybindSyntaxError>)
    ensures
        keybind_result_view(r) == key_outcome(shift, key@),
{
    if key.len() == 0 {
        return Err(KeybindSyntaxError::MissingKey);
    }
    match KeyName::parse_chars(key) {
        Some(k) => Ok(Keybind { shift, key: k }),
        None => Err(KeybindSyntaxError::UnknownKeyName(string_of(key))),
    }
}

/// Parses a keybind string.
pub fn parse_keybind(raw: &str) -> (r: Result<Keybind, KeybindSyntaxError>)
    ensures
        keybind_result_view(r) == keybind_outcome(raw@),
{
    let cs = chars_of(raw);
    let parts = split_chars(&cs, '+');
    proof {
        lemma_split_on_nonempty(raw@, '+');
        assert(parts@.len() == split_on(raw@, '+').len());
    }
    if blank(&cs) {
        return Err(KeybindSyntaxError::Empty);
    }
    proof {
        assert forall|i: int| 0 <= i < parts@.len() implies parts@[i]@ == split_on(raw@, '+')[i] by {
            assert(crate::text::views(parts@)[i] == parts@[i]@);
        }
    }
    if parts.len() == 1 {
        if !equal_ignoring_ascii_case(&parts[0], "hyper") {
            return Err(KeybindSyntaxError::MissingHyperPrefix);
        }
        Err(KeybindSyntaxError::MissingKey)
    } else if parts.len() == 2 {
        if !equal_ignoring_ascii_case(&parts[0], "hyper") {
            return Err(KeybindSyntaxError::MissingHyperPrefix);
        }
        parse_key_part(false, &parts[1])
    } else if parts.len() == 3 {
        if !equal_ignoring_ascii_case(&parts[0], "hyper") {
            return Err(KeybindSyntaxError::MissingHyperPrefix);
        }
        if !equal_ignoring_ascii_case(&parts[1], "shift") {
            return Err(KeybindSyntaxError::UnknownModifier(string_of(&parts[1])));
        }
        parse_key_part(true, &parts[2])
    } else {
        Err(KeybindSyntaxError::TooManyParts)
    }
}

/// A recognized key name never holds a `+`.
proof fn lemma_known_key_has_no_plus(k: Seq<char>)
    requires
        is_known_key(k),
    ensures
        k.len() > 0,
        forall|i: int| 0 <= i < k.len() ==> k[i] != '+',
{
    if is_named_key(k) {
        lemma_named_key_shape(k);
    }
    assert forall|i: int| 0 <= i < k.len() implies k[i] != '+' by {
        if is_named_key(k) {
            assert(is_ascii_lower_letter(k[i]));
        }
    }
}

/// The canonical text of a keybind parses back to the same keybind.
pub proof fn law_keybind_text_round_trip(shift: bool, key: Seq<char>)
    requires
        is_known_key(key),
    ensures
        keybind_outcome(keybind_text(shift, key)) == Ok::<(bool, Seq<char>), KeybindSyntaxErrorView>((shift, key)),
{
    reveal_strlit("hyper+shift+");
    reveal_strlit("hyper+");
    reveal_strlit("hyper");
    reveal_strlit("shift");
    lemma_known_key_has_no_plus(key);
    lemma_known_key_is_lower(key);
    let hyper = "hyper"@;
    let shift_word = "shift"@;
    assert forall|i: int| 0 <= i < hyper.len() implies hyper[i] != '+' by {}
    assert forall|i: int| 0 <= i < shift_word.len() implies shift_word[i] != '+' by {}
    lemma_split_on_sep_then(Seq::<char>::empty(), hyper, '+');
    let text = keybind_text(shift, key);
    assert(!is_blank(text)) by {
        assert(!is_whitespace(text[0]));
    }
    if shift {
        lemma_split_on_sep_then(hyper, shift_word, '+');
        assert("hyper+shift+"@ + key =~= (hyper.push('+') + shift_word).push('+') + key);
        lemma_split_on_sep_then(hyper.push('+') + shift_word, key, '+');
        assert(split_on(text, '+') =~= seq![hyper, shift_word, key]);
    } else {
        assert("hyper+"@ + key =~= hyper.push('+') + key);
        lemma_split_on_sep_then(hyper, key, '+');
        assert(split_on(text, '+') =~= seq![hyper, key]);
    }
}

/// Keybind parsing ignores ASCII case: a string that parses gives the same
/// keybind once folded to lower case.
pub proof fn law_keybind_case_insensitive(raw: Seq<char>)
    requires
        keybind_outcome(raw) is Ok,
    ensures
        keybind_outcome(ascii_lower_seq(raw)) == keybind_outcome(raw),
{
    let lr = ascii_lower_seq(raw);
    lemma_blank_lower(raw);
    lemma_split_on_lower(raw, '+');
    lemma_split_on_nonempty(raw, '+');
    let parts = split_on(raw, '+');
    let lparts = split_on(lr, '+');
    assert(lparts.len() == parts.len());
    assert forall|i: int| 0 <= i < parts.len() implies #[trigger] lparts[i] == ascii_lower_seq(
        parts[i],
    ) && eq_ignore_ascii_case(lparts[i], "hyper"@) == eq_ignore_ascii_case(parts[i], "hyper"@)
        && eq_ignore_ascii_case(lparts[i], "shift"@) == eq_ignore_ascii_case(parts[i], "shift"@)
        && ascii_lower_seq(lparts[i]) == ascii_lower_seq(parts[i]) && (lparts[i].len() == 0
        <==> parts[i].len() == 0) by {
        lemma_ascii_lower_idempotent(parts[i]);
    }
}

} // verus!
