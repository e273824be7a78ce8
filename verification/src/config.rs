//! Validation of `config.toml`'s settings: the documented defaults, the
//! range and name checks, the scripts directory, and the keybind tables.
//!
//! The TOML text itself is decoded by the caller into [`RawSettings`]. The
//! floating-point fields (split ratios, gaps, resize steps) are range-checked
//! by the caller too, and arrive here as a [`FloatCheck`] verdict each; this
//! module decides everything else, including the order in which problems are
//! reported: the first problem found is the one returned.
use crate::action::{action_named, Action};
use crate::keybind::{
    keybind_outcome, parse_keybind, syntax_error_message, KeyName, Keybind, KeybindSyntaxError,
    KeybindSyntaxErrorView, is_known_key,
};
use crate::text::{
    ascii_lower_seq, blank, chars_of, is_blank, owned, push_str, str_equal,
};
use crate::keycode::{key_code, lookup};
use crate::tree::{spec_split_direction, InsertHeuristic, SplitDirection};
use vstd::prelude::*;

verus! {

/// `floating.new_float_placement`.
#[derive(Debug, Clone, Copy, PartialEq, Eq, Structural)]
pub enum FloatPlacement {
    Cascade,
    Center,
}

/// Every way validation can reject a configuration. Each variant carries
/// enough context for a specific, actionable message.
#[derive(Debug, Clone, PartialEq, Eq)]
pub enum ConfigError {
    /// A field with no documented default was left out.
    MissingField(&'static str),
    /// A field was present but its value is out of range or otherwise
    /// invalid.
    InvalidValue { field: &'static str, reason: String },
    /// A key in a `[keybinds]`/`[keybinds.scripts]` table isn't a valid
    /// `"hyper+..."` keybind string.
    InvalidKeybind { raw: String, reason: KeybindSyntaxError },
    /// A `[keybinds]` value isn't one of the built-in action names.
    UnknownAction { keybind: String, action: String },
    /// The same keybind is assigned more than once; `keybind` is the text of
    /// the first assignment.
    DuplicateKeybind { keybind: String },
    /// A `[keybinds.scripts]` entry names a file that doesn't exist.
    ScriptNotFound { keybind: String, script: String, path: String },
    /// A `[keybinds.scripts]` entry names a file that exists but isn't
    /// executable.
    ScriptNotExecutable { keybind: String, script: String, path: String },
}

/// A `ConfigError` with its text taken by view.
pub enum ConfigErrorView {
    MissingField(Seq<char>),
    InvalidValue { field: Seq<char>, reason: Seq<char> },
    InvalidKeybind { raw: Seq<char>, reason: KeybindSyntaxErrorView },
    UnknownAction { keybind: Seq<char>, action: Seq<char> },
    DuplicateKeybind { keybind: Seq<char> },
    ScriptNotFound { keybind: Seq<char>, script: Seq<char>, path: Seq<char> },
    ScriptNotExecutable { keybind: Seq<char>, script: Seq<char>, path: Seq<char> },
}

impl View for ConfigError {
    type V = ConfigErrorView;

    open spec fn view(&self) -> ConfigErrorView {
        match self {
            ConfigError::MissingField(f) => ConfigErrorView::MissingField(f@),
            ConfigError::InvalidValue { field, reason } => ConfigErrorView::InvalidValue {
                field: field@,
                reason: reason@,
            },
            ConfigError::InvalidKeybind { raw, reason } => ConfigErrorView::InvalidKeybind {
                raw: raw@,
                reason: reason@,
            },
            ConfigError::UnknownAction { keybind, action } => ConfigErrorView::UnknownAction {
                keybind: keybind@,
                action: action@,
            },
            ConfigError::DuplicateKeybind { keybind } => ConfigErrorView::DuplicateKeybind {
                keybind: keybind@,
            },
            ConfigError::ScriptNotFound { keybind, script, path } => ConfigErrorView::ScriptNotFound {
                keybind: keybind@,
                script: script@,
                path: path@,
            },
            ConfigError::ScriptNotExecutable {
                keybind,
                script,
                path,
            } => ConfigErrorView::ScriptNotExecutable {
                keybind: keybind@,
                script: script@,
                path: path@,
            },
        }
    }
}

/// `"` + `s` + `"`.
pub open spec fn quoted(s: Seq<char>) -> Seq<char> {
    "\""@ + s + "\""@
}

/// The readable message for a configuration error.
pub open spec fn config_error_message(e: ConfigErrorView) -> Seq<char> {
    match e {
        ConfigErrorView::MissingField(f) => "missing required field "@ + quoted(f),
        ConfigErrorView::InvalidValue { field, reason } => "invalid value for "@ + quoted(field)
            + ": "@ + reason,
        ConfigErrorView::InvalidKeybind { raw, reason } => "invalid keybind "@ + quoted(raw) + ": "@
            + syntax_error_message(reason),
        ConfigErrorView::UnknownAction { keybind, action } => "keybind "@ + quoted(keybind)
            + " is bound to unknown action "@ + quoted(action),
        ConfigErrorView::DuplicateKeybind { keybind } => "keybind "@ + quoted(keybind)
            + " is bound more than once"@,
        ConfigErrorView::ScriptNotFound { keybind, script, path } => "keybind "@ + quoted(keybind)
            + " references script "@ + quoted(script) + ", which doesn't exist at "@ + path,
        ConfigErrorView::ScriptNotExecutable { keybind, script, path } => "keybind "@ + quoted(
            keybind,
        ) + " references script "@ + quoted(script) + " at "@ + path
            + ", which exists but isn't executable (missing the executable bit)"@,
    }
}

fn push_quoted(s: &mut String, t: &str)
    ensures
        final(s)@ == old(s)@ + quoted(t@),
{
    push_str(s, "\"");
    push_str(s, t);
    push_str(s, "\"");
}

impl ConfigError {
    /// The readable message for this error.
    pub fn message(&self) -> (s: String)
        ensures
            s@ == config_error_message(self@),
    {
        match self {
            ConfigError::MissingField(f) => {
                let mut s = owned("missing required field ");
                push_quoted(&mut s, f);
                s
            },
            ConfigError::InvalidValue { field, reason } => {
                let mut s = owned("invalid value for ");
                push_quoted(&mut s, field);
                push_str(&mut s, ": ");
                push_str(&mut s, reason.as_str());
                s
            },
            ConfigError::InvalidKeybind { raw, reason } => {
                let mut s = owned("invalid keybind ");
                push_quoted(&mut s, raw.as_str());
                push_str(&mut s, ": ");
                let m = reason.message();
                push_str(&mut s, m.as_str());
                s
            },
            ConfigError::UnknownAction { keybind, action } => {
                let mut s = owned("keybind ");
                push_quoted(&mut s, keybind.as_str());
                push_str(&mut s, " is bound to unknown action ");
                push_quoted(&mut s, action.as_str());
                s
            },
            ConfigError::DuplicateKeybind { keybind } => {
                let mut s = owned("keybind ");
                push_quoted(&mut s, keybind.as_str());
                push_str(&mut s, " is bound more than once");
                s
            },
            ConfigError::ScriptNotFound { keybind, script, path } => {
                let mut s = owned("keybind ");
                push_quoted(&mut s, keybind.as_str());
                push_str(&mut s, " references script ");
                push_quoted(&mut s, script.as_str());
                push_str(&mut s, ", which doesn't exist at ");
                push_str(&mut s, path.as_str());
                s
            },
            ConfigError::ScriptNotExecutable { keybind, script, path } => {
                let mut s = owned("keybind ");
                push_quoted(&mut s, keybind.as_str());
                push_str(&mut s, " references script ");
                push_quoted(&mut s, script.as_str());
                push_str(&mut s, " at ");
                push_str(&mut s, path.as_str());
                push_str(
                    &mut s,
                    ", which exists but isn't executable (missing the executable bit)",
                );
                s
            },
        }
    }
}

/// `[hyperkey]`, validated.
#[derive(Debug, Clone)]
pub struct HyperkeyConfig {
    pub watch_keycode: KeyName,
}

/// The outcome of `hyperkey.watch_keycode`'s validation: the canonical key
/// name, or the error.
pub open spec fn hyperkey_outcome(raw: Option<Seq<char>>) -> Result<Seq<char>, ConfigErrorView> {
    match raw {
        None => Err(ConfigErrorView::MissingField("hyperkey.watch_keycode"@)),
        Some(k) => if is_known_key(ascii_lower_seq(k)) {
            Ok(ascii_lower_seq(k))
        } else {
            Err(
                ConfigErrorView::InvalidValue {
                    field: "hyperkey.watch_keycode"@,
                    reason: quoted(k) + " isn't a recognized key name"@,
                },
            )
        },
    }
}

/// Validates `[hyperkey]`: `watch_keycode` is required and must be a
/// recognized key name (any casing).
pub fn validate_hyperkey(watch_keycode: Option<&str>) -> (r: Result<HyperkeyConfig, ConfigError>)
    ensures
        match r {
            Ok(h) => hyperkey_outcome(opt_view(watch_keycode)) == Ok::<Seq<char>, ConfigErrorView>(
                h.watch_keycode@,
            ),
            Err(e) => hyperkey_outcome(opt_view(watch_keycode)) == Err::<Seq<char>, ConfigErrorView>(
                e@,
            ),
        },
{
    match watch_keycode {
        None => Err(ConfigError::MissingField("hyperkey.watch_keycode")),
        Some(raw) => match KeyName::parse(raw) {
            Some(k) => Ok(HyperkeyConfig { watch_keycode: k }),
            None => {
                let mut reason = String::new();
                push_quoted(&mut reason, raw);
                push_str(&mut reason, " isn't a recognized key name");
                proof {
                    assert(reason@ =~= quoted(raw@) + " isn't a recognized key name"@);
                }
                Err(ConfigError::InvalidValue { field: "hyperkey.watch_keycode", reason })
            },
        },
    }
}

/// The view of an optional string.
pub open spec fn opt_view(s: Option<&str>) -> Option<Seq<char>> {
    match s {
        Some(t) => Some(t@),
        None => None,
    }
}

/// The outcome of `tiling.max_tiled_windows`'s validation (default 4; must be
/// a positive integer that fits in a `usize`).
pub open spec fn max_windows_outcome(raw: Option<i64>) -> Result<int, ConfigErrorView> {
    let v = match raw {
        Some(v) => v as int,
        None => 4,
    };
    if v < 0 || v > usize::MAX {
        Err(
            ConfigErrorView::InvalidValue {
                field: "tiling.max_tiled_windows"@,
                reason: "must be a positive integer"@,
            },
        )
    } else if v < 1 {
        Err(
            ConfigErrorView::InvalidValue {
                field: "tiling.max_tiled_windows"@,
                reason: "must be at least 1"@,
            },
        )
    } else {
        Ok(v)
    }
}

/// Validates `tiling.max_tiled_windows`.
pub fn validate_max_tiled_windows(raw: Option<i64>) -> (r: Result<usize, ConfigError>)
    ensures
        match r {
            Ok(n) => max_windows_outcome(raw) == Ok::<int, ConfigErrorView>(n as int),
            Err(e) => max_windows_outcome(raw) == Err::<int, ConfigErrorView>(e@),
        },
{
    let v: i64 = match raw {
        Some(v) => v,
        None => 4,
    };
    if v < 0 || (v as u64) > (usize::MAX as u64) {
        return Err(
            ConfigError::InvalidValue {
                field: "tiling.max_tiled_windows",
                reason: owned("must be a positive integer"),
            },
        );
    }
    if v < 1 {
        return Err(
            ConfigError::InvalidValue {
                field: "tiling.max_tiled_windows",
                reason: owned("must be at least 1"),
            },
        );
    }
    Ok(v as usize)
}

/// The outcome of `tiling.insert_heuristic`'s validation (default
/// `aspect_ratio`).
pub open spec fn heuristic_outcome(raw: Option<Seq<char>>) -> Result<InsertHeuristic, ConfigErrorView> {
    let name = match raw {
        Some(s) => s,
        None => "aspect_ratio"@,
    };
    if name == "aspect_ratio"@ {
        Ok(InsertHeuristic::AspectRatio)
    } else if name == "always_vertical"@ {
        Ok(InsertHeuristic::AlwaysVertical)
    } else if name == "always_horizontal"@ {
        Ok(InsertHeuristic::AlwaysHorizontal)
    } else {
        Err(
            ConfigErrorView::InvalidValue {
                field: "tiling.insert_heuristic"@,
                reason: quoted(name)
                    + " is not one of \"aspect_ratio\", \"always_vertical\", \"always_horizontal\""@,
            },
        )
    }
}

/// `tiling.insert_heuristic` means what its name says: `always_vertical`
/// splits every new leaf left/right and `always_horizontal` top/bottom,
/// whatever the leaf's shape; `aspect_ratio` (also the default) splits a
/// wide leaf left/right and a tall one top/bottom. Distinct accepted names
/// give distinct heuristics.
pub proof fn law_insert_heuristic_names(n1: Seq<char>, n2: Seq<char>)
    ensures
        heuristic_outcome(Some("always_vertical"@)) is Ok,
        heuristic_outcome(Some("always_horizontal"@)) is Ok,
        heuristic_outcome(Some("aspect_ratio"@)) is Ok,
        forall|wide: bool|
            spec_split_direction(
                #[trigger] heuristic_outcome(Some("always_vertical"@))->Ok_0,
                wide,
            ) == SplitDirection::Vertical,
        forall|wide: bool|
            spec_split_direction(
                #[trigger] heuristic_outcome(Some("always_horizontal"@))->Ok_0,
                wide,
            ) == SplitDirection::Horizontal,
        spec_split_direction(heuristic_outcome(Some("aspect_ratio"@))->Ok_0, true)
            == SplitDirection::Vertical,
        spec_split_direction(heuristic_outcome(Some("aspect_ratio"@))->Ok_0, false)
            == SplitDirection::Horizontal,
        heuristic_outcome(None) == heuristic_outcome(Some("aspect_ratio"@)),
        heuristic_outcome(Some(n1)) is Ok && heuristic_outcome(Some(n1)) == heuristic_outcome(
            Some(n2),
        ) ==> n1 == n2,
{
    reveal_strlit("always_vertical");
    reveal_strlit("always_horizontal");
    reveal_strlit("aspect_ratio");
    assert("always_vertical"@[7] != "always_horizontal"@[7]);
    assert("always_vertical"@.len() != "aspect_ratio"@.len());
    assert("always_horizontal"@.len() != "aspect_ratio"@.len());
}

/// Validates `tiling.insert_heuristic`.
pub fn parse_insert_heuristic(raw: Option<&str>) -> (r: Result<InsertHeuristic, ConfigError>)
    ensures
        match r {
            Ok(h) => heuristic_outcome(opt_view(raw)) == Ok::<InsertHeuristic, ConfigErrorView>(h),
            Err(e) => heuristic_outcome(opt_view(raw)) == Err::<InsertHeuristic, ConfigErrorView>(
                e@,
            ),
        },
{
    let name: &str = match raw {
        Some(s) => s,
        None => "aspect_ratio",
    };
    if str_equal(name, "aspect_ratio") {
        Ok(InsertHeuristic::AspectRatio)
    } else if str_equal(name, "always_vertical") {
        Ok(InsertHeuristic::AlwaysVertical)
    } else if str_equal(name, "always_horizontal") {
        Ok(InsertHeuristic::AlwaysHorizontal)
    } else {
        let mut reason = String::new();
        push_quoted(&mut reason, name);
        push_str(
            &mut reason,
            " is not one of \"aspect_ratio\", \"always_vertical\", \"always_horizontal\"",
        );
        Err(ConfigError::InvalidValue { field: "tiling.insert_heuristic", reason })
    }
}

/// The outcome of `floating.new_float_placement`'s validation (default
/// `cascade`).
pub open spec fn placement_outcome(raw: Option<Seq<char>>) -> Result<FloatPlacement, ConfigErrorView> {
    let name = match raw {
        Some(s) => s,
        None => "cascade"@,
    };
    if name == "cascade"@ {
        Ok(FloatPlacement::Cascade)
    } else if name == "center"@ {
        Ok(FloatPlacement::Center)
    } else {
        Err(
            ConfigErrorView::InvalidValue {
                field: "floating.new_float_placement"@,
                reason: quoted(name) + " is not one of \"cascade\", \"center\""@,
            },
        )
    }
}

/// Validates `floating.new_float_placement`.
pub fn parse_float_placement(raw: Option<&str>) -> (r: Result<FloatPlacement, ConfigError>)
    ensures
        match r {
            Ok(p) => placement_outcome(opt_view(raw)) == Ok::<FloatPlacement, ConfigErrorView>(p),
            Err(e) => placement_outcome(opt_view(raw)) == Err::<FloatPlacement, ConfigErrorView>(
                e@,
            ),
        },
{
    let name: &str = match raw {
        Some(s) => s,
        None => "cascade",
    };
    if str_equal(name, "cascade") {
        Ok(FloatPlacement::Cascade)
    } else if str_equal(name, "center") {
        Ok(FloatPlacement::Center)
    } else {
        let mut reason = String::new();
        push_quoted(&mut reason, name);
        push_str(&mut reason, " is not one of \"cascade\", \"center\"");
        Err(ConfigError::InvalidValue { field: "floating.new_float_placement", reason })
    }
}

/// `path` is absolute (starts at the root directory).
pub open spec fn is_absolute_path(path: Seq<char>) -> bool {
    path.len() > 0 && path[0] == '/'
}

/// `name` resolved against the directory `base`, as `Path::join` does on
/// Unix: an absolute `name` replaces `base`; otherwise a `/` separates the
/// two unless `base` is empty or already ends in one.
pub open spec fn join_path(base: Seq<char>, name: Seq<char>) -> Seq<char> {
    if is_absolute_path(name) {
        name
    } else if base.len() == 0 || base.last() == '/' {
        base + name
    } else {
        base + "/"@ + name
    }
}

/// `Path::join` on Unix path strings (see `join_path`).
pub fn join(base: &str, name: &str) -> (r: String)
    ensures
        r@ == join_path(base@, name@),
{
    let bs = chars_of(base);
    let ns = chars_of(name);
    if ns.len() > 0 && ns[0] == '/' {
        return owned(name);
    }
    let mut r = owned(base);
    if bs.len() > 0 && bs[bs.len() - 1] != '/' {
        push_str(&mut r, "/");
    }
    push_str(&mut r, name);
    r
}

/// `[scripts]`, validated.
#[derive(Debug, Clone)]
pub struct ScriptsConfig {
    /// `scripts.dir` joined onto the config file's own directory when given
    /// as a relative path, used as-is when absolute.
    pub dir: String,
}

/// The outcome of `scripts.dir`'s validation (default `scripts`, relative to
/// the config file's directory).
pub open spec fn scripts_dir_outcome(raw: Option<Seq<char>>, config_dir: Seq<char>) -> Result<
    Seq<char>,
    ConfigErrorView,
> {
    let dir = match raw {
        Some(d) => d,
        None => "scripts"@,
    };
    if is_blank(dir) {
        Err(
            ConfigErrorView::InvalidValue { field: "scripts.dir"@, reason: "must not be empty"@ },
        )
    } else {
        Ok(join_path(config_dir, dir))
    }
}

/// Validates `scripts.dir` and resolves it against `config_dir`.
pub fn validate_scripts(raw_dir: Option<&str>, config_dir: &str) -> (r: Result<
    ScriptsConfig,
    ConfigError,
>)
    ensures
        match r {
            Ok(s) => scripts_dir_outcome(opt_view(raw_dir), config_dir@) == Ok::<
                Seq<char>,
                ConfigErrorView,
            >(s.dir@),
            Err(e) => scripts_dir_outcome(opt_view(raw_dir), config_dir@) == Err::<
                Seq<char>,
                ConfigErrorView,
            >(e@),
        },
{
    let dir: &str = match raw_dir {
        Some(d) => d,
        None => "scripts",
    };
    let cs = chars_of(dir);
    if blank(&cs) {
        return Err(
            ConfigError::InvalidValue { field: "scripts.dir", reason: owned("must not be empty") },
        );
    }
    Ok(ScriptsConfig { dir: join(config_dir, dir) })
}

/// `a` sorts no later than `b` (lexicographic by character, as `String`'s
/// ordering compares them).
pub open spec fn name_le(a: Seq<char>, b: Seq<char>) -> bool
    decreases a.len(),
{
    if a.len() == 0 {
        true
    } else if b.len() == 0 {
        false
    } else if a[0] != b[0] {
        a[0] < b[0]
    } else {
        name_le(a.drop_first(), b.drop_first())
    }
}

proof fn lemma_name_le_skip(a: Seq<char>, b: Seq<char>, i: int)
    requires
        0 <= i <= a.len(),
        i <= b.len(),
        forall|j: int| 0 <= j < i ==> a[j] == b[j],
    ensures
        name_le(a, b) == name_le(a.skip(i), b.skip(i)),
    decreases i,
{
    if i > 0 {
        lemma_name_le_skip(a.drop_first(), b.drop_first(), i - 1);
        assert(a.drop_first().skip(i - 1) =~= a.skip(i));
        assert(b.drop_first().skip(i - 1) =~= b.skip(i));
    } else {
        assert(a.skip(0) =~= a);
        assert(b.skip(0) =~= b);
    }
}

/// Whether `a` sorts no later than `b`.
pub fn name_precedes(a: &str, b: &str) -> (r: bool)
    ensures
        r == name_le(a@, b@),
{
    let x = chars_of(a);
    let y = chars_of(b);
    let mut i: usize = 0;
    while i < x.len() && i < y.len() && x[i] == y[i]
        invariant
            i <= x@.len(),
            i <= y@.len(),
            x@ == a@,
            y@ == b@,
            forall|j: int| 0 <= j < i ==> x@[j] == y@[j],
        decreases x@.len() - i,
    {
        i = i + 1;
    }
    proof {
        lemma_name_le_skip(a@, b@, i as int);
    }
    if i == x.len() {
        true
    } else if i == y.len() {
        false
    } else {
        x[i] < y[i]
    }
}

/// `list` with index `i` inserted before the first entry whose key does not
/// sort before `keys[i]`.
pub open spec fn insert_by_name(keys: Seq<Seq<char>>, i: int, list: Seq<int>) -> Seq<int>
    decreases list.len(),
{
    if list.len() == 0 {
        seq![i]
    } else if name_le(keys[i], keys[list[0]]) {
        seq![i] + list
    } else {
        seq![list[0]] + insert_by_name(keys, i, list.drop_first())
    }
}

/// The indices `0..n` of `keys`, in name order (insertion order among equal
/// names: a later index comes first).
pub open spec fn name_order(keys: Seq<Seq<char>>, n: nat) -> Seq<int>
    decreases n,
{
    if n == 0 {
        seq![]
    } else {
        insert_by_name(keys, n - 1, name_order(keys, (n - 1) as nat))
    }
}

proof fn lemma_insert_by_name_at(keys: Seq<Seq<char>>, i: int, list: Seq<int>, p: int)
    requires
        0 <= p <= list.len(),
        forall|q: int| 0 <= q < p ==> !name_le(keys[i], keys[#[trigger] list[q]]),
        p < list.len() ==> name_le(keys[i], keys[list[p]]),
    ensures
        insert_by_name(keys, i, list) == list.insert(p, i),
    decreases list.len(),
{
    if list.len() == 0 {
        assert(list.insert(p, i) =~= seq![i]);
    } else if p == 0 {
        assert(list.insert(0, i) =~= seq![i] + list);
    } else {
        assert(!name_le(keys[i], keys[list[0]]));
        let rest = list.drop_first();
        assert forall|q: int| 0 <= q < p - 1 implies !name_le(keys[i], keys[#[trigger] rest[q]]) by {
            assert(rest[q] == list[q + 1]);
        }
        lemma_insert_by_name_at(keys, i, rest, p - 1);
        assert(seq![list[0]] + rest.insert(p - 1, i) =~= list.insert(p, i));
    }
}

proof fn lemma_name_order_len(keys: Seq<Seq<char>>, n: nat)
    ensures
        name_order(keys, n).len() == n,
        forall|k: int| 0 <= k < n ==> 0 <= #[trigger] name_order(keys, n)[k] < n,
    decreases n,
{
    if n > 0 {
        lemma_name_order_len(keys, (n - 1) as nat);
        lemma_insert_by_name_bounds(keys, n - 1, name_order(keys, (n - 1) as nat), n as int);
    }
}

proof fn lemma_insert_by_name_bounds(keys: Seq<Seq<char>>, i: int, list: Seq<int>, bound: int)
    requires
        0 <= i < bound,
        forall|k: int| 0 <= k < list.len() ==> 0 <= #[trigger] list[k] < bound,
    ensures
        insert_by_name(keys, i, list).len() == list.len() + 1,
        forall|k: int|
            0 <= k < list.len() + 1 ==> 0 <= #[trigger] insert_by_name(keys, i, list)[k] < bound,
    decreases list.len(),
{
    if list.len() > 0 && !name_le(keys[i], keys[list[0]]) {
        let rest = list.drop_first();
        lemma_insert_by_name_bounds(keys, i, rest, bound);
        let r = insert_by_name(keys, i, list);
        assert forall|k: int| 0 <= k < list.len() + 1 implies 0 <= #[trigger] r[k] < bound by {
            if k > 0 {
                assert(r[k] == insert_by_name(keys, i, rest)[k - 1]);
            }
        }
    }
}

/// The names of `v`'s entries.
pub open spec fn names_of(v: Seq<String>) -> Seq<Seq<char>> {
    v.map_values(|s: String| s@)
}

/// The indices of `names`, in name order (see `name_order`).
pub fn order_by_name(names: &Vec<String>) -> (order: Vec<usize>)
    ensures
        order@.map_values(|i: usize| i as int) == name_order(names_of(names@), names@.len()),
        order@.len() == names@.len(),
        forall|k: int| 0 <= k < order@.len() ==> #[trigger] order@[k] < names@.len(),
{
    let ghost keys = names_of(names@);
    let mut order: Vec<usize> = Vec::new();
    let mut i: usize = 0;
    while i < names.len()
        invariant
            i <= names@.len(),
            keys == names_of(names@),
            order@.map_values(|x: usize| x as int) == name_order(keys, i as nat),
            order@.len() == i,
            forall|k: int| 0 <= k < order@.len() ==> #[trigger] order@[k] < i,
        decreases names@.len() - i,
    {
        let mut p: usize = 0;
        while p < order.len() && !name_precedes(names[i].as_str(), names[order[p]].as_str())
            invariant
                i < names@.len(),
                p <= order@.len(),
                keys == names_of(names@),
                forall|k: int| 0 <= k < order@.len() ==> #[trigger] order@[k] < i,
                forall|q: int|
                    0 <= q < p ==> !name_le(keys[i as int], keys[#[trigger] order@[q] as int]),
            decreases order@.len() - p,
        {
            p = p + 1;
        }
        let ghost before = order@;
        let ghost ib = before.map_values(|x: usize| x as int);
        proof {
            assert forall|q: int| 0 <= q < p implies !name_le(keys[i as int], keys[#[trigger] ib[q]]) by {
                assert(ib[q] == before[q] as int);
            }
            if p < before.len() {
                assert(ib[p as int] == before[p as int] as int);
            }
            lemma_insert_by_name_at(keys, i as int, ib, p as int);
        }
        order.insert(p, i);
        proof {
            assert(order@.map_values(|x: usize| x as int) =~= ib.insert(p as int, i as int));
            assert forall|k: int| 0 <= k < order@.len() implies #[trigger] order@[k] < i + 1 by {
                if k < p {
                    assert(order@[k] == before[k]);
                } else if k > p {
                    assert(order@[k] == before[k - 1]);
                }
            }
        }
        i = i + 1;
    }
    order
}

/// How a `[keybinds.scripts]` entry's file looks on disk.
#[derive(Debug, Clone, Copy, PartialEq, Eq, Structural)]
pub enum ScriptFileStatus {
    Missing,
    NotExecutable,
    Executable,
}

/// One `[keybinds.scripts]` entry: the keybind text, the script file name,
/// and how that file (in the scripts directory) looks on disk.
#[derive(Debug, Clone)]
pub struct ScriptBinding {
    pub keybind: String,
    pub script: String,
    pub status: ScriptFileStatus,
}

/// `[keybinds]` and `[keybinds.scripts]`, validated: every binding occurs
/// once over both tables (aliases of one key, such as `return` and `enter`,
/// counting as one binding).
#[derive(Debug, Clone)]
pub struct KeybindsConfig {
    pub builtin: Vec<(Keybind, Action)>,
    pub scripts: Vec<(Keybind, String)>,
}

/// One keybind-table entry, taken by view.
pub enum BindingItem {
    Builtin { raw: Seq<char>, action: Seq<char> },
    Script { raw: Seq<char>, script: Seq<char>, status: ScriptFileStatus },
}

impl BindingItem {
    pub open spec fn raw(self) -> Seq<char> {
        match self {
            BindingItem::Builtin { raw, .. } => raw,
            BindingItem::Script { raw, .. } => raw,
        }
    }
}

/// The bindings accepted so far: every keybind with the text it was first
/// written as, and the two tables being built.
pub struct BindingsView {
    pub seen: Seq<((bool, Seq<char>), Seq<char>)>,
    pub builtin: Seq<((bool, Seq<char>), Action)>,
    pub scripts: Seq<((bool, Seq<char>), Seq<char>)>,
}

/// What makes two keybinds the same binding: the shift flag and the key's
/// keycode, so that aliases of one key (`return` and `enter`, `delete` and
/// `backspace`) are one binding; a key with no keycode is known by its name.
pub open spec fn binding_key(kb: (bool, Seq<char>)) -> (bool, Option<u16>, Seq<char>) {
    (
        kb.0,
        key_code(kb.1),
        if key_code(kb.1) is Some {
            Seq::<char>::empty()
        } else {
            kb.1
        },
    )
}

/// The text the binding `kb` stands for was first written as among `seen`,
/// if it occurs there (see `binding_key`).
pub open spec fn first_binding(seen: Seq<((bool, Seq<char>), Seq<char>)>, kb: (bool, Seq<char>)) -> Option<
    Seq<char>,
>
    decreases seen.len(),
{
    if seen.len() == 0 {
        None
    } else {
        match first_binding(seen.drop_last(), kb) {
            Some(r) => Some(r),
            None => if binding_key(seen.last().0) == binding_key(kb) {
                Some(seen.last().1)
            } else {
                None
            },
        }
    }
}

/// Accepting one more entry, or the error it raises.
pub open spec fn binding_step(st: BindingsView, item: BindingItem, dir: Seq<char>) -> Result<
    BindingsView,
    ConfigErrorView,
> {
    let raw = item.raw();
    match keybind_outcome(raw) {
        Err(e) => Err(ConfigErrorView::InvalidKeybind { raw, reason: e }),
        Ok(kb) => match first_binding(st.seen, kb) {
            Some(first) => Err(ConfigErrorView::DuplicateKeybind { keybind: first }),
            None => match item {
                BindingItem::Builtin { raw, action } => match action_named(action) {
                    None => Err(ConfigErrorView::UnknownAction { keybind: raw, action }),
                    Some(a) => Ok(
                        BindingsView {
                            seen: st.seen.push((kb, raw)),
                            builtin: st.builtin.push((kb, a)),
                            scripts: st.scripts,
                        },
                    ),
                },
                BindingItem::Script { raw, script, status } => {
                    let path = join_path(dir, script);
                    match status {
                        ScriptFileStatus::Missing => Err(
                            ConfigErrorView::ScriptNotFound { keybind: raw, script, path },
                        ),
                        ScriptFileStatus::NotExecutable => Err(
                            ConfigErrorView::ScriptNotExecutable { keybind: raw, script, path },
                        ),
                        ScriptFileStatus::Executable => Ok(
                            BindingsView {
                                seen: st.seen.push((kb, raw)),
                                builtin: st.builtin,
                                scripts: st.scripts.push((kb, script)),
                            },
                        ),
                    }
                },
            },
        },
    }
}

/// Accepting `items` in order, stopping at the first error.
pub open spec fn bindings_fold(items: Seq<BindingItem>, dir: Seq<char>) -> Result<
    BindingsView,
    ConfigErrorView,
>
    decreases items.len(),
{
    if items.len() == 0 {
        Ok(BindingsView { seen: seq![], builtin: seq![], scripts: seq![] })
    } else {
        match bindings_fold(items.drop_last(), dir) {
            Err(e) => Err(e),
            Ok(st) => binding_step(st, items.last(), dir),
        }
    }
}

/// The `[keybinds]` entries as items, in name order.
pub open spec fn builtin_items(entries: Seq<(String, String)>) -> Seq<BindingItem> {
    let keys = entries.map_values(|e: (String, String)| e.0@);
    name_order(keys, entries.len()).map_values(
        |i: int| BindingItem::Builtin { raw: entries[i].0@, action: entries[i].1@ },
    )
}

/// The `[keybinds.scripts]` entries as items, in name order.
pub open spec fn script_items(entries: Seq<ScriptBinding>) -> Seq<BindingItem> {
    let keys = entries.map_values(|e: ScriptBinding| e.keybind@);
    name_order(keys, entries.len()).map_values(
        |i: int|
            BindingItem::Script {
                raw: entries[i].keybind@,
                script: entries[i].script@,
                status: entries[i].status,
            },
    )
}

/// What validating the two keybind tables gives: the built-in entries in
/// name order, then the script entries in name order, each accepted in turn
/// until the first error.
pub open spec fn keybinds_outcome(
    builtin: Seq<(String, String)>,
    scripts: Seq<ScriptBinding>,
    dir: Seq<char>,
) -> Result<BindingsView, ConfigErrorView> {
    bindings_fold(builtin_items(builtin) + script_items(scripts), dir)
}

/// The view of a keybind.
pub open spec fn kb_view(kb: Keybind) -> (bool, Seq<char>) {
    (kb.shift, kb.key@)
}

/// The views of accepted bindings.
pub open spec fn seen_view(v: Seq<(Keybind, String)>) -> Seq<((bool, Seq<char>), Seq<char>)> {
    v.map_values(|e: (Keybind, String)| (kb_view(e.0), e.1@))
}

/// The views of built-in bindings.
pub open spec fn builtin_view(v: Seq<(Keybind, Action)>) -> Seq<((bool, Seq<char>), Action)> {
    v.map_values(|e: (Keybind, Action)| (kb_view(e.0), e.1))
}

proof fn lemma_fold_error_sticks(items: Seq<BindingItem>, dir: Seq<char>, k: int)
    requires
        0 <= k <= items.len(),
        bindings_fold(items.take(k), dir) is Err,
    ensures
        bindings_fold(items, dir) == bindings_fold(items.take(k), dir),
    decreases items.len() - k,
{
    if k == items.len() {
        assert(items.take(k) =~= items);
    } else {
        assert(items.take(k + 1).drop_last() =~= items.take(k));
        lemma_fold_error_sticks(items, dir, k + 1);
    }
}

/// Whether `a` and `b` are the same binding (see `binding_key`).
fn same_binding(a: &Keybind, b: &Keybind) -> (r: bool)
    ensures
        r == (binding_key(kb_view(*a)) == binding_key(kb_view(*b))),
{
    if a.shift != b.shift {
        return false;
    }
    match (lookup(a.key.as_str()), lookup(b.key.as_str())) {
        (Some(x), Some(y)) => x == y,
        (None, None) => str_equal(a.key.as_str(), b.key.as_str()),
        _ => false,
    }
}

/// The text `kb`'s binding was first written as, if it is bound already.
fn find_binding(seen: &Vec<(Keybind, String)>, kb: &Keybind) -> (r: Option<String>)
    ensures
        match first_binding(seen_view(seen@), kb_view(*kb)) {
            Some(raw) => r matches Some(s) && s@ == raw,
            None => r is None,
        },
{
    let ghost sv = seen_view(seen@);
    let mut found: Option<String> = None;
    let mut i: usize = 0;
    while i < seen.len()
        invariant
            i <= seen@.len(),
            sv == seen_view(seen@),
            match first_binding(sv.take(i as int), kb_view(*kb)) {
                Some(raw) => found matches Some(s) && s@ == raw,
                None => found is None,
            },
        decreases seen@.len() - i,
    {
        proof {
            assert(sv.take(i + 1).drop_last() =~= sv.take(i as int));
        }
        if found.is_none() && same_binding(&seen[i].0, kb) {
            found = Some(seen[i].1.clone());
        }
        i = i + 1;
    }
    proof {
        assert(sv.take(seen@.len() as int) =~= sv);
    }
    found
}

/// Parses `raw` as a keybind that must not be bound already in `seen`.
pub fn parse_and_check_duplicate(raw: &str, seen: &Vec<(Keybind, String)>) -> (r: Result<
    Keybind,
    ConfigError,
>)
    ensures
        match keybind_outcome(raw@) {
            Err(e) => r matches Err(x) && x@ == (ConfigErrorView::InvalidKeybind {
                raw: raw@,
                reason: e,
            }),
            Ok(kb) => match first_binding(seen_view(seen@), kb) {
                Some(first) => r matches Err(x) && x@ == (ConfigErrorView::DuplicateKeybind {
                    keybind: first,
                }),
                None => r matches Ok(k) && kb_view(k) == kb,
            },
        },
{
    let kb = match parse_keybind(raw) {
        Ok(kb) => kb,
        Err(reason) => {
            return Err(ConfigError::InvalidKeybind { raw: owned(raw), reason });
        },
    };
    match find_binding(seen, &kb) {
        Some(first) => Err(ConfigError::DuplicateKeybind { keybind: first }),
        None => Ok(kb),
    }
}

/// Validates the keybind tables: each entry's keybind must parse and be new
/// over both tables (see `binding_key`), each built-in entry must name a known action, and each
/// script entry's file must exist and be executable. Entries are checked in
/// name order (built-in table first), and the first problem is reported.
pub fn validate_keybinds(
    builtin: &Vec<(String, String)>,
    scripts: &Vec<ScriptBinding>,
    scripts_dir: &str,
) -> (r: Result<KeybindsConfig, ConfigError>)
    ensures
        match r {
            Ok(cfg) => keybinds_outcome(builtin@, scripts@, scripts_dir@) matches Ok(st)
                && st.builtin == builtin_view(cfg.builtin@) && st.scripts == seen_view(
                cfg.scripts@,
            ) && keybinds_distinct(builtin_view(cfg.builtin@), seen_view(cfg.scripts@)),
            Err(e) => keybinds_outcome(builtin@, scripts@, scripts_dir@) == Err::<
                BindingsView,
                ConfigErrorView,
            >(e@),
        },
{
    let ghost items = builtin_items(builtin@) + script_items(scripts@);
    let ghost dir = scripts_dir@;
    let ghost nb = builtin@.len();
    let mut names: Vec<String> = Vec::new();
    let mut k: usize = 0;
    while k < builtin.len()
        invariant
            k <= builtin@.len(),
            names@.len() == k,
            forall|j: int| 0 <= j < k ==> #[trigger] names@[j]@ == builtin@[j].0@,
        decreases builtin@.len() - k,
    {
        names.push(builtin[k].0.clone());
        k = k + 1;
    }
    proof {
        assert(names_of(names@) =~= builtin@.map_values(|e: (String, String)| e.0@));
    }
    let border = order_by_name(&names);
    let mut snames: Vec<String> = Vec::new();
    let mut k: usize = 0;
    while k < scripts.len()
        invariant
            k <= scripts@.len(),
            snames@.len() == k,
            forall|j: int| 0 <= j < k ==> #[trigger] snames@[j]@ == scripts@[j].keybind@,
        decreases scripts@.len() - k,
    {
        snames.push(scripts[k].keybind.clone());
        k = k + 1;
    }
    proof {
        assert(names_of(snames@) =~= scripts@.map_values(|e: ScriptBinding| e.keybind@));
    }
    let sorder = order_by_name(&snames);
    proof {
        lemma_name_order_len(builtin@.map_values(|e: (String, String)| e.0@), builtin@.len());
        lemma_name_order_len(scripts@.map_values(|e: ScriptBinding| e.keybind@), scripts@.len());
        assert(items.len() == border@.len() + sorder@.len());
    }
    let mut seen: Vec<(Keybind, String)> = Vec::new();
    let mut out_builtin: Vec<(Keybind, Action)> = Vec::new();
    let mut out_scripts: Vec<(Keybind, String)> = Vec::new();
    proof {
        assert(items.take(0) =~= Seq::<BindingItem>::empty());
        assert(seen_view(seen@) =~= seq![]);
        assert(builtin_view(out_builtin@) =~= seq![]);
        assert(seen_view(out_scripts@) =~= seq![]);
    }
    let mut t: usize = 0;
    while t < border.len()
        invariant
            t <= border@.len(),
            items == builtin_items(builtin@) + script_items(scripts@),
            dir == scripts_dir@,
            items.len() == border@.len() + sorder@.len(),
            border@.map_values(|i: usize| i as int) == name_order(
                builtin@.map_values(|e: (String, String)| e.0@),
                builtin@.len(),
            ),
            forall|j: int| 0 <= j < border@.len() ==> #[trigger] border@[j] < builtin@.len(),
            out_scripts@.len() == 0,
            bindings_fold(items.take(t as int), dir) == Ok::<BindingsView, ConfigErrorView>(
                BindingsView {
                    seen: seen_view(seen@),
                    builtin: builtin_view(out_builtin@),
                    scripts: seen_view(out_scripts@),
                },
            ),
        decreases border@.len() - t,
    {
        let ghost st = BindingsView {
            seen: seen_view(seen@),
            builtin: builtin_view(out_builtin@),
            scripts: seen_view(out_scripts@),
        };
        let entry = &builtin[border[t]];
        proof {
            assert(items.take(t + 1).drop_last() =~= items.take(t as int));
            let bi = border@[t as int] as int;
            assert(border@.map_values(|i: usize| i as int)[t as int] == bi);
            assert(items[t as int] == builtin_items(builtin@)[t as int]);
            assert(items.take(t + 1).last() == (BindingItem::Builtin {
                raw: builtin@[bi].0@,
                action: builtin@[bi].1@,
            }));
        }
        let kb = match parse_and_check_duplicate(entry.0.as_str(), &seen) {
            Ok(kb) => kb,
            Err(e) => {
                proof {
                    lemma_fold_error_sticks(items, dir, t + 1);
                }
                return Err(e);
            },
        };
        match Action::parse(entry.1.as_str()) {
            Some(a) => {
                seen.push((kb.clone(), entry.0.clone()));
                out_builtin.push((kb, a));
                proof {
                    assert(seen_view(seen@) =~= st.seen.push((kb_view(kb), entry.0@)));
                    assert(builtin_view(out_builtin@) =~= st.builtin.push((kb_view(kb), a)));
                }
            },
            None => {
                let e = ConfigError::UnknownAction {
                    keybind: entry.0.clone(),
                    action: entry.1.clone(),
                };
                proof {
                    lemma_fold_error_sticks(items, dir, t + 1);
                }
                return Err(e);
            },
        }
        t = t + 1;
    }
    let mut u: usize = 0;
    while u < sorder.len()
        invariant
            u <= sorder@.len(),
            items == builtin_items(builtin@) + script_items(scripts@),
            dir == scripts_dir@,
            items.len() == border@.len() + sorder@.len(),
            sorder@.map_values(|i: usize| i as int) == name_order(
                scripts@.map_values(|e: ScriptBinding| e.keybind@),
                scripts@.len(),
            ),
            builtin_items(builtin@).len() == border@.len(),
            forall|j: int| 0 <= j < sorder@.len() ==> #[trigger] sorder@[j] < scripts@.len(),
            bindings_fold(items.take(border@.len() + u), dir) == Ok::<
                BindingsView,
                ConfigErrorView,
            >(
                BindingsView {
                    seen: seen_view(seen@),
                    builtin: builtin_view(out_builtin@),
                    scripts: seen_view(out_scripts@),
                },
            ),
        decreases sorder@.len() - u,
    {
        let ghost st = BindingsView {
            seen: seen_view(seen@),
            builtin: builtin_view(out_builtin@),
            scripts: seen_view(out_scripts@),
        };
        let ghost t = border@.len() + u;
        let entry = &scripts[sorder[u]];
        proof {
            assert(items.take(t + 1).drop_last() =~= items.take(t));
            let si = sorder@[u as int] as int;
            assert(sorder@.map_values(|i: usize| i as int)[u as int] == si);
            assert(items[t] == script_items(scripts@)[u as int]);
            assert(items.take(t + 1).last() == (BindingItem::Script {
                raw: scripts@[si].keybind@,
                script: scripts@[si].script@,
                status: scripts@[si].status,
            }));
        }
        let kb = match parse_and_check_duplicate(entry.keybind.as_str(), &seen) {
            Ok(kb) => kb,
            Err(e) => {
                proof {
                    lemma_fold_error_sticks(items, dir, t + 1);
                }
                return Err(e);
            },
        };
        match entry.status {
            ScriptFileStatus::Executable => {
                seen.push((kb.clone(), entry.keybind.clone()));
                out_scripts.push((kb, entry.script.clone()));
                proof {
                    assert(seen_view(seen@) =~= st.seen.push((kb_view(kb), entry.keybind@)));
                    assert(seen_view(out_scripts@) =~= st.scripts.push(
                        (kb_view(kb), entry.script@),
                    ));
                }
            },
            ScriptFileStatus::Missing => {
                let e = ConfigError::ScriptNotFound {
                    keybind: entry.keybind.clone(),
                    script: entry.script.clone(),
                    path: join(scripts_dir, entry.script.as_str()),
                };
                proof {
                    lemma_fold_error_sticks(items, dir, t + 1);
                }
                return Err(e);
            },
            ScriptFileStatus::NotExecutable => {
                let e = ConfigError::ScriptNotExecutable {
                    keybind: entry.keybind.clone(),
                    script: entry.script.clone(),
                    path: join(scripts_dir, entry.script.as_str()),
                };
                proof {
                    lemma_fold_error_sticks(items, dir, t + 1);
                }
                return Err(e);
            },
        }
        u = u + 1;
    }
    proof {
        assert(items.take(items.len() as int) =~= items);
        law_accepted_keybinds_distinct(builtin@, scripts@, dir);
    }
    Ok(KeybindsConfig { builtin: out_builtin, scripts: out_scripts })
}

/// No binding occurs twice within or across the two tables: no two keybinds
/// have the same shift flag and the same key, counting keys with one keycode
/// (aliases) as the same key.
pub open spec fn keybinds_distinct(
    b: Seq<((bool, Seq<char>), Action)>,
    s: Seq<((bool, Seq<char>), Seq<char>)>,
) -> bool {
    &&& forall|i: int, j: int|
        0 <= i < j < b.len() ==> binding_key(#[trigger] b[i].0) != binding_key(#[trigger] b[j].0)
    &&& forall|i: int, j: int|
        0 <= i < j < s.len() ==> binding_key(#[trigger] s[i].0) != binding_key(#[trigger] s[j].0)
    &&& forall|i: int, j: int|
        0 <= i < b.len() && 0 <= j < s.len() ==> binding_key(#[trigger] b[i].0) != binding_key(
            #[trigger] s[j].0,
        )
}

/// Whether a binding is found in `seen` depends only on its `binding_key`.
proof fn lemma_first_binding_key(
    seen: Seq<((bool, Seq<char>), Seq<char>)>,
    k1: (bool, Seq<char>),
    k2: (bool, Seq<char>),
)
    requires
        binding_key(k1) == binding_key(k2),
    ensures
        first_binding(seen, k1) == first_binding(seen, k2),
    decreases seen.len(),
{
    if seen.len() > 0 {
        lemma_first_binding_key(seen.drop_last(), k1, k2);
    }
}

proof fn lemma_first_binding_push(
    seen: Seq<((bool, Seq<char>), Seq<char>)>,
    x: ((bool, Seq<char>), Seq<char>),
    kb: (bool, Seq<char>),
)
    ensures
        first_binding(seen, kb) is Some ==> first_binding(seen.push(x), kb) is Some,
        binding_key(x.0) == binding_key(kb) ==> first_binding(seen.push(x), kb) is Some,
{
    assert(seen.push(x).drop_last() =~= seen);
}

/// Every binding accepted so far is in `seen`, and no keybind occurs twice in
/// the two tables.
pub open spec fn bindings_consistent(st: BindingsView) -> bool {
    &&& forall|i: int|
        0 <= i < st.builtin.len() ==> (#[trigger] first_binding(st.seen, st.builtin[i].0)) is Some
    &&& forall|i: int|
        0 <= i < st.scripts.len() ==> (#[trigger] first_binding(st.seen, st.scripts[i].0)) is Some
    &&& keybinds_distinct(st.builtin, st.scripts)
}

proof fn lemma_fold_consistent(items: Seq<BindingItem>, dir: Seq<char>)
    requires
        bindings_fold(items, dir) is Ok,
    ensures
        bindings_consistent(bindings_fold(items, dir)->Ok_0),
        bindings_fold(items, dir)->Ok_0.builtin.len() + bindings_fold(items, dir)->Ok_0.scripts.len()
            == items.len(),
    decreases items.len(),
{
    if items.len() > 0 {
        lemma_fold_consistent(items.drop_last(), dir);
        let st = bindings_fold(items.drop_last(), dir)->Ok_0;
        let st2 = bindings_fold(items, dir)->Ok_0;
        let kb = keybind_outcome(items.last().raw())->Ok_0;
        let raw = items.last().raw();
        assert(first_binding(st.seen, kb) is None);
        assert forall|k: (bool, Seq<char>)|
            first_binding(st.seen, k) is Some implies #[trigger] first_binding(
            st.seen.push((kb, raw)),
            k,
        ) is Some by {
            lemma_first_binding_push(st.seen, (kb, raw), k);
        }
        lemma_first_binding_push(st.seen, (kb, raw), kb);
        assert(st2.seen == st.seen.push((kb, raw)));
        assert forall|i: int| 0 <= i < st.builtin.len() implies binding_key(st.builtin[i].0)
            != binding_key(kb) by {
            assert(first_binding(st.seen, st.builtin[i].0) is Some);
            if binding_key(st.builtin[i].0) == binding_key(kb) {
                lemma_first_binding_key(st.seen, st.builtin[i].0, kb);
            }
        }
        assert forall|i: int| 0 <= i < st.scripts.len() implies binding_key(st.scripts[i].0)
            != binding_key(kb) by {
            assert(first_binding(st.seen, st.scripts[i].0) is Some);
            if binding_key(st.scripts[i].0) == binding_key(kb) {
                lemma_first_binding_key(st.seen, st.scripts[i].0, kb);
            }
        }
        assert forall|i: int|
            0 <= i < st2.builtin.len() implies (#[trigger] first_binding(
            st2.seen,
            st2.builtin[i].0,
        )) is Some by {
            if i < st.builtin.len() && st2.builtin.len() > st.builtin.len() {
                assert(st2.builtin[i] == st.builtin[i]);
                assert(first_binding(st.seen, st.builtin[i].0) is Some);
            } else if st2.builtin.len() == st.builtin.len() {
                assert(st2.builtin == st.builtin);
                assert(first_binding(st.seen, st.builtin[i].0) is Some);
            }
        }
        assert forall|i: int|
            0 <= i < st2.scripts.len() implies (#[trigger] first_binding(
            st2.seen,
            st2.scripts[i].0,
        )) is Some by {
            if i < st.scripts.len() && st2.scripts.len() > st.scripts.len() {
                assert(st2.scripts[i] == st.scripts[i]);
                assert(first_binding(st.seen, st.scripts[i].0) is Some);
            } else if st2.scripts.len() == st.scripts.len() {
                assert(st2.scripts == st.scripts);
                assert(first_binding(st.seen, st.scripts[i].0) is Some);
            }
        }
    }
}

/// A validated configuration binds no keybind twice, and keeps every entry:
/// any binding written twice (in either table, or once in each, also under
/// another name for the same key) is rejected.
pub proof fn law_accepted_keybinds_distinct(
    builtin: Seq<(String, String)>,
    scripts: Seq<ScriptBinding>,
    dir: Seq<char>,
)
    requires
        keybinds_outcome(builtin, scripts, dir) is Ok,
    ensures
        keybinds_distinct(
            keybinds_outcome(builtin, scripts, dir)->Ok_0.builtin,
            keybinds_outcome(builtin, scripts, dir)->Ok_0.scripts,
        ),
        keybinds_outcome(builtin, scripts, dir)->Ok_0.builtin.len()
            + keybinds_outcome(builtin, scripts, dir)->Ok_0.scripts.len() == builtin.len()
            + scripts.len(),
{
    lemma_name_order_len(builtin.map_values(|e: (String, String)| e.0@), builtin.len());
    lemma_name_order_len(scripts.map_values(|e: ScriptBinding| e.keybind@), scripts.len());
    lemma_fold_consistent(builtin_items(builtin) + script_items(scripts), dir);
}

/// The verdict of a floating-point range check made by the caller: the value
/// (or its documented default) is in range, or the reason it is not.
#[derive(Debug, Clone, PartialEq, Eq)]
pub enum FloatCheck {
    Valid,
    Invalid(String),
}

/// A configuration's settings as read from the file, with every
/// floating-point field replaced by its range-check verdict. `None` marks a
/// field left out of the file.
#[derive(Debug, Clone)]
pub struct RawSettings {
    pub watch_keycode: Option<String>,
    pub max_tiled_windows: Option<i64>,
    pub split_ratio_default: FloatCheck,
    pub insert_heuristic: Option<String>,
    pub resize_step: FloatCheck,
    pub resize_min_ratio: FloatCheck,
    pub resize_max_ratio: FloatCheck,
    /// Whether `min_ratio` is below `max_ratio`.
    pub resize_order: FloatCheck,
    pub gaps_outer: Option<FloatCheck>,
    pub gaps_inner: Option<FloatCheck>,
    pub always_float_apps: Vec<String>,
    pub new_float_placement: Option<String>,
    pub float_move_step: FloatCheck,
    pub scripts_dir: Option<String>,
    pub builtin_keybinds: Vec<(String, String)>,
    pub script_keybinds: Vec<ScriptBinding>,
}

/// The validated settings other than the floating-point ones.
#[derive(Debug, Clone)]
pub struct ValidSettings {
    pub hyperkey: HyperkeyConfig,
    pub max_tiled_windows: usize,
    pub insert_heuristic: InsertHeuristic,
    pub always_float_apps: Vec<String>,
    pub new_float_placement: FloatPlacement,
    pub scripts: ScriptsConfig,
    pub keybinds: KeybindsConfig,
}

/// `ValidSettings`, taken by view.
pub struct SettingsView {
    pub watch_keycode: Seq<char>,
    pub max_tiled_windows: int,
    pub insert_heuristic: InsertHeuristic,
    pub new_float_placement: FloatPlacement,
    pub scripts_dir: Seq<char>,
    pub bindings: BindingsView,
}

/// The view of an optional owned string.
pub open spec fn opt_string_view(s: Option<String>) -> Option<Seq<char>> {
    match s {
        Some(t) => Some(t@),
        None => None,
    }
}

/// The error a float verdict raises for `field`, if any.
pub open spec fn float_problem(field: Seq<char>, check: FloatCheck) -> Option<ConfigErrorView> {
    match check {
        FloatCheck::Valid => None,
        FloatCheck::Invalid(reason) => Some(
            ConfigErrorView::InvalidValue { field, reason: reason@ },
        ),
    }
}

/// The error a required float field raises for `field`, if any.
pub open spec fn required_float_problem(field: Seq<char>, check: Option<FloatCheck>) -> Option<
    ConfigErrorView,
> {
    match check {
        None => Some(ConfigErrorView::MissingField(field)),
        Some(c) => float_problem(field, c),
    }
}

/// The first error among `[tiling.resize]`'s checks, if any.
pub open spec fn resize_problem(raw: RawSettings) -> Option<ConfigErrorView> {
    if float_problem("tiling.resize.step"@, raw.resize_step) is Some {
        float_problem("tiling.resize.step"@, raw.resize_step)
    } else if float_problem("tiling.resize.min_ratio"@, raw.resize_min_ratio) is Some {
        float_problem("tiling.resize.min_ratio"@, raw.resize_min_ratio)
    } else if float_problem("tiling.resize.max_ratio"@, raw.resize_max_ratio) is Some {
        float_problem("tiling.resize.max_ratio"@, raw.resize_max_ratio)
    } else {
        float_problem("tiling.resize.max_ratio"@, raw.resize_order)
    }
}

/// The first error among `[gaps]`' checks, if any.
pub open spec fn gaps_problem(raw: RawSettings) -> Option<ConfigErrorView> {
    if required_float_problem("gaps.outer"@, raw.gaps_outer) is Some {
        required_float_problem("gaps.outer"@, raw.gaps_outer)
    } else {
        required_float_problem("gaps.inner"@, raw.gaps_inner)
    }
}

/// What validating `raw` gives: the settings, or the first error, checking
/// `[hyperkey]`, `[tiling]` (with `[tiling.resize]`), `[gaps]`,
/// `[floating]`, `[scripts]` and the keybind tables in that order.
pub open spec fn settings_outcome(raw: RawSettings, config_dir: Seq<char>) -> Result<
    SettingsView,
    ConfigErrorView,
> {
    match hyperkey_outcome(opt_string_view(raw.watch_keycode)) {
        Err(e) => Err(e),
        Ok(key) => match max_windows_outcome(raw.max_tiled_windows) {
            Err(e) => Err(e),
            Ok(n) => match float_problem("tiling.split_ratio_default"@, raw.split_ratio_default) {
                Some(e) => Err(e),
                None => match heuristic_outcome(opt_string_view(raw.insert_heuristic)) {
                    Err(e) => Err(e),
                    Ok(h) => match resize_problem(raw) {
                        Some(e) => Err(e),
                        None => match gaps_problem(raw) {
                            Some(e) => Err(e),
                            None => match placement_outcome(
                                opt_string_view(raw.new_float_placement),
                            ) {
                                Err(e) => Err(e),
                                Ok(p) => match float_problem(
                                    "floating.float_move_step"@,
                                    raw.float_move_step,
                                ) {
                                    Some(e) => Err(e),
                                    None => match scripts_dir_outcome(
                                        opt_string_view(raw.scripts_dir),
                                        config_dir,
                                    ) {
                                        Err(e) => Err(e),
                                        Ok(dir) => match keybinds_outcome(
                                            raw.builtin_keybinds@,
                                            raw.script_keybinds@,
                                            dir,
                                        ) {
                                            Err(e) => Err(e),
                                            Ok(b) => Ok(
                                                SettingsView {
                                                    watch_keycode: key,
                                                    max_tiled_windows: n,
                                                    insert_heuristic: h,
                                                    new_float_placement: p,
                                                    scripts_dir: dir,
                                                    bindings: b,
                                                },
                                            ),
                                        },
                                    },
                                },
                            },
                        },
                    },
                },
            },
        },
    }
}

fn opt_str(s: &Option<String>) -> (r: Option<&str>)
    ensures
        opt_view(r) == opt_string_view(*s),
{
    match s {
        Some(t) => Some(t.as_str()),
        None => None,
    }
}

fn check_float(field: &'static str, check: &FloatCheck) -> (r: Result<(), ConfigError>)
    ensures
        match float_problem(field@, *check) {
            Some(e) => r matches Err(x) && x@ == e,
            None => r is Ok,
        },
{
    match check {
        FloatCheck::Valid => Ok(()),
        FloatCheck::Invalid(reason) => Err(ConfigError::InvalidValue { field, reason: reason.clone() }),
    }
}

fn check_required_float(field: &'static str, check: &Option<FloatCheck>) -> (r: Result<
    (),
    ConfigError,
>)
    ensures
        match required_float_problem(field@, *check) {
            Some(e) => r matches Err(x) && x@ == e,
            None => r is Ok,
        },
{
    match check {
        None => Err(ConfigError::MissingField(field)),
        Some(c) => check_float(field, c),
    }
}

/// Validates a configuration's settings, filling in the documented defaults
/// and reporting the first problem found (see `settings_outcome`).
pub fn validate(raw: RawSettings, config_dir: &str) -> (r: Result<ValidSettings, ConfigError>)
    ensures
        match r {
            Ok(v) => settings_outcome(raw, config_dir@) matches Ok(sv) && sv.watch_keycode
                == v.hyperkey.watch_keycode@ && sv.max_tiled_windows == v.max_tiled_windows
                && sv.insert_heuristic == v.insert_heuristic && sv.new_float_placement
                == v.new_float_placement && sv.scripts_dir == v.scripts.dir@ && sv.bindings.builtin
                == builtin_view(v.keybinds.builtin@) && sv.bindings.scripts == seen_view(
                v.keybinds.scripts@,
            ) && v.always_float_apps@ == raw.always_float_apps@ && keybinds_distinct(
                builtin_view(v.keybinds.builtin@),
                seen_view(v.keybinds.scripts@),
            ),
            Err(e) => settings_outcome(raw, config_dir@) == Err::<SettingsView, ConfigErrorView>(
                e@,
            ),
        },
{
    let hyperkey = match validate_hyperkey(opt_str(&raw.watch_keycode)) {
        Ok(h) => h,
        Err(e) => return Err(e),
    };
    let max_tiled_windows = match validate_max_tiled_windows(raw.max_tiled_windows) {
        Ok(n) => n,
        Err(e) => return Err(e),
    };
    match check_float("tiling.split_ratio_default", &raw.split_ratio_default) {
        Ok(()) => {},
        Err(e) => return Err(e),
    }
    let insert_heuristic = match parse_insert_heuristic(opt_str(&raw.insert_heuristic)) {
        Ok(h) => h,
        Err(e) => return Err(e),
    };
    match check_float("tiling.resize.step", &raw.resize_step) {
        Ok(()) => {},
        Err(e) => return Err(e),
    }
    match check_float("tiling.resize.min_ratio", &raw.resize_min_ratio) {
        Ok(()) => {},
        Err(e) => return Err(e),
    }
    match check_float("tiling.resize.max_ratio", &raw.resize_max_ratio) {
        Ok(()) => {},
        Err(e) => return Err(e),
    }
    match check_float("tiling.resize.max_ratio", &raw.resize_order) {
        Ok(()) => {},
        Err(e) => return Err(e),
    }
    match check_required_float("gaps.outer", &raw.gaps_outer) {
        Ok(()) => {},
        Err(e) => return Err(e),
    }
    match check_required_float("gaps.inner", &raw.gaps_inner) {
        Ok(()) => {},
        Err(e) => return Err(e),
    }
    let new_float_placement = match parse_float_placement(opt_str(&raw.new_float_placement)) {
        Ok(p) => p,
        Err(e) => return Err(e),
    };
    match check_float("floating.float_move_step", &raw.float_move_step) {
        Ok(()) => {},
        Err(e) => return Err(e),
    }
    let scripts = match validate_scripts(opt_str(&raw.scripts_dir), config_dir) {
        Ok(s) => s,
        Err(e) => return Err(e),
    };
    let keybinds = match validate_keybinds(
        &raw.builtin_keybinds,
        &raw.script_keybinds,
        scripts.dir.as_str(),
    ) {
        Ok(k) => k,
        Err(e) => return Err(e),
    };
    Ok(
        ValidSettings {
            hyperkey,
            max_tiled_windows,
            insert_heuristic,
            always_float_apps: raw.always_float_apps,
            new_float_placement,
            scripts,
            keybinds,
        },
    )
}

proof fn lemma_name_le_total(a: Seq<char>, b: Seq<char>)
    ensures
        name_le(a, b) || name_le(b, a),
    decreases a.len(),
{
    if a.len() > 0 && b.len() > 0 && a[0] == b[0] {
        lemma_name_le_total(a.drop_first(), b.drop_first());
    }
}

proof fn lemma_name_le_trans(a: Seq<char>, b: Seq<char>, c: Seq<char>)
    requires
        name_le(a, b),
        name_le(b, c),
    ensures
        name_le(a, c),
    decreases a.len(),
{
    if a.len() > 0 && b.len() > 0 && c.len() > 0 && a[0] == b[0] && b[0] == c[0] {
        lemma_name_le_trans(a.drop_first(), b.drop_first(), c.drop_first());
    }
}

/// `order` lists indices whose keys never decrease.
pub open spec fn ordered_by_name(keys: Seq<Seq<char>>, order: Seq<int>) -> bool {
    forall|i: int, j: int|
        0 <= i < j < order.len() ==> name_le(keys[#[trigger] order[i]], keys[#[trigger] order[j]])
}

proof fn lemma_insert_by_name_props(keys: Seq<Seq<char>>, i: int, list: Seq<int>)
    requires
        ordered_by_name(keys, list),
    ensures
        ordered_by_name(keys, insert_by_name(keys, i, list)),
        forall|x: int| #[trigger] insert_by_name(keys, i, list).contains(x) <==> (list.contains(x)
            || x == i),
        !list.contains(i) && list.no_duplicates() ==> insert_by_name(keys, i, list).no_duplicates(),
    decreases list.len(),
{
    let r = insert_by_name(keys, i, list);
    if list.len() == 0 {
        assert forall|x: int| #[trigger] r.contains(x) <==> (list.contains(x) || x == i) by {
            if r.contains(x) {
                assert(r[0] == x);
            }
            if x == i {
                assert(r[0] == i);
            }
        }
    } else if name_le(keys[i], keys[list[0]]) {
        assert forall|a: int, b: int| 0 <= a < b < r.len() implies name_le(
            keys[#[trigger] r[a]],
            keys[#[trigger] r[b]],
        ) by {
            if a == 0 {
                assert(r[b] == list[b - 1]);
                if b - 1 > 0 {
                    assert(name_le(keys[list[0]], keys[list[b - 1]]));
                    lemma_name_le_trans(keys[i], keys[list[0]], keys[list[b - 1]]);
                }
            } else {
                assert(r[a] == list[a - 1]);
                assert(r[b] == list[b - 1]);
            }
        }
        assert forall|x: int| #[trigger] r.contains(x) <==> (list.contains(x) || x == i) by {
            if r.contains(x) {
                let t = choose|t: int| 0 <= t < r.len() && r[t] == x;
                if t > 0 {
                    assert(list[t - 1] == x);
                }
            }
            if list.contains(x) {
                let t = choose|t: int| 0 <= t < list.len() && list[t] == x;
                assert(r[t + 1] == x);
            }
            if x == i {
                assert(r[0] == i);
            }
        }
        if !list.contains(i) && list.no_duplicates() {
            assert forall|a: int, b: int| 0 <= a < b < r.len() implies r[a] != r[b] by {
                if a == 0 {
                    assert(r[b] == list[b - 1]);
                    assert(list.contains(list[b - 1]));
                } else {
                    assert(r[a] == list[a - 1]);
                    assert(r[b] == list[b - 1]);
                }
            }
        }
    } else {
        let rest = list.drop_first();
        assert(ordered_by_name(keys, rest)) by {
            assert forall|a: int, b: int| 0 <= a < b < rest.len() implies name_le(
                keys[#[trigger] rest[a]],
                keys[#[trigger] rest[b]],
            ) by {
                assert(rest[a] == list[a + 1]);
                assert(rest[b] == list[b + 1]);
            }
        }
        lemma_insert_by_name_props(keys, i, rest);
        let sub = insert_by_name(keys, i, rest);
        assert(r == seq![list[0]] + sub);
        lemma_name_le_total(keys[i], keys[list[0]]);
        assert forall|a: int, b: int| 0 <= a < b < r.len() implies name_le(
            keys[#[trigger] r[a]],
            keys[#[trigger] r[b]],
        ) by {
            if a == 0 {
                assert(r[b] == sub[b - 1]);
                assert(sub.contains(sub[b - 1]));
                if sub[b - 1] == i {
                } else {
                    let t = choose|t: int| 0 <= t < list.len() && list[t] == sub[b - 1];
                    if t > 0 {
                        assert(name_le(keys[list[0]], keys[list[t]]));
                    }
                }
            } else {
                assert(r[a] == sub[a - 1]);
                assert(r[b] == sub[b - 1]);
            }
        }
        assert forall|x: int| #[trigger] r.contains(x) <==> (list.contains(x) || x == i) by {
            if r.contains(x) {
                let t = choose|t: int| 0 <= t < r.len() && r[t] == x;
                if t == 0 {
                    assert(list[0] == x);
                }
                if t > 0 {
                    assert(sub[t - 1] == x);
                    assert(sub.contains(x));
                    if rest.contains(x) {
                        let q = choose|q: int| 0 <= q < rest.len() && rest[q] == x;
                        assert(list[q + 1] == x);
                    }
                }
            }
            if list.contains(x) {
                let t = choose|t: int| 0 <= t < list.len() && list[t] == x;
                if t == 0 {
                    assert(r[0] == x);
                }
                if t > 0 {
                    assert(rest[t - 1] == x);
                    assert(rest.contains(x));
                    assert(sub.contains(x));
                    let q = choose|q: int| 0 <= q < sub.len() && sub[q] == x;
                    assert(r[q + 1] == x);
                }
            }
            if x == i {
                assert(sub.contains(i));
                let q = choose|q: int| 0 <= q < sub.len() && sub[q] == i;
                assert(r[q + 1] == i);
            }
        }
        if !list.contains(i) && list.no_duplicates() {
            assert(!rest.contains(i)) by {
                if rest.contains(i) {
                    let q = choose|q: int| 0 <= q < rest.len() && rest[q] == i;
                    assert(list[q + 1] == i);
                }
            }
            assert(rest.no_duplicates()) by {
                assert forall|a: int, b: int| 0 <= a < b < rest.len() implies rest[a] != rest[b] by {
                    assert(rest[a] == list[a + 1]);
                    assert(rest[b] == list[b + 1]);
                }
            }
            assert forall|a: int, b: int| 0 <= a < b < r.len() implies r[a] != r[b] by {
                if a == 0 {
                    assert(r[b] == sub[b - 1]);
                    assert(sub.contains(sub[b - 1]));
                    if sub[b - 1] == list[0] {
                        if rest.contains(list[0]) {
                            let q = choose|q: int| 0 <= q < rest.len() && rest[q] == list[0];
                            assert(list[q + 1] == list[0]);
                        }
                    }
                } else {
                    assert(r[a] == sub[a - 1]);
                    assert(r[b] == sub[b - 1]);
                }
            }
        }
    }
}

/// The order entries are checked in is a rearrangement of all of them,
/// each once, with names never decreasing.
pub proof fn law_name_order_sorts(keys: Seq<Seq<char>>, n: nat)
    requires
        n <= keys.len(),
    ensures
        name_order(keys, n).len() == n,
        name_order(keys, n).no_duplicates(),
        forall|x: int| #[trigger] name_order(keys, n).contains(x) <==> 0 <= x < n,
        ordered_by_name(keys, name_order(keys, n)),
    decreases n,
{
    lemma_name_order_len(keys, n);
    if n > 0 {
        let prev = name_order(keys, (n - 1) as nat);
        law_name_order_sorts(keys, (n - 1) as nat);
        lemma_insert_by_name_props(keys, n - 1, prev);
        assert(!prev.contains(n - 1));
    } else {
        assert forall|x: int| #[trigger] name_order(keys, n).contains(x) <==> 0 <= x < n by {}
    }
}

} // verus!
