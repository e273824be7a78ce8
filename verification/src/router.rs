//! Keybind routing: given the `(keycode, shift)` pair a keyboard event tap
//! reports while the hyper key is held, finds the built-in action or the
//! script it is bound to, if any. Dispatching the action and running the
//! script are the caller's business.
use crate::action::Action;
use crate::config::{
    binding_key, builtin_view, join, join_path, kb_view, keybinds_distinct, seen_view, KeybindsConfig,
};
use crate::keybind::Keybind;
use crate::keycode::{key_code, lookup};
use vstd::prelude::*;

verus! {

/// The entry that `key` resolves to in `routes`: the last one listed for it,
/// as inserting the routes into a map in order would leave it.
pub open spec fn route_of<V>(routes: Seq<((u16, bool), V)>, key: (u16, bool)) -> Option<V>
    decreases routes.len(),
{
    if routes.len() == 0 {
        None
    } else if routes.last().0 == key {
        Some(routes.last().1)
    } else {
        route_of(routes.drop_last(), key)
    }
}

/// The routes of built-in bindings: each binding whose key has a keycode,
/// in order.
pub open spec fn action_routes(b: Seq<((bool, Seq<char>), Action)>) -> Seq<((u16, bool), Action)>
    decreases b.len(),
{
    if b.len() == 0 {
        seq![]
    } else {
        let rest = action_routes(b.drop_last());
        match key_code(b.last().0.1) {
            Some(c) => rest.push(((c, b.last().0.0), b.last().1)),
            None => rest,
        }
    }
}

/// The routes of script bindings, each resolved to its full path in `dir`.
pub open spec fn script_routes(s: Seq<((bool, Seq<char>), Seq<char>)>, dir: Seq<char>) -> Seq<
    ((u16, bool), Seq<char>),
>
    decreases s.len(),
{
    if s.len() == 0 {
        seq![]
    } else {
        let rest = script_routes(s.drop_last(), dir);
        match key_code(s.last().0.1) {
            Some(c) => rest.push(((c, s.last().0.0), join_path(dir, s.last().1))),
            None => rest,
        }
    }
}

/// The bindings whose key has no keycode, in order (they can never fire).
pub open spec fn unrouted(kbs: Seq<(bool, Seq<char>)>) -> Seq<(bool, Seq<char>)>
    decreases kbs.len(),
{
    if kbs.len() == 0 {
        seq![]
    } else {
        let rest = unrouted(kbs.drop_last());
        if key_code(kbs.last().1) is Some {
            rest
        } else {
            rest.push(kbs.last())
        }
    }
}

/// The keybind lookup tables.
pub struct Router {
    actions: Vec<((u16, bool), Action)>,
    /// Script keybinds, resolved to their full path.
    scripts: Vec<((u16, bool), String)>,
    skipped: Vec<Keybind>,
}

/// The views of script routes.
pub open spec fn path_routes(v: Seq<((u16, bool), String)>) -> Seq<((u16, bool), Seq<char>)> {
    v.map_values(|e: ((u16, bool), String)| (e.0, e.1@))
}

/// The views of keybinds.
pub open spec fn kbs_view(v: Seq<Keybind>) -> Seq<(bool, Seq<char>)> {
    v.map_values(|k: Keybind| kb_view(k))
}

impl Router {
    /// The built-in routes.
    pub closed spec fn actions_view(self) -> Seq<((u16, bool), Action)> {
        self.actions@
    }

    /// The script routes.
    pub closed spec fn scripts_view(self) -> Seq<((u16, bool), Seq<char>)> {
        path_routes(self.scripts@)
    }

    /// The bindings left out for want of a keycode.
    pub closed spec fn skipped_view(self) -> Seq<(bool, Seq<char>)> {
        kbs_view(self.skipped@)
    }

    /// Builds the tables from validated keybinds; script file names are
    /// resolved against `scripts_dir`. A binding whose key has no macOS
    /// keycode (`f21`–`f24`) is left out and listed in `skipped`.
    pub fn build(keybinds: &KeybindsConfig, scripts_dir: &str) -> (r: Router)
        ensures
            r.actions_view() == action_routes(builtin_view(keybinds.builtin@)),
            r.scripts_view() == script_routes(seen_view(keybinds.scripts@), scripts_dir@),
            r.skipped_view() == unrouted(
                builtin_view(keybinds.builtin@).map_values(
                    |e: ((bool, Seq<char>), Action)| e.0,
                ) + seen_view(keybinds.scripts@).map_values(
                    |e: ((bool, Seq<char>), Seq<char>)| e.0,
                ),
            ),
    {
        let ghost bv = builtin_view(keybinds.builtin@);
        let ghost sv = seen_view(keybinds.scripts@);
        let ghost all = bv.map_values(|e: ((bool, Seq<char>), Action)| e.0) + sv.map_values(
            |e: ((bool, Seq<char>), Seq<char>)| e.0,
        );
        let mut actions: Vec<((u16, bool), Action)> = Vec::new();
        let mut skipped: Vec<Keybind> = Vec::new();
        let mut i: usize = 0;
        while i < keybinds.builtin.len()
            invariant
                i <= keybinds.builtin@.len(),
                bv == builtin_view(keybinds.builtin@),
                all == bv.map_values(|e: ((bool, Seq<char>), Action)| e.0) + sv.map_values(
                    |e: ((bool, Seq<char>), Seq<char>)| e.0,
                ),
                actions@ == action_routes(bv.take(i as int)),
                kbs_view(skipped@) == unrouted(all.take(i as int)),
            decreases keybinds.builtin@.len() - i,
        {
            let entry = &keybinds.builtin[i];
            proof {
                assert(bv.take(i + 1).drop_last() =~= bv.take(i as int));
                assert(all.take(i + 1).drop_last() =~= all.take(i as int));
                assert(all[i as int] == bv[i as int].0);
            }
            match lookup(entry.0.key.as_str()) {
                Some(code) => {
                    actions.push(((code, entry.0.shift), entry.1));
                },
                None => {
                    let ghost before = skipped@;
                    skipped.push(entry.0.clone());
                    proof {
                        assert(kbs_view(skipped@) =~= kbs_view(before).push(kb_view(entry.0)));
                    }
                },
            }
            i = i + 1;
        }
        let mut scripts: Vec<((u16, bool), String)> = Vec::new();
        let mut j: usize = 0;
        let ghost nb = keybinds.builtin@.len();
        proof {
            assert(bv.take(nb as int) =~= bv);
        }
        while j < keybinds.scripts.len()
            invariant
                j <= keybinds.scripts@.len(),
                nb == keybinds.builtin@.len(),
                bv == builtin_view(keybinds.builtin@),
                sv == seen_view(keybinds.scripts@),
                all == bv.map_values(|e: ((bool, Seq<char>), Action)| e.0) + sv.map_values(
                    |e: ((bool, Seq<char>), Seq<char>)| e.0,
                ),
                actions@ == action_routes(bv),
                path_routes(scripts@) == script_routes(sv.take(j as int), scripts_dir@),
                kbs_view(skipped@) == unrouted(all.take(nb + j)),
            decreases keybinds.scripts@.len() - j,
        {
            let entry = &keybinds.scripts[j];
            proof {
                assert(sv.take(j + 1).drop_last() =~= sv.take(j as int));
                assert(all.take(nb + j + 1).drop_last() =~= all.take(nb + j));
                assert(all[nb + j] == sv[j as int].0);
            }
            match lookup(entry.0.key.as_str()) {
                Some(code) => {
                    let ghost before = scripts@;
                    scripts.push(((code, entry.0.shift), join(scripts_dir, entry.1.as_str())));
                    proof {
                        assert(path_routes(scripts@) =~= path_routes(before).push(
                            ((code, entry.0.shift), join_path(scripts_dir@, entry.1@)),
                        ));
                    }
                },
                None => {
                    let ghost before = skipped@;
                    skipped.push(entry.0.clone());
                    proof {
                        assert(kbs_view(skipped@) =~= kbs_view(before).push(kb_view(entry.0)));
                    }
                },
            }
            j = j + 1;
        }
        proof {
            assert(sv.take(keybinds.scripts@.len() as int) =~= sv);
            assert(all.take((nb + keybinds.scripts@.len()) as int) =~= all);
        }
        Router { actions, scripts, skipped }
    }

    /// The built-in action bound to `(keycode, shift)`, if any.
    pub fn action_for(&self, keycode: u16, shift: bool) -> (r: Option<Action>)
        ensures
            r == route_of(self.actions_view(), (keycode, shift)),
    {
        let mut found: Option<Action> = None;
        let mut i: usize = 0;
        while i < self.actions.len()
            invariant
                i <= self.actions@.len(),
                found == route_of(self.actions@.take(i as int), (keycode, shift)),
            decreases self.actions@.len() - i,
        {
            proof {
                assert(self.actions@.take(i + 1).drop_last() =~= self.actions@.take(i as int));
            }
            if self.actions[i].0.0 == keycode && self.actions[i].0.1 == shift {
                found = Some(self.actions[i].1);
            }
            i = i + 1;
        }
        proof {
            assert(self.actions@.take(self.actions@.len() as int) =~= self.actions@);
        }
        found
    }

    /// The full path of the script bound to `(keycode, shift)`, if any.
    pub fn script_for(&self, keycode: u16, shift: bool) -> (r: Option<String>)
        ensures
            match route_of(self.scripts_view(), (keycode, shift)) {
                Some(p) => r matches Some(s) && s@ == p,
                None => r is None,
            },
    {
        let ghost routes = path_routes(self.scripts@);
        let mut found: Option<String> = None;
        let mut i: usize = 0;
        while i < self.scripts.len()
            invariant
                i <= self.scripts@.len(),
                routes == path_routes(self.scripts@),
                match route_of(routes.take(i as int), (keycode, shift)) {
                    Some(p) => found matches Some(s) && s@ == p,
                    None => found is None,
                },
            decreases self.scripts@.len() - i,
        {
            proof {
                assert(routes.take(i + 1).drop_last() =~= routes.take(i as int));
            }
            if self.scripts[i].0.0 == keycode && self.scripts[i].0.1 == shift {
                found = Some(self.scripts[i].1.clone());
            }
            i = i + 1;
        }
        proof {
            assert(routes.take(self.scripts@.len() as int) =~= routes);
        }
        found
    }

    /// The keybinds left out of the tables because their key has no macOS
    /// keycode.
    pub fn skipped(&self) -> (r: &Vec<Keybind>)
        ensures
            kbs_view(r@) == self.skipped_view(),
    {
        &self.skipped
    }
}

/// Every route of a built-in binding comes from a binding with that key's
/// keycode and shift flag.
pub proof fn law_action_route_sound(b: Seq<((bool, Seq<char>), Action)>, key: (u16, bool))
    ensures
        route_of(action_routes(b), key) matches Some(a) ==> exists|i: int|
            0 <= i < b.len() && #[trigger] b[i].1 == a && key_code(b[i].0.1) == Some(key.0)
                && b[i].0.0 == key.1,
    decreases b.len(),
{
    if b.len() > 0 {
        law_action_route_sound(b.drop_last(), key);
        if let Some(a) = route_of(action_routes(b), key) {
            let rest = action_routes(b.drop_last());
            if key_code(b.last().0.1) is Some {
                let x = ((key_code(b.last().0.1)->Some_0, b.last().0.0), b.last().1);
                assert(rest.push(x).drop_last() =~= rest);
            }
            if key_code(b.last().0.1) is Some && action_routes(b).last().0 == key {
                assert(b[b.len() - 1].1 == a);
            } else {
                assert(route_of(rest, key) == Some(a));
                let i = choose|i: int|
                    0 <= i < b.drop_last().len() && #[trigger] b.drop_last()[i].1 == a && key_code(
                        b.drop_last()[i].0.1,
                    ) == Some(key.0) && b.drop_last()[i].0.0 == key.1;
                assert(b[i] == b.drop_last()[i]);
            }
        }
    }
}

/// Every built-in binding whose key has a keycode is routed.
pub proof fn law_action_route_complete(b: Seq<((bool, Seq<char>), Action)>, i: int)
    requires
        0 <= i < b.len(),
        key_code(b[i].0.1) is Some,
    ensures
        route_of(action_routes(b), (key_code(b[i].0.1)->Some_0, b[i].0.0)) is Some,
    decreases b.len(),
{
    let key = (key_code(b[i].0.1)->Some_0, b[i].0.0);
    let rest = action_routes(b.drop_last());
    if key_code(b.last().0.1) is Some {
        let x = ((key_code(b.last().0.1)->Some_0, b.last().0.0), b.last().1);
        assert(rest.push(x).drop_last() =~= rest);
    }
    if i < b.len() - 1 {
        law_action_route_complete(b.drop_last(), i);
        assert(b.drop_last()[i] == b[i]);
    }
}

/// Every route of a script binding comes from a binding with that key's
/// keycode and shift flag.
pub proof fn law_script_route_sound(
    s: Seq<((bool, Seq<char>), Seq<char>)>,
    dir: Seq<char>,
    key: (u16, bool),
)
    ensures
        route_of(script_routes(s, dir), key) matches Some(p) ==> exists|i: int|
            0 <= i < s.len() && p == join_path(dir, #[trigger] s[i].1) && key_code(s[i].0.1)
                == Some(key.0) && s[i].0.0 == key.1,
    decreases s.len(),
{
    if s.len() > 0 {
        law_script_route_sound(s.drop_last(), dir, key);
        if let Some(p) = route_of(script_routes(s, dir), key) {
            let rest = script_routes(s.drop_last(), dir);
            if key_code(s.last().0.1) is Some {
                let x = ((key_code(s.last().0.1)->Some_0, s.last().0.0), join_path(dir, s.last().1));
                assert(rest.push(x).drop_last() =~= rest);
            }
            if key_code(s.last().0.1) is Some && script_routes(s, dir).last().0 == key {
                assert(p == join_path(dir, s[s.len() - 1].1));
            } else {
                assert(route_of(rest, key) == Some(p));
                let i = choose|i: int|
                    0 <= i < s.drop_last().len() && p == join_path(dir, #[trigger] s.drop_last()[i].1)
                        && key_code(s.drop_last()[i].0.1) == Some(key.0) && s.drop_last()[i].0.0
                        == key.1;
                assert(s[i] == s.drop_last()[i]);
            }
        }
    }
}

/// Every script binding whose key has a keycode is routed.
pub proof fn law_script_route_complete(
    s: Seq<((bool, Seq<char>), Seq<char>)>,
    dir: Seq<char>,
    i: int,
)
    requires
        0 <= i < s.len(),
        key_code(s[i].0.1) is Some,
    ensures
        route_of(script_routes(s, dir), (key_code(s[i].0.1)->Some_0, s[i].0.0)) is Some,
    decreases s.len(),
{
    let rest = script_routes(s.drop_last(), dir);
    if key_code(s.last().0.1) is Some {
        let x = ((key_code(s.last().0.1)->Some_0, s.last().0.0), join_path(dir, s.last().1));
        assert(rest.push(x).drop_last() =~= rest);
    }
    if i < s.len() - 1 {
        law_script_route_complete(s.drop_last(), dir, i);
        assert(s.drop_last()[i] == s[i]);
    }
}

/// When no built-in binding and script binding share a keycode and shift
/// flag, a key press resolves to an action or a script, never both.
pub proof fn law_routes_disjoint(
    b: Seq<((bool, Seq<char>), Action)>,
    s: Seq<((bool, Seq<char>), Seq<char>)>,
    dir: Seq<char>,
    key: (u16, bool),
)
    requires
        forall|i: int, j: int|
            0 <= i < b.len() && 0 <= j < s.len() && #[trigger] key_code(b[i].0.1) is Some
                && key_code(b[i].0.1) == #[trigger] key_code(s[j].0.1) ==> b[i].0.0 != s[j].0.0,
    ensures
        !(route_of(action_routes(b), key) is Some && route_of(script_routes(s, dir), key) is Some),
{
    law_action_route_sound(b, key);
    law_script_route_sound(s, dir, key);
    if route_of(action_routes(b), key) is Some && route_of(script_routes(s, dir), key) is Some {
        let a = route_of(action_routes(b), key)->Some_0;
        let p = route_of(script_routes(s, dir), key)->Some_0;
        let i = choose|i: int|
            0 <= i < b.len() && #[trigger] b[i].1 == a && key_code(b[i].0.1) == Some(key.0)
                && b[i].0.0 == key.1;
        let j = choose|j: int|
            0 <= j < s.len() && p == join_path(dir, #[trigger] s[j].1) && key_code(s[j].0.1)
                == Some(key.0) && s[j].0.0 == key.1;
        assert(key_code(b[i].0.1) == key_code(s[j].0.1));
    }
}

/// When no two built-in bindings share a keycode and shift flag, pressing a
/// binding's key resolves to exactly that binding's action.
pub proof fn law_action_route_exact(b: Seq<((bool, Seq<char>), Action)>, i: int)
    requires
        0 <= i < b.len(),
        key_code(b[i].0.1) is Some,
        forall|j: int, k: int|
            0 <= j < k < b.len() && #[trigger] key_code(b[j].0.1) is Some && key_code(b[j].0.1)
                == #[trigger] key_code(b[k].0.1) ==> b[j].0.0 != b[k].0.0,
    ensures
        route_of(action_routes(b), (key_code(b[i].0.1)->Some_0, b[i].0.0)) == Some(b[i].1),
{
    let key = (key_code(b[i].0.1)->Some_0, b[i].0.0);
    law_action_route_complete(b, i);
    law_action_route_sound(b, key);
    let a = route_of(action_routes(b), key)->Some_0;
    let j = choose|j: int|
        0 <= j < b.len() && #[trigger] b[j].1 == a && key_code(b[j].0.1) == Some(key.0) && b[j].0.0
            == key.1;
    if j < i {
        assert(key_code(b[j].0.1) == key_code(b[i].0.1));
    } else if i < j {
        assert(key_code(b[i].0.1) == key_code(b[j].0.1));
    }
}

/// When no two script bindings share a keycode and shift flag, pressing a
/// binding's key resolves to exactly that binding's script.
pub proof fn law_script_route_exact(s: Seq<((bool, Seq<char>), Seq<char>)>, dir: Seq<char>, i: int)
    requires
        0 <= i < s.len(),
        key_code(s[i].0.1) is Some,
        forall|j: int, k: int|
            0 <= j < k < s.len() && #[trigger] key_code(s[j].0.1) is Some && key_code(s[j].0.1)
                == #[trigger] key_code(s[k].0.1) ==> s[j].0.0 != s[k].0.0,
    ensures
        route_of(script_routes(s, dir), (key_code(s[i].0.1)->Some_0, s[i].0.0)) == Some(
            join_path(dir, s[i].1),
        ),
{
    let key = (key_code(s[i].0.1)->Some_0, s[i].0.0);
    law_script_route_complete(s, dir, i);
    law_script_route_sound(s, dir, key);
    let p = route_of(script_routes(s, dir), key)->Some_0;
    let j = choose|j: int|
        0 <= j < s.len() && p == join_path(dir, #[trigger] s[j].1) && key_code(s[j].0.1) == Some(
            key.0,
        ) && s[j].0.0 == key.1;
    if j < i {
        assert(key_code(s[j].0.1) == key_code(s[i].0.1));
    } else if i < j {
        assert(key_code(s[i].0.1) == key_code(s[j].0.1));
    }
}

/// A router built from validated keybinds answers each key press through at
/// most one of its tables, and each routed binding's key gives back exactly
/// that binding's action or script.
pub proof fn law_validated_routes(cfg: KeybindsConfig, r: Router, dir: Seq<char>, key: (u16, bool))
    requires
        keybinds_distinct(builtin_view(cfg.builtin@), seen_view(cfg.scripts@)),
        r.actions_view() == action_routes(builtin_view(cfg.builtin@)),
        r.scripts_view() == script_routes(seen_view(cfg.scripts@), dir),
    ensures
        !(route_of(r.actions_view(), key) is Some && route_of(r.scripts_view(), key) is Some),
        forall|i: int|
            0 <= i < cfg.builtin@.len() && #[trigger] key_code(cfg.builtin@[i].0.key@) is Some
                ==> route_of(
                r.actions_view(),
                (key_code(cfg.builtin@[i].0.key@)->Some_0, cfg.builtin@[i].0.shift),
            ) == Some(cfg.builtin@[i].1),
        forall|i: int|
            0 <= i < cfg.scripts@.len() && #[trigger] key_code(cfg.scripts@[i].0.key@) is Some
                ==> route_of(
                r.scripts_view(),
                (key_code(cfg.scripts@[i].0.key@)->Some_0, cfg.scripts@[i].0.shift),
            ) == Some(join_path(dir, cfg.scripts@[i].1@)),
{
    let b = builtin_view(cfg.builtin@);
    let s = seen_view(cfg.scripts@);
    assert forall|i: int, j: int|
        0 <= i < b.len() && 0 <= j < s.len() && #[trigger] key_code(b[i].0.1) is Some
            && key_code(b[i].0.1) == #[trigger] key_code(s[j].0.1) implies b[i].0.0 != s[j].0.0 by {
        assert(binding_key(b[i].0) != binding_key(s[j].0));
    }
    law_routes_disjoint(b, s, dir, key);
    assert forall|i: int|
        0 <= i < cfg.builtin@.len() && #[trigger] key_code(cfg.builtin@[i].0.key@) is Some
            implies route_of(
            r.actions_view(),
            (key_code(cfg.builtin@[i].0.key@)->Some_0, cfg.builtin@[i].0.shift),
        ) == Some(cfg.builtin@[i].1) by {
        assert(b[i] == (kb_view(cfg.builtin@[i].0), cfg.builtin@[i].1));
        assert forall|j: int, k: int|
            0 <= j < k < b.len() && #[trigger] key_code(b[j].0.1) is Some && key_code(b[j].0.1)
                == #[trigger] key_code(b[k].0.1) implies b[j].0.0 != b[k].0.0 by {
            assert(binding_key(b[j].0) != binding_key(b[k].0));
        }
        law_action_route_exact(b, i);
    }
    assert forall|i: int|
        0 <= i < cfg.scripts@.len() && #[trigger] key_code(cfg.scripts@[i].0.key@) is Some
            implies route_of(
            r.scripts_view(),
            (key_code(cfg.scripts@[i].0.key@)->Some_0, cfg.scripts@[i].0.shift),
        ) == Some(join_path(dir, cfg.scripts@[i].1@)) by {
        assert(s[i] == (kb_view(cfg.scripts@[i].0), cfg.scripts@[i].1@));
        assert forall|j: int, k: int|
            0 <= j < k < s.len() && #[trigger] key_code(s[j].0.1) is Some && key_code(s[j].0.1)
                == #[trigger] key_code(s[k].0.1) implies s[j].0.0 != s[k].0.0 by {
            assert(binding_key(s[j].0) != binding_key(s[k].0));
        }
        law_script_route_exact(s, dir, i);
    }
}

} // verus!
