//! One space's window membership: the tiling tree plus the floating
//! windows, in the order they started floating. A known window is either
//! tiled or floating, never both, and floats at most once. The operations
//! here are the membership decisions behind new windows, closed windows,
//! `toggle_float` and `auto_tile`; where a decision needs on-screen
//! geometry (which leaf a new window splits), the caller supplies it.
use crate::geometry::WindowId;
use crate::tree::{InsertOutcome, Tree};
use vstd::prelude::*;

verus! {

/// Where a newly seen window ended up.
#[derive(Debug, Clone, Copy, PartialEq, Eq, Structural)]
pub enum Placement {
    Tiled,
    Floated,
}

/// What a closed window was removed from.
#[derive(Debug, Clone, Copy, PartialEq, Eq, Structural)]
pub enum Removal {
    FromTree,
    FromFloating,
    Unknown,
}

/// What `toggle_float` did.
#[derive(Debug, Clone, Copy, PartialEq, Eq, Structural)]
pub enum Toggle {
    /// Tiled window moved to floating, keeping its rect.
    Floated,
    /// Floating window inserted into the tree.
    Tiled,
    /// Floating window stayed floating: the tree is full.
    StayedFloating,
    /// Nothing: the window is unknown, or floating with no on-screen rect to
    /// insert it by.
    Unchanged,
}

/// The elements of `s` that are not in `out`, in order.
pub open spec fn without_all(s: Seq<WindowId>, out: Seq<WindowId>) -> Seq<WindowId>
    decreases s.len(),
{
    if s.len() == 0 {
        seq![]
    } else if out.contains(s.last()) {
        without_all(s.drop_last(), out)
    } else {
        without_all(s.drop_last(), out).push(s.last())
    }
}

/// Removing elements that `s` does not hold leaves `s` as it is.
proof fn lemma_without_all_absent(s: Seq<WindowId>, out: Seq<WindowId>)
    requires
        forall|i: int| 0 <= i < s.len() ==> !out.contains(#[trigger] s[i]),
    ensures
        without_all(s, out) == s,
    decreases s.len(),
{
    if s.len() > 0 {
        lemma_without_all_absent(s.drop_last(), out);
        assert(!out.contains(s[s.len() - 1]));
        assert(s.drop_last().push(s.last()) =~= s);
    }
}

/// `s` without repeats, keeping each element's first occurrence.
pub open spec fn first_occurrences(s: Seq<WindowId>) -> Seq<WindowId>
    decreases s.len(),
{
    if s.len() == 0 {
        seq![]
    } else if first_occurrences(s.drop_last()).contains(s.last()) {
        first_occurrences(s.drop_last())
    } else {
        first_occurrences(s.drop_last()).push(s.last())
    }
}

proof fn lemma_without_all_contains(s: Seq<WindowId>, out: Seq<WindowId>, x: WindowId)
    ensures
        without_all(s, out).contains(x) <==> (s.contains(x) && !out.contains(x)),
        s.no_duplicates() ==> without_all(s, out).no_duplicates(),
    decreases s.len(),
{
    if s.len() > 0 {
        lemma_without_all_contains(s.drop_last(), out, x);
        lemma_without_all_contains(s.drop_last(), out, s.last());
        let r = without_all(s.drop_last(), out);
        assert(s == s.drop_last().push(s.last()));
        if s.contains(x) && !s.drop_last().contains(x) {
            let i = choose|i: int| 0 <= i < s.len() && s[i] == x;
            assert(i == s.len() - 1);
        }
        if !out.contains(s.last()) {
            assert(r.push(s.last()).last() == s.last());
            if r.push(s.last()).contains(x) && x != s.last() {
                let i = choose|i: int| 0 <= i < r.push(s.last()).len() && r.push(s.last())[i] == x;
                assert(r[i] == x);
            }
            if r.contains(x) {
                let i = choose|i: int| 0 <= i < r.len() && r[i] == x;
                assert(r.push(s.last())[i] == x);
            }
            if s.no_duplicates() {
                assert(!s.drop_last().contains(s.last()));
            }
        }
        if s.drop_last().contains(x) {
            let i = choose|i: int| 0 <= i < s.drop_last().len() && s.drop_last()[i] == x;
            assert(s[i] == x);
        }
    }
}

proof fn lemma_first_occurrences(s: Seq<WindowId>, x: WindowId)
    ensures
        first_occurrences(s).contains(x) <==> s.contains(x),
        first_occurrences(s).no_duplicates(),
    decreases s.len(),
{
    if s.len() > 0 {
        lemma_first_occurrences(s.drop_last(), x);
        lemma_first_occurrences(s.drop_last(), s.last());
        let r = first_occurrences(s.drop_last());
        assert(s == s.drop_last().push(s.last()));
        if s.contains(x) && !s.drop_last().contains(x) {
            let i = choose|i: int| 0 <= i < s.len() && s[i] == x;
            assert(i == s.len() - 1);
        }
        if s.drop_last().contains(x) {
            let i = choose|i: int| 0 <= i < s.drop_last().len() && s.drop_last()[i] == x;
            assert(s[i] == x);
        }
        if !r.contains(s.last()) {
            if r.push(s.last()).contains(x) && x != s.last() {
                let i = choose|i: int| 0 <= i < r.push(s.last()).len() && r.push(s.last())[i] == x;
                assert(r[i] == x);
            }
            if r.contains(x) {
                let i = choose|i: int| 0 <= i < r.len() && r[i] == x;
                assert(r.push(s.last())[i] == x);
            }
            assert(r.push(s.last())[r.len() as int] == s.last());
        }
    }
}

/// A space's tiled and floating windows.
pub struct Workspace<R> {
    tree: Tree<R>,
    floating: Vec<WindowId>,
}

impl<R: Copy> Workspace<R> {
    /// The tiling tree.
    pub closed spec fn tree_view(self) -> Tree<R> {
        self.tree
    }

    /// The floating windows, in the order they started floating.
    pub closed spec fn floating_view(self) -> Seq<WindowId> {
        self.floating@
    }

    /// The tiled windows.
    pub open spec fn tiled(self) -> Seq<WindowId> {
        self.tree_view().windows()
    }

    /// `id` is tiled or floating here.
    pub open spec fn knows(self, id: WindowId) -> bool {
        self.tiled().contains(id) || self.floating_view().contains(id)
    }

    /// No window floats twice, and none is both tiled and floating.
    pub open spec fn wf(self) -> bool {
        &&& self.floating_view().no_duplicates()
        &&& forall|i: int|
            0 <= i < self.floating_view().len() ==> !self.tiled().contains(
                #[trigger] self.floating_view()[i],
            )
    }

    /// A workspace tiling with `tree` and nothing floating.
    pub fn new(tree: Tree<R>) -> (w: Self)
        ensures
            w.wf(),
            w.tree_view() == tree,
            w.floating_view() == Seq::<WindowId>::empty(),
    {
        Workspace { tree, floating: Vec::new() }
    }

    /// A workspace restored from a saved tree and floating list; `None` when
    /// they overlap or the list repeats a window.
    pub fn restore(tree: Tree<R>, floating: Vec<WindowId>) -> (w: Option<Self>)
        ensures
            match w {
                Some(ws) => ws.wf() && ws.tree_view() == tree && ws.floating_view() == floating@,
                None => !(floating@.no_duplicates() && forall|i: int|
                    0 <= i < floating@.len() ==> !tree.windows().contains(#[trigger] floating@[i])),
            },
    {
        let mut i: usize = 0;
        while i < floating.len()
            invariant
                i <= floating@.len(),
                forall|a: int, b: int| 0 <= a < b < i ==> floating@[a] != floating@[b],
                forall|a: int| 0 <= a < i ==> !tree.windows().contains(#[trigger] floating@[a]),
            decreases floating@.len() - i,
        {
            if tree.contains(floating[i]) {
                return None;
            }
            let mut j: usize = 0;
            while j < i
                invariant
                    j <= i < floating@.len(),
                    forall|a: int| 0 <= a < j ==> floating@[a] != floating@[i as int],
                decreases i - j,
            {
                if floating[j] == floating[i] {
                    return None;
                }
                j = j + 1;
            }
            i = i + 1;
        }
        Some(Workspace { tree, floating })
    }

    /// The tiling tree.
    pub fn tree(&self) -> (t: &Tree<R>)
        ensures
            *t == self.tree_view(),
    {
        &self.tree
    }

    /// The floating windows, in the order they started floating.
    pub fn floating(&self) -> (f: &Vec<WindowId>)
        ensures
            f@ == self.floating_view(),
    {
        &self.floating
    }

    /// Whether `id` is floating here.
    pub fn is_floating(&self, id: WindowId) -> (b: bool)
        ensures
            b == self.floating_view().contains(id),
    {
        let mut i: usize = 0;
        while i < self.floating.len()
            invariant
                i <= self.floating@.len(),
                forall|j: int| 0 <= j < i ==> self.floating@[j] != id,
            decreases self.floating@.len() - i,
        {
            if self.floating[i] == id {
                return true;
            }
            i = i + 1;
        }
        false
    }

    /// Whether `id` is tiled or floating here.
    pub fn knows_window(&self, id: WindowId) -> (b: bool)
        ensures
            b == self.knows(id),
    {
        self.tree.contains(id) || self.is_floating(id)
    }

    /// Which cascade step a newly floated window takes: the floating
    /// windows before it, wrapping after `wrap` steps.
    pub fn cascade_index(&self, wrap: usize) -> (i: usize)
        requires
            wrap > 0,
        ensures
            i == (if self.floating_view().len() == 0 {
                0
            } else {
                (self.floating_view().len() - 1) as int
            }) % (wrap as int),
    {
        let n = if self.floating.len() == 0 {
            0
        } else {
            self.floating.len() - 1
        };
        n % wrap
    }

    fn remove_floating(&mut self, id: WindowId)
        requires
            old(self).floating_view().no_duplicates(),
        ensures
            final(self).floating_view() == without_all(old(self).floating_view(), seq![id]),
            final(self).tree_view() == old(self).tree_view(),
    {
        let ghost before = self.floating@;
        let mut kept: Vec<WindowId> = Vec::new();
        let mut i: usize = 0;
        while i < self.floating.len()
            invariant
                i <= self.floating@.len(),
                self.floating@ == before,
                kept@ == without_all(before.take(i as int), seq![id]),
            decreases self.floating@.len() - i,
        {
            proof {
                assert(before.take(i + 1).drop_last() =~= before.take(i as int));
            }
            if self.floating[i] != id {
                kept.push(self.floating[i]);
            }
            proof {
                if before[i as int] == id {
                    assert(seq![id][0] == before[i as int]);
                } else {
                    assert(!seq![id].contains(before[i as int]));
                }
            }
            i = i + 1;
        }
        proof {
            assert(before.take(before.len() as int) =~= before);
        }
        self.floating = kept;
    }

    /// A window hyperwm has just seen appear (not one that existed before
    /// the daemon): it floats when its app always floats or there is no
    /// on-screen rect to insert it by (`placement` is `None`); otherwise it
    /// is inserted into the tree, splitting `placement`'s target leaf, and
    /// floats only when the tree is full.
    pub fn add_new_window(
        &mut self,
        id: WindowId,
        always_float: bool,
        placement: Option<(WindowId, bool)>,
    ) -> (p: Placement)
        requires
            old(self).wf(),
            !old(self).knows(id),
            placement matches Some(pl) ==> (old(self).tree_view().root_node() is Some ==> old(
                self).tiled().contains(pl.0)),
        ensures
            final(self).wf(),
            final(self).knows(id),
            final(self).tree_view().same_settings(old(self).tree_view()),
            p == Placement::Floated ==> final(self).floating_view() == old(self).floating_view().push(
                id,
            ) && final(self).tree_view() == old(self).tree_view(),
            p == Placement::Tiled ==> (placement matches Some(pl) && final(self).floating_view()
                == old(self).floating_view() && final(self).tree_view().root_node() == old(
                self).tree_view().inserted(id, pl.0, pl.1)),
            p == Placement::Tiled <==> (!always_float && placement is Some && old(self).tiled().len()
                < old(self).tree_view().max_windows()),
    {
        if !always_float {
            if let Some((target, wide)) = placement {
                if self.tree.tiled_count() < self.tree.max_tiled_windows() {
                    let mut tree = Tree::new(
                        self.tree.max_tiled_windows(),
                        self.tree.insert_heuristic(),
                        self.tree.split_ratio_default(),
                    );
                    std::mem::swap(&mut tree, &mut self.tree);
                    let outcome = tree.insert(id, target, wide);
                    self.tree = tree;
                    proof {
                        assert(outcome == InsertOutcome::Inserted);
                        assert forall|i: int|
                            0 <= i < self.floating@.len() implies !self.tiled().contains(
                            #[trigger] self.floating@[i],
                        ) by {
                            assert(self.floating@[i] != id);
                        }
                    }
                    return Placement::Tiled;
                }
            }
        }
        self.floating.push(id);
        proof {
            assert forall|i: int|
                0 <= i < self.floating@.len() implies !self.tiled().contains(
                #[trigger] self.floating@[i],
            ) by {
                if i < self.floating@.len() - 1 {
                    assert(self.floating@[i] == old(self).floating@[i]);
                }
            }
            assert(self.floating@.last() == id);
        }
        Placement::Floated
    }

    /// A window that existed before the daemon started: registered as
    /// floating (it keeps its rect) unless already known. Returns whether
    /// it was added.
    pub fn adopt_preexisting(&mut self, id: WindowId) -> (added: bool)
        requires
            old(self).wf(),
        ensures
            final(self).wf(),
            final(self).tree_view() == old(self).tree_view(),
            added == !old(self).knows(id),
            added ==> final(self).floating_view() == old(self).floating_view().push(id),
            !added ==> final(self).floating_view() == old(self).floating_view(),
    {
        if self.knows_window(id) {
            return false;
        }
        self.floating.push(id);
        proof {
            assert forall|i: int|
                0 <= i < self.floating@.len() implies !self.tiled().contains(
                #[trigger] self.floating@[i],
            ) by {
                if i < self.floating@.len() - 1 {
                    assert(self.floating@[i] == old(self).floating@[i]);
                }
            }
            assert forall|a: int, b: int|
                0 <= a < b < self.floating@.len() implies self.floating@[a] != self.floating@[b] by {
                if b == self.floating@.len() - 1 {
                    assert(old(self).floating@[a] == self.floating@[a]);
                }
            }
        }
        true
    }

    /// A window closed: it leaves the tree (whose sibling takes its place)
    /// or the floating list, whichever holds it.
    pub fn remove_window(&mut self, id: WindowId) -> (r: Removal)
        requires
            old(self).wf(),
        ensures
            final(self).wf(),
            !final(self).knows(id),
            forall|x: WindowId| x != id ==> (#[trigger] final(self).knows(x) <==> old(self).knows(x)),
            r == (if old(self).tiled().contains(id) {
                Removal::FromTree
            } else if old(self).floating_view().contains(id) {
                Removal::FromFloating
            } else {
                Removal::Unknown
            }),
            r == Removal::FromTree ==> final(self).floating_view() == old(self).floating_view(),
            r == Removal::FromTree ==> final(self).tree_view().same_settings(old(self).tree_view()),
            r == Removal::FromTree ==> final(self).tree_view().root_node()
                == old(self).tree_view().root_node().unwrap().without(id),
            r == Removal::FromFloating ==> final(self).tree_view() == old(self).tree_view(),
            r == Removal::Unknown ==> final(self).tree_view() == old(self).tree_view()
                && final(self).floating_view() == old(self).floating_view(),
    {
        if self.tree.contains(id) {
            let mut tree = Tree::new(
                self.tree.max_tiled_windows(),
                self.tree.insert_heuristic(),
                self.tree.split_ratio_default(),
            );
            std::mem::swap(&mut tree, &mut self.tree);
            tree.remove(id);
            self.tree = tree;
            proof {
                assert(!self.floating@.contains(id));
            }
            return Removal::FromTree;
        }
        let was_floating = self.is_floating(id);
        self.remove_floating(id);
        proof {
            assert forall|x: WindowId| true implies #[trigger] self.floating@.contains(x) <==> (
            old(self).floating@.contains(x) && !seq![id].contains(x)) by {
                lemma_without_all_contains(old(self).floating@, seq![id], x);
            }
            assert(seq![id][0] == id);
            assert forall|i: int|
                0 <= i < self.floating@.len() implies !self.tiled().contains(
                #[trigger] self.floating@[i],
            ) by {
                assert(self.floating@.contains(self.floating@[i]));
                let j = choose|j: int|
                    0 <= j < old(self).floating@.len() && old(self).floating@[j] == self.floating@[i];
            }
            lemma_without_all_contains(old(self).floating@, seq![id], id);
        }
        if was_floating {
            Removal::FromFloating
        } else {
            proof {
                assert forall|i: int| 0 <= i < old(self).floating@.len() implies !seq![id].contains(
                    #[trigger] old(self).floating@[i],
                ) by {
                    assert(old(self).floating@.contains(old(self).floating@[i]));
                    if seq![id].contains(old(self).floating@[i]) {
                        assert(seq![id][0] == id);
                    }
                }
                lemma_without_all_absent(old(self).floating@, seq![id]);
            }
            Removal::Unknown
        }
    }

    /// `toggle_float`: a tiled window leaves the tree and floats (keeping its
    /// rect); a floating window is inserted into the tree by `placement`
    /// (when there is one), unless the tree is full, when it stays floating.
    pub fn toggle_float(&mut self, id: WindowId, placement: Option<(WindowId, bool)>) -> (t: Toggle)
        requires
            old(self).wf(),
            placement matches Some(pl) ==> (old(self).tree_view().root_node() is Some ==> old(
                self).tiled().contains(pl.0)),
        ensures
            final(self).wf(),
            final(self).tree_view().same_settings(old(self).tree_view()),
            forall|x: WindowId| #[trigger] final(self).knows(x) <==> old(self).knows(x),
            t == (if old(self).tiled().contains(id) {
                Toggle::Floated
            } else if !old(self).floating_view().contains(id) || placement is None {
                Toggle::Unchanged
            } else if old(self).tiled().len() < old(self).tree_view().max_windows() {
                Toggle::Tiled
            } else {
                Toggle::StayedFloating
            }),
            t == Toggle::Floated ==> !final(self).tiled().contains(id) && final(self).floating_view()
                == old(self).floating_view().push(id) && final(self).tree_view().root_node()
                == old(self).tree_view().root_node().unwrap().without(id),
            t == Toggle::Tiled ==> (placement matches Some(pl) && final(self).tiled().contains(id)
                && !final(self).floating_view().contains(id) && final(self).tree_view().root_node()
                == old(self).tree_view().inserted(id, pl.0, pl.1) && final(self).floating_view()
                == without_all(old(self).floating_view(), seq![id])),
            (t == Toggle::StayedFloating || t == Toggle::Unchanged) ==> final(self).tree_view()
                == old(self).tree_view() && final(self).floating_view() == old(self).floating_view(),
    {
        if self.tree.contains(id) {
            let mut tree = Tree::new(
                self.tree.max_tiled_windows(),
                self.tree.insert_heuristic(),
                self.tree.split_ratio_default(),
            );
            std::mem::swap(&mut tree, &mut self.tree);
            tree.remove(id);
            self.tree = tree;
            proof {
                assert(!old(self).floating@.contains(id));
            }
            self.floating.push(id);
            proof {
                assert forall|i: int|
                    0 <= i < self.floating@.len() implies !self.tiled().contains(
                    #[trigger] self.floating@[i],
                ) by {
                    if i < self.floating@.len() - 1 {
                        assert(self.floating@[i] == old(self).floating@[i]);
                    }
                }
                assert forall|a: int, b: int|
                    0 <= a < b < self.floating@.len() implies self.floating@[a]
                    != self.floating@[b] by {
                    if b == self.floating@.len() - 1 {
                        assert(old(self).floating@[a] == self.floating@[a]);
                    }
                }
                assert forall|x: WindowId| #[trigger] self.knows(x) <==> old(self).knows(x) by {
                    if x != id && old(self).floating@.contains(x) {
                        let j = choose|j: int|
                            0 <= j < old(self).floating@.len() && old(self).floating@[j] == x;
                        assert(self.floating@[j] == x);
                    }
                    if self.floating@.contains(x) && x != id {
                        let j = choose|j: int| 0 <= j < self.floating@.len() && self.floating@[j] == x;
                        assert(old(self).floating@[j] == x);
                    }
                    assert(self.floating@[self.floating@.len() - 1] == id);
                }
            }
            return Toggle::Floated;
        }
        if !self.is_floating(id) {
            return Toggle::Unchanged;
        }
        let (target, wide) = match placement {
            Some(pl) => pl,
            None => {
                return Toggle::Unchanged;
            },
        };
        if self.tree.tiled_count() >= self.tree.max_tiled_windows() {
            return Toggle::StayedFloating;
        }
        let mut tree = Tree::new(
            self.tree.max_tiled_windows(),
            self.tree.insert_heuristic(),
            self.tree.split_ratio_default(),
        );
        std::mem::swap(&mut tree, &mut self.tree);
        let outcome = tree.insert(id, target, wide);
        self.tree = tree;
        match outcome {
            InsertOutcome::CapReached => Toggle::StayedFloating,
            InsertOutcome::Inserted => {
                self.remove_floating(id);
                proof {
                    assert forall|x: WindowId| true implies #[trigger] self.floating@.contains(x) <==> (
                    old(self).floating@.contains(x) && !seq![id].contains(x)) by {
                        lemma_without_all_contains(old(self).floating@, seq![id], x);
                    }
                    assert(seq![id][0] == id);
                    assert forall|i: int|
                        0 <= i < self.floating@.len() implies !self.tiled().contains(
                        #[trigger] self.floating@[i],
                    ) by {
                        assert(self.floating@.contains(self.floating@[i]));
                        let j = choose|j: int|
                            0 <= j < old(self).floating@.len() && old(self).floating@[j]
                                == self.floating@[i];
                    }
                    lemma_without_all_contains(old(self).floating@, seq![id], id);
                    assert forall|x: WindowId| #[trigger] self.knows(x) <==> old(self).knows(x) by {
                        if x == id {
                            assert(self.tiled().contains(id));
                        }
                    }
                }
                Toggle::Tiled
            },
        }
    }
}

/// No element occurs twice in `a + b`, given that neither repeats and they
/// share none.
proof fn lemma_concat_no_duplicates(a: Seq<WindowId>, b: Seq<WindowId>)
    requires
        a.no_duplicates(),
        b.no_duplicates(),
        forall|x: WindowId| a.contains(x) ==> !b.contains(x),
    ensures
        (a + b).no_duplicates(),
        forall|x: WindowId| #[trigger] (a + b).contains(x) <==> (a.contains(x) || b.contains(x)),
{
    let c = a + b;
    assert forall|i: int, j: int| 0 <= i < j < c.len() implies c[i] != c[j] by {
        if j < a.len() {
        } else if i >= a.len() {
            assert(c[i] == b[i - a.len()]);
            assert(c[j] == b[j - a.len()]);
        } else {
            assert(c[i] == a[i]);
            assert(c[j] == b[j - a.len()]);
            assert(a.contains(a[i]));
            assert(b.contains(b[j - a.len()]));
        }
    }
    assert forall|x: WindowId| #[trigger] c.contains(x) <==> (a.contains(x) || b.contains(x)) by {
        if c.contains(x) {
            let i = choose|i: int| 0 <= i < c.len() && c[i] == x;
            if i < a.len() {
                assert(a[i] == x);
            } else {
                assert(b[i - a.len()] == x);
            }
        }
        if a.contains(x) {
            let i = choose|i: int| 0 <= i < a.len() && a[i] == x;
            assert(c[i] == x);
        }
        if b.contains(x) {
            let i = choose|i: int| 0 <= i < b.len() && b[i] == x;
            assert(c[i + a.len()] == x);
        }
    }
}

/// The windows of `s` not in `out`, in order.
fn windows_without(s: &Vec<WindowId>, out: &Vec<WindowId>) -> (r: Vec<WindowId>)
    ensures
        r@ == without_all(s@, out@),
{
    let mut r: Vec<WindowId> = Vec::new();
    let mut i: usize = 0;
    while i < s.len()
        invariant
            i <= s@.len(),
            r@ == without_all(s@.take(i as int), out@),
        decreases s@.len() - i,
    {
        proof {
            assert(s@.take(i + 1).drop_last() =~= s@.take(i as int));
        }
        if !contains_window(out, s[i]) {
            r.push(s[i]);
        }
        i = i + 1;
    }
    proof {
        assert(s@.take(s@.len() as int) =~= s@);
    }
    r
}

/// Whether `v` holds `id`.
fn contains_window(v: &Vec<WindowId>, id: WindowId) -> (b: bool)
    ensures
        b == v@.contains(id),
{
    let mut i: usize = 0;
    while i < v.len()
        invariant
            i <= v@.len(),
            forall|j: int| 0 <= j < i ==> v@[j] != id,
        decreases v@.len() - i,
    {
        if v[i] == id {
            return true;
        }
        i = i + 1;
    }
    false
}

/// `s` without repeats, keeping first occurrences.
fn dedup_windows(s: &Vec<WindowId>) -> (r: Vec<WindowId>)
    ensures
        r@ == first_occurrences(s@),
{
    let mut r: Vec<WindowId> = Vec::new();
    let mut i: usize = 0;
    while i < s.len()
        invariant
            i <= s@.len(),
            r@ == first_occurrences(s@.take(i as int)),
        decreases s@.len() - i,
    {
        proof {
            assert(s@.take(i + 1).drop_last() =~= s@.take(i as int));
        }
        if !contains_window(&r, s[i]) {
            r.push(s[i]);
        }
        i = i + 1;
    }
    proof {
        assert(s@.take(s@.len() as int) =~= s@);
    }
    r
}

/// `trees` are the trees met while inserting the first `picks.len()` of
/// `ids` one by one into an empty tree with `base`'s settings, each insertion
/// splitting the leaf and taking the orientation that `picks` gives for it:
/// `trees[0]` is empty and `trees[i + 1]` is `trees[i]` with `ids[i]`
/// inserted at `picks[i]`.
pub open spec fn insertion_chain<R>(
    base: Tree<R>,
    ids: Seq<WindowId>,
    trees: Seq<Tree<R>>,
    picks: Seq<(WindowId, bool)>,
) -> bool {
    &&& picks.len() <= ids.len()
    &&& trees.len() == picks.len() + 1
    &&& trees[0].root_node() is None
    &&& forall|i: int| 0 <= i < trees.len() ==> (#[trigger] trees[i]).same_settings(base)
    &&& forall|i: int|
        0 <= i < picks.len() ==> trees[i + 1].root_node() == trees[i].inserted(
            ids[i],
            #[trigger] picks[i].0,
            picks[i].1,
        )
}

impl<R: Copy> Workspace<R> {
    /// `auto_tile`: the windows on screen (`on_screen`, in enumeration order,
    /// repeats ignored) become the tiled set, inserted one by one into a
    /// fresh tree up to its cap; `pick` names the leaf each insertion splits
    /// and whether it is wide, from the tree built so far. Everything else
    /// floats: the previously floating windows not on screen, then the
    /// previously tiled ones not on screen, then the on-screen windows
    /// beyond the cap. With nothing on screen, nothing changes.
    pub fn auto_tile<F: Fn(&Tree<R>) -> (WindowId, bool)>(
        &mut self,
        on_screen: &Vec<WindowId>,
        pick: F,
    ) -> (changed: bool)
        requires
            old(self).wf(),
            forall|t: &Tree<R>| #[trigger] pick.requires((t,)),
            forall|t: &Tree<R>, r: (WindowId, bool)|
                #[trigger] pick.ensures((t,), r) ==> (t.root_node() is Some ==> t.windows().contains(
                    r.0,
                )),
        ensures
            final(self).wf(),
            final(self).tree_view().same_settings(old(self).tree_view()),
            changed == (first_occurrences(on_screen@).len() > 0),
            !changed ==> final(self).tree_view() == old(self).tree_view() && final(
                self).floating_view() == old(self).floating_view(),
            changed ==> {
                let ids = first_occurrences(on_screen@);
                let k = if ids.len() < old(self).tree_view().max_windows() {
                    ids.len() as int
                } else {
                    old(self).tree_view().max_windows() as int
                };
                &&& forall|x: WindowId| #[trigger]
                    final(self).tiled().contains(x) <==> ids.take(k).contains(x)
                &&& final(self).floating_view() == without_all(old(self).floating_view(), ids)
                    + without_all(old(self).tiled(), ids) + ids.skip(k)
                &&& exists|trees: Seq<Tree<R>>, picks: Seq<(WindowId, bool)>|
                    #![trigger insertion_chain(old(self).tree_view(), ids, trees, picks)]
                    {
                        &&& insertion_chain(old(self).tree_view(), ids, trees, picks)
                        &&& picks.len() == k
                        &&& forall|i: int|
                            0 <= i < k ==> pick.ensures((&trees[i],), #[trigger] picks[i])
                        &&& final(self).tree_view() == trees.last()
                    }
            },
    {
        let ids = dedup_windows(on_screen);
        if ids.len() == 0 {
            return false;
        }
        let ghost old_floating = self.floating@;
        let ghost old_tiled = self.tree.windows();
        let ghost old_tree = self.tree;
        let max = self.tree.max_tiled_windows();
        let ghost k: int = if ids@.len() < max {
            ids@.len() as int
        } else {
            max as int
        };
        proof {
            lemma_first_occurrences(on_screen@, on_screen@[0]);
        }
        let tiled_now = self.tree.window_ids();
        let displaced = windows_without(&tiled_now, &ids);
        let mut new_tree = Tree::new(
            max,
            self.tree.insert_heuristic(),
            self.tree.split_ratio_default(),
        );
        let mut overflow: Vec<WindowId> = Vec::new();
        let ghost mut trees: Seq<Tree<R>> = seq![new_tree];
        let ghost mut picks: Seq<(WindowId, bool)> = seq![];
        proof {
            assert(ids@.take(0) =~= Seq::<WindowId>::empty());
        }
        let mut i: usize = 0;
        while i < ids.len()
            invariant
                i <= ids@.len(),
                picks.len() == (if i < k { i as int } else { k }),
                insertion_chain(old_tree, ids@, trees, picks),
                forall|j: int| 0 <= j < picks.len() ==> pick.ensures((&trees[j],), #[trigger] picks[j]),
                trees.last() == new_tree,
                ids@ == first_occurrences(on_screen@),
                ids@.no_duplicates(),
                max == new_tree.max_windows(),
                new_tree.same_settings(old_tree),
                k == (if ids@.len() < max {
                    ids@.len() as int
                } else {
                    max as int
                }),
                forall|t: &Tree<R>| #[trigger] pick.requires((t,)),
                forall|t: &Tree<R>, r: (WindowId, bool)|
                    #[trigger] pick.ensures((t,), r) ==> (t.root_node() is Some ==> t.windows().contains(
                        r.0,
                    )),
                new_tree.windows().len() == (if i < k {
                    i as int
                } else {
                    k
                }),
                forall|x: WindowId| #[trigger]
                    new_tree.windows().contains(x) <==> ids@.take(
                        if i < k {
                            i as int
                        } else {
                            k
                        },
                    ).contains(x),
                overflow@ == (if i <= k {
                    Seq::<WindowId>::empty()
                } else {
                    ids@.subrange(k, i as int)
                }),
            decreases ids@.len() - i,
        {
            let id = ids[i];
            if new_tree.tiled_count() < max {
                let (target, wide) = pick(&new_tree);
                proof {
                    assert(!ids@.take(i as int).contains(id)) by {
                        if ids@.take(i as int).contains(id) {
                            let j = choose|j: int| 0 <= j < i && ids@.take(i as int)[j] == id;
                            assert(ids@[j] == ids@[i as int]);
                        }
                    }
                    assert(i < k);
                }
                let ghost before = new_tree;
                new_tree.insert(id, target, wide);
                proof {
                    let t2 = trees.push(new_tree);
                    let p2 = picks.push((target, wide));
                    assert forall|j: int| 0 <= j < p2.len() implies t2[j + 1].root_node()
                        == t2[j].inserted(ids@[j], #[trigger] p2[j].0, p2[j].1) by {
                        if j < i {
                            assert(p2[j] == picks[j]);
                            assert(t2[j + 1] == trees[j + 1]);
                            assert(t2[j] == trees[j]);
                        } else {
                            assert(t2[j] == before);
                        }
                    }
                    assert forall|j: int| 0 <= j < t2.len() implies (#[trigger] t2[j]).same_settings(
                        old_tree,
                    ) by {
                        if j < trees.len() {
                            assert(t2[j] == trees[j]);
                        }
                    }
                    assert forall|j: int| 0 <= j < p2.len() implies pick.ensures(
                        (&t2[j],),
                        #[trigger] p2[j],
                    ) by {
                        if j < picks.len() {
                            assert(t2[j] == trees[j]);
                            assert(p2[j] == picks[j]);
                        }
                    }
                    trees = t2;
                    picks = p2;
                }
                proof {
                    let next = ids@.take(i + 1);
                    let prev = ids@.take(i as int);
                    assert(next[i as int] == id);
                    assert forall|x: WindowId| #[trigger]
                        new_tree.windows().contains(x) <==> next.contains(x) by {
                        if next.contains(x) && x != id {
                            let j = choose|j: int| 0 <= j < next.len() && next[j] == x;
                            assert(prev[j] == x);
                        }
                        if prev.contains(x) {
                            let j = choose|j: int| 0 <= j < prev.len() && prev[j] == x;
                            assert(next[j] == x);
                        }
                    }
                }
            } else {
                proof {
                    assert(i >= k);
                }
                overflow.push(id);
                proof {
                    assert(overflow@ =~= ids@.subrange(k, i + 1));
                }
            }
            i = i + 1;
        }
        let mut floating = windows_without(&self.floating, &ids);
        let mut j: usize = 0;
        let ghost a = floating@;
        while j < displaced.len()
            invariant
                j <= displaced@.len(),
                floating@ == a + displaced@.take(j as int),
            decreases displaced@.len() - j,
        {
            floating.push(displaced[j]);
            j = j + 1;
            proof {
                assert(floating@ =~= a + displaced@.take(j as int));
            }
        }
        proof {
            assert(displaced@.take(displaced@.len() as int) =~= displaced@);
        }
        let ghost ab = floating@;
        let mut j: usize = 0;
        while j < overflow.len()
            invariant
                j <= overflow@.len(),
                floating@ == ab + overflow@.take(j as int),
            decreases overflow@.len() - j,
        {
            floating.push(overflow[j]);
            j = j + 1;
            proof {
                assert(floating@ =~= ab + overflow@.take(j as int));
            }
        }
        proof {
            assert(overflow@.take(overflow@.len() as int) =~= overflow@);
            if i <= k {
                assert(k == ids@.len());
                assert(ids@.skip(k) =~= Seq::<WindowId>::empty());
            } else {
                assert(ids@.subrange(k, ids@.len() as int) =~= ids@.skip(k));
            }
            assert(ids@.take(k) + ids@.skip(k) =~= ids@);
            // Disjointness of the pieces.
            assert forall|x: WindowId| #[trigger] a.contains(x) implies !displaced@.contains(x) by {
                lemma_without_all_contains(old_floating, ids@, x);
                lemma_without_all_contains(old_tiled, ids@, x);
                if old_floating.contains(x) {
                    let t = choose|t: int| 0 <= t < old_floating.len() && old_floating[t] == x;
                    assert(!old_tiled.contains(old_floating[t]));
                }
            }
            assert(old_floating.no_duplicates());
            assert(old_tiled.no_duplicates());
            lemma_without_all_contains(old_floating, ids@, ids@[0]);
            lemma_without_all_contains(old_tiled, ids@, ids@[0]);
            lemma_concat_no_duplicates(a, displaced@);
            assert forall|x: WindowId| #[trigger] (a + displaced@).contains(x) implies !ids@.skip(
                k,
            ).contains(x) by {
                lemma_without_all_contains(old_floating, ids@, x);
                lemma_without_all_contains(old_tiled, ids@, x);
                if ids@.skip(k).contains(x) {
                    let t = choose|t: int| 0 <= t < ids@.skip(k).len() && ids@.skip(k)[t] == x;
                    assert(ids@[t + k] == x);
                }
            }
            assert(ids@.skip(k).no_duplicates()) by {
                assert forall|p: int, q: int| 0 <= p < q < ids@.skip(k).len() implies ids@.skip(k)[p]
                    != ids@.skip(k)[q] by {
                    assert(ids@.skip(k)[p] == ids@[p + k]);
                    assert(ids@.skip(k)[q] == ids@[q + k]);
                }
            }
            lemma_concat_no_duplicates(a + displaced@, ids@.skip(k));
            let f = a + displaced@ + ids@.skip(k);
            assert(floating@ == f);
            assert forall|t: int| 0 <= t < f.len() implies !new_tree.windows().contains(
                #[trigger] f[t],
            ) by {
                let x = f[t];
                assert(f.contains(x));
                lemma_without_all_contains(old_floating, ids@, x);
                lemma_without_all_contains(old_tiled, ids@, x);
                if ids@.take(k).contains(x) {
                    let p = choose|p: int| 0 <= p < k && ids@.take(k)[p] == x;
                    assert(ids@[p] == x);
                    if ids@.skip(k).contains(x) {
                        let q = choose|q: int| 0 <= q < ids@.skip(k).len() && ids@.skip(k)[q] == x;
                        assert(ids@[q + k] == x);
                    }
                    assert(ids@.contains(x));
                }
            }
        }
        self.floating = floating;
        self.tree = new_tree;
        proof {
            assert(insertion_chain(old_tree, ids@, trees, picks));
            assert(forall|j: int| 0 <= j < k ==> pick.ensures((&trees[j],), #[trigger] picks[j]));
            assert(self.tree_view() == trees.last());
        }
        true
    }
}

impl<R: Copy> Workspace<R> {
    /// A copy of this workspace.
    pub fn duplicate(&self) -> (w: Self)
        ensures
            w.tree_view().root_node() == self.tree_view().root_node(),
            w.tree_view().same_settings(self.tree_view()),
            w.floating_view() == self.floating_view(),
            self.wf() ==> w.wf(),
    {
        Workspace { tree: self.tree.duplicate(), floating: self.floating.clone() }
    }

    /// Every window here: the tiled ones in leaf order, then the floating
    /// ones. This set is what identifies the space.
    pub fn window_set(&self) -> (ids: Vec<WindowId>)
        ensures
            ids@ == self.tiled() + self.floating_view(),
    {
        let mut ids = self.tree.window_ids();
        let mut i: usize = 0;
        let ghost tiled = ids@;
        while i < self.floating.len()
            invariant
                i <= self.floating@.len(),
                ids@ == tiled + self.floating@.take(i as int),
            decreases self.floating@.len() - i,
        {
            ids.push(self.floating[i]);
            i = i + 1;
            proof {
                assert(ids@ =~= tiled + self.floating@.take(i as int));
            }
        }
        proof {
            assert(self.floating@.take(self.floating@.len() as int) =~= self.floating@);
        }
        ids
    }

    /// A space seen for the first time: nothing tiled (in `tree`, which must
    /// be empty), every window on it floating in on-screen order, repeats
    /// ignored.
    pub fn all_floating(tree: Tree<R>, on_screen: &Vec<WindowId>) -> (w: Self)
        requires
            tree.root_node() is None,
        ensures
            w.wf(),
            w.tree_view() == tree,
            w.floating_view() == first_occurrences(on_screen@),
    {
        let floating = dedup_windows(on_screen);
        proof {
            if on_screen@.len() > 0 {
                lemma_first_occurrences(on_screen@, on_screen@[0]);
            } else {
                assert(first_occurrences(on_screen@) =~= Seq::<WindowId>::empty());
            }
        }
        Workspace { tree, floating }
    }
}

/// What a space-change poll decided.
#[derive(Debug, Clone, Copy, PartialEq, Eq, Structural)]
pub enum SpaceStep {
    /// The on-screen read came back empty: inconclusive, keep everything.
    Ignore,
    /// The on-screen windows are the ones already tracked: no space change.
    Settled,
    /// A different window set, seen once: wait for the next poll to confirm.
    Wait,
    /// A different window set, seen on two polls in a row: switch to it.
    Commit,
}

/// The decision of one space-change poll: `raw_empty` when the on-screen
/// read listed nothing at all, `same_set` when the on-screen windows are the
/// tracked ones, `stable` when the previous poll saw the same windows in the
/// same places.
pub fn space_step(raw_empty: bool, same_set: bool, stable: bool) -> (s: SpaceStep)
    ensures
        s == (if raw_empty {
            SpaceStep::Ignore
        } else if same_set {
            SpaceStep::Settled
        } else if !stable {
            SpaceStep::Wait
        } else {
            SpaceStep::Commit
        }),
{
    if raw_empty {
        SpaceStep::Ignore
    } else if same_set {
        SpaceStep::Settled
    } else if !stable {
        SpaceStep::Wait
    } else {
        SpaceStep::Commit
    }
}

} // verus!
