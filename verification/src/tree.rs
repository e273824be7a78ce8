//! Per-space BSP tree: insertion, removal, directional movement, resize.
//!
//! The tree holds the *structure* of a space's tiling: which window sits in
//! which leaf, and how the splits nest. Each split carries a ratio of type
//! `R` (the fraction of space given to its first child); the tree never
//! does arithmetic on it. Everything that needs on-screen geometry -- laying
//! the tree out into rects, picking the largest leaf for an insertion, or the
//! nearest neighbour for a move -- is computed by the caller from the tree's
//! shape, and handed back to these operations as plain window ids.
use vstd::prelude::*;

use crate::geometry::{Direction, WindowId};

verus! {

/// A split's orientation. `Vertical` means the split *line* is vertical, so
/// children sit left/right; `Horizontal` means the split line is horizontal,
/// so children sit top/bottom.
#[derive(Debug, Clone, Copy, PartialEq, Eq, Structural)]
pub enum SplitDirection {
    Horizontal,
    Vertical,
}

/// `tiling.insert_heuristic`: how a newly inserted window's split is oriented.
#[derive(Debug, Clone, Copy, PartialEq, Eq, Structural)]
pub enum InsertHeuristic {
    AspectRatio,
    AlwaysVertical,
    AlwaysHorizontal,
}

/// Result of [`Tree::insert`].
#[derive(Debug, Clone, Copy, PartialEq, Eq, Structural)]
pub enum InsertOutcome {
    Inserted,
    /// `max_tiled_windows` already reached; the window was not inserted
    /// (defined behaviour at the cap, not an error).
    CapReached,
}

/// Which child of a split a path step descends into.
#[derive(Debug, Clone, Copy, PartialEq, Eq, Structural)]
pub enum Side {
    First,
    Second,
}

/// One node of the tree: a leaf holding exactly one tiled window, or a split
/// with an orientation, the ratio given to `first`, and two children.
#[derive(Debug)]
pub enum Node<R> {
    Leaf(WindowId),
    Split { direction: SplitDirection, ratio: R, first: Box<Node<R>>, second: Box<Node<R>> },
}

/// The split orientation a new window's split gets under `heuristic`, given
/// whether the target leaf's current on-screen rect is at least as wide as it
/// is tall.
pub open spec fn spec_split_direction(heuristic: InsertHeuristic, wide: bool) -> SplitDirection {
    match heuristic {
        InsertHeuristic::AlwaysVertical => SplitDirection::Vertical,
        InsertHeuristic::AlwaysHorizontal => SplitDirection::Horizontal,
        InsertHeuristic::AspectRatio => if wide {
            SplitDirection::Vertical
        } else {
            SplitDirection::Horizontal
        },
    }
}

/// Chooses a new split's orientation: `aspect_ratio` splits left/right when
/// the target leaf is wider than tall (ties count as wide) and top/bottom
/// otherwise; the other two heuristics ignore the shape.
pub fn split_direction_for(heuristic: InsertHeuristic, wide: bool) -> (d: SplitDirection)
    ensures
        d == spec_split_direction(heuristic, wide),
{
    match heuristic {
        InsertHeuristic::AlwaysVertical => SplitDirection::Vertical,
        InsertHeuristic::AlwaysHorizontal => SplitDirection::Horizontal,
        InsertHeuristic::AspectRatio => if wide {
            SplitDirection::Vertical
        } else {
            SplitDirection::Horizontal
        },
    }
}

/// The window `x` becomes when the contents of the leaves holding `a` and `b`
/// are exchanged.
pub open spec fn swap_id(x: WindowId, a: WindowId, b: WindowId) -> WindowId {
    if x == a {
        b
    } else if x == b {
        a
    } else {
        x
    }
}

impl<R> Node<R> {
    /// The windows held by this subtree's leaves, first child before second.
    pub open spec fn leaves(self) -> Seq<WindowId>
        decreases self,
    {
        match self {
            Node::Leaf(id) => seq![id],
            Node::Split { first, second, .. } => first.leaves() + second.leaves(),
        }
    }

    #[verifier::inline]
    pub open spec fn has(self, id: WindowId) -> bool {
        self.leaves().contains(id)
    }

    /// This subtree with the leaf holding `target` replaced by a split whose
    /// first child is that leaf and whose second child is a new leaf holding
    /// `window`.
    pub open spec fn split_leaf(
        self,
        target: WindowId,
        window: WindowId,
        direction: SplitDirection,
        ratio: R,
    ) -> Node<R>
        decreases self,
    {
        match self {
            Node::Leaf(id) => if id == target {
                Node::Split {
                    direction,
                    ratio,
                    first: Box::new(Node::Leaf(id)),
                    second: Box::new(Node::Leaf(window)),
                }
            } else {
                self
            },
            Node::Split { direction: d, ratio: r, first, second } => Node::Split {
                direction: d,
                ratio: r,
                first: Box::new(first.split_leaf(target, window, direction, ratio)),
                second: Box::new(second.split_leaf(target, window, direction, ratio)),
            },
        }
    }

    /// This subtree with the leaf holding `id` dropped: the leaf's sibling
    /// takes the place of their shared parent. `None` when the subtree is
    /// exactly that leaf.
    pub open spec fn without(self, id: WindowId) -> Option<Node<R>>
        decreases self,
    {
        match self {
            Node::Leaf(x) => if x == id {
                None
            } else {
                Some(self)
            },
            Node::Split { direction, ratio, first, second } => match first.without(id) {
                None => Some(*second),
                Some(f) => match second.without(id) {
                    None => Some(f),
                    Some(s) => Some(
                        Node::Split { direction, ratio, first: Box::new(f), second: Box::new(s) },
                    ),
                },
            },
        }
    }

    /// This subtree with the windows `a` and `b` exchanged between their
    /// leaves; splits, orientations and ratios are untouched.
    pub open spec fn swapped(self, a: WindowId, b: WindowId) -> Node<R>
        decreases self,
    {
        match self {
            Node::Leaf(x) => Node::Leaf(swap_id(x, a, b)),
            Node::Split { direction, ratio, first, second } => Node::Split {
                direction,
                ratio,
                first: Box::new(first.swapped(a, b)),
                second: Box::new(second.swapped(a, b)),
            },
        }
    }

    /// The subtree reached by following `path` from this node, if the path
    /// stays inside the tree.
    pub open spec fn subtree_at(self, path: Seq<Side>) -> Option<Node<R>>
        decreases self,
    {
        if path.len() == 0 {
            Some(self)
        } else {
            match self {
                Node::Leaf(_) => None,
                Node::Split { first, second, .. } => if path[0] == Side::First {
                    first.subtree_at(path.drop_first())
                } else {
                    second.subtree_at(path.drop_first())
                },
            }
        }
    }

    /// Orientation of the split `path` leads to, if it leads to a split.
    pub open spec fn axis_at(self, path: Seq<Side>) -> Option<SplitDirection> {
        match self.subtree_at(path) {
            Some(Node::Split { direction, .. }) => Some(direction),
            _ => None,
        }
    }

    /// Ratio of the split `path` leads to, if it leads to a split.
    pub open spec fn ratio_at(self, path: Seq<Side>) -> Option<R> {
        match self.subtree_at(path) {
            Some(Node::Split { ratio, .. }) => Some(ratio),
            _ => None,
        }
    }

    /// This subtree with the ratio of the split `path` leads to replaced by
    /// `r` (unchanged when the path does not lead to a split).
    pub open spec fn with_ratio(self, path: Seq<Side>, r: R) -> Node<R>
        decreases self,
    {
        match self {
            Node::Leaf(_) => self,
            Node::Split { direction, ratio, first, second } => if path.len() == 0 {
                Node::Split { direction, ratio: r, first, second }
            } else if path[0] == Side::First {
                Node::Split {
                    direction,
                    ratio,
                    first: Box::new(first.with_ratio(path.drop_first(), r)),
                    second,
                }
            } else {
                Node::Split {
                    direction,
                    ratio,
                    first,
                    second: Box::new(second.with_ratio(path.drop_first(), r)),
                }
            },
        }
    }

    /// This subtree with the ratio of the split `depth` steps above the leaf
    /// holding `id` (counting from the root) replaced by `r`.
    pub open spec fn resized_at(self, id: WindowId, depth: int, r: R) -> Node<R> {
        self.with_ratio(self.path_to(id).take(depth), r)
    }

    /// The steps from this node down to the leaf holding `id` (meaningful
    /// when the subtree has that leaf).
    pub open spec fn path_to(self, id: WindowId) -> Seq<Side>
        decreases self,
    {
        match self {
            Node::Leaf(_) => seq![],
            Node::Split { first, second, .. } => if first.has(id) {
                seq![Side::First] + first.path_to(id)
            } else {
                seq![Side::Second] + second.path_to(id)
            },
        }
    }

    /// Two subtrees have the same shape when they split the same way, in the
    /// same places, with the same ratios (the windows in the leaves may
    /// differ).
    pub open spec fn same_shape(self, other: Node<R>) -> bool
        decreases self,
    {
        match (self, other) {
            (Node::Leaf(_), Node::Leaf(_)) => true,
            (
                Node::Split { direction: d1, ratio: r1, first: f1, second: s1 },
                Node::Split { direction: d2, ratio: r2, first: f2, second: s2 },
            ) => d1 == d2 && r1 == r2 && f1.same_shape(*f2) && s1.same_shape(*s2),
            _ => false,
        }
    }
}


/// The split orientation a resize in `direction` adjusts: left/right resizes
/// move a vertical split line, up/down resizes a horizontal one.
pub open spec fn resize_axis(direction: Direction) -> SplitDirection {
    match direction {
        Direction::Left | Direction::Right => SplitDirection::Vertical,
        Direction::Up | Direction::Down => SplitDirection::Horizontal,
    }
}

/// Whether a resize in `direction` pushes a split's boundary towards its
/// second child (ratio grows: right/down) rather than its first.
pub open spec fn resize_grows(direction: Direction) -> bool {
    match direction {
        Direction::Right | Direction::Down => true,
        Direction::Left | Direction::Up => false,
    }
}

/// The side of a split the focused window must be on for that split's
/// boundary to be the focused window's own edge in `direction`.
pub open spec fn preferred_side(direction: Direction) -> Side {
    if resize_grows(direction) {
        Side::First
    } else {
        Side::Second
    }
}

/// Step `d` of `path` leaves a split of orientation `axis`.
pub open spec fn axis_matches<R>(node: Node<R>, path: Seq<Side>, d: int, axis: SplitDirection) -> bool {
    0 <= d < path.len() && node.axis_at(path.take(d)) == Some(axis)
}

/// Step `d` of `path` leaves a split of orientation `axis` on side `side`.
pub open spec fn side_matches<R>(
    node: Node<R>,
    path: Seq<Side>,
    d: int,
    axis: SplitDirection,
    side: Side,
) -> bool {
    axis_matches(node, path, d, axis) && path[d] == side
}

/// `d` is the depth of the split a resize in `direction` adjusts, walking up
/// `path` from the focused leaf: the nearest ancestor split of the matching
/// orientation whose boundary is the focused window's own edge in that
/// direction, or, when no such ancestor exists, the nearest ancestor split of
/// the matching orientation at all.
pub open spec fn is_resize_depth<R>(node: Node<R>, path: Seq<Side>, direction: Direction, d: int) -> bool {
    let axis = resize_axis(direction);
    let side = preferred_side(direction);
    if exists|e: int| side_matches(node, path, e, axis, side) {
        side_matches(node, path, d, axis, side) && forall|e: int|
            side_matches(node, path, e, axis, side) ==> e <= d
    } else {
        axis_matches(node, path, d, axis) && forall|e: int| axis_matches(node, path, e, axis) ==> e <= d
    }
}

/// Some ancestor split on `path` has the orientation a resize in
/// `direction` adjusts.
pub open spec fn can_resize<R>(node: Node<R>, path: Seq<Side>, direction: Direction) -> bool {
    exists|e: int| axis_matches(node, path, e, resize_axis(direction))
}

/// One space's tiled-window tree. Floating windows are not represented here;
/// they live in a flat list owned by the caller.
pub struct Tree<R> {
    root: Option<Node<R>>,
    max_tiled_windows: usize,
    insert_heuristic: InsertHeuristic,
    split_ratio_default: R,
}

impl<R> Tree<R> {
    /// Every window appears in at most one leaf, and the tree never holds
    /// more windows than its cap.
    #[verifier::type_invariant]
    spec fn well_formed(self) -> bool {
        match self.root {
            Some(n) => n.leaves().no_duplicates() && n.leaves().len() <= self.max_tiled_windows,
            None => true,
        }
    }

    pub closed spec fn root_node(self) -> Option<Node<R>> {
        self.root
    }

    pub closed spec fn max_windows(self) -> usize {
        self.max_tiled_windows
    }

    pub closed spec fn heuristic(self) -> InsertHeuristic {
        self.insert_heuristic
    }

    pub closed spec fn default_ratio(self) -> R {
        self.split_ratio_default
    }

    /// The tiled windows, in leaf order (first child before second).
    pub open spec fn windows(self) -> Seq<WindowId> {
        match self.root_node() {
            Some(n) => n.leaves(),
            None => seq![],
        }
    }

    /// The tree after [`Tree::insert`] succeeds with these arguments.
    pub open spec fn inserted(self, window: WindowId, target: WindowId, wide: bool) -> Option<Node<R>> {
        match self.root_node() {
            None => Some(Node::Leaf(window)),
            Some(n) => Some(
                n.split_leaf(
                    target,
                    window,
                    spec_split_direction(self.heuristic(), wide),
                    self.default_ratio(),
                ),
            ),
        }
    }

    /// Configuration fields are equal (the tree contents may differ).
    pub open spec fn same_settings(self, other: Tree<R>) -> bool {
        &&& self.max_windows() == other.max_windows()
        &&& self.heuristic() == other.heuristic()
        &&& self.default_ratio() == other.default_ratio()
    }
}


proof fn lemma_concat_contains<T>(a: Seq<T>, b: Seq<T>, x: T)
    ensures
        (a + b).contains(x) <==> (a.contains(x) || b.contains(x)),
{
    if a.contains(x) {
        let i = choose|i: int| 0 <= i < a.len() && a[i] == x;
        assert((a + b)[i] == x);
    }
    if b.contains(x) {
        let i = choose|i: int| 0 <= i < b.len() && b[i] == x;
        assert((a + b)[a.len() + i] == x);
    }
    if (a + b).contains(x) {
        let i = choose|i: int| 0 <= i < (a + b).len() && (a + b)[i] == x;
        if i < a.len() {
            assert(a[i] == x);
        } else {
            assert(b[i - a.len()] == x);
        }
    }
}

proof fn lemma_concat_no_dups_split<T>(a: Seq<T>, b: Seq<T>)
    requires
        (a + b).no_duplicates(),
    ensures
        a.no_duplicates(),
        b.no_duplicates(),
        forall|x: T| a.contains(x) ==> !b.contains(x),
{
    let c = a + b;
    assert forall|i: int, j: int| 0 <= i < a.len() && 0 <= j < a.len() && i != j implies a[i]
        != a[j] by {
        assert(c[i] == a[i] && c[j] == a[j]);
    }
    assert forall|i: int, j: int| 0 <= i < b.len() && 0 <= j < b.len() && i != j implies b[i]
        != b[j] by {
        assert(c[a.len() + i] == b[i] && c[a.len() + j] == b[j]);
    }
    assert forall|x: T| a.contains(x) implies !b.contains(x) by {
        let i = choose|i: int| 0 <= i < a.len() && a[i] == x;
        if b.contains(x) {
            let j = choose|j: int| 0 <= j < b.len() && b[j] == x;
            assert(c[i] == c[a.len() + j]);
        }
    }
}

proof fn lemma_concat_no_dups<T>(a: Seq<T>, b: Seq<T>)
    requires
        a.no_duplicates(),
        b.no_duplicates(),
        forall|x: T| a.contains(x) ==> !b.contains(x),
    ensures
        (a + b).no_duplicates(),
{
    let c = a + b;
    assert forall|i: int, j: int| 0 <= i < c.len() && 0 <= j < c.len() && i != j implies c[i]
        != c[j] by {
        if i < a.len() && j >= a.len() {
            assert(a.contains(c[i]));
            assert(b[j - a.len()] == c[j]);
        } else if i >= a.len() && j < a.len() {
            assert(a.contains(c[j]));
            assert(b[i - a.len()] == c[i]);
        } else if i < a.len() {
            assert(a[i] == c[i] && a[j] == c[j]);
        } else {
            assert(b[i - a.len()] == c[i] && b[j - a.len()] == c[j]);
        }
    }
}

proof fn lemma_leaf_leaves<R>(n: Node<R>, id: WindowId)
    requires
        n == Node::<R>::Leaf(id),
    ensures
        n.leaves() =~= seq![id],
        n.leaves().no_duplicates(),
        forall|x: WindowId| #[trigger] n.leaves().contains(x) <==> x == id,
{
    assert(n.leaves()[0] == id);
}

proof fn lemma_leaves_nonempty<R>(n: Node<R>)
    ensures
        n.leaves().len() >= 1,
    decreases n,
{
    if let Node::Split { first, .. } = n {
        lemma_leaves_nonempty(*first);
    }
}

proof fn lemma_split_leaf_absent<R>(
    n: Node<R>,
    target: WindowId,
    window: WindowId,
    direction: SplitDirection,
    ratio: R,
)
    requires
        !n.has(target),
    ensures
        n.split_leaf(target, window, direction, ratio) == n,
    decreases n,
{
    match n {
        Node::Leaf(id) => {
            lemma_leaf_leaves(n, id);
        },
        Node::Split { first, second, .. } => {
            lemma_concat_contains(first.leaves(), second.leaves(), target);
            lemma_split_leaf_absent(*first, target, window, direction, ratio);
            lemma_split_leaf_absent(*second, target, window, direction, ratio);
        },
    }
}

proof fn lemma_split_leaf_has<R>(
    n: Node<R>,
    target: WindowId,
    window: WindowId,
    direction: SplitDirection,
    ratio: R,
    x: WindowId,
)
    requires
        n.has(target),
    ensures
        n.split_leaf(target, window, direction, ratio).has(x) <==> (n.has(x) || x == window),
    decreases n,
{
    let m = n.split_leaf(target, window, direction, ratio);
    match n {
        Node::Leaf(id) => {
            lemma_leaf_leaves(n, id);
            lemma_leaf_leaves(Node::<R>::Leaf(window), window);
            assert(m.leaves() == Node::<R>::Leaf(id).leaves() + Node::<R>::Leaf(window).leaves());
            lemma_concat_contains(seq![id], seq![window], x);
        },
        Node::Split { first, second, .. } => {
            let f2 = first.split_leaf(target, window, direction, ratio);
            let s2 = second.split_leaf(target, window, direction, ratio);
            assert(m.leaves() == f2.leaves() + s2.leaves());
            lemma_concat_contains(first.leaves(), second.leaves(), target);
            lemma_concat_contains(first.leaves(), second.leaves(), x);
            lemma_concat_contains(f2.leaves(), s2.leaves(), x);
            if first.has(target) {
                lemma_split_leaf_has(*first, target, window, direction, ratio, x);
                if second.has(target) {
                    lemma_split_leaf_has(*second, target, window, direction, ratio, x);
                } else {
                    lemma_split_leaf_absent(*second, target, window, direction, ratio);
                }
            } else {
                lemma_split_leaf_has(*second, target, window, direction, ratio, x);
                lemma_split_leaf_absent(*first, target, window, direction, ratio);
            }
        },
    }
}

proof fn lemma_split_leaf<R>(
    n: Node<R>,
    target: WindowId,
    window: WindowId,
    direction: SplitDirection,
    ratio: R,
)
    requires
        n.leaves().no_duplicates(),
        n.has(target),
        !n.has(window),
    ensures
        n.split_leaf(target, window, direction, ratio).leaves().no_duplicates(),
        n.split_leaf(target, window, direction, ratio).leaves().len() == n.leaves().len() + 1,
    decreases n,
{
    let m = n.split_leaf(target, window, direction, ratio);
    match n {
        Node::Leaf(id) => {
            lemma_leaf_leaves(n, id);
            lemma_leaf_leaves(Node::<R>::Leaf(window), window);
            assert(m.leaves() == Node::<R>::Leaf(id).leaves() + Node::<R>::Leaf(window).leaves());
            assert(n.leaves().contains(window) == false);
            assert(id != window);
            assert(m.leaves() =~= seq![id, window]);
            assert(m.leaves()[0] != m.leaves()[1]);
            assert(m.leaves().no_duplicates());
        },
        Node::Split { first, second, .. } => {
            lemma_concat_no_dups_split(first.leaves(), second.leaves());
            lemma_concat_contains(first.leaves(), second.leaves(), target);
            lemma_concat_contains(first.leaves(), second.leaves(), window);
            let f2 = first.split_leaf(target, window, direction, ratio);
            let s2 = second.split_leaf(target, window, direction, ratio);
            assert(m.leaves() == f2.leaves() + s2.leaves());
            if first.has(target) {
                lemma_split_leaf(*first, target, window, direction, ratio);
                lemma_split_leaf_absent(*second, target, window, direction, ratio);
                assert forall|x: WindowId| f2.has(x) implies !s2.has(x) by {
                    lemma_concat_contains(first.leaves(), second.leaves(), x);
                    lemma_split_leaf_has(*first, target, window, direction, ratio, x);
                }
            } else {
                lemma_split_leaf(*second, target, window, direction, ratio);
                lemma_split_leaf_absent(*first, target, window, direction, ratio);
                assert forall|x: WindowId| f2.has(x) implies !s2.has(x) by {
                    lemma_concat_contains(first.leaves(), second.leaves(), x);
                    lemma_split_leaf_has(*second, target, window, direction, ratio, x);
                }
            }
            assert(f2.leaves().no_duplicates());
            assert(s2.leaves().no_duplicates());
            lemma_concat_no_dups(f2.leaves(), s2.leaves());
            assert((f2.leaves() + s2.leaves()).no_duplicates());
            assert(m.leaves().no_duplicates());
        },
    }
}

proof fn lemma_without_absent<R>(n: Node<R>, id: WindowId)
    requires
        !n.has(id),
    ensures
        n.without(id) == Some(n),
    decreases n,
{
    match n {
        Node::Leaf(x) => {
            lemma_leaf_leaves(n, x);
        },
        Node::Split { first, second, .. } => {
            lemma_concat_contains(first.leaves(), second.leaves(), id);
            lemma_without_absent(*first, id);
            lemma_without_absent(*second, id);
        },
    }
}

proof fn lemma_without_has<R>(n: Node<R>, id: WindowId, x: WindowId)
    requires
        n.leaves().no_duplicates(),
        n.has(id),
    ensures
        match n.without(id) {
            None => n == Node::<R>::Leaf(id),
            Some(m) => m.has(x) <==> (n.has(x) && x != id),
        },
    decreases n,
{
    match n {
        Node::Leaf(y) => {
            lemma_leaf_leaves(n, y);
        },
        Node::Split { first, second, direction, ratio } => {
            lemma_concat_no_dups_split(first.leaves(), second.leaves());
            lemma_concat_contains(first.leaves(), second.leaves(), id);
            lemma_concat_contains(first.leaves(), second.leaves(), x);
            if first.has(id) {
                lemma_without_has(*first, id, x);
                lemma_without_absent(*second, id);
                match first.without(id) {
                    None => {
                        lemma_leaf_leaves(*first, id);
                    },
                    Some(f) => {
                        let m = n.without(id).unwrap();
                        assert(m.leaves() == f.leaves() + second.leaves());
                        lemma_concat_contains(f.leaves(), second.leaves(), x);
                    },
                }
            } else {
                lemma_without_has(*second, id, x);
                lemma_without_absent(*first, id);
                match second.without(id) {
                    None => {
                        lemma_leaf_leaves(*second, id);
                    },
                    Some(s) => {
                        let m = n.without(id).unwrap();
                        assert(m.leaves() == first.leaves() + s.leaves());
                        lemma_concat_contains(first.leaves(), s.leaves(), x);
                    },
                }
            }
        },
    }
}

/// The windows left after dropping `id`: the others, in their order.
pub open spec fn windows_without(s: Seq<WindowId>, id: WindowId) -> Seq<WindowId> {
    s.filter(|x: WindowId| x != id)
}

proof fn lemma_windows_without_absent(s: Seq<WindowId>, id: WindowId)
    requires
        !s.contains(id),
    ensures
        windows_without(s, id) == s,
    decreases s.len(),
{
    reveal(Seq::filter);
    if s.len() > 0 {
        assert(!s.drop_last().contains(id)) by {
            if s.drop_last().contains(id) {
                let i = choose|i: int| 0 <= i < s.drop_last().len() && s.drop_last()[i] == id;
                assert(s[i] == id);
            }
        }
        lemma_windows_without_absent(s.drop_last(), id);
        assert(s[s.len() - 1] != id);
        assert(s.drop_last().push(s.last()) =~= s);
    }
}

proof fn lemma_windows_without_single(x: WindowId, id: WindowId)
    ensures
        windows_without(seq![x], id) == (if x == id {
            Seq::<WindowId>::empty()
        } else {
            seq![x]
        }),
{
    reveal(Seq::filter);
    assert(seq![x].drop_last() =~= Seq::<WindowId>::empty());
    assert(windows_without(Seq::<WindowId>::empty(), id) == Seq::<WindowId>::empty());
    assert(seq![x].last() == x);
    if x != id {
        assert(Seq::<WindowId>::empty().push(x) =~= seq![x]);
    }
}

proof fn lemma_windows_without_concat(a: Seq<WindowId>, b: Seq<WindowId>, id: WindowId)
    ensures
        windows_without(a + b, id) == windows_without(a, id) + windows_without(b, id),
{
    Seq::filter_distributes_over_add(a, b, |x: WindowId| x != id);
}

proof fn lemma_without_leaves<R>(n: Node<R>, id: WindowId)
    requires
        n.leaves().no_duplicates(),
    ensures
        match n.without(id) {
            None => windows_without(n.leaves(), id) == Seq::<WindowId>::empty(),
            Some(m) => m.leaves() == windows_without(n.leaves(), id),
        },
    decreases n,
{
    match n {
        Node::Leaf(x) => {
            lemma_windows_without_single(x, id);
            assert(n.leaves() == seq![x]);
        },
        Node::Split { first, second, .. } => {
            lemma_concat_no_dups_split(first.leaves(), second.leaves());
            lemma_concat_contains(first.leaves(), second.leaves(), id);
            lemma_windows_without_concat(first.leaves(), second.leaves(), id);
            let a = windows_without(first.leaves(), id);
            let b = windows_without(second.leaves(), id);
            assert(windows_without(n.leaves(), id) == a + b);
            if first.has(id) {
                lemma_without_leaves(*first, id);
                lemma_without_absent(*second, id);
                lemma_windows_without_absent(second.leaves(), id);
                match first.without(id) {
                    None => {
                        assert(a + b =~= b);
                    },
                    Some(f) => {},
                }
            } else {
                lemma_without_leaves(*second, id);
                lemma_without_absent(*first, id);
                lemma_windows_without_absent(first.leaves(), id);
                match second.without(id) {
                    None => {
                        assert(a + b =~= a);
                    },
                    Some(g) => {},
                }
            }
        },
    }
}

proof fn lemma_without<R>(n: Node<R>, id: WindowId)
    requires
        n.leaves().no_duplicates(),
        n.has(id),
    ensures
        match n.without(id) {
            None => n == Node::<R>::Leaf(id),
            Some(m) => {
                &&& m.leaves().no_duplicates()
                &&& m.leaves().len() + 1 == n.leaves().len()
            },
        },
    decreases n,
{
    match n {
        Node::Leaf(x) => {
            lemma_leaf_leaves(n, x);
            assert(n.leaves().contains(id));
            assert(x == id);
            assert(n.without(id) == None::<Node<R>>);
        },
        Node::Split { first, second, .. } => {
            lemma_concat_no_dups_split(first.leaves(), second.leaves());
            lemma_concat_contains(first.leaves(), second.leaves(), id);
            lemma_leaves_nonempty(*first);
            lemma_leaves_nonempty(*second);
            if first.has(id) {
                lemma_without(*first, id);
                lemma_without_absent(*second, id);
                match first.without(id) {
                    None => {
                        lemma_leaf_leaves(*first, id);
                    },
                    Some(f) => {
                        assert forall|x: WindowId| f.has(x) implies !second.has(x) by {
                            lemma_concat_contains(first.leaves(), second.leaves(), x);
                            lemma_without_has(*first, id, x);
                        }
                        lemma_concat_no_dups(f.leaves(), second.leaves());
                        let m = n.without(id).unwrap();
                        assert(m.leaves() == f.leaves() + second.leaves());
                    },
                }
            } else {
                lemma_without(*second, id);
                lemma_without_absent(*first, id);
                match second.without(id) {
                    None => {
                        lemma_leaf_leaves(*second, id);
                    },
                    Some(s) => {
                        assert forall|x: WindowId| first.has(x) implies !s.has(x) by {
                            lemma_concat_contains(first.leaves(), second.leaves(), x);
                            lemma_without_has(*second, id, x);
                        }
                        lemma_concat_no_dups(first.leaves(), s.leaves());
                        let m = n.without(id).unwrap();
                        assert(m.leaves() == first.leaves() + s.leaves());
                    },
                }
            }
        },
    }
}

proof fn lemma_swapped_leaves<R>(n: Node<R>, a: WindowId, b: WindowId)
    ensures
        n.swapped(a, b).leaves() =~= n.leaves().map_values(|x: WindowId| swap_id(x, a, b)),
    decreases n,
{
    match n {
        Node::Leaf(x) => {},
        Node::Split { first, second, .. } => {
            lemma_swapped_leaves(*first, a, b);
            lemma_swapped_leaves(*second, a, b);
        },
    }
}

proof fn lemma_swapped_no_dups<R>(n: Node<R>, a: WindowId, b: WindowId)
    requires
        n.leaves().no_duplicates(),
    ensures
        n.swapped(a, b).leaves().no_duplicates(),
        n.swapped(a, b).leaves().len() == n.leaves().len(),
        forall|x: WindowId| n.swapped(a, b).has(x) <==> n.has(swap_id(x, a, b)),
{
    lemma_swapped_leaves(n, a, b);
    let l = n.leaves();
    let m = n.swapped(a, b).leaves();
    assert forall|i: int, j: int| 0 <= i < m.len() && 0 <= j < m.len() && i != j implies m[i]
        != m[j] by {
        assert(swap_id(swap_id(l[i], a, b), a, b) == l[i]);
        assert(swap_id(swap_id(l[j], a, b), a, b) == l[j]);
    }
    assert forall|x: WindowId| n.swapped(a, b).has(x) <==> n.has(swap_id(x, a, b)) by {
        if m.contains(x) {
            let i = choose|i: int| 0 <= i < m.len() && m[i] == x;
            assert(l[i] == swap_id(x, a, b));
        }
        if l.contains(swap_id(x, a, b)) {
            let i = choose|i: int| 0 <= i < l.len() && l[i] == swap_id(x, a, b);
            assert(m[i] == x);
        }
    }
}

proof fn lemma_with_ratio_leaves<R>(n: Node<R>, path: Seq<Side>, r: R)
    ensures
        n.with_ratio(path, r).leaves() == n.leaves(),
    decreases n,
{
    match n {
        Node::Leaf(_) => {},
        Node::Split { first, second, .. } => {
            lemma_with_ratio_leaves(*first, path.drop_first(), r);
            lemma_with_ratio_leaves(*second, path.drop_first(), r);
        },
    }
}

proof fn lemma_subtree_prepend<R>(n: Node<R>, side: Side, rest: Seq<Side>)
    ensures
        n.subtree_at(seq![side] + rest) == match n {
            Node::Leaf(_) => None,
            Node::Split { first, second, .. } => if side == Side::First {
                first.subtree_at(rest)
            } else {
                second.subtree_at(rest)
            },
        },
{
    assert((seq![side] + rest).drop_first() =~= rest);
    assert((seq![side] + rest)[0] == side);
}

/// Whether `node` has a leaf holding `id`.
fn node_contains<R>(node: &Node<R>, id: WindowId) -> (b: bool)
    ensures
        b == node.has(id),
    decreases node,
{
    match node {
        Node::Leaf(x) => {
            proof {
                assert(node.leaves() =~= seq![*x]);
                assert(node.leaves()[0] == *x);
            }
            *x == id
        },
        Node::Split { first, second, .. } => {
            let a = node_contains(first, id);
            let b = node_contains(second, id);
            proof {
                assert(node.leaves() == first.leaves() + second.leaves());
                if a {
                    let i = choose|i: int| 0 <= i < first.leaves().len() && first.leaves()[i] == id;
                    assert(node.leaves()[i] == id);
                }
                if b {
                    let i = choose|i: int|
                        0 <= i < second.leaves().len() && second.leaves()[i] == id;
                    assert(node.leaves()[first.leaves().len() + i] == id);
                }
                if node.has(id) {
                    let i = choose|i: int| 0 <= i < node.leaves().len() && node.leaves()[i] == id;
                    if i < first.leaves().len() {
                        assert(first.leaves()[i] == id);
                    } else {
                        assert(second.leaves()[i - first.leaves().len()] == id);
                    }
                }
            }
            a || b
        },
    }
}

/// `node` with the leaf holding `id` dropped (see [`Node::without`]).
fn remove_from<R>(node: Node<R>, id: WindowId) -> (r: Option<Node<R>>)
    ensures
        r == node.without(id),
    decreases node,
{
    match node {
        Node::Leaf(x) => if x == id {
            None
        } else {
            Some(Node::Leaf(x))
        },
        Node::Split { direction, ratio, first, second } => match remove_from(*first, id) {
            None => Some(*second),
            Some(f) => match remove_from(*second, id) {
                None => Some(f),
                Some(s) => Some(
                    Node::Split { direction, ratio, first: Box::new(f), second: Box::new(s) },
                ),
            },
        },
    }
}


/// `node` with the leaf holding `target` split (see [`Node::split_leaf`]).
fn split_at_leaf<R: Copy>(
    node: Node<R>,
    target: WindowId,
    window: WindowId,
    direction: SplitDirection,
    ratio: R,
) -> (r: Node<R>)
    ensures
        r == node.split_leaf(target, window, direction, ratio),
    decreases node,
{
    match node {
        Node::Leaf(id) => if id == target {
            Node::Split {
                direction,
                ratio,
                first: Box::new(Node::Leaf(id)),
                second: Box::new(Node::Leaf(window)),
            }
        } else {
            Node::Leaf(id)
        },
        Node::Split { direction: d, ratio: r, first, second } => {
            let f = split_at_leaf(*first, target, window, direction, ratio);
            let s = split_at_leaf(*second, target, window, direction, ratio);
            Node::Split { direction: d, ratio: r, first: Box::new(f), second: Box::new(s) }
        },
    }
}

/// `node` with windows `a` and `b` exchanged (see [`Node::swapped`]).
fn swap_in<R>(node: Node<R>, a: WindowId, b: WindowId) -> (r: Node<R>)
    ensures
        r == node.swapped(a, b),
    decreases node,
{
    match node {
        Node::Leaf(x) => {
            let y = if x == a {
                b
            } else if x == b {
                a
            } else {
                x
            };
            Node::Leaf(y)
        },
        Node::Split { direction, ratio, first, second } => {
            let f = swap_in(*first, a, b);
            let s = swap_in(*second, a, b);
            Node::Split { direction, ratio, first: Box::new(f), second: Box::new(s) }
        },
    }
}

/// Number of leaves under `node`.
fn count_leaves<R>(node: &Node<R>) -> (c: usize)
    requires
        node.leaves().len() <= usize::MAX,
    ensures
        c == node.leaves().len(),
    decreases node,
{
    match node {
        Node::Leaf(_) => 1,
        Node::Split { first, second, .. } => {
            let a = count_leaves(first);
            let b = count_leaves(second);
            a + b
        },
    }
}

/// Appends `node`'s windows to `out`, first child before second.
fn collect_ids<R>(node: &Node<R>, out: &mut Vec<WindowId>)
    ensures
        final(out)@ == old(out)@ + node.leaves(),
    decreases node,
{
    match node {
        Node::Leaf(id) => {
            out.push(*id);
            proof {
                assert(final(out)@ =~= old(out)@ + node.leaves());
            }
        },
        Node::Split { first, second, .. } => {
            collect_ids(first, out);
            collect_ids(second, out);
            proof {
                assert(final(out)@ =~= old(out)@ + node.leaves());
            }
        },
    }
}

impl<R: Copy> Tree<R> {
    /// An empty tree capped at `max_tiled_windows`, orienting new splits by
    /// `insert_heuristic` and giving each one `split_ratio_default`.
    #[must_use]
    pub fn new(max_tiled_windows: usize, insert_heuristic: InsertHeuristic, split_ratio_default: R) -> (t: Self)
        ensures
            t.root_node() is None,
            t.max_windows() == max_tiled_windows,
            t.heuristic() == insert_heuristic,
            t.default_ratio() == split_ratio_default,
    {
        Tree { root: None, max_tiled_windows, insert_heuristic, split_ratio_default }
    }

    #[must_use]
    pub fn is_empty(&self) -> (b: bool)
        ensures
            b == (self.root_node() is None),
            b == (self.windows().len() == 0),
    {
        proof {
            if self.root is Some {
                lemma_leaves_nonempty(self.root.unwrap());
            }
        }
        self.root.is_none()
    }

    /// How many windows the tree tiles; never more than its cap.
    #[must_use]
    pub fn tiled_count(&self) -> (c: usize)
        ensures
            c == self.windows().len(),
            c <= self.max_windows(),
    {
        proof {
            use_type_invariant(self);
        }
        match &self.root {
            None => 0,
            Some(n) => count_leaves(n),
        }
    }

    #[must_use]
    pub fn contains(&self, id: WindowId) -> (b: bool)
        ensures
            b == self.windows().contains(id),
    {
        match &self.root {
            None => false,
            Some(n) => node_contains(n, id),
        }
    }

    /// The tiled windows in leaf order; no window appears twice.
    #[must_use]
    pub fn window_ids(&self) -> (ids: Vec<WindowId>)
        ensures
            ids@ == self.windows(),
            ids@.no_duplicates(),
    {
        proof {
            use_type_invariant(self);
        }
        let mut out = Vec::new();
        if let Some(n) = &self.root {
            collect_ids(n, &mut out);
        }
        proof {
            assert(out@ =~= self.windows());
        }
        out
    }

    /// The root node, for callers that lay the tree out on screen.
    pub fn root(&self) -> (r: Option<&Node<R>>)
        ensures
            r is None <==> self.root_node() is None,
            r is Some ==> *r.unwrap() == self.root_node().unwrap(),
    {
        match &self.root {
            None => None,
            Some(n) => Some(n),
        }
    }

    pub fn max_tiled_windows(&self) -> (m: usize)
        ensures
            m == self.max_windows(),
    {
        self.max_tiled_windows
    }

    pub fn insert_heuristic(&self) -> (h: InsertHeuristic)
        ensures
            h == self.heuristic(),
    {
        self.insert_heuristic
    }

    pub fn split_ratio_default(&self) -> (r: R)
        ensures
            r == self.default_ratio(),
    {
        self.split_ratio_default
    }

    /// A copy of this tree: same windows, same splits, same settings.
    pub fn duplicate(&self) -> (t: Self)
        ensures
            t.root_node() == self.root_node(),
            t.same_settings(*self),
    {
        proof {
            use_type_invariant(self);
        }
        let root = match &self.root {
            None => None,
            Some(n) => Some(copy_node(n)),
        };
        Tree {
            root,
            max_tiled_windows: self.max_tiled_windows,
            insert_heuristic: self.insert_heuristic,
            split_ratio_default: self.split_ratio_default,
        }
    }

    /// Insertion rule: an empty tree gets `window` as its sole leaf;
    /// otherwise the leaf holding `target` is split, keeping its window as
    /// the first child and placing `window` second (right/bottom), oriented
    /// per the tree's heuristic (`target_wide`: the target leaf's on-screen
    /// rect is at least as wide as tall) and given the default ratio. The
    /// caller picks `target` as the tiled leaf with the largest on-screen
    /// area, ties going to the lowest window id. At the cap, nothing changes.
    pub fn insert(&mut self, window: WindowId, target: WindowId, target_wide: bool) -> (outcome: InsertOutcome)
        requires
            !old(self).windows().contains(window),
            old(self).root_node() is Some ==> old(self).windows().contains(target),
        ensures
            final(self).same_settings(*old(self)),
            old(self).windows().len() >= old(self).max_windows() ==> outcome == InsertOutcome::CapReached
                && final(self).root_node() == old(self).root_node(),
            old(self).windows().len() < old(self).max_windows() ==> outcome == InsertOutcome::Inserted
                && final(self).root_node() == old(self).inserted(window, target, target_wide),
            outcome == InsertOutcome::Inserted ==> final(self).windows().len() == old(self).windows().len() + 1
                && final(self).windows().contains(window),
            outcome == InsertOutcome::Inserted ==> forall|x: WindowId|
                #[trigger] final(self).windows().contains(x) <==> (old(self).windows().contains(x)
                    || x == window),
    {
        proof {
            use_type_invariant(&*self);
        }
        let count = self.tiled_count();
        if count >= self.max_tiled_windows {
            return InsertOutcome::CapReached;
        }
        let direction = split_direction_for(self.insert_heuristic, target_wide);
        let ratio = self.split_ratio_default;
        let mut old_root = None;
        std::mem::swap(&mut old_root, &mut self.root);
        let new_root = match old_root {
            None => {
                proof {
                    lemma_leaf_leaves(Node::<R>::Leaf(window), window);
                }
                Node::Leaf(window)
            },
            Some(n) => {
                proof {
                    lemma_split_leaf(n, target, window, direction, ratio);
                    lemma_split_leaf_has(n, target, window, direction, ratio, window);
                    assert forall|x: WindowId|
                        #[trigger] n.split_leaf(target, window, direction, ratio).has(x) <==> (
                        n.has(x) || x == window) by {
                        lemma_split_leaf_has(n, target, window, direction, ratio, x);
                    }
                }
                split_at_leaf(n, target, window, direction, ratio)
            },
        };
        self.root = Some(new_root);
        InsertOutcome::Inserted
    }

    /// Removal rule: the leaf holding `window` is dropped and its sibling
    /// takes the place of their shared parent; removing the last window
    /// empties the tree. Returns `false`, changing nothing, when `window` is
    /// not tiled here.
    pub fn remove(&mut self, window: WindowId) -> (removed: bool)
        ensures
            final(self).same_settings(*old(self)),
            removed == old(self).windows().contains(window),
            !removed ==> final(self).root_node() == old(self).root_node(),
            removed ==> final(self).root_node() == old(self).root_node().unwrap().without(window),
            final(self).windows() == windows_without(old(self).windows(), window),
            removed ==> final(self).windows().len() + 1 == old(self).windows().len(),
            !final(self).windows().contains(window),
            forall|x: WindowId|
                #[trigger] final(self).windows().contains(x) <==> (old(self).windows().contains(x)
                    && x != window),
    {
        proof {
            use_type_invariant(&*self);
        }
        if !self.contains(window) {
            proof {
                lemma_windows_without_absent(self.windows(), window);
            }
            return false;
        }
        let mut old_root = None;
        std::mem::swap(&mut old_root, &mut self.root);
        match old_root {
            None => {},
            Some(n) => {
                proof {
                    lemma_without_leaves(n, window);
                    lemma_without(n, window);
                    if let Some(m) = n.without(window) {
                        lemma_without_has(n, window, window);
                        assert forall|x: WindowId| #[trigger] m.has(x) <==> (n.has(x) && x != window) by {
                            lemma_without_has(n, window, x);
                        }
                    }
                }
                self.root = remove_from(n, window);
            },
        }
        true
    }

    /// Directional movement, once the caller has found the nearest tiled
    /// leaf in the pressed direction (`neighbor`, from live geometry): the
    /// windows held by the focused leaf and that leaf are exchanged, the tree
    /// shape (splits, ratios) unchanged. Returns `false`, changing nothing,
    /// when `focused` is not tiled here or there is no neighbour (at the
    /// tree's edge: no wraparound).
    pub fn move_direction(&mut self, focused: WindowId, neighbor: Option<WindowId>) -> (moved: bool)
        ensures
            final(self).same_settings(*old(self)),
            moved == (old(self).windows().contains(focused) && (neighbor matches Some(n) && n
                != focused && old(self).windows().contains(n))),
            !moved ==> final(self).root_node() == old(self).root_node(),
            moved ==> final(self).root_node() == Some(
                old(self).root_node().unwrap().swapped(focused, neighbor.unwrap()),
            ),
            final(self).windows().len() == old(self).windows().len(),
            forall|x: WindowId| #[trigger]
                final(self).windows().contains(x) <==> old(self).windows().contains(x),
    {
        proof {
            use_type_invariant(&*self);
        }
        if !self.contains(focused) {
            return false;
        }
        let other = match neighbor {
            None => {
                return false;
            },
            Some(o) => o,
        };
        if other == focused || !self.contains(other) {
            return false;
        }
        let mut old_root = None;
        std::mem::swap(&mut old_root, &mut self.root);
        match old_root {
            None => {},
            Some(n) => {
                proof {
                    lemma_swapped_no_dups(n, focused, other);
                    assert forall|x: WindowId| #[trigger] n.swapped(focused, other).has(x) <==> n.has(x) by {
                        assert(n.swapped(focused, other).has(x) <==> n.has(swap_id(x, focused, other)));
                    }
                }
                self.root = Some(swap_in(n, focused, other));
            },
        }
        true
    }
}

/// A structurally identical copy of `node`.
fn copy_node<R: Copy>(node: &Node<R>) -> (r: Node<R>)
    ensures
        r == *node,
    decreases node,
{
    match node {
        Node::Leaf(id) => Node::Leaf(*id),
        Node::Split { direction, ratio, first, second } => {
            let f = copy_node(first);
            let s = copy_node(second);
            Node::Split { direction: *direction, ratio: *ratio, first: Box::new(f), second: Box::new(s) }
        },
    }
}


/// The split orientation a resize in `direction` adjusts.
fn resize_axis_for(direction: Direction) -> (a: SplitDirection)
    ensures
        a == resize_axis(direction),
{
    match direction {
        Direction::Left | Direction::Right => SplitDirection::Vertical,
        Direction::Up | Direction::Down => SplitDirection::Horizontal,
    }
}

/// Whether a resize in `direction` grows a split's ratio.
fn resize_grows_for(direction: Direction) -> (g: bool)
    ensures
        g == resize_grows(direction),
{
    match direction {
        Direction::Right | Direction::Down => true,
        Direction::Left | Direction::Up => false,
    }
}

/// The steps from `node` down to the leaf holding `id`, each paired with the
/// orientation of the split it leaves.
fn trail<R>(node: &Node<R>, id: WindowId) -> (t: Vec<(Side, SplitDirection)>)
    requires
        node.has(id),
    ensures
        t@.len() == node.path_to(id).len(),
        forall|i: int|
            #![trigger t@[i]]
            0 <= i < t@.len() ==> t@[i].0 == node.path_to(id)[i] && node.axis_at(
                node.path_to(id).take(i),
            ) == Some(t@[i].1),
    decreases node,
{
    match node {
        Node::Leaf(_) => Vec::new(),
        Node::Split { direction, first, second, .. } => {
            proof {
                lemma_concat_contains(first.leaves(), second.leaves(), id);
            }
            let in_first = node_contains(first, id);
            let side = if in_first {
                Side::First
            } else {
                Side::Second
            };
            let mut rest = if in_first {
                trail(first, id)
            } else {
                trail(second, id)
            };
            let ghost child = if in_first {
                **first
            } else {
                **second
            };
            let ghost old_rest = rest@;
            rest.insert(0, (side, *direction));
            proof {
                let p = node.path_to(id);
                let cp = child.path_to(id);
                assert(p == seq![side] + cp);
                assert forall|i: int| #![trigger rest@[i]] 0 <= i < rest@.len() implies rest@[i].0 == p[i]
                    && node.axis_at(p.take(i)) == Some(rest@[i].1) by {
                    if i == 0 {
                        assert(p.take(0) =~= Seq::<Side>::empty());
                    } else {
                        assert(p.take(i) =~= seq![side] + cp.take(i - 1));
                        lemma_subtree_prepend(*node, side, cp.take(i - 1));
                        assert(rest@[i] == old_rest[i - 1]);
                    }
                }
            }
            rest
        },
    }
}

/// The ratio of the split reached by following `path` from step `i` on.
fn ratio_along<R: Copy>(node: &Node<R>, path: &Vec<Side>, i: usize) -> (r: R)
    requires
        i <= path@.len(),
        node.ratio_at(path@.subrange(i as int, path@.len() as int)) is Some,
    ensures
        Some(r) == node.ratio_at(path@.subrange(i as int, path@.len() as int)),
    decreases node,
{
    let ghost sub = path@.subrange(i as int, path@.len() as int);
    match node {
        Node::Leaf(_) => {
            proof {
                assert(false);
            }
            vstd::pervasive::unreached()
        },
        Node::Split { ratio, first, second, .. } => {
            if i == path.len() {
                *ratio
            } else {
                proof {
                    assert(sub.drop_first() =~= path@.subrange(i + 1, path@.len() as int));
                }
                match path[i] {
                    Side::First => ratio_along(first, path, i + 1),
                    Side::Second => ratio_along(second, path, i + 1),
                }
            }
        },
    }
}

/// `node` with the ratio of the split reached by following `path` from step
/// `i` on replaced by `r`.
fn set_ratio_along<R>(node: Node<R>, path: &Vec<Side>, i: usize, r: R) -> (n: Node<R>)
    requires
        i <= path@.len(),
    ensures
        n == node.with_ratio(path@.subrange(i as int, path@.len() as int), r),
    decreases node,
{
    let ghost sub = path@.subrange(i as int, path@.len() as int);
    match node {
        Node::Leaf(id) => Node::Leaf(id),
        Node::Split { direction, ratio, first, second } => {
            if i == path.len() {
                Node::Split { direction, ratio: r, first, second }
            } else {
                proof {
                    assert(sub.drop_first() =~= path@.subrange(i + 1, path@.len() as int));
                }
                match path[i] {
                    Side::First => {
                        let f = set_ratio_along(*first, path, i + 1, r);
                        Node::Split { direction, ratio, first: Box::new(f), second }
                    },
                    Side::Second => {
                        let s = set_ratio_along(*second, path, i + 1, r);
                        Node::Split { direction, ratio, first, second: Box::new(s) }
                    },
                }
            }
        },
    }
}

impl<R: Copy> Tree<R> {
    /// Resize: walks up from the focused leaf to the split whose boundary is
    /// the focused window's own edge in `direction` (see
    /// [`is_resize_depth`]) and replaces that split's ratio by
    /// `adjust(ratio, grows)`, where `grows` is true for right/down (the
    /// boundary moves towards the second child) and false for left/up. The
    /// caller's `adjust` applies the configured step and clamps to the
    /// configured bounds. Returns `false`, changing nothing, when `focused`
    /// is not tiled here or no ancestor split has the matching orientation.
    pub fn resize<F: Fn(R, bool) -> R>(&mut self, focused: WindowId, direction: Direction, adjust: F) -> (resized: bool)
        requires
            forall|r: R, grows: bool| adjust.requires((r, grows)),
        ensures
            final(self).same_settings(*old(self)),
            final(self).windows() == old(self).windows(),
            resized == (old(self).windows().contains(focused) && can_resize(
                old(self).root_node().unwrap(),
                old(self).root_node().unwrap().path_to(focused),
                direction,
            )),
            !resized ==> final(self).root_node() == old(self).root_node(),
            resized ==> exists|d: int, r: R|
                #![trigger old(self).root_node().unwrap().resized_at(focused, d, r)]
                {
                    let n = old(self).root_node().unwrap();
                    let p = n.path_to(focused).take(d);
                    &&& is_resize_depth(n, n.path_to(focused), direction, d)
                    &&& adjust.ensures((n.ratio_at(p).unwrap(), resize_grows(direction)), r)
                    &&& final(self).root_node() == Some(n.resized_at(focused, d, r))
                },
    {
        proof {
            use_type_invariant(&*self);
        }
        let n = match &self.root {
            None => {
                return false;
            },
            Some(n) => n,
        };
        if !node_contains(n, focused) {
            return false;
        }
        let ghost path = n.path_to(focused);
        let ghost n0 = *n;
        let t = trail(n, focused);
        let axis = resize_axis_for(direction);
        let grows = resize_grows_for(direction);
        let pref = if grows {
            Side::First
        } else {
            Side::Second
        };
        let mut k = t.len();
        let mut fallback: Option<usize> = None;
        let mut chosen: Option<usize> = None;
        while k > 0 && chosen.is_none()
            invariant
                k <= t@.len(),
                t@.len() == path.len(),
                forall|i: int|
                    #![trigger t@[i]]
                    0 <= i < t@.len() ==> t@[i].0 == path[i] && n.axis_at(path.take(i)) == Some(
                        t@[i].1,
                    ),
                chosen is None ==> forall|e: int|
                    k <= e < t@.len() ==> !side_matches(*n, path, e, axis, pref),
                chosen matches Some(c) ==> c == k && side_matches(*n, path, c as int, axis, pref)
                    && forall|e: int| c < e < t@.len() ==> !side_matches(*n, path, e, axis, pref),
                fallback is None ==> forall|e: int| k <= e < t@.len() ==> !axis_matches(*n, path, e, axis),
                fallback matches Some(f) ==> k <= f < t@.len() && axis_matches(*n, path, f as int, axis)
                    && forall|e: int| f < e < t@.len() ==> !axis_matches(*n, path, e, axis),
            decreases k,
        {
            k = k - 1;
            let (side, ax) = t[k];
            if ax == axis {
                if fallback.is_none() {
                    fallback = Some(k);
                }
                if side == pref {
                    chosen = Some(k);
                }
            }
        }
        let depth = match chosen {
            Some(c) => c,
            None => match fallback {
                Some(f) => f,
                None => {
                    return false;
                },
            },
        };
        proof {
            assert(is_resize_depth(*n, path, direction, depth as int));
        }
        let mut prefix: Vec<Side> = Vec::new();
        let mut i: usize = 0;
        while i < depth
            invariant
                i <= depth < t@.len(),
                t@.len() == path.len(),
                forall|j: int| 0 <= j < t@.len() ==> t@[j].0 == path[j],
                prefix@ == path.take(i as int),
            decreases depth - i,
        {
            prefix.push(t[i].0);
            i = i + 1;
            proof {
                assert(prefix@ =~= path.take(i as int));
            }
        }
        proof {
            assert(prefix@.subrange(0, prefix@.len() as int) =~= prefix@);
        }
        let old_ratio = ratio_along(n, &prefix, 0);
        let new_ratio = adjust(old_ratio, grows);
        let mut old_root = None;
        std::mem::swap(&mut old_root, &mut self.root);
        match old_root {
            None => {},
            Some(root) => {
                proof {
                    lemma_with_ratio_leaves(root, prefix@, new_ratio);
                }
                self.root = Some(set_ratio_along(root, &prefix, 0, new_ratio));
            },
        }
        proof {
            assert(prefix@ == path.take(depth as int));
            assert(self.root_node() == Some(n0.resized_at(focused, depth as int, new_ratio)));
        }
        true
    }
}


/// Removing the window an insertion just added gives back exactly the tree
/// from before the insertion: the new split collapses and its first child,
/// the old target leaf, takes its place again.
pub proof fn law_remove_undoes_insert<R>(
    n: Node<R>,
    target: WindowId,
    window: WindowId,
    direction: SplitDirection,
    ratio: R,
)
    requires
        n.leaves().no_duplicates(),
        n.has(target),
        !n.has(window),
    ensures
        n.split_leaf(target, window, direction, ratio).without(window) == Some(n),
        Node::<R>::Leaf(window).without(window) == None::<Node<R>>,
    decreases n,
{
    match n {
        Node::Leaf(id) => {
            lemma_leaf_leaves(n, id);
            assert(n.leaves().contains(target));
            assert(n.leaves().contains(window) == false);
            assert(Node::<R>::Leaf(id).without(window) == Some(Node::<R>::Leaf(id)));
            assert(Node::<R>::Leaf(window).without(window) == None::<Node<R>>);
        },
        Node::Split { direction: d, ratio: r, first, second } => {
            lemma_concat_no_dups_split(first.leaves(), second.leaves());
            lemma_concat_contains(first.leaves(), second.leaves(), target);
            lemma_concat_contains(first.leaves(), second.leaves(), window);
            let f2 = first.split_leaf(target, window, direction, ratio);
            let s2 = second.split_leaf(target, window, direction, ratio);
            if first.has(target) {
                law_remove_undoes_insert(*first, target, window, direction, ratio);
                lemma_split_leaf_absent(*second, target, window, direction, ratio);
                lemma_without_absent(*second, window);
                assert(f2.without(window) == Some(*first));
                assert(s2.without(window) == Some(*second));
            } else {
                law_remove_undoes_insert(*second, target, window, direction, ratio);
                lemma_split_leaf_absent(*first, target, window, direction, ratio);
                lemma_without_absent(*first, window);
                assert(f2.without(window) == Some(*first));
                assert(s2.without(window) == Some(*second));
            }
        },
    }
}

/// Moving a window never reshapes the tree: every split keeps its
/// orientation and ratio, the same windows stay tiled, and moving the same
/// pair back restores the tree it started from.
pub proof fn law_move_keeps_shape<R>(n: Node<R>, a: WindowId, b: WindowId)
    ensures
        n.swapped(a, b).same_shape(n),
        n.swapped(a, b).swapped(a, b) == n,
        n.has(a) && n.has(b) ==> forall|x: WindowId| n.swapped(a, b).has(x) <==> n.has(x),
        n.leaves().no_duplicates() ==> n.swapped(a, b).leaves().no_duplicates(),
    decreases n,
{
    match n {
        Node::Leaf(x) => {},
        Node::Split { first, second, .. } => {
            law_move_keeps_shape(*first, a, b);
            law_move_keeps_shape(*second, a, b);
        },
    }
    lemma_swapped_leaves(n, a, b);
    if n.has(a) && n.has(b) {
        assert forall|x: WindowId| n.swapped(a, b).has(x) <==> n.has(x) by {
            let l = n.leaves();
            let m = n.swapped(a, b).leaves();
            if m.contains(x) {
                let i = choose|i: int| 0 <= i < m.len() && m[i] == x;
                assert(swap_id(l[i], a, b) == x);
                if l[i] == a {
                    assert(x == b);
                } else if l[i] == b {
                    assert(x == a);
                }
            }
            if l.contains(x) {
                let y = swap_id(x, a, b);
                if x == a {
                    let i = choose|i: int| 0 <= i < l.len() && l[i] == b;
                    assert(m[i] == a);
                } else if x == b {
                    let i = choose|i: int| 0 <= i < l.len() && l[i] == a;
                    assert(m[i] == b);
                } else {
                    let i = choose|i: int| 0 <= i < l.len() && l[i] == x;
                    assert(m[i] == x);
                }
            }
        }
    }
    if n.leaves().no_duplicates() {
        lemma_swapped_no_dups(n, a, b);
    }
}

/// Resizing only changes the one ratio it targets: the tiled windows and
/// their order are unchanged, and the split reached by `path` now carries
/// `r`.
pub proof fn law_resize_keeps_windows<R>(n: Node<R>, path: Seq<Side>, r: R)
    ensures
        n.with_ratio(path, r).leaves() == n.leaves(),
        n.axis_at(path) is Some ==> n.with_ratio(path, r).ratio_at(path) == Some(r),
        n.with_ratio(path, r).axis_at(path) == n.axis_at(path),
    decreases n,
{
    lemma_with_ratio_leaves(n, path, r);
    match n {
        Node::Leaf(_) => {},
        Node::Split { first, second, .. } => {
            if path.len() > 0 {
                law_resize_keeps_windows(*first, path.drop_first(), r);
                law_resize_keeps_windows(*second, path.drop_first(), r);
            }
        },
    }
}

/// A resize always has at most one target split: the choice is
/// deterministic, depending only on the tree and the direction pressed.
pub proof fn law_resize_target_unique<R>(n: Node<R>, path: Seq<Side>, direction: Direction, d1: int, d2: int)
    requires
        is_resize_depth(n, path, direction, d1),
        is_resize_depth(n, path, direction, d2),
    ensures
        d1 == d2,
{
}

/// A resize changes exactly one split: the one `path` leads to gets the new
/// ratio, and every other split keeps its orientation and ratio (together
/// with `law_resize_keeps_windows`: no window moves between leaves).
pub proof fn law_resize_changes_one_split<R>(n: Node<R>, path: Seq<Side>, r: R, q: Seq<Side>)
    ensures
        n.with_ratio(path, r).axis_at(q) == n.axis_at(q),
        q != path ==> n.with_ratio(path, r).ratio_at(q) == n.ratio_at(q),
    decreases n,
{
    match n {
        Node::Leaf(_) => {},
        Node::Split { direction, ratio, first, second } => {
            let m = n.with_ratio(path, r);
            if q.len() == 0 {
                assert(m.subtree_at(q) == Some(m));
                assert(n.subtree_at(q) == Some(n));
                if path.len() > 0 {
                    assert(q.len() != path.len());
                } else {
                    assert(q =~= path);
                }
            } else if path.len() == 0 {
                assert(m == Node::Split { direction, ratio: r, first, second });
                if q[0] == Side::First {
                    assert(m.subtree_at(q) == first.subtree_at(q.drop_first()));
                } else {
                    assert(m.subtree_at(q) == second.subtree_at(q.drop_first()));
                }
            } else if path[0] != q[0] {
                if q[0] == Side::First {
                    assert(m == Node::Split {
                        direction,
                        ratio,
                        first,
                        second: Box::new(second.with_ratio(path.drop_first(), r)),
                    });
                } else {
                    assert(m == Node::Split {
                        direction,
                        ratio,
                        first: Box::new(first.with_ratio(path.drop_first(), r)),
                        second,
                    });
                }
            } else {
                if q != path {
                    assert(q.drop_first() != path.drop_first()) by {
                        if q.drop_first() == path.drop_first() {
                            assert(q.len() == path.len());
                            assert forall|i: int| 0 <= i < q.len() implies q[i] == path[i] by {
                                if i > 0 {
                                    assert(q[i] == q.drop_first()[i - 1]);
                                    assert(path[i] == path.drop_first()[i - 1]);
                                }
                            }
                            assert(q =~= path);
                        }
                    }
                }
                if q[0] == Side::First {
                    law_resize_changes_one_split(*first, path.drop_first(), r, q.drop_first());
                    assert(m == Node::Split {
                        direction,
                        ratio,
                        first: Box::new(first.with_ratio(path.drop_first(), r)),
                        second,
                    });
                } else {
                    law_resize_changes_one_split(*second, path.drop_first(), r, q.drop_first());
                    assert(m == Node::Split {
                        direction,
                        ratio,
                        first,
                        second: Box::new(second.with_ratio(path.drop_first(), r)),
                    });
                }
            }
        },
    }
}

/// The pressed direction as a unit step on screen, in the coordinates the
/// window geometry uses: x grows to the right, y grows downward.
pub open spec fn direction_step(direction: Direction) -> (int, int) {
    match direction {
        Direction::Left => (-1, 0),
        Direction::Right => (1, 0),
        Direction::Up => (0, -1),
        Direction::Down => (0, 1),
    }
}

/// The step on screen from a split's first child to its second: a vertical
/// split lays them out left | right, a horizontal one top / bottom.
pub open spec fn second_child_step(axis: SplitDirection) -> (int, int) {
    match axis {
        SplitDirection::Vertical => (1, 0),
        SplitDirection::Horizontal => (0, 1),
    }
}

/// A resize moves the boundary the way the key points. The split adjusted
/// lies across the pressed direction (its children are lined up along it);
/// the ratio (the first child's share) grows, moving the boundary towards
/// the second child, exactly when the second child lies in the pressed
/// direction; and the preferred split is the one whose boundary is the
/// focused window's own edge on the pressed side: the window is the first
/// child when the second lies that way, the second child otherwise.
pub proof fn law_resize_follows_pressed_direction(direction: Direction)
    ensures
        second_child_step(resize_axis(direction)) == direction_step(direction) || (
        second_child_step(resize_axis(direction)).0 == -direction_step(direction).0
            && second_child_step(resize_axis(direction)).1 == -direction_step(direction).1),
        resize_grows(direction) <==> second_child_step(resize_axis(direction)) == direction_step(
            direction,
        ),
        preferred_side(direction) == (if second_child_step(resize_axis(direction))
            == direction_step(direction) {
            Side::First
        } else {
            Side::Second
        }),
{
}

} // verus!
