use hyperwm::{Direction, InsertHeuristic, InsertOutcome, Node, SplitDirection, Tree, WindowId};

fn id(n: u64) -> WindowId {
    WindowId(n)
}

fn tree(max: usize) -> Tree<f64> {
    Tree::new(max, InsertHeuristic::AspectRatio, 0.5)
}

/// The split orientations along the first-child spine and the leaf order,
/// enough to compare two trees' shapes in these tests.
fn describe(node: &Node<f64>, out: &mut Vec<String>) {
    match node {
        Node::Leaf(w) => out.push(format!("leaf {}", w.0)),
        Node::Split { direction, ratio, first, second } => {
            out.push(format!("split {direction:?} {ratio}"));
            describe(first, out);
            describe(second, out);
        }
    }
}

fn shape(t: &Tree<f64>) -> Vec<String> {
    let mut out = Vec::new();
    if let Some(root) = t.root() {
        describe(root, &mut out);
    }
    out
}

#[test]
fn insert_into_empty_tree_becomes_root() {
    let mut t = tree(4);
    let w1 = id(1);
    assert!(t.is_empty());
    assert_eq!(t.insert(w1, w1, true), InsertOutcome::Inserted);
    assert!(!t.is_empty());
    assert_eq!(t.tiled_count(), 1);
    assert_eq!(t.window_ids(), vec![w1]);
}

#[test]
fn insert_beyond_cap_does_not_enter_tree() {
    let mut t = tree(2);
    let (w1, w2, w3) = (id(1), id(2), id(3));
    assert_eq!(t.insert(w1, w1, true), InsertOutcome::Inserted);
    assert_eq!(t.insert(w2, w1, true), InsertOutcome::Inserted);
    assert_eq!(t.insert(w3, w1, false), InsertOutcome::CapReached);
    assert_eq!(t.tiled_count(), 2);
    assert!(!t.contains(w3));
}

#[test]
fn insert_accepts_windows_up_to_default_cap_of_four() {
    let mut t = tree(4);
    let (w1, w2, w3, w4, w5) = (id(1), id(2), id(3), id(4), id(5));
    assert_eq!(t.insert(w1, w1, true), InsertOutcome::Inserted);
    assert_eq!(t.insert(w2, w1, true), InsertOutcome::Inserted);
    assert_eq!(t.insert(w3, w1, false), InsertOutcome::Inserted);
    assert_eq!(t.insert(w4, w2, false), InsertOutcome::Inserted);
    assert_eq!(t.tiled_count(), 4);
    assert!(t.contains(w4));

    assert_eq!(t.insert(w5, w1, true), InsertOutcome::CapReached);
    assert_eq!(t.tiled_count(), 4);
    assert!(!t.contains(w5));
}

#[test]
fn symmetric_2x2_grid() {
    // Targets and shapes as an 800x600 screen gives them: w1|w2 side by
    // side, then each 400x600 half split top/bottom.
    let mut t = tree(4);
    let (w1, w2, w3, w4) = (id(1), id(2), id(3), id(4));
    t.insert(w1, w1, true);
    t.insert(w2, w1, true);
    t.insert(w3, w1, false);
    t.insert(w4, w2, false);
    assert_eq!(t.window_ids(), vec![w1, w3, w2, w4]);
    assert_eq!(
        shape(&t),
        vec![
            "split Vertical 0.5",
            "split Horizontal 0.5",
            "leaf 1",
            "leaf 3",
            "split Horizontal 0.5",
            "leaf 2",
            "leaf 4",
        ]
    );
}

#[test]
fn remove_non_root_leaf_collapses_to_sibling() {
    let mut t = tree(4);
    let (w1, w2, w3) = (id(1), id(2), id(3));
    t.insert(w1, w1, true);
    t.insert(w2, w1, true);
    t.insert(w3, w1, false);

    assert!(t.remove(w3));
    assert_eq!(t.tiled_count(), 2);
    assert!(!t.contains(w3));

    let mut expected = tree(4);
    expected.insert(w1, w1, true);
    expected.insert(w2, w1, true);
    assert_eq!(shape(&t), shape(&expected));
}

#[test]
fn remove_last_window_empties_tree() {
    let mut t = tree(4);
    let w1 = id(1);
    t.insert(w1, w1, true);
    assert!(t.remove(w1));
    assert!(t.is_empty());
    assert_eq!(t.tiled_count(), 0);
    assert_eq!(t.window_ids(), Vec::new());
}

#[test]
fn remove_unknown_window_is_noop() {
    let mut t = tree(4);
    let (w1, w2) = (id(1), id(2));
    t.insert(w1, w1, true);
    assert!(!t.remove(w2));
    assert_eq!(t.tiled_count(), 1);
}

#[test]
fn insert_heuristic_always_vertical_ignores_aspect_ratio() {
    let mut t: Tree<f64> = Tree::new(4, InsertHeuristic::AlwaysVertical, 0.5);
    let (w1, w2, w3) = (id(1), id(2), id(3));
    t.insert(w1, w1, true);
    t.insert(w2, w1, true);
    t.insert(w3, w1, false); // taller than wide, but forced vertical
    for line in shape(&t) {
        assert!(!line.contains("Horizontal"), "{line}");
    }
}

#[test]
fn insert_heuristic_always_horizontal_ignores_aspect_ratio() {
    let mut t: Tree<f64> = Tree::new(4, InsertHeuristic::AlwaysHorizontal, 0.5);
    let (w1, w2) = (id(1), id(2));
    t.insert(w1, w1, true);
    t.insert(w2, w1, true); // wider than tall, but forced horizontal
    assert_eq!(shape(&t)[0], "split Horizontal 0.5");
}

#[test]
fn move_direction_at_edge_is_noop() {
    let mut t = tree(4);
    let (w1, w2, w3, w4) = (id(1), id(2), id(3), id(4));
    t.insert(w1, w1, true);
    t.insert(w2, w1, true);
    t.insert(w3, w1, false);
    t.insert(w4, w2, false);
    let before = shape(&t);
    assert!(!t.move_direction(w2, None));
    assert_eq!(shape(&t), before);
}

#[test]
fn move_swaps_windows_and_keeps_shape() {
    let mut t = tree(4);
    let (w1, w2, w3) = (id(1), id(2), id(3));
    t.insert(w1, w1, true);
    t.insert(w2, w1, true);
    t.insert(w3, w1, false);
    assert!(t.move_direction(w1, Some(w2)));
    assert_eq!(t.window_ids(), vec![w2, w3, w1]);
    assert!(!t.move_direction(id(9), Some(w2)));
}

#[test]
fn resize_adjusts_the_split_on_the_pressed_side() {
    let mut t = tree(4);
    let (w1, w2) = (id(1), id(2));
    t.insert(w1, w1, true);
    t.insert(w2, w1, true); // vertical: w1 | w2
    let step = |r: f64, grows: bool| {
        let next = if grows { r + 0.1 } else { r - 0.1 };
        next.clamp(0.1, 0.9)
    };
    assert!(t.resize(w1, Direction::Right, step));
    assert_eq!(shape(&t)[0], "split Vertical 0.6");
    // No horizontal split above either window: up/down do nothing.
    assert!(!t.resize(w1, Direction::Down, step));
    assert!(!t.resize(w2, Direction::Up, step));
    for _ in 0..20 {
        t.resize(w1, Direction::Left, step);
    }
    let first = &shape(&t)[0];
    let ratio: f64 = first.rsplit(' ').next().unwrap().parse().unwrap();
    assert!((ratio - 0.1).abs() < 1e-9);
}

#[test]
fn resize_wrong_axis_walks_up_or_noops() {
    let mut t = tree(4);
    let w1 = id(1);
    t.insert(w1, w1, true);
    let step = |r: f64, grows: bool| if grows { r + 0.1 } else { r - 0.1 };
    // No splits exist at all: no matching ancestor in any direction.
    assert!(!t.resize(w1, Direction::Left, step));
    assert!(!t.resize(w1, Direction::Up, step));
}

#[test]
fn resize_walks_up_to_the_matching_split() {
    let mut t = tree(4);
    let (w1, w2, w3) = (id(1), id(2), id(3));
    t.insert(w1, w1, true);
    t.insert(w2, w1, true); // vertical: w1 | w2
    t.insert(w3, w1, false); // w1 / w3
    let step = |r: f64, grows: bool| if grows { r + 0.1 } else { r - 0.1 };
    // w3 pressing Right: its own split is horizontal, so the vertical root
    // split is the one adjusted.
    assert!(t.resize(w3, Direction::Right, step));
    assert_eq!(shape(&t)[0], "split Vertical 0.6");
    // w2 pressing Down: nothing horizontal above it.
    assert!(!t.resize(w2, Direction::Down, step));
}

#[test]
fn split_direction_follows_the_heuristic() {
    assert_eq!(
        hyperwm::split_direction_for(InsertHeuristic::AspectRatio, true),
        SplitDirection::Vertical
    );
    assert_eq!(
        hyperwm::split_direction_for(InsertHeuristic::AspectRatio, false),
        SplitDirection::Horizontal
    );
    assert_eq!(
        hyperwm::split_direction_for(InsertHeuristic::AlwaysVertical, false),
        SplitDirection::Vertical
    );
}

#[test]
fn remove_undoes_insert() {
    let mut t = tree(4);
    let (w1, w2, w3) = (id(1), id(2), id(3));
    t.insert(w1, w1, true);
    t.insert(w2, w1, true);
    let before = shape(&t);
    t.insert(w3, w2, false);
    assert!(t.remove(w3));
    assert_eq!(shape(&t), before);
}

/// Split ratios in pre-order (a split before its children, first before
/// second).
fn ratios(t: &Tree<f64>) -> Vec<f64> {
    fn walk(node: &Node<f64>, out: &mut Vec<f64>) {
        if let Node::Split { ratio, first, second, .. } = node {
            out.push(*ratio);
            walk(first, out);
            walk(second, out);
        }
    }
    let mut out = Vec::new();
    if let Some(root) = t.root() {
        walk(root, &mut out);
    }
    out
}

/// The ratio adjustment the daemon applies for a configured step and
/// clamp range.
fn clamped_step(step: f64, min: f64, max: f64) -> impl Fn(f64, bool) -> f64 {
    move |r: f64, grows: bool| {
        let next = if grows { r + step } else { r - step };
        next.clamp(min, max)
    }
}

fn close(a: f64, b: f64) -> bool {
    (a - b).abs() < 1e-9
}

#[test]
fn resize_clamps_to_min_max_ratio() {
    let mut t = tree(4);
    let (w1, w2) = (id(1), id(2));
    t.insert(w1, w1, true);
    t.insert(w2, w1, true); // vertical: w1 (first/left) | w2 (second/right)
    for _ in 0..20 {
        t.resize(w1, Direction::Left, clamped_step(0.1, 0.1, 0.9));
    }
    // On an 800-wide screen w1 is 800 * ratio wide.
    assert!(close(800.0 * ratios(&t)[0], 80.0));
}

#[test]
fn resize_second_child_grows_toward_its_own_edge() {
    let mut t = tree(4);
    let (w1, w2) = (id(1), id(2));
    t.insert(w1, w1, true);
    t.insert(w2, w1, true); // vertical: w1 (first) | w2 (second)

    assert!(t.resize(w2, Direction::Left, clamped_step(0.1, 0.1, 0.9)));
    let r = ratios(&t)[0];
    assert!(close(800.0 * r, 320.0)); // w1
    assert!(close(800.0 * (1.0 - r), 480.0)); // w2

    assert!(t.resize(w2, Direction::Right, clamped_step(0.1, 0.1, 0.9)));
    let r = ratios(&t)[0];
    assert!(close(800.0 * r, 400.0));
    assert!(close(800.0 * (1.0 - r), 400.0));
}

#[test]
fn resize_nested_same_axis_split_picks_outer_boundary_not_inner() {
    let mut t = Tree::new(4, InsertHeuristic::AlwaysVertical, 0.5);
    let (w1, w2, w3) = (id(1), id(2), id(3));
    t.insert(w1, w1, true); // root
    t.insert(w2, w1, false); // Root: Vertical, w1 (First) | w2 (Second)
    t.insert(w3, w1, false); // w1 -> Vertical again: w1 (First) | w3 (Second)
    assert_eq!(t.window_ids(), vec![w1, w3, w2]);
    let before = ratios(&t);
    assert!(close(800.0 * before[0] * before[1], 200.0)); // w1
    assert!(close(800.0 * before[0] * (1.0 - before[1]), 200.0)); // w3
    assert!(close(800.0 * (1.0 - before[0]), 400.0)); // w2

    assert!(t.resize(w3, Direction::Right, clamped_step(0.1, 0.1, 0.9)));
    let after = ratios(&t);
    // The outer boundary (w3's right edge, shared with w2) moved right.
    assert!(close(800.0 * after[0] * after[1], 240.0)); // w1
    assert!(close(800.0 * after[0] * (1.0 - after[1]), 240.0)); // w3
    assert!(close(800.0 * (1.0 - after[0]), 320.0)); // w2
}

#[test]
fn resize_nested_same_axis_split_from_aspect_ratio_heuristic_on_wide_screen() {
    // Targets and shapes as a 2400x900 screen gives them.
    let mut t = tree(4);
    let (w1, w2, w3, w4) = (id(1), id(2), id(3), id(4));
    t.insert(w1, w1, true); // root
    t.insert(w2, w1, true); // w1 (2400x900, wider) -> vertical: w1 | w2
    t.insert(w3, w1, true); // tied areas -> w1 (1200x900, wider) -> vertical: w1 | w3

    assert!(t.resize(w2, Direction::Right, clamped_step(0.2, 0.1, 0.9))); // root .5 -> .7
    assert!(t.resize(w3, Direction::Left, clamped_step(0.01, 0.1, 0.9))); // inner .5 -> .49

    t.insert(w4, w3, false); // w3 (856.8x900, taller) -> horizontal: w3 / w4
    let before = ratios(&t); // root, inner, w3/w4
    assert_eq!(before.len(), 3);
    assert!(close(2400.0 * before[0] * before[1], 823.2)); // w1
    assert!(close(2400.0 * before[0] * (1.0 - before[1]), 856.8)); // w3 and w4
    assert!(close(900.0 * before[2], 450.0)); // w3's height
    assert!(close(2400.0 * (1.0 - before[0]), 720.0)); // w2

    assert!(t.resize(w3, Direction::Right, clamped_step(0.1, 0.1, 0.9)));
    let after = ratios(&t);
    assert!(close(2400.0 * after[0] * after[1], 940.8)); // w1
    assert!(close(2400.0 * after[0] * (1.0 - after[1]), 979.2)); // w3 and w4
    assert!(close(900.0 * after[2], 450.0));
    assert!(close(2400.0 * (1.0 - after[0]), 480.0)); // w2
}

#[test]
fn move_direction_needs_another_tiled_neighbor() {
    let mut t = tree(4);
    let (w1, w2) = (id(1), id(2));
    t.insert(w1, w1, true);
    t.insert(w2, w1, true);
    let before = shape(&t);
    // A neighbour outside the tree, or the focused window itself, moves
    // nothing.
    assert!(!t.move_direction(w1, Some(id(9))));
    assert!(!t.move_direction(w1, Some(w1)));
    assert_eq!(shape(&t), before);
    assert_eq!(t.window_ids(), vec![w1, w2]);
}

#[test]
fn remove_keeps_the_other_windows_in_order() {
    let mut t = tree(4);
    let (w1, w2, w3, w4) = (id(1), id(2), id(3), id(4));
    t.insert(w1, w1, true);
    t.insert(w2, w1, true);
    t.insert(w3, w1, false);
    t.insert(w4, w2, false);
    assert_eq!(t.window_ids(), vec![w1, w3, w2, w4]);
    assert!(t.remove(w3));
    assert_eq!(t.window_ids(), vec![w1, w2, w4]);
    assert!(t.remove(w1));
    assert_eq!(t.window_ids(), vec![w2, w4]);
}
