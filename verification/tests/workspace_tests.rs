use hyperwm::{
    same_window_set, space_step, SavedSpace, SpaceCache, SpaceStep,
    after_bind, after_probe, operation_for, Action, BindError, BindStep, Direction,
    InsertHeuristic, Operation, Placement, Removal, Toggle, Tree, WindowId, Workspace,
    AXNotification, NotificationEvent,
};

fn id(n: u64) -> WindowId {
    WindowId(n)
}

fn workspace(max: usize) -> Workspace<f64> {
    Workspace::new(Tree::new(max, InsertHeuristic::AspectRatio, 0.5))
}

/// Splits the lowest-numbered tiled window, as a stand-in for "largest leaf".
fn first_leaf(t: &Tree<f64>) -> (WindowId, bool) {
    let ids = t.window_ids();
    match ids.iter().min() {
        Some(w) => (*w, true),
        None => (WindowId(0), true),
    }
}

#[test]
fn new_windows_tile_until_the_cap_then_float() {
    let mut ws = workspace(2);
    assert_eq!(ws.add_new_window(id(1), false, Some((id(1), true))), Placement::Tiled);
    assert_eq!(ws.add_new_window(id(2), false, Some((id(1), true))), Placement::Tiled);
    assert_eq!(ws.add_new_window(id(3), false, Some((id(1), true))), Placement::Floated);
    assert_eq!(ws.tree().window_ids(), vec![id(1), id(2)]);
    assert_eq!(ws.floating(), &vec![id(3)]);
}

#[test]
fn always_float_and_unplaceable_windows_float() {
    let mut ws = workspace(4);
    assert_eq!(ws.add_new_window(id(1), true, Some((id(1), true))), Placement::Floated);
    assert_eq!(ws.add_new_window(id(2), false, None), Placement::Floated);
    assert!(ws.tree().is_empty());
    assert_eq!(ws.floating(), &vec![id(1), id(2)]);
    assert_eq!(ws.cascade_index(8), 1);
}

#[test]
fn closing_a_window_removes_it_from_wherever_it_is() {
    let mut ws = workspace(4);
    ws.add_new_window(id(1), false, Some((id(1), true)));
    ws.add_new_window(id(2), true, None);
    assert_eq!(ws.remove_window(id(1)), Removal::FromTree);
    assert_eq!(ws.remove_window(id(2)), Removal::FromFloating);
    assert_eq!(ws.remove_window(id(3)), Removal::Unknown);
    assert!(!ws.knows_window(id(1)));
    assert!(!ws.knows_window(id(2)));
}

#[test]
fn toggle_float_moves_between_tree_and_floating() {
    let mut ws = workspace(2);
    ws.add_new_window(id(1), false, Some((id(1), true)));
    ws.add_new_window(id(2), false, Some((id(1), true)));
    assert_eq!(ws.toggle_float(id(2), None), Toggle::Floated);
    assert!(ws.is_floating(id(2)));
    assert!(!ws.tree().contains(id(2)));
    assert_eq!(ws.toggle_float(id(2), None), Toggle::Unchanged);
    assert_eq!(ws.toggle_float(id(2), Some((id(1), true))), Toggle::Tiled);
    assert!(ws.tree().contains(id(2)));
    assert!(!ws.is_floating(id(2)));
    // Full tree: a floating window stays floating.
    ws.add_new_window(id(3), true, None);
    assert_eq!(ws.toggle_float(id(3), Some((id(1), true))), Toggle::StayedFloating);
    assert_eq!(ws.toggle_float(id(9), Some((id(1), true))), Toggle::Unchanged);
}

#[test]
fn preexisting_windows_float_once() {
    let mut ws = workspace(4);
    assert!(ws.adopt_preexisting(id(5)));
    assert!(!ws.adopt_preexisting(id(5)));
    assert_eq!(ws.floating(), &vec![id(5)]);
}

#[test]
fn auto_tile_tiles_what_is_on_screen() {
    let mut ws = workspace(2);
    ws.add_new_window(id(1), false, Some((id(1), true))); // tiled, not on screen later
    ws.add_new_window(id(2), true, None); // floating, on screen
    ws.add_new_window(id(3), true, None); // floating, not on screen
    let on_screen = vec![id(2), id(4), id(2), id(5)];
    assert!(ws.auto_tile(&on_screen, first_leaf));
    let mut tiled = ws.tree().window_ids();
    tiled.sort();
    assert_eq!(tiled, vec![id(2), id(4)]);
    // Previously floating off-screen, then displaced tiled, then overflow.
    assert_eq!(ws.floating(), &vec![id(3), id(1), id(5)]);
    assert!(!ws.auto_tile(&Vec::new(), first_leaf));
}

#[test]
fn restore_rejects_overlapping_membership() {
    let mut tree: Tree<f64> = Tree::new(4, InsertHeuristic::AspectRatio, 0.5);
    tree.insert(id(1), id(1), true);
    assert!(Workspace::restore(tree.duplicate(), vec![id(1)]).is_none());
    assert!(Workspace::restore(tree.duplicate(), vec![id(2), id(2)]).is_none());
    let ws = Workspace::restore(tree, vec![id(2), id(3)]).unwrap();
    assert_eq!(ws.floating(), &vec![id(2), id(3)]);
}

#[test]
fn actions_map_to_operations() {
    assert_eq!(operation_for(Action::MoveLeft), Operation::Move(Direction::Left));
    assert_eq!(operation_for(Action::ResizeUp), Operation::Resize(Direction::Up));
    assert_eq!(operation_for(Action::AutoTile), Operation::AutoTile);
    assert_eq!(operation_for(Action::ToggleFloat), Operation::ToggleFloat);
}

#[test]
fn socket_bind_decisions() {
    assert_eq!(after_bind(true, false), BindStep::Listen);
    assert_eq!(after_bind(false, true), BindStep::ProbeExisting);
    assert_eq!(after_bind(false, false), BindStep::Fail);
    assert_eq!(after_probe(true), Err(BindError::AlreadyRunning));
    assert_eq!(after_probe(false), Ok(BindStep::RemoveStaleAndRebind));
    assert_eq!(
        BindError::AlreadyRunning.message(),
        "another hyperwm-daemon instance is already running"
    );
}

#[test]
fn space_cache_restores_a_saved_space_by_its_window_set() {
    let mut ws = workspace(4);
    ws.add_new_window(id(1), false, Some((id(1), true)));
    ws.add_new_window(id(2), false, Some((id(1), true)));
    ws.add_new_window(id(3), true, None);
    assert_eq!(ws.window_set(), vec![id(1), id(2), id(3)]);

    let mut cache: SpaceCache<f64, &str> = SpaceCache::new();
    cache.save(SavedSpace { windows: ws.window_set(), workspace: ws.duplicate(), payload: "a" });
    let other = Workspace::all_floating(
        Tree::new(4, InsertHeuristic::AspectRatio, 0.5),
        &vec![id(7), id(8), id(7)],
    );
    assert_eq!(other.floating(), &vec![id(7), id(8)]);
    cache.save(SavedSpace { windows: other.window_set(), workspace: other, payload: "b" });

    // Same windows in another order find the first space.
    let hit = cache.lookup(&vec![id(3), id(1), id(2)]).expect("saved");
    assert_eq!(hit.payload, "a");
    assert_eq!(hit.workspace.tree().window_ids(), vec![id(1), id(2)]);
    assert!(cache.lookup(&vec![id(1), id(2)]).is_none());

    // Saving the same set again replaces the entry.
    let mut changed = ws.duplicate();
    changed.toggle_float(id(2), None);
    cache.save(SavedSpace { windows: changed.window_set(), workspace: changed, payload: "c" });
    let hit = cache.lookup(&vec![id(1), id(2), id(3)]).unwrap();
    assert_eq!(hit.payload, "c");
    assert_eq!(hit.workspace.floating(), &vec![id(3), id(2)]);
    assert_eq!(cache.lookup(&vec![id(8), id(7)]).unwrap().payload, "b");

    assert!(same_window_set(&vec![id(1), id(2)], &vec![id(2), id(1), id(1)]));
    assert!(!same_window_set(&vec![id(1)], &vec![id(1), id(2)]));
}

#[test]
fn space_change_polls_wait_for_a_stable_reading() {
    assert_eq!(space_step(true, false, true), SpaceStep::Ignore);
    assert_eq!(space_step(false, true, false), SpaceStep::Settled);
    assert_eq!(space_step(false, false, false), SpaceStep::Wait);
    assert_eq!(space_step(false, false, true), SpaceStep::Commit);
}

#[test]
fn hyper_flag_follows_the_watched_key_only() {
    assert_eq!(hyperwm::hyperkey::hyper_change(0x4F, 0x4F, true), Some(true));
    assert_eq!(hyperwm::hyperkey::hyper_change(0x4F, 0x4F, false), Some(false));
    assert_eq!(hyperwm::hyperkey::hyper_change(0x04, 0x4F, true), None);
    assert_eq!(
        hyperwm::hyperkey::TapCreationError.message(),
        "failed to create the CGEventTap (Input Monitoring permission missing?)"
    );
    assert!(hyperwm::mouse::TapCreationError.message().contains("mouse-button"));
}

fn note(name: &str) -> AXNotification<u32> {
    AXNotification { name: name.to_string(), element: 7 }
}

#[test]
fn notification_names_map_to_daemon_events() {
    assert_eq!(note("AXWindowCreated").event(), NotificationEvent::WindowCreated);
    assert_eq!(note("AXUIElementDestroyed").event(), NotificationEvent::ElementDestroyed);
    assert_eq!(note("AXWindowMoved").event(), NotificationEvent::Drift);
    assert_eq!(note("AXWindowResized").event(), NotificationEvent::Drift);
    assert_eq!(note("AXFocusedWindowChanged").event(), NotificationEvent::FocusChanged);
}

#[test]
fn unknown_or_near_miss_notification_names_are_ignored() {
    assert_eq!(note("AXTitleChanged").event(), NotificationEvent::Ignored);
    assert_eq!(note("axwindowmoved").event(), NotificationEvent::Ignored);
    assert_eq!(note("").event(), NotificationEvent::Ignored);
    assert_eq!(note("AXWindowMovedX").event(), NotificationEvent::Ignored);
}
