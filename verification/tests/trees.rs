use std::collections::HashMap;

use glazewm::container::{
    Container, ContainerKind, DirectionContainer, StackContainer, TilingContainer,
    TilingDirection, WindowContainer, Workspace, WorkspaceLayout,
};
use glazewm::fade::{
    collect_fade_in_windows, fade_out_workspace, schedule_fade_in, FadeIn, FADE_STEPS,
};
use glazewm::geometry::{Direction, Rect};
use glazewm::manage::{
    attach_new_window, create_window, floating_placement, insertion_target, manage_window,
    new_window_model, CloakGuard, InsertionTarget, ManageError, RulesOutcome,
};
use glazewm::pip::{finish_pip, restore_pip_group, toggle_pip, PipError, PipState, PipTarget};
use glazewm::placement::{
    group_position, neighbors, window_position, InnerGaps, LaidOutBy, Neighbors,
};
use glazewm::position::{
    available_length, tab_bar_scale, to_dto, GroupParent, GroupPosition, PositionError,
    PositionGetters, TilingWindowPosition, WindowParent, WorkspaceTarget,
};
use glazewm::redraw::{
    redraw_containers, windows_to_bring_to_front, windows_to_update, MonitorCorner, RedrawError,
};
use glazewm::reposition::HideCorner;
use glazewm::scratchpad::{
    default_placement, focus_after_restore, hide_scratchpad_windows, overlay_state, plan_restore,
    restore_to_workspace, restored_placement, restored_window, send_to_scratchpad, shown_window, show_scratchpad_windows,
    stash_window, toggle_scratchpad, ScratchpadError, SendAction, ToggleAction,
};
use glazewm::split::flatten_child_split_containers;
use glazewm::stack::{
    cycle_stack_focus, flatten_stack_container, focus_stack_index, move_to_stack,
    set_workspace_layout, stack_absorb_neighbor, stack_insert, toggle_stack, toggle_stack_with,
    SizeChange, StackError,
};
use glazewm::tree::Tree;
use glazewm::urgency::{
    focus_urgent_window, handle_window_attention_requested, set_window_urgency, AlertedWindow,
    UrgencyChange,
};
use glazewm::window_events::{
    deactivates_workspace, handle_window_destroyed, handle_window_hidden, DestroyedAction,
    HiddenAction,
};
use glazewm::window_model::{describe_window, shortened_title, WindowModel};
use glazewm::window_state::{DisplayState, FloatingState, WindowState};
use glazewm::reposition::HideMethod;

const ROOT: u128 = 1;
const MONITOR: u128 = 2;
const WS: u128 = 3;
const PAD: u128 = 4;

const ROW: WorkspaceLayout = WorkspaceLayout::Split(TilingDirection::Horizontal);

fn put(tree: &mut Tree, id: u128, kind: ContainerKind, parent: Option<u128>) {
    let state = if kind == ContainerKind::NonTilingWindow {
        WindowState::Floating(FloatingState { centered: true, shown_on_top: false })
    } else {
        WindowState::Tiling
    };
    let name = match kind {
        ContainerKind::Workspace => Some(format!("ws{id}")),
        _ => None,
    };
    tree.insert(id, kind, ROW, state, name, id as isize * 100);
    if let Some(p) = parent {
        let last = tree.get(p).children.len();
        let last_focus = tree.get(p).focus_order.len();
        tree.attach(id, p, last, last_focus);
    }
}

/// A monitor with one workspace of three tiling windows, and a scratchpad.
fn sample() -> Tree {
    let mut tree = Tree::new();
    put(&mut tree, ROOT, ContainerKind::Root, None);
    put(&mut tree, MONITOR, ContainerKind::Monitor, Some(ROOT));
    put(&mut tree, WS, ContainerKind::Workspace, Some(MONITOR));
    put(&mut tree, 10, ContainerKind::TilingWindow, Some(WS));
    put(&mut tree, 11, ContainerKind::TilingWindow, Some(WS));
    put(&mut tree, 12, ContainerKind::TilingWindow, Some(WS));
    put(&mut tree, PAD, ContainerKind::Workspace, None);
    tree
}

#[test]
fn toggling_a_stack_twice_restores_the_tree() {
    let mut tree = sample();
    let change = toggle_stack_with(&mut tree, 11, 50).expect("stacked");
    assert!(!change.redraw.is_empty());
    assert_eq!(tree.get(WS).children, vec![10, 50, 12]);
    assert_eq!(tree.get(50).children, vec![11]);
    assert_eq!(tree.get(50).kind, ContainerKind::Stack);
    toggle_stack_with(&mut tree, 11, 51).expect("unstacked");
    assert_eq!(tree.get(WS).children, vec![10, 11, 12]);
    assert_eq!(tree.get(11).parent, Some(WS));
}

#[test]
fn windows_leave_a_stack_for_its_place() {
    let (mut tree, stack) = tree_with_stack();
    stack_absorb_neighbor(&mut tree, 10, Direction::Right).expect("absorbed");
    put(&mut tree, 13, ContainerKind::TilingWindow, Some(WS));
    assert_eq!(tree.get(WS).children, vec![stack, 13]);
    assert_eq!(tree.get(stack).children, vec![12, 10, 11]);
    let change = toggle_stack(&mut tree, 10).expect("taken out");
    assert_eq!(change.redraw, vec![10, 12, 11]);
    assert_eq!(tree.get(WS).children, vec![10, stack, 13]);
    // The last one left stands free again.
    toggle_stack(&mut tree, 12).expect("taken out");
    assert_eq!(tree.get(WS).children, vec![10, 12, 11, 13]);
    assert!(!tree.contains(stack));
    assert_eq!(tree.get(11).parent, Some(WS));
}

#[test]
fn orphans_are_refused_before_an_id_is_drawn() {
    let mut tree = sample();
    put(&mut tree, 40, ContainerKind::TilingWindow, None);
    assert!(matches!(toggle_stack(&mut tree, 40), Err(StackError::NoParent)));
    assert!(matches!(
        stack_absorb_neighbor(&mut tree, 40, Direction::Left),
        Err(StackError::NoParent)
    ));
    assert!(matches!(stack_insert(&mut tree, 40), Err(StackError::NoWorkspace)));
    assert!(matches!(
        move_to_stack(&mut tree, 40, &"web".to_string()),
        Err(StackError::NoWorkspace)
    ));
}

#[test]
fn free_ids_are_counted_on() {
    let tree = sample();
    assert_eq!(tree.free_id(10), 13);
    assert_eq!(tree.free_id(20), 20);
    assert_eq!(tree.free_id(u128::MAX), u128::MAX);
}

#[test]
fn stacks_get_ids_of_their_own() {
    let mut tree = sample();
    toggle_stack(&mut tree, 11).expect("stacked");
    let stack = tree.get(11).parent.expect("a stack");
    assert_ne!(stack, WS);
    // A random id: version 4 of the numbering, in its usual variant.
    assert_eq!((stack >> 76) & 0xf, 4);
    assert_eq!((stack >> 62) & 0x3, 2);
    let mut other = sample();
    toggle_stack(&mut other, 11).expect("stacked");
    assert_ne!(other.get(11).parent, Some(stack));
}

fn tree_with_stack() -> (Tree, u128) {
    let mut tree = sample();
    stack_insert(&mut tree, 10).expect("stacked");
    let stack = tree.get(10).parent.expect("a stack");
    (tree, stack)
}

#[test]
fn neighbors_are_absorbed() {
    let (mut tree, stack) = tree_with_stack();
    // The window joins the one that had the focus before it.
    assert_eq!(tree.get(stack).children, vec![10, 11]);
    assert_eq!(tree.get(WS).children, vec![stack, 12]);
    stack_absorb_neighbor(&mut tree, 10, Direction::Right).expect("absorbed");
    assert_eq!(tree.get(stack).children, vec![12, 10, 11]);
    assert_eq!(tree.get(WS).children, vec![stack]);
    assert!(matches!(
        stack_absorb_neighbor(&mut tree, 10, Direction::Left),
        Err(StackError::NoNeighbor)
    ));
}

#[test]
fn cycling_goes_round() {
    let (mut tree, stack) = tree_with_stack();
    stack_absorb_neighbor(&mut tree, 10, Direction::Right).expect("absorbed");
    tree.set_focused_descendant(10);
    cycle_stack_focus(&mut tree, 10, false);
    assert_eq!(tree.get(stack).focus_order[0], 11);
    cycle_stack_focus(&mut tree, 11, false);
    assert_eq!(tree.get(stack).focus_order[0], 12);
    cycle_stack_focus(&mut tree, 12, true);
    assert_eq!(tree.get(stack).focus_order[0], 11);
    focus_stack_index(&mut tree, 11, 1);
    assert_eq!(tree.get(stack).focus_order[0], 10);
    assert!(focus_stack_index(&mut tree, 10, 9).is_empty());
    assert_eq!(tree.get(stack).focus_order[0], 10);
}

#[test]
fn named_stacks_are_joined() {
    let mut tree = sample();
    let name = "mail".to_string();
    move_to_stack(&mut tree, 10, &name).expect("stacked");
    let stack = tree.get(10).parent.expect("a stack");
    assert_eq!(tree.name(stack).as_deref(), Some("mail"));
    move_to_stack(&mut tree, 12, &name).expect("stacked");
    assert_eq!(tree.get(12).parent, Some(stack));
    assert_eq!(tree.get(stack).children.len(), 2);
    tree.set_name(stack, "post".to_string());
    assert_eq!(tree.name(stack).as_deref(), Some("post"));
}

#[test]
fn flattening_puts_children_in_place() {
    let (mut tree, stack) = tree_with_stack();
    let sizes = flatten_stack_container(&mut tree, stack).expect("flattened");
    assert!(!sizes.is_empty());
    assert_eq!(tree.get(WS).children, vec![10, 11, 12]);
    let mut lone = Tree::new();
    put(&mut lone, 7, ContainerKind::Stack, None);
    assert!(matches!(flatten_stack_container(&mut lone, 7), Err(StackError::NoParent)));
}

#[test]
fn needless_splits_are_taken_out() {
    let mut tree = Tree::new();
    put(&mut tree, WS, ContainerKind::Workspace, None);
    put(&mut tree, 20, ContainerKind::Split, Some(WS));
    put(&mut tree, 10, ContainerKind::TilingWindow, Some(20));
    let _ = flatten_child_split_containers(&mut tree, WS);
    assert_eq!(tree.get(10).parent, Some(WS));
}

#[test]
fn layouts_are_set_on_the_workspace() {
    let mut tree = sample();
    let column = WorkspaceLayout::Split(TilingDirection::Vertical);
    let (ws, _) = set_workspace_layout(&mut tree, 11, column).expect("set");
    assert_eq!(ws, WS);
    assert_eq!(tree.get(WS).layout, column);
    assert_eq!(ROW.inverse(), column);
    assert!(matches!(
        set_workspace_layout(&mut tree, ROOT, ROW),
        Err(StackError::NoDirectionContainer)
    ));
}

#[test]
fn moving_keeps_the_focus() {
    let mut tree = sample();
    tree.set_focused_descendant(12);
    assert!(tree.has_focus(12));
    tree.move_container_within_tree(12, WS, 0);
    assert_eq!(tree.get(WS).children, vec![12, 10, 11]);
    assert!(tree.has_focus(12));
    assert_eq!(tree.descendants(ROOT), vec![MONITOR, WS, 12, 10, 11]);
    assert_eq!(tree.descendant_focus_order(WS)[0], 12);
}

#[test]
fn containers_know_their_kind() {
    let tree = sample();
    let window = tree.container(10).expect("a container");
    assert!(window.is_tiling_window());
    assert!(tree.container(WS).expect("a container").is_workspace());
    assert!(tree.container(999).is_none());
    assert!(window.as_window_container().is_some());
    assert!(matches!(window.as_tiling_container(), Some(TilingContainer::TilingWindow(_))));
    assert!(window.as_direction_container().is_none());
    let ws = DirectionContainer::Workspace(Workspace { id: WS });
    assert!(ws.is_workspace());
    let same = Container::of(ContainerKind::TilingWindow, 10);
    assert!(window == same);
    match window.as_window_container() {
        Some(WindowContainer::TilingWindow(w)) => assert_eq!(w.id, 10),
        _ => panic!("not a tiling window"),
    }
}

#[test]
fn new_windows_go_next_to_the_focused_one() {
    let tree = sample();
    assert_eq!(
        insertion_target(&tree, Some(10), WindowState::Tiling),
        Ok(InsertionTarget { parent: WS, index: 1 })
    );
    assert_eq!(
        insertion_target(&tree, None, WindowState::Tiling),
        Err(ManageError::NoFocusedContainer)
    );
    assert_eq!(
        insertion_target(&tree, Some(ROOT), WindowState::Tiling),
        Err(ManageError::NoWorkspace)
    );
}

#[test]
fn new_windows_stay_out_of_stacks_when_focused_there() {
    let (tree, stack) = tree_with_stack();
    let target = insertion_target(&tree, Some(10), WindowState::Tiling).expect("a target");
    assert_ne!(target.parent, stack);
    assert_eq!(target.parent, WS);
}

#[test]
fn windows_come_under_management() {
    let mut tree = sample();
    let new = create_window(&tree, Some(MONITOR), Some(WS), WindowState::Tiling, None, Some(10), true)
        .expect("a place");
    assert!(new.is_same_workspace);
    assert!(!new.has_custom_placement);
    let (id, sizes) = attach_new_window(&mut tree, &new, 777);
    assert_eq!(tree.get(id).handle, 777);
    assert_eq!(tree.get(WS).children, vec![10, id, 11, 12]);
    assert_eq!(sizes, vec![SizeChange::Join { child: id, parent: WS }]);
    assert_eq!(
        create_window(&tree, None, Some(WS), WindowState::Tiling, None, Some(10), true).err(),
        Some(ManageError::NoNearestMonitor)
    );
    assert_eq!(
        create_window(&tree, Some(MONITOR), None, WindowState::Tiling, None, Some(10), true).err(),
        Some(ManageError::NoNearestWorkspace)
    );

    let (managed, guard) = manage_window(&tree, CloakGuard::cloak(777), RulesOutcome::Kept(id));
    let managed = managed.expect("managed").expect("kept");
    assert_eq!((managed.window, managed.workspace, managed.redraw), (id, WS, WS));
    assert_eq!(guard.uncloaks(), None);
    let (none, guard) = manage_window(&tree, CloakGuard::cloak(777), RulesOutcome::NotCreated);
    assert_eq!((none, guard.uncloaks()), (Ok(None), Some(777)));
    let (none, guard) = manage_window(&tree, CloakGuard::cloak(777), RulesOutcome::Detached);
    assert_eq!((none, guard.uncloaks()), (Ok(None), Some(777)));
    let (failed, guard) = manage_window(&tree, CloakGuard::cloak(777), RulesOutcome::Failed);
    assert_eq!(failed, Err(ManageError::RulesFailed));
    assert_eq!(guard.uncloaks(), Some(777));
}

#[test]
fn windows_are_adjusted_for_monitors_of_another_scale() {
    const OTHER: u128 = 6;
    let mut tree = sample();
    put(&mut tree, OTHER, ContainerKind::Monitor, Some(ROOT));
    let frame = Rect::from_xy(0, 0, 100, 100);
    let floating = WindowState::Floating(FloatingState { centered: false, shown_on_top: false });
    let new = create_window(&tree, Some(OTHER), Some(WS), floating, None, Some(10), false)
        .expect("a place");
    let (id, sizes) = attach_new_window(&mut tree, &new, 777);
    assert!(sizes.is_empty());
    let scales = HashMap::from([(MONITOR, 1_000_000), (OTHER, 1_500_000)]);
    let model = new_window_model(&tree, &new, id, 777, frame, OTHER, &scales).expect("a window");
    assert!(model.has_pending_dpi_adjustment);
    assert!(model.has_custom_floating_placement);
    assert_eq!((model.id, model.handle, model.state), (id, 777, floating));
    assert_eq!((model.prev_state, model.display_state), (None, DisplayState::Shown));
    assert_eq!(model.floating_placement, frame);
    let same = HashMap::from([(MONITOR, 1_500_000), (OTHER, 1_500_000)]);
    let model = new_window_model(&tree, &new, id, 777, frame, OTHER, &same).expect("a window");
    assert!(!model.has_pending_dpi_adjustment);
    let model = new_window_model(&tree, &new, id, 777, frame, MONITOR, &scales).expect("a window");
    assert!(!model.has_pending_dpi_adjustment);
    let unknown = HashMap::from([(OTHER, 1_500_000)]);
    assert_eq!(
        new_window_model(&tree, &new, id, 777, frame, OTHER, &unknown).err(),
        Some(ManageError::NoMonitor)
    );
    assert_eq!(
        new_window_model(&tree, &new, PAD, 777, frame, OTHER, &scales).err(),
        Some(ManageError::NoMonitor)
    );
}

#[test]
fn places_depend_on_the_neighbors_in_the_tree() {
    let mut tree = sample();
    put(&mut tree, 20, ContainerKind::NonTilingWindow, Some(WS));
    put(&mut tree, 21, ContainerKind::Stack, Some(WS));
    put(&mut tree, 22, ContainerKind::TilingWindow, Some(21));
    put(&mut tree, 23, ContainerKind::Split, Some(WS));
    let row = LaidOutBy::Row { parent: WS, direction: TilingDirection::Horizontal };
    let vertical = TilingDirection::Vertical;
    assert_eq!(
        neighbors(&tree, 10, vertical),
        Neighbors { laid_out_by: row, previous: None, siblings: 4 }
    );
    assert_eq!(neighbors(&tree, 12, vertical).previous, Some(11));
    // What floats takes no part.
    assert_eq!(neighbors(&tree, 21, vertical).previous, Some(12));
    assert_eq!(neighbors(&tree, 23, vertical).previous, Some(21));
    assert_eq!(
        neighbors(&tree, 22, vertical),
        Neighbors { laid_out_by: LaidOutBy::Stack(21), previous: None, siblings: 0 }
    );
    assert_eq!(neighbors(&tree, ROOT, vertical).laid_out_by, LaidOutBy::Nothing);
    assert_eq!(neighbors(&tree, WS, vertical).laid_out_by, LaidOutBy::Other(MONITOR));

    let area = Rect::from_xy(0, 0, 310, 100);
    let before = Rect::from_xy(0, 0, 50, 100);
    let rects = HashMap::from([(WS, area), (10, before), (21, area)]);
    let gaps = InnerGaps { horizontal: 5, vertical: 7 };
    let second = window_position(&tree, 11, vertical, &rects, 20, gaps, 60);
    assert_eq!(
        second.parent,
        WindowParent::Row {
            rect: Some(area),
            direction: TilingDirection::Horizontal,
            inner_gap: 5,
            siblings: 4,
        }
    );
    assert_eq!(second.to_rect(), Ok(Rect::from_xy(55, 0, 60, 100)));
    let third = window_position(&tree, 12, vertical, &rects, 20, gaps, 60);
    assert_eq!(third.to_rect(), Err(PositionError::ParentUnplaced));
    let stacked = window_position(&tree, 22, vertical, &rects, 20, gaps, 60);
    assert_eq!(stacked.to_rect(), Ok(Rect::from_ltrb(0, 20, 310, 100)));
    tree.set_layout(WS, WorkspaceLayout::Grid);
    assert_eq!(
        neighbors(&tree, 10, vertical).laid_out_by,
        LaidOutBy::Row { parent: WS, direction: vertical }
    );

    let given: Vec<Rect> = (0..5).map(|i| Rect::from_xy(i, 0, 1, 1)).collect();
    let stack = group_position(&tree, 21, Some(area), Some(given.clone()));
    assert_eq!(stack.to_rect(), Ok(given[3]));
    let split = group_position(&tree, 23, Some(area), Some(given.clone()));
    assert_eq!(split.to_rect(), Ok(given[4]));
    put(&mut tree, 24, ContainerKind::Split, Some(21));
    assert_eq!(group_position(&tree, 24, Some(area), None).to_rect(), Ok(area));
    put(&mut tree, 25, ContainerKind::Split, None);
    assert_eq!(group_position(&tree, 25, None, None).to_rect(), Err(PositionError::NoParent));
}

#[test]
fn floating_windows_are_centered_when_they_move() {
    let frame = Rect::from_xy(0, 0, 100, 100);
    let area = Rect::from_xy(1000, 0, 500, 300);
    assert_eq!(floating_placement(&frame, true, false, &area, &area), frame);
    assert_eq!(
        floating_placement(&frame, false, false, &area, &area),
        Rect::from_xy(1200, 100, 100, 100)
    );
}

#[test]
fn stashing_and_restoring() {
    let mut tree = sample();
    put(&mut tree, 20, ContainerKind::NonTilingWindow, Some(WS));
    assert!(matches!(
        send_to_scratchpad(&tree, 20, PAD, true),
        Ok(SendAction::Restore)
    ));
    match send_to_scratchpad(&tree, 20, PAD, false) {
        Ok(SendAction::Stash(origin)) => {
            assert_eq!(origin.workspace_name.as_deref(), Some("ws3"));
            assert!(origin.prev_state.is_floating());
        },
        _ => panic!("not stashed"),
    }
    assert!(overlay_state().is_topmost());
    assert_eq!(
        stash_window(&mut tree, 10, PAD, None),
        Err(ScratchpadError::NotNonTiling)
    );
    assert_eq!(stash_window(&mut tree, 20, PAD, Some(11)), Ok(true));
    assert_eq!(tree.get(PAD).children, vec![20]);
    assert!(tree.has_focus(11));
    assert!(matches!(send_to_scratchpad(&tree, 20, PAD, true), Ok(SendAction::Nothing)));

    let change =
        show_scratchpad_windows(&mut tree, &vec![20], Some(WS)).expect("shown");
    assert_eq!(change.reorder, vec![WS]);
    assert!(change.focus_changed);
    assert!(tree.has_focus(20));
    let plan = plan_restore(&tree, 20, ROOT, &"ws3".to_string(), false).expect("a plan");
    assert!(plan.removes_dim);
    assert_eq!(plan.origin_workspace, Some(WS));
    assert_eq!(plan.current_workspace, WS);
    assert_eq!(restore_to_workspace(&mut tree, 20, WS, WS), Ok(false));
    assert!(focus_after_restore(&mut tree, 20, true, None));

    let hidden =
        hide_scratchpad_windows(&mut tree, &vec![20], PAD, Some(20), Some(12)).expect("hidden");
    assert_eq!(hidden.reorder, vec![WS]);
    assert!(tree.has_focus(12));
    assert_eq!(
        show_scratchpad_windows(&mut tree, &vec![20], None).err(),
        Some(ScratchpadError::NoWorkspace)
    );
    assert_eq!(
        show_scratchpad_windows(&mut tree, &vec![20], Some(PAD)).err(),
        Some(ScratchpadError::NoMonitor)
    );
    // The first window that cannot be shown ends it.
    assert_eq!(
        show_scratchpad_windows(&mut tree, &vec![20, 10], Some(WS)).err(),
        Some(ScratchpadError::NotNonTiling)
    );
    assert_eq!(tree.get(20).parent, Some(WS));
    assert_eq!(
        restore_to_workspace(&mut tree, 20, PAD, WS),
        Err(ScratchpadError::NoMonitor)
    );
    assert!(matches!(
        send_to_scratchpad(&tree, ROOT, PAD, false),
        Err(ScratchpadError::NoWorkspace)
    ));
}

#[test]
fn scratchpad_windows_are_placed_in_the_middle() {
    assert_eq!(toggle_scratchpad(1, 2), ToggleAction::HideAll);
    assert_eq!(toggle_scratchpad(0, 2), ToggleAction::ShowAll);
    assert_eq!(toggle_scratchpad(0, 0), ToggleAction::Nothing);
    let monitor = Rect::from_xy(100, 0, 1000, 500);
    assert_eq!(default_placement(&monitor), Rect::from_xy(200, 100, 800, 300));
    let small = Rect::from_xy(0, 0, 100, 100);
    assert_eq!(restored_placement(&small, false, &monitor), small);
    assert_eq!(
        restored_placement(&small, true, &monitor),
        Rect::from_xy(550, 200, 100, 100)
    );
    let window = WindowModel::new(Some(5), 50, None, small, false);
    let back = restored_window(&window, true, true, &monitor);
    assert!(back.has_pending_dpi_adjustment);
    assert_eq!(back.floating_placement, Rect::from_xy(550, 200, 100, 100));
    assert!(!restored_window(&window, true, false, &monitor).has_pending_dpi_adjustment);
    assert_eq!(restored_window(&window, false, true, &monitor), window);
    assert_eq!(
        shown_window(&window, &monitor).floating_placement,
        Rect::from_xy(200, 100, 800, 300)
    );
    let placed = WindowModel::new(Some(5), 50, None, small, true);
    assert_eq!(shown_window(&placed, &monitor), placed);
}

#[test]
fn pictures_in_pictures_toggle() {
    let mut tree = sample();
    let mut pip: Option<PipState> = None;
    let plan = toggle_pip(&tree, PipTarget::Workspace, 10, &pip).expect("started");
    assert_eq!(plan.minimizes, vec![10, 11, 12]);
    assert!(plan.restores.is_empty());
    // A window that cannot be minimized leaves the group as it was.
    finish_pip(&mut pip, plan, false);
    assert!(pip.is_none());
    let plan = toggle_pip(&tree, PipTarget::Workspace, 10, &pip).expect("started");
    finish_pip(&mut pip, plan, true);
    assert!(pip.as_ref().is_some_and(|p| p.contains(11)));
    // Another group replaces it.
    let plan = toggle_pip(&tree, PipTarget::Window, 10, &pip).expect("started");
    assert_eq!(plan.minimizes, vec![10]);
    finish_pip(&mut pip, plan, true);
    // Once more ends it.
    tree.insert(30, ContainerKind::TilingWindow, ROW, WindowState::Minimized, None, 30);
    let plan = toggle_pip(&tree, PipTarget::Window, 10, &pip).expect("ended");
    assert!(plan.minimizes.is_empty());
    finish_pip(&mut pip, plan, true);
    assert!(pip.is_none());
    let plan = toggle_pip(&tree, PipTarget::Window, 30, &pip).expect("started");
    assert!(plan.minimizes.is_empty());
    finish_pip(&mut pip, plan, true);
    assert!(restore_pip_group(&tree, 10, &pip).is_none());
    let plan = restore_pip_group(&tree, 30, &pip).expect("a member");
    assert_eq!(plan.restores, vec![30]);
    finish_pip(&mut pip, plan, true);
    assert!(pip.is_none());
    assert_eq!(
        toggle_pip(&tree, PipTarget::Window, WS, &pip).err(),
        Some(PipError::NotAWindow)
    );
    assert_eq!(
        toggle_pip(&tree, PipTarget::Workspace, ROOT, &pip).err(),
        Some(PipError::NoWorkspace)
    );
}

#[test]
fn urgency_is_debounced() {
    let first = set_window_urgency(None, true, false, 1000);
    assert_eq!(first, UrgencyChange { alert_at: Some(1000), emits: true });
    let soon = set_window_urgency(Some(1000), true, false, 3999);
    assert_eq!(soon, UrgencyChange { alert_at: Some(1000), emits: false });
    let later = set_window_urgency(Some(1000), true, false, 4000);
    assert_eq!(later, UrgencyChange { alert_at: Some(4000), emits: true });
    assert!(!set_window_urgency(None, true, true, 1000).emits);
    assert_eq!(
        set_window_urgency(Some(1), false, false, 9),
        UrgencyChange { alert_at: None, emits: true }
    );
    assert!(!set_window_urgency(None, false, false, 9).emits);

    assert!(handle_window_attention_requested(Some(false), true).stops_flashing);
    assert!(handle_window_attention_requested(Some(false), false).marks);
    assert!(!handle_window_attention_requested(Some(true), true).marks);
    assert!(!handle_window_attention_requested(None, true).marks);
}

#[test]
fn latest_alert_gets_the_focus() {
    let tree = sample();
    let alert = |id, alert_at| AlertedWindow { id, alert_at };
    let windows = vec![alert(10, Some(5)), alert(11, Some(9)), alert(12, Some(9))];
    let focus = focus_urgent_window(&tree, &windows, &vec![]).expect("urgent");
    assert_eq!(focus.window, 12);
    assert_eq!(focus.switches_to.as_deref(), Some("ws3"));
    let shown = focus_urgent_window(&tree, &windows, &vec![WS]).expect("urgent");
    assert_eq!(shown.switches_to, None);
    assert!(focus_urgent_window(&tree, &vec![alert(10, None)], &vec![]).is_none());
}

#[test]
fn destroyed_windows_are_found() {
    let mut tree = sample();
    put(&mut tree, 20, ContainerKind::NonTilingWindow, Some(PAD));
    assert_eq!(
        handle_window_destroyed(&mut tree, 1100, ROOT, PAD),
        Ok(DestroyedAction::Unmanage { window: 11, workspace: WS })
    );
    assert_eq!(
        handle_window_destroyed(&mut tree, 2000, ROOT, PAD),
        Ok(DestroyedAction::Removed(20))
    );
    assert!(tree.get(PAD).children.is_empty());
    assert_eq!(
        handle_window_destroyed(&mut tree, 5, ROOT, PAD),
        Ok(DestroyedAction::Nothing)
    );
    put(&mut tree, 40, ContainerKind::TilingWindow, Some(ROOT));
    assert!(handle_window_destroyed(&mut tree, 4000, ROOT, PAD).is_err());
    assert!(deactivates_workspace(&tree, PAD, false, false));
    assert!(!deactivates_workspace(&tree, PAD, true, false));
    assert!(!deactivates_workspace(&tree, PAD, false, true));
    assert!(!deactivates_workspace(&tree, WS, false, false));
}

#[test]
fn hidden_windows_are_told_apart() {
    let hide = HideMethod::Cloak;
    assert_eq!(
        handle_window_hidden(hide, DisplayState::Hiding, true, None),
        HiddenAction::MarkHidden
    );
    assert_eq!(
        handle_window_hidden(hide, DisplayState::Shown, true, Some(false)),
        HiddenAction::Nothing
    );
    assert_eq!(
        handle_window_hidden(hide, DisplayState::Shown, false, None),
        HiddenAction::Unmanage
    );
    assert_eq!(
        handle_window_hidden(hide, DisplayState::Shown, false, Some(true)),
        HiddenAction::Nothing
    );
    assert_eq!(
        handle_window_hidden(HideMethod::PlaceInCorner, DisplayState::Hiding, false, Some(false)),
        HiddenAction::Unmanage
    );
}

#[test]
fn fades_go_step_by_step() {
    let tree = sample();
    assert_eq!(collect_fade_in_windows(&tree, WS), vec![1000, 1100, 1200]);
    let out = fade_out_workspace(3, 180).expect("a fade");
    assert_eq!(out.len(), 16);
    assert_eq!((out[0].step, out[0].wait), (FADE_STEPS, 12));
    assert_eq!((out[15].step, out[15].wait), (0, 0));
    assert_eq!(out.iter().map(|s| s.wait).sum::<u64>(), 180);
    let uneven = fade_out_workspace(1, 100).expect("a fade");
    assert_eq!((uneven[0].wait, uneven[1].wait), (6, 7));
    assert_eq!(uneven.iter().map(|s| s.wait).sum::<u64>(), 100);
    assert!(fade_out_workspace(0, 180).is_none());
    assert!(fade_out_workspace(3, 0).is_none());
    match schedule_fade_in(3, 180) {
        FadeIn::Steps { start, steps } => {
            assert_eq!(start, 16);
            assert_eq!(steps.len(), 15);
            assert_eq!((steps[0].step, steps[0].wait), (1, 11));
            assert_eq!((steps[14].step, steps[14].wait), (15, 0));
            assert_eq!(start + steps.iter().map(|s| s.wait).sum::<u64>(), 180);
        },
        _ => panic!("no steps"),
    }
    match schedule_fade_in(1, 5) {
        FadeIn::Steps { start, steps } => {
            assert_eq!(start, 5);
            assert!(steps.iter().all(|s| s.wait == 0));
        },
        _ => panic!("no steps"),
    }
    assert!(matches!(schedule_fade_in(0, 180), FadeIn::Nothing));
    assert!(matches!(schedule_fade_in(3, 0), FadeIn::Instant));
}

#[test]
fn windows_are_laid_out_in_rows() {
    let rect = Rect::from_xy(0, 0, 310, 100);
    assert_eq!(available_length(&rect, TilingDirection::Horizontal, 5, 2), 300);
    let row = WindowParent::Row {
        rect: Some(rect),
        direction: TilingDirection::Horizontal,
        inner_gap: 5,
        siblings: 2,
    };
    let first = TilingWindowPosition { parent: row, length: 100, previous: None };
    assert_eq!(first.to_rect(), Ok(Rect::from_xy(0, 0, 100, 100)));
    let before = Rect::from_xy(0, 0, 100, 100);
    let second = TilingWindowPosition { previous: Some(Some(before)), ..first };
    assert_eq!(second.to_rect(), Ok(Rect::from_xy(105, 0, 100, 100)));
    let lost = TilingWindowPosition { previous: Some(None), ..first };
    assert_eq!(lost.to_rect(), Err(PositionError::ParentUnplaced));
    let orphan = TilingWindowPosition { parent: WindowParent::Missing, ..first };
    assert_eq!(orphan.to_rect(), Err(PositionError::NoParent));
    let odd = TilingWindowPosition { parent: WindowParent::Other, ..first };
    assert_eq!(odd.to_rect(), Err(PositionError::NoLayout));
    let stacked = TilingWindowPosition {
        parent: WindowParent::Stack { rect: Some(rect), tab_height: 20 },
        ..first
    };
    assert_eq!(stacked.to_rect(), Ok(Rect::from_ltrb(0, 20, 310, 100)));
}

#[test]
fn groups_take_the_place_their_layout_gives() {
    let rects = vec![Rect::from_xy(0, 0, 1, 1), Rect::from_xy(1, 0, 1, 1)];
    let group = |id, children: Vec<u128>, rects| GroupPosition {
        id,
        is_split: true,
        parent: GroupParent::Layout { tiling_children: children, rects },
    };
    assert_eq!(group(7, vec![6, 7], Some(rects.clone())).to_rect(), Ok(rects[1]));
    assert_eq!(
        group(8, vec![6, 7], Some(rects.clone())).to_rect(),
        Err(PositionError::NotAmongSiblings)
    );
    assert_eq!(
        group(8, vec![6, 7, 8], Some(rects)).to_rect(),
        Err(PositionError::IndexOutOfRange)
    );
    assert_eq!(group(7, vec![6, 7], None).to_rect(), Err(PositionError::ParentUnplaced));
    assert_eq!(tab_bar_scale(true, Some(1_500_000)), Some(1_500_000));
    assert_eq!(tab_bar_scale(false, Some(1_500_000)), Some(1_000_000));
    assert_eq!(tab_bar_scale(true, None), None);
    assert_eq!(StackContainer::tab_bar_height_px(true, Some(30)), 30);
    assert_eq!(StackContainer::tab_bar_height_px(false, Some(30)), 0);
    assert_eq!(StackContainer::tab_bar_height_px(true, None), 0);
}

#[test]
fn containers_are_told_of() {
    let tree = sample();
    let info = to_dto(&tree, WS, Ok(Rect::from_xy(1, 2, 3, 4))).expect("a place");
    assert_eq!(info.children, vec![10, 11, 12]);
    assert_eq!((info.x, info.y, info.width, info.height), (1, 2, 3, 4));
    assert_eq!(info.parent_id, Some(MONITOR));
    let none = to_dto(&tree, WS, Err(PositionError::NoParent));
    assert!(matches!(none, Err(PositionError::NoParent)));
    assert!(matches!(
        WorkspaceTarget::Direction(Direction::Left),
        WorkspaceTarget::Direction(Direction::Left)
    ));
}

#[test]
fn long_titles_are_cut() {
    let short = "twenty characters!!!".to_string();
    assert_eq!(short.len(), 20);
    assert_eq!(shortened_title(&short), short);
    assert_eq!(shortened_title(&"abcdefghijklmnopqrstu".to_string()), "abcdefghijklmnopq...");
    // Characters count, however many bytes they take.
    let wide = "あいうえおかきくけこ".to_string();
    assert_eq!(wide.len(), 30);
    assert_eq!(shortened_title(&wide), wide);
    let long = "あいうえおかきくけこさしすせそたちつてとな".to_string();
    assert_eq!(shortened_title(&long), "あいうえおかきくけこさしすせそたち...");
    assert_eq!(
        describe_window(
            &"WindowId(5)".to_string(),
            &"notepad".to_string(),
            &"Edit".to_string(),
            &"note".to_string(),
        ),
        "Window(id=WindowId(5), process=notepad, class=Edit, title=note)"
    );
}

#[test]
fn windows_change_their_mode() {
    let place = Rect::from_xy(0, 0, 10, 10);
    let window = WindowModel::new(Some(5), 50, None, place, false);
    assert_eq!(window.id, 5);
    assert!(window.state.is_tiling());
    let other = WindowModel::new(None, 50, None, place, false);
    assert_eq!((other.id >> 76) & 0xf, 4);
    let target = InsertionTarget { parent: WS, index: 2 };
    let small = window.to_non_tiling(WindowState::Minimized, Some(target));
    assert_eq!(small.id, 5);
    assert_eq!(small.state, WindowState::Minimized);
    assert_eq!(small.prev_state, Some(WindowState::Tiling));
    assert_eq!(small.insertion_target, Some(target));
}

#[test]
fn windows_are_drawn_in_the_order_of_focus() {
    let mut tree = sample();
    tree.set_focused_descendant(11);
    let front = windows_to_bring_to_front(&tree, 11, &vec![WS], true).expect("windows");
    assert!(front.contains(&10) && front.contains(&11) && front.contains(&12));
    let update = windows_to_update(&tree, ROOT, &vec![10], &vec![10, 11]);
    // Each window once, the most recently focused one first.
    assert_eq!(update, vec![11, 10]);
    let corners = vec![MonitorCorner { monitor: MONITOR, corner: HideCorner::BottomLeft }];
    let plan = redraw_containers(&tree, &update, &vec![10], &vec![11], &corners);
    assert_eq!(plan.steps.len(), 2);
    assert!(plan.error.is_none());
    assert_eq!(plan.steps[0].hide_corner, HideCorner::BottomLeft);
    // The most recently focused window is drawn last.
    assert!(plan.steps[0].redraw);
    assert!(!plan.steps[1].redraw);
    assert_eq!(plan.steps[1].window, 11);
    let none = redraw_containers(&tree, &update, &vec![10], &vec![11], &vec![]);
    assert_eq!(none.error, Some(RedrawError::NoHideCorner));
}

#[test]
fn commands_lose_no_window() {
    let mut tree = sample();
    put(&mut tree, 20, ContainerKind::Split, Some(WS));
    put(&mut tree, 13, ContainerKind::TilingWindow, Some(20));
    put(&mut tree, 14, ContainerKind::TilingWindow, Some(20));
    assert_eq!(tree.windows_below(WS), vec![10, 11, 12, 13, 14]);
    // A stack changes the order of no window, and neither does taking it out.
    toggle_stack_with(&mut tree, 13, 50).expect("stacked");
    assert_eq!(tree.windows_below(WS), vec![10, 11, 12, 13, 14]);
    flatten_stack_container(&mut tree, 50).expect("flattened");
    assert_eq!(tree.windows_below(WS), vec![10, 11, 12, 13, 14]);
    // The split lays out along the axis of its workspace.
    flatten_child_split_containers(&mut tree, WS);
    assert_eq!(tree.get(WS).children, vec![10, 11, 12, 13, 14]);
    // Moving changes the place of one window.
    tree.move_container_within_tree(14, WS, 1);
    assert_eq!(tree.windows_below(WS), vec![10, 14, 11, 12, 13]);
    stack_insert(&mut tree, 12).expect("stacked");
    let mut windows = tree.windows_below(WS);
    windows.sort_unstable();
    assert_eq!(windows, vec![10, 11, 12, 13, 14]);
}

#[test]
fn nested_splits_are_taken_out() {
    let column = WorkspaceLayout::Split(TilingDirection::Vertical);
    // H[1 H[V[2, 3]]] becomes H[1, 2, 3].
    let mut tree = Tree::new();
    put(&mut tree, WS, ContainerKind::Workspace, None);
    put(&mut tree, 10, ContainerKind::TilingWindow, Some(WS));
    put(&mut tree, 20, ContainerKind::Split, Some(WS));
    put(&mut tree, 21, ContainerKind::Split, Some(20));
    put(&mut tree, 11, ContainerKind::TilingWindow, Some(21));
    put(&mut tree, 12, ContainerKind::TilingWindow, Some(21));
    tree.set_layout(21, column);
    flatten_child_split_containers(&mut tree, WS);
    assert_eq!(tree.get(WS).children, vec![10, 11, 12]);
    assert_eq!(tree.get(WS).layout, ROW);
    // H[V[1]] becomes V[1].
    let mut tree = Tree::new();
    put(&mut tree, WS, ContainerKind::Workspace, None);
    put(&mut tree, 20, ContainerKind::Split, Some(WS));
    put(&mut tree, 10, ContainerKind::TilingWindow, Some(20));
    tree.set_layout(20, column);
    flatten_child_split_containers(&mut tree, WS);
    assert_eq!(tree.get(WS).children, vec![10]);
    assert_eq!(tree.get(WS).layout, column);
    // Other layouts keep their splits.
    let mut tree = Tree::new();
    put(&mut tree, WS, ContainerKind::Workspace, None);
    put(&mut tree, 20, ContainerKind::Split, Some(WS));
    put(&mut tree, 10, ContainerKind::TilingWindow, Some(20));
    tree.set_layout(WS, WorkspaceLayout::Grid);
    assert!(flatten_child_split_containers(&mut tree, WS).is_empty());
    assert_eq!(tree.get(10).parent, Some(20));
}
