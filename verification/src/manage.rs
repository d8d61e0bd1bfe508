//! Taking new windows under management.

use std::collections::HashMap;

use vstd::prelude::*;

use crate::config_types::{NativeWindowProperties, ParsedConfig, WindowRuleEvent};
use crate::container::{ContainerKind, TilingDirection, WorkspaceLayout};
use crate::geometry::Rect;
use crate::ids::{fresh_id, is_fresh};
use crate::stack::{first_where, is_tiling_window_of, lemma_first_where,
    lemma_focus_leaves_contained, SizeChange};
use crate::tree::{attached, descendant_focus_order, focus_leaves_from, lemma_index_of,
    lemma_parent_is_higher, nearest, node_linked, position, wf, NodeView, Nodes, Tree};
use crate::user_config::{forces_management, rule_applies, UserConfig};
use crate::window_model::{new_tiling, WindowModel};
use crate::window_state::{DisplayState, WindowState};

verus! {

broadcast use vstd::std_specs::hash::group_hash_axioms;

/// What the system says of the make of a window.
#[derive(Clone, Copy, Debug, PartialEq, Eq, Structural)]
pub struct WindowMake {
    pub is_visible: bool,
    /// Whether it is part of another window.
    pub is_child: bool,
    /// Whether it cannot be focused or is not offered for switching.
    pub is_unswitchable: bool,
    pub has_owner: bool,
    pub has_caption: bool,
    /// Whether it is a window of the usual kind, where the platform tells
    /// kinds apart.
    pub is_standard: bool,
}

/// Whether a window is managed, or why not.
#[derive(Clone, Copy, Debug, PartialEq, Eq, Structural)]
pub enum Manageability {
    Manageable,
    NotVisible,
    NonStandard,
    UnmanageableStyle,
    /// Most likely a menu.
    OwnedWithoutCaption,
}

/// Whether a rule of `config` has a window with `properties` managed that would
/// be passed over.
pub open spec fn is_forced(config: UserConfig, properties: NativeWindowProperties) -> bool {
    exists|k: int|
        #![trigger config.rules_for(WindowRuleEvent::Manage)[k]]
        0 <= k < config.rules_for(WindowRuleEvent::Manage).len() && forces_management(
            config.rules_for(WindowRuleEvent::Manage)[k],
        ) && rule_applies(config.rules_for(WindowRuleEvent::Manage)[k], properties)
}

/// Decides whether a window is managed. A rule can have it managed against all
/// checks but that it can be seen.
pub fn check_is_manageable(
    config: &UserConfig,
    properties: &NativeWindowProperties,
    make: &WindowMake,
) -> (result: Manageability)
    requires
        config.wf(),
    ensures
        result == (if !make.is_visible {
            Manageability::NotVisible
        } else if is_forced(*config, *properties) {
            Manageability::Manageable
        } else if !make.is_standard {
            Manageability::NonStandard
        } else if make.is_child || make.is_unswitchable {
            Manageability::UnmanageableStyle
        } else if make.has_owner && !make.has_caption {
            Manageability::OwnedWithoutCaption
        } else {
            Manageability::Manageable
        }),
{
    if !make.is_visible {
        return Manageability::NotVisible;
    }
    if config.is_force_managed(properties) {
        return Manageability::Manageable;
    }
    if !make.is_standard {
        return Manageability::NonStandard;
    }
    if make.is_child || make.is_unswitchable {
        return Manageability::UnmanageableStyle;
    }
    if make.has_owner && !make.has_caption {
        return Manageability::OwnedWithoutCaption;
    }
    Manageability::Manageable
}

/// The mode that a new window starts in. It is fullscreen only if it reaches
/// beyond the space of the workspace on every side.
pub open spec fn initial_state(
    properties: NativeWindowProperties,
    workspace_rect: Rect,
    config: ParsedConfig,
) -> WindowState {
    if properties.is_minimized {
        WindowState::Minimized
    } else if !properties.is_maximized && properties.frame.spec_inset(1).spec_contains_rect(
        workspace_rect,
    ) {
        WindowState::Fullscreen(config.fullscreen_defaults)
    } else if !properties.is_resizable {
        WindowState::Floating(config.floating_defaults)
    } else {
        config.spec_default_state()
    }
}

/// Decides the mode that a new window starts in.
pub fn window_state_to_create(
    properties: &NativeWindowProperties,
    workspace_rect: &Rect,
    config: &ParsedConfig,
) -> (result: WindowState)
    requires
        properties.frame.can_inset(1),
    ensures
        result == initial_state(*properties, *workspace_rect, *config),
{
    if properties.is_minimized {
        return WindowState::Minimized;
    }
    if !properties.is_maximized && properties.frame.inset(1).contains_rect(workspace_rect) {
        return WindowState::Fullscreen(config.fullscreen_defaults);
    }
    if !properties.is_resizable {
        return WindowState::Floating(config.floating_defaults);
    }
    config.default_state()
}

/// A new window that just fills the space of a workspace is not fullscreen.
pub proof fn filling_is_not_fullscreen(
    properties: NativeWindowProperties,
    workspace_rect: Rect,
    config: ParsedConfig,
)
    requires
        properties.frame == workspace_rect,
        properties.frame.can_inset(1),
        !properties.is_minimized,
        properties.is_resizable,
        config.spec_default_state() !is Fullscreen,
    ensures
        initial_state(properties, workspace_rect, config) !is Fullscreen,
{
}

/// Why a window could not be placed.
#[derive(Clone, Copy, Debug, PartialEq, Eq, Structural)]
pub enum ManageError {
    NoNearestMonitor,
    NoNearestWorkspace,
    NoFocusedContainer,
    NoWorkspace,
    NoParent,
    /// It is on no monitor, or on one that is not known.
    NoMonitor,
    RulesFailed,
}

/// A place in the tree.
#[derive(Clone, Copy, Debug, PartialEq, Eq, Structural)]
pub struct InsertionTarget {
    pub parent: u128,
    pub index: usize,
}

/// The tiling window that a new tiling window goes next to: the focused one, or
/// else the one that was focused last on the workspace `ws`.
pub open spec fn tiling_sibling(m: Nodes, focused: u128, ws: u128) -> Option<u128> {
    if m[focused].kind == ContainerKind::TilingWindow {
        Some(focused)
    } else {
        first_where(descendant_focus_order(m, ws), is_tiling_window_of(m))
    }
}

/// What a new window goes behind: the tiling window `sibling`, or the stack
/// that it stands in.
pub open spec fn insertion_pivot(m: Nodes, sibling: u128) -> u128 {
    match m[sibling].parent {
        Some(p) => if m[p].kind == ContainerKind::Stack {
            p
        } else {
            sibling
        },
        None => sibling,
    }
}

/// Where a new window in the mode `state` goes: a tiling window behind another
/// one, but never into a stack; else to the end of the focused workspace.
pub open spec fn insertion_place(
    m: Nodes,
    focused: Option<u128>,
    state: WindowState,
) -> Result<InsertionTarget, ManageError> {
    match focused {
        None => Err(ManageError::NoFocusedContainer),
        Some(f) => match nearest(m, f, ContainerKind::Workspace) {
            None => Err(ManageError::NoWorkspace),
            Some(ws) => {
                let append = InsertionTarget { parent: ws, index: m[ws].children.len() as usize };
                match tiling_sibling(m, f, ws) {
                    Some(sibling) => if state is Tiling {
                        let pivot = insertion_pivot(m, sibling);
                        match m[pivot].parent {
                            Some(p) => Ok(
                                InsertionTarget {
                                    parent: p,
                                    index: (m[p].children.index_of(pivot) + 1) as usize,
                                },
                            ),
                            None => Err(ManageError::NoParent),
                        }
                    } else {
                        Ok(append)
                    },
                    None => Ok(append),
                }
            },
        },
    }
}

fn find_tiling_window(tree: &Tree, ws: u128) -> (result: Option<u128>)
    requires
        wf(tree@),
        tree@.contains_key(ws),
    ensures
        result == first_where(descendant_focus_order(tree@, ws), is_tiling_window_of(tree@)),
        result matches Some(x) ==> tree@.contains_key(x),
{
    let ghost m = tree@;
    let ghost pred = is_tiling_window_of(m);
    let ids = tree.descendant_focus_order(ws);
    proof {
        lemma_focus_leaves_contained(m, ws, 0);
        assert(ids@.subrange(0, ids@.len() as int) =~= ids@);
    }
    let mut i: usize = 0;
    while i < ids.len()
        invariant
            i <= ids@.len(),
            m == tree@,
            ids@ == descendant_focus_order(m, ws),
            pred == is_tiling_window_of(m),
            forall|x: u128| #[trigger] focus_leaves_from(m, ws, 0).contains(x) ==> m.contains_key(x),
            first_where(ids@.subrange(i as int, ids@.len() as int), pred) == first_where(
                ids@,
                pred,
            ),
        decreases ids@.len() - i,
    {
        let x: u128 = ids[i];
        let ghost rest = ids@.subrange(i as int, ids@.len() as int);
        proof {
            assert(focus_leaves_from(m, ws, 0).contains(x));
            assert(rest[0] == x);
            assert(rest.drop_first() =~= ids@.subrange(i + 1, ids@.len() as int));
        }
        if tree.get(x).kind == ContainerKind::TilingWindow {
            return Some(x);
        }
        i = i + 1;
    }
    proof {
        assert(ids@.subrange(i as int, ids@.len() as int) =~= Seq::<u128>::empty());
    }
    None
}

/// Finds where a new window in the mode `state` goes.
pub fn insertion_target(tree: &Tree, focused: Option<u128>, state: WindowState) -> (result: Result<
    InsertionTarget,
    ManageError,
>)
    requires
        wf(tree@),
        focused matches Some(f) ==> tree@.contains_key(f),
    ensures
        result == insertion_place(tree@, focused, state),
        result matches Ok(t) ==> {
            &&& tree@.contains_key(t.parent)
            &&& !tree@[t.parent].kind.spec_is_window()
            &&& t.index <= tree@[t.parent].children.len()
        },
{
    let ghost m = tree@;
    let focused: u128 = match focused {
        Some(f) => f,
        None => {
            return Err(ManageError::NoFocusedContainer);
        },
    };
    let ws: u128 = match tree.nearest(focused, ContainerKind::Workspace) {
        Some(ws) => ws,
        None => {
            return Err(ManageError::NoWorkspace);
        },
    };
    if state.is_tiling() {
        let sibling: Option<u128> = if tree.get(focused).kind == ContainerKind::TilingWindow {
            Some(focused)
        } else {
            find_tiling_window(tree, ws)
        };
        if let Some(sibling) = sibling {
            let mut pivot: u128 = sibling;
            if let Some(p) = tree.get(sibling).parent {
                proof {
                    lemma_parent_is_higher(m, sibling);
                }
                if tree.get(p).kind == ContainerKind::Stack {
                    pivot = p;
                }
            }
            return match tree.get(pivot).parent {
                Some(p) => {
                    proof {
                        lemma_parent_is_higher(m, pivot);
                        assert(node_linked(m, p));
                    }
                    let siblings = &tree.get(p).children;
                    let at: usize = position(siblings, pivot).unwrap();
                    proof {
                        lemma_index_of(m[p].children, pivot, at as int);
                        assert(at < siblings.len());
                    }
                    Ok(InsertionTarget { parent: p, index: at + 1 })
                },
                None => Err(ManageError::NoParent),
            };
        }
    }
    let index: usize = tree.get(ws).children.len();
    Ok(InsertionTarget { parent: ws, index })
}

/// A new window never goes into a stack by itself.
pub proof fn new_windows_stay_out_of_stacks(m: Nodes, focused: u128, state: WindowState)
    requires
        wf(m),
        m.contains_key(focused),
        forall|x: u128| #[trigger]
            m.contains_key(x) && m[x].kind == ContainerKind::Stack && m[x].parent is Some
                ==> m[m[x].parent->0].kind != ContainerKind::Stack,
    ensures
        insertion_place(m, Some(focused), state) matches Ok(t) ==> m[t.parent].kind
            != ContainerKind::Stack,
{
    if let Some(ws) = nearest(m, focused, ContainerKind::Workspace) {
        lemma_nearest(m, focused, ContainerKind::Workspace);
        lemma_focus_leaves_contained(m, ws, 0);
        lemma_first_where(descendant_focus_order(m, ws), is_tiling_window_of(m));
        if let Some(sibling) = tiling_sibling(m, focused, ws) {
            assert(m.contains_key(sibling));
            if m[sibling].parent is Some {
                lemma_parent_is_higher(m, sibling);
            }
        }
    }
}

proof fn lemma_nearest(m: Nodes, id: u128, kind: ContainerKind)
    requires
        wf(m),
        m.contains_key(id),
    ensures
        nearest(m, id, kind) matches Some(x) ==> m.contains_key(x) && m[x].kind == kind,
    decreases crate::tree::depth_bound(m, id),
{
    if m[id].kind != kind && m[id].parent is Some {
        lemma_parent_is_higher(m, id);
        lemma_nearest(m, m[id].parent->0, kind);
    }
}

/// What has been decided of a new window before it is put into the tree.
#[derive(Clone, Copy, Debug, PartialEq, Eq, Structural)]
pub struct NewWindow {
    pub state: WindowState,
    pub target: InsertionTarget,
    /// The workspace that it comes to stand on.
    pub workspace: u128,
    /// Whether that is the workspace that the system put it on.
    pub is_same_workspace: bool,
    /// Whether it floats where it was found and not in the middle.
    pub has_custom_placement: bool,
}

/// Where a new window goes: to the front of `target_parent`, if one was asked
/// for.
pub open spec fn new_window_place(
    m: Nodes,
    target_parent: Option<u128>,
    focused: Option<u128>,
    state: WindowState,
) -> Result<InsertionTarget, ManageError> {
    match target_parent {
        Some(parent) => Ok(InsertionTarget { parent, index: 0 }),
        None => insertion_place(m, focused, state),
    }
}

/// What is decided of a new window.
pub open spec fn new_window(
    m: Nodes,
    nearest_monitor: Option<u128>,
    nearest_workspace: Option<u128>,
    state: WindowState,
    target_parent: Option<u128>,
    focused: Option<u128>,
    prefers_centered: bool,
) -> Result<NewWindow, ManageError> {
    if nearest_monitor is None {
        Err(ManageError::NoNearestMonitor)
    } else if nearest_workspace is None {
        Err(ManageError::NoNearestWorkspace)
    } else {
        match new_window_place(m, target_parent, focused, state) {
            Err(e) => Err(e),
            Ok(target) => match nearest(m, target.parent, ContainerKind::Workspace) {
                None => Err(ManageError::NoWorkspace),
                Some(workspace) => Ok(
                    NewWindow {
                        state,
                        target,
                        workspace,
                        is_same_workspace: nearest_workspace->0 == workspace,
                        has_custom_placement: state !is Tiling && !prefers_centered,
                    },
                ),
            },
        }
    }
}

/// Decides where a new window goes. The monitor and the workspace that the
/// system put it on have to be known, though it may go elsewhere.
pub fn create_window(
    tree: &Tree,
    nearest_monitor: Option<u128>,
    nearest_workspace: Option<u128>,
    state: WindowState,
    target_parent: Option<u128>,
    focused: Option<u128>,
    prefers_centered: bool,
) -> (result: Result<NewWindow, ManageError>)
    requires
        wf(tree@),
        focused matches Some(f) ==> tree@.contains_key(f),
        target_parent matches Some(p) ==> tree@.contains_key(p)
            && !tree@[p].kind.spec_is_window(),
    ensures
        result == new_window(
            tree@,
            nearest_monitor,
            nearest_workspace,
            state,
            target_parent,
            focused,
            prefers_centered,
        ),
        result matches Ok(n) ==> {
            &&& tree@.contains_key(n.target.parent)
            &&& !tree@[n.target.parent].kind.spec_is_window()
            &&& n.target.index <= tree@[n.target.parent].children.len()
        },
{
    if nearest_monitor.is_none() {
        return Err(ManageError::NoNearestMonitor);
    }
    let nearest_workspace: u128 = match nearest_workspace {
        Some(ws) => ws,
        None => {
            return Err(ManageError::NoNearestWorkspace);
        },
    };
    let target: InsertionTarget = match target_parent {
        Some(parent) => InsertionTarget { parent, index: 0 },
        None => match insertion_target(tree, focused, state) {
            Ok(target) => target,
            Err(e) => {
                return Err(e);
            },
        },
    };
    match tree.nearest(target.parent, ContainerKind::Workspace) {
        Some(workspace) => Ok(
            NewWindow {
                state,
                target,
                workspace,
                is_same_workspace: nearest_workspace == workspace,
                has_custom_placement: !state.is_tiling() && !prefers_centered,
            },
        ),
        None => Err(ManageError::NoWorkspace),
    }
}

/// How much smaller than the space of its workspace a floating window is kept.
pub const FLOATING_MARGIN: i32 = 10;

/// Where a window goes when it floats before it is centered or held to a size.
pub open spec fn unclamped_placement(
    frame: Rect,
    is_same_workspace: bool,
    prefers_centered: bool,
    workspace_rect: Rect,
) -> Rect {
    if !is_same_workspace || prefers_centered {
        frame.spec_translate_to_center(workspace_rect)
    } else {
        frame
    }
}

/// Where a new window goes when it floats: where it is, unless it is to be
/// centered or comes to another workspace; and never larger than the space of
/// the workspace less a margin.
pub fn floating_placement(
    frame: &Rect,
    is_same_workspace: bool,
    prefers_centered: bool,
    workspace_rect: &Rect,
    max_workspace_rect: &Rect,
) -> (result: Rect)
    requires
        !is_same_workspace || prefers_centered ==> frame.can_center(*workspace_rect),
        max_workspace_rect.measurable(),
        max_workspace_rect.spec_width() - FLOATING_MARGIN >= i32::MIN,
        max_workspace_rect.spec_height() - FLOATING_MARGIN >= i32::MIN,
        unclamped_placement(
            *frame,
            is_same_workspace,
            prefers_centered,
            *workspace_rect,
        ).can_clamp(
            max_workspace_rect.spec_width() - FLOATING_MARGIN,
            max_workspace_rect.spec_height() - FLOATING_MARGIN,
        ),
    ensures
        result == unclamped_placement(
            *frame,
            is_same_workspace,
            prefers_centered,
            *workspace_rect,
        ).spec_clamp_size(
            max_workspace_rect.spec_width() - FLOATING_MARGIN,
            max_workspace_rect.spec_height() - FLOATING_MARGIN,
        ),
{
    let placement = if !is_same_workspace || prefers_centered {
        frame.translate_to_center(workspace_rect)
    } else {
        *frame
    };
    placement.clamp_size(
        max_workspace_rect.width() - FLOATING_MARGIN,
        max_workspace_rect.height() - FLOATING_MARGIN,
    )
}

/// The node of a new window.
pub open spec fn window_node(state: WindowState, handle: isize) -> NodeView {
    NodeView {
        kind: if state is Tiling {
            ContainerKind::TilingWindow
        } else {
            ContainerKind::NonTilingWindow
        },
        parent: None,
        children: Seq::empty(),
        focus_order: Seq::empty(),
        layout: WorkspaceLayout::Split(TilingDirection::Horizontal),
        state,
        name: None,
        handle,
    }
}

/// The tree after the window `id` has been put where `n` says, last in the
/// focus order.
pub open spec fn with_new_window(m: Nodes, n: NewWindow, id: u128, handle: isize) -> Nodes {
    attached(
        m.insert(id, window_node(n.state, handle)),
        id,
        n.target.parent,
        n.target.index as int,
        m[n.target.parent].focus_order.len() as int,
    )
}

/// Whether `n` names a place that the tree has.
pub open spec fn is_place(m: Nodes, n: NewWindow) -> bool {
    &&& m.contains_key(n.target.parent)
    &&& !m[n.target.parent].kind.spec_is_window()
    &&& n.target.index <= m[n.target.parent].children.len()
}

/// Puts the window `id` where `n` says.
pub fn attach_new_window_with(tree: &mut Tree, n: &NewWindow, id: u128, handle: isize) -> (sizes: Vec<
    SizeChange,
>)
    requires
        wf(old(tree)@),
        is_place(old(tree)@, *n),
        !old(tree)@.contains_key(id),
    ensures
        wf(final(tree)@),
        final(tree)@ == with_new_window(old(tree)@, *n, id, handle),
        sizes@ == (if n.state is Tiling {
            seq![SizeChange::Join { child: id, parent: n.target.parent }]
        } else {
            Seq::empty()
        }),
{
    let kind: ContainerKind = if n.state.is_tiling() {
        ContainerKind::TilingWindow
    } else {
        ContainerKind::NonTilingWindow
    };
    tree.insert(
        id,
        kind,
        WorkspaceLayout::Split(TilingDirection::Horizontal),
        n.state,
        None,
        handle,
    );
    let last: usize = tree.get(n.target.parent).focus_order.len();
    tree.attach(id, n.target.parent, n.target.index, last);
    let mut sizes: Vec<SizeChange> = Vec::new();
    if n.state.is_tiling() {
        sizes.push(SizeChange::Join { child: id, parent: n.target.parent });
        proof {
            assert(sizes@ =~= seq![SizeChange::Join { child: id, parent: n.target.parent }]);
        }
    }
    sizes
}

/// Puts a new window where `n` says, under an id of its own. Returns the id and
/// the changed shares.
pub fn attach_new_window(tree: &mut Tree, n: &NewWindow, handle: isize) -> (result: (
    u128,
    Vec<SizeChange>,
))
    requires
        wf(old(tree)@),
        is_place(old(tree)@, *n),
    ensures
        wf(final(tree)@),
        is_fresh(old(tree)@, result.0),
        final(tree)@ == with_new_window(old(tree)@, *n, result.0, handle),
        result.1@ == (if n.state is Tiling {
            seq![SizeChange::Join { child: result.0, parent: n.target.parent }]
        } else {
            Seq::empty()
        }),
{
    let id: u128 = fresh_id(tree);
    let sizes = attach_new_window_with(tree, n, id, handle);
    (id, sizes)
}

/// Whether the monitor that a window was found on and the one that `container`
/// is on show things at different scales. Both have to be known.
pub open spec fn scales_differ(
    m: Nodes,
    container: u128,
    nearest_monitor: u128,
    scales: Map<u128, u32>,
) -> Result<bool, ManageError> {
    match nearest(m, container, ContainerKind::Monitor) {
        Some(monitor) => if scales.contains_key(nearest_monitor) && scales.contains_key(monitor) {
            Ok(scales[nearest_monitor] != scales[monitor])
        } else {
            Err(ManageError::NoMonitor)
        },
        None => Err(ManageError::NoMonitor),
    }
}

/// What is kept of the new window `id` once it is in the tree. Its size has to
/// be adjusted exactly if it came to a monitor of another scale.
pub open spec fn new_model(
    m: Nodes,
    n: NewWindow,
    id: u128,
    handle: isize,
    floating_placement: Rect,
    nearest_monitor: u128,
    scales: Map<u128, u32>,
) -> Result<WindowModel, ManageError> {
    match scales_differ(m, id, nearest_monitor, scales) {
        Err(e) => Err(e),
        Ok(differ) => Ok(
            WindowModel {
                state: n.state,
                has_pending_dpi_adjustment: differ,
                ..new_tiling(id, handle, None, floating_placement, n.has_custom_placement)
            },
        ),
    }
}

/// What is kept of the new window `id`, which is in the tree where `n` says.
/// `nearest_monitor` is the monitor that it was found on, and `scales` has the
/// scale of every monitor.
pub fn new_window_model(
    tree: &Tree,
    n: &NewWindow,
    id: u128,
    handle: isize,
    floating_placement: Rect,
    nearest_monitor: u128,
    scales: &HashMap<u128, u32>,
) -> (result: Result<WindowModel, ManageError>)
    requires
        wf(tree@),
        tree@.contains_key(id),
    ensures
        result == new_model(
            tree@,
            *n,
            id,
            handle,
            floating_placement,
            nearest_monitor,
            scales@,
        ),
{
    let monitor: u128 = match tree.nearest(id, ContainerKind::Monitor) {
        Some(monitor) => monitor,
        None => {
            return Err(ManageError::NoMonitor);
        },
    };
    match (scales.get(&nearest_monitor), scales.get(&monitor)) {
        (Some(from), Some(to)) => Ok(
            WindowModel {
                id,
                handle,
                state: n.state,
                prev_state: None,
                display_state: DisplayState::Shown,
                has_pending_dpi_adjustment: *from != *to,
                floating_placement,
                has_custom_floating_placement: n.has_custom_placement,
                insertion_target: None,
            },
        ),
        _ => Err(ManageError::NoMonitor),
    }
}

/// A window that comes to the monitor that it was found on keeps its size.
pub proof fn windows_keep_their_size_on_their_monitor(
    m: Nodes,
    n: NewWindow,
    id: u128,
    handle: isize,
    floating_placement: Rect,
    nearest_monitor: u128,
    scales: Map<u128, u32>,
)
    requires
        wf(m),
        m.contains_key(id),
        scales.contains_key(nearest_monitor),
        nearest(m, id, ContainerKind::Monitor) == Some(nearest_monitor),
    ensures
        new_model(m, n, id, handle, floating_placement, nearest_monitor, scales) matches Ok(w)
            && !w.has_pending_dpi_adjustment,
{
}

/// Holds a window cloaked until it is clear that it is managed.
#[derive(Clone, Copy, Debug, PartialEq, Eq, Structural)]
pub struct CloakGuard {
    /// The window to be uncloaked when the guard goes, unless it is released.
    pub window: Option<isize>,
}

impl CloakGuard {
    /// A guard over a window that has just been cloaked.
    pub fn cloak(window: isize) -> (result: CloakGuard)
        ensures
            result.window == Some(window),
    {
        CloakGuard { window: Some(window) }
    }

    /// Leaves the window cloaked: another part uncloaks it.
    pub fn release(self) -> (result: CloakGuard)
        ensures
            result.window is None,
    {
        CloakGuard { window: None }
    }

    /// The window to be uncloaked when the guard goes.
    pub fn uncloaks(&self) -> (result: Option<isize>)
        ensures
            result == self.window,
    {
        self.window
    }
}

/// What has become of a new window once its rules have run.
#[derive(Clone, Copy, Debug, PartialEq, Eq, Structural)]
pub enum RulesOutcome {
    /// They have not: there was no place for the window.
    NotCreated,
    Failed,
    /// A rule has the window left alone.
    Detached,
    Kept(u128),
}

/// A window that has come under management, and what follows from it.
#[derive(Clone, Copy, Debug, PartialEq, Eq, Structural)]
pub struct ManagedWindow {
    pub window: u128,
    /// The workspace whose windows are put in order.
    pub workspace: u128,
    /// What is drawn again: its parent if it tiles, or itself.
    pub redraw: u128,
}

/// What follows from the rules of a new window.
pub open spec fn managed(m: Nodes, rules: RulesOutcome) -> Result<Option<ManagedWindow>, ManageError> {
    match rules {
        RulesOutcome::NotCreated => Ok(None),
        RulesOutcome::Failed => Err(ManageError::RulesFailed),
        RulesOutcome::Detached => Ok(None),
        RulesOutcome::Kept(w) => match nearest(m, w, ContainerKind::Workspace) {
            None => Err(ManageError::NoWorkspace),
            Some(workspace) => if m[w].state is Tiling {
                match m[w].parent {
                    Some(p) => Ok(Some(ManagedWindow { window: w, workspace, redraw: p })),
                    None => Err(ManageError::NoParent),
                }
            } else {
                Ok(Some(ManagedWindow { window: w, workspace, redraw: w }))
            },
        },
    }
}

/// Decides what follows once the rules of a new window have run. The guard is
/// released only if the window is managed: in every other case it is uncloaked.
pub fn manage_window(tree: &Tree, guard: CloakGuard, rules: RulesOutcome) -> (result: (
    Result<Option<ManagedWindow>, ManageError>,
    CloakGuard,
))
    requires
        wf(tree@),
        rules matches RulesOutcome::Kept(w) ==> tree@.contains_key(w),
    ensures
        result.0 == managed(tree@, rules),
        result.1.window == (if managed(tree@, rules) matches Ok(Some(_)) {
            None
        } else {
            guard.window
        }),
{
    match rules {
        RulesOutcome::NotCreated => (Ok(None), guard),
        RulesOutcome::Failed => (Err(ManageError::RulesFailed), guard),
        RulesOutcome::Detached => (Ok(None), guard),
        RulesOutcome::Kept(w) => {
            let workspace: u128 = match tree.nearest(w, ContainerKind::Workspace) {
                Some(workspace) => workspace,
                None => {
                    return (Err(ManageError::NoWorkspace), guard);
                },
            };
            let node = tree.get(w);
            let redraw: u128 = if node.state.is_tiling() {
                match node.parent {
                    Some(p) => p,
                    None => {
                        return (Err(ManageError::NoParent), guard);
                    },
                }
            } else {
                w
            };
            (Ok(Some(ManagedWindow { window: w, workspace, redraw })), guard.release())
        },
    }
}

/// A new window that is neither minimized nor maximized and reaches beyond its
/// workspace on every side is fullscreen, and no other window is.
pub proof fn reaching_beyond_is_fullscreen(
    properties: NativeWindowProperties,
    workspace_rect: Rect,
    config: ParsedConfig,
)
    requires
        properties.frame.can_inset(1),
    ensures
        !properties.is_minimized && !properties.is_maximized && properties.frame.left
            < workspace_rect.left && properties.frame.top < workspace_rect.top
            && properties.frame.right > workspace_rect.right && properties.frame.bottom
            > workspace_rect.bottom ==> initial_state(properties, workspace_rect, config)
            == WindowState::Fullscreen(config.fullscreen_defaults),
        initial_state(properties, workspace_rect, config) is Fullscreen ==> {
            &&& !properties.is_minimized
            &&& !properties.is_maximized
            &&& properties.frame.left < workspace_rect.left
            &&& properties.frame.top < workspace_rect.top
            &&& properties.frame.right > workspace_rect.right
            &&& properties.frame.bottom > workspace_rect.bottom
        },
{
}

/// A new window starts minimized exactly if it is. One that is not fullscreen
/// floats if its size is fixed, and else starts as the config says.
pub proof fn windows_start_as_they_are(
    properties: NativeWindowProperties,
    workspace_rect: Rect,
    config: ParsedConfig,
)
    requires
        properties.frame.can_inset(1),
    ensures
        initial_state(properties, workspace_rect, config) is Minimized
            <==> properties.is_minimized,
        !properties.is_minimized && initial_state(properties, workspace_rect, config)
            !is Fullscreen ==> {
            &&& !properties.is_resizable ==> initial_state(properties, workspace_rect, config)
                == WindowState::Floating(config.floating_defaults)
            &&& properties.is_resizable && config.initial_state is Tiling ==> initial_state(
                properties,
                workspace_rect,
                config,
            ) == WindowState::Tiling
            &&& properties.is_resizable && config.initial_state is Floating ==> initial_state(
                properties,
                workspace_rect,
                config,
            ) == WindowState::Floating(config.floating_defaults)
        },
{
}

/// A new tiling window goes right behind the focused tiling window, or behind
/// the stack that it stands in. Other windows go to the end of the focused
/// workspace.
pub proof fn new_windows_go_behind_the_focused_one(m: Nodes, f: u128, state: WindowState, ws: u128)
    requires
        nearest(m, f, ContainerKind::Workspace) == Some(ws),
        m[ws].children.len() <= usize::MAX,
    ensures
        insertion_place(m, None, state) == Err::<InsertionTarget, ManageError>(
            ManageError::NoFocusedContainer,
        ),
        !(state is Tiling) ==> (insertion_place(m, Some(f), state) matches Ok(t) && t.parent == ws
            && t.index == m[ws].children.len()),
        state is Tiling && m[f].kind == ContainerKind::TilingWindow ==> (match m[f].parent {
            None => insertion_place(m, Some(f), state) == Err::<InsertionTarget, ManageError>(
                ManageError::NoParent,
            ),
            Some(p) => {
                &&& m[p].kind != ContainerKind::Stack && m[p].children.index_of(f) + 1 <= usize::MAX
                    && m[p].children.index_of(f) >= 0 ==> (insertion_place(m, Some(f), state)
                    matches Ok(t) && t.parent == p && t.index == m[p].children.index_of(f) + 1)
                &&& m[p].kind == ContainerKind::Stack && m[p].parent is None ==> insertion_place(
                    m,
                    Some(f),
                    state,
                ) == Err::<InsertionTarget, ManageError>(ManageError::NoParent)
                &&& m[p].kind == ContainerKind::Stack && (m[p].parent matches Some(q)
                    && m[q].children.index_of(p) + 1 <= usize::MAX && m[q].children.index_of(p) >= 0)
                    ==> (insertion_place(m, Some(f), state) matches Ok(t) && t.parent
                    == m[p].parent->0 && t.index == m[m[p].parent->0].children.index_of(p) + 1)
            },
        }),
{
}

/// If no tiling window is focused, a new one goes behind the one that was
/// focused last on the workspace, and to its end if there is none.
pub proof fn new_windows_go_behind_the_last_focused_one(m: Nodes, f: u128, ws: u128, k: int)
    requires
        m[f].kind != ContainerKind::TilingWindow,
        0 <= k <= descendant_focus_order(m, ws).len(),
        forall|j: int|
            0 <= j < k ==> m[#[trigger] descendant_focus_order(m, ws)[j]].kind
                != ContainerKind::TilingWindow,
    ensures
        k == descendant_focus_order(m, ws).len() ==> tiling_sibling(m, f, ws) is None,
        k < descendant_focus_order(m, ws).len() && m[descendant_focus_order(m, ws)[k]].kind
            == ContainerKind::TilingWindow ==> tiling_sibling(m, f, ws) == Some(
            descendant_focus_order(m, ws)[k],
        ),
{
    let order = descendant_focus_order(m, ws);
    let pred = is_tiling_window_of(m);
    lemma_first_where(order, pred);
    if k < order.len() && pred(order[k]) {
        crate::stack_laws::lemma_first_comes_first(order, pred, k);
        let q = choose|q: int|
            0 <= q <= k && #[trigger] order[q] == first_where(order, pred)->0 && pred(order[q]);
        assert(q == k);
    }
    if k == order.len() && first_where(order, pred) is Some {
        let x = first_where(order, pred)->0;
        let q = choose|q: int| 0 <= q < order.len() && order[q] == x;
        assert(m[order[q]].kind != ContainerKind::TilingWindow);
    }
}

/// What is decided of a new window: a parent that is asked for takes it at its
/// front. It floats where it was found only if it does not tile and is not to be
/// centered.
pub proof fn new_windows_go_where_they_are_asked_to(
    m: Nodes,
    monitor: u128,
    near: u128,
    state: WindowState,
    p: u128,
    ws: u128,
    focused: Option<u128>,
    prefers_centered: bool,
)
    ensures
        new_window(m, None, Some(near), state, Some(p), focused, prefers_centered) == Err::<
            NewWindow,
            ManageError,
        >(ManageError::NoNearestMonitor),
        new_window(m, Some(monitor), None, state, Some(p), focused, prefers_centered) == Err::<
            NewWindow,
            ManageError,
        >(ManageError::NoNearestWorkspace),
        nearest(m, p, ContainerKind::Workspace) is None ==> new_window(
            m,
            Some(monitor),
            Some(near),
            state,
            Some(p),
            focused,
            prefers_centered,
        ) == Err::<NewWindow, ManageError>(ManageError::NoWorkspace),
        nearest(m, p, ContainerKind::Workspace) == Some(ws) ==> (new_window(
            m,
            Some(monitor),
            Some(near),
            state,
            Some(p),
            focused,
            prefers_centered,
        ) matches Ok(n) && n.state == state && n.target.parent == p && n.target.index == 0
            && n.workspace == ws && n.is_same_workspace == (near == ws) && n.has_custom_placement
            == (!(state is Tiling) && !prefers_centered)),
        new_window_place(m, None, focused, state) == insertion_place(m, focused, state),
{
}

/// A window floats where it was found, unless it is to be centered or comes to
/// another workspace.
pub proof fn windows_float_where_they_are_found(frame: Rect, workspace_rect: Rect)
    ensures
        unclamped_placement(frame, true, false, workspace_rect) == frame,
        unclamped_placement(frame, false, false, workspace_rect) == frame.spec_translate_to_center(
            workspace_rect,
        ),
        unclamped_placement(frame, true, true, workspace_rect) == frame.spec_translate_to_center(
            workspace_rect,
        ),
        FLOATING_MARGIN == 10,
{
}

/// A new window stands at its place in the tree, last in the focus order, with
/// its mode and its handle, and holds nothing.
pub proof fn new_windows_stand_at_their_place(m: Nodes, n: NewWindow, id: u128, handle: isize)
    requires
        is_place(m, n),
        !m.contains_key(id),
    ensures
        ({
            let t = with_new_window(m, n, id, handle);
            let p = n.target.parent;
            &&& t[id].parent == Some(p)
            &&& t[id].state == n.state
            &&& t[id].handle == handle
            &&& t[id].children.len() == 0
            &&& t[id].kind == (if n.state is Tiling {
                ContainerKind::TilingWindow
            } else {
                ContainerKind::NonTilingWindow
            })
            &&& t[p].children == m[p].children.insert(n.target.index as int, id)
            &&& t[p].focus_order == m[p].focus_order.push(id)
            &&& forall|x: u128| x != id && x != p ==> #[trigger] t[x] == m[x]
        }),
{
    let p = n.target.parent;
    let t = with_new_window(m, n, id, handle);
    assert(t[p].focus_order =~= m[p].focus_order.push(id));
}

/// The size of a window is adjusted exactly if the monitor that it was found on
/// and the one that it comes to have different scales, both of which have to be
/// known.
pub proof fn sizes_are_adjusted_between_scales(
    m: Nodes,
    n: NewWindow,
    id: u128,
    handle: isize,
    placement: Rect,
    from: u128,
    to: u128,
    scales: Map<u128, u32>,
)
    requires
        nearest(m, id, ContainerKind::Monitor) == Some(to),
    ensures
        !scales.contains_key(from) || !scales.contains_key(to) ==> new_model(
            m,
            n,
            id,
            handle,
            placement,
            from,
            scales,
        ) == Err::<WindowModel, ManageError>(ManageError::NoMonitor),
        scales.contains_key(from) && scales.contains_key(to) ==> (new_model(
            m,
            n,
            id,
            handle,
            placement,
            from,
            scales,
        ) matches Ok(w) && w.id == id && w.handle == handle && w.state == n.state
            && w.prev_state is None && w.has_pending_dpi_adjustment == (scales[from] != scales[to])
            && w.floating_placement == placement && w.has_custom_floating_placement
            == n.has_custom_placement && w.insertion_target is None && w.display_state is Shown),
{
}

/// A window that its rules keep is managed on its workspace: if it tiles, its
/// parent is drawn again, and else the window itself. One that the rules have
/// left alone is not managed, and neither is one whose rules failed.
pub proof fn kept_windows_are_managed(m: Nodes, w: u128, ws: u128, p: u128)
    ensures
        managed(m, RulesOutcome::NotCreated) == Ok::<Option<ManagedWindow>, ManageError>(None),
        managed(m, RulesOutcome::Detached) == Ok::<Option<ManagedWindow>, ManageError>(None),
        managed(m, RulesOutcome::Failed) == Err::<Option<ManagedWindow>, ManageError>(
            ManageError::RulesFailed,
        ),
        nearest(m, w, ContainerKind::Workspace) is None ==> managed(m, RulesOutcome::Kept(w))
            == Err::<Option<ManagedWindow>, ManageError>(ManageError::NoWorkspace),
        nearest(m, w, ContainerKind::Workspace) == Some(ws) && !(m[w].state is Tiling) ==> managed(
            m,
            RulesOutcome::Kept(w),
        ) == Ok::<Option<ManagedWindow>, ManageError>(
            Some(ManagedWindow { window: w, workspace: ws, redraw: w }),
        ),
        nearest(m, w, ContainerKind::Workspace) == Some(ws) && m[w].state is Tiling && m[w].parent
            == Some(p) ==> managed(m, RulesOutcome::Kept(w)) == Ok::<
            Option<ManagedWindow>,
            ManageError,
        >(Some(ManagedWindow { window: w, workspace: ws, redraw: p })),
        nearest(m, w, ContainerKind::Workspace) == Some(ws) && m[w].state is Tiling
            && m[w].parent is None ==> managed(m, RulesOutcome::Kept(w)) == Err::<
            Option<ManagedWindow>,
            ManageError,
        >(ManageError::NoParent),
{
}

/// A window is forced to be managed exactly if one of the rules that are run
/// when a window is managed applies to it and says so.
pub proof fn rules_force_management(
    config: UserConfig,
    properties: NativeWindowProperties,
    rule: crate::config_types::RuleView,
)
    ensures
        config.rules_for(WindowRuleEvent::Manage).contains(rule) && rule.commands.contains(
            crate::config_types::CommandView::ForceManage,
        ) && rule_applies(rule, properties) ==> is_forced(config, properties),
        config.rules_for(WindowRuleEvent::Manage).len() == 0 ==> !is_forced(config, properties),
        is_forced(config, properties) ==> exists|k: int|
            0 <= k < config.rules_for(WindowRuleEvent::Manage).len()
                && config.rules_for(WindowRuleEvent::Manage)[k].commands.contains(
                crate::config_types::CommandView::ForceManage,
            ) && #[trigger] rule_applies(
                config.rules_for(WindowRuleEvent::Manage)[k],
                properties,
            ),
{
    let rules = config.rules_for(WindowRuleEvent::Manage);
    if rules.contains(rule) {
        let k = choose|k: int| 0 <= k < rules.len() && rules[k] == rule;
        assert(config.rules_for(WindowRuleEvent::Manage)[k] == rule);
    }
    if is_forced(config, properties) {
        let k = choose|k: int|
            #![trigger config.rules_for(WindowRuleEvent::Manage)[k]]
            0 <= k < config.rules_for(WindowRuleEvent::Manage).len() && forces_management(
                config.rules_for(WindowRuleEvent::Manage)[k],
            ) && rule_applies(config.rules_for(WindowRuleEvent::Manage)[k], properties);
        assert(rule_applies(config.rules_for(WindowRuleEvent::Manage)[k], properties));
    }
}

} // verus!
