//! The scratchpad: a workspace that is never displayed, whose windows can be
//! called up over any other.

use vstd::prelude::*;

use crate::container::ContainerKind;
use crate::geometry::{div_toward_zero, half, quotient, Rect};
use crate::stack::lemma_descendants_contained;
use crate::tree::{attached, descendants, descendants_from, detached, lemma_detached_wf,
    lemma_parent_is_higher, nearest, node_linked, position, refocused, wf, Nodes, Tree};
use crate::window_model::WindowModel;
use crate::window_state::WindowState;

verus! {

/// Where a window came from.
#[derive(Debug)]
pub struct ScratchpadOrigin {
    pub workspace_name: Option<String>,
    pub prev_state: WindowState,
}

/// Why a command was refused.
#[derive(Clone, Copy, Debug, PartialEq, Eq, Structural)]
pub enum ScratchpadError {
    NoWorkspace,
    NoMonitor,
    NoParent,
    NotNonTiling,
}

/// What sending a window to the scratchpad comes down to.
#[derive(Debug)]
pub enum SendAction {
    /// It is there and hidden already.
    Nothing,
    /// It is shown over other windows: it goes back to where it came from.
    Restore,
    /// It floats above all others, and then is put away.
    Stash(ScratchpadOrigin),
}

/// Whether the window `w` is hidden in the scratchpad `sp`.
pub open spec fn is_stashed(m: Nodes, sp: u128, w: u128) -> bool {
    descendants(m, sp).contains(w)
}

/// Decides what sending the window `w` to the scratchpad `sp` comes down to.
/// `has_origin` says whether it was sent there before.
pub fn send_to_scratchpad(tree: &Tree, w: u128, sp: u128, has_origin: bool) -> (result: Result<
    SendAction,
    ScratchpadError,
>)
    requires
        wf(tree@),
        tree@.contains_key(w),
        tree@.contains_key(sp),
    ensures
        ({
            let m = tree@;
            let ws = nearest(m, w, ContainerKind::Workspace);
            if is_stashed(m, sp, w) {
                result matches Ok(SendAction::Nothing)
            } else if m[w].kind == ContainerKind::NonTilingWindow && has_origin {
                result matches Ok(SendAction::Restore)
            } else if ws is None {
                result == Err::<SendAction, ScratchpadError>(ScratchpadError::NoWorkspace)
            } else {
                &&& result matches Ok(SendAction::Stash(origin))
                &&& origin.prev_state == m[w].state
                &&& (match origin.workspace_name {
                    Some(name) => Some(name@),
                    None => None,
                }) == m[ws->0].name
            }
        }),
{
    let hidden = tree.descendants(sp);
    if position(&hidden, w).is_some() {
        return Ok(SendAction::Nothing);
    }
    if tree.get(w).kind == ContainerKind::NonTilingWindow && has_origin {
        return Ok(SendAction::Restore);
    }
    let ws: u128 = match tree.nearest(w, ContainerKind::Workspace) {
        Some(ws) => ws,
        None => {
            return Err(ScratchpadError::NoWorkspace);
        },
    };
    let workspace_name: Option<String> = match &tree.get(ws).name {
        Some(name) => Some(name.clone()),
        None => None,
    };
    let prev_state = tree.get(w).state;
    Ok(SendAction::Stash(ScratchpadOrigin { workspace_name, prev_state }))
}

/// The mode of a window on its way to the scratchpad.
pub fn overlay_state() -> (result: WindowState)
    ensures
        result matches WindowState::Floating(s) && !s.centered && s.shown_on_top,
{
    WindowState::Floating(crate::window_state::FloatingState { centered: false, shown_on_top: true })
}

/// The tree after the window `w` has become the last child of `ws`.
pub open spec fn moved_to_workspace(m: Nodes, w: u128, ws: u128) -> Nodes {
    let d = detached(m, w);
    attached(d, w, ws, d[ws].children.len() as int, d[ws].focus_order.len() as int)
}

/// Whether the window `w` can become a child of `ws`.
pub open spec fn can_move(m: Nodes, w: u128, ws: u128) -> bool {
    &&& m.contains_key(w)
    &&& m.contains_key(ws)
    &&& w != ws
    &&& m[w].children.len() == 0
    &&& m[w].parent is Some
    &&& !m[ws].kind.spec_is_window()
}

pub proof fn lemma_moved_wf(m: Nodes, w: u128, ws: u128)
    requires
        wf(m),
        can_move(m, w, ws),
    ensures
        wf(moved_to_workspace(m, w, ws)),
        moved_to_workspace(m, w, ws).dom() == m.dom(),
        moved_to_workspace(m, w, ws)[w].parent == Some(ws),
        forall|x: u128| #[trigger]
            m.contains_key(x) ==> {
                &&& moved_to_workspace(m, w, ws)[x].kind == m[x].kind
                &&& x != w ==> moved_to_workspace(m, w, ws)[x].parent == m[x].parent
                &&& m[x].kind.spec_is_window() ==> moved_to_workspace(m, w, ws)[x].children
                    == m[x].children
            },
{
    let d = detached(m, w);
    lemma_detached_wf(m, w);
    lemma_parent_is_higher(m, w);
    let p = m[w].parent->0;
    assert(node_linked(m, p));
    assert(d[w].children == m[w].children);
    crate::tree::lemma_attached_wf(
        d,
        w,
        ws,
        d[ws].children.len() as int,
        d[ws].focus_order.len() as int,
    );
    assert forall|x: u128| #[trigger] m.contains_key(x) && m[x].kind.spec_is_window() implies {
        moved_to_workspace(m, w, ws)[x].children == m[x].children
    } by {
        assert(node_linked(m, x));
        if x == p {
            assert(m[p].children.contains(w));
        }
    }
}

/// Makes the window `w` the last child of `ws`.
fn move_to_workspace(tree: &mut Tree, w: u128, ws: u128)
    requires
        wf(old(tree)@),
        can_move(old(tree)@, w, ws),
    ensures
        wf(final(tree)@),
        final(tree)@ == moved_to_workspace(old(tree)@, w, ws),
{
    proof {
        lemma_moved_wf(tree@, w, ws);
        lemma_detached_wf(tree@, w);
        lemma_parent_is_higher(tree@, w);
    }
    tree.detach(w);
    let last: usize = tree.get(ws).children.len();
    let last_focus: usize = tree.get(ws).focus_order.len();
    tree.attach(w, ws, last, last_focus);
}

/// Gives the focus to `target`, if there is one.
fn focus_if_any(tree: &mut Tree, target: Option<u128>)
    requires
        wf(old(tree)@),
        target matches Some(t) ==> old(tree)@.contains_key(t),
    ensures
        wf(final(tree)@),
        final(tree)@ == refocused_if_any(old(tree)@, target),
{
    if let Some(t) = target {
        tree.set_focused_descendant(t);
    }
}

/// The tree after `target` has been given the focus, if there is one.
pub open spec fn refocused_if_any(m: Nodes, target: Option<u128>) -> Nodes {
    match target {
        Some(t) => refocused(m, t),
        None => m,
    }
}

/// Puts the floating window `w` away into the scratchpad `sp` and gives the
/// focus to `focus_target`, if there is one. Returns whether the focus changed.
pub fn stash_window(tree: &mut Tree, w: u128, sp: u128, focus_target: Option<u128>) -> (result: Result<
    bool,
    ScratchpadError,
>)
    requires
        wf(old(tree)@),
        old(tree)@.contains_key(w),
        old(tree)@.contains_key(sp),
        !old(tree)@[sp].kind.spec_is_window(),
        focus_target matches Some(t) ==> old(tree)@.contains_key(t),
    ensures
        wf(final(tree)@),
        match result {
            Ok(focus_changed) => {
                &&& old(tree)@[w].kind == ContainerKind::NonTilingWindow
                &&& old(tree)@[w].parent is Some
                &&& final(tree)@ == refocused_if_any(
                    moved_to_workspace(old(tree)@, w, sp),
                    focus_target,
                )
                &&& focus_changed == (focus_target is Some)
            },
            Err(e) => {
                &&& final(tree)@ == old(tree)@
                &&& if old(tree)@[w].kind != ContainerKind::NonTilingWindow {
                    e == ScratchpadError::NotNonTiling
                } else {
                    e == ScratchpadError::NoParent && old(tree)@[w].parent is None
                }
            },
        },
{
    proof {
        assert(node_linked(tree@, w));
    }
    if tree.get(w).kind != ContainerKind::NonTilingWindow {
        return Err(ScratchpadError::NotNonTiling);
    }
    if tree.get(w).parent.is_none() {
        return Err(ScratchpadError::NoParent);
    }
    proof {
        lemma_moved_wf(tree@, w, sp);
    }
    move_to_workspace(tree, w, sp);
    focus_if_any(tree, focus_target);
    Ok(focus_target.is_some())
}

/// What has to be known to take a window back to where it came from.
#[derive(Clone, Copy, Debug, PartialEq, Eq, Structural)]
pub struct RestorePlan {
    pub current_workspace: u128,
    /// Whether no other window of the scratchpad is shown, so that the rest of
    /// the screen is not dimmed any more.
    pub removes_dim: bool,
    /// The workspace that it came from, if that exists; else it has to be made.
    pub origin_workspace: Option<u128>,
}

/// Picks the workspaces called `name`.
pub open spec fn is_workspace_called(m: Nodes, name: Seq<char>) -> spec_fn(u128) -> bool {
    |x: u128| m[x].kind == ContainerKind::Workspace && m[x].name == Some(name)
}

/// The first workspace below `root` that is called `name`.
pub open spec fn workspace_called(m: Nodes, root: u128, name: Seq<char>) -> Option<u128> {
    crate::stack::first_where(descendants(m, root), is_workspace_called(m, name))
}

/// The workspace below `root` that is called `name`.
pub fn workspace_by_name(tree: &Tree, root: u128, name: &String) -> (result: Option<u128>)
    requires
        wf(tree@),
        tree@.contains_key(root),
    ensures
        result == workspace_called(tree@, root, name@),
        result matches Some(ws) ==> tree@.contains_key(ws) && tree@[ws].kind
            == ContainerKind::Workspace,
{
    let ghost m = tree@;
    let ghost pred = is_workspace_called(m, name@);
    let ids = tree.descendants(root);
    proof {
        lemma_descendants_contained(m, root, 0);
        assert(ids@.subrange(0, ids@.len() as int) =~= ids@);
    }
    let mut i: usize = 0;
    while i < ids.len()
        invariant
            i <= ids@.len(),
            m == tree@,
            ids@ == descendants(m, root),
            pred == is_workspace_called(m, name@),
            forall|x: u128| #[trigger]
                descendants_from(m, root, 0).contains(x) ==> m.contains_key(x),
            crate::stack::first_where(ids@.subrange(i as int, ids@.len() as int), pred)
                == crate::stack::first_where(ids@, pred),
        decreases ids@.len() - i,
    {
        let x: u128 = ids[i];
        proof {
            assert(descendants_from(m, root, 0).contains(x));
            let rest = ids@.subrange(i as int, ids@.len() as int);
            assert(rest[0] == x);
            assert(rest.drop_first() =~= ids@.subrange(i + 1, ids@.len() as int));
        }
        let node = tree.get(x);
        let is_called: bool = match &node.name {
            Some(n) => *n == *name,
            None => false,
        };
        if node.kind == ContainerKind::Workspace && is_called {
            return Some(x);
        }
        i = i + 1;
    }
    proof {
        assert(ids@.subrange(i as int, ids@.len() as int) =~= Seq::<u128>::empty());
    }
    None
}

/// Prepares taking the window `w` back to the workspace called `origin_name`.
/// `other_shown` says whether other windows of the scratchpad are shown.
pub fn plan_restore(tree: &Tree, w: u128, root: u128, origin_name: &String, other_shown: bool) -> (
    result: Result<RestorePlan, ScratchpadError>)
    requires
        wf(tree@),
        tree@.contains_key(w),
        tree@.contains_key(root),
    ensures
        match result {
            Ok(plan) => {
                &&& tree@[w].kind == ContainerKind::NonTilingWindow
                &&& nearest(tree@, w, ContainerKind::Workspace) == Some(plan.current_workspace)
                &&& plan.removes_dim == !other_shown
                &&& plan.origin_workspace == workspace_called(tree@, root, origin_name@)
            },
            Err(e) => if tree@[w].kind != ContainerKind::NonTilingWindow {
                e == ScratchpadError::NotNonTiling
            } else {
                e == ScratchpadError::NoWorkspace && nearest(
                    tree@,
                    w,
                    ContainerKind::Workspace,
                ) is None
            },
        },
{
    if tree.get(w).kind != ContainerKind::NonTilingWindow {
        return Err(ScratchpadError::NotNonTiling);
    }
    let current_workspace: u128 = match tree.nearest(w, ContainerKind::Workspace) {
        Some(ws) => ws,
        None => {
            return Err(ScratchpadError::NoWorkspace);
        },
    };
    let origin_workspace = workspace_by_name(tree, root, origin_name);
    Ok(RestorePlan { current_workspace, removes_dim: !other_shown, origin_workspace })
}

/// Takes the window `w` back to `origin`, from `current`. Returns whether it
/// comes to another monitor, in which case it has to be centered anew there.
pub fn restore_to_workspace(tree: &mut Tree, w: u128, current: u128, origin: u128) -> (result: Result<
    bool,
    ScratchpadError,
>)
    requires
        wf(old(tree)@),
        old(tree)@.contains_key(w),
        old(tree)@[w].kind == ContainerKind::NonTilingWindow,
        old(tree)@.contains_key(current),
        old(tree)@.contains_key(origin),
        !old(tree)@[origin].kind.spec_is_window(),
    ensures
        wf(final(tree)@),
        ({
            let m = old(tree)@;
            let from = nearest(m, current, ContainerKind::Monitor);
            let to = nearest(m, origin, ContainerKind::Monitor);
            match result {
                Ok(crosses) => {
                    &&& from is Some && to is Some && m[w].parent is Some
                    &&& crosses == (from != to)
                    &&& final(tree)@ == moved_to_workspace(m, w, origin)
                },
                Err(e) => {
                    &&& final(tree)@ == m
                    &&& if from is None || to is None {
                        e == ScratchpadError::NoMonitor
                    } else {
                        e == ScratchpadError::NoParent && m[w].parent is None
                    }
                },
            }
        }),
{
    proof {
        assert(node_linked(tree@, w));
    }
    let from: u128 = match tree.nearest(current, ContainerKind::Monitor) {
        Some(x) => x,
        None => {
            return Err(ScratchpadError::NoMonitor);
        },
    };
    let to: u128 = match tree.nearest(origin, ContainerKind::Monitor) {
        Some(x) => x,
        None => {
            return Err(ScratchpadError::NoMonitor);
        },
    };
    if tree.get(w).parent.is_none() {
        return Err(ScratchpadError::NoParent);
    }
    move_to_workspace(tree, w, origin);
    Ok(from != to)
}

/// Where a window floats once it is back on another monitor: in the middle of
/// its workspace.
pub fn restored_placement(placement: &Rect, crosses: bool, workspace_rect: &Rect) -> (result: Rect)
    requires
        crosses ==> placement.can_center(*workspace_rect),
    ensures
        result == (if crosses {
            placement.spec_translate_to_center(*workspace_rect)
        } else {
            *placement
        }),
{
    if crosses {
        placement.translate_to_center(workspace_rect)
    } else {
        *placement
    }
}

/// A window once it is back on its workspace. On another monitor it is centered
/// anew, and is yet to be adjusted if that monitor has another scale
/// (`scale_differs`).
pub fn restored_window(
    window: &WindowModel,
    crosses: bool,
    scale_differs: bool,
    workspace_rect: &Rect,
) -> (result: WindowModel)
    requires
        crosses ==> window.floating_placement.can_center(*workspace_rect),
    ensures
        result == (if crosses {
            WindowModel {
                floating_placement: window.floating_placement.spec_translate_to_center(
                    *workspace_rect,
                ),
                has_pending_dpi_adjustment: window.has_pending_dpi_adjustment || scale_differs,
                ..*window
            }
        } else {
            *window
        }),
{
    let mut restored = *window;
    if crosses && scale_differs {
        restored.has_pending_dpi_adjustment = true;
    }
    restored.floating_placement = restored_placement(
        &window.floating_placement,
        crosses,
        workspace_rect,
    );
    restored
}

/// Gives the focus to the window that is back, if the user is still on its
/// workspace; else to `focus_target`, if there is one. Returns whether the
/// focus changed.
pub fn focus_after_restore(
    tree: &mut Tree,
    restored: u128,
    is_same_workspace: bool,
    focus_target: Option<u128>,
) -> (focus_changed: bool)
    requires
        wf(old(tree)@),
        old(tree)@.contains_key(restored),
        focus_target matches Some(t) ==> old(tree)@.contains_key(t),
    ensures
        wf(final(tree)@),
        final(tree)@ == refocused_if_any(
            old(tree)@,
            if is_same_workspace {
                Some(restored)
            } else {
                focus_target
            },
        ),
        focus_changed == (is_same_workspace || focus_target is Some),
{
    if is_same_workspace {
        tree.set_focused_descendant(restored);
        true
    } else {
        focus_if_any(tree, focus_target);
        focus_target.is_some()
    }
}

/// What toggling the scratchpad comes down to.
#[derive(Clone, Copy, Debug, PartialEq, Eq, Structural)]
pub enum ToggleAction {
    Nothing,
    HideAll,
    ShowAll,
}

/// Decides what toggling the scratchpad comes down to: windows that are shown
/// are hidden; else those that are hidden are shown.
pub fn toggle_scratchpad(shown: usize, stashed: usize) -> (result: ToggleAction)
    ensures
        result == (if shown > 0 {
            ToggleAction::HideAll
        } else if stashed > 0 {
            ToggleAction::ShowAll
        } else {
            ToggleAction::Nothing
        }),
{
    if shown > 0 {
        ToggleAction::HideAll
    } else if stashed == 0 {
        ToggleAction::Nothing
    } else {
        ToggleAction::ShowAll
    }
}

/// Whether the place of a window on a monitor can be computed.
pub open spec fn can_place_on(monitor: Rect) -> bool {
    &&& monitor.measurable()
    &&& i32::MIN <= monitor.spec_width() * 4 <= i32::MAX
    &&& i32::MIN <= monitor.spec_height() * 3 <= i32::MAX
}

/// Four fifths of the monitor wide, three fifths high, in its middle.
pub open spec fn default_place(monitor: Rect) -> Rect {
    let w = div_toward_zero(monitor.spec_width() * 4, 5);
    let h = div_toward_zero(monitor.spec_height() * 3, 5);
    Rect::spec_from_xy(
        monitor.left + div_toward_zero(monitor.spec_width() - w, 2),
        monitor.top + div_toward_zero(monitor.spec_height() - h, 2),
        w,
        h,
    )
}

/// Where a window of the scratchpad is shown unless the user has put it
/// somewhere.
pub fn default_placement(monitor: &Rect) -> (result: Rect)
    requires
        can_place_on(*monitor),
    ensures
        result == default_place(*monitor),
        monitor.spec_width() >= 0 && monitor.spec_height() >= 0 ==> monitor.spec_contains_rect(
            result,
        ),
{
    let width: i32 = monitor.width();
    let height: i32 = monitor.height();
    let w: i32 = quotient(width * 4, 5);
    let h: i32 = quotient(height * 3, 5);
    let x: i32 = monitor.left + half(width - w);
    let y: i32 = monitor.top + half(height - h);
    Rect::from_xy(x, y, w, h)
}

/// A window of the scratchpad once it is shown on the monitor: where the user
/// has put it, or at the default place.
pub fn shown_window(window: &WindowModel, monitor: &Rect) -> (result: WindowModel)
    requires
        !window.has_custom_floating_placement ==> can_place_on(*monitor),
    ensures
        result == (if window.has_custom_floating_placement {
            *window
        } else {
            WindowModel { floating_placement: default_place(*monitor), ..*window }
        }),
{
    let mut shown = *window;
    if !window.has_custom_floating_placement {
        shown.floating_placement = default_placement(monitor);
    }
    shown
}

/// Whether each of `windows` is a window of the tree.
pub open spec fn are_windows(m: Nodes, windows: Seq<u128>) -> bool {
    forall|k: int|
        0 <= k < windows.len() ==> m.contains_key(#[trigger] windows[k])
            && m[windows[k]].kind.spec_is_window()
}

/// What became of moving windows, one after the other.
pub struct MoveRun {
    pub tree: Nodes,
    /// The workspaces whose windows are put in order, one for each window that
    /// was moved.
    pub reorder: Seq<u128>,
    /// What ended it early, if something did.
    pub error: Option<ScratchpadError>,
}

/// Shows those of `windows` from the one at `i` on: each becomes the last child
/// of the workspace `ws`. The first that cannot be shown ends it.
pub open spec fn shown_from(m: Nodes, windows: Seq<u128>, ws: u128, i: int) -> MoveRun
    decreases windows.len() - i,
{
    if i < 0 || i >= windows.len() {
        MoveRun { tree: m, reorder: Seq::empty(), error: None }
    } else if m[windows[i]].kind != ContainerKind::NonTilingWindow {
        MoveRun { tree: m, reorder: Seq::empty(), error: Some(ScratchpadError::NotNonTiling) }
    } else if m[windows[i]].parent is None {
        MoveRun { tree: m, reorder: Seq::empty(), error: Some(ScratchpadError::NoParent) }
    } else {
        let rest = shown_from(moved_to_workspace(m, windows[i], ws), windows, ws, i + 1);
        MoveRun { reorder: seq![ws] + rest.reorder, ..rest }
    }
}

/// Hides those of `windows` from the one at `i` on: each becomes the last child
/// of the scratchpad `sp`. The first that stands on no workspace ends it.
pub open spec fn hidden_from(m: Nodes, windows: Seq<u128>, sp: u128, i: int) -> MoveRun
    decreases windows.len() - i,
{
    if i < 0 || i >= windows.len() {
        MoveRun { tree: m, reorder: Seq::empty(), error: None }
    } else {
        match nearest(m, windows[i], ContainerKind::Workspace) {
            None => MoveRun {
                tree: m,
                reorder: Seq::empty(),
                error: Some(ScratchpadError::NoWorkspace),
            },
            Some(ws) => {
                let rest = hidden_from(moved_to_workspace(m, windows[i], sp), windows, sp, i + 1);
                MoveRun { reorder: seq![ws] + rest.reorder, ..rest }
            },
        }
    }
}

proof fn lemma_move_keeps_windows(m: Nodes, w: u128, ws: u128, windows: Seq<u128>)
    requires
        wf(m),
        can_move(m, w, ws),
        are_windows(m, windows),
    ensures
        are_windows(moved_to_workspace(m, w, ws), windows),
{
    lemma_moved_wf(m, w, ws);
    assert forall|k: int| 0 <= k < windows.len() implies moved_to_workspace(
        m,
        w,
        ws,
    ).contains_key(#[trigger] windows[k]) && moved_to_workspace(
        m,
        w,
        ws,
    )[windows[k]].kind.spec_is_window() by {
        assert(m.contains_key(windows[k]));
    }
}

/// What showing or hiding the windows of the scratchpad has changed.
#[derive(Debug)]
pub struct ToggleChange {
    /// The workspaces whose windows are put in order, one for each window.
    pub reorder: Vec<u128>,
    pub focus_changed: bool,
}

/// Shows the windows of the scratchpad on the workspace `ws` and gives the
/// focus to the first. Each of them is drawn again. The first that cannot be
/// shown ends it, with those before it shown.
pub fn show_scratchpad_windows(tree: &mut Tree, windows: &Vec<u128>, ws: Option<u128>) -> (result:
    Result<ToggleChange, ScratchpadError>)
    requires
        wf(old(tree)@),
        ws matches Some(x) ==> old(tree)@.contains_key(x) && !old(tree)@[x].kind.spec_is_window(),
        are_windows(old(tree)@, windows@),
    ensures
        wf(final(tree)@),
        ({
            let m = old(tree)@;
            if ws is None {
                &&& result == Err::<ToggleChange, ScratchpadError>(ScratchpadError::NoWorkspace)
                &&& final(tree)@ == m
            } else if nearest(m, ws->0, ContainerKind::Monitor) is None {
                &&& result == Err::<ToggleChange, ScratchpadError>(ScratchpadError::NoMonitor)
                &&& final(tree)@ == m
            } else {
                let run = shown_from(m, windows@, ws->0, 0);
                match run.error {
                    Some(e) => {
                        &&& result == Err::<ToggleChange, ScratchpadError>(e)
                        &&& final(tree)@ == run.tree
                    },
                    None => {
                        &&& result matches Ok(change)
                        &&& change.reorder@ == run.reorder
                        &&& change.focus_changed == (windows@.len() > 0)
                        &&& final(tree)@ == refocused_if_any(
                            run.tree,
                            if windows@.len() > 0 {
                                Some(windows@[0])
                            } else {
                                None
                            },
                        )
                    },
                }
            }
        }),
{
    let to: u128 = match ws {
        Some(to) => to,
        None => {
            return Err(ScratchpadError::NoWorkspace);
        },
    };
    if tree.nearest(to, ContainerKind::Monitor).is_none() {
        return Err(ScratchpadError::NoMonitor);
    }
    let ghost run = shown_from(tree@, windows@, to, 0);
    let mut reorder: Vec<u128> = Vec::new();
    let mut i: usize = 0;
    while i < windows.len()
        invariant
            i <= windows@.len(),
            ws == Some(to),
            nearest(old(tree)@, to, ContainerKind::Monitor) is Some,
            run == shown_from(old(tree)@, windows@, to, 0),
            wf(tree@),
            tree@.contains_key(to),
            !tree@[to].kind.spec_is_window(),
            are_windows(tree@, windows@),
            shown_from(tree@, windows@, to, i as int).tree == run.tree,
            shown_from(tree@, windows@, to, i as int).error == run.error,
            reorder@ + shown_from(tree@, windows@, to, i as int).reorder =~= run.reorder,
        decreases windows@.len() - i,
    {
        let w: u128 = windows[i];
        proof {
            assert(tree@.contains_key(windows@[i as int]));
            assert(node_linked(tree@, w));
        }
        if tree.get(w).kind != ContainerKind::NonTilingWindow {
            return Err(ScratchpadError::NotNonTiling);
        }
        if tree.get(w).parent.is_none() {
            return Err(ScratchpadError::NoParent);
        }
        proof {
            lemma_moved_wf(tree@, w, to);
            lemma_move_keeps_windows(tree@, w, to, windows@);
        }
        let ghost rest = shown_from(moved_to_workspace(tree@, w, to), windows@, to, i + 1).reorder;
        let ghost before = reorder@;
        move_to_workspace(tree, w, to);
        reorder.push(to);
        proof {
            assert(reorder@ + rest =~= before + (seq![to] + rest));
        }
        i = i + 1;
    }
    let focus_changed: bool = windows.len() > 0;
    if windows.len() > 0 {
        proof {
            assert(tree@.contains_key(windows@[0]));
        }
        tree.set_focused_descendant(windows[0]);
    }
    Ok(ToggleChange { reorder, focus_changed })
}

/// Hides the windows of the scratchpad `sp` that are shown. The focus goes to
/// `focus_target`, but only if one of them has it (`focused`). The first that
/// stands on no workspace ends it, with those before it hidden.
pub fn hide_scratchpad_windows(
    tree: &mut Tree,
    windows: &Vec<u128>,
    sp: u128,
    focused: Option<u128>,
    focus_target: Option<u128>,
) -> (result: Result<ToggleChange, ScratchpadError>)
    requires
        wf(old(tree)@),
        old(tree)@.contains_key(sp),
        !old(tree)@[sp].kind.spec_is_window(),
        are_windows(old(tree)@, windows@),
        focus_target matches Some(t) ==> old(tree)@.contains_key(t),
    ensures
        wf(final(tree)@),
        ({
            let run = hidden_from(old(tree)@, windows@, sp, 0);
            let loses_focus = focused matches Some(f) && windows@.contains(f);
            let target = if loses_focus {
                focus_target
            } else {
                None
            };
            match run.error {
                Some(e) => {
                    &&& result == Err::<ToggleChange, ScratchpadError>(e)
                    &&& final(tree)@ == run.tree
                },
                None => {
                    &&& result matches Ok(change)
                    &&& change.reorder@ == run.reorder
                    &&& change.focus_changed == (target is Some)
                    &&& final(tree)@ == refocused_if_any(run.tree, target)
                },
            }
        }),
{
    let ghost m = tree@;
    let ghost run = hidden_from(m, windows@, sp, 0);
    let loses_focus: bool = match focused {
        Some(f) => position(windows, f).is_some(),
        None => false,
    };
    let target: Option<u128> = if loses_focus {
        focus_target
    } else {
        None
    };
    let mut reorder: Vec<u128> = Vec::new();
    let mut i: usize = 0;
    while i < windows.len()
        invariant
            i <= windows@.len(),
            m == old(tree)@,
            run == hidden_from(m, windows@, sp, 0),
            wf(tree@),
            tree@.dom() == m.dom(),
            tree@.contains_key(sp),
            !tree@[sp].kind.spec_is_window(),
            are_windows(tree@, windows@),
            hidden_from(tree@, windows@, sp, i as int).tree == run.tree,
            hidden_from(tree@, windows@, sp, i as int).error == run.error,
            reorder@ + hidden_from(tree@, windows@, sp, i as int).reorder =~= run.reorder,
        decreases windows@.len() - i,
    {
        let w: u128 = windows[i];
        proof {
            assert(tree@.contains_key(windows@[i as int]));
            assert(node_linked(tree@, w));
        }
        let ws: u128 = match tree.nearest(w, ContainerKind::Workspace) {
            Some(ws) => ws,
            None => {
                return Err(ScratchpadError::NoWorkspace);
            },
        };
        proof {
            assert(tree@[w].parent is Some);
            lemma_moved_wf(tree@, w, sp);
            lemma_move_keeps_windows(tree@, w, sp, windows@);
        }
        let ghost rest = hidden_from(moved_to_workspace(tree@, w, sp), windows@, sp, i + 1).reorder;
        let ghost before = reorder@;
        move_to_workspace(tree, w, sp);
        reorder.push(ws);
        proof {
            assert(reorder@ + rest =~= before + (seq![ws] + rest));
        }
        i = i + 1;
    }
    focus_if_any(tree, target);
    Ok(ToggleChange { reorder, focus_changed: target.is_some() })
}

/// A window that is put away is hidden in the scratchpad.
pub proof fn stashing_hides(m: Nodes, w: u128, sp: u128)
    requires
        wf(m),
        can_move(m, w, sp),
    ensures
        is_stashed(moved_to_workspace(m, w, sp), sp, w),
{
    let d = moved_to_workspace(m, w, sp);
    lemma_moved_wf(m, w, sp);
    crate::tree_walks::lemma_within_step(d, w, sp);
    crate::tree_walks::lemma_within_step(d, sp, sp);
    crate::tree_walks::descendants_are_all_below(d, sp, w);
}

/// Hiding puts every window into the scratchpad, and none that is there comes
/// out.
pub proof fn hiding_hides_all(m: Nodes, windows: Seq<u128>, sp: u128, i: int, x: u128)
    requires
        wf(m),
        m.contains_key(sp),
        !m[sp].kind.spec_is_window(),
        are_windows(m, windows),
        0 <= i,
        hidden_from(m, windows, sp, i).error is None,
        m.contains_key(x),
        m[x].parent == Some(sp) || exists|k: int| i <= k < windows.len() && windows[k] == x,
    ensures
        hidden_from(m, windows, sp, i).tree.contains_key(x),
        hidden_from(m, windows, sp, i).tree[x].parent == Some(sp),
    decreases windows.len() - i,
{
    if i < windows.len() {
        let w = windows[i];
        assert(m.contains_key(windows[i]));
        assert(node_linked(m, w));
        assert(m[w].parent is Some);
        let d = moved_to_workspace(m, w, sp);
        lemma_moved_wf(m, w, sp);
        lemma_move_keeps_windows(m, w, sp, windows);
        if x != w && m[x].parent != Some(sp) {
            let k = choose|k: int| i <= k < windows.len() && windows[k] == x;
            assert(i + 1 <= k < windows.len() && windows[k] == x);
        }
        hiding_hides_all(d, windows, sp, i + 1, x);
    }
}

/// Showing puts every window onto the workspace.
pub proof fn showing_shows_all(m: Nodes, windows: Seq<u128>, ws: u128, i: int, x: u128)
    requires
        wf(m),
        m.contains_key(ws),
        !m[ws].kind.spec_is_window(),
        are_windows(m, windows),
        0 <= i,
        shown_from(m, windows, ws, i).error is None,
        m.contains_key(x),
        m[x].parent == Some(ws) || exists|k: int| i <= k < windows.len() && windows[k] == x,
    ensures
        shown_from(m, windows, ws, i).tree.contains_key(x),
        shown_from(m, windows, ws, i).tree[x].parent == Some(ws),
    decreases windows.len() - i,
{
    if i < windows.len() {
        let w = windows[i];
        assert(m.contains_key(windows[i]));
        assert(node_linked(m, w));
        let d = moved_to_workspace(m, w, ws);
        lemma_moved_wf(m, w, ws);
        lemma_move_keeps_windows(m, w, ws, windows);
        if x != w && m[x].parent != Some(ws) {
            let k = choose|k: int| i <= k < windows.len() && windows[k] == x;
            assert(i + 1 <= k < windows.len() && windows[k] == x);
        }
        showing_shows_all(d, windows, ws, i + 1, x);
    }
}

/// A window that is moved to a workspace is its last child and the last in its
/// focus order. Everything else there keeps its order, and so does what it left.
pub proof fn moved_windows_come_last(m: Nodes, w: u128, ws: u128, x: u128)
    requires
        wf(m),
        can_move(m, w, ws),
        m.contains_key(x),
    ensures
        ({
            let d = moved_to_workspace(m, w, ws);
            &&& d[w].parent == Some(ws)
            &&& d[ws].children == m[ws].children.filter(|c: u128| c != w).push(w)
            &&& d[ws].focus_order == m[ws].focus_order.filter(|c: u128| c != w).push(w)
            &&& x != ws && x != w ==> d[x].children == m[x].children.filter(|c: u128| c != w)
                && d[x].focus_order == m[x].focus_order.filter(|c: u128| c != w) && d[x].parent
                == m[x].parent
        }),
{
    let keep = |c: u128| c != w;
    let p = m[w].parent->0;
    lemma_parent_is_higher(m, w);
    assert(node_linked(m, p));
    assert(node_linked(m, ws));
    assert(node_linked(m, x));
    assert(node_linked(m, w));
    assert(m[p].focus_order.contains(w));
    assert(x != p ==> !m[x].children.contains(w) && !m[x].focus_order.contains(w));
    assert(ws != p ==> !m[ws].children.contains(w) && !m[ws].focus_order.contains(w));
    lemma_filter_one(m[p].children, w);
    lemma_filter_one(m[p].focus_order, w);
    lemma_filter_none(m[x].children, w);
    lemma_filter_none(m[x].focus_order, w);
    lemma_filter_none(m[ws].children, w);
    lemma_filter_none(m[ws].focus_order, w);
    let d = detached(m, w);
    let a = moved_to_workspace(m, w, ws);
    assert(a[ws].children =~= d[ws].children.push(w));
    assert(a[ws].focus_order =~= d[ws].focus_order.push(w));
}

proof fn lemma_filter_none(ids: Seq<u128>, w: u128)
    ensures
        !ids.contains(w) ==> ids.filter(|c: u128| c != w) == ids,
    decreases ids.len(),
{
    reveal(Seq::filter);
    if ids.len() > 0 && !ids.contains(w) {
        let rest = ids.drop_last();
        assert(!rest.contains(w)) by {
            if rest.contains(w) {
                let k = choose|k: int| 0 <= k < rest.len() && rest[k] == w;
                assert(ids[k] == w);
            }
        }
        lemma_filter_none(rest, w);
        assert(ids[ids.len() - 1] != w);
        assert(ids =~= rest.push(ids.last()));
    }
}

proof fn lemma_filter_one(ids: Seq<u128>, w: u128)
    requires
        ids.no_duplicates(),
        ids.contains(w),
    ensures
        ids.filter(|c: u128| c != w) == crate::tree::without(ids, w),
    decreases ids.len(),
{
    reveal(Seq::filter);
    let rest = ids.drop_last();
    let k = choose|k: int| 0 <= k < ids.len() && ids[k] == w;
    crate::tree::lemma_index_of(ids, w, k);
    assert(rest.no_duplicates());
    if ids.last() == w {
        assert(!rest.contains(w));
        lemma_filter_none(rest, w);
        assert(crate::tree::without(ids, w) =~= rest);
    } else {
        assert(rest[k] == w);
        lemma_filter_one(rest, w);
        crate::tree::lemma_index_of(rest, w, k);
        assert(crate::tree::without(ids, w) =~= crate::tree::without(rest, w).push(ids.last()));
    }
}

/// A workspace that is looked for by its name has that name, and it is found if
/// there is one.
pub proof fn workspaces_are_found_by_their_names(m: Nodes, root: u128, name: Seq<char>, ws: u128)
    requires
        wf(m),
        m.contains_key(root),
    ensures
        workspace_called(m, root, name) matches Some(x) ==> m[x].kind == ContainerKind::Workspace
            && m[x].name == Some(name) && descendants(m, root).contains(x),
        descendants(m, root).contains(ws) && m[ws].kind == ContainerKind::Workspace && m[ws].name
            == Some(name) ==> workspace_called(m, root, name) is Some,
{
    let ids = descendants(m, root);
    let pred = is_workspace_called(m, name);
    crate::stack::lemma_first_where(ids, pred);
    if ids.contains(ws) && pred(ws) {
        let k = choose|k: int| 0 <= k < ids.len() && ids[k] == ws;
        crate::stack_laws::lemma_first_comes_first(ids, pred, k);
    }
}

/// The default place takes up four fifths of the width of a monitor and three
/// fifths of its height, and leaves as much room on one side as on the other.
pub proof fn default_places_are_in_the_middle(monitor: Rect)
    requires
        can_place_on(monitor),
        monitor.left <= monitor.right,
        monitor.top <= monitor.bottom,
    ensures
        ({
            let r = default_place(monitor);
            let width = r.right - r.left;
            let height = r.bottom - r.top;
            &&& 0 <= 4 * (monitor.right - monitor.left) - 5 * width < 5
            &&& 0 <= 3 * (monitor.bottom - monitor.top) - 5 * height < 5
            &&& 0 <= (monitor.right - r.right) - (r.left - monitor.left) <= 1
            &&& 0 <= (monitor.bottom - r.bottom) - (r.top - monitor.top) <= 1
        }),
{
}

/// Every window that is shown has its workspace put in order, and every window
/// that is hidden the workspace that it was on.
pub proof fn workspaces_are_put_in_order(m: Nodes, windows: Seq<u128>, ws: u128, i: int)
    requires
        0 <= i < windows.len(),
    ensures
        ({
            let w = windows[i];
            let run = shown_from(m, windows, ws, i);
            let rest = shown_from(moved_to_workspace(m, w, ws), windows, ws, i + 1);
            if m[w].kind != ContainerKind::NonTilingWindow {
                run.error == Some(ScratchpadError::NotNonTiling) && run.tree == m
            } else if m[w].parent is None {
                run.error == Some(ScratchpadError::NoParent) && run.tree == m
            } else {
                &&& run.error == rest.error
                &&& run.tree == rest.tree
                &&& run.reorder == seq![ws] + rest.reorder
            }
        }),
        ({
            let w = windows[i];
            let run = hidden_from(m, windows, ws, i);
            let rest = hidden_from(moved_to_workspace(m, w, ws), windows, ws, i + 1);
            match nearest(m, w, ContainerKind::Workspace) {
                None => run.error == Some(ScratchpadError::NoWorkspace) && run.tree == m,
                Some(from) => {
                    &&& run.error == rest.error
                    &&& run.tree == rest.tree
                    &&& run.reorder == seq![from] + rest.reorder
                },
            }
        }),
        shown_from(m, windows, ws, windows.len() as int) == (MoveRun {
            tree: m,
            reorder: Seq::empty(),
            error: None,
        }),
        hidden_from(m, windows, ws, windows.len() as int) == (MoveRun {
            tree: m,
            reorder: Seq::empty(),
            error: None,
        }),
{
}

/// A window is put away if it is anywhere below the scratchpad. Without a target
/// the focus stays where it is, and else it goes to the target.
pub proof fn windows_below_the_scratchpad_are_put_away(m: Nodes, sp: u128, w: u128)
    requires
        wf(m),
        m.contains_key(sp),
        m.contains_key(w),
    ensures
        m[w].parent == Some(sp) ==> is_stashed(m, sp, w),
        !is_stashed(m, sp, sp),
        is_stashed(m, sp, w) ==> m[w].parent is Some && (m[w].parent == Some(sp) || is_stashed(
            m,
            sp,
            m[w].parent->0,
        )),
        refocused_if_any(m, None) == m,
        refocused_if_any(m, Some(w)) == refocused(m, w),
{
    crate::tree_walks::descendants_are_all_below(m, sp, w);
    crate::tree_walks::descendants_are_all_below(m, sp, sp);
    crate::tree_walks::lemma_within_step(m, w, sp);
    crate::tree_walks::lemma_within_step(m, sp, sp);
    if m[w].parent is Some {
        lemma_parent_is_higher(m, w);
        crate::tree_walks::descendants_are_all_below(m, sp, m[w].parent->0);
    }
}

} // verus!
