//! Bringing the screen in line with the tree.

use vstd::prelude::*;

use crate::container::ContainerKind;
use crate::geometry::Rect;
use crate::reposition::{HideCorner, HideMethod, WindowZOrder};
use crate::sorting::{first_occurrences, is_stable_order, lemma_first_occurrences, stable_order,
    unique_ids};
use crate::stack::{lemma_descendants_contained, lemma_filter_step, lemma_focus_leaves_contained};
use crate::stack_laws::lemma_filter_picks;
use crate::tree::{descendant_focus_order, descendants, descendants_from, focus_leaves_from,
    nearest, position, wf, Nodes, Tree};
use crate::tree_walks::{descendants_are_all_below, focus_order_lists_all_leaves, is_within};
use crate::window_state::{DisplayState, WindowState};

verus! {

/// Why a redraw stopped.
#[derive(Clone, Copy, Debug, PartialEq, Eq, Structural)]
pub enum RedrawError {
    NoWorkspace,
    NoMonitor,
    NoHideCorner,
}

/// The window that was focused last on the workspace `ws`, if what was focused
/// last there is a window.
pub open spec fn focused_window_of(m: Nodes, ws: u128) -> Option<u128> {
    let order = descendant_focus_order(m, ws);
    if order.len() > 0 && m[order[0]].kind.spec_is_window() {
        Some(order[0])
    } else {
        None
    }
}

/// Picks the tiling and the floating windows in the same mode as `f`.
pub open spec fn matches_mode_of(m: Nodes, f: u128) -> spec_fn(u128) -> bool {
    |x: u128|
        m[x].kind.spec_is_window() && (m[x].state is Tiling || m[x].state is Floating)
            && m[x].state.spec_is_same_state(m[f].state)
}

/// The windows of the workspace `ws` that come forward with the one that was
/// focused last on it.
pub open spec fn front_windows(m: Nodes, ws: u128) -> Seq<u128> {
    match focused_window_of(m, ws) {
        Some(f) => descendants(m, ws).filter(matches_mode_of(m, f)),
        None => Seq::empty(),
    }
}

/// The same for each of several workspaces, one after the other.
pub open spec fn front_windows_of_all(m: Nodes, workspaces: Seq<u128>) -> Seq<u128>
    decreases workspaces.len(),
{
    if workspaces.len() == 0 {
        Seq::empty()
    } else {
        front_windows_of_all(m, workspaces.drop_last()) + front_windows(m, workspaces.last())
    }
}

/// The workspaces whose windows come forward: those queued for it, and the
/// focused one if the focus has changed.
pub open spec fn reordered_workspaces(
    queued: Seq<u128>,
    needs_focus_update: bool,
    focused_workspace: u128,
) -> Seq<u128> {
    first_occurrences(
        if needs_focus_update {
            queued.push(focused_workspace)
        } else {
            queued
        },
    )
}

fn focused_window_of_exec(tree: &Tree, ws: u128) -> (result: Option<u128>)
    requires
        wf(tree@),
        tree@.contains_key(ws),
    ensures
        result == focused_window_of(tree@, ws),
        result matches Some(f) ==> tree@.contains_key(f),
{
    let order = tree.descendant_focus_order(ws);
    if order.len() == 0 {
        return None;
    }
    proof {
        lemma_focus_leaves_contained(tree@, ws, 0);
        assert(focus_leaves_from(tree@, ws, 0).contains(order@[0]));
    }
    let first: u128 = order[0];
    if tree.get(first).kind.is_window() {
        Some(first)
    } else {
        None
    }
}

fn front_windows_exec(tree: &Tree, ws: u128) -> (result: Vec<u128>)
    requires
        wf(tree@),
        tree@.contains_key(ws),
    ensures
        result@ == front_windows(tree@, ws),
{
    let ghost m = tree@;
    let f: u128 = match focused_window_of_exec(tree, ws) {
        Some(f) => f,
        None => {
            return Vec::new();
        },
    };
    let ghost pred = matches_mode_of(m, f);
    let mode = tree.get(f).state;
    let ids = tree.descendants(ws);
    let mut result: Vec<u128> = Vec::new();
    proof {
        reveal(Seq::filter);
        lemma_descendants_contained(m, ws, 0);
    }
    let mut i: usize = 0;
    while i < ids.len()
        invariant
            i <= ids@.len(),
            m == tree@,
            m.contains_key(f),
            mode == m[f].state,
            ids@ == descendants(m, ws),
            pred == matches_mode_of(m, f),
            forall|x: u128| #[trigger] descendants_from(m, ws, 0).contains(x) ==> m.contains_key(x),
            result@ == ids@.subrange(0, i as int).filter(pred),
        decreases ids@.len() - i,
    {
        let x: u128 = ids[i];
        proof {
            assert(descendants_from(m, ws, 0).contains(x));
            lemma_filter_step(ids@, pred, i as int);
        }
        let node = tree.get(x);
        if node.kind.is_window() && (node.state.is_tiling() || node.state.is_floating())
            && node.state.is_same_state(&mode) {
            result.push(x);
        }
        i = i + 1;
    }
    proof {
        assert(ids@.subrange(0, i as int) =~= ids@);
    }
    result
}

/// The windows that come to the front of their workspaces: those in the mode of
/// the window that was focused last there, if it is tiling or floating.
pub fn windows_to_bring_to_front(
    tree: &Tree,
    focused: u128,
    workspaces_to_reorder: &Vec<u128>,
    needs_focus_update: bool,
) -> (result: Result<Vec<u128>, RedrawError>)
    requires
        wf(tree@),
        tree@.contains_key(focused),
        forall|k: int|
            0 <= k < workspaces_to_reorder@.len() ==> tree@.contains_key(
                #[trigger] workspaces_to_reorder@[k],
            ),
    ensures
        match result {
            Ok(windows) => {
                let ws = nearest(tree@, focused, ContainerKind::Workspace);
                &&& ws is Some
                &&& windows@ == front_windows_of_all(
                    tree@,
                    reordered_workspaces(workspaces_to_reorder@, needs_focus_update, ws->0),
                )
            },
            Err(e) => {
                &&& e == RedrawError::NoWorkspace
                &&& nearest(tree@, focused, ContainerKind::Workspace) is None
            },
        },
{
    let ghost m = tree@;
    let ws: u128 = match tree.nearest(focused, ContainerKind::Workspace) {
        Some(ws) => ws,
        None => {
            return Err(RedrawError::NoWorkspace);
        },
    };
    let mut queued = workspaces_to_reorder.clone();
    proof {
        assert(queued@ =~= workspaces_to_reorder@);
    }
    if needs_focus_update {
        queued.push(ws);
    }
    let ghost all = queued@;
    let workspaces = unique_ids(queued);
    proof {
        lemma_first_occurrences(all);
        assert forall|k: int| 0 <= k < workspaces@.len() implies m.contains_key(
            #[trigger] workspaces@[k],
        ) by {
            assert(workspaces@.contains(workspaces@[k]));
            assert(all.contains(workspaces@[k]));
        }
    }
    let mut windows: Vec<u128> = Vec::new();
    let mut i: usize = 0;
    proof {
        assert(workspaces@.subrange(0, 0) =~= Seq::<u128>::empty());
    }
    while i < workspaces.len()
        invariant
            i <= workspaces@.len(),
            m == tree@,
            wf(m),
            forall|k: int|
                0 <= k < workspaces@.len() ==> m.contains_key(#[trigger] workspaces@[k]),
            windows@ == front_windows_of_all(m, workspaces@.subrange(0, i as int)),
        decreases workspaces@.len() - i,
    {
        let mut front = front_windows_exec(tree, workspaces[i]);
        windows.append(&mut front);
        proof {
            let next = workspaces@.subrange(0, i + 1);
            assert(next.drop_last() =~= workspaces@.subrange(0, i as int));
        }
        i = i + 1;
    }
    proof {
        assert(workspaces@.subrange(0, i as int) =~= workspaces@);
    }
    Ok(windows)
}

/// What a window is ordered by: how recently it was focused, with what never
/// was before all else.
pub open spec fn focus_key(order: Seq<u128>, id: u128) -> u64 {
    if order.contains(id) {
        (order.index_of(id) + 1) as u64
    } else {
        0
    }
}

pub open spec fn focus_keys(order: Seq<u128>, ids: Seq<u128>) -> Seq<u64> {
    ids.map_values(|id: u128| focus_key(order, id))
}

/// Whether `sorted` is `ids` in stable order of how recently each was focused.
pub open spec fn is_focus_sorted(order: Seq<u128>, ids: Seq<u128>, sorted: Seq<u128>) -> bool {
    exists|perm: Seq<usize>| #[trigger]
        is_stable_order(focus_keys(order, ids), perm) && perm.no_duplicates() && sorted == Seq::new(
            ids.len(),
            |i: int| ids[perm[i] as int],
        )
}

/// The windows to be redrawn or brought forward, each once, the most recently
/// focused first.
pub fn windows_to_update(
    tree: &Tree,
    root: u128,
    windows_to_redraw: &Vec<u128>,
    windows_to_bring_to_front: &Vec<u128>,
) -> (result: Vec<u128>)
    requires
        wf(tree@),
        tree@.contains_key(root),
    ensures
        is_focus_sorted(
            descendant_focus_order(tree@, root),
            first_occurrences(windows_to_redraw@ + windows_to_bring_to_front@),
            result@,
        ),
        result@.len() == first_occurrences(
            windows_to_redraw@ + windows_to_bring_to_front@,
        ).len(),
        forall|x: u128| #[trigger]
            result@.contains(x) <==> windows_to_redraw@.contains(x)
                || windows_to_bring_to_front@.contains(x),
        result@.no_duplicates(),
{
    let ghost m = tree@;
    let ghost focus = descendant_focus_order(m, root);
    let ghost all = windows_to_redraw@ + windows_to_bring_to_front@;
    proof {
        focus_order_lists_all_leaves(m, root, root);
    }
    let mut queued = windows_to_redraw.clone();
    let mut front = windows_to_bring_to_front.clone();
    proof {
        assert(queued@ =~= windows_to_redraw@);
        assert(front@ =~= windows_to_bring_to_front@);
    }
    queued.append(&mut front);
    let ids = unique_ids(queued);
    let order = tree.descendant_focus_order(root);
    let mut keys: Vec<u64> = Vec::new();
    let mut i: usize = 0;
    while i < ids.len()
        invariant
            i <= ids@.len(),
            order@ == focus,
            focus.no_duplicates(),
            keys@.len() == i,
            forall|k: int| 0 <= k < i ==> #[trigger] keys@[k] == focus_key(focus, ids@[k]),
        decreases ids@.len() - i,
    {
        let len: usize = order.len();
        let key: u64 = match position(&order, ids[i]) {
            Some(at) => {
                proof {
                    crate::tree::lemma_index_of(focus, ids@[i as int], at as int);
                }
                (at + 1) as u64
            },
            None => 0,
        };
        keys.push(key);
        i = i + 1;
    }
    proof {
        assert(keys@ =~= focus_keys(focus, ids@));
    }
    let perm = stable_order(&keys);
    let mut result: Vec<u128> = Vec::new();
    let mut k: usize = 0;
    while k < perm.len()
        invariant
            k <= perm@.len(),
            perm@.len() == ids@.len(),
            is_stable_order(keys@, perm@),
            keys@.len() == ids@.len(),
            result@.len() == k,
            forall|j: int| 0 <= j < k ==> #[trigger] result@[j] == ids@[perm@[j] as int],
        decreases perm@.len() - k,
    {
        result.push(ids[perm[k]]);
        k = k + 1;
    }
    proof {
        assert(result@ =~= Seq::new(ids@.len(), |i: int| ids@[perm@[i] as int]));
        lemma_first_occurrences(all);
        assert forall|x: u128| #[trigger] result@.contains(x) <==> ids@.contains(x) by {
            if result@.contains(x) {
                let j = choose|j: int| 0 <= j < result@.len() && result@[j] == x;
                assert(ids@[perm@[j] as int] == x);
            }
            if ids@.contains(x) {
                let j = choose|j: int| 0 <= j < ids@.len() && ids@[j] == x;
                assert(perm@.contains(j as usize));
                let q = choose|q: int| 0 <= q < perm@.len() && perm@[q] == j as usize;
                assert(result@[q] == x);
            }
        }
        assert forall|x: u128| #[trigger] all.contains(x) <==> windows_to_redraw@.contains(x)
            || windows_to_bring_to_front@.contains(x) by {
            let a = windows_to_redraw@;
            let b = windows_to_bring_to_front@;
            if all.contains(x) {
                let j = choose|j: int| 0 <= j < all.len() && all[j] == x;
                if j < a.len() {
                    assert(a[j] == x);
                } else {
                    assert(b[j - a.len()] == x);
                }
            }
            if a.contains(x) {
                let j = choose|j: int| 0 <= j < a.len() && a[j] == x;
                assert(all[j] == x);
            }
            if b.contains(x) {
                let j = choose|j: int| 0 <= j < b.len() && b[j] == x;
                assert(all[a.len() + j] == x);
            }
        }
        assert forall|a: int, b: int|
            0 <= a < result@.len() && 0 <= b < result@.len() && a != b implies result@[a]
            != result@[b] by {
            assert(perm@[a] != perm@[b]);
            assert(ids@[perm@[a] as int] != ids@[perm@[b] as int]);
        }
    }
    result
}

/// The place of the window `w` among the others: topmost if its mode asks for
/// it; else, when it comes forward, right behind the window that was focused
/// last on its workspace.
pub open spec fn z_order_of(m: Nodes, w: u128, ws: u128, comes_forward: bool) -> WindowZOrder {
    if m[w].state.spec_is_topmost() {
        WindowZOrder::TopMost
    } else if comes_forward {
        match focused_window_of(m, ws) {
            Some(f) => if f == w {
                WindowZOrder::Normal
            } else {
                WindowZOrder::AfterWindow(m[f].handle)
            },
            None => WindowZOrder::Normal,
        }
    } else {
        WindowZOrder::Normal
    }
}

/// The corner that hidden windows go to on one monitor.
#[derive(Clone, Copy, Debug, PartialEq, Eq, Structural)]
pub struct MonitorCorner {
    pub monitor: u128,
    pub corner: HideCorner,
}

/// The corner that `corners` gives for `monitor`, from the entry at `i` on.
pub open spec fn corner_from(
    corners: Seq<MonitorCorner>,
    monitor: u128,
    i: int,
) -> Option<HideCorner>
    decreases corners.len() - i,
{
    if i < 0 || i >= corners.len() {
        None
    } else if corners[i].monitor == monitor {
        Some(corners[i].corner)
    } else {
        corner_from(corners, monitor, i + 1)
    }
}

/// What is to be done to one window in a redraw.
#[derive(Clone, Copy, Debug, PartialEq, Eq, Structural)]
pub struct RedrawStep {
    pub window: u128,
    pub workspace: u128,
    pub monitor: u128,
    pub hide_corner: HideCorner,
    pub z_order: WindowZOrder,
    /// Whether the window is only to be moved to `z_order`.
    pub set_z_order: bool,
    /// Whether the window is to be positioned.
    pub redraw: bool,
}

/// What is to be done to the window `w`, or what is missing for it.
pub open spec fn redraw_step(
    m: Nodes,
    w: u128,
    redraw: Seq<u128>,
    front: Seq<u128>,
    corners: Seq<MonitorCorner>,
) -> Result<RedrawStep, RedrawError> {
    match nearest(m, w, ContainerKind::Workspace) {
        None => Err(RedrawError::NoWorkspace),
        Some(ws) => match nearest(m, w, ContainerKind::Monitor) {
            None => Err(RedrawError::NoMonitor),
            Some(monitor) => match corner_from(corners, monitor, 0) {
                None => Err(RedrawError::NoHideCorner),
                Some(hide_corner) => Ok(
                    RedrawStep {
                        window: w,
                        workspace: ws,
                        monitor,
                        hide_corner,
                        z_order: z_order_of(m, w, ws, front.contains(w)),
                        set_z_order: front.contains(w) && !redraw.contains(w),
                        redraw: redraw.contains(w),
                    },
                ),
            },
        },
    }
}

fn find_corner(corners: &Vec<MonitorCorner>, monitor: u128) -> (result: Option<HideCorner>)
    ensures
        result == corner_from(corners@, monitor, 0),
{
    let mut i: usize = 0;
    while i < corners.len()
        invariant
            i <= corners@.len(),
            corner_from(corners@, monitor, i as int) == corner_from(corners@, monitor, 0),
        decreases corners@.len() - i,
    {
        if corners[i].monitor == monitor {
            return Some(corners[i].corner);
        }
        i = i + 1;
    }
    None
}

fn redraw_step_exec(
    tree: &Tree,
    w: u128,
    redraw: &Vec<u128>,
    front: &Vec<u128>,
    corners: &Vec<MonitorCorner>,
) -> (result: Result<RedrawStep, RedrawError>)
    requires
        wf(tree@),
        tree@.contains_key(w),
    ensures
        result == redraw_step(tree@, w, redraw@, front@, corners@),
{
    let comes_forward: bool = match position(front, w) {
        Some(_) => true,
        None => false,
    };
    let is_redrawn: bool = match position(redraw, w) {
        Some(_) => true,
        None => false,
    };
    let ws: u128 = match tree.nearest(w, ContainerKind::Workspace) {
        Some(ws) => ws,
        None => {
            return Err(RedrawError::NoWorkspace);
        },
    };
    let monitor: u128 = match tree.nearest(w, ContainerKind::Monitor) {
        Some(monitor) => monitor,
        None => {
            return Err(RedrawError::NoMonitor);
        },
    };
    let hide_corner: HideCorner = match find_corner(corners, monitor) {
        Some(corner) => corner,
        None => {
            return Err(RedrawError::NoHideCorner);
        },
    };
    let z_order: WindowZOrder = if tree.get(w).state.is_topmost() {
        WindowZOrder::TopMost
    } else if comes_forward {
        match focused_window_of_exec(tree, ws) {
            Some(f) => if f == w {
                WindowZOrder::Normal
            } else {
                WindowZOrder::AfterWindow(tree.get(f).handle)
            },
            None => WindowZOrder::Normal,
        }
    } else {
        WindowZOrder::Normal
    };
    Ok(
        RedrawStep {
            window: w,
            workspace: ws,
            monitor,
            hide_corner,
            z_order,
            set_z_order: comes_forward && !is_redrawn,
            redraw: is_redrawn,
        },
    )
}

/// What a redraw does, window by window, and what stopped it if something did.
#[derive(Debug)]
pub struct RedrawPlan {
    pub steps: Vec<RedrawStep>,
    pub error: Option<RedrawError>,
}

/// Plans a redraw of `windows`, from the last to the first, so that the most
/// recently focused window comes last. The first window with something missing
/// ends it.
pub fn redraw_containers(
    tree: &Tree,
    windows: &Vec<u128>,
    redraw: &Vec<u128>,
    front: &Vec<u128>,
    corners: &Vec<MonitorCorner>,
) -> (plan: RedrawPlan)
    requires
        wf(tree@),
        forall|k: int| 0 <= k < windows@.len() ==> tree@.contains_key(#[trigger] windows@[k]),
    ensures
        plan.steps@.len() <= windows@.len(),
        forall|k: int|
            0 <= k < plan.steps@.len() ==> redraw_step(
                tree@,
                windows@[windows@.len() - 1 - k],
                redraw@,
                front@,
                corners@,
            ) == Ok::<RedrawStep, RedrawError>(#[trigger] plan.steps@[k]),
        match plan.error {
            None => plan.steps@.len() == windows@.len(),
            Some(e) => plan.steps@.len() < windows@.len() && redraw_step(
                tree@,
                windows@[windows@.len() - 1 - plan.steps@.len()],
                redraw@,
                front@,
                corners@,
            ) == Err::<RedrawStep, RedrawError>(e),
        },
{
    let mut steps: Vec<RedrawStep> = Vec::new();
    let n: usize = windows.len();
    let mut i: usize = n;
    while i > 0
        invariant
            i <= n,
            n == windows@.len(),
            wf(tree@),
            forall|k: int| 0 <= k < windows@.len() ==> tree@.contains_key(#[trigger] windows@[k]),
            steps@.len() == n - i,
            forall|k: int|
                0 <= k < steps@.len() ==> redraw_step(
                    tree@,
                    windows@[windows@.len() - 1 - k],
                    redraw@,
                    front@,
                    corners@,
                ) == Ok::<RedrawStep, RedrawError>(#[trigger] steps@[k]),
        decreases i,
    {
        match redraw_step_exec(tree, windows[i - 1], redraw, front, corners) {
            Ok(step) => {
                steps.push(step);
            },
            Err(e) => {
                return RedrawPlan { steps, error: Some(e) };
            },
        }
        i = i - 1;
    }
    RedrawPlan { steps, error: None }
}

/// What is known of a window that is about to be redrawn.
#[derive(Clone, Copy, Debug, PartialEq, Eq, Structural)]
pub struct WindowSnapshot {
    pub state: WindowState,
    pub prev_state: Option<WindowState>,
    pub display_state: DisplayState,
    /// Whether its workspace is displayed.
    pub is_displayed: bool,
    /// Where it is to go.
    pub target_rect: Rect,
    /// Where it was last sent, if it was ever drawn.
    pub previous_target: Option<Rect>,
    /// Whether its mode has just changed.
    pub is_state_change: bool,
    /// Whether its workspace is being switched away from.
    pub is_outgoing_switch: bool,
    /// Whether it is shown by an overlay while its workspace slides in.
    pub is_frozen_by_switch: bool,
}

/// The settings that redraws go by.
#[derive(Clone, Copy, Debug, PartialEq, Eq, Structural)]
pub struct RedrawSettings {
    pub suppress_animations: bool,
    pub resize_animation: bool,
    pub move_animation: bool,
    pub open_animation: bool,
    pub hide_method: HideMethod,
    pub show_all_in_taskbar: bool,
}

/// What a redraw has decided of a window before its animation is looked at.
#[derive(Clone, Copy, Debug, PartialEq, Eq, Structural)]
pub struct WindowPlan {
    pub display_state: DisplayState,
    pub is_visible: bool,
    /// Whether the window changes in size.
    pub is_resize: bool,
    /// Whether the animation that it calls for is switched on.
    pub anim_enabled: bool,
    /// Whether the animation of a new window starts.
    pub starts_open_animation: bool,
}

/// Whether a window that goes from `previous` to `target` changes in size.
pub open spec fn changes_size(previous: Option<Rect>, target: Rect) -> bool {
    previous matches Some(prev) && !prev.same_size(target)
}

pub open spec fn window_plan(w: WindowSnapshot, s: RedrawSettings) -> WindowPlan {
    let display_state = w.display_state.spec_transition(w.is_displayed);
    let is_resize = changes_size(w.previous_target, w.target_rect);
    WindowPlan {
        display_state,
        is_visible: w.is_displayed,
        is_resize,
        anim_enabled: if is_resize {
            s.resize_animation
        } else {
            s.move_animation
        },
        starts_open_animation: {
            &&& w.previous_target is None
            &&& w.is_displayed
            &&& !(w.state is Floating)
            &&& !(w.state is Fullscreen)
            &&& !w.is_outgoing_switch
            &&& !w.is_frozen_by_switch
            &&& !s.suppress_animations
            &&& s.open_animation
        },
    }
}

/// Decides what becomes of a window that is redrawn, up to its animation.
pub fn plan_window(w: &WindowSnapshot, s: &RedrawSettings) -> (result: WindowPlan)
    requires
        w.target_rect.measurable(),
        w.previous_target matches Some(prev) ==> prev.measurable(),
    ensures
        result == window_plan(*w, *s),
{
    let display_state = w.display_state.transition(w.is_displayed);
    let is_visible: bool = display_state.is_visible();
    let is_resize: bool = match w.previous_target {
        Some(prev) => prev.differs_in_size(&w.target_rect),
        None => false,
    };
    let anim_enabled: bool = if is_resize {
        s.resize_animation
    } else {
        s.move_animation
    };
    let starts_open_animation: bool = w.previous_target.is_none() && is_visible
        && !w.state.is_floating() && !w.state.is_fullscreen() && !w.is_outgoing_switch
        && !w.is_frozen_by_switch && !s.suppress_animations && s.open_animation;
    WindowPlan { display_state, is_visible, is_resize, anim_enabled, starts_open_animation }
}

/// Whether the window goes where its animation has it, and not straight to its
/// target. A window that a workspace switch has taken over stays with it.
pub open spec fn uses_animation(w: WindowSnapshot, s: RedrawSettings, has_slide_in: bool) -> bool {
    let anim_enabled = window_plan(w, s).anim_enabled;
    &&& !w.is_outgoing_switch
    &&& {
        ||| w.is_frozen_by_switch
        ||| {
            &&& !(w.state is Fullscreen)
            &&& !s.suppress_animations
            &&& {
                ||| !(w.state is Floating) && anim_enabled
                ||| w.is_state_change && anim_enabled
                ||| has_slide_in
            }
        }
    }
}

/// How the position of a window is found.
#[derive(Clone, Copy, Debug, PartialEq, Eq, Structural)]
pub enum PositionSource {
    /// The window is not moved while a workspace switch shows it.
    FrozenBySwitch,
    /// The animation that is running or has to be started tells.
    Animation,
    /// Any animation of it is cancelled, and it goes to its target.
    Target,
}

/// Decides how the position of a window is found, once it is known whether an
/// animation of it is under way (`has_slide_in`).
pub fn position_source(
    w: &WindowSnapshot,
    s: &RedrawSettings,
    plan: &WindowPlan,
    has_slide_in: bool,
) -> (result: PositionSource)
    requires
        *plan == window_plan(*w, *s),
    ensures
        result == (if !uses_animation(*w, *s, has_slide_in) {
            PositionSource::Target
        } else if w.is_frozen_by_switch {
            PositionSource::FrozenBySwitch
        } else {
            PositionSource::Animation
        }),
{
    let uses: bool = !w.is_outgoing_switch && (w.is_frozen_by_switch || (!w.state.is_fullscreen()
        && !s.suppress_animations && ((!w.state.is_floating() && plan.anim_enabled) || (
    w.is_state_change && plan.anim_enabled) || has_slide_in)));
    if !uses {
        PositionSource::Target
    } else if w.is_frozen_by_switch {
        PositionSource::FrozenBySwitch
    } else {
        PositionSource::Animation
    }
}

/// Where a window is sent.
#[derive(Clone, Copy, Debug, PartialEq, Eq, Structural)]
pub struct SizeCheck {
    pub previous: Option<Rect>,
    /// Nothing where its place cannot be told.
    pub target: Option<Rect>,
}

/// Whether the window described by `c` changes in size.
pub open spec fn resizes(c: SizeCheck) -> bool {
    c.target matches Some(target) && changes_size(c.previous, target)
}

/// Whether any window of a redraw changes in size. The others then move in time
/// with it.
pub fn cycle_has_resize(checks: &Vec<SizeCheck>) -> (result: bool)
    requires
        forall|k: int|
            0 <= k < checks@.len() ==> {
                &&& (#[trigger] checks@[k]).target matches Some(t) ==> t.measurable()
                &&& checks@[k].previous matches Some(p) ==> p.measurable()
            },
    ensures
        result == exists|k: int| 0 <= k < checks@.len() && resizes(#[trigger] checks@[k]),
{
    let mut i: usize = 0;
    while i < checks.len()
        invariant
            i <= checks@.len(),
            forall|k: int|
                0 <= k < checks@.len() ==> {
                    &&& (#[trigger] checks@[k]).target matches Some(t) ==> t.measurable()
                    &&& checks@[k].previous matches Some(p) ==> p.measurable()
                },
            forall|k: int| 0 <= k < i ==> !resizes(#[trigger] checks@[k]),
        decreases checks@.len() - i,
    {
        let c = checks[i];
        if let (Some(target), Some(previous)) = (c.target, c.previous) {
            if previous.differs_in_size(&target) {
                proof {
                    assert(resizes(checks@[i as int]));
                }
                return true;
            }
        }
        i = i + 1;
    }
    false
}

/// What happens to a window whose place is taken by an overlay.
#[derive(Clone, Copy, Debug, PartialEq, Eq, Structural)]
pub struct FrozenPlan {
    /// Whether the overlay's own overlays are put in place, the overlay is
    /// shown and the window is queued to be cloaked.
    pub queue_cloak: bool,
    pub upsert_blur: bool,
    pub upsert_border: bool,
}

/// What is known of the session that animates a window.
#[derive(Clone, Copy, Debug, PartialEq, Eq, Structural)]
pub struct SessionSnapshot {
    pub is_cloaked: bool,
    pub has_blur: bool,
    pub has_border: bool,
    pub has_anchor: bool,
    pub has_rect: bool,
}

/// Decides what is done for a window whose place is taken by an overlay. Once
/// it is cloaked there is nothing left to do.
pub fn plan_frozen(session: Option<SessionSnapshot>, is_cloaked: bool) -> (result: FrozenPlan)
    ensures
        result.queue_cloak == (!(session matches Some(s) && s.is_cloaked) && !is_cloaked),
        result.upsert_blur == (result.queue_cloak && (session matches Some(s) && s.has_blur
            && s.has_anchor && s.has_rect)),
        result.upsert_border == (result.queue_cloak && (session matches Some(s) && s.has_border
            && s.has_anchor && s.has_rect)),
{
    match session {
        Some(s) => {
            let queue_cloak: bool = !s.is_cloaked && !is_cloaked;
            let placed: bool = s.has_anchor && s.has_rect;
            FrozenPlan {
                queue_cloak,
                upsert_blur: queue_cloak && s.has_blur && placed,
                upsert_border: queue_cloak && s.has_border && placed,
            }
        },
        None => FrozenPlan { queue_cloak: !is_cloaked, upsert_blur: false, upsert_border: false },
    }
}

/// What happens to a window that is moved itself.
#[derive(Clone, Copy, Debug, PartialEq, Eq, Structural)]
pub struct ApplyPlan {
    /// Whether an overlay counts as standing in for it.
    pub has_surrogate: bool,
    /// Whether it is repositioned at all.
    pub reposition: bool,
    /// Whether the redraw waits for a frame at its end.
    pub needs_flush: bool,
    /// Whether it is uncloaked, if repositioning has not seen to that, and the
    /// overlay of a finished switch is hidden.
    pub reveal: bool,
}

/// Decides what is done for a window that is moved itself. One that was put in
/// place when its animation ended is left there.
pub fn plan_apply(
    is_visible: bool,
    has_session: bool,
    is_pending_cleanup: bool,
    was_pre_committed: bool,
) -> (result: ApplyPlan)
    ensures
        result.has_surrogate == (has_session || (is_visible && is_pending_cleanup)),
        result.reposition == !(is_visible && was_pre_committed),
        result.needs_flush == (is_visible && !was_pre_committed),
        result.reveal == is_visible,
{
    let already_positioned: bool = is_visible && was_pre_committed;
    ApplyPlan {
        has_surrogate: has_session || (is_visible && is_pending_cleanup),
        reposition: !already_positioned,
        needs_flush: !already_positioned && is_visible,
        reveal: is_visible,
    }
}

/// What is told to the shell of a window that was redrawn.
#[derive(Clone, Copy, Debug, PartialEq, Eq, Structural)]
pub struct ShellMarks {
    /// Whether to mark it as fullscreen, or to take the mark away.
    pub mark_fullscreen: Option<bool>,
    /// Whether to show it in the taskbar, or to take it away.
    pub taskbar_visibility: Option<bool>,
}

pub open spec fn shell_marks(w: WindowSnapshot, s: RedrawSettings) -> ShellMarks {
    let display_state = window_plan(w, s).display_state;
    ShellMarks {
        mark_fullscreen: if w.state is Fullscreen {
            Some(true)
        } else if w.prev_state matches Some(prev) && prev is Fullscreen {
            Some(false)
        } else {
            None
        },
        taskbar_visibility: if s.hide_method == HideMethod::Cloak && !s.show_all_in_taskbar && (
        display_state is Showing || display_state is Hiding) {
            Some(w.is_displayed)
        } else {
            None
        },
    }
}

/// Decides what is told to the shell of a window that was redrawn.
pub fn plan_shell_marks(w: &WindowSnapshot, s: &RedrawSettings, plan: &WindowPlan) -> (result:
    ShellMarks)
    requires
        *plan == window_plan(*w, *s),
    ensures
        result == shell_marks(*w, *s),
{
    let was_fullscreen: bool = match w.prev_state {
        Some(prev) => prev.is_fullscreen(),
        None => false,
    };
    let mark_fullscreen: Option<bool> = if w.state.is_fullscreen() {
        Some(true)
    } else if was_fullscreen {
        Some(false)
    } else {
        None
    };
    let is_changing: bool = match plan.display_state {
        DisplayState::Showing => true,
        DisplayState::Hiding => true,
        _ => false,
    };
    let taskbar_visibility: Option<bool> = if s.hide_method == HideMethod::Cloak
        && !s.show_all_in_taskbar && is_changing {
        Some(plan.is_visible)
    } else {
        None
    };
    ShellMarks { mark_fullscreen, taskbar_visibility }
}

/// What happens to the overlay of one kind that follows a running session.
#[derive(Clone, Copy, Debug, PartialEq, Eq, Structural)]
pub enum SessionOverlay {
    Leave,
    Upsert,
    Hide,
}

/// Decides what happens to an overlay that follows a running session: those of
/// a window that closes are followed elsewhere.
pub fn session_overlay(
    is_closing: bool,
    has_params: bool,
    has_anchor: bool,
    has_rect: bool,
) -> (result: SessionOverlay)
    ensures
        result == (if is_closing || !has_params {
            SessionOverlay::Leave
        } else if has_anchor && has_rect {
            SessionOverlay::Upsert
        } else {
            SessionOverlay::Hide
        }),
{
    if is_closing || !has_params {
        SessionOverlay::Leave
    } else if has_anchor && has_rect {
        SessionOverlay::Upsert
    } else {
        SessionOverlay::Hide
    }
}

/// A fullscreen window goes straight to its target, whatever the settings,
/// unless a workspace switch shows it.
pub proof fn fullscreen_is_never_animated(w: WindowSnapshot, s: RedrawSettings, slide: bool)
    requires
        w.state is Fullscreen,
        !w.is_frozen_by_switch,
    ensures
        !uses_animation(w, s, slide),
        !window_plan(w, s).starts_open_animation,
{
}

/// The animation of a new window starts at most once: not after the window has
/// been sent anywhere.
pub proof fn open_animation_starts_once(w: WindowSnapshot, s: RedrawSettings)
    requires
        window_plan(w, s).starts_open_animation,
    ensures
        forall|next: WindowSnapshot|
            next.previous_target == Some(w.target_rect) ==> !(#[trigger] window_plan(
                next,
                s,
            )).starts_open_animation,
{
}

/// The windows of a workspace that come forward are all those in the mode of
/// the window that was focused last on it, if that tiles or floats.
pub proof fn windows_of_the_focused_mode_come_forward(m: Nodes, ws: u128, x: u128)
    requires
        wf(m),
        m.contains_key(ws),
    ensures
        ({
            let order = descendant_focus_order(m, ws);
            let f = order[0];
            let has_window = order.len() > 0 && (m[f].kind == ContainerKind::TilingWindow
                || m[f].kind == ContainerKind::NonTilingWindow);
            front_windows(m, ws).contains(x) <==> has_window && is_within(m, x, ws) && x != ws && (
            m[x].kind == ContainerKind::TilingWindow || m[x].kind
                == ContainerKind::NonTilingWindow) && (m[x].state is Tiling && m[f].state is Tiling
                || m[x].state is Floating && m[f].state is Floating)
        }),
{
    descendants_are_all_below(m, ws, x);
    if let Some(f) = focused_window_of(m, ws) {
        lemma_filter_picks(descendants(m, ws), matches_mode_of(m, f), x);
    }
}

proof fn lemma_front_of_all(m: Nodes, workspaces: Seq<u128>, x: u128)
    ensures
        front_windows_of_all(m, workspaces).contains(x) <==> exists|k: int|
            0 <= k < workspaces.len() && front_windows(m, #[trigger] workspaces[k]).contains(x),
    decreases workspaces.len(),
{
    if workspaces.len() > 0 {
        let d = workspaces.drop_last();
        lemma_front_of_all(m, d, x);
        let a = front_windows_of_all(m, d);
        let b = front_windows(m, workspaces.last());
        let all = front_windows_of_all(m, workspaces);
        assert(all == a + b);
        if all.contains(x) {
            let j = choose|j: int| 0 <= j < all.len() && all[j] == x;
            if j < a.len() {
                assert(a[j] == x);
                let k = choose|k: int|
                    0 <= k < d.len() && front_windows(m, #[trigger] d[k]).contains(x);
                assert(workspaces[k] == d[k]);
            } else {
                assert(b[j - a.len()] == x);
                assert(workspaces[workspaces.len() - 1] == workspaces.last());
            }
        }
        if exists|k: int|
            0 <= k < workspaces.len() && front_windows(m, #[trigger] workspaces[k]).contains(x) {
            let k = choose|k: int|
                0 <= k < workspaces.len() && front_windows(m, #[trigger] workspaces[k]).contains(x);
            if k < d.len() {
                assert(d[k] == workspaces[k]);
                let j = choose|j: int| 0 <= j < a.len() && a[j] == x;
                assert(all[j] == x);
            } else {
                let j = choose|j: int| 0 <= j < b.len() && b[j] == x;
                assert(all[a.len() + j] == x);
            }
        }
    }
}

/// Windows come forward on the workspaces that are queued, and on the focused
/// one if the focus has changed; on no other.
pub proof fn only_reordered_workspaces_come_forward(
    m: Nodes,
    queued: Seq<u128>,
    needs_focus_update: bool,
    focused_workspace: u128,
    x: u128,
)
    ensures
        front_windows_of_all(
            m,
            reordered_workspaces(queued, needs_focus_update, focused_workspace),
        ).contains(x) <==> (needs_focus_update && front_windows(m, focused_workspace).contains(x))
            || exists|k: int|
            0 <= k < queued.len() && front_windows(m, #[trigger] queued[k]).contains(x),
{
    let all = if needs_focus_update {
        queued.push(focused_workspace)
    } else {
        queued
    };
    let once = reordered_workspaces(queued, needs_focus_update, focused_workspace);
    lemma_first_occurrences(all);
    lemma_front_of_all(m, once, x);
    if exists|k: int| 0 <= k < once.len() && front_windows(m, #[trigger] once[k]).contains(x) {
        let k = choose|k: int|
            0 <= k < once.len() && front_windows(m, #[trigger] once[k]).contains(x);
        assert(once.contains(once[k]));
        let j = choose|j: int| 0 <= j < all.len() && all[j] == once[k];
        if j < queued.len() {
            assert(queued[j] == once[k]);
        }
    }
    if exists|k: int| 0 <= k < queued.len() && front_windows(m, #[trigger] queued[k]).contains(x) {
        let k = choose|k: int|
            0 <= k < queued.len() && front_windows(m, #[trigger] queued[k]).contains(x);
        assert(all[k] == queued[k]);
        assert(once.contains(queued[k]));
        let j = choose|j: int| 0 <= j < once.len() && once[j] == queued[k];
        assert(front_windows(m, once[j]).contains(x));
    }
    if needs_focus_update && front_windows(m, focused_workspace).contains(x) {
        assert(all[queued.len() as int] == focused_workspace);
        assert(once.contains(focused_workspace));
        let j = choose|j: int| 0 <= j < once.len() && once[j] == focused_workspace;
        assert(front_windows(m, once[j]).contains(x));
    }
}

/// Of the windows to be updated, one that was focused more recently comes
/// before the others, and those that never were come before all.
pub proof fn recently_focused_windows_come_first(
    order: Seq<u128>,
    ids: Seq<u128>,
    sorted: Seq<u128>,
    i: int,
    j: int,
)
    requires
        is_focus_sorted(order, ids, sorted),
        order.len() < u64::MAX,
        0 <= i < j < sorted.len(),
    ensures
        !order.contains(sorted[j]) ==> !order.contains(sorted[i]),
        order.contains(sorted[i]) && order.contains(sorted[j]) ==> order.index_of(sorted[i])
            <= order.index_of(sorted[j]),
{
    let keys = focus_keys(order, ids);
    let perm = choose|perm: Seq<usize>| #[trigger]
        is_stable_order(keys, perm) && perm.no_duplicates() && sorted == Seq::new(
            ids.len(),
            |i: int| ids[perm[i] as int],
        );
    let (a, b) = (perm[i] as int, perm[j] as int);
    assert(sorted[i] == ids[a] && sorted[j] == ids[b]);
    assert(keys[a] <= keys[b]);
    assert(keys[a] == focus_key(order, ids[a]));
    assert(keys[b] == focus_key(order, ids[b]));
    if order.contains(ids[a]) {
        assert(order[order.index_of(ids[a])] == ids[a]);
    }
    if order.contains(ids[b]) {
        assert(order[order.index_of(ids[b])] == ids[b]);
    }
}

/// A window that is kept on top is topmost. Any other that comes forward goes
/// right behind the window that was focused last on its workspace, unless it is
/// that window; and the rest stay as they are.
pub proof fn windows_come_forward_behind_the_focused_one(
    m: Nodes,
    w: u128,
    ws: u128,
    comes_forward: bool,
)
    ensures
        ({
            let order = descendant_focus_order(m, ws);
            let on_top = (m[w].state matches WindowState::Floating(s) && s.shown_on_top) || (
            m[w].state matches WindowState::Fullscreen(s) && s.shown_on_top);
            let has_focused = order.len() > 0 && (m[order[0]].kind == ContainerKind::TilingWindow
                || m[order[0]].kind == ContainerKind::NonTilingWindow);
            let z = z_order_of(m, w, ws, comes_forward);
            &&& z == WindowZOrder::TopMost <==> on_top
            &&& !on_top && comes_forward && has_focused && order[0] != w ==> z
                == WindowZOrder::AfterWindow(m[order[0]].handle)
            &&& !on_top && !(comes_forward && has_focused && order[0] != w) ==> z
                == WindowZOrder::Normal
        }),
{
}

proof fn lemma_corner(corners: Seq<MonitorCorner>, monitor: u128, i: int, k: int)
    requires
        0 <= i <= k < corners.len(),
        corners[k].monitor == monitor,
        forall|j: int| i <= j < k ==> (#[trigger] corners[j]).monitor != monitor,
    ensures
        corner_from(corners, monitor, i) == Some(corners[k].corner),
    decreases k - i,
{
    if i < k {
        lemma_corner(corners, monitor, i + 1, k);
    }
}

/// A step of a redraw is about its window, on the workspace and the monitor
/// that hold it. The window is positioned exactly if it is to be redrawn, and
/// only moved among the others if it just comes forward.
pub proof fn steps_do_what_is_asked(
    m: Nodes,
    w: u128,
    redraw: Seq<u128>,
    front: Seq<u128>,
    corners: Seq<MonitorCorner>,
    k: int,
)
    ensures
        redraw_step(m, w, redraw, front, corners) matches Ok(step) ==> {
            &&& step.window == w
            &&& nearest(m, w, ContainerKind::Workspace) == Some(step.workspace)
            &&& nearest(m, w, ContainerKind::Monitor) == Some(step.monitor)
            &&& step.redraw <==> redraw.contains(w)
            &&& step.set_z_order <==> front.contains(w) && !redraw.contains(w)
            &&& 0 <= k < corners.len() && corners[k].monitor == step.monitor && (forall|j: int|
                0 <= j < k ==> (#[trigger] corners[j]).monitor != step.monitor)
                ==> step.hide_corner == corners[k].corner
        },
        redraw_step(m, w, redraw, front, corners) == Err::<RedrawStep, RedrawError>(
            RedrawError::NoWorkspace,
        ) <==> nearest(m, w, ContainerKind::Workspace) is None,
        redraw_step(m, w, redraw, front, corners) == Err::<RedrawStep, RedrawError>(
            RedrawError::NoMonitor,
        ) <==> nearest(m, w, ContainerKind::Workspace) is Some && nearest(
            m,
            w,
            ContainerKind::Monitor,
        ) is None,
        redraw_step(m, w, redraw, front, corners) == Err::<RedrawStep, RedrawError>(
            RedrawError::NoHideCorner,
        ) && 0 <= k < corners.len() ==> corners[k].monitor != nearest(
            m,
            w,
            ContainerKind::Monitor,
        )->0,
{
    let step = redraw_step(m, w, redraw, front, corners);
    if step is Ok {
        let monitor = step->Ok_0.monitor;
        if 0 <= k < corners.len() && corners[k].monitor == monitor && (forall|j: int|
            0 <= j < k ==> (#[trigger] corners[j]).monitor != monitor) {
            lemma_corner(corners, monitor, 0, k);
        }
    } else if step->Err_0 == RedrawError::NoHideCorner {
        let monitor = nearest(m, w, ContainerKind::Monitor)->0;
        if 0 <= k < corners.len() && corners[k].monitor == monitor {
            lemma_corner_missing(corners, monitor, 0, k);
        }
    }
}

proof fn lemma_corner_missing(corners: Seq<MonitorCorner>, monitor: u128, i: int, k: int)
    requires
        0 <= i <= k < corners.len(),
        corner_from(corners, monitor, i) is None,
    ensures
        corners[k].monitor != monitor,
    decreases k - i,
{
    if i < k {
        lemma_corner_missing(corners, monitor, i + 1, k);
    }
}

/// What a redraw decides of a window: it is visible exactly if its workspace is
/// displayed, it changes in size exactly if it was drawn in another size, and
/// that tells which animation it calls for. The animation of a new window
/// starts for one that was never drawn and tiles or is minimized, unless
/// something else animates it or that is switched off.
pub proof fn redrawn_windows_are_planned(w: WindowSnapshot, s: RedrawSettings)
    ensures
        ({
            let plan = window_plan(w, s);
            let prev = w.previous_target->0;
            let new_size = w.previous_target is Some && (prev.right - prev.left
                != w.target_rect.right - w.target_rect.left || prev.bottom - prev.top
                != w.target_rect.bottom - w.target_rect.top);
            &&& plan.is_visible == w.is_displayed
            &&& plan.is_resize == new_size
            &&& new_size ==> plan.anim_enabled == s.resize_animation
            &&& !new_size ==> plan.anim_enabled == s.move_animation
            &&& w.is_displayed <==> plan.display_state == DisplayState::Shown || plan.display_state
                == DisplayState::Showing
            &&& plan.starts_open_animation <==> w.previous_target is None && w.is_displayed && (
            w.state is Tiling || w.state is Minimized) && !w.is_outgoing_switch
                && !w.is_frozen_by_switch && s.open_animation && !s.suppress_animations
        }),
{
}

/// Which windows follow their animation: none that a switch takes away, each
/// that a switch shows, and otherwise, while animations are on, each that is
/// not fullscreen and is sliding in, tiles with its animation switched on, or
/// floats after a change of mode with its animation switched on.
pub proof fn animations_are_followed(w: WindowSnapshot, s: RedrawSettings, slide: bool)
    ensures
        w.is_outgoing_switch ==> !uses_animation(w, s, slide),
        !w.is_outgoing_switch && w.is_frozen_by_switch ==> uses_animation(w, s, slide),
        !w.is_outgoing_switch && !w.is_frozen_by_switch && (s.suppress_animations
            || w.state is Fullscreen) ==> !uses_animation(w, s, slide),
        !w.is_outgoing_switch && !s.suppress_animations && !(w.state is Fullscreen) && slide
            ==> uses_animation(w, s, slide),
        !w.is_outgoing_switch && !w.is_frozen_by_switch && !s.suppress_animations && !slide && (
        w.state is Tiling || w.state is Minimized) ==> uses_animation(w, s, slide) == window_plan(
            w,
            s,
        ).anim_enabled,
        !w.is_outgoing_switch && !w.is_frozen_by_switch && !s.suppress_animations && !slide
            && w.state is Floating ==> uses_animation(w, s, slide) == (window_plan(w, s).anim_enabled
            && w.is_state_change),
{
}

/// The shell is told of every fullscreen window, and of one that has ceased to
/// be. The taskbar follows the windows that come or go, if the rest are to be
/// out of it and windows are cloaked.
pub proof fn the_shell_is_told(w: WindowSnapshot, s: RedrawSettings)
    ensures
        ({
            let marks = shell_marks(w, s);
            let was_fullscreen = w.prev_state matches Some(prev) && prev is Fullscreen;
            let appears = w.is_displayed && w.display_state != DisplayState::Shown;
            let leaves = !w.is_displayed && w.display_state != DisplayState::Hidden;
            let follows = s.hide_method == HideMethod::Cloak && !s.show_all_in_taskbar;
            &&& w.state is Fullscreen ==> marks.mark_fullscreen == Some(true)
            &&& !(w.state is Fullscreen) && was_fullscreen ==> marks.mark_fullscreen == Some(false)
            &&& !(w.state is Fullscreen) && !was_fullscreen ==> marks.mark_fullscreen is None
            &&& follows && appears ==> marks.taskbar_visibility == Some(true)
            &&& follows && leaves ==> marks.taskbar_visibility == Some(false)
            &&& !follows || !(appears || leaves) ==> marks.taskbar_visibility is None
        }),
{
}

/// A window is resized exactly if it was sent somewhere in another size.
pub proof fn sizes_are_compared(c: SizeCheck)
    ensures
        resizes(c) <==> c.previous is Some && c.target is Some && (c.previous->0.right
            - c.previous->0.left != c.target->0.right - c.target->0.left || c.previous->0.bottom
            - c.previous->0.top != c.target->0.bottom - c.target->0.top),
{
}

} // verus!
