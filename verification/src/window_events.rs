//! What becomes of windows that are hidden or destroyed.

use vstd::prelude::*;

use crate::container::ContainerKind;
use crate::reposition::HideMethod;
use crate::tree::{detached, lemma_detached_wf, nearest, wf, Nodes, Tree};
use crate::window_lists::{lemma_windows_below, windows_below};
use crate::window_state::DisplayState;

verus! {

/// What a hidden window brings about.
#[derive(Clone, Copy, Debug, PartialEq, Eq, Structural)]
pub enum HiddenAction {
    Nothing,
    /// It was being hidden, and now is.
    MarkHidden,
    /// It is not managed any more.
    Unmanage,
}

/// Decides what becomes of a window that was reported hidden. A window that was
/// being hidden now is. One that an animation hides stays. Else it is given up,
/// if it was shown and really is hidden; windows in the corner are never being
/// hidden.
pub fn handle_window_hidden(
    hide_method: HideMethod,
    display_state: DisplayState,
    has_active_surrogate: bool,
    is_visible: Option<bool>,
) -> (result: HiddenAction)
    ensures
        result == (if hide_method != HideMethod::PlaceInCorner && display_state
            == DisplayState::Hiding {
            HiddenAction::MarkHidden
        } else if has_active_surrogate {
            HiddenAction::Nothing
        } else if (hide_method == HideMethod::PlaceInCorner || display_state
            == DisplayState::Shown) && is_visible != Some(true) {
            HiddenAction::Unmanage
        } else {
            HiddenAction::Nothing
        }),
{
    if hide_method != HideMethod::PlaceInCorner && display_state == DisplayState::Hiding {
        return HiddenAction::MarkHidden;
    }
    if has_active_surrogate {
        return HiddenAction::Nothing;
    }
    let visible: bool = match is_visible {
        Some(v) => v,
        None => false,
    };
    if (hide_method == HideMethod::PlaceInCorner || display_state == DisplayState::Shown)
        && !visible {
        HiddenAction::Unmanage
    } else {
        HiddenAction::Nothing
    }
}

/// The window stands on no workspace.
#[derive(Clone, Copy, Debug, PartialEq, Eq, Structural)]
pub struct NoWorkspace;

/// What a destroyed window brings about.
#[derive(Clone, Copy, Debug, PartialEq, Eq, Structural)]
pub enum DestroyedAction {
    /// It was not known.
    Nothing,
    /// It was managed, on this workspace.
    Unmanage { window: u128, workspace: u128 },
    /// It was put away, and has been taken out.
    Removed(u128),
}

/// Picks the windows with the given handle.
pub open spec fn has_handle(m: Nodes, handle: isize) -> spec_fn(u128) -> bool {
    |x: u128| m[x].handle == handle
}

/// The first of `windows` that has the given handle.
pub open spec fn with_handle(m: Nodes, windows: Seq<u128>, handle: isize) -> Option<u128> {
    crate::stack::first_where(windows, has_handle(m, handle))
}

proof fn lemma_first_where(windows: Seq<u128>, pred: spec_fn(u128) -> bool, i: int)
    requires
        0 <= i <= windows.len(),
        forall|k: int| 0 <= k < i ==> !pred(#[trigger] windows[k]),
    ensures
        i < windows.len() && pred(windows[i]) ==> crate::stack::first_where(windows, pred) == Some(
            windows[i],
        ),
        i == windows.len() ==> crate::stack::first_where(windows, pred) is None,
    decreases windows.len(),
{
    if windows.len() > 0 && i > 0 {
        let rest = windows.drop_first();
        assert(!pred(windows[0]));
        assert forall|k: int| 0 <= k < i - 1 implies !pred(#[trigger] rest[k]) by {
            assert(rest[k] == windows[k + 1]);
        }
        lemma_first_where(rest, pred, i - 1);
        if i < windows.len() {
            assert(rest[i - 1] == windows[i]);
        }
    }
}

fn find_window(tree: &Tree, id: u128, handle: isize) -> (result: Option<u128>)
    requires
        wf(tree@),
        tree@.contains_key(id),
    ensures
        result == with_handle(tree@, windows_below(tree@, id), handle),
        result matches Some(w) ==> tree@.contains_key(w) && tree@[w].kind.spec_is_window(),
{
    let windows = tree.windows_below(id);
    proof {
        assert forall|k: int| 0 <= k < windows@.len() implies tree@.contains_key(
            #[trigger] windows@[k],
        ) && tree@[windows@[k]].kind.spec_is_window() by {
            lemma_windows_below(tree@, id, k);
        }
    }
    let found = tree.window_with_handle(&windows, handle);
    proof {
        let pred = has_handle(tree@, handle);
        match found {
            Some(w) => {
                let i = choose|i: int|
                    0 <= i < windows@.len() && windows@[i] == w && tree@[#[trigger] windows@[i]].handle
                        == handle && forall|k: int|
                        0 <= k < i ==> tree@[#[trigger] windows@[k]].handle != handle;
                lemma_first_where(windows@, pred, i);
            },
            None => {
                lemma_first_where(windows@, pred, windows@.len() as int);
            },
        }
    }
    found
}

/// Deals with a window that was destroyed. `root` holds the managed windows,
/// `scratchpad` those that are put away; one of those is taken out.
pub fn handle_window_destroyed(tree: &mut Tree, handle: isize, root: u128, scratchpad: u128) -> (
    result: Result<DestroyedAction, NoWorkspace>)
    requires
        wf(old(tree)@),
        old(tree)@.contains_key(root),
        old(tree)@.contains_key(scratchpad),
    ensures
        wf(final(tree)@),
        ({
            let m = old(tree)@;
            let managed = with_handle(m, windows_below(m, root), handle);
            let stashed = with_handle(m, windows_below(m, scratchpad), handle);
            match managed {
                Some(w) => {
                    &&& final(tree)@ == m
                    &&& result == (match nearest(m, w, ContainerKind::Workspace) {
                        Some(ws) => Ok(
                            DestroyedAction::Unmanage { window: w, workspace: ws },
                        ),
                        None => Err(NoWorkspace),
                    })
                },
                None => match stashed {
                    Some(w) => {
                        &&& result == Ok::<DestroyedAction, NoWorkspace>(
                            DestroyedAction::Removed(w),
                        )
                        &&& final(tree)@ == (if m[w].parent is Some {
                            detached(m, w)
                        } else {
                            m
                        })
                    },
                    None => {
                        &&& result == Ok::<DestroyedAction, NoWorkspace>(DestroyedAction::Nothing)
                        &&& final(tree)@ == m
                    },
                },
            }
        }),
{
    if let Some(window) = find_window(tree, root, handle) {
        return match tree.nearest(window, ContainerKind::Workspace) {
            Some(workspace) => Ok(DestroyedAction::Unmanage { window, workspace }),
            None => Err(NoWorkspace),
        };
    }
    if let Some(window) = find_window(tree, scratchpad, handle) {
        if tree.get(window).parent.is_some() {
            proof {
                lemma_detached_wf(tree@, window);
            }
            tree.detach(window);
        }
        return Ok(DestroyedAction::Removed(window));
    }
    Ok(DestroyedAction::Nothing)
}

/// Whether a workspace goes once its last window was destroyed: it is not kept
/// alive, holds nothing and is not displayed.
pub fn deactivates_workspace(tree: &Tree, workspace: u128, keep_alive: bool, is_displayed: bool) -> (
    result: bool)
    requires
        tree@.contains_key(workspace),
    ensures
        result == (!keep_alive && tree@[workspace].children.len() == 0 && !is_displayed),
{
    !keep_alive && tree.get(workspace).children.len() == 0 && !is_displayed
}

/// A window is found by its handle: the first one that has it, if there is one.
pub proof fn windows_are_found_by_their_handles(m: Nodes, windows: Seq<u128>, handle: isize, i: int)
    requires
        0 <= i <= windows.len(),
        forall|k: int| 0 <= k < i ==> m[#[trigger] windows[k]].handle != handle,
    ensures
        i == windows.len() ==> with_handle(m, windows, handle) is None,
        i < windows.len() && m[windows[i]].handle == handle ==> with_handle(m, windows, handle)
            == Some(windows[i]),
{
    lemma_first_where(windows, has_handle(m, handle), i);
}

} // verus!
