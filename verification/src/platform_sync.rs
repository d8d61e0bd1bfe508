//! The order in which pending changes reach the desktop.

use vstd::prelude::*;

use crate::geometry::{Point, Rect};

verus! {

/// What is waiting to be brought to the desktop.
#[derive(Clone, Copy, Debug, PartialEq, Eq, Structural)]
pub struct PendingChanges {
    pub has_containers_to_redraw: bool,
    pub has_workspaces_to_reorder: bool,
    pub needs_focus_update: bool,
    pub needs_cursor_jump: bool,
    pub needs_focused_effect_update: bool,
    pub needs_all_effects_update: bool,
}

/// One part of a sync.
#[derive(Clone, Copy, Debug, PartialEq, Eq, Structural)]
pub enum SyncStage {
    Redraw,
    SyncFocus,
    JumpCursor,
    /// Sets the effects of the focused window, and of the windows that are not
    /// focused any more or, with `all`, of every other window.
    UpdateEffects { all: bool },
    SyncBlurOverlays { full_z_order_resync: bool },
    SyncBorderOverlays { full_z_order_resync: bool },
    ClearPending,
}

/// Nothing is focused.
#[derive(Clone, Copy, Debug, PartialEq, Eq, Structural)]
pub struct NoFocusedContainer;

/// The parts of a sync, in order.
pub open spec fn sync_stages(
    pending: PendingChanges,
    cursor_jump_enabled: bool,
    z_order_dirty: bool,
) -> Seq<SyncStage> {
    (if pending.has_containers_to_redraw || pending.has_workspaces_to_reorder {
        seq![SyncStage::Redraw]
    } else {
        Seq::empty()
    }) + (if pending.needs_focus_update {
        seq![SyncStage::SyncFocus]
    } else {
        Seq::empty()
    }) + (if pending.needs_cursor_jump && cursor_jump_enabled {
        seq![SyncStage::JumpCursor]
    } else {
        Seq::empty()
    }) + (if pending.needs_focused_effect_update || pending.needs_all_effects_update {
        seq![SyncStage::UpdateEffects { all: pending.needs_all_effects_update }]
    } else {
        Seq::empty()
    }) + seq![
        SyncStage::SyncBlurOverlays { full_z_order_resync: z_order_dirty },
        SyncStage::SyncBorderOverlays { full_z_order_resync: z_order_dirty },
        SyncStage::ClearPending,
    ]
}

/// Decides what a sync does up to the overlays: the parts that come before they
/// are looked at.
pub open spec fn early_stages(pending: PendingChanges, cursor_jump_enabled: bool) -> Seq<SyncStage> {
    sync_stages(pending, cursor_jump_enabled, false).take(
        sync_stages(pending, cursor_jump_enabled, false).len() - 3,
    )
}

/// Decides the parts of a sync that come before the overlays are synced.
pub fn platform_sync(
    has_focused_container: bool,
    pending: &PendingChanges,
    cursor_jump_enabled: bool,
) -> (result: Result<Vec<SyncStage>, NoFocusedContainer>)
    ensures
        match result {
            Ok(stages) => has_focused_container && stages@ == early_stages(
                *pending,
                cursor_jump_enabled,
            ),
            Err(_) => !has_focused_container,
        },
{
    if !has_focused_container {
        return Err(NoFocusedContainer);
    }
    let mut stages: Vec<SyncStage> = Vec::new();
    if pending.has_containers_to_redraw || pending.has_workspaces_to_reorder {
        stages.push(SyncStage::Redraw);
    }
    if pending.needs_focus_update {
        stages.push(SyncStage::SyncFocus);
    }
    if pending.needs_cursor_jump && cursor_jump_enabled {
        stages.push(SyncStage::JumpCursor);
    }
    if pending.needs_focused_effect_update || pending.needs_all_effects_update {
        stages.push(SyncStage::UpdateEffects { all: pending.needs_all_effects_update });
    }
    proof {
        assert(stages@ =~= early_stages(*pending, cursor_jump_enabled));
    }
    Ok(stages)
}

/// Decides how the overlays are synced. Both kinds go by what was noted while
/// windows were redrawn (`z_order_dirty`), and only then is the note cleared.
pub fn finish_sync(z_order_dirty: &mut bool) -> (stages: Vec<SyncStage>)
    ensures
        *final(z_order_dirty) == false,
        stages@ == seq![
            SyncStage::SyncBlurOverlays { full_z_order_resync: *old(z_order_dirty) },
            SyncStage::SyncBorderOverlays { full_z_order_resync: *old(z_order_dirty) },
            SyncStage::ClearPending,
        ],
{
    let full_z_order_resync: bool = *z_order_dirty;
    *z_order_dirty = false;
    let mut stages: Vec<SyncStage> = Vec::new();
    stages.push(SyncStage::SyncBlurOverlays { full_z_order_resync });
    stages.push(SyncStage::SyncBorderOverlays { full_z_order_resync });
    stages.push(SyncStage::ClearPending);
    proof {
        assert(stages@ =~= seq![
            SyncStage::SyncBlurOverlays { full_z_order_resync: *old(z_order_dirty) },
            SyncStage::SyncBorderOverlays { full_z_order_resync: *old(z_order_dirty) },
            SyncStage::ClearPending,
        ]);
    }
    stages
}

/// The focus is synced after windows are redrawn: a switch that a redraw sets
/// up can then keep the focus back.
pub proof fn focus_follows_redraw(
    pending: PendingChanges,
    cursor_jump_enabled: bool,
    z_order_dirty: bool,
    i: int,
    j: int,
)
    requires
        0 <= i < sync_stages(pending, cursor_jump_enabled, z_order_dirty).len(),
        0 <= j < sync_stages(pending, cursor_jump_enabled, z_order_dirty).len(),
        sync_stages(pending, cursor_jump_enabled, z_order_dirty)[i] == SyncStage::Redraw,
        sync_stages(pending, cursor_jump_enabled, z_order_dirty)[j] == SyncStage::SyncFocus,
    ensures
        i < j,
{
}

/// What is done about the native focus.
#[derive(Clone, Copy, Debug, PartialEq, Eq, Structural)]
pub enum FocusAction {
    /// The focus is left for when the animation that covers the window ends.
    Defer,
    FocusWindow(u128),
    FocusDesktop,
}

/// The focused container, as far as it is a window.
#[derive(Clone, Copy, Debug, PartialEq, Eq, Structural)]
pub struct FocusedWindow {
    pub id: u128,
    /// Whether a workspace switch is sliding it in.
    pub is_switch_incoming: bool,
    /// Whether a session animates it.
    pub has_resize_session: bool,
}

/// Decides what is done about the native focus, and whether the change is to be
/// announced. A container that is no window gives the focus to the desktop.
pub fn sync_focus(window: Option<FocusedWindow>, is_switch_active: bool) -> (result: FocusAction)
    ensures
        result == (match window {
            Some(w) => if (is_switch_active && w.is_switch_incoming) || w.has_resize_session {
                FocusAction::Defer
            } else {
                FocusAction::FocusWindow(w.id)
            },
            None => FocusAction::FocusDesktop,
        }),
{
    match window {
        Some(w) => {
            if (is_switch_active && w.is_switch_incoming) || w.has_resize_session {
                FocusAction::Defer
            } else {
                FocusAction::FocusWindow(w.id)
            }
        },
        None => FocusAction::FocusDesktop,
    }
}

impl FocusAction {
    /// The window whose place among the others has changed with the focus.
    pub fn touched_window(&self) -> (result: Option<u128>)
        ensures
            result == (match *self {
                FocusAction::FocusWindow(id) => Some(id),
                _ => None,
            }),
    {
        match *self {
            FocusAction::FocusWindow(id) => Some(id),
            _ => None,
        }
    }

    /// Whether the change of focus is announced.
    pub fn is_announced(&self) -> (result: bool)
        ensures
            result == (self !is Defer),
    {
        match *self {
            FocusAction::Defer => false,
            _ => true,
        }
    }
}

/// When the cursor follows the focus.
#[derive(Clone, Copy, Debug, PartialEq, Eq, Structural)]
pub enum CursorJumpTrigger {
    WindowFocus,
    MonitorFocus,
}

/// What the cursor jumps to.
#[derive(Clone, Copy, Debug, PartialEq, Eq, Structural)]
pub enum JumpTarget {
    FocusedContainer,
    Monitor(u128),
}

/// The focused container is on no monitor.
#[derive(Clone, Copy, Debug, PartialEq, Eq, Structural)]
pub struct NoFocusedMonitor;

/// Decides what the cursor jumps to, if it does. To a monitor it jumps only
/// from another one.
pub fn jump_cursor(
    trigger: CursorJumpTrigger,
    focused_monitor: Option<u128>,
    cursor_monitor: Option<u128>,
) -> (result: Result<Option<JumpTarget>, NoFocusedMonitor>)
    ensures
        match trigger {
            CursorJumpTrigger::WindowFocus => result == Ok::<Option<JumpTarget>, NoFocusedMonitor>(
                Some(JumpTarget::FocusedContainer),
            ),
            CursorJumpTrigger::MonitorFocus => match focused_monitor {
                None => result is Err,
                Some(target) => result == Ok::<Option<JumpTarget>, NoFocusedMonitor>(
                    if cursor_monitor matches Some(c) && c != target {
                        Some(JumpTarget::Monitor(target))
                    } else {
                        None
                    },
                ),
            },
        },
{
    match trigger {
        CursorJumpTrigger::WindowFocus => Ok(Some(JumpTarget::FocusedContainer)),
        CursorJumpTrigger::MonitorFocus => {
            let target: u128 = match focused_monitor {
                Some(target) => target,
                None => {
                    return Err(NoFocusedMonitor);
                },
            };
            match cursor_monitor {
                Some(c) => if c != target {
                    Ok(Some(JumpTarget::Monitor(target)))
                } else {
                    Ok(None)
                },
                None => Ok(None),
            }
        },
    }
}

/// Where the cursor lands in the place that it jumps to.
pub fn jump_position(rect: &Rect) -> (result: Point)
    requires
        rect.measurable(),
    ensures
        result == rect.spec_center(),
{
    rect.center_point()
}

/// Picks what is not `focused`.
pub open spec fn is_not(focused: u128) -> spec_fn(u128) -> bool {
    |id: u128| id != focused
}

/// The windows that get the effects of windows without the focus: all but the
/// focused one, or else only the one that had the effects of the focus last.
pub open spec fn unfocused_windows(
    all: bool,
    windows: Seq<u128>,
    prev_effects_window: Option<u128>,
    focused: u128,
) -> Seq<u128> {
    if all {
        windows.filter(is_not(focused))
    } else {
        match prev_effects_window {
            Some(w) => if w != focused {
                seq![w]
            } else {
                Seq::empty()
            },
            None => Seq::empty(),
        }
    }
}

/// The windows that get the effects of windows without the focus.
pub fn unfocused_effect_windows(
    all: bool,
    windows: &Vec<u128>,
    prev_effects_window: Option<u128>,
    focused: u128,
) -> (result: Vec<u128>)
    ensures
        result@ == unfocused_windows(all, windows@, prev_effects_window, focused),
{
    let mut result: Vec<u128> = Vec::new();
    if all {
        let ghost pred = is_not(focused);
        proof {
            reveal(Seq::filter);
        }
        let mut i: usize = 0;
        while i < windows.len()
            invariant
                i <= windows@.len(),
                pred == is_not(focused),
                result@ == windows@.subrange(0, i as int).filter(pred),
            decreases windows@.len() - i,
        {
            proof {
                crate::stack::lemma_filter_step(windows@, pred, i as int);
            }
            if windows[i] != focused {
                result.push(windows[i]);
            }
            i = i + 1;
        }
        proof {
            assert(windows@.subrange(0, i as int) =~= windows@);
        }
    } else if let Some(w) = prev_effects_window {
        if w != focused {
            result.push(w);
            proof {
                assert(result@ =~= seq![w]);
            }
        }
    }
    result
}

/// One step of an update of the effects.
#[derive(Clone, Copy, Debug, PartialEq, Eq, Structural)]
pub enum EffectUpdate {
    ApplyFocused(u128),
    ApplyUnfocused(u128),
    /// The alpha that an animation has brought the window to, in place of the
    /// one that its effects have just given it.
    SetAlpha { window: u128, alpha: u8 },
}

/// Turns an id into the step that gives it the effects of windows without the
/// focus.
pub open spec fn applied_unfocused() -> spec_fn(u128) -> EffectUpdate {
    |id: u128| EffectUpdate::ApplyUnfocused(id)
}

/// The steps of an update of the effects, in order.
pub open spec fn effect_updates(
    all: bool,
    windows: Seq<u128>,
    prev_effects_window: Option<u128>,
    focused: u128,
    is_window: bool,
    animated_alpha: Option<u8>,
) -> Seq<EffectUpdate> {
    (if is_window {
        seq![EffectUpdate::ApplyFocused(focused)]
    } else {
        Seq::empty()
    }) + unfocused_windows(all, windows, prev_effects_window, focused).map_values(
        applied_unfocused(),
    ) + (match animated_alpha {
        Some(alpha) => if is_window {
            seq![EffectUpdate::SetAlpha { window: focused, alpha }]
        } else {
            Seq::empty()
        },
        None => Seq::empty(),
    })
}

/// Decides how the effects are updated. `focused` is the focused container,
/// `animated_alpha` the alpha that an animation running on it has reached, if
/// it changes the alpha, and `prev_effects_window` the window that had the
/// effects of the focus last: from now on the focused one, if it is a window.
pub fn update_effects(
    all: bool,
    windows: &Vec<u128>,
    prev_effects_window: &mut Option<u128>,
    focused: u128,
    is_window: bool,
    animated_alpha: Option<u8>,
) -> (steps: Vec<EffectUpdate>)
    ensures
        *final(prev_effects_window) == (if is_window {
            Some(focused)
        } else {
            None
        }),
        steps@ == effect_updates(
            all,
            windows@,
            *old(prev_effects_window),
            focused,
            is_window,
            animated_alpha,
        ),
{
    let unfocused = unfocused_effect_windows(all, windows, *prev_effects_window, focused);
    let mut steps: Vec<EffectUpdate> = Vec::new();
    if is_window {
        steps.push(EffectUpdate::ApplyFocused(focused));
        *prev_effects_window = Some(focused);
    } else {
        *prev_effects_window = None;
    }
    let ghost first = steps@;
    let mut i: usize = 0;
    while i < unfocused.len()
        invariant
            i <= unfocused@.len(),
            steps@ =~= first + unfocused@.subrange(0, i as int).map_values(applied_unfocused()),
        decreases unfocused@.len() - i,
    {
        steps.push(EffectUpdate::ApplyUnfocused(unfocused[i]));
        i = i + 1;
    }
    proof {
        assert(unfocused@.subrange(0, i as int) =~= unfocused@);
    }
    if is_window {
        if let Some(alpha) = animated_alpha {
            steps.push(EffectUpdate::SetAlpha { window: focused, alpha });
        }
    }
    proof {
        assert(steps@ =~= effect_updates(
            all,
            windows@,
            *old(prev_effects_window),
            focused,
            is_window,
            animated_alpha,
        ));
    }
    steps
}

/// An animation that changes the alpha of the focused window has the last word
/// over the effects.
pub proof fn animated_alpha_comes_last(
    all: bool,
    windows: Seq<u128>,
    prev_effects_window: Option<u128>,
    focused: u128,
    alpha: u8,
)
    ensures
        effect_updates(all, windows, prev_effects_window, focused, true, Some(alpha)).last()
            == (EffectUpdate::SetAlpha { window: focused, alpha }),
        effect_updates(all, windows, prev_effects_window, focused, true, Some(alpha)).first()
            == EffectUpdate::ApplyFocused(focused),
{
}

/// What comes before the overlays: windows are redrawn first if some are to be
/// drawn or put in order, then the focus is synced, then the cursor jumps if it
/// may, and the effects come last.
pub proof fn changes_are_brought_in_order(pending: PendingChanges, cursor_jump_enabled: bool, i: int)
    ensures
        ({
            let s = early_stages(pending, cursor_jump_enabled);
            &&& s.len() <= 4
            &&& 0 <= i < s.len() ==> (match s[i] {
                SyncStage::Redraw => i == 0,
                SyncStage::SyncFocus => i <= 1,
                SyncStage::JumpCursor => i <= 2 && s.len() - 2 <= i,
                SyncStage::UpdateEffects { all } => i == s.len() - 1,
                _ => false,
            })
        }),
{
}

/// Each part of a sync comes exactly if it is asked for.
pub proof fn changes_are_brought_if_asked_for(
    pending: PendingChanges,
    cursor_jump_enabled: bool,
    stage: SyncStage,
)
    ensures
        early_stages(pending, cursor_jump_enabled).contains(stage) <==> (match stage {
            SyncStage::Redraw => pending.has_containers_to_redraw
                || pending.has_workspaces_to_reorder,
            SyncStage::SyncFocus => pending.needs_focus_update,
            SyncStage::JumpCursor => pending.needs_cursor_jump && cursor_jump_enabled,
            SyncStage::UpdateEffects { all } => (pending.needs_focused_effect_update
                || pending.needs_all_effects_update) && all == pending.needs_all_effects_update,
            _ => false,
        }),
{
    let s = early_stages(pending, cursor_jump_enabled);
    let a: int = if pending.has_containers_to_redraw || pending.has_workspaces_to_reorder {
        1
    } else {
        0
    };
    let b: int = if pending.needs_focus_update {
        a + 1
    } else {
        a
    };
    let c: int = if pending.needs_cursor_jump && cursor_jump_enabled {
        b + 1
    } else {
        b
    };
    if a == 1 {
        assert(s[0] == SyncStage::Redraw);
    }
    if b > a {
        assert(s[a] == SyncStage::SyncFocus);
    }
    if c > b {
        assert(s[b] == SyncStage::JumpCursor);
    }
    if pending.needs_focused_effect_update || pending.needs_all_effects_update {
        assert(s[c] == SyncStage::UpdateEffects { all: pending.needs_all_effects_update });
    }
}

/// The effects of windows without the focus go to every window but the focused
/// one, or only to the one that had the effects of the focus before.
pub proof fn all_but_the_focused_lose_the_focus(
    all: bool,
    windows: Seq<u128>,
    prev_effects_window: Option<u128>,
    focused: u128,
    w: u128,
)
    ensures
        unfocused_windows(all, windows, prev_effects_window, focused).contains(w) <==> w != focused
            && (if all {
            windows.contains(w)
        } else {
            prev_effects_window == Some(w)
        }),
        !all ==> unfocused_windows(all, windows, prev_effects_window, focused).len() <= 1,
{
    let s = unfocused_windows(all, windows, prev_effects_window, focused);
    let pred = is_not(focused);
    if all {
        if s.contains(w) {
            let k = choose|k: int| 0 <= k < s.len() && s[k] == w;
            windows.lemma_filter_pred(pred, k);
            windows.lemma_filter_contains_rev(pred, w);
        }
        if windows.contains(w) && w != focused {
            let k = choose|k: int| 0 <= k < windows.len() && windows[k] == w;
            windows.lemma_filter_contains(pred, k);
        }
    } else if prev_effects_window == Some(w) && w != focused {
        assert(s[0] == w);
    }
}

/// The focused window gets the effects of the focus, and what an animation has
/// brought its alpha to. Between the two come the windows without the focus. If
/// no window is focused, only those get effects.
pub proof fn effects_go_to_the_focused_and_the_others(
    all: bool,
    windows: Seq<u128>,
    prev_effects_window: Option<u128>,
    focused: u128,
    is_window: bool,
    animated_alpha: Option<u8>,
    k: int,
)
    ensures
        ({
            let u = unfocused_windows(all, windows, prev_effects_window, focused);
            let s = effect_updates(
                all,
                windows,
                prev_effects_window,
                focused,
                is_window,
                animated_alpha,
            );
            let first: int = if is_window {
                1
            } else {
                0
            };
            &&& s.len() == first + u.len() + (if is_window && animated_alpha is Some {
                1int
            } else {
                0
            })
            &&& is_window ==> s[0] == EffectUpdate::ApplyFocused(focused)
            &&& 0 <= k < u.len() ==> s[first + k] == EffectUpdate::ApplyUnfocused(u[k])
            &&& is_window && animated_alpha is Some ==> s[s.len() - 1] == (EffectUpdate::SetAlpha {
                window: focused,
                alpha: animated_alpha->0,
            })
        }),
{
}

} // verus!
