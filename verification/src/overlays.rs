//! Keeping the overlays of windows in step with them.

use vstd::prelude::*;

use crate::tree::position;
use crate::window_state::WindowState;

verus! {

/// The native anchor that puts an overlay above all that is not topmost.
pub const HWND_TOPMOST: isize = -1;

/// What the overlay of a window is put behind: the window itself, or the
/// topmost band for a window that is kept there.
pub open spec fn z_anchor(state: WindowState, hwnd: isize) -> isize {
    if state.spec_is_topmost() {
        HWND_TOPMOST
    } else {
        hwnd
    }
}

pub fn overlay_z_anchor(state: &WindowState, hwnd: isize) -> (result: isize)
    ensures
        result == z_anchor(*state, hwnd),
{
    if state.is_topmost() {
        HWND_TOPMOST
    } else {
        hwnd
    }
}

/// What is known of a window that may have an overlay.
#[derive(Clone, Copy, Debug, PartialEq, Eq, Structural)]
pub struct OverlayWindow {
    pub id: u128,
    pub hwnd: isize,
    pub state: WindowState,
    /// Whether the window's workspace is displayed.
    pub is_displayed: bool,
    /// Whether an animation moves the overlay by itself.
    pub has_live_tracker: bool,
    /// Whether something else stands in for the window.
    pub has_active_surrogate: bool,
}

/// An overlay that exists.
#[derive(Clone, Copy, Debug, PartialEq, Eq, Structural)]
pub struct ExistingOverlay {
    pub id: u128,
    pub is_visible: bool,
}

/// How an overlay follows its window.
#[derive(Clone, Copy, Debug, PartialEq, Eq, Structural)]
pub enum OverlayMove {
    Stay,
    /// Goes to where the window is now, and is shown.
    ToFrame,
    /// Goes right behind the window again.
    SyncZOrder,
}

/// What happens to the overlay of a window.
#[derive(Clone, Copy, Debug, PartialEq, Eq, Structural)]
pub enum OverlayAction {
    Leave,
    Hide,
    Update { anchor: isize, follow: OverlayMove },
    Create { anchor: isize },
}

#[derive(Clone, Copy, Debug, PartialEq, Eq, Structural)]
pub struct OverlayStep {
    pub id: u128,
    pub action: OverlayAction,
}

/// What is to be done to the overlays of one kind.
#[derive(Debug)]
pub struct OverlayPlan {
    pub steps: Vec<OverlayStep>,
    /// The overlays to be destroyed.
    pub removed: Vec<u128>,
}

/// What the overlays of one kind are synced by.
pub struct OverlayCycle {
    pub focused: u128,
    /// Whether the focused window and the others have overlays of this kind.
    pub focused_enabled: bool,
    pub other_enabled: bool,
    /// Whether any overlay may have lost its place among the windows.
    pub full_z_order_resync: bool,
    /// The windows that are being redrawn.
    pub redrawing: Vec<u128>,
    /// The windows whose place among the others was set.
    pub z_order_touched: Vec<u128>,
    /// The overlays that exist.
    pub existing: Vec<ExistingOverlay>,
}

/// Whether the overlay of `id` among `existing` is visible, if there is one.
pub open spec fn shown_among(existing: Seq<ExistingOverlay>, id: u128) -> Option<bool>
    decreases existing.len(),
{
    if existing.len() == 0 {
        None
    } else if existing[0].id == id {
        Some(existing[0].is_visible)
    } else {
        shown_among(existing.drop_first(), id)
    }
}

impl OverlayCycle {
    /// Whether the window `id` is to have an overlay.
    pub open spec fn wants(self, id: u128) -> bool {
        if id == self.focused {
            self.focused_enabled
        } else {
            self.other_enabled
        }
    }

    /// What happens to the overlay of `w`, which is to have one.
    pub open spec fn action(self, w: OverlayWindow) -> OverlayAction {
        let existing = shown_among(self.existing@, w.id);
        let anchor = z_anchor(w.state, w.hwnd);
        if w.has_live_tracker {
            OverlayAction::Leave
        } else if w.has_active_surrogate || !w.is_displayed {
            if existing is Some {
                OverlayAction::Hide
            } else {
                OverlayAction::Leave
            }
        } else {
            match existing {
                None => OverlayAction::Create { anchor },
                Some(is_visible) => OverlayAction::Update {
                    anchor,
                    follow: if self.redrawing@.contains(w.id) || !is_visible {
                        OverlayMove::ToFrame
                    } else if self.full_z_order_resync || self.z_order_touched@.contains(w.id) {
                        OverlayMove::SyncZOrder
                    } else {
                        OverlayMove::Stay
                    },
                },
            }
        }
    }

    /// What happens to the overlays of `windows`, in order.
    pub open spec fn steps(self, windows: Seq<OverlayWindow>) -> Seq<OverlayStep>
        decreases windows.len(),
    {
        if windows.len() == 0 {
            Seq::empty()
        } else {
            let rest = self.steps(windows.drop_last());
            let w = windows.last();
            if self.wants(w.id) {
                rest.push(OverlayStep { id: w.id, action: self.action(w) })
            } else {
                rest
            }
        }
    }

    /// Whether `id` is one of `windows` and is to have an overlay.
    pub open spec fn keeps(self, windows: Seq<OverlayWindow>, id: u128) -> bool {
        self.wants(id) && exists|k: int| 0 <= k < windows.len() && (#[trigger] windows[k]).id == id
    }

    /// The overlays among `existing` that are not to be kept.
    pub open spec fn dropped(
        self,
        windows: Seq<OverlayWindow>,
        existing: Seq<ExistingOverlay>,
    ) -> Seq<u128>
        decreases existing.len(),
    {
        if existing.len() == 0 {
            Seq::empty()
        } else {
            let rest = self.dropped(windows, existing.drop_last());
            let t = existing.last();
            if self.keeps(windows, t.id) {
                rest
            } else {
                rest.push(t.id)
            }
        }
    }

    fn wants_exec(&self, id: u128) -> (result: bool)
        ensures
            result == self.wants(id),
    {
        if id == self.focused {
            self.focused_enabled
        } else {
            self.other_enabled
        }
    }

    fn existing_exec(&self, id: u128) -> (result: Option<bool>)
        ensures
            result == shown_among(self.existing@, id),
    {
        let ghost all = self.existing@;
        let mut i: usize = 0;
        proof {
            assert(all.subrange(0, all.len() as int) =~= all);
        }
        while i < self.existing.len()
            invariant
                i <= self.existing@.len(),
                all == self.existing@,
                shown_among(all.subrange(i as int, all.len() as int), id)
                    == shown_among(all, id),
            decreases self.existing@.len() - i,
        {
            proof {
                let rest = all.subrange(i as int, all.len() as int);
                assert(rest[0] == all[i as int]);
                assert(rest.drop_first() =~= all.subrange(i + 1, all.len() as int));
            }
            if self.existing[i].id == id {
                return Some(self.existing[i].is_visible);
            }
            i = i + 1;
        }
        proof {
            assert(all.subrange(i as int, all.len() as int) =~= Seq::<ExistingOverlay>::empty());
        }
        None
    }

    fn action_exec(&self, w: &OverlayWindow) -> (result: OverlayAction)
        ensures
            result == self.action(*w),
    {
        if w.has_live_tracker {
            return OverlayAction::Leave;
        }
        let existing = self.existing_exec(w.id);
        if w.has_active_surrogate || !w.is_displayed {
            return if existing.is_some() {
                OverlayAction::Hide
            } else {
                OverlayAction::Leave
            };
        }
        let anchor: isize = overlay_z_anchor(&w.state, w.hwnd);
        match existing {
            None => OverlayAction::Create { anchor },
            Some(is_visible) => {
                let is_redrawing: bool = position(&self.redrawing, w.id).is_some();
                let is_touched: bool = position(&self.z_order_touched, w.id).is_some();
                let follow = if is_redrawing || !is_visible {
                    OverlayMove::ToFrame
                } else if self.full_z_order_resync || is_touched {
                    OverlayMove::SyncZOrder
                } else {
                    OverlayMove::Stay
                };
                OverlayAction::Update { anchor, follow }
            },
        }
    }
}

/// Decides what happens to the overlays of one kind: those of the windows that
/// are to have one, and those that are left over.
pub fn sync_overlays(cycle: &OverlayCycle, windows: &Vec<OverlayWindow>) -> (plan: OverlayPlan)
    ensures
        plan.steps@ == cycle.steps(windows@),
        plan.removed@ == cycle.dropped(windows@, cycle.existing@),
{
    let mut steps: Vec<OverlayStep> = Vec::new();
    let mut i: usize = 0;
    while i < windows.len()
        invariant
            i <= windows@.len(),
            steps@ == cycle.steps(windows@.subrange(0, i as int)),
        decreases windows@.len() - i,
    {
        let w = windows[i];
        proof {
            let next = windows@.subrange(0, i + 1);
            assert(next.drop_last() =~= windows@.subrange(0, i as int));
        }
        if cycle.wants_exec(w.id) {
            steps.push(OverlayStep { id: w.id, action: cycle.action_exec(&w) });
        }
        i = i + 1;
    }
    let mut removed: Vec<u128> = Vec::new();
    let mut k: usize = 0;
    while k < cycle.existing.len()
        invariant
            k <= cycle.existing@.len(),
            removed@ == cycle.dropped(windows@, cycle.existing@.subrange(0, k as int)),
        decreases cycle.existing@.len() - k,
    {
        let id: u128 = cycle.existing[k].id;
        let mut exists_window: bool = false;
        let mut j: usize = 0;
        while j < windows.len() && !exists_window
            invariant
                j <= windows@.len(),
                exists_window ==> exists|q: int|
                    0 <= q < windows@.len() && (#[trigger] windows@[q]).id == id,
                !exists_window ==> forall|q: int| 0 <= q < j ==> (#[trigger] windows@[q]).id != id,
            decreases windows@.len() - j,
        {
            if windows[j].id == id {
                exists_window = true;
            }
            j = j + 1;
        }
        proof {
            let next = cycle.existing@.subrange(0, k + 1);
            assert(next.drop_last() =~= cycle.existing@.subrange(0, k as int));
        }
        if !(exists_window && cycle.wants_exec(id)) {
            removed.push(id);
        }
        k = k + 1;
    }
    proof {
        assert(windows@.subrange(0, i as int) =~= windows@);
        assert(cycle.existing@.subrange(0, k as int) =~= cycle.existing@);
    }
    OverlayPlan { steps, removed }
}

/// What happens to an overlay that follows a moving stand-in.
#[derive(Clone, Copy, Debug, PartialEq, Eq, Structural)]
pub enum UpsertAction {
    /// Updates the overlay and moves it along.
    Update,
    Create,
}

/// Decides whether the overlay of a window has to be made.
pub fn upsert_overlay(existing: &Vec<u128>, id: u128) -> (result: UpsertAction)
    ensures
        result == (if existing@.contains(id) {
            UpsertAction::Update
        } else {
            UpsertAction::Create
        }),
{
    match position(existing, id) {
        Some(_) => UpsertAction::Update,
        None => UpsertAction::Create,
    }
}

/// An overlay that was hidden comes back in the first cycle in which nothing
/// hides it, even if its window is not redrawn.
pub proof fn hidden_overlay_comes_back(cycle: OverlayCycle, w: OverlayWindow)
    requires
        cycle.wants(w.id),
        shown_among(cycle.existing@, w.id) == Some(false),
        !w.has_live_tracker,
        !w.has_active_surrogate,
        w.is_displayed,
    ensures
        cycle.action(w) == (OverlayAction::Update {
            anchor: z_anchor(w.state, w.hwnd),
            follow: OverlayMove::ToFrame,
        }),
{
}

proof fn lemma_dropped(
    cycle: OverlayCycle,
    windows: Seq<OverlayWindow>,
    existing: Seq<ExistingOverlay>,
    id: u128,
)
    ensures
        cycle.dropped(windows, existing).contains(id) <==> !cycle.keeps(windows, id) && exists|k: int|
            0 <= k < existing.len() && (#[trigger] existing[k]).id == id,
    decreases existing.len(),
{
    if existing.len() > 0 {
        let d = existing.drop_last();
        lemma_dropped(cycle, windows, d, id);
        let rest = cycle.dropped(windows, d);
        let all = cycle.dropped(windows, existing);
        let t = existing.last();
        if exists|k: int| 0 <= k < d.len() && (#[trigger] d[k]).id == id {
            let k = choose|k: int| 0 <= k < d.len() && (#[trigger] d[k]).id == id;
            assert(existing[k].id == id);
        }
        if exists|k: int| 0 <= k < existing.len() && (#[trigger] existing[k]).id == id {
            let k = choose|k: int| 0 <= k < existing.len() && (#[trigger] existing[k]).id == id;
            if k < d.len() {
                assert(d[k].id == id);
            }
        }
        if all.contains(id) {
            let q = choose|q: int| 0 <= q < all.len() && all[q] == id;
            if q < rest.len() {
                assert(rest[q] == id);
            } else {
                assert(existing[existing.len() - 1].id == id);
            }
        }
        if rest.contains(id) {
            let q = choose|q: int| 0 <= q < rest.len() && rest[q] == id;
            assert(all[q] == id);
        }
        if t.id == id && !cycle.keeps(windows, t.id) {
            assert(all[rest.len() as int] == id);
        }
    }
}

/// After a cycle, an overlay is left only for windows that exist and are to
/// have one.
pub proof fn only_wanted_overlays_stay(
    cycle: OverlayCycle,
    windows: Seq<OverlayWindow>,
    t: ExistingOverlay,
)
    requires
        cycle.existing@.contains(t),
    ensures
        cycle.dropped(windows, cycle.existing@).contains(t.id) <==> !cycle.keeps(windows, t.id),
{
    lemma_dropped(cycle, windows, cycle.existing@, t.id);
    let k = choose|k: int| 0 <= k < cycle.existing@.len() && cycle.existing@[k] == t;
    assert(cycle.existing@[k].id == t.id);
}

/// Only for a window that is kept on top is the overlay anchored to the topmost
/// band. All others are anchored to their windows.
pub proof fn overlays_are_anchored_to_their_windows(state: WindowState, hwnd: isize)
    ensures
        state is Tiling || state is Minimized ==> z_anchor(state, hwnd) == hwnd,
        state matches WindowState::Floating(f) ==> z_anchor(state, hwnd) == (if f.shown_on_top {
            -1
        } else {
            hwnd as int
        }),
        state matches WindowState::Fullscreen(f) ==> z_anchor(state, hwnd) == (if f.shown_on_top {
            -1
        } else {
            hwnd as int
        }),
{
}

proof fn lemma_shown_among(existing: Seq<ExistingOverlay>, id: u128)
    ensures
        match shown_among(existing, id) {
            Some(is_visible) => exists|k: int|
                0 <= k < existing.len() && (#[trigger] existing[k]).id == id && existing[k].is_visible
                    == is_visible,
            None => forall|k: int| 0 <= k < existing.len() ==> (#[trigger] existing[k]).id != id,
        },
    decreases existing.len(),
{
    if existing.len() > 0 && existing[0].id != id {
        let rest = existing.drop_first();
        lemma_shown_among(rest, id);
        match shown_among(rest, id) {
            Some(is_visible) => {
                let k = choose|k: int|
                    0 <= k < rest.len() && (#[trigger] rest[k]).id == id && rest[k].is_visible
                        == is_visible;
                assert(existing[k + 1].id == id && existing[k + 1].is_visible == is_visible);
            },
            None => {
                assert forall|k: int| 0 <= k < existing.len() implies (#[trigger] existing[k]).id
                    != id by {
                    if k > 0 {
                        assert(rest[k - 1] == existing[k]);
                    }
                }
            },
        }
    }
}

/// What happens to the overlay of a window. One that an animation moves is left
/// alone. One whose window is not to be seen is hidden. Else a missing overlay
/// is made, and one that exists is updated: it moves if its window is redrawn or
/// if it was hidden, and else takes its place among the windows if that may be
/// lost.
pub proof fn overlays_keep_up(cycle: OverlayCycle, w: OverlayWindow, t: ExistingOverlay)
    ensures
        w.has_live_tracker ==> cycle.action(w) is Leave,
        (forall|k: int| 0 <= k < cycle.existing@.len() ==> (#[trigger] cycle.existing@[k]).id != w.id)
            && !w.has_live_tracker ==> (if w.is_displayed && !w.has_active_surrogate {
            cycle.action(w) == OverlayAction::Create { anchor: z_anchor(w.state, w.hwnd) }
        } else {
            cycle.action(w) is Leave
        }),
        cycle.existing@.contains(t) && t.id == w.id && (forall|k: int|
            0 <= k < cycle.existing@.len() && (#[trigger] cycle.existing@[k]).id == w.id
                ==> cycle.existing@[k] == t) && !w.has_live_tracker ==> {
            &&& cycle.action(w) is Hide <==> w.has_active_surrogate || !w.is_displayed
            &&& w.is_displayed && !w.has_active_surrogate ==> (cycle.action(w)
                matches OverlayAction::Update { anchor, follow } && anchor == z_anchor(
                w.state,
                w.hwnd,
            ) && (follow is ToFrame <==> !t.is_visible || cycle.redrawing@.contains(w.id)) && (
            follow is SyncZOrder <==> t.is_visible && !cycle.redrawing@.contains(w.id) && (
            cycle.full_z_order_resync || cycle.z_order_touched@.contains(w.id))))
        },
{
    lemma_shown_among(cycle.existing@, w.id);
    if cycle.existing@.contains(t) {
        let k = choose|k: int| 0 <= k < cycle.existing@.len() && cycle.existing@[k] == t;
        assert(cycle.existing@[k].id == t.id);
    }
}

/// An overlay is left for a window exactly if the window is there and its class,
/// that of the focused window or that of the others, has overlays.
pub proof fn overlays_are_left_for_windows_that_have_them(
    cycle: OverlayCycle,
    windows: Seq<OverlayWindow>,
    t: ExistingOverlay,
)
    requires
        cycle.existing@.contains(t),
    ensures
        !cycle.dropped(windows, cycle.existing@).contains(t.id) <==> (exists|k: int|
            0 <= k < windows.len() && (#[trigger] windows[k]).id == t.id) && (if t.id
            == cycle.focused {
            cycle.focused_enabled
        } else {
            cycle.other_enabled
        }),
{
    only_wanted_overlays_stay(cycle, windows, t);
}

/// The overlays are seen to in the order of the windows, and those of a class
/// without overlays are passed over.
pub proof fn overlays_are_seen_to_in_turn(
    cycle: OverlayCycle,
    windows: Seq<OverlayWindow>,
    w: OverlayWindow,
)
    ensures
        cycle.steps(Seq::empty()) == Seq::<OverlayStep>::empty(),
        cycle.steps(windows.push(w)) == cycle.steps(windows) + (if (w.id == cycle.focused
            && cycle.focused_enabled) || (w.id != cycle.focused && cycle.other_enabled) {
            seq![OverlayStep { id: w.id, action: cycle.action(w) }]
        } else {
            Seq::empty()
        }),
{
    assert(windows.push(w).drop_last() =~= windows);
}

} // verus!
