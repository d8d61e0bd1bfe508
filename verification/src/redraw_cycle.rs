//! One pass over the windows that are redrawn.
//!
//! A window is begun, its animation is asked, and then it is settled. What has
//! to wait for a frame is kept for the end of the pass, so that all windows
//! wait together.

use vstd::prelude::*;

use crate::geometry::Rect;
use crate::redraw::{plan_apply, plan_frozen, plan_shell_marks, plan_window, shell_marks,
    window_plan, PositionSource, RedrawSettings, RedrawStep, SessionSnapshot, ShellMarks,
    WindowPlan, WindowSnapshot};
use crate::reposition::{cloak_steps, commit_pending_cloaks, one_flush_precedes_every_cloak,
    CloakState, CloakStep, PendingCloak, SessionNeeds, WindowZOrder};
use crate::window_state::DisplayState;

verus! {

/// One thing to be done to a window in a redraw.
#[derive(Clone, Copy, Debug, PartialEq, Eq, Structural)]
pub enum WindowAction {
    SetZOrder(WindowZOrder),
    SetDisplayState(DisplayState),
    /// Remembers where the window is sent.
    RecordTarget(Rect),
    StartOpenAnimation,
    UpsertBlurOverlay,
    UpsertBorderOverlay,
    /// Shows what stands in for the window.
    ShowSurrogate,
    Reposition { rect: Rect, has_surrogate: bool },
    /// Uncloaks the window, unless repositioning has seen to that.
    Reveal,
    /// Hides what stood in for the window in a workspace switch.
    HideSwitchSurrogate,
    SetTransparency(u8),
    MarkFullscreen(bool),
    SetTaskbarVisibility(bool),
}

/// What the animation of a window says.
#[derive(Clone, Copy, Debug, PartialEq, Eq, Structural)]
pub enum Animated {
    /// Something stands in for the window.
    Frozen,
    At { rect: Rect, opacity: Option<u8> },
}

/// What is known of the session that animates a window.
#[derive(Clone, Copy, Debug, PartialEq, Eq, Structural)]
pub struct SessionFacts {
    pub snapshot: SessionSnapshot,
    pub needs: SessionNeeds,
}

/// What is known of a window once its animation was asked, or cancelled.
#[derive(Clone, Copy, Debug, PartialEq, Eq, Structural)]
pub struct WindowFacts {
    pub session: Option<SessionFacts>,
    pub is_cloaked: bool,
    /// Whether it came in with a workspace switch that has just ended.
    pub is_pending_cleanup: bool,
    /// Whether its session has put it where it is to go.
    pub was_pre_committed: bool,
}

/// A list with `action` in it, if that is `wanted`.
pub open spec fn only_if(wanted: bool, action: WindowAction) -> Seq<WindowAction> {
    if wanted {
        seq![action]
    } else {
        Seq::empty()
    }
}

/// What is done to a window before its animation is asked.
pub open spec fn begin_actions(
    step: RedrawStep,
    w: WindowSnapshot,
    s: RedrawSettings,
) -> Seq<WindowAction> {
    if step.redraw {
        let plan = window_plan(w, s);
        only_if(step.set_z_order, WindowAction::SetZOrder(step.z_order)) + seq![
            WindowAction::SetDisplayState(plan.display_state),
            WindowAction::RecordTarget(w.target_rect),
        ] + only_if(plan.starts_open_animation, WindowAction::StartOpenAnimation)
    } else {
        only_if(step.set_z_order, WindowAction::SetZOrder(step.z_order))
    }
}

/// Where a window goes: to its target, unless its animation has a say.
pub open spec fn settled(source: PositionSource, target: Rect, animated: Animated) -> Animated {
    match source {
        PositionSource::FrozenBySwitch => Animated::Frozen,
        PositionSource::Animation => animated,
        PositionSource::Target => Animated::At { rect: target, opacity: None },
    }
}

/// Whether a window that something stands in for is yet to be cloaked.
pub open spec fn owes_cloak(facts: WindowFacts) -> bool {
    &&& !(facts.session matches Some(session) && session.snapshot.is_cloaked)
    &&& !facts.is_cloaked
}

/// What is done to a window that something stands in for: its overlays go
/// behind what stands in for it before that is shown.
pub open spec fn frozen_actions(facts: WindowFacts) -> Seq<WindowAction> {
    match facts.session {
        Some(session) => {
            let placed = owes_cloak(facts) && session.snapshot.has_anchor
                && session.snapshot.has_rect;
            only_if(placed && session.snapshot.has_blur, WindowAction::UpsertBlurOverlay) + only_if(
                placed && session.snapshot.has_border,
                WindowAction::UpsertBorderOverlay,
            ) + only_if(owes_cloak(facts), WindowAction::ShowSurrogate)
        },
        None => Seq::empty(),
    }
}

/// What is done to a window that is moved itself.
pub open spec fn apply_actions(
    is_visible: bool,
    rect: Rect,
    opacity: Option<u8>,
    facts: WindowFacts,
) -> Seq<WindowAction> {
    only_if(
        !(is_visible && facts.was_pre_committed),
        WindowAction::Reposition {
            rect,
            has_surrogate: facts.session is Some || (is_visible && facts.is_pending_cleanup),
        },
    ) + only_if(is_visible, WindowAction::Reveal) + only_if(
        is_visible,
        WindowAction::HideSwitchSurrogate,
    ) + (match opacity {
        Some(alpha) => seq![WindowAction::SetTransparency(alpha)],
        None => Seq::empty(),
    })
}

/// What the shell is told.
pub open spec fn mark_actions(marks: ShellMarks) -> Seq<WindowAction> {
    (match marks.mark_fullscreen {
        Some(on) => seq![WindowAction::MarkFullscreen(on)],
        None => Seq::empty(),
    }) + (match marks.taskbar_visibility {
        Some(on) => seq![WindowAction::SetTaskbarVisibility(on)],
        None => Seq::empty(),
    })
}

/// What is done to a window once its animation was asked.
pub open spec fn settle_actions(
    w: WindowSnapshot,
    s: RedrawSettings,
    source: PositionSource,
    animated: Animated,
    facts: WindowFacts,
) -> Seq<WindowAction> {
    (match settled(source, w.target_rect, animated) {
        Animated::Frozen => frozen_actions(facts),
        Animated::At { rect, opacity } => apply_actions(w.is_displayed, rect, opacity, facts),
    }) + mark_actions(shell_marks(w, s))
}

/// The window that is to be cloaked at the end of the pass, if this is one.
pub open spec fn queued_cloak(
    step: RedrawStep,
    w: WindowSnapshot,
    source: PositionSource,
    animated: Animated,
    facts: WindowFacts,
) -> Option<PendingCloak> {
    if settled(source, w.target_rect, animated) is Frozen && owes_cloak(facts) {
        Some(
            PendingCloak {
                window: step.window,
                z_order: step.z_order,
                target_rect: w.target_rect,
                session: match facts.session {
                    Some(session) => Some(session.needs),
                    None => None,
                },
            },
        )
    } else {
        None
    }
}

/// Whether the pass has to wait at its end for the window's alpha to be drawn.
pub open spec fn owes_flush(
    w: WindowSnapshot,
    source: PositionSource,
    animated: Animated,
    facts: WindowFacts,
) -> bool {
    &&& settled(source, w.target_rect, animated) is At
    &&& w.is_displayed
    &&& !facts.was_pre_committed
}

/// One thing to be done at the end of a pass.
#[derive(Clone, Copy, Debug, PartialEq, Eq, Structural)]
pub enum CycleAction {
    Cloak(CloakStep),
    /// Moves all that stands in for windows at once.
    CommitSurrogates,
    SyncSessionOverlays,
    ApplyOutgoingOpacities,
    /// Waits until the next frame is on screen.
    Flush,
}

impl CycleAction {
    /// Whether the pass waits for a frame.
    pub open spec fn waits(self) -> bool {
        self == CycleAction::Flush || self == CycleAction::Cloak(CloakStep::Flush)
    }
}

/// What is done at the end of a pass.
pub open spec fn finish_actions(pending: Seq<PendingCloak>, needs_flush: bool) -> Seq<CycleAction> {
    cloak_steps(pending).map_values(|step: CloakStep| CycleAction::Cloak(step)) + seq![
        CycleAction::CommitSurrogates,
        CycleAction::SyncSessionOverlays,
        CycleAction::ApplyOutgoingOpacities,
    ] + (if needs_flush {
        seq![CycleAction::Flush]
    } else {
        Seq::empty()
    })
}

/// What a pass has gathered so far.
#[derive(Debug)]
pub struct RedrawCycle {
    /// The windows to be cloaked at its end.
    pub pending: Vec<PendingCloak>,
    /// Whether it waits at its end.
    pub needs_flush: bool,
    /// The windows whose place among the others has changed.
    pub z_order_touched: Vec<u128>,
}

impl RedrawCycle {
    pub fn new() -> (cycle: RedrawCycle)
        ensures
            cycle.pending@ == Seq::<PendingCloak>::empty(),
            !cycle.needs_flush,
            cycle.z_order_touched@ == Seq::<u128>::empty(),
    {
        RedrawCycle { pending: Vec::new(), needs_flush: false, z_order_touched: Vec::new() }
    }

    /// Decides what is done to a window before its animation is asked. A
    /// window that is only moved among the others is done with this.
    pub fn begin_window(
        &mut self,
        step: &RedrawStep,
        w: &WindowSnapshot,
        s: &RedrawSettings,
    ) -> (actions: Vec<WindowAction>)
        requires
            w.target_rect.measurable(),
            w.previous_target matches Some(prev) ==> prev.measurable(),
        ensures
            actions@ == begin_actions(*step, *w, *s),
            final(self).pending@ == old(self).pending@,
            final(self).needs_flush == old(self).needs_flush,
            final(self).z_order_touched@ == (if step.set_z_order {
                old(self).z_order_touched@.push(step.window)
            } else {
                old(self).z_order_touched@
            }),
    {
        let mut actions: Vec<WindowAction> = Vec::new();
        if step.set_z_order {
            actions.push(WindowAction::SetZOrder(step.z_order));
            self.z_order_touched.push(step.window);
        }
        if step.redraw {
            let plan: WindowPlan = plan_window(w, s);
            actions.push(WindowAction::SetDisplayState(plan.display_state));
            actions.push(WindowAction::RecordTarget(w.target_rect));
            if plan.starts_open_animation {
                actions.push(WindowAction::StartOpenAnimation);
            }
        }
        proof {
            assert(actions@ =~= begin_actions(*step, *w, *s));
        }
        actions
    }

    /// Decides what is done to a window once its animation was asked, or, where
    /// `source` is its target, cancelled. A window that something stands in for
    /// is queued to be cloaked.
    pub fn settle_window(
        &mut self,
        step: &RedrawStep,
        w: &WindowSnapshot,
        s: &RedrawSettings,
        source: PositionSource,
        animated: Animated,
        facts: &WindowFacts,
    ) -> (actions: Vec<WindowAction>)
        requires
            w.target_rect.measurable(),
            w.previous_target matches Some(prev) ==> prev.measurable(),
        ensures
            actions@ == settle_actions(*w, *s, source, animated, *facts),
            final(self).pending@ == (match queued_cloak(*step, *w, source, animated, *facts) {
                Some(cloak) => old(self).pending@.push(cloak),
                None => old(self).pending@,
            }),
            final(self).needs_flush == (old(self).needs_flush || owes_flush(
                *w,
                source,
                animated,
                *facts,
            )),
            final(self).z_order_touched@ == old(self).z_order_touched@,
    {
        let plan: WindowPlan = plan_window(w, s);
        let place: Animated = match source {
            PositionSource::FrozenBySwitch => Animated::Frozen,
            PositionSource::Animation => animated,
            PositionSource::Target => Animated::At { rect: w.target_rect, opacity: None },
        };
        let mut actions: Vec<WindowAction> = match place {
            Animated::Frozen => self.freeze_window(step, w.target_rect, facts),
            Animated::At { rect, opacity } => self.apply_window(
                plan.is_visible,
                rect,
                opacity,
                facts,
            ),
        };
        let marks = plan_shell_marks(w, s, &plan);
        push_marks(&mut actions, &marks);
        actions
    }

    fn freeze_window(&mut self, step: &RedrawStep, target_rect: Rect, facts: &WindowFacts) -> (actions:
        Vec<WindowAction>)
        ensures
            actions@ == frozen_actions(*facts),
            final(self).pending@ == (if owes_cloak(*facts) {
                old(self).pending@.push(
                    PendingCloak {
                        window: step.window,
                        z_order: step.z_order,
                        target_rect,
                        session: match facts.session {
                            Some(session) => Some(session.needs),
                            None => None,
                        },
                    },
                )
            } else {
                old(self).pending@
            }),
            final(self).needs_flush == old(self).needs_flush,
            final(self).z_order_touched@ == old(self).z_order_touched@,
    {
        let mut actions: Vec<WindowAction> = Vec::new();
        let snapshot: Option<SessionSnapshot> = match facts.session {
            Some(session) => Some(session.snapshot),
            None => None,
        };
        let needs: Option<SessionNeeds> = match facts.session {
            Some(session) => Some(session.needs),
            None => None,
        };
        let frozen = plan_frozen(snapshot, facts.is_cloaked);
        if frozen.upsert_blur {
            actions.push(WindowAction::UpsertBlurOverlay);
        }
        if frozen.upsert_border {
            actions.push(WindowAction::UpsertBorderOverlay);
        }
        if frozen.queue_cloak {
            if facts.session.is_some() {
                actions.push(WindowAction::ShowSurrogate);
            }
            self.pending.push(
                PendingCloak {
                    window: step.window,
                    z_order: step.z_order,
                    target_rect,
                    session: needs,
                },
            );
        }
        proof {
            assert(actions@ =~= frozen_actions(*facts));
        }
        actions
    }

    fn apply_window(
        &mut self,
        is_visible: bool,
        rect: Rect,
        opacity: Option<u8>,
        facts: &WindowFacts,
    ) -> (actions: Vec<WindowAction>)
        ensures
            actions@ == apply_actions(is_visible, rect, opacity, *facts),
            final(self).pending@ == old(self).pending@,
            final(self).needs_flush == (old(self).needs_flush || (is_visible
                && !facts.was_pre_committed)),
            final(self).z_order_touched@ == old(self).z_order_touched@,
    {
        let mut actions: Vec<WindowAction> = Vec::new();
        let apply = plan_apply(
            is_visible,
            facts.session.is_some(),
            facts.is_pending_cleanup,
            facts.was_pre_committed,
        );
        if apply.reposition {
            actions.push(WindowAction::Reposition { rect, has_surrogate: apply.has_surrogate });
        }
        if apply.needs_flush {
            self.needs_flush = true;
        }
        if apply.reveal {
            actions.push(WindowAction::Reveal);
            actions.push(WindowAction::HideSwitchSurrogate);
        }
        if let Some(alpha) = opacity {
            actions.push(WindowAction::SetTransparency(alpha));
        }
        proof {
            assert(actions@ =~= apply_actions(is_visible, rect, opacity, *facts));
        }
        actions
    }

    /// Decides what is done at the end of the pass.
    pub fn finish(&self) -> (actions: Vec<CycleAction>)
        ensures
            actions@ == finish_actions(self.pending@, self.needs_flush),
    {
        let steps = commit_pending_cloaks(&self.pending);
        let mut actions: Vec<CycleAction> = Vec::new();
        let mut i: usize = 0;
        while i < steps.len()
            invariant
                i <= steps@.len(),
                actions@.len() == i,
                forall|k: int| 0 <= k < i ==> #[trigger] actions@[k] == CycleAction::Cloak(steps@[k]),
            decreases steps@.len() - i,
        {
            actions.push(CycleAction::Cloak(steps[i]));
            i = i + 1;
        }
        actions.push(CycleAction::CommitSurrogates);
        actions.push(CycleAction::SyncSessionOverlays);
        actions.push(CycleAction::ApplyOutgoingOpacities);
        if self.needs_flush {
            actions.push(CycleAction::Flush);
        }
        proof {
            assert(actions@ =~= finish_actions(self.pending@, self.needs_flush));
        }
        actions
    }
}

fn push_marks(actions: &mut Vec<WindowAction>, marks: &ShellMarks)
    ensures
        final(actions)@ == old(actions)@ + mark_actions(*marks),
{
    let ghost before = actions@;
    if let Some(on) = marks.mark_fullscreen {
        actions.push(WindowAction::MarkFullscreen(on));
    }
    if let Some(on) = marks.taskbar_visibility {
        actions.push(WindowAction::SetTaskbarVisibility(on));
    }
    proof {
        assert(actions@ =~= before + mark_actions(*marks));
    }
}

/// Whether a window that was repositioned with `done` is yet to be uncloaked.
pub fn owes_uncloak(done: CloakState) -> (result: bool)
    ensures
        result == (done == CloakState::Untouched),
{
    match done {
        CloakState::Untouched => true,
        CloakState::Applied => false,
    }
}

/// However many windows a pass redraws, it waits for at most two frames: once
/// before it cloaks windows, and once at its very end.
pub proof fn a_pass_waits_at_most_twice(pending: Seq<PendingCloak>, needs_flush: bool, i: int)
    requires
        0 <= i < finish_actions(pending, needs_flush).len(),
        finish_actions(pending, needs_flush)[i].waits(),
    ensures
        (pending.len() > 0 && i == 2) || (needs_flush && i == finish_actions(
            pending,
            needs_flush,
        ).len() - 1),
{
    let steps = cloak_steps(pending);
    if i < steps.len() {
        assert(finish_actions(pending, needs_flush)[i] == CycleAction::Cloak(steps[i]));
        if pending.len() > 0 {
            one_flush_precedes_every_cloak(pending, i, 0);
        }
    }
}

/// A window that a pass cloaks, and that a session animates, is shown by what
/// stands in for it, and the overlays of that were put in place before.
pub proof fn stand_ins_are_shown_before_the_cloak(
    step: RedrawStep,
    w: WindowSnapshot,
    s: RedrawSettings,
    source: PositionSource,
    animated: Animated,
    facts: WindowFacts,
)
    requires
        queued_cloak(step, w, source, animated, facts) is Some,
        facts.session is Some,
    ensures
        frozen_actions(facts).len() > 0,
        frozen_actions(facts).last() == WindowAction::ShowSurrogate,
        settle_actions(w, s, source, animated, facts) == frozen_actions(facts) + mark_actions(
            shell_marks(w, s),
        ),
{
}

/// A window that is displayed and moved itself is revealed right after it was
/// put in place.
pub proof fn displayed_windows_are_revealed(
    w: WindowSnapshot,
    s: RedrawSettings,
    source: PositionSource,
    animated: Animated,
    facts: WindowFacts,
    i: int,
)
    requires
        w.is_displayed,
        settled(source, w.target_rect, animated) is At,
        0 <= i < settle_actions(w, s, source, animated, facts).len(),
        settle_actions(w, s, source, animated, facts)[i] is Reposition,
    ensures
        i + 1 < settle_actions(w, s, source, animated, facts).len(),
        settle_actions(w, s, source, animated, facts)[i + 1] == WindowAction::Reveal,
{
}

/// A window that is redrawn takes its new display state, and where it is sent
/// is remembered. It is moved among the others exactly if that is asked for.
pub proof fn redrawn_windows_are_begun(step: RedrawStep, w: WindowSnapshot, s: RedrawSettings)
    ensures
        ({
            let actions = begin_actions(step, w, s);
            let first = if step.set_z_order {
                1int
            } else {
                0int
            };
            &&& step.set_z_order ==> actions[0] == WindowAction::SetZOrder(step.z_order)
            &&& !step.redraw ==> actions.len() == first
            &&& step.redraw ==> {
                &&& actions.len() == first + 2 + (if window_plan(w, s).starts_open_animation {
                    1int
                } else {
                    0int
                })
                &&& actions[first] == WindowAction::SetDisplayState(
                    window_plan(w, s).display_state,
                )
                &&& actions[first + 1] == WindowAction::RecordTarget(w.target_rect)
                &&& window_plan(w, s).starts_open_animation ==> actions[first + 2]
                    == WindowAction::StartOpenAnimation
            }
        }),
{
}

/// A window that is moved itself goes where its animation has it, or to its
/// target if that is not asked. It is left in place exactly if it is displayed
/// and its session has put it there. A displayed window is revealed, and only
/// such a window; and the alpha of the animation is set last.
pub proof fn moved_windows_are_put_in_place(
    step: RedrawStep,
    w: WindowSnapshot,
    s: RedrawSettings,
    source: PositionSource,
    animated: Animated,
    facts: WindowFacts,
)
    requires
        source == PositionSource::Target || (source == PositionSource::Animation
            && animated is At),
    ensures
        ({
            let actions = settle_actions(w, s, source, animated, facts);
            let rect = if source == PositionSource::Target {
                w.target_rect
            } else {
                animated->rect
            };
            let alpha = if source == PositionSource::Target {
                None
            } else {
                animated->opacity
            };
            let moves = !(w.is_displayed && facts.was_pre_committed);
            let first = if moves {
                1int
            } else {
                0int
            };
            &&& moves ==> actions[0] == (WindowAction::Reposition {
                rect,
                has_surrogate: facts.session is Some || (w.is_displayed
                    && facts.is_pending_cleanup),
            })
            &&& w.is_displayed ==> actions[first] == WindowAction::Reveal && actions[first + 1]
                == WindowAction::HideSwitchSurrogate
            &&& alpha is Some ==> actions[if w.is_displayed {
                first + 2
            } else {
                first
            }] == WindowAction::SetTransparency(alpha->0)
            &&& queued_cloak(step, w, source, animated, facts) is None
            &&& owes_flush(w, source, animated, facts) == (w.is_displayed
                && !facts.was_pre_committed)
        }),
{
}

/// A window that something stands in for is not moved. Unless it is cloaked, it
/// is queued to be, at its target and its place among the others.
pub proof fn frozen_windows_wait_for_the_cloak(
    step: RedrawStep,
    w: WindowSnapshot,
    s: RedrawSettings,
    source: PositionSource,
    animated: Animated,
    facts: WindowFacts,
    i: int,
)
    requires
        source == PositionSource::FrozenBySwitch || (source == PositionSource::Animation
            && animated is Frozen),
    ensures
        ({
            let actions = settle_actions(w, s, source, animated, facts);
            let cloaked = facts.is_cloaked || (facts.session is Some
                && facts.session->0.snapshot.is_cloaked);
            let queued = queued_cloak(step, w, source, animated, facts);
            &&& 0 <= i < actions.len() ==> actions[i] !is Reposition && actions[i] !is Reveal
            &&& queued is None <==> cloaked
            &&& queued is Some ==> {
                &&& queued->0.window == step.window
                &&& queued->0.z_order == step.z_order
                &&& queued->0.target_rect == w.target_rect
                &&& queued->0.session is Some <==> facts.session is Some
                &&& facts.session is Some ==> queued->0.session->0 == facts.session->0.needs
            }
            &&& !owes_flush(w, source, animated, facts)
        }),
{
}

/// Before what stands in for a window is shown, its overlays are put behind it:
/// those that it has, if it is known where.
pub proof fn overlays_go_behind_the_stand_in(facts: WindowFacts)
    requires
        facts.session is Some,
    ensures
        ({
            let snapshot = facts.session->0.snapshot;
            let waits = !snapshot.is_cloaked && !facts.is_cloaked;
            let placed = waits && snapshot.has_anchor && snapshot.has_rect;
            let actions = frozen_actions(facts);
            &&& actions.contains(WindowAction::UpsertBlurOverlay) <==> placed && snapshot.has_blur
            &&& actions.contains(WindowAction::UpsertBorderOverlay) <==> placed
                && snapshot.has_border
            &&& actions.contains(WindowAction::ShowSurrogate) <==> waits
        }),
{
    let snapshot = facts.session->0.snapshot;
    let placed = owes_cloak(facts) && snapshot.has_anchor && snapshot.has_rect;
    let actions = frozen_actions(facts);
    if placed && snapshot.has_blur {
        assert(actions[0] == WindowAction::UpsertBlurOverlay);
    }
    if placed && snapshot.has_border {
        assert(actions[if snapshot.has_blur {
            1int
        } else {
            0int
        }] == WindowAction::UpsertBorderOverlay);
    }
    if owes_cloak(facts) {
        assert(actions.last() == WindowAction::ShowSurrogate);
    }
}

/// At the end of a pass the queued windows are cloaked before what stands in
/// for windows moves on, and the pass waits for a frame last, if it has to.
pub proof fn passes_end_in_order(pending: Seq<PendingCloak>, needs_flush: bool)
    ensures
        ({
            let actions = finish_actions(pending, needs_flush);
            let n = cloak_steps(pending).len() as int;
            &&& forall|i: int|
                0 <= i < n ==> #[trigger] actions[i] == CycleAction::Cloak(cloak_steps(pending)[i])
            &&& actions[n] == CycleAction::CommitSurrogates
            &&& actions[n + 1] == CycleAction::SyncSessionOverlays
            &&& actions[n + 2] == CycleAction::ApplyOutgoingOpacities
            &&& actions.len() == (if needs_flush {
                n + 4
            } else {
                n + 3
            })
            &&& needs_flush ==> actions.last() == CycleAction::Flush
            &&& pending.len() == 0 ==> n == 0
        }),
{
}

/// The marks of a window are told to the shell after everything else.
pub proof fn marks_come_last(
    w: WindowSnapshot,
    s: RedrawSettings,
    source: PositionSource,
    animated: Animated,
    facts: WindowFacts,
)
    ensures
        ({
            let actions = settle_actions(w, s, source, animated, facts);
            let marks = shell_marks(w, s);
            &&& marks.taskbar_visibility is Some ==> actions.last()
                == WindowAction::SetTaskbarVisibility(marks.taskbar_visibility->0)
            &&& marks.taskbar_visibility is None && marks.mark_fullscreen is Some ==> actions.last()
                == WindowAction::MarkFullscreen(marks.mark_fullscreen->0)
            &&& marks.taskbar_visibility is Some && marks.mark_fullscreen is Some
                ==> actions[actions.len() - 2] == WindowAction::MarkFullscreen(
                marks.mark_fullscreen->0,
            )
        }),
{
}

} // verus!
