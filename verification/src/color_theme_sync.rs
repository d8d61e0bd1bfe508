//! Keeping the color themes of windows in step with them.

use vstd::prelude::*;

use crate::color_themes::{ColorThemes, ThemeView};
use crate::geometry::Rect;
use crate::theme_layout::ColorTheme;
use crate::tree::position;
use crate::window_state::WindowState;

verus! {

/// A window that the user has given a theme.
#[derive(Debug)]
pub struct ThemedWindow {
    pub id: u128,
    pub theme_name: String,
}

/// The overlay that draws a window in its theme.
#[derive(Clone, Copy, Debug, PartialEq, Eq, Structural)]
pub struct ThemeOverlay {
    pub id: u128,
    pub is_visible: bool,
    /// Whether it has stopped for good.
    pub has_failed: bool,
}

/// A menu, dropdown or tooltip that is drawn in the theme of a window.
#[derive(Clone, Copy, Debug, PartialEq, Eq, Structural)]
pub struct ColorThemePopup {
    pub hwnd: isize,
    /// The window whose theme it follows.
    pub owner: u128,
    pub has_failed: bool,
}

/// What is known of a window that may be drawn in a theme.
#[derive(Clone, Copy, Debug, PartialEq, Eq, Structural)]
pub struct ThemeWindow {
    pub id: u128,
    pub hwnd: isize,
    pub process_id: u32,
    pub state: WindowState,
    /// Whether its workspace is displayed.
    pub is_displayed: bool,
    /// Whether something else stands in for it while it is animated.
    pub has_stand_in: bool,
}

/// The themes that are in use.
#[derive(Debug)]
pub struct ColorThemeState {
    pub windows: Vec<ThemedWindow>,
    /// The windows that could not be drawn in their theme.
    pub failures: Vec<u128>,
    pub overlays: Vec<ThemeOverlay>,
    pub popups: Vec<ColorThemePopup>,
}

/// What happens to the overlay of a window.
#[derive(Clone, Copy, Debug, PartialEq, Eq, Structural)]
pub enum ThemeAction {
    Leave,
    Hide,
    /// The overlay is given up, and the window is not tried again.
    GiveUp,
    /// The theme is set, and the overlay goes to where the window is now.
    SetThemeAndMove { hwnd: isize },
    /// The theme is set, and the overlay goes right above the window again.
    SetThemeAndRestack { hwnd: isize },
    Create { hwnd: isize },
}

#[derive(Clone, Copy, Debug, PartialEq, Eq, Structural)]
pub struct ThemeStep {
    pub id: u128,
    pub action: ThemeAction,
}

/// What is to be done to the overlays.
#[derive(Debug)]
pub struct ThemePlan {
    pub steps: Vec<ThemeStep>,
    /// The overlays that are not wanted any more.
    pub removed: Vec<u128>,
}

/// The name of the theme that `windows` give for `id`, from the one at `i` on.
pub open spec fn theme_name_from(windows: Seq<ThemedWindow>, id: u128, i: int) -> Option<Seq<char>>
    decreases windows.len() - i,
{
    if i < 0 || i >= windows.len() {
        None
    } else if windows[i].id == id {
        Some(windows[i].theme_name@)
    } else {
        theme_name_from(windows, id, i + 1)
    }
}

/// The theme of the window `id`: the one by the name it was given, if there is
/// one.
pub open spec fn theme_for(
    windows: Seq<ThemedWindow>,
    themes: Map<Seq<char>, ThemeView>,
    id: u128,
) -> Option<ThemeView> {
    match theme_name_from(windows, id, 0) {
        Some(name) => if themes.contains_key(name) {
            Some(themes[name])
        } else {
            None
        },
        None => None,
    }
}

/// The overlay of `id`, from the one at `i` on.
pub open spec fn overlay_from(overlays: Seq<ThemeOverlay>, id: u128, i: int) -> Option<ThemeOverlay>
    decreases overlays.len() - i,
{
    if i < 0 || i >= overlays.len() {
        None
    } else if overlays[i].id == id {
        Some(overlays[i])
    } else {
        overlay_from(overlays, id, i + 1)
    }
}

/// Whether the overlay of a window is not to be seen: a window that is out of
/// sight, or that something else stands in for, is not drawn over.
pub open spec fn hides_overlay(w: ThemeWindow) -> bool {
    w.state is Minimized || !w.is_displayed || w.has_stand_in
}

impl ColorThemeState {
    /// Whether the window `id` is to be drawn in a theme.
    pub open spec fn wants(self, themes: Map<Seq<char>, ThemeView>, id: u128) -> bool {
        theme_for(self.windows@, themes, id) is Some && !self.failures@.contains(id)
    }

    /// Whether no theme is in use.
    pub open spec fn spec_is_idle(self) -> bool {
        self.windows@.len() == 0 && self.overlays@.len() == 0 && self.popups@.len() == 0
    }

    /// What happens to the overlay of `w`, which is to be drawn in a theme.
    pub open spec fn action(self, redrawing: Seq<u128>, w: ThemeWindow) -> ThemeAction {
        let overlay = overlay_from(self.overlays@, w.id, 0);
        if hides_overlay(w) {
            if overlay matches Some(o) && o.is_visible {
                ThemeAction::Hide
            } else {
                ThemeAction::Leave
            }
        } else {
            match overlay {
                None => ThemeAction::Create { hwnd: w.hwnd },
                Some(o) => if o.has_failed {
                    ThemeAction::GiveUp
                } else if redrawing.contains(w.id) || !o.is_visible {
                    ThemeAction::SetThemeAndMove { hwnd: w.hwnd }
                } else {
                    ThemeAction::SetThemeAndRestack { hwnd: w.hwnd }
                },
            }
        }
    }

    /// What happens to the overlays of `windows`, in order.
    pub open spec fn steps(
        self,
        themes: Map<Seq<char>, ThemeView>,
        redrawing: Seq<u128>,
        windows: Seq<ThemeWindow>,
    ) -> Seq<ThemeStep>
        decreases windows.len(),
    {
        if windows.len() == 0 {
            Seq::empty()
        } else {
            let rest = self.steps(themes, redrawing, windows.drop_last());
            let w = windows.last();
            if self.wants(themes, w.id) {
                rest.push(ThemeStep { id: w.id, action: self.action(redrawing, w) })
            } else {
                rest
            }
        }
    }

    /// Whether the overlay of `id` is to be kept.
    pub open spec fn keeps(
        self,
        themes: Map<Seq<char>, ThemeView>,
        windows: Seq<ThemeWindow>,
        id: u128,
    ) -> bool {
        self.wants(themes, id) && exists|k: int|
            0 <= k < windows.len() && (#[trigger] windows[k]).id == id
    }

    /// The overlays among `overlays` that are not to be kept.
    pub open spec fn dropped(
        self,
        themes: Map<Seq<char>, ThemeView>,
        windows: Seq<ThemeWindow>,
        overlays: Seq<ThemeOverlay>,
    ) -> Seq<u128>
        decreases overlays.len(),
    {
        if overlays.len() == 0 {
            Seq::empty()
        } else {
            let rest = self.dropped(themes, windows, overlays.drop_last());
            if self.keeps(themes, windows, overlays.last().id) {
                rest
            } else {
                rest.push(overlays.last().id)
            }
        }
    }

    /// The theme that the overlay of the window `id`, and those of its popups,
    /// are made with and set to.
    pub fn theme_of<'a>(&self, themes: &'a ColorThemes, id: u128) -> (result: Option<&'a ColorTheme>)
        ensures
            match result {
                Some(theme) => theme_for(self.windows@, themes@, id) == Some(theme@),
                None => theme_for(self.windows@, themes@, id) is None,
            },
    {
        let mut i: usize = 0;
        while i < self.windows.len()
            invariant
                i <= self.windows@.len(),
                theme_name_from(self.windows@, id, i as int) == theme_name_from(
                    self.windows@,
                    id,
                    0,
                ),
            decreases self.windows@.len() - i,
        {
            if self.windows[i].id == id {
                return themes.get(self.windows[i].theme_name.as_str());
            }
            i = i + 1;
        }
        None
    }

    fn overlay_of(&self, id: u128) -> (result: Option<ThemeOverlay>)
        ensures
            result == overlay_from(self.overlays@, id, 0),
    {
        let mut i: usize = 0;
        while i < self.overlays.len()
            invariant
                i <= self.overlays@.len(),
                overlay_from(self.overlays@, id, i as int) == overlay_from(self.overlays@, id, 0),
            decreases self.overlays@.len() - i,
        {
            if self.overlays[i].id == id {
                return Some(self.overlays[i]);
            }
            i = i + 1;
        }
        None
    }

    fn wants_exec(&self, themes: &ColorThemes, id: u128) -> (result: bool)
        ensures
            result == self.wants(themes@, id),
    {
        self.theme_of(themes, id).is_some() && position(&self.failures, id).is_none()
    }

    fn action_exec(&self, redrawing: &Vec<u128>, w: &ThemeWindow) -> (result: ThemeAction)
        ensures
            result == self.action(redrawing@, *w),
    {
        let overlay = self.overlay_of(w.id);
        let is_minimized: bool = match w.state {
            WindowState::Minimized => true,
            _ => false,
        };
        if is_minimized || !w.is_displayed || w.has_stand_in {
            match overlay {
                Some(o) => if o.is_visible {
                    ThemeAction::Hide
                } else {
                    ThemeAction::Leave
                },
                None => ThemeAction::Leave,
            }
        } else {
            match overlay {
                None => ThemeAction::Create { hwnd: w.hwnd },
                Some(o) => if o.has_failed {
                    ThemeAction::GiveUp
                } else if position(redrawing, w.id).is_some() || !o.is_visible {
                    ThemeAction::SetThemeAndMove { hwnd: w.hwnd }
                } else {
                    ThemeAction::SetThemeAndRestack { hwnd: w.hwnd }
                },
            }
        }
    }

    /// Notes that the overlay of `id` could not be made or has stopped.
    pub fn give_up(&mut self, id: u128)
        ensures
            final(self).windows == old(self).windows,
            final(self).popups == old(self).popups,
            final(self).overlays@ == old(self).overlays@.filter(is_not_of(id)),
            final(self).failures@ == (if old(self).failures@.contains(id) {
                old(self).failures@
            } else {
                old(self).failures@.push(id)
            }),
    {
        if position(&self.failures, id).is_none() {
            self.failures.push(id);
        }
        self.overlays = without_overlay(&self.overlays, id);
    }
}

/// Picks the overlays of other windows than `id`.
pub open spec fn is_not_of(id: u128) -> spec_fn(ThemeOverlay) -> bool {
    |o: ThemeOverlay| o.id != id
}

fn without_overlay(overlays: &Vec<ThemeOverlay>, id: u128) -> (result: Vec<ThemeOverlay>)
    ensures
        result@ == overlays@.filter(is_not_of(id)),
{
    let mut result: Vec<ThemeOverlay> = Vec::new();
    let ghost pred = is_not_of(id);
    let mut i: usize = 0;
    proof {
        reveal(Seq::filter);
    }
    while i < overlays.len()
        invariant
            i <= overlays@.len(),
            pred == is_not_of(id),
            result@ == overlays@.subrange(0, i as int).filter(pred),
        decreases overlays@.len() - i,
    {
        proof {
            reveal(Seq::filter);
            assert(overlays@.subrange(0, i + 1).drop_last() =~= overlays@.subrange(0, i as int));
        }
        if overlays[i].id != id {
            result.push(overlays[i]);
        }
        i = i + 1;
    }
    proof {
        assert(overlays@.subrange(0, i as int) =~= overlays@);
    }
    result
}

/// Decides what happens to the overlays that draw windows in their themes.
pub fn sync_color_themes(
    state: &ColorThemeState,
    themes: &ColorThemes,
    redrawing: &Vec<u128>,
    windows: &Vec<ThemeWindow>,
) -> (plan: ThemePlan)
    ensures
        state.spec_is_idle() ==> plan.steps@.len() == 0 && plan.removed@.len() == 0,
        !state.spec_is_idle() ==> {
            &&& plan.steps@ == state.steps(themes@, redrawing@, windows@)
            &&& plan.removed@ == state.dropped(themes@, windows@, state.overlays@)
        },
{
    let mut steps: Vec<ThemeStep> = Vec::new();
    let mut removed: Vec<u128> = Vec::new();
    if state.windows.len() == 0 && state.overlays.len() == 0 && state.popups.len() == 0 {
        return ThemePlan { steps, removed };
    }
    let mut i: usize = 0;
    while i < windows.len()
        invariant
            i <= windows@.len(),
            steps@ == state.steps(themes@, redrawing@, windows@.subrange(0, i as int)),
        decreases windows@.len() - i,
    {
        let w = windows[i];
        proof {
            let next = windows@.subrange(0, i + 1);
            assert(next.drop_last() =~= windows@.subrange(0, i as int));
        }
        if state.wants_exec(themes, w.id) {
            steps.push(ThemeStep { id: w.id, action: state.action_exec(redrawing, &w) });
        }
        i = i + 1;
    }
    let mut k: usize = 0;
    while k < state.overlays.len()
        invariant
            k <= state.overlays@.len(),
            removed@ == state.dropped(themes@, windows@, state.overlays@.subrange(0, k as int)),
        decreases state.overlays@.len() - k,
    {
        let id: u128 = state.overlays[k].id;
        let mut is_window: bool = false;
        let mut j: usize = 0;
        while j < windows.len() && !is_window
            invariant
                j <= windows@.len(),
                is_window ==> exists|q: int|
                    0 <= q < windows@.len() && (#[trigger] windows@[q]).id == id,
                !is_window ==> forall|q: int| 0 <= q < j ==> (#[trigger] windows@[q]).id != id,
            decreases windows@.len() - j,
        {
            if windows[j].id == id {
                is_window = true;
            }
            j = j + 1;
        }
        proof {
            let next = state.overlays@.subrange(0, k + 1);
            assert(next.drop_last() =~= state.overlays@.subrange(0, k as int));
        }
        if !(is_window && state.wants_exec(themes, id)) {
            removed.push(id);
        }
        k = k + 1;
    }
    proof {
        assert(windows@.subrange(0, i as int) =~= windows@);
        assert(state.overlays@.subrange(0, k as int) =~= state.overlays@);
    }
    ThemePlan { steps, removed }
}

/// Whether the popup is kept: its owner is drawn in a theme and seen, and it
/// has not stopped itself.
pub open spec fn keeps_popup(
    overlays: Seq<ThemeOverlay>,
    windows: Seq<ThemedWindow>,
    themes: Map<Seq<char>, ThemeView>,
) -> spec_fn(ColorThemePopup) -> bool {
    |p: ColorThemePopup|
        {
            &&& overlay_from(overlays, p.owner, 0) matches Some(o) && o.is_visible
            &&& theme_for(windows, themes, p.owner) is Some
            &&& !p.has_failed
        }
}

/// Picks the windows that are still there.
pub open spec fn is_live(live: Seq<u128>) -> spec_fn(ThemedWindow) -> bool {
    |w: ThemedWindow| live.contains(w.id)
}

/// Picks the ids that are still there.
pub open spec fn is_live_id(live: Seq<u128>) -> spec_fn(u128) -> bool {
    |id: u128| live.contains(id)
}

impl ColorThemeState {
    /// Drops the popups whose owners are not drawn in a theme and seen any
    /// more, or that have stopped. The theme of those left is set again, and
    /// they go right above their windows.
    pub fn sync_color_theme_popups(&mut self, themes: &ColorThemes)
        ensures
            final(self).windows == old(self).windows,
            final(self).overlays == old(self).overlays,
            final(self).failures == old(self).failures,
            final(self).popups@ == old(self).popups@.filter(
                keeps_popup(old(self).overlays@, old(self).windows@, themes@),
            ),
    {
        let mut kept: Vec<ColorThemePopup> = Vec::new();
        let ghost pred = keeps_popup(self.overlays@, self.windows@, themes@);
        let mut i: usize = 0;
        proof {
            reveal(Seq::filter);
        }
        while i < self.popups.len()
            invariant
                i <= self.popups@.len(),
                *self == *old(self),
                pred == keeps_popup(self.overlays@, self.windows@, themes@),
                kept@ == self.popups@.subrange(0, i as int).filter(pred),
            decreases self.popups@.len() - i,
        {
            proof {
                reveal(Seq::filter);
                assert(self.popups@.subrange(0, i + 1).drop_last() =~= self.popups@.subrange(
                    0,
                    i as int,
                ));
            }
            let p = self.popups[i];
            let is_seen: bool = match self.overlay_of(p.owner) {
                Some(o) => o.is_visible,
                None => false,
            };
            if is_seen && self.theme_of(themes, p.owner).is_some() && !p.has_failed {
                kept.push(p);
            }
            i = i + 1;
        }
        proof {
            assert(self.popups@.subrange(0, i as int) =~= self.popups@);
        }
        self.popups = kept;
    }

    /// Forgets windows that are gone.
    pub fn forget_gone(&mut self, live: &Vec<u128>)
        ensures
            final(self).windows@ == old(self).windows@.filter(is_live(live@)),
            final(self).failures@ == old(self).failures@.filter(is_live_id(live@)),
            final(self).overlays == old(self).overlays,
            final(self).popups == old(self).popups,
    {
        let mut windows: Vec<ThemedWindow> = Vec::new();
        let ghost wpred = is_live(live@);
        let ghost fpred = is_live_id(live@);
        let mut i: usize = 0;
        proof {
            reveal(Seq::filter);
        }
        while i < self.windows.len()
            invariant
                i <= self.windows@.len(),
                *self == *old(self),
                wpred == is_live(live@),
                windows@ == self.windows@.subrange(0, i as int).filter(wpred),
            decreases self.windows@.len() - i,
        {
            proof {
                reveal(Seq::filter);
                assert(self.windows@.subrange(0, i + 1).drop_last() =~= self.windows@.subrange(
                    0,
                    i as int,
                ));
            }
            let w = &self.windows[i];
            if position(live, w.id).is_some() {
                windows.push(ThemedWindow { id: w.id, theme_name: w.theme_name.clone() });
            }
            i = i + 1;
        }
        let mut failures: Vec<u128> = Vec::new();
        let mut k: usize = 0;
        while k < self.failures.len()
            invariant
                k <= self.failures@.len(),
                *self == *old(self),
                fpred == is_live_id(live@),
                failures@ == self.failures@.subrange(0, k as int).filter(fpred),
            decreases self.failures@.len() - k,
        {
            proof {
                crate::stack::lemma_filter_step(self.failures@, fpred, k as int);
            }
            if position(live, self.failures[k]).is_some() {
                failures.push(self.failures[k]);
            }
            k = k + 1;
        }
        proof {
            assert(self.windows@.subrange(0, i as int) =~= self.windows@);
            assert(self.failures@.subrange(0, k as int) =~= self.failures@);
        }
        self.windows = windows;
        self.failures = failures;
    }
}

/// What came of a step.
#[derive(Clone, Copy, Debug, PartialEq, Eq, Structural)]
pub enum StepReply {
    /// The overlay is there, and is seen or not.
    Overlay { is_visible: bool },
    /// It is not clear where the window is, so nothing was made or moved.
    NoFrame,
    /// The overlay could not be made.
    Failed,
}

/// The overlays with the one of `id` seen or not.
pub open spec fn with_visibility(overlays: Seq<ThemeOverlay>, id: u128, is_visible: bool) -> Seq<
    ThemeOverlay,
> {
    overlays.map_values(
        |o: ThemeOverlay|
            if o.id == id {
                ThemeOverlay { is_visible, ..o }
            } else {
                o
            },
    )
}

/// The ids with `id` among them.
pub open spec fn noted(ids: Seq<u128>, id: u128) -> Seq<u128> {
    if ids.contains(id) {
        ids
    } else {
        ids.push(id)
    }
}

/// The overlays and the windows that are given up, after one step.
pub open spec fn after_step(
    overlays: Seq<ThemeOverlay>,
    failures: Seq<u128>,
    step: ThemeStep,
    reply: StepReply,
) -> (Seq<ThemeOverlay>, Seq<u128>) {
    match step.action {
        ThemeAction::Leave => (overlays, failures),
        ThemeAction::Hide => (with_visibility(overlays, step.id, false), failures),
        ThemeAction::GiveUp => (overlays.filter(is_not_of(step.id)), noted(failures, step.id)),
        ThemeAction::SetThemeAndMove { .. } | ThemeAction::SetThemeAndRestack { .. } => match reply {
            StepReply::Overlay { is_visible } => (
                with_visibility(overlays, step.id, is_visible),
                failures,
            ),
            _ => (overlays, failures),
        },
        ThemeAction::Create { .. } => match reply {
            StepReply::Overlay { is_visible } => (
                overlays.push(ThemeOverlay { id: step.id, is_visible, has_failed: false }),
                failures,
            ),
            StepReply::NoFrame => (overlays, failures),
            StepReply::Failed => (overlays, noted(failures, step.id)),
        },
    }
}

/// The overlays and the windows that are given up, after all steps.
pub open spec fn after_steps(
    overlays: Seq<ThemeOverlay>,
    failures: Seq<u128>,
    steps: Seq<ThemeStep>,
    replies: Seq<StepReply>,
) -> (Seq<ThemeOverlay>, Seq<u128>)
    decreases steps.len(),
{
    if steps.len() == 0 {
        (overlays, failures)
    } else {
        let (o, f) = after_steps(overlays, failures, steps.drop_last(), replies);
        after_step(o, f, steps.last(), replies[steps.len() - 1])
    }
}

/// Picks the overlays that are not taken away.
pub open spec fn is_not_among(removed: Seq<u128>) -> spec_fn(ThemeOverlay) -> bool {
    |o: ThemeOverlay| !removed.contains(o.id)
}

/// The ids of the windows.
pub open spec fn window_ids(windows: Seq<ThemeWindow>) -> Seq<u128> {
    windows.map_values(|w: ThemeWindow| w.id)
}

fn set_visibility(overlays: &mut Vec<ThemeOverlay>, id: u128, is_visible: bool)
    ensures
        final(overlays)@ == with_visibility(old(overlays)@, id, is_visible),
{
    let mut i: usize = 0;
    while i < overlays.len()
        invariant
            i <= overlays@.len(),
            overlays@.len() == old(overlays)@.len(),
            overlays@.subrange(0, i as int) =~= with_visibility(
                old(overlays)@,
                id,
                is_visible,
            ).subrange(0, i as int),
            overlays@.subrange(i as int, overlays@.len() as int) =~= old(overlays)@.subrange(
                i as int,
                overlays@.len() as int,
            ),
        decreases overlays@.len() - i,
    {
        let o = overlays[i];
        proof {
            assert(overlays@.subrange(i as int, overlays@.len() as int)[0] == o);
            assert(old(overlays)@.subrange(i as int, overlays@.len() as int)[0] == old(
                overlays,
            )@[i as int]);
        }
        let ghost before = overlays@;
        if o.id == id {
            overlays[i] = ThemeOverlay { id: o.id, is_visible, has_failed: o.has_failed };
        }
        proof {
            assert forall|k: int| 0 <= k < i implies overlays@[k] == with_visibility(
                old(overlays)@,
                id,
                is_visible,
            )[k] by {
                assert(before.subrange(0, i as int)[k] == with_visibility(
                    old(overlays)@,
                    id,
                    is_visible,
                ).subrange(0, i as int)[k]);
            }
            assert forall|k: int| i < k < overlays@.len() implies overlays@[k] == old(
                overlays,
            )@[k] by {
                assert(before.subrange(i as int, before.len() as int)[k - i] == old(
                    overlays,
                )@.subrange(i as int, before.len() as int)[k - i]);
            }
        }
        i = i + 1;
    }
    proof {
        assert(overlays@ =~= with_visibility(old(overlays)@, id, is_visible)) by {
            assert(overlays@.subrange(0, i as int) =~= overlays@);
            assert(with_visibility(old(overlays)@, id, is_visible).subrange(0, i as int)
                =~= with_visibility(old(overlays)@, id, is_visible));
        }
    }
}

impl ColorThemeState {
    fn note_reply(&mut self, step: ThemeStep, reply: StepReply)
        ensures
            final(self).windows == old(self).windows,
            final(self).popups == old(self).popups,
            (final(self).overlays@, final(self).failures@) == after_step(
                old(self).overlays@,
                old(self).failures@,
                step,
                reply,
            ),
    {
        match step.action {
            ThemeAction::Leave => {},
            ThemeAction::Hide => {
                set_visibility(&mut self.overlays, step.id, false);
            },
            ThemeAction::GiveUp => {
                self.give_up(step.id);
            },
            ThemeAction::SetThemeAndMove { .. } | ThemeAction::SetThemeAndRestack { .. } => {
                if let StepReply::Overlay { is_visible } = reply {
                    set_visibility(&mut self.overlays, step.id, is_visible);
                }
            },
            ThemeAction::Create { .. } => match reply {
                StepReply::Overlay { is_visible } => {
                    self.overlays.push(
                        ThemeOverlay { id: step.id, is_visible, has_failed: false },
                    );
                },
                StepReply::NoFrame => {},
                StepReply::Failed => {
                    if position(&self.failures, step.id).is_none() {
                        self.failures.push(step.id);
                    }
                },
            },
        }
    }

    /// Ends the cycle that `plan` began, with what came of its steps: the
    /// overlays are noted and those that are not wanted taken away, then the
    /// popups follow, and windows that are gone are forgotten.
    pub fn finish_sync(
        &mut self,
        plan: &ThemePlan,
        replies: &Vec<StepReply>,
        themes: &ColorThemes,
        windows: &Vec<ThemeWindow>,
    )
        requires
            replies@.len() == plan.steps@.len(),
        ensures
            if old(self).spec_is_idle() {
                *final(self) == *old(self)
            } else {
                let (overlays, failures) = after_steps(
                    old(self).overlays@,
                    old(self).failures@,
                    plan.steps@,
                    replies@,
                );
                &&& final(self).overlays@ == overlays.filter(is_not_among(plan.removed@))
                &&& final(self).popups@ == old(self).popups@.filter(
                    keeps_popup(final(self).overlays@, old(self).windows@, themes@),
                )
                &&& final(self).windows@ == old(self).windows@.filter(
                    is_live(window_ids(windows@)),
                )
                &&& final(self).failures@ == failures.filter(is_live_id(window_ids(windows@)))
            },
    {
        if self.windows.len() == 0 && self.overlays.len() == 0 && self.popups.len() == 0 {
            return;
        }
        let mut i: usize = 0;
        while i < plan.steps.len()
            invariant
                i <= plan.steps@.len(),
                replies@.len() == plan.steps@.len(),
                self.windows == old(self).windows,
                self.popups == old(self).popups,
                (self.overlays@, self.failures@) == after_steps(
                    old(self).overlays@,
                    old(self).failures@,
                    plan.steps@.subrange(0, i as int),
                    replies@,
                ),
            decreases plan.steps@.len() - i,
        {
            proof {
                let next = plan.steps@.subrange(0, i + 1);
                assert(next.drop_last() =~= plan.steps@.subrange(0, i as int));
                assert(next.last() == plan.steps@[i as int]);
            }
            self.note_reply(plan.steps[i], replies[i]);
            i = i + 1;
        }
        proof {
            assert(plan.steps@.subrange(0, i as int) =~= plan.steps@);
        }
        self.overlays = kept_overlays(&self.overlays, &plan.removed);
        self.sync_color_theme_popups(themes);
        let mut live: Vec<u128> = Vec::new();
        let mut k: usize = 0;
        while k < windows.len()
            invariant
                k <= windows@.len(),
                live@ =~= window_ids(windows@).subrange(0, k as int),
            decreases windows@.len() - k,
        {
            live.push(windows[k].id);
            k = k + 1;
        }
        proof {
            assert(live@ =~= window_ids(windows@));
        }
        self.forget_gone(&live);
    }
}

fn kept_overlays(overlays: &Vec<ThemeOverlay>, removed: &Vec<u128>) -> (result: Vec<ThemeOverlay>)
    ensures
        result@ == overlays@.filter(is_not_among(removed@)),
{
    let mut result: Vec<ThemeOverlay> = Vec::new();
    let ghost pred = is_not_among(removed@);
    let mut i: usize = 0;
    proof {
        reveal(Seq::filter);
    }
    while i < overlays.len()
        invariant
            i <= overlays@.len(),
            pred == is_not_among(removed@),
            result@ == overlays@.subrange(0, i as int).filter(pred),
        decreases overlays@.len() - i,
    {
        proof {
            reveal(Seq::filter);
            assert(overlays@.subrange(0, i + 1).drop_last() =~= overlays@.subrange(0, i as int));
        }
        if position(removed, overlays[i].id).is_none() {
            result.push(overlays[i]);
        }
        i = i + 1;
    }
    proof {
        assert(overlays@.subrange(0, i as int) =~= overlays@);
    }
    result
}

/// What is known of a window that nobody manages.
#[derive(Clone, Copy, Debug, PartialEq, Eq, Structural)]
pub struct PopupCandidate {
    pub hwnd: isize,
    pub is_managed: bool,
    /// Where it is, if that can be told.
    pub frame: Option<Rect>,
    pub is_top_level: bool,
    pub is_visible: bool,
    pub process_id: u32,
}

/// What happens for a window that may be a popup.
#[derive(Clone, Copy, Debug, PartialEq, Eq, Structural)]
pub enum PopupAction {
    Ignore,
    /// The overlay of the popup goes to where it is now.
    Move,
    /// The popup is drawn in the theme of `owner`.
    Create { owner: u128 },
}

/// Whether `w` is drawn in a theme and seen, and belongs to `process_id`.
pub open spec fn owns_popups_of(
    state: ColorThemeState,
    themes: Map<Seq<char>, ThemeView>,
    process_id: u32,
    w: ThemeWindow,
) -> bool {
    &&& overlay_from(state.overlays@, w.id, 0) matches Some(o) && o.is_visible
    &&& theme_for(state.windows@, themes, w.id) is Some
    &&& w.process_id == process_id
}

/// The first of `windows` from `i` on that is drawn in a theme and seen and
/// belongs to `process_id`.
pub open spec fn popup_owner_from(
    state: ColorThemeState,
    themes: Map<Seq<char>, ThemeView>,
    process_id: u32,
    windows: Seq<ThemeWindow>,
    i: int,
) -> Option<u128>
    decreases windows.len() - i,
{
    if i < 0 || i >= windows.len() {
        None
    } else if owns_popups_of(state, themes, process_id, windows[i]) {
        Some(windows[i].id)
    } else {
        popup_owner_from(state, themes, process_id, windows, i + 1)
    }
}

/// Whether an overlay exists for the popup `hwnd`.
pub open spec fn has_popup(popups: Seq<ColorThemePopup>, hwnd: isize) -> bool {
    exists|k: int| 0 <= k < popups.len() && (#[trigger] popups[k]).hwnd == hwnd
}

pub open spec fn popup_action(
    state: ColorThemeState,
    themes: Map<Seq<char>, ThemeView>,
    windows: Seq<ThemeWindow>,
    c: PopupCandidate,
) -> PopupAction {
    if state.overlays@.len() == 0 || c.is_managed || c.frame is None {
        PopupAction::Ignore
    } else if has_popup(state.popups@, c.hwnd) {
        PopupAction::Move
    } else if !c.is_top_level || !c.is_visible || c.frame->0.spec_is_empty() {
        PopupAction::Ignore
    } else {
        match popup_owner_from(state, themes, c.process_id, windows, 0) {
            Some(owner) => PopupAction::Create { owner },
            None => PopupAction::Ignore,
        }
    }
}

fn has_popup_exec(popups: &Vec<ColorThemePopup>, hwnd: isize) -> (result: bool)
    ensures
        result == has_popup(popups@, hwnd),
{
    let mut i: usize = 0;
    while i < popups.len()
        invariant
            i <= popups@.len(),
            forall|k: int| 0 <= k < i ==> (#[trigger] popups@[k]).hwnd != hwnd,
        decreases popups@.len() - i,
    {
        if popups[i].hwnd == hwnd {
            return true;
        }
        i = i + 1;
    }
    false
}

fn find_popup_owner(
    state: &ColorThemeState,
    themes: &ColorThemes,
    process_id: u32,
    windows: &Vec<ThemeWindow>,
) -> (result: Option<u128>)
    ensures
        result == popup_owner_from(*state, themes@, process_id, windows@, 0),
{
    let mut i: usize = 0;
    while i < windows.len()
        invariant
            i <= windows@.len(),
            popup_owner_from(*state, themes@, process_id, windows@, i as int)
                == popup_owner_from(*state, themes@, process_id, windows@, 0),
        decreases windows@.len() - i,
    {
        let w = windows[i];
        let is_seen: bool = match state.overlay_of(w.id) {
            Some(o) => o.is_visible,
            None => false,
        };
        if is_seen && state.theme_of(themes, w.id).is_some() && w.process_id == process_id {
            return Some(w.id);
        }
        i = i + 1;
    }
    None
}

/// Decides whether a window that nobody manages is drawn along with a themed
/// window of its process: if it is a popup that is seen.
pub fn sync_color_theme_popup(
    state: &ColorThemeState,
    themes: &ColorThemes,
    windows: &Vec<ThemeWindow>,
    c: &PopupCandidate,
) -> (result: PopupAction)
    ensures
        result == popup_action(*state, themes@, windows@, *c),
{
    if state.overlays.len() == 0 || c.is_managed {
        return PopupAction::Ignore;
    }
    let frame = match c.frame {
        Some(frame) => frame,
        None => {
            return PopupAction::Ignore;
        },
    };
    if has_popup_exec(&state.popups, c.hwnd) {
        return PopupAction::Move;
    }
    if !c.is_top_level || !c.is_visible || frame.is_empty() {
        return PopupAction::Ignore;
    }
    match find_popup_owner(state, themes, c.process_id, windows) {
        Some(owner) => PopupAction::Create { owner },
        None => PopupAction::Ignore,
    }
}

/// Picks the popups other than `hwnd`.
pub open spec fn is_other_popup(hwnd: isize) -> spec_fn(ColorThemePopup) -> bool {
    |p: ColorThemePopup| p.hwnd != hwnd
}

/// Stops drawing the popup `hwnd` in a theme.
pub fn remove_color_theme_popup(hwnd: isize, state: &mut ColorThemeState)
    ensures
        final(state).windows == old(state).windows,
        final(state).overlays == old(state).overlays,
        final(state).failures == old(state).failures,
        final(state).popups@ == old(state).popups@.filter(is_other_popup(hwnd)),
{
    let mut kept: Vec<ColorThemePopup> = Vec::new();
    let ghost pred = is_other_popup(hwnd);
    let mut i: usize = 0;
    proof {
        reveal(Seq::filter);
    }
    while i < state.popups.len()
        invariant
            i <= state.popups@.len(),
            *state == *old(state),
            pred == is_other_popup(hwnd),
            kept@ == state.popups@.subrange(0, i as int).filter(pred),
        decreases state.popups@.len() - i,
    {
        proof {
            reveal(Seq::filter);
            assert(state.popups@.subrange(0, i + 1).drop_last() =~= state.popups@.subrange(
                0,
                i as int,
            ));
        }
        if state.popups[i].hwnd != hwnd {
            kept.push(state.popups[i]);
        }
        i = i + 1;
    }
    proof {
        assert(state.popups@.subrange(0, i as int) =~= state.popups@);
    }
    state.popups = kept;
}

/// An overlay that goes right above its window.
#[derive(Clone, Copy, Debug, PartialEq, Eq, Structural)]
pub enum Restack {
    Window { id: u128, hwnd: isize },
    Popup { hwnd: isize },
}

/// The windows among `windows` whose overlays are seen.
pub open spec fn shown_restacks(
    overlays: Seq<ThemeOverlay>,
    windows: Seq<ThemeWindow>,
) -> Seq<Restack>
    decreases windows.len(),
{
    if windows.len() == 0 {
        Seq::empty()
    } else {
        let rest = shown_restacks(overlays, windows.drop_last());
        let w = windows.last();
        if overlay_from(overlays, w.id, 0) matches Some(o) && o.is_visible {
            rest.push(Restack::Window { id: w.id, hwnd: w.hwnd })
        } else {
            rest
        }
    }
}

/// The popups, each to go right above its window.
pub open spec fn popup_restacks(popups: Seq<ColorThemePopup>) -> Seq<Restack> {
    popups.map_values(|p: ColorThemePopup| Restack::Popup { hwnd: p.hwnd })
}

/// Lists the overlays that go right above their windows again: all that are
/// seen.
pub fn resync_color_theme_z_order(state: &ColorThemeState, windows: &Vec<ThemeWindow>) -> (result:
    Vec<Restack>)
    ensures
        result@ == (if state.overlays@.len() == 0 {
            Seq::empty()
        } else {
            shown_restacks(state.overlays@, windows@) + popup_restacks(state.popups@)
        }),
{
    let mut result: Vec<Restack> = Vec::new();
    if state.overlays.len() == 0 {
        return result;
    }
    let mut i: usize = 0;
    while i < windows.len()
        invariant
            i <= windows@.len(),
            result@ == shown_restacks(state.overlays@, windows@.subrange(0, i as int)),
        decreases windows@.len() - i,
    {
        let w = windows[i];
        proof {
            let next = windows@.subrange(0, i + 1);
            assert(next.drop_last() =~= windows@.subrange(0, i as int));
        }
        if let Some(o) = state.overlay_of(w.id) {
            if o.is_visible {
                result.push(Restack::Window { id: w.id, hwnd: w.hwnd });
            }
        }
        i = i + 1;
    }
    proof {
        assert(windows@.subrange(0, i as int) =~= windows@);
    }
    let ghost shown = result@;
    let mut k: usize = 0;
    while k < state.popups.len()
        invariant
            k <= state.popups@.len(),
            result@ =~= shown + popup_restacks(state.popups@).subrange(0, k as int),
        decreases state.popups@.len() - k,
    {
        result.push(Restack::Popup { hwnd: state.popups[k].hwnd });
        k = k + 1;
    }
    proof {
        assert(popup_restacks(state.popups@).subrange(0, k as int) =~= popup_restacks(
            state.popups@,
        ));
    }
    result
}

/// A window whose overlay was given up is not drawn in a theme again.
pub proof fn given_up_stays_given_up(
    state: ColorThemeState,
    themes: Map<Seq<char>, ThemeView>,
    redrawing: Seq<u128>,
    windows: Seq<ThemeWindow>,
    id: u128,
    k: int,
)
    requires
        state.failures@.contains(id),
        0 <= k < state.steps(themes, redrawing, windows).len(),
    ensures
        state.steps(themes, redrawing, windows)[k].id != id,
    decreases windows.len(),
{
    let rest = state.steps(themes, redrawing, windows.drop_last());
    if k < rest.len() {
        given_up_stays_given_up(state, themes, redrawing, windows.drop_last(), id, k);
    }
}

proof fn lemma_theme_name(windows: Seq<ThemedWindow>, id: u128, i: int, k: int)
    requires
        0 <= i <= k <= windows.len(),
        forall|j: int| i <= j < k ==> (#[trigger] windows[j]).id != id,
    ensures
        k < windows.len() && windows[k].id == id ==> theme_name_from(windows, id, i) == Some(
            windows[k].theme_name@,
        ),
        k == windows.len() ==> theme_name_from(windows, id, i) is None,
    decreases windows.len() - i,
{
    if i < k {
        assert(windows[i].id != id);
        lemma_theme_name(windows, id, i + 1, k);
    }
}

/// A window is drawn in the theme that it was first given, if there is one by
/// that name, and in none if it was given none.
pub proof fn windows_have_the_theme_they_were_given(
    windows: Seq<ThemedWindow>,
    themes: Map<Seq<char>, ThemeView>,
    id: u128,
    k: int,
)
    requires
        0 <= k <= windows.len(),
        forall|j: int| 0 <= j < k ==> (#[trigger] windows[j]).id != id,
    ensures
        k == windows.len() ==> theme_for(windows, themes, id) is None,
        k < windows.len() && windows[k].id == id ==> (if themes.contains_key(windows[k].theme_name@) {
            theme_for(windows, themes, id) == Some(themes[windows[k].theme_name@])
        } else {
            theme_for(windows, themes, id) is None
        }),
{
    lemma_theme_name(windows, id, 0, k);
}

proof fn lemma_overlay(overlays: Seq<ThemeOverlay>, id: u128, i: int, k: int)
    requires
        0 <= i <= k <= overlays.len(),
        forall|j: int| i <= j < k ==> (#[trigger] overlays[j]).id != id,
    ensures
        k < overlays.len() && overlays[k].id == id ==> overlay_from(overlays, id, i) == Some(
            overlays[k],
        ),
        k == overlays.len() ==> overlay_from(overlays, id, i) is None,
    decreases overlays.len() - i,
{
    if i < k {
        assert(overlays[i].id != id);
        lemma_overlay(overlays, id, i + 1, k);
    }
}

/// What happens to the overlay of a window that is drawn in a theme. If the
/// window is minimized, not displayed, or something stands in for it, an overlay
/// that is seen is hidden. Else a missing overlay is made, one that has failed
/// is given up, and any other is set to the theme: it moves if the window is
/// redrawn or if it was hidden.
pub proof fn theme_overlays_keep_up(
    state: ColorThemeState,
    redrawing: Seq<u128>,
    w: ThemeWindow,
    k: int,
)
    requires
        0 <= k <= state.overlays@.len(),
        forall|j: int| 0 <= j < k ==> (#[trigger] state.overlays@[j]).id != w.id,
        k < state.overlays@.len() ==> state.overlays@[k].id == w.id,
    ensures
        ({
            let is_gone = w.state is Minimized || !w.is_displayed || w.has_stand_in;
            let is_seen = k < state.overlays@.len() && state.overlays@[k].is_visible;
            &&& is_gone ==> state.action(redrawing, w) == (if is_seen {
                ThemeAction::Hide
            } else {
                ThemeAction::Leave
            })
            &&& !is_gone && k == state.overlays@.len() ==> state.action(redrawing, w)
                == (ThemeAction::Create { hwnd: w.hwnd })
            &&& !is_gone && k < state.overlays@.len() ==> state.action(redrawing, w) == (
            if state.overlays@[k].has_failed {
                ThemeAction::GiveUp
            } else if is_seen && !redrawing.contains(w.id) {
                ThemeAction::SetThemeAndRestack { hwnd: w.hwnd }
            } else {
                ThemeAction::SetThemeAndMove { hwnd: w.hwnd }
            })
        }),
{
    lemma_overlay(state.overlays@, w.id, 0, k);
}

/// Windows are drawn in their themes in turn. One that has no theme, or was
/// given up, is passed over.
pub proof fn themed_windows_are_drawn_in_turn(
    state: ColorThemeState,
    themes: Map<Seq<char>, ThemeView>,
    redrawing: Seq<u128>,
    windows: Seq<ThemeWindow>,
    w: ThemeWindow,
)
    ensures
        state.steps(themes, redrawing, Seq::empty()) == Seq::<ThemeStep>::empty(),
        state.steps(themes, redrawing, windows.push(w)) == state.steps(themes, redrawing, windows) + (
        if theme_for(state.windows@, themes, w.id) is Some && !state.failures@.contains(w.id) {
            seq![ThemeStep { id: w.id, action: state.action(redrawing, w) }]
        } else {
            Seq::empty()
        }),
{
    assert(windows.push(w).drop_last() =~= windows);
}

/// An overlay is kept exactly if its window is there, has a theme and was not
/// given up.
pub proof fn overlays_without_a_theme_are_removed(
    state: ColorThemeState,
    themes: Map<Seq<char>, ThemeView>,
    windows: Seq<ThemeWindow>,
    overlays: Seq<ThemeOverlay>,
    o: ThemeOverlay,
)
    ensures
        state.dropped(themes, windows, Seq::empty()) == Seq::<u128>::empty(),
        state.dropped(themes, windows, overlays.push(o)) == (if (exists|k: int|
            0 <= k < windows.len() && (#[trigger] windows[k]).id == o.id) && theme_for(
            state.windows@,
            themes,
            o.id,
        ) is Some && !state.failures@.contains(o.id) {
            state.dropped(themes, windows, overlays)
        } else {
            state.dropped(themes, windows, overlays).push(o.id)
        }),
        state.spec_is_idle() <==> state.windows@.len() == 0 && state.overlays@.len() == 0
            && state.popups@.len() == 0,
{
    assert(overlays.push(o).drop_last() =~= overlays);
}

/// A popup is kept exactly if the overlay of its owner is seen, the owner has a
/// theme, and the popup has not failed.
pub proof fn popups_go_with_their_owners(
    overlays: Seq<ThemeOverlay>,
    windows: Seq<ThemedWindow>,
    themes: Map<Seq<char>, ThemeView>,
    p: ColorThemePopup,
    k: int,
)
    requires
        0 <= k <= overlays.len(),
        forall|j: int| 0 <= j < k ==> (#[trigger] overlays[j]).id != p.owner,
        k < overlays.len() ==> overlays[k].id == p.owner,
    ensures
        keeps_popup(overlays, windows, themes)(p) <==> k < overlays.len() && overlays[k].is_visible
            && theme_for(windows, themes, p.owner) is Some && !p.has_failed,
{
    lemma_overlay(overlays, p.owner, 0, k);
}

/// What is picked by an id is picked by that id.
pub proof fn picks_go_by_ids(
    live: Seq<u128>,
    w: ThemedWindow,
    o: ThemeOverlay,
    p: ColorThemePopup,
    id: u128,
    hwnd: isize,
)
    ensures
        is_live(live)(w) <==> live.contains(w.id),
        is_live_id(live)(id) <==> live.contains(id),
        is_not_of(id)(o) <==> o.id != id,
        is_not_among(live)(o) <==> !live.contains(o.id),
        is_other_popup(hwnd)(p) <==> p.hwnd != hwnd,
{
}

/// What a step leaves of the overlays and of the windows that are given up. An
/// overlay that is hidden is not seen, one that is given up is gone and its
/// window noted, and one that is set is seen as far as it says. One that is made
/// is added, and a window for which none can be made is noted.
pub proof fn steps_are_carried_out(
    overlays: Seq<ThemeOverlay>,
    failures: Seq<u128>,
    id: u128,
    hwnd: isize,
    is_visible: bool,
    reply: StepReply,
    o: ThemeOverlay,
    x: u128,
)
    ensures
        after_step(overlays, failures, ThemeStep { id, action: ThemeAction::Leave }, reply) == (
            overlays,
            failures,
        ),
        ({
            let (a, f) = after_step(
                overlays,
                failures,
                ThemeStep { id, action: ThemeAction::Hide },
                reply,
            );
            &&& f == failures
            &&& a.len() == overlays.len()
            &&& forall|k: int|
                0 <= k < a.len() ==> (#[trigger] a[k]).id == overlays[k].id && a[k].has_failed
                    == overlays[k].has_failed && a[k].is_visible == (overlays[k].is_visible
                    && overlays[k].id != id)
        }),
        ({
            let (a, f) = after_step(
                overlays,
                failures,
                ThemeStep { id, action: ThemeAction::GiveUp },
                reply,
            );
            &&& f.contains(id)
            &&& f.contains(x) <==> failures.contains(x) || x == id
            &&& a.contains(o) <==> overlays.contains(o) && o.id != id
        }),
        ({
            let (a, f) = after_step(
                overlays,
                failures,
                ThemeStep { id, action: ThemeAction::SetThemeAndMove { hwnd } },
                StepReply::Overlay { is_visible },
            );
            &&& f == failures
            &&& a.len() == overlays.len()
            &&& forall|k: int|
                0 <= k < a.len() ==> (#[trigger] a[k]).id == overlays[k].id && a[k].has_failed
                    == overlays[k].has_failed && a[k].is_visible == (if overlays[k].id == id {
                    is_visible
                } else {
                    overlays[k].is_visible
                })
            &&& (a, f) == after_step(
                overlays,
                failures,
                ThemeStep { id, action: ThemeAction::SetThemeAndRestack { hwnd } },
                StepReply::Overlay { is_visible },
            )
        }),
        !(reply is Overlay) ==> after_step(
            overlays,
            failures,
            ThemeStep { id, action: ThemeAction::SetThemeAndMove { hwnd } },
            reply,
        ) == (overlays, failures) && after_step(
            overlays,
            failures,
            ThemeStep { id, action: ThemeAction::SetThemeAndRestack { hwnd } },
            reply,
        ) == (overlays, failures),
        ({
            let create = ThemeStep { id, action: ThemeAction::Create { hwnd } };
            let (a, f) = after_step(overlays, failures, create, StepReply::Failed);
            &&& after_step(overlays, failures, create, StepReply::Overlay { is_visible }) == (
                overlays.push(ThemeOverlay { id, is_visible, has_failed: false }),
                failures,
            )
            &&& after_step(overlays, failures, create, StepReply::NoFrame) == (overlays, failures)
            &&& a == overlays
            &&& f.contains(x) <==> failures.contains(x) || x == id
        }),
{
    let f = noted(failures, id);
    assert(f.contains(x) <==> failures.contains(x) || x == id) by {
        if !failures.contains(id) {
            assert(f[failures.len() as int] == id);
            if failures.contains(x) {
                let k = choose|k: int| 0 <= k < failures.len() && failures[k] == x;
                assert(f[k] == x);
            }
        }
    }
    assert(f.contains(id)) by {
        if !failures.contains(id) {
            assert(f[failures.len() as int] == id);
        }
    }
    let pred = is_not_of(id);
    let a = overlays.filter(pred);
    if a.contains(o) {
        let k = choose|k: int| 0 <= k < a.len() && a[k] == o;
        overlays.lemma_filter_pred(pred, k);
        overlays.lemma_filter_contains_rev(pred, o);
    }
    if overlays.contains(o) && o.id != id {
        let k = choose|k: int| 0 <= k < overlays.len() && overlays[k] == o;
        overlays.lemma_filter_contains(pred, k);
    }
}

/// Steps are carried out in turn, each with its own reply.
pub proof fn steps_are_carried_out_in_turn(
    overlays: Seq<ThemeOverlay>,
    failures: Seq<u128>,
    steps: Seq<ThemeStep>,
    replies: Seq<StepReply>,
    step: ThemeStep,
    o: Seq<ThemeOverlay>,
    f: Seq<u128>,
)
    requires
        after_steps(overlays, failures, steps, replies) == (o, f),
    ensures
        after_steps(overlays, failures, Seq::empty(), replies) == (overlays, failures),
        after_steps(overlays, failures, steps.push(step), replies) == after_step(
            o,
            f,
            step,
            replies[steps.len() as int],
        ),
{
    assert(steps.push(step).drop_last() =~= steps);
}

/// A popup is drawn in the theme of the first window of its process that is
/// drawn in a theme and seen. One that is drawn already moves. Managed windows,
/// and what is not seen at the top, are none.
pub proof fn popups_are_drawn_like_their_windows(
    state: ColorThemeState,
    themes: Map<Seq<char>, ThemeView>,
    windows: Seq<ThemeWindow>,
    c: PopupCandidate,
    k: int,
)
    requires
        0 <= k <= windows.len(),
        forall|j: int|
            0 <= j < k ==> !owns_popups_of(state, themes, c.process_id, #[trigger] windows[j]),
        k < windows.len() ==> owns_popups_of(state, themes, c.process_id, windows[k]),
    ensures
        ({
            let is_drawn = exists|j: int|
                0 <= j < state.popups@.len() && (#[trigger] state.popups@[j]).hwnd == c.hwnd;
            let is_none = state.overlays@.len() == 0 || c.is_managed || c.frame is None;
            &&& is_none ==> popup_action(state, themes, windows, c) == PopupAction::Ignore
            &&& !is_none && is_drawn ==> popup_action(state, themes, windows, c)
                == PopupAction::Move
            &&& !is_none && !is_drawn && (!c.is_top_level || !c.is_visible
                || c.frame->0.spec_is_empty()) ==> popup_action(state, themes, windows, c)
                == PopupAction::Ignore
            &&& !is_none && !is_drawn && c.is_top_level && c.is_visible
                && !c.frame->0.spec_is_empty() ==> popup_action(state, themes, windows, c) == (
            if k < windows.len() {
                PopupAction::Create { owner: windows[k].id }
            } else {
                PopupAction::Ignore
            })
        }),
{
    lemma_popup_owner(state, themes, c.process_id, windows, 0, k);
}

proof fn lemma_popup_owner(
    state: ColorThemeState,
    themes: Map<Seq<char>, ThemeView>,
    process_id: u32,
    windows: Seq<ThemeWindow>,
    i: int,
    k: int,
)
    requires
        0 <= i <= k <= windows.len(),
        forall|j: int|
            i <= j < k ==> !owns_popups_of(state, themes, process_id, #[trigger] windows[j]),
        k < windows.len() ==> owns_popups_of(state, themes, process_id, windows[k]),
    ensures
        popup_owner_from(state, themes, process_id, windows, i) == (if k < windows.len() {
            Some(windows[k].id)
        } else {
            None
        }),
    decreases windows.len() - i,
{
    if i < k {
        assert(!owns_popups_of(state, themes, process_id, windows[i]));
        lemma_popup_owner(state, themes, process_id, windows, i + 1, k);
    }
}

/// A window owns the popups of its own process while it is drawn in a theme and
/// its overlay is seen.
pub proof fn windows_own_the_popups_of_their_process(
    state: ColorThemeState,
    themes: Map<Seq<char>, ThemeView>,
    process_id: u32,
    w: ThemeWindow,
    k: int,
)
    requires
        0 <= k <= state.overlays@.len(),
        forall|j: int| 0 <= j < k ==> (#[trigger] state.overlays@[j]).id != w.id,
        k < state.overlays@.len() ==> state.overlays@[k].id == w.id,
    ensures
        owns_popups_of(state, themes, process_id, w) <==> k < state.overlays@.len()
            && state.overlays@[k].is_visible && theme_for(state.windows@, themes, w.id) is Some
            && w.process_id == process_id,
{
    lemma_overlay(state.overlays@, w.id, 0, k);
}

/// The overlays that are seen go right above their windows again, in the order
/// of the windows, and then all popups.
pub proof fn seen_overlays_are_restacked(
    overlays: Seq<ThemeOverlay>,
    windows: Seq<ThemeWindow>,
    w: ThemeWindow,
    popups: Seq<ColorThemePopup>,
    i: int,
    k: int,
)
    requires
        0 <= k <= overlays.len(),
        forall|j: int| 0 <= j < k ==> (#[trigger] overlays[j]).id != w.id,
        k < overlays.len() ==> overlays[k].id == w.id,
    ensures
        shown_restacks(overlays, Seq::empty()) == Seq::<Restack>::empty(),
        shown_restacks(overlays, windows.push(w)) == (if k < overlays.len()
            && overlays[k].is_visible {
            shown_restacks(overlays, windows).push(Restack::Window { id: w.id, hwnd: w.hwnd })
        } else {
            shown_restacks(overlays, windows)
        }),
        popup_restacks(popups).len() == popups.len(),
        0 <= i < popups.len() ==> popup_restacks(popups)[i] == (Restack::Popup {
            hwnd: popups[i].hwnd,
        }),
        window_ids(windows).len() == windows.len(),
        0 <= i < windows.len() ==> window_ids(windows)[i] == windows[i].id,
{
    lemma_overlay(overlays, w.id, 0, k);
    assert(windows.push(w).drop_last() =~= windows);
}

} // verus!
