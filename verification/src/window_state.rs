//! What a window is doing, and where it stands on screen.

use vstd::prelude::*;

verus! {

/// How a floating window is treated.
#[derive(Clone, Copy, Debug, PartialEq, Eq, Structural)]
pub struct FloatingState {
    pub centered: bool,
    pub shown_on_top: bool,
}

/// How a fullscreen window is treated.
#[derive(Clone, Copy, Debug, PartialEq, Eq, Structural)]
pub struct FullscreenState {
    pub maximized: bool,
    pub shown_on_top: bool,
}

/// The mode that a window is managed in.
#[derive(Clone, Copy, Debug, PartialEq, Eq, Structural)]
pub enum WindowState {
    Tiling,
    Floating(FloatingState),
    Fullscreen(FullscreenState),
    Minimized,
}

/// Whether a window is on screen, or on its way there or away.
#[derive(Clone, Copy, Debug, PartialEq, Eq, Structural)]
pub enum DisplayState {
    Shown,
    Showing,
    Hidden,
    Hiding,
}

impl WindowState {
    /// Whether both are the same mode, whatever their settings.
    pub open spec fn spec_is_same_state(self, other: WindowState) -> bool {
        ||| self is Tiling && other is Tiling
        ||| self is Floating && other is Floating
        ||| self is Fullscreen && other is Fullscreen
        ||| self is Minimized && other is Minimized
    }

    pub fn is_same_state(&self, other: &WindowState) -> (result: bool)
        ensures
            result == self.spec_is_same_state(*other),
    {
        match (*self, *other) {
            (WindowState::Tiling, WindowState::Tiling) => true,
            (WindowState::Floating(_), WindowState::Floating(_)) => true,
            (WindowState::Fullscreen(_), WindowState::Fullscreen(_)) => true,
            (WindowState::Minimized, WindowState::Minimized) => true,
            _ => false,
        }
    }

    /// Whether the window is kept above all others.
    pub open spec fn spec_is_topmost(self) -> bool {
        ||| self matches WindowState::Floating(s) && s.shown_on_top
        ||| self matches WindowState::Fullscreen(s) && s.shown_on_top
    }

    pub fn is_topmost(&self) -> (result: bool)
        ensures
            result == self.spec_is_topmost(),
    {
        match *self {
            WindowState::Floating(s) => s.shown_on_top,
            WindowState::Fullscreen(s) => s.shown_on_top,
            _ => false,
        }
    }

    pub fn is_floating(&self) -> (result: bool)
        ensures
            result == (self is Floating),
    {
        match *self {
            WindowState::Floating(_) => true,
            _ => false,
        }
    }

    pub fn is_fullscreen(&self) -> (result: bool)
        ensures
            result == (self is Fullscreen),
    {
        match *self {
            WindowState::Fullscreen(_) => true,
            _ => false,
        }
    }

    pub fn is_tiling(&self) -> (result: bool)
        ensures
            result == (self is Tiling),
    {
        match *self {
            WindowState::Tiling => true,
            _ => false,
        }
    }
}

impl DisplayState {
    /// Whether the window is on screen or about to be.
    pub open spec fn spec_is_visible(self) -> bool {
        self is Shown || self is Showing
    }

    pub fn is_visible(&self) -> (result: bool)
        ensures
            result == self.spec_is_visible(),
    {
        match *self {
            DisplayState::Shown => true,
            DisplayState::Showing => true,
            _ => false,
        }
    }

    /// The state that follows once it is known whether the window's workspace
    /// is displayed.
    pub open spec fn spec_transition(self, is_displayed: bool) -> DisplayState {
        if is_displayed && !self.spec_is_visible() {
            DisplayState::Showing
        } else if !is_displayed && self.spec_is_visible() {
            DisplayState::Hiding
        } else {
            self
        }
    }

    pub fn transition(&self, is_displayed: bool) -> (result: DisplayState)
        ensures
            result == self.spec_transition(is_displayed),
            result.spec_is_visible() == is_displayed,
    {
        match (*self, is_displayed) {
            (DisplayState::Hidden, true) => DisplayState::Showing,
            (DisplayState::Hiding, true) => DisplayState::Showing,
            (DisplayState::Shown, false) => DisplayState::Hiding,
            (DisplayState::Showing, false) => DisplayState::Hiding,
            _ => *self,
        }
    }
}

/// Asking again with the same answer changes nothing.
pub proof fn display_transition_settles(state: DisplayState, is_displayed: bool)
    ensures
        state.spec_transition(is_displayed).spec_transition(is_displayed)
            == state.spec_transition(is_displayed),
{
}

/// A window is visible afterwards exactly if its workspace is displayed. One
/// that was as it is to be stays as it is; any other is on its way.
pub proof fn displayed_windows_become_visible(state: DisplayState)
    ensures
        state == DisplayState::Hidden || state == DisplayState::Hiding ==> state.spec_transition(
            true,
        ) == DisplayState::Showing && state.spec_transition(false) == state,
        state == DisplayState::Shown || state == DisplayState::Showing ==> state.spec_transition(
            false,
        ) == DisplayState::Hiding && state.spec_transition(true) == state,
        state.spec_is_visible() <==> state == DisplayState::Shown || state == DisplayState::Showing,
{
}

/// Only floating and fullscreen windows are kept above all others, and only if
/// they are to be.
pub proof fn only_those_on_top_are_topmost(floating: FloatingState, fullscreen: FullscreenState)
    ensures
        !WindowState::Tiling.spec_is_topmost(),
        !WindowState::Minimized.spec_is_topmost(),
        WindowState::Floating(floating).spec_is_topmost() == floating.shown_on_top,
        WindowState::Fullscreen(fullscreen).spec_is_topmost() == fullscreen.shown_on_top,
{
}

/// Two windows are in the same mode whatever the settings of the mode, and in no
/// two modes at once.
pub proof fn modes_are_told_apart(a: WindowState, b: WindowState)
    ensures
        a.spec_is_same_state(a),
        a.spec_is_same_state(b) == b.spec_is_same_state(a),
        a is Floating && b is Floating ==> a.spec_is_same_state(b),
        a is Fullscreen && b is Fullscreen ==> a.spec_is_same_state(b),
        a.spec_is_same_state(b) && a is Tiling ==> b is Tiling,
        a.spec_is_same_state(b) && a is Floating ==> b is Floating,
        a.spec_is_same_state(b) && a is Fullscreen ==> b is Fullscreen,
        a.spec_is_same_state(b) && a is Minimized ==> b is Minimized,
{
}

} // verus!
