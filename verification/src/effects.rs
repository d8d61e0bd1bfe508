//! The looks of focused and other windows.

use vstd::prelude::*;

use crate::geometry::Color;

verus! {

#[derive(Clone, Copy, Debug, PartialEq, Eq, Structural)]
pub enum CornerStyle {
    Default,
    Square,
    Rounded,
    SmallRounded,
}

#[derive(Clone, Copy, Debug, PartialEq, Eq, Structural)]
pub enum BackdropStyle {
    Acrylic,
    Mica,
    MicaAlt,
    Wallpaper,
    Solid,
}

/// The effects that apply to a class of windows.
#[derive(Clone, Copy, Debug, PartialEq, Eq, Structural)]
pub struct WindowEffectConfig {
    pub hide_title_bar: bool,
    pub corner_enabled: bool,
    pub corner_style: CornerStyle,
    pub transparency_enabled: bool,
    /// The opacity of transparent windows.
    pub alpha: u8,
    pub backdrop_enabled: bool,
    pub backdrop_style: BackdropStyle,
    /// The tint of the overlay behind a window, where its backdrop has one.
    pub backdrop_tint: Option<Color>,
    /// The color of the border around a window, where it has one.
    pub border_color: Option<Color>,
}

/// The effects of the focused window and of all others.
#[derive(Clone, Copy, Debug, PartialEq, Eq, Structural)]
pub struct WindowEffectsConfig {
    pub focused_window: WindowEffectConfig,
    pub other_windows: WindowEffectConfig,
}

impl WindowEffectsConfig {
    pub open spec fn of(self, is_focused: bool) -> WindowEffectConfig {
        if is_focused {
            self.focused_window
        } else {
            self.other_windows
        }
    }

    /// The effects that apply to a window.
    pub fn class(&self, is_focused: bool) -> (result: WindowEffectConfig)
        ensures
            result == self.of(is_focused),
    {
        if is_focused {
            self.focused_window
        } else {
            self.other_windows
        }
    }
}

impl WindowEffectConfig {
    /// The corner style in force.
    pub open spec fn spec_corner(self) -> CornerStyle {
        if self.corner_enabled {
            self.corner_style
        } else {
            CornerStyle::Default
        }
    }

    pub fn corner(&self) -> (result: CornerStyle)
        ensures
            result == self.spec_corner(),
    {
        if self.corner_enabled {
            self.corner_style
        } else {
            CornerStyle::Default
        }
    }

    /// The opacity in force.
    pub open spec fn spec_opacity(self) -> u8 {
        if self.transparency_enabled {
            self.alpha
        } else {
            255
        }
    }

    pub fn opacity(&self) -> (result: u8)
        ensures
            result == self.spec_opacity(),
    {
        if self.transparency_enabled {
            self.alpha
        } else {
            255
        }
    }

    /// The backdrop that the system draws by itself, if it is one of those.
    pub open spec fn spec_system_backdrop(self) -> Option<BackdropStyle> {
        if self.backdrop_enabled && (self.backdrop_style is Mica || self.backdrop_style is MicaAlt) {
            Some(self.backdrop_style)
        } else {
            None
        }
    }

    pub fn system_backdrop(&self) -> (result: Option<BackdropStyle>)
        ensures
            result == self.spec_system_backdrop(),
    {
        match (self.backdrop_enabled, self.backdrop_style) {
            (true, BackdropStyle::Mica) => Some(self.backdrop_style),
            (true, BackdropStyle::MicaAlt) => Some(self.backdrop_style),
            _ => None,
        }
    }
}

/// One effect to be set on a window.
#[derive(Clone, Copy, Debug, PartialEq, Eq, Structural)]
pub enum EffectStep {
    TitleBarVisibility(bool),
    Corner(CornerStyle),
    Transparency(u8),
    BlurBehind(Option<BackdropStyle>),
}

/// The effects to be set on a window. An effect that neither class of windows
/// uses is not touched.
pub open spec fn effect_steps(effects: WindowEffectsConfig, is_focused: bool) -> Seq<EffectStep> {
    let e = effects.of(is_focused);
    let f = effects.focused_window;
    let o = effects.other_windows;
    (if f.hide_title_bar || o.hide_title_bar {
        seq![EffectStep::TitleBarVisibility(!e.hide_title_bar)]
    } else {
        Seq::empty()
    }) + (if f.corner_enabled || o.corner_enabled {
        seq![EffectStep::Corner(e.spec_corner())]
    } else {
        Seq::empty()
    }) + (if f.transparency_enabled || o.transparency_enabled {
        seq![EffectStep::Transparency(e.spec_opacity())]
    } else {
        Seq::empty()
    }) + (if f.backdrop_enabled || o.backdrop_enabled {
        seq![EffectStep::BlurBehind(e.spec_system_backdrop())]
    } else {
        Seq::empty()
    })
}

/// Decides which effects are set on a window.
pub fn apply_window_effects(effects: &WindowEffectsConfig, is_focused: bool) -> (steps: Vec<
    EffectStep,
>)
    ensures
        steps@ == effect_steps(*effects, is_focused),
{
    let e = effects.class(is_focused);
    let f = effects.focused_window;
    let o = effects.other_windows;
    let mut steps: Vec<EffectStep> = Vec::new();
    if f.hide_title_bar || o.hide_title_bar {
        steps.push(EffectStep::TitleBarVisibility(!e.hide_title_bar));
    }
    if f.corner_enabled || o.corner_enabled {
        steps.push(EffectStep::Corner(e.corner()));
    }
    if f.transparency_enabled || o.transparency_enabled {
        steps.push(EffectStep::Transparency(e.opacity()));
    }
    if f.backdrop_enabled || o.backdrop_enabled {
        steps.push(EffectStep::BlurBehind(e.system_backdrop()));
    }
    proof {
        assert(steps@ =~= effect_steps(*effects, is_focused));
    }
    steps
}

/// The color and the corners of an overlay.
#[derive(Clone, Copy, Debug, PartialEq, Eq, Structural)]
pub struct OverlayLook {
    pub color: Color,
    pub corner: CornerStyle,
}

pub open spec fn border_look(e: WindowEffectConfig) -> Option<OverlayLook> {
    match e.border_color {
        Some(color) => Some(OverlayLook { color, corner: e.spec_corner() }),
        None => None,
    }
}

pub open spec fn blur_look(e: WindowEffectConfig) -> Option<OverlayLook> {
    match e.backdrop_tint {
        Some(color) => Some(OverlayLook { color, corner: e.spec_corner() }),
        None => None,
    }
}

/// The looks of the border around a window, if it has one. Its corners are
/// those of the window.
pub fn border_overlay_params_for(is_focused: bool, effects: &WindowEffectsConfig) -> (result:
    Option<OverlayLook>)
    ensures
        result == border_look(effects.of(is_focused)),
{
    let e = effects.class(is_focused);
    match e.border_color {
        Some(color) => Some(OverlayLook { color, corner: e.corner() }),
        None => None,
    }
}

/// The looks of the backdrop behind a window, if an overlay draws it. Its
/// corners are those of the window.
pub fn blur_overlay_params_for(is_focused: bool, effects: &WindowEffectsConfig) -> (result: Option<
    OverlayLook,
>)
    ensures
        result == blur_look(effects.of(is_focused)),
{
    let e = effects.class(is_focused);
    match e.backdrop_tint {
        Some(color) => Some(OverlayLook { color, corner: e.corner() }),
        None => None,
    }
}

/// Whether the effects that are set on a window are the same in kind whether it
/// is focused or not: what one class sets, the other sets back.
pub proof fn classes_set_the_same_effects(effects: WindowEffectsConfig, i: int)
    ensures
        effect_steps(effects, true).len() == effect_steps(effects, false).len(),
        0 <= i < effect_steps(effects, true).len() ==> {
            let a = effect_steps(effects, true)[i];
            let b = effect_steps(effects, false)[i];
            &&& a is TitleBarVisibility <==> b is TitleBarVisibility
            &&& a is Corner <==> b is Corner
            &&& a is Transparency <==> b is Transparency
            &&& a is BlurBehind <==> b is BlurBehind
        },
{
}

/// The focused window and the others have the effects of their class. An effect
/// of a class that is not enabled has its default.
pub proof fn effects_are_those_of_the_class(effects: WindowEffectsConfig, e: WindowEffectConfig)
    ensures
        effects.of(true) == effects.focused_window,
        effects.of(false) == effects.other_windows,
        e.corner_enabled ==> e.spec_corner() == e.corner_style,
        !e.corner_enabled ==> e.spec_corner() == CornerStyle::Default,
        e.transparency_enabled ==> e.spec_opacity() == e.alpha,
        !e.transparency_enabled ==> e.spec_opacity() == 255,
        e.spec_system_backdrop() == Some(BackdropStyle::Mica) <==> e.backdrop_enabled
            && e.backdrop_style == BackdropStyle::Mica,
        e.spec_system_backdrop() == Some(BackdropStyle::MicaAlt) <==> e.backdrop_enabled
            && e.backdrop_style == BackdropStyle::MicaAlt,
        e.spec_system_backdrop() matches Some(b) ==> b is Mica || b is MicaAlt,
        border_look(e) is Some <==> e.border_color is Some,
        border_look(e) matches Some(look) ==> look.color == e.border_color->0 && look.corner
            == e.spec_corner(),
        blur_look(e) is Some <==> e.backdrop_tint is Some,
        blur_look(e) matches Some(look) ==> look.color == e.backdrop_tint->0 && look.corner
            == e.spec_corner(),
{
}

proof fn lemma_four_parts(
    a: Seq<EffectStep>,
    b: Seq<EffectStep>,
    c: Seq<EffectStep>,
    d: Seq<EffectStep>,
)
    ensures
        (a + b + c + d).len() == a.len() + b.len() + c.len() + d.len(),
        a.len() > 0 ==> (a + b + c + d)[0] == a[0],
        b.len() > 0 ==> (a + b + c + d)[a.len() as int] == b[0],
        c.len() > 0 ==> (a + b + c + d)[(a.len() + b.len()) as int] == c[0],
        d.len() > 0 ==> (a + b + c + d)[(a.len() + b.len() + c.len()) as int] == d[0],
{
}

/// An effect is set on a window exactly if one of the two classes uses it, to
/// what the window's own class asks for: first the title bar, then the corners,
/// the opacity and the backdrop.
pub proof fn used_effects_are_set(
    effects: WindowEffectsConfig,
    is_focused: bool,
    own: WindowEffectConfig,
)
    requires
        own == (if is_focused {
            effects.focused_window
        } else {
            effects.other_windows
        }),
    ensures
        ({
            let f = effects.focused_window;
            let o = effects.other_windows;
            let s = effect_steps(effects, is_focused);
            let a: int = if f.hide_title_bar || o.hide_title_bar {
                1
            } else {
                0
            };
            let b: int = if f.corner_enabled || o.corner_enabled {
                a + 1
            } else {
                a
            };
            let c: int = if f.transparency_enabled || o.transparency_enabled {
                b + 1
            } else {
                b
            };
            let d: int = if f.backdrop_enabled || o.backdrop_enabled {
                c + 1
            } else {
                c
            };
            &&& s.len() == d
            &&& a > 0 ==> s[0] == EffectStep::TitleBarVisibility(!own.hide_title_bar)
            &&& b > a ==> s[a] == EffectStep::Corner(own.spec_corner())
            &&& c > b ==> s[b] == EffectStep::Transparency(own.spec_opacity())
            &&& d > c ==> s[c] == EffectStep::BlurBehind(own.spec_system_backdrop())
        }),
{
    let f = effects.focused_window;
    let o = effects.other_windows;
    let title = if f.hide_title_bar || o.hide_title_bar {
        seq![EffectStep::TitleBarVisibility(!own.hide_title_bar)]
    } else {
        Seq::empty()
    };
    let corner = if f.corner_enabled || o.corner_enabled {
        seq![EffectStep::Corner(own.spec_corner())]
    } else {
        Seq::empty()
    };
    let opacity = if f.transparency_enabled || o.transparency_enabled {
        seq![EffectStep::Transparency(own.spec_opacity())]
    } else {
        Seq::empty()
    };
    let backdrop = if f.backdrop_enabled || o.backdrop_enabled {
        seq![EffectStep::BlurBehind(own.spec_system_backdrop())]
    } else {
        Seq::empty()
    };
    lemma_four_parts(title, corner, opacity, backdrop);
    assert(effects.of(is_focused) == own);
    assert(effect_steps(effects, is_focused) == title + corner + opacity + backdrop);
}

} // verus!
