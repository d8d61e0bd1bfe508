//! Moving and resizing windows behind a picture of themselves.

use vstd::prelude::*;

use crate::geometry::{div_toward_zero, half, max_i32, max_int, Rect};

verus! {

/// How far the invisible border of a window reaches inwards on each side.
#[derive(Clone, Copy, Debug, PartialEq, Eq, Structural)]
pub struct Insets {
    pub left: i32,
    pub top: i32,
    pub right: i32,
    pub bottom: i32,
}

impl Insets {
    pub open spec fn spec_zero() -> Insets {
        Insets { left: 0, top: 0, right: 0, bottom: 0 }
    }

    pub fn zero() -> (result: Insets)
        ensures
            result == Insets::spec_zero(),
    {
        Insets { left: 0, top: 0, right: 0, bottom: 0 }
    }

    /// Whether `rect` can be made smaller by the border.
    pub open spec fn can_deflate(self, rect: Rect) -> bool {
        &&& i32::MIN <= rect.left + self.left <= i32::MAX
        &&& i32::MIN <= rect.top + self.top <= i32::MAX
        &&& i32::MIN <= rect.right - self.right <= i32::MAX
        &&& i32::MIN <= rect.bottom - self.bottom <= i32::MAX
    }

    /// `rect` without the border.
    pub open spec fn deflated(self, rect: Rect) -> Rect {
        Rect {
            left: (rect.left + self.left) as i32,
            top: (rect.top + self.top) as i32,
            right: (rect.right - self.right) as i32,
            bottom: (rect.bottom - self.bottom) as i32,
        }
    }
}

/// The part of `rect` that the user sees, without the invisible border.
pub fn to_logical(rect: &Rect, inset: &Insets) -> (result: Rect)
    requires
        inset.can_deflate(*rect),
    ensures
        result == inset.deflated(*rect),
{
    Rect::from_ltrb(
        rect.left + inset.left,
        rect.top + inset.top,
        rect.right - inset.right,
        rect.bottom - inset.bottom,
    )
}

/// Whether the sides of two rectangles can be compared.
pub open spec fn sides_comparable(window: Rect, frame: Rect) -> bool {
    &&& i32::MIN <= frame.left - window.left <= i32::MAX
    &&& i32::MIN <= frame.top - window.top <= i32::MAX
    &&& i32::MIN <= window.right - frame.right <= i32::MAX
    &&& i32::MIN <= window.bottom - frame.bottom <= i32::MAX
}

/// The invisible border of a window: how far its visible frame stays behind
/// its whole rectangle, on each side. Nothing where either is not known.
pub fn compute_border_inset(window: Option<Rect>, frame: Option<Rect>) -> (result: Insets)
    requires
        window is Some && frame is Some ==> sides_comparable(window->0, frame->0),
    ensures
        result == (match (window, frame) {
            (Some(w), Some(f)) => Insets {
                left: max_int(f.left - w.left, 0) as i32,
                top: max_int(f.top - w.top, 0) as i32,
                right: max_int(w.right - f.right, 0) as i32,
                bottom: max_int(w.bottom - f.bottom, 0) as i32,
            },
            _ => Insets::spec_zero(),
        }),
{
    match (window, frame) {
        (Some(w), Some(f)) => Insets {
            left: max_i32(f.left - w.left, 0),
            top: max_i32(f.top - w.top, 0),
            right: max_i32(w.right - f.right, 0),
            bottom: max_i32(w.bottom - f.bottom, 0),
        },
        _ => Insets::zero(),
    }
}

/// How a session starts.
#[derive(Clone, Copy, Debug, PartialEq, Eq, Structural)]
pub struct SessionOptions {
    /// The opacity of the picture.
    pub effect_opacity: u8,
    /// Whether the picture is visible right away.
    pub initially_visible: bool,
}

/// What stands in for the window during a session.
#[derive(Clone, Copy, Debug, PartialEq, Eq, Structural)]
pub enum Surrogate {
    /// It could not be made.
    Missing,
    /// It is there, but shows nothing.
    Blank,
    /// It shows the window.
    Live,
}

/// A window that is being moved or resized behind a picture of itself.
#[derive(Clone, Copy, Debug, PartialEq, Eq, Structural)]
pub struct ResizeSession {
    /// The window, or 0 once it is gone.
    pub hwnd: isize,
    /// Where the window ends up, with its invisible border.
    pub target_rect: Rect,
    pub surrogate: Surrogate,
    pub border_inset: Insets,
    pub effect_opacity: u8,
    /// Whether the window shrinks in no direction.
    pub is_growing: bool,
    /// Whether the picture zooms in place.
    pub zoom: bool,
}

/// Whether going from one size to another shrinks in no direction.
pub open spec fn grows(from: Rect, to: Rect) -> bool {
    to.spec_width() >= from.spec_width() && to.spec_height() >= from.spec_height()
}

/// How the picture of a window is made.
#[derive(Clone, Copy, Debug, PartialEq, Eq, Structural)]
pub struct SurrogateSetup {
    pub border_inset: Insets,
    pub is_growing: bool,
    /// The size that the picture is taken at.
    pub thumbnail_rect: Rect,
    pub opacity: u8,
    pub visible: bool,
}

/// What a picture shows and where: the part of the window, the part of the
/// surrogate that it fills, and the place that the surrogate moves to, if it
/// does.
#[derive(Clone, Copy, Debug, PartialEq, Eq, Structural)]
pub struct SurrogateFrame {
    pub source: Rect,
    pub dest: Rect,
    pub place: Option<Rect>,
}

/// What a step of a session does to the surrogate.
#[derive(Clone, Copy, Debug, PartialEq, Eq, Structural)]
pub enum SurrogateChange {
    Nothing,
    /// It is hidden, and its opacity set if one is given.
    Hide { new_opacity: Option<u8> },
    Show { frame: SurrogateFrame, opacity: u8 },
}

/// Where a surrogate goes, and how opaque it becomes.
#[derive(Clone, Copy, Debug, PartialEq, Eq, Structural)]
pub struct SurrogatePlace {
    pub rect: Rect,
    pub opacity: u8,
}

/// What a new target changes.
#[derive(Clone, Copy, Debug, PartialEq, Eq, Structural)]
pub struct Retarget {
    /// Where the hidden window is put at once.
    pub moves_window: Option<Rect>,
    /// Whose size the picture is taken at from now on.
    pub thumbnail: Option<Rect>,
}

/// What the end of a session changes before the window shows again.
#[derive(Clone, Copy, Debug, PartialEq, Eq, Structural)]
pub struct PreCommit {
    pub moves_window: Option<Rect>,
    pub moves_surrogate: Option<SurrogatePlace>,
}

/// Whether a part of `outer` can be cut out of `r`.
pub open spec fn can_clip(r: Rect, outer: Rect) -> bool {
    let c = r.spec_intersect(outer);
    !c.spec_is_empty() ==> {
        &&& c.measurable()
        &&& i32::MIN <= c.left - r.left <= i32::MAX
        &&& i32::MIN <= c.top - r.top <= i32::MAX
        &&& i32::MIN <= c.right - r.left <= i32::MAX
        &&& i32::MIN <= c.bottom - r.top <= i32::MAX
    }
}

/// How the part of `r` inside `outer` is shown: nothing of `r` is scaled.
pub open spec fn clipped_frame(r: Rect, outer: Rect) -> SurrogateFrame {
    let c = r.spec_intersect(outer);
    SurrogateFrame {
        source: Rect {
            left: (c.left - r.left) as i32,
            top: (c.top - r.top) as i32,
            right: (c.right - r.left) as i32,
            bottom: (c.bottom - r.top) as i32,
        },
        dest: Rect {
            left: 0,
            top: 0,
            right: c.spec_width() as i32,
            bottom: c.spec_height() as i32,
        },
        place: Some(c),
    }
}

/// The rectangle that reaches `half_w` and `half_h` out from the middle of an
/// area of the given size.
pub open spec fn around_middle(w: int, h: int, half_w: int, half_h: int) -> Rect {
    let (cx, cy) = (div_toward_zero(w, 2), div_toward_zero(h, 2));
    Rect {
        left: (cx - half_w) as i32,
        top: (cy - half_h) as i32,
        right: (cx + half_w) as i32,
        bottom: (cy + half_h) as i32,
    }
}

/// Whether that rectangle can be computed for an area of the size of `r`.
pub open spec fn can_zoom(r: Rect, half_w: int, half_h: int) -> bool {
    let (cx, cy) = (div_toward_zero(r.spec_width(), 2), div_toward_zero(r.spec_height(), 2));
    half_w > 0 && half_h > 0 ==> {
        &&& i32::MIN <= cx - half_w && cx + half_w <= i32::MAX
        &&& i32::MIN <= cy - half_h && cy + half_h <= i32::MAX
    }
}

/// A session whose end has been prepared: a window that is gone is forgotten.
pub open spec fn pre_committed(s: ResizeSession, window_exists: bool) -> ResizeSession {
    ResizeSession {
        hwnd: if window_exists {
            s.hwnd
        } else {
            0
        },
        ..s
    }
}

/// Where the end of a session puts the window.
pub open spec fn end_place(s: ResizeSession, window_exists: bool) -> Option<Rect> {
    if s.hwnd == 0 || !window_exists {
        None
    } else {
        Some(s.target_rect)
    }
}

impl ResizeSession {
    /// How the picture is made for going from `source_rect` to `target_rect`.
    /// A window that grows is shown at its new size, uncovered bit by bit; one
    /// that shrinks at its old size, covered bit by bit.
    pub fn setup(
        source_rect: &Rect,
        target_rect: &Rect,
        options: &SessionOptions,
        border_inset: &Insets,
    ) -> (result: SurrogateSetup)
        requires
            source_rect.measurable(),
            target_rect.measurable(),
        ensures
            result == (SurrogateSetup {
                border_inset: *border_inset,
                is_growing: grows(*source_rect, *target_rect),
                thumbnail_rect: if grows(*source_rect, *target_rect) {
                    *target_rect
                } else {
                    *source_rect
                },
                opacity: options.effect_opacity,
                visible: options.initially_visible,
            }),
    {
        let is_growing: bool = target_rect.width() >= source_rect.width() && target_rect.height()
            >= source_rect.height();
        SurrogateSetup {
            border_inset: *border_inset,
            is_growing,
            thumbnail_rect: if is_growing {
                *target_rect
            } else {
                *source_rect
            },
            opacity: options.effect_opacity,
            visible: options.initially_visible,
        }
    }

    /// Starts a session, once it is known what became of the surrogate.
    pub fn begin(hwnd: isize, target_rect: &Rect, setup: &SurrogateSetup, surrogate: Surrogate) -> (
        session: ResizeSession)
        ensures
            session == (ResizeSession {
                hwnd,
                target_rect: *target_rect,
                surrogate,
                border_inset: setup.border_inset,
                effect_opacity: setup.opacity,
                is_growing: setup.is_growing,
                zoom: false,
            }),
    {
        ResizeSession {
            hwnd,
            target_rect: *target_rect,
            surrogate,
            border_inset: setup.border_inset,
            effect_opacity: setup.opacity,
            is_growing: setup.is_growing,
            zoom: false,
        }
    }

    pub fn target_rect(&self) -> (result: &Rect)
        ensures
            *result == self.target_rect,
    {
        &self.target_rect
    }

    /// Whether the hidden window has to be put at its target before the picture
    /// starts to grow.
    pub fn needs_preposition(&self) -> (result: bool)
        ensures
            result == self.is_growing,
    {
        self.is_growing
    }

    /// Whether a picture of the window is there to hide it behind.
    pub fn has_surrogate(&self) -> (result: bool)
        ensures
            result == (self.surrogate is Live),
    {
        matches!(self.surrogate, Surrogate::Live)
    }

    /// Whether there is a surrogate to make visible.
    pub fn show(&self) -> (result: bool)
        ensures
            result == !(self.surrogate is Missing),
    {
        !matches!(self.surrogate, Surrogate::Missing)
    }

    /// Lets the picture fill the rectangle that reaches `half_w` and `half_h`
    /// out from the middle. With nothing to fill, it is hidden. Its opacity is
    /// set either way.
    pub fn update_zoom_fade(&self, half_w: i32, half_h: i32, opacity: u8) -> (result:
        SurrogateChange)
        requires
            !(self.surrogate is Missing) && half_w > 0 && half_h > 0 ==> {
                &&& self.border_inset.can_deflate(self.target_rect)
                &&& self.border_inset.deflated(self.target_rect).measurable()
                &&& can_zoom(
                    self.border_inset.deflated(self.target_rect),
                    half_w as int,
                    half_h as int,
                )
            },
        ensures
            ({
                let logical = self.border_inset.deflated(self.target_rect);
                let (w, h) = (logical.spec_width(), logical.spec_height());
                result == (if self.surrogate is Missing {
                    SurrogateChange::Nothing
                } else if half_w <= 0 || half_h <= 0 {
                    SurrogateChange::Hide { new_opacity: Some(opacity) }
                } else {
                    SurrogateChange::Show {
                        frame: SurrogateFrame {
                            source: Rect { left: 0, top: 0, right: w as i32, bottom: h as i32 },
                            dest: around_middle(w, h, half_w as int, half_h as int),
                            place: None,
                        },
                        opacity,
                    }
                })
            }),
    {
        if matches!(self.surrogate, Surrogate::Missing) {
            return SurrogateChange::Nothing;
        }
        if half_w <= 0 || half_h <= 0 {
            return SurrogateChange::Hide { new_opacity: Some(opacity) };
        }
        let logical = to_logical(&self.target_rect, &self.border_inset);
        let w: i32 = logical.width();
        let h: i32 = logical.height();
        let cx: i32 = half(w);
        let cy: i32 = half(h);
        SurrogateChange::Show {
            frame: SurrogateFrame {
                source: Rect::from_ltrb(0, 0, w, h),
                dest: Rect::from_ltrb(cx - half_w, cy - half_h, cx + half_w, cy + half_h),
                place: None,
            },
            opacity,
        }
    }

    /// Where the surrogate goes for one frame, if there is one, and how opaque
    /// it becomes.
    pub fn update(&self, current_rect: &Rect, opacity: u8) -> (result: Option<SurrogatePlace>)
        requires
            !(self.surrogate is Missing) ==> self.border_inset.can_deflate(*current_rect),
        ensures
            result == (if self.surrogate is Missing {
                None
            } else {
                Some(SurrogatePlace { rect: self.border_inset.deflated(*current_rect), opacity })
            }),
    {
        if matches!(self.surrogate, Surrogate::Missing) {
            None
        } else {
            Some(SurrogatePlace { rect: to_logical(current_rect, &self.border_inset), opacity })
        }
    }

    /// As `update`, for a move that is carried out along with those of others.
    pub fn defer_update(&self, current_rect: &Rect, opacity: u8) -> (result: Option<
        SurrogatePlace,
    >)
        requires
            !(self.surrogate is Missing) ==> self.border_inset.can_deflate(*current_rect),
        ensures
            result == (if self.surrogate is Missing {
                None
            } else {
                Some(SurrogatePlace { rect: self.border_inset.deflated(*current_rect), opacity })
            }),
    {
        self.update(current_rect, opacity)
    }

    /// As `update`, but only the part on the monitor is shown; with no such
    /// part the surrogate is hidden, at the opacity that it has.
    pub fn update_clipped(&self, current_rect: &Rect, monitor_rect: &Rect, opacity: u8) -> (result:
        SurrogateChange)
        requires
            !(self.surrogate is Missing) ==> {
                &&& self.border_inset.can_deflate(*current_rect)
                &&& can_clip(self.border_inset.deflated(*current_rect), *monitor_rect)
            },
        ensures
            ({
                let logical = self.border_inset.deflated(*current_rect);
                result == (if self.surrogate is Missing {
                    SurrogateChange::Nothing
                } else if logical.spec_intersect(*monitor_rect).spec_is_empty() {
                    SurrogateChange::Hide { new_opacity: None }
                } else {
                    SurrogateChange::Show { frame: clipped_frame(logical, *monitor_rect), opacity }
                })
            }),
    {
        if matches!(self.surrogate, Surrogate::Missing) {
            return SurrogateChange::Nothing;
        }
        let logical = to_logical(current_rect, &self.border_inset);
        let visible = logical.intersect(monitor_rect);
        if visible.is_empty() {
            return SurrogateChange::Hide { new_opacity: None };
        }
        let source = Rect::from_ltrb(
            visible.left - logical.left,
            visible.top - logical.top,
            visible.right - logical.left,
            visible.bottom - logical.top,
        );
        let dest = Rect::from_ltrb(0, 0, visible.width(), visible.height());
        SurrogateChange::Show {
            frame: SurrogateFrame { source, dest, place: Some(visible) },
            opacity,
        }
    }

    /// Sends the window somewhere else while the session runs. A window that
    /// grows is put there at once, so that the picture shows its new size; one
    /// that starts to shrink is shown at the size that it has now.
    pub fn update_target(&mut self, current_rect: &Rect, new_target: &Rect) -> (result: Retarget)
        requires
            current_rect.measurable(),
            new_target.measurable(),
            old(self).hwnd != 0 && !(old(self).surrogate is Missing) ==> {
                &&& grows(*current_rect, *new_target) ==> old(self).border_inset.can_deflate(
                    *new_target,
                )
                &&& !grows(*current_rect, *new_target) && old(self).is_growing
                    ==> old(self).border_inset.can_deflate(*current_rect)
            },
        ensures
            *final(self) == (ResizeSession {
                is_growing: grows(*current_rect, *new_target),
                target_rect: *new_target,
                ..*old(self)
            }),
            ({
                let inset = old(self).border_inset;
                let has_surrogate = !(old(self).surrogate is Missing);
                result == (if old(self).hwnd == 0 {
                    Retarget { moves_window: None, thumbnail: None }
                } else if grows(*current_rect, *new_target) {
                    Retarget {
                        moves_window: Some(*new_target),
                        thumbnail: if has_surrogate {
                            Some(inset.deflated(*new_target))
                        } else {
                            None
                        },
                    }
                } else {
                    Retarget {
                        moves_window: None,
                        thumbnail: if has_surrogate && old(self).is_growing {
                            Some(inset.deflated(*current_rect))
                        } else {
                            None
                        },
                    }
                })
            }),
    {
        let new_is_growing: bool = new_target.width() >= current_rect.width()
            && new_target.height() >= current_rect.height();
        let direction_changed: bool = new_is_growing != self.is_growing;
        self.is_growing = new_is_growing;
        self.target_rect = *new_target;
        if self.hwnd == 0 {
            return Retarget { moves_window: None, thumbnail: None };
        }
        let has_surrogate: bool = !matches!(self.surrogate, Surrogate::Missing);
        if new_is_growing {
            let thumbnail: Option<Rect> = if has_surrogate {
                Some(to_logical(new_target, &self.border_inset))
            } else {
                None
            };
            Retarget { moves_window: Some(*new_target), thumbnail }
        } else {
            let thumbnail: Option<Rect> = if has_surrogate && direction_changed {
                Some(to_logical(current_rect, &self.border_inset))
            } else {
                None
            };
            Retarget { moves_window: None, thumbnail }
        }
    }

    /// Brings window and surrogate to the target before the window shows
    /// again. A window that is gone is forgotten.
    pub fn pre_commit(&mut self, window_exists: bool) -> (result: PreCommit)
        requires
            window_exists && !(old(self).surrogate is Missing)
                ==> old(self).border_inset.can_deflate(old(self).target_rect),
        ensures
            *final(self) == pre_committed(*old(self), window_exists),
            result == (if !window_exists {
                PreCommit { moves_window: None, moves_surrogate: None }
            } else {
                PreCommit {
                    moves_window: Some(old(self).target_rect),
                    moves_surrogate: if old(self).surrogate is Missing {
                        None
                    } else {
                        Some(
                            SurrogatePlace {
                                rect: old(self).border_inset.deflated(old(self).target_rect),
                                opacity: old(self).effect_opacity,
                            },
                        )
                    },
                }
            }),
    {
        if !window_exists {
            self.hwnd = 0;
            return PreCommit { moves_window: None, moves_surrogate: None };
        }
        let target = self.target_rect;
        PreCommit {
            moves_window: Some(target),
            moves_surrogate: self.update(&target, self.effect_opacity),
        }
    }

    /// Ends a session: the surrogate goes, then the window moves to where this
    /// says, unless it is gone.
    pub fn commit(&self, window_exists: bool) -> (result: Option<Rect>)
        ensures
            result == end_place(*self, window_exists),
    {
        if self.hwnd == 0 || !window_exists {
            None
        } else {
            Some(self.target_rect)
        }
    }
}

/// A clipped picture never reaches beyond the monitor, shows its part at the
/// size that it has, and shows each point where it would be unclipped.
pub proof fn clipping_only_cuts(r: Rect, outer: Rect, x: int, y: int)
    requires
        can_clip(r, outer),
        !r.spec_intersect(outer).spec_is_empty(),
    ensures
        ({
            let f = clipped_frame(r, outer);
            &&& f.source.same_size(f.dest)
            &&& f.dest.same_size(f.place->0)
            &&& f.place->0.covers(x, y) <==> r.covers(x, y) && outer.covers(x, y)
            &&& f.place->0.covers(x, y) <==> f.source.covers(x - r.left, y - r.top)
        }),
{
}

/// A session that once found its window gone never moves it, even if its
/// handle is taken by another window by the end.
pub proof fn gone_windows_are_never_moved(s: ResizeSession, exists_at_end: bool)
    ensures
        end_place(pre_committed(s, false), exists_at_end) is None,
{
}

/// What the user sees of a window is what is left of it without its border, and
/// all of it without one.
pub proof fn borders_are_taken_off(inset: Insets, rect: Rect)
    requires
        inset.can_deflate(rect),
    ensures
        inset.deflated(rect).left == rect.left + inset.left,
        inset.deflated(rect).top == rect.top + inset.top,
        inset.deflated(rect).right == rect.right - inset.right,
        inset.deflated(rect).bottom == rect.bottom - inset.bottom,
        Insets::spec_zero().deflated(rect) == rect,
{
}

/// A window grows if it becomes neither narrower nor lower.
pub proof fn growing_shrinks_in_no_direction(from: Rect, to: Rect)
    ensures
        grows(from, to) <==> to.right - to.left >= from.right - from.left && to.bottom - to.top
            >= from.bottom - from.top,
{
}

/// A picture that zooms in place is twice as broad and as high as it reaches out
/// from the middle, and stays in the middle.
pub proof fn zooming_stays_in_the_middle(w: int, h: int, half_w: int, half_h: int)
    requires
        0 <= w <= i32::MAX,
        0 <= h <= i32::MAX,
        i32::MIN <= w / 2 - half_w && w / 2 + half_w <= i32::MAX,
        i32::MIN <= h / 2 - half_h && h / 2 + half_h <= i32::MAX,
        half_w >= 0,
        half_h >= 0,
    ensures
        ({
            let r = around_middle(w, h, half_w, half_h);
            &&& r.right - r.left == 2 * half_w
            &&& r.bottom - r.top == 2 * half_h
            &&& w - 1 <= r.left + r.right <= w
            &&& h - 1 <= r.top + r.bottom <= h
        }),
{
}

/// At its end a session moves the window to its target, unless the window is
/// gone by then or was found gone before.
pub proof fn sessions_end_at_their_target(s: ResizeSession)
    ensures
        s.hwnd != 0 ==> end_place(s, true) == Some(s.target_rect) && end_place(
            pre_committed(s, true),
            true,
        ) == Some(s.target_rect),
        end_place(s, false) is None,
        s.hwnd == 0 ==> end_place(s, true) is None,
        pre_committed(s, true) == s,
        pre_committed(s, false).target_rect == s.target_rect,
        pre_committed(s, false).hwnd == 0,
{
}

} // verus!
