//! The pictures of windows that move while the workspace changes.

use vstd::prelude::*;

use crate::geometry::{clamped, div_toward_zero, half, max_i32, min_i32, Rect};
use crate::resize_session::{to_logical, Insets, SurrogateFrame};

verus! {

/// How the picture of a window is moved about.
#[derive(Clone, Copy, Debug, PartialEq, Eq, Structural)]
pub enum SurrogateMode {
    /// It covers the whole monitor; the window is drawn at different places
    /// in it.
    PinnedViewport,
    /// It covers the window alone, and moves with it.
    Live,
}

/// The picture of one window that takes part in the change of the workspace.
#[derive(Clone, Copy, Debug, PartialEq, Eq, Structural)]
pub struct WorkspaceSurrogate {
    /// The place of the window, without its invisible border.
    pub rect: Rect,
    /// The monitor.
    pub viewport: Rect,
    pub opacity: u8,
    pub mode: SurrogateMode,
    pub border_inset: Insets,
    /// Where a picture that moves is now, unless it is off the screen.
    pub current_rect: Option<Rect>,
}

/// How the picture of a window is made.
#[derive(Clone, Copy, Debug, PartialEq, Eq, Structural)]
pub struct ViewSetup {
    pub surrogate: WorkspaceSurrogate,
    /// Where the picture is put.
    pub source_rect: Rect,
    /// The size that it is taken at.
    pub thumbnail_rect: Rect,
    /// Whether its corners are those of the window; else they are square.
    pub keeps_corners: bool,
}

/// `r` moved by (`dx`, `dy`).
pub open spec fn moved(r: Rect, dx: int, dy: int) -> Rect {
    Rect {
        left: (r.left + dx) as i32,
        top: (r.top + dy) as i32,
        right: (r.right + dx) as i32,
        bottom: (r.bottom + dy) as i32,
    }
}

/// Whether `r` can be moved by (`dx`, `dy`).
pub open spec fn can_move(r: Rect, dx: int, dy: int) -> bool {
    &&& i32::MIN <= r.left + dx <= i32::MAX
    &&& i32::MIN <= r.top + dy <= i32::MAX
    &&& i32::MIN <= r.right + dx <= i32::MAX
    &&& i32::MIN <= r.bottom + dy <= i32::MAX
}

fn translated(r: &Rect, dx: i32, dy: i32) -> (result: Rect)
    requires
        can_move(*r, dx as int, dy as int),
    ensures
        result == moved(*r, dx as int, dy as int),
{
    Rect::from_ltrb(r.left + dx, r.top + dy, r.right + dx, r.bottom + dy)
}

/// The part of `r` within the monitor along one axis.
pub open spec fn strip(r: Rect, monitor: Rect, is_vertical: bool) -> Rect {
    let c = r.spec_intersect(monitor);
    if is_vertical {
        Rect { left: r.left, right: r.right, ..c }
    } else {
        Rect { top: r.top, bottom: r.bottom, ..c }
    }
}

/// Whether `r` has no extent along one axis.
pub open spec fn has_no_extent(r: Rect, is_vertical: bool) -> bool {
    if is_vertical {
        r.top >= r.bottom
    } else {
        r.left >= r.right
    }
}

impl WorkspaceSurrogate {
    /// Makes the picture of the window at `rect`. With a backdrop it has to
    /// move with the window; else it covers the whole monitor.
    pub fn new(
        rect: &Rect,
        viewport: &Rect,
        opacity: u8,
        has_backdrop: bool,
        window_border: &Insets,
    ) -> (result: ViewSetup)
        requires
            has_backdrop ==> window_border.can_deflate(*rect),
        ensures
            ({
                let inset = if has_backdrop {
                    *window_border
                } else {
                    Insets::spec_zero()
                };
                result == ViewSetup {
                    surrogate: WorkspaceSurrogate {
                        rect: inset.deflated(*rect),
                        viewport: *viewport,
                        opacity,
                        mode: if has_backdrop {
                            SurrogateMode::Live
                        } else {
                            SurrogateMode::PinnedViewport
                        },
                        border_inset: inset,
                        current_rect: None,
                    },
                    source_rect: if has_backdrop {
                        *rect
                    } else {
                        *viewport
                    },
                    thumbnail_rect: *rect,
                    keeps_corners: has_backdrop,
                }
            }),
    {
        let mode = if has_backdrop {
            SurrogateMode::Live
        } else {
            SurrogateMode::PinnedViewport
        };
        let border_inset = if has_backdrop {
            *window_border
        } else {
            Insets::zero()
        };
        let source_rect = if has_backdrop {
            *rect
        } else {
            *viewport
        };
        ViewSetup {
            surrogate: WorkspaceSurrogate {
                rect: to_logical(rect, &border_inset),
                viewport: *viewport,
                opacity,
                mode,
                border_inset,
                current_rect: None,
            },
            source_rect,
            thumbnail_rect: *rect,
            keeps_corners: has_backdrop,
        }
    }

    /// Where a picture that moves is now.
    pub fn current_rect(&self) -> (result: Option<Rect>)
        ensures
            result == self.current_rect,
    {
        self.current_rect
    }

    /// Whether the picture moves with the window.
    pub fn is_live(&self) -> (result: bool)
        ensures
            result == (self.mode is Live),
    {
        matches!(self.mode, SurrogateMode::Live)
    }

    /// How `source` is shown at `visible` on the screen.
    pub open spec fn frame_at(self, source: Rect, visible: Rect) -> SurrogateFrame {
        match self.mode {
            SurrogateMode::PinnedViewport => SurrogateFrame {
                source,
                dest: moved(visible, -self.viewport.left, -self.viewport.top),
                place: None,
            },
            SurrogateMode::Live => SurrogateFrame {
                source,
                dest: Rect {
                    left: 0,
                    top: 0,
                    right: visible.spec_width() as i32,
                    bottom: visible.spec_height() as i32,
                },
                place: Some(visible),
            },
        }
    }

    /// The picture while it shows something at `visible`.
    pub open spec fn shown_at(self, visible: Rect) -> WorkspaceSurrogate {
        match self.mode {
            SurrogateMode::PinnedViewport => self,
            SurrogateMode::Live => WorkspaceSurrogate { current_rect: Some(visible), ..self },
        }
    }

    /// The picture while it is hidden.
    pub open spec fn hidden(self) -> WorkspaceSurrogate {
        WorkspaceSurrogate { current_rect: None, ..self }
    }

    /// Whether something can be shown at `visible`.
    pub open spec fn can_show_at(self, visible: Rect) -> bool {
        match self.mode {
            SurrogateMode::PinnedViewport => can_move(
                visible,
                -self.viewport.left,
                -self.viewport.top,
            ),
            SurrogateMode::Live => visible.measurable(),
        }
    }

    /// Shows `source` at `visible`.
    fn apply_visible_rect(&mut self, source: &Rect, visible: &Rect) -> (result: SurrogateFrame)
        requires
            old(self).can_show_at(*visible),
        ensures
            result == old(self).frame_at(*source, *visible),
            *final(self) == old(self).shown_at(*visible),
    {
        match self.mode {
            SurrogateMode::PinnedViewport => {
                let dest = Rect::from_ltrb(
                    visible.left - self.viewport.left,
                    visible.top - self.viewport.top,
                    visible.right - self.viewport.left,
                    visible.bottom - self.viewport.top,
                );
                SurrogateFrame { source: *source, dest, place: None }
            },
            SurrogateMode::Live => {
                let dest = Rect::from_ltrb(0, 0, visible.width(), visible.height());
                self.current_rect = Some(*visible);
                SurrogateFrame { source: *source, dest, place: Some(*visible) }
            },
        }
    }

    /// The whole window, past its invisible border.
    pub open spec fn whole_source(self) -> Rect {
        Rect {
            left: self.border_inset.left,
            top: self.border_inset.top,
            right: (self.border_inset.left + self.rect.spec_width()) as i32,
            bottom: (self.border_inset.top + self.rect.spec_height()) as i32,
        }
    }

    /// Whether the whole window can be drawn.
    pub open spec fn can_draw(self) -> bool {
        &&& self.rect.measurable()
        &&& i32::MIN <= self.border_inset.left + self.rect.spec_width() <= i32::MAX
        &&& i32::MIN <= self.border_inset.top + self.rect.spec_height() <= i32::MAX
    }

    fn source_of_whole(&self) -> (result: Rect)
        requires
            self.can_draw(),
        ensures
            result == self.whole_source(),
    {
        Rect::from_ltrb(
            self.border_inset.left,
            self.border_inset.top,
            self.border_inset.left + self.rect.width(),
            self.border_inset.top + self.rect.height(),
        )
    }

    /// Shows the window where it is, fully opaque, so that it covers the
    /// window itself until that is hidden. Returns the frame and the opacity.
    pub fn show_initial(&mut self) -> (result: (SurrogateFrame, u8))
        requires
            old(self).can_draw(),
            old(self).can_show_at(old(self).rect),
        ensures
            result == (old(self).frame_at(old(self).whole_source(), old(self).rect), 255u8),
            *final(self) == old(self).shown_at(old(self).rect),
    {
        let source = self.source_of_whole();
        let rect = self.rect;
        let frame = self.apply_visible_rect(&source, &rect);
        (frame, 255)
    }

    /// Shows the window where it is going to be, with the opacity that its
    /// change starts at.
    pub fn show_incoming(&mut self, start_opacity: u8) -> (result: (SurrogateFrame, u8))
        requires
            old(self).can_draw(),
            old(self).can_show_at(old(self).rect),
        ensures
            result == (old(self).frame_at(old(self).whole_source(), old(self).rect), start_opacity),
            *final(self) == old(self).shown_at(old(self).rect),
    {
        let source = self.source_of_whole();
        let rect = self.rect;
        let frame = self.apply_visible_rect(&source, &rect);
        (frame, start_opacity)
    }

    /// The opacity once the window itself is hidden.
    pub fn apply_effect_opacity(&self) -> (result: u8)
        ensures
            result == self.opacity,
    {
        self.opacity
    }

    /// The rectangle that reaches `half_w` and `half_h` out from the middle of
    /// the window.
    pub open spec fn zoomed_rect(self, half_w: int, half_h: int) -> Rect {
        let cx = self.rect.left + div_toward_zero(self.rect.spec_width(), 2);
        let cy = self.rect.top + div_toward_zero(self.rect.spec_height(), 2);
        Rect {
            left: (cx - half_w) as i32,
            top: (cy - half_h) as i32,
            right: (cx + half_w) as i32,
            bottom: (cy + half_h) as i32,
        }
    }

    /// Whether that rectangle can be computed and shown.
    pub open spec fn can_zoom(self, half_w: int, half_h: int) -> bool {
        let cx = self.rect.left + div_toward_zero(self.rect.spec_width(), 2);
        let cy = self.rect.top + div_toward_zero(self.rect.spec_height(), 2);
        &&& i32::MIN <= cx - half_w && cx + half_w <= i32::MAX
        &&& i32::MIN <= cy - half_h && cy + half_h <= i32::MAX
        &&& self.can_show_at(self.zoomed_rect(half_w, half_h))
    }

    /// Zooms the window about its own middle: it reaches `half_w` and
    /// `half_h` out from there. With no extent it is hidden.
    pub fn update_zoom(&mut self, half_w: i32, half_h: i32) -> (result: Option<SurrogateFrame>)
        requires
            half_w > 0 && half_h > 0 ==> {
                &&& old(self).can_draw()
                &&& old(self).can_zoom(half_w as int, half_h as int)
            },
        ensures
            ({
                let visible = old(self).zoomed_rect(half_w as int, half_h as int);
                if half_w <= 0 || half_h <= 0 {
                    result is None && *final(self) == old(self).hidden()
                } else {
                    &&& result == Some(old(self).frame_at(old(self).whole_source(), visible))
                    &&& *final(self) == old(self).shown_at(visible)
                }
            }),
    {
        if half_w <= 0 || half_h <= 0 {
            self.current_rect = None;
            return None;
        }
        let cx: i32 = self.rect.left + half(self.rect.width());
        let cy: i32 = self.rect.top + half(self.rect.height());
        let source = self.source_of_whole();
        let visible = Rect::from_ltrb(cx - half_w, cy - half_h, cx + half_w, cy + half_h);
        Some(self.apply_visible_rect(&source, &visible))
    }

    /// The window at `offset` along one axis.
    pub open spec fn slid(self, offset: int, is_vertical: bool) -> Rect {
        if is_vertical {
            moved(self.rect, 0, offset)
        } else {
            moved(self.rect, offset, 0)
        }
    }

    /// The part of the window that shows at `visible` while it is at `at`.
    pub open spec fn source_of(self, at: Rect, visible: Rect) -> Rect {
        moved(visible, self.border_inset.left - at.left, self.border_inset.top - at.top)
    }

    /// Whether the window can be drawn at `offset` along one axis.
    pub open spec fn can_slide(self, offset: int, monitor: Rect, is_vertical: bool) -> bool {
        let at = self.slid(offset, is_vertical);
        let visible = strip(at, monitor, is_vertical);
        &&& can_move(
            self.rect,
            if is_vertical {
                0
            } else {
                offset
            },
            if is_vertical {
                offset
            } else {
                0
            },
        )
        &&& !has_no_extent(visible, is_vertical) ==> {
            &&& can_move(visible, -at.left, -at.top)
            &&& can_move(
                visible,
                self.border_inset.left - at.left,
                self.border_inset.top - at.top,
            )
            &&& self.can_show_at(visible)
        }
    }

    /// Slides the window to `offset` along one axis. Only the part within the
    /// monitor along that axis is shown; with no such part it is hidden.
    pub fn slide_axis(&mut self, offset: i32, monitor: &Rect, is_vertical: bool) -> (result: Option<
        SurrogateFrame,
    >)
        requires
            old(self).can_slide(offset as int, *monitor, is_vertical),
        ensures
            ({
                let at = old(self).slid(offset as int, is_vertical);
                let visible = strip(at, *monitor, is_vertical);
                if has_no_extent(visible, is_vertical) {
                    result is None && *final(self) == old(self).hidden()
                } else {
                    &&& result == Some(
                        old(self).frame_at(old(self).source_of(at, visible), visible),
                    )
                    &&& *final(self) == old(self).shown_at(visible)
                }
            }),
    {
        let at = if is_vertical {
            translated(&self.rect, 0, offset)
        } else {
            translated(&self.rect, offset, 0)
        };
        let visible = if is_vertical {
            Rect::from_ltrb(
                at.left,
                max_i32(at.top, monitor.top),
                at.right,
                min_i32(at.bottom, monitor.bottom),
            )
        } else {
            Rect::from_ltrb(
                max_i32(at.left, monitor.left),
                at.top,
                min_i32(at.right, monitor.right),
                at.bottom,
            )
        };
        let hides: bool = if is_vertical {
            visible.top >= visible.bottom
        } else {
            visible.left >= visible.right
        };
        if hides {
            self.current_rect = None;
            return None;
        }
        let local = Rect::from_ltrb(
            visible.left - at.left,
            visible.top - at.top,
            visible.right - at.left,
            visible.bottom - at.top,
        );
        let source = translated(&local, self.border_inset.left, self.border_inset.top);
        Some(self.apply_visible_rect(&source, &visible))
    }

    /// The part of the window that `unscaled` stands for: within the window,
    /// past its invisible border.
    pub open spec fn clamped_source(self, unscaled: Rect) -> Rect {
        let (w, h) = (self.rect.spec_width(), self.rect.spec_height());
        Rect {
            left: (self.border_inset.left + clamped(unscaled.left as int, 0, w)) as i32,
            top: (self.border_inset.top + clamped(unscaled.top as int, 0, h)) as i32,
            right: (self.border_inset.left + clamped(unscaled.right as int, 0, w)) as i32,
            bottom: (self.border_inset.top + clamped(unscaled.bottom as int, 0, h)) as i32,
        }
    }

    /// Shows the window scaled and slid: `visible` is the part of the screen
    /// that it takes, as `zoomed_part` gives it, and `unscaled` the same part
    /// before scaling, seen from the corner of the window.
    pub fn slide_zoom_axis(&mut self, visible: Option<Rect>, unscaled: &Rect) -> (result: Option<
        SurrogateFrame,
    >)
        requires
            visible matches Some(v) ==> {
                &&& old(self).can_draw()
                &&& old(self).rect.spec_width() >= 0
                &&& old(self).rect.spec_height() >= 0
                &&& old(self).can_show_at(v)
            },
        ensures
            match visible {
                None => result is None && *final(self) == old(self).hidden(),
                Some(v) => {
                    &&& result == Some(old(self).frame_at(old(self).clamped_source(*unscaled), v))
                    &&& *final(self) == old(self).shown_at(v)
                },
            },
    {
        let visible = match visible {
            Some(v) => v,
            None => {
                self.current_rect = None;
                return None;
            },
        };
        let w: i32 = self.rect.width();
        let h: i32 = self.rect.height();
        let left: i32 = clamp_i32(unscaled.left, w);
        let top: i32 = clamp_i32(unscaled.top, h);
        let right: i32 = clamp_i32(unscaled.right, w);
        let bottom: i32 = clamp_i32(unscaled.bottom, h);
        let source = Rect::from_ltrb(
            self.border_inset.left + left,
            self.border_inset.top + top,
            self.border_inset.left + right,
            self.border_inset.top + bottom,
        );
        Some(self.apply_visible_rect(&source, &visible))
    }
}

/// `v` within 0 and `hi`.
fn clamp_i32(v: i32, hi: i32) -> (result: i32)
    requires
        hi >= 0,
    ensures
        result == clamped(v as int, 0, hi as int),
{
    if v < 0 {
        0
    } else if v > hi {
        hi
    } else {
        v
    }
}

/// Where a scaled window is on the screen once it is slid along one axis, and
/// the part of it within the monitor, if any.
#[derive(Clone, Copy, Debug, PartialEq, Eq, Structural)]
pub struct ZoomedPart {
    pub at: Rect,
    pub visible: Option<Rect>,
}

/// Slides the scaled window `zoomed` by `offset` along one axis and cuts it to
/// the monitor. Without a scale above nothing it stays where it is, with no such
/// part.
pub fn zoomed_part(
    zoomed: &Rect,
    offset: i32,
    monitor: &Rect,
    is_vertical: bool,
    has_scale: bool,
) -> (result: ZoomedPart)
    requires
        has_scale && is_vertical ==> can_move(*zoomed, 0, offset as int),
        has_scale && !is_vertical ==> can_move(*zoomed, offset as int, 0),
    ensures
        result.at == (if !has_scale {
            *zoomed
        } else if is_vertical {
            moved(*zoomed, 0, offset as int)
        } else {
            moved(*zoomed, offset as int, 0)
        }),
        result.visible == (if !has_scale || result.at.spec_intersect(*monitor).spec_is_empty() {
            None
        } else {
            Some(result.at.spec_intersect(*monitor))
        }),
{
    if !has_scale {
        return ZoomedPart { at: *zoomed, visible: None };
    }
    let at = if is_vertical {
        translated(zoomed, 0, offset)
    } else {
        translated(zoomed, offset, 0)
    };
    let visible = at.intersect(monitor);
    ZoomedPart {
        at,
        visible: if visible.is_empty() {
            None
        } else {
            Some(visible)
        },
    }
}

/// The middle of the monitor, about which a workspace is scaled.
pub fn monitor_middle(monitor: &Rect) -> (result: (i32, i32))
    requires
        monitor.measurable(),
    ensures
        result.0 == monitor.left + div_toward_zero(monitor.spec_width(), 2),
        result.1 == monitor.top + div_toward_zero(monitor.spec_height(), 2),
{
    (monitor.left + half(monitor.width()), monitor.top + half(monitor.height()))
}

/// A sliding window never spills beyond the monitor along its axis, is never
/// scaled, and each of its points shows where the slide has taken it.
pub proof fn sliding_only_cuts(
    s: WorkspaceSurrogate,
    offset: int,
    monitor: Rect,
    is_vertical: bool,
    x: int,
    y: int,
)
    requires
        s.can_slide(offset, monitor, is_vertical),
        !has_no_extent(strip(s.slid(offset, is_vertical), monitor, is_vertical), is_vertical),
    ensures
        ({
            let at = s.slid(offset, is_vertical);
            let visible = strip(at, monitor, is_vertical);
            let frame = s.frame_at(s.source_of(at, visible), visible);
            &&& frame.source.same_size(frame.dest)
            &&& visible.covers(x, y) ==> at.covers(x, y) && (if is_vertical {
                monitor.top <= y < monitor.bottom
            } else {
                monitor.left <= x < monitor.right
            })
            &&& at.covers(x, y) && monitor.covers(x, y) ==> visible.covers(x, y)
            &&& visible.covers(x, y) <==> frame.source.covers(
                x - at.left + s.border_inset.left,
                y - at.top + s.border_inset.top,
            )
        }),
{
}

/// All windows of a workspace slide as one panel: at the same offset any two
/// of them keep their distance.
pub proof fn workspaces_slide_as_one(
    a: WorkspaceSurrogate,
    b: WorkspaceSurrogate,
    offset: int,
    monitor: Rect,
    is_vertical: bool,
)
    requires
        a.can_slide(offset, monitor, is_vertical),
        b.can_slide(offset, monitor, is_vertical),
    ensures
        a.slid(offset, is_vertical).left - b.slid(offset, is_vertical).left == a.rect.left
            - b.rect.left,
        a.slid(offset, is_vertical).top - b.slid(offset, is_vertical).top == a.rect.top
            - b.rect.top,
        a.slid(offset, is_vertical).same_size(a.rect),
{
}

/// What is moved keeps its size.
pub proof fn moving_keeps_the_size(r: Rect, dx: int, dy: int)
    requires
        can_move(r, dx, dy),
    ensures
        moved(r, dx, dy).left == r.left + dx,
        moved(r, dx, dy).top == r.top + dy,
        moved(r, dx, dy).same_size(r),
        moved(r, 0, 0) == r,
{
}

/// A sliding window moves along its axis only, by the offset.
pub proof fn slides_go_along_their_axis(s: WorkspaceSurrogate, offset: int)
    ensures
        can_move(s.rect, 0, offset) ==> s.slid(offset, true).top == s.rect.top + offset && s.slid(
            offset,
            true,
        ).left == s.rect.left,
        can_move(s.rect, offset, 0) ==> s.slid(offset, false).left == s.rect.left + offset && s.slid(
            offset,
            false,
        ).top == s.rect.top,
{
}

/// A picture that covers the monitor draws the window where it is on it. One
/// that moves with the window goes there itself and is filled by it.
pub proof fn pictures_are_drawn_where_windows_are(
    s: WorkspaceSurrogate,
    source: Rect,
    visible: Rect,
)
    requires
        s.can_show_at(visible),
    ensures
        ({
            let f = s.frame_at(source, visible);
            &&& f.source == source
            &&& f.dest.same_size(visible)
            &&& s.mode is PinnedViewport ==> f.place is None && f.dest.left == visible.left
                - s.viewport.left && f.dest.top == visible.top - s.viewport.top && s.shown_at(
                visible,
            ) == s
            &&& s.mode is Live ==> f.place == Some(visible) && f.dest.left == 0 && f.dest.top == 0
                && s.shown_at(visible).current_rect == Some(visible)
            &&& s.shown_at(visible).rect == s.rect
        }),
        s.hidden().current_rect is None,
        s.hidden().rect == s.rect,
        s.hidden().mode == s.mode,
{
}

/// The whole of a window is drawn from past its border on, at its own size. When
/// it zooms, it stays in its own middle.
pub proof fn whole_windows_are_drawn(s: WorkspaceSurrogate, half_w: int, half_h: int)
    requires
        s.can_draw(),
    ensures
        s.whole_source().left == s.border_inset.left,
        s.whole_source().top == s.border_inset.top,
        s.whole_source().same_size(s.rect),
        s.can_zoom(half_w, half_h) && half_w >= 0 && half_h >= 0 && s.rect.left <= s.rect.right
            && s.rect.top <= s.rect.bottom ==> {
            let r = s.zoomed_rect(half_w, half_h);
            &&& r.right - r.left == 2 * half_w
            &&& r.bottom - r.top == 2 * half_h
            &&& s.rect.left + s.rect.right - 1 <= r.left + r.right <= s.rect.left + s.rect.right
            &&& s.rect.top + s.rect.bottom - 1 <= r.top + r.bottom <= s.rect.top + s.rect.bottom
        },
{
}

/// The part of a window that a scaled part stands for is within the window, and
/// is that part where it is within it.
pub proof fn scaled_parts_stay_within_windows(s: WorkspaceSurrogate, unscaled: Rect)
    requires
        s.can_draw(),
        s.rect.left <= s.rect.right,
        s.rect.top <= s.rect.bottom,
    ensures
        ({
            let c = s.clamped_source(unscaled);
            let w = s.rect.right - s.rect.left;
            let h = s.rect.bottom - s.rect.top;
            &&& s.border_inset.left <= c.left <= s.border_inset.left + w
            &&& s.border_inset.left <= c.right <= s.border_inset.left + w
            &&& s.border_inset.top <= c.top <= s.border_inset.top + h
            &&& s.border_inset.top <= c.bottom <= s.border_inset.top + h
            &&& 0 <= unscaled.left <= w ==> c.left == s.border_inset.left + unscaled.left
            &&& 0 <= unscaled.right <= w ==> c.right == s.border_inset.left + unscaled.right
            &&& 0 <= unscaled.top <= h ==> c.top == s.border_inset.top + unscaled.top
            &&& 0 <= unscaled.bottom <= h ==> c.bottom == s.border_inset.top + unscaled.bottom
        }),
{
}

/// A window is hidden along an axis if nothing of it is left there.
pub proof fn nothing_is_left_beyond_the_monitor(r: Rect, monitor: Rect)
    requires
        r.left < r.right,
        r.top < r.bottom,
        monitor.left < monitor.right,
        monitor.top < monitor.bottom,
    ensures
        has_no_extent(strip(r, monitor, true), true) <==> r.bottom <= monitor.top || r.top
            >= monitor.bottom,
        has_no_extent(strip(r, monitor, false), false) <==> r.right <= monitor.left || r.left
            >= monitor.right,
        strip(r, monitor, true).left == r.left && strip(r, monitor, true).right == r.right,
        strip(r, monitor, false).top == r.top && strip(r, monitor, false).bottom == r.bottom,
{
}

} // verus!
