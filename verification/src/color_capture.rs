//! Drawing a window in the colors of a theme: what its overlay shows, frame by
//! frame.

use vstd::prelude::*;

use crate::geometry::{Color, Rect};

verus! {

/// A size in pixels.
#[derive(Clone, Copy, Debug, PartialEq, Eq, Structural)]
pub struct Size {
    pub width: u32,
    pub height: u32,
}

impl Size {
    /// Whether an area of this size covers one of the size of `other`.
    pub open spec fn covers(self, other: Size) -> bool {
        self.width >= other.width && self.height >= other.height
    }
}

/// Why a window cannot be captured.
#[derive(Clone, Copy, Debug, PartialEq, Eq, Structural)]
pub enum CaptureError {
    /// It is not known whether the system can capture windows.
    SupportUnknown,
    /// The system cannot capture windows.
    Unsupported,
    /// The window belongs to a process with more rights.
    Elevated,
    /// The window does not let itself be captured.
    Blocked,
}

/// Refuses windows that would not be drawn right. `supported` says whether the
/// system can capture windows, `affinity` what the window says of being
/// captured (0 for nothing), as far as they are known.
pub fn ensure_capturable(supported: Option<bool>, more_elevated: bool, affinity: Option<u32>) -> (
    result: Result<(), CaptureError>)
    ensures
        result == (if supported is None {
            Err(CaptureError::SupportUnknown)
        } else if supported == Some(false) {
            Err(CaptureError::Unsupported)
        } else if more_elevated {
            Err(CaptureError::Elevated)
        } else if affinity is Some && affinity != Some(0u32) {
            Err(CaptureError::Blocked)
        } else {
            Ok(())
        }),
{
    match supported {
        None => {
            return Err(CaptureError::SupportUnknown);
        },
        Some(false) => {
            return Err(CaptureError::Unsupported);
        },
        Some(true) => {},
    }
    if more_elevated {
        return Err(CaptureError::Elevated);
    }
    if let Some(a) = affinity {
        if a != 0 {
            return Err(CaptureError::Blocked);
        }
    }
    Ok(())
}

/// Whether a window belongs to a process with more rights than this one.
/// `own` says whether this process is elevated; `process` is nothing if the
/// other cannot be opened, and else says whether it is elevated. What is not
/// known counts as elevated.
pub fn is_more_elevated(own: Option<bool>, process: Option<Option<bool>>) -> (result: bool)
    ensures
        result == (own != Some(true) && process != Some(Some(false))),
{
    match own {
        Some(true) => {
            return false;
        },
        _ => {},
    }
    match process {
        Some(Some(false)) => false,
        _ => true,
    }
}

/// The size that the drawing of a window starts with: that of its overlay, and
/// at least one pixel.
pub fn initial_size(rect: &Rect) -> (result: Size)
    requires
        rect.measurable(),
    ensures
        result.width == (if rect.spec_width() < 1 {
            1
        } else {
            rect.spec_width()
        }),
        result.height == (if rect.spec_height() < 1 {
            1
        } else {
            rect.spec_height()
        }),
{
    let width: i32 = rect.width();
    let height: i32 = rect.height();
    Size {
        width: if width < 1 {
            1
        } else {
            width as u32
        },
        height: if height < 1 {
            1
        } else {
            height as u32
        },
    }
}

/// What the drawing of a frame is told of it, padded to sixteen bytes.
#[derive(Clone, Copy, Debug)]
pub struct FrameConstants {
    pub size: [u32; 2],
    pub padding: [u32; 2],
}

impl FrameConstants {
    pub fn new(size: Size) -> (result: FrameConstants)
        ensures
            result.size@ == seq![size.width, size.height],
            result.padding@ == seq![0u32, 0u32],
    {
        let result = FrameConstants { size: [size.width, size.height], padding: [0, 0] };
        proof {
            assert(result.size@ =~= seq![size.width, size.height]);
            assert(result.padding@ =~= seq![0u32, 0u32]);
        }
        result
    }
}

/// The size that the system gives for a frame or its buffers.
#[derive(Clone, Copy, Debug, PartialEq, Eq, Structural)]
pub struct RawSize {
    pub width: i32,
    pub height: i32,
}

/// A frame that is kept to be drawn again.
#[derive(Clone, Copy, Debug, PartialEq, Eq, Structural)]
pub struct KeptFrame {
    pub id: u64,
    pub size: Size,
}

/// What is done to draw a frame.
#[derive(Clone, Copy, Debug, PartialEq, Eq, Structural)]
pub struct RenderPlan {
    pub size: Size,
    /// Whether the target has another size: its buffers are resized and what
    /// the drawing is told of the frame is replaced.
    pub resizes: bool,
    /// Whether the target needs a new view.
    pub makes_view: bool,
}

/// What a new frame comes down to.
#[derive(Clone, Copy, Debug, PartialEq, Eq, Structural)]
pub struct FramePlan {
    pub render: Option<RenderPlan>,
    /// The size that the buffers are made anew at, if the window was resized.
    pub recreates: Option<RawSize>,
}

/// The target that frames are drawn to.
#[derive(Clone, Copy, Debug, PartialEq, Eq, Structural)]
pub struct CaptureOutput {
    pub swap_chain_size: Size,
    pub has_view: bool,
}

impl CaptureOutput {
    pub fn create(size: Size) -> (output: CaptureOutput)
        ensures
            output == (CaptureOutput { swap_chain_size: size, has_view: false }),
    {
        CaptureOutput { swap_chain_size: size, has_view: false }
    }

    /// What drawing a frame of the given size takes.
    pub open spec fn plan(self, size: Size) -> RenderPlan {
        RenderPlan {
            size,
            resizes: self.swap_chain_size != size,
            makes_view: self.swap_chain_size != size || !self.has_view,
        }
    }

    /// The target after a frame of the given size.
    pub open spec fn rendered(self, size: Size) -> CaptureOutput {
        CaptureOutput { swap_chain_size: size, has_view: true }
    }

    /// Draws a frame of the given size.
    pub fn render(&mut self, size: Size) -> (result: RenderPlan)
        ensures
            result == old(self).plan(size),
            *final(self) == old(self).rendered(size),
    {
        let resizes: bool = self.swap_chain_size != size;
        if resizes {
            self.has_view = false;
            self.swap_chain_size = size;
        }
        let makes_view: bool = !self.has_view;
        self.has_view = true;
        RenderPlan { size, resizes, makes_view }
    }
}

/// The state of one captured window and of what its overlay shows.
#[derive(Clone, Copy, Debug, PartialEq, Eq, Structural)]
pub struct Renderer {
    pub output: CaptureOutput,
    /// The color beneath the frames.
    pub fill_color: Option<Color>,
    /// The size that a frame has to cover to make the color go.
    pub fill_until_covered: Option<Size>,
    /// Whether the color shows before the first frame.
    pub fill_before_first_frame: bool,
    /// Whether frames are drawn, but not shown.
    pub frames_held: bool,
    /// The size of the buffers.
    pub pool_size: RawSize,
    pub last_frame: Option<KeptFrame>,
    pub is_shown: bool,
    pub failed: bool,
    /// Whether frames are visible.
    pub sprite_visible: bool,
    /// The color that is visible beneath them.
    pub visible_fill: Option<Color>,
}

impl Renderer {
    /// The color that belongs beneath the frames: none before the first frame,
    /// unless it stands in for it, and none once the drawing has failed.
    pub open spec fn wanted_fill(self) -> Option<Color> {
        if (self.is_shown || self.fill_before_first_frame || self.frames_held) && !self.failed {
            self.fill_color
        } else {
            None
        }
    }

    /// The color that is visible is the one that belongs there, frames are
    /// visible once the first is drawn, and after a failure nothing is.
    pub open spec fn wf(self) -> bool {
        &&& self.visible_fill == self.wanted_fill()
        &&& self.sprite_visible == (self.is_shown && !self.failed)
        &&& self.failed ==> self.last_frame is None
    }

    /// A window of which nothing has been drawn yet. With a placeholder that
    /// color shows until a frame covers the overlay.
    pub fn start(
        size: Size,
        placeholder: Option<Color>,
        frames_held: bool,
        pool_size: RawSize,
    ) -> (renderer: Renderer)
        ensures
            renderer.wf(),
            renderer == (Renderer {
                output: CaptureOutput { swap_chain_size: size, has_view: false },
                fill_color: placeholder,
                fill_until_covered: if placeholder is Some {
                    Some(size)
                } else {
                    None
                },
                fill_before_first_frame: placeholder is Some,
                frames_held,
                pool_size,
                last_frame: None,
                is_shown: false,
                failed: false,
                sprite_visible: false,
                visible_fill: placeholder,
            }),
    {
        let fill_until_covered: Option<Size> = if placeholder.is_some() {
            Some(size)
        } else {
            None
        };
        Renderer {
            output: CaptureOutput::create(size),
            fill_color: placeholder,
            fill_until_covered,
            fill_before_first_frame: placeholder.is_some(),
            frames_held,
            pool_size,
            last_frame: None,
            is_shown: false,
            failed: false,
            sprite_visible: false,
            visible_fill: placeholder,
        }
    }

    /// The same with the visible color brought up to date.
    pub open spec fn fill_synced(self) -> Renderer {
        Renderer { visible_fill: self.wanted_fill(), ..self }
    }

    fn sync_fill(&mut self)
        ensures
            *final(self) == old(self).fill_synced(),
    {
        let shows: bool = (self.is_shown || self.fill_before_first_frame || self.frames_held)
            && !self.failed;
        self.visible_fill = if shows {
            self.fill_color
        } else {
            None
        };
    }

    /// The same with a frame of the given size drawn, and shown unless frames
    /// are held back. One that covers the overlay makes the color go.
    pub open spec fn presented(self, size: Size) -> Renderer {
        let drawn = Renderer { output: self.output.rendered(size), ..self };
        if self.frames_held {
            drawn
        } else {
            let shown = Renderer { is_shown: true, sprite_visible: true, ..drawn };
            if self.fill_until_covered matches Some(until) && size.covers(until) {
                Renderer {
                    fill_color: None,
                    fill_until_covered: None,
                    fill_before_first_frame: false,
                    ..shown
                }.fill_synced()
            } else {
                shown.fill_synced()
            }
        }
    }

    fn present(&mut self, size: Size) -> (result: RenderPlan)
        requires
            old(self).wf(),
            !old(self).failed,
        ensures
            result == old(self).output.plan(size),
            *final(self) == old(self).presented(size),
            final(self).wf(),
    {
        let plan = self.output.render(size);
        if self.frames_held {
            return plan;
        }
        if !self.is_shown {
            self.sprite_visible = true;
            self.is_shown = true;
            self.sync_fill();
        }
        if let Some(until) = self.fill_until_covered {
            if size.width >= until.width && size.height >= until.height {
                self.fill_color = None;
                self.fill_until_covered = None;
                self.fill_before_first_frame = false;
                self.sync_fill();
            }
        }
        plan
    }

    /// Takes a frame that the system has delivered, if it has. Empty frames,
    /// which minimized windows have, change nothing. A frame of another size
    /// than the buffers is drawn, but not kept, and the buffers are made anew.
    pub fn on_frame_arrived(&mut self, id: u64, content: Option<RawSize>) -> (result: FramePlan)
        requires
            old(self).wf(),
        ensures
            final(self).wf(),
            ({
                let nothing = FramePlan { render: None, recreates: None };
                match content {
                    Some(c) => if old(self).failed || c.width <= 0 || c.height <= 0 {
                        result == nothing && *final(self) == *old(self)
                    } else {
                        let size = Size { width: c.width as u32, height: c.height as u32 };
                        let keeps = c == old(self).pool_size;
                        &&& result == (FramePlan {
                            render: Some(old(self).output.plan(size)),
                            recreates: if keeps {
                                None
                            } else {
                                Some(c)
                            },
                        })
                        &&& *final(self) == (Renderer {
                            last_frame: if keeps {
                                Some(KeptFrame { id, size })
                            } else {
                                None
                            },
                            pool_size: c,
                            ..old(self).presented(size)
                        })
                    },
                    None => result == nothing && *final(self) == *old(self),
                }
            }),
    {
        let nothing = FramePlan { render: None, recreates: None };
        if self.failed {
            return nothing;
        }
        let content: RawSize = match content {
            Some(c) => c,
            None => {
                return nothing;
            },
        };
        if content.width <= 0 || content.height <= 0 {
            return nothing;
        }
        let size = Size { width: content.width as u32, height: content.height as u32 };
        let render = self.present(size);
        if content == self.pool_size {
            self.last_frame = Some(KeptFrame { id, size });
            FramePlan { render: Some(render), recreates: None }
        } else {
            self.last_frame = None;
            self.pool_size = content;
            FramePlan { render: Some(render), recreates: Some(content) }
        }
    }

    /// Switches to another theme: the frame that is kept is drawn again.
    pub fn set_theme(&mut self) -> (result: Option<RenderPlan>)
        requires
            old(self).wf(),
        ensures
            final(self).wf(),
            match old(self).last_frame {
                Some(kept) => {
                    &&& result == Some(old(self).output.plan(kept.size))
                    &&& *final(self) == old(self).presented(kept.size)
                },
                None => result is None && *final(self) == *old(self),
            },
    {
        if self.failed {
            return None;
        }
        match self.last_frame {
            Some(kept) => Some(self.present(kept.size)),
            None => None,
        }
    }

    /// Sets the color beneath the frames, for good. The same color changes
    /// nothing.
    pub fn set_fill(&mut self, color: Option<Color>)
        requires
            old(self).wf(),
        ensures
            final(self).wf(),
            *final(self) == (if old(self).fill_color == color {
                *old(self)
            } else {
                Renderer {
                    fill_color: color,
                    fill_until_covered: None,
                    fill_before_first_frame: false,
                    ..*old(self)
                }.fill_synced()
            }),
    {
        let same: bool = match (self.fill_color, color) {
            (Some(a), Some(b)) => a == b,
            (None, None) => true,
            _ => false,
        };
        if same {
            return;
        }
        self.fill_color = color;
        self.fill_until_covered = None;
        self.fill_before_first_frame = false;
        self.sync_fill();
    }

    /// Lets the color go once a frame of at least the given size is shown.
    pub fn release_fill_when_covered(&mut self, size: Size)
        requires
            old(self).wf(),
        ensures
            final(self).wf(),
            *final(self) == (if old(self).fill_color is Some {
                Renderer { fill_until_covered: Some(size), ..*old(self) }
            } else {
                *old(self)
            }),
    {
        if self.fill_color.is_some() {
            self.fill_until_covered = Some(size);
        }
    }

    /// Holds frames back, so that only the color shows, or shows them again:
    /// the one that is kept at once.
    pub fn set_frames_held(&mut self, held: bool) -> (result: Option<RenderPlan>)
        requires
            old(self).wf(),
        ensures
            final(self).wf(),
            ({
                let changed = Renderer { frames_held: held, ..*old(self) };
                if old(self).frames_held == held {
                    result is None && *final(self) == *old(self)
                } else if !held && old(self).last_frame is Some {
                    let size = old(self).last_frame->0.size;
                    &&& result == Some(old(self).output.plan(size))
                    &&& *final(self) == changed.presented(size)
                } else {
                    result is None && *final(self) == changed.fill_synced()
                }
            }),
    {
        if self.frames_held == held {
            return None;
        }
        self.frames_held = held;
        if held {
            self.sync_fill();
            return None;
        }
        match self.last_frame {
            Some(kept) => {
                let plan = self.output.render(kept.size);
                self.sprite_visible = true;
                self.is_shown = true;
                if let Some(until) = self.fill_until_covered {
                    if kept.size.width >= until.width && kept.size.height >= until.height {
                        self.fill_color = None;
                        self.fill_until_covered = None;
                        self.fill_before_first_frame = false;
                    }
                }
                self.sync_fill();
                Some(plan)
            },
            None => {
                self.sync_fill();
                None
            },
        }
    }

    /// Gives up for good: nothing is visible any more, so that the window
    /// itself shows. Returns whether this is the first failure.
    pub fn fail(&mut self) -> (first: bool)
        requires
            old(self).wf(),
        ensures
            final(self).wf(),
            first == !old(self).failed,
            *final(self) == (if old(self).failed {
                *old(self)
            } else {
                Renderer {
                    failed: true,
                    last_frame: None,
                    sprite_visible: false,
                    visible_fill: None,
                    ..*old(self)
                }
            }),
    {
        if self.failed {
            return false;
        }
        self.failed = true;
        self.last_frame = None;
        self.sprite_visible = false;
        self.visible_fill = None;
        true
    }

    /// Whether the drawing has stopped for good.
    pub fn has_failed(&self) -> (result: bool)
        ensures
            result == self.failed,
    {
        self.failed
    }
}

/// After a failure the overlay shows nothing: the window itself shows.
pub proof fn failures_show_the_window(r: Renderer)
    requires
        r.wf(),
        r.failed,
    ensures
        !r.sprite_visible,
        r.visible_fill is None,
{
}

/// Before the first frame the overlay shows at most a color: the one that
/// stands in for the frame, or that is shown while frames are held back.
pub proof fn nothing_shows_before_the_first_frame(r: Renderer)
    requires
        r.wf(),
        !r.is_shown,
        !r.fill_before_first_frame,
        !r.frames_held,
    ensures
        !r.sprite_visible,
        r.visible_fill is None,
{
}

/// A frame that covers what the color is kept for makes it go, unless frames
/// are held back.
pub proof fn covering_frames_release_the_fill(r: Renderer, size: Size, until: Size)
    requires
        r.wf(),
        !r.failed,
        !r.frames_held,
        r.fill_until_covered == Some(until),
        size.covers(until),
    ensures
        r.presented(size).fill_color is None,
        r.presented(size).visible_fill is None,
        r.presented(size).sprite_visible,
{
}

/// Frames that are held back change nothing of what is visible.
pub proof fn held_frames_stay_hidden(r: Renderer, size: Size)
    requires
        r.wf(),
        r.frames_held,
    ensures
        r.presented(size).sprite_visible == r.sprite_visible,
        r.presented(size).visible_fill == r.visible_fill,
{
}

/// A size covers another if it is smaller in no direction.
pub proof fn sizes_cover_smaller_ones(a: Size, b: Size)
    ensures
        a.covers(b) <==> a.width >= b.width && a.height >= b.height,
{
}

/// A frame of another size than the target resizes it, and then, or if there was
/// none, makes its view anew. A second frame of the same size does neither.
pub proof fn targets_are_made_for_their_frames(o: CaptureOutput, size: Size)
    ensures
        o.plan(size).size == size,
        o.plan(size).resizes <==> o.swap_chain_size != size,
        o.plan(size).makes_view <==> o.swap_chain_size != size || !o.has_view,
        !o.rendered(size).plan(size).resizes,
        !o.rendered(size).plan(size).makes_view,
        o.rendered(size).swap_chain_size == size,
{
}

/// The color shows beneath the frames, before them only if it stands in for
/// them or they are held back, and never once the drawing has failed.
pub proof fn fills_show_beneath_the_frames(r: Renderer)
    ensures
        r.failed ==> r.wanted_fill() is None,
        !r.failed && (r.is_shown || r.fill_before_first_frame || r.frames_held) ==> r.wanted_fill()
            == r.fill_color,
        !r.is_shown && !r.fill_before_first_frame && !r.frames_held ==> r.wanted_fill() is None,
        r.fill_synced().visible_fill == r.wanted_fill(),
        r.fill_synced().fill_color == r.fill_color,
        r.fill_synced().output == r.output,
        r.fill_synced().is_shown == r.is_shown,
        r.fill_synced().sprite_visible == r.sprite_visible,
        r.fill_synced().last_frame == r.last_frame,
        r.fill_synced().fill_until_covered == r.fill_until_covered,
{
}

/// A frame that is drawn shows, unless frames are held back. One that covers
/// what it has to makes the color go, and any other leaves it.
pub proof fn drawn_frames_show(r: Renderer, size: Size)
    ensures
        r.presented(size).output.swap_chain_size == size,
        r.presented(size).output.has_view,
        r.presented(size).failed == r.failed,
        r.presented(size).last_frame == r.last_frame,
        r.presented(size).pool_size == r.pool_size,
        r.presented(size).frames_held == r.frames_held,
        r.frames_held ==> r.presented(size).is_shown == r.is_shown && r.presented(size).fill_color
            == r.fill_color && r.presented(size).fill_until_covered == r.fill_until_covered,
        !r.frames_held ==> r.presented(size).is_shown && r.presented(size).sprite_visible,
        !r.frames_held && (r.fill_until_covered matches Some(until) && size.width >= until.width
            && size.height >= until.height) ==> r.presented(size).fill_color is None && r.presented(
            size,
        ).visible_fill is None && r.presented(size).fill_until_covered is None,
        !r.frames_held && !(r.fill_until_covered matches Some(until) && size.width >= until.width
            && size.height >= until.height) ==> r.presented(size).fill_color == r.fill_color
            && r.presented(size).fill_until_covered == r.fill_until_covered && (!r.failed
            ==> r.presented(size).visible_fill == r.fill_color),
{
}

} // verus!
