//! The layers of an overlay: what each shows, and what has to be drawn anew
//! when something changes.

use vstd::prelude::*;

use crate::effects::BackdropStyle;
use crate::geometry::{max_i32, max_int, min_i32, min_int, Color, Rect};
use crate::wallpaper_surface::BakeKnobs;

verus! {

/// A question that an effect has no answer to.
#[derive(Clone, Copy, Debug, PartialEq, Eq, Structural)]
pub struct InvalidArgument;

/// A value of an effect.
#[derive(Clone, Copy, Debug, PartialEq, Eq, Structural)]
pub enum PropertyValue {
    /// The one that can be set.
    Scalar(i64),
    /// One of the fixed ones.
    Fixed(u32),
}

/// An effect with one value that can be set and some that are fixed.
#[derive(Debug)]
pub struct ScalarEffect {
    pub property_name: String,
    pub initial_value: i64,
    pub extra_properties: Vec<u32>,
}

/// What of a name comes after its last dot: all of it where there is none.
pub open spec fn after_last_dot(name: Seq<char>) -> Seq<char>
    decreases name.len(),
{
    if name.len() == 0 || name.last() == '.' {
        Seq::empty()
    } else {
        after_last_dot(name.drop_last()).push(name.last())
    }
}

proof fn lemma_after_dot(name: Seq<char>, start: int)
    requires
        0 <= start <= name.len(),
        start > 0 ==> name[start - 1] == '.',
        forall|k: int| start <= k < name.len() ==> name[k] != '.',
    ensures
        after_last_dot(name) == name.subrange(start, name.len() as int),
    decreases name.len(),
{
    if name.len() == start {
        assert(name.subrange(start, name.len() as int) =~= Seq::<char>::empty());
    } else {
        let rest = name.drop_last();
        lemma_after_dot(rest, start);
        assert(name.subrange(start, name.len() as int) =~= rest.subrange(
            start,
            rest.len() as int,
        ).push(name.last()));
    }
}

/// Whether what comes after the last dot of `name` is `wanted`.
fn names_property(name: &str, wanted: &str) -> (result: bool)
    ensures
        result == (after_last_dot(name@) == wanted@),
{
    let n: usize = name.unicode_len();
    let m: usize = wanted.unicode_len();
    let mut start: usize = n;
    while start > 0 && name.get_char(start - 1) != '.'
        invariant
            start <= n,
            n == name@.len(),
            forall|k: int| start <= k < n ==> name@[k] != '.',
        decreases start,
    {
        start = start - 1;
    }
    proof {
        lemma_after_dot(name@, start as int);
    }
    let ghost tail = name@.subrange(start as int, n as int);
    if n - start != m {
        return false;
    }
    let mut i: usize = 0;
    while i < m
        invariant
            i <= m,
            m == wanted@.len(),
            n == name@.len(),
            start <= n,
            n - start == m,
            tail == name@.subrange(start as int, n as int),
            tail == after_last_dot(name@),
            forall|k: int| 0 <= k < i ==> tail[k] == wanted@[k],
        decreases m - i,
    {
        if name.get_char(start + i) != wanted.get_char(i) {
            proof {
                assert(tail[i as int] != wanted@[i as int]);
            }
            return false;
        }
        i = i + 1;
    }
    proof {
        assert(tail =~= wanted@);
    }
    true
}

impl ScalarEffect {
    /// The place of the value that `name` stands for, with or without the name
    /// of the effect before it. Only the value that can be set has a name.
    pub fn named_property(&self, name: &String) -> (result: Result<u32, InvalidArgument>)
        ensures
            result == (if after_last_dot(name@) == self.property_name@ {
                Ok(0u32)
            } else {
                Err(InvalidArgument)
            }),
    {
        if names_property(name.as_str(), self.property_name.as_str()) {
            Ok(0)
        } else {
            Err(InvalidArgument)
        }
    }

    /// How many values the effect has.
    pub fn property_count(&self) -> (result: u32)
        requires
            self.extra_properties@.len() < u32::MAX,
        ensures
            result == 1 + self.extra_properties@.len(),
    {
        1 + self.extra_properties.len() as u32
    }

    /// The value at `index`: first the one that can be set, then the fixed
    /// ones.
    pub fn property(&self, index: u32) -> (result: Result<PropertyValue, InvalidArgument>)
        ensures
            result == (if index == 0 {
                Ok(PropertyValue::Scalar(self.initial_value))
            } else if index - 1 < self.extra_properties@.len() {
                Ok(PropertyValue::Fixed(self.extra_properties@[index - 1]))
            } else {
                Err(InvalidArgument)
            }),
    {
        if index == 0 {
            return Ok(PropertyValue::Scalar(self.initial_value));
        }
        let at: usize = (index - 1) as usize;
        if at < self.extra_properties.len() {
            Ok(PropertyValue::Fixed(self.extra_properties[at]))
        } else {
            Err(InvalidArgument)
        }
    }

    /// Whether the effect has an input at `index`: it has just one.
    pub fn has_source(&self, index: u32) -> (result: Result<(), InvalidArgument>)
        ensures
            result == (if index == 0 {
                Ok(())
            } else {
                Err(InvalidArgument)
            }),
    {
        if index == 0 {
            Ok(())
        } else {
            Err(InvalidArgument)
        }
    }
}

/// The layers of an overlay.
#[derive(Clone, Copy, Debug, PartialEq, Eq, Structural)]
pub enum Layer {
    Blur,
    Tint,
    Vignette,
    GapRight,
    GapBottom,
}

/// What the lowest layer shows.
#[derive(Clone, Copy, Debug, PartialEq, Eq, Structural)]
pub enum Backdrop {
    /// What is behind, blurred as it changes.
    Acrylic,
    /// A color.
    Solid,
    /// A part of the picture of the monitor at `monitor`, as it was drawn at
    /// `generation`.
    Wallpaper { monitor: Rect, generation: u64 },
}

/// What an overlay is made from. The numbers are in millionths.
#[derive(Clone, Copy, Debug, PartialEq, Eq, Structural)]
pub struct BlurOverlayParams {
    pub style: BackdropStyle,
    pub tint: Color,
    pub corner_radius: i64,
    pub opacity: i64,
    /// How dark the edges become.
    pub vignette: i64,
    pub knobs: BakeKnobs,
    /// How far the picture follows the window.
    pub parallax: i64,
}

/// What a layer is painted with.
#[derive(Clone, Copy, Debug, PartialEq, Eq, Structural)]
pub enum Brush {
    Color(Color),
    /// What is behind, blurred as it changes.
    LiveBlur { blur_amount: i64, saturation: i64 },
    /// A part of the picture of the monitor at `monitor`.
    Picture { monitor: Rect, picture_knobs: BakeKnobs },
    /// Nothing in the middle, and up to this dark at the edges.
    Vignette { strength: i64 },
}

/// A layer, its brush and its size.
#[derive(Clone, Copy, Debug, PartialEq, Eq, Structural)]
pub struct PaintedLayer {
    pub layer: Layer,
    pub brush: Brush,
    pub width: i32,
    pub height: i32,
}

/// What holds the layers: its size, which is also that of the rounded shape
/// that they are cut to, the radius of that shape, and how opaque all of it is.
#[derive(Clone, Copy, Debug, PartialEq, Eq, Structural)]
pub struct RootVisual {
    pub width: i32,
    pub height: i32,
    pub corner_radius: i64,
    pub opacity: i64,
}

/// All that an overlay shows.
#[derive(Debug)]
pub struct VisualTree {
    pub visual: BlurVisual,
    pub root: RootVisual,
    /// From the lowest to the highest.
    pub layers: Vec<PaintedLayer>,
}

/// What takes a new size when an overlay is resized.
#[derive(Clone, Copy, Debug, PartialEq, Eq, Structural)]
pub enum Resized {
    /// What holds the layers.
    Root,
    /// The rounded shape that they are cut to.
    Clip,
    Layer(Layer),
}

/// A new size.
#[derive(Clone, Copy, Debug, PartialEq, Eq, Structural)]
pub struct Resize {
    pub part: Resized,
    pub width: i32,
    pub height: i32,
}

/// An overlay with its layers.
#[derive(Clone, Copy, Debug, PartialEq, Eq, Structural)]
pub struct BlurVisual {
    pub backdrop: Backdrop,
    pub knobs: BakeKnobs,
    /// How far the picture follows the window, in millionths.
    pub parallax: i64,
}

/// What a change of a number comes down to.
#[derive(Clone, Copy, Debug, PartialEq, Eq, Structural)]
pub enum KnobAction {
    Nothing,
    /// The live blur is made anew.
    RebuildBrush,
    /// The picture of the monitor is drawn anew.
    Rebake(Rect),
}

/// What keeping the picture in place comes down to.
#[derive(Clone, Copy, Debug, PartialEq, Eq, Structural)]
pub struct CropPlan {
    /// The monitor whose picture is taken up instead, if it changes.
    pub rebinds: Option<Rect>,
    /// The monitor that the part is cut from.
    pub monitor: Rect,
}

/// What is painted over the parts of an overlay that its window does not reach.
#[derive(Clone, Copy, Debug, PartialEq, Eq, Structural)]
pub struct GapFill {
    pub color: Color,
    /// The strip to the right, over the full height.
    pub right: Rect,
    /// The strip at the bottom, as wide as the window.
    pub bottom: Rect,
}

/// What the lowest layer shows in the given style.
pub open spec fn backdrop_for(style: BackdropStyle, monitor: Rect, generation: u64) -> Backdrop {
    if style == BackdropStyle::Solid {
        Backdrop::Solid
    } else if style == BackdropStyle::Wallpaper {
        Backdrop::Wallpaper { monitor, generation }
    } else {
        Backdrop::Acrylic
    }
}

/// What the lowest layer is painted with.
pub open spec fn backdrop_brush(params: BlurOverlayParams, monitor: Rect) -> Brush {
    if params.style == BackdropStyle::Solid {
        Brush::Color(params.tint)
    } else if params.style == BackdropStyle::Wallpaper {
        Brush::Picture { monitor, picture_knobs: params.knobs }
    } else {
        Brush::LiveBlur {
            blur_amount: params.knobs.blur_amount,
            saturation: params.knobs.saturation,
        }
    }
}

/// The layers from the lowest to the highest, at the given size. Those that
/// fill gaps have the color of the tint and start with no size.
pub open spec fn layers(params: BlurOverlayParams, monitor: Rect, width: i32, height: i32) -> Seq<
    PaintedLayer,
> {
    let tint = Brush::Color(params.tint);
    seq![
        PaintedLayer {
            layer: Layer::Blur,
            brush: backdrop_brush(params, monitor),
            width,
            height,
        },
        PaintedLayer { layer: Layer::Tint, brush: tint, width, height },
        PaintedLayer {
            layer: Layer::Vignette,
            brush: Brush::Vignette { strength: params.vignette },
            width,
            height,
        },
        PaintedLayer { layer: Layer::GapRight, brush: tint, width: 0, height: 0 },
        PaintedLayer { layer: Layer::GapBottom, brush: tint, width: 0, height: 0 },
    ]
}

/// Makes an overlay at `rect`, on the monitor at `monitor`, whose picture was
/// drawn at `generation`.
pub fn build_visual_tree(
    rect: &Rect,
    params: &BlurOverlayParams,
    monitor: &Rect,
    generation: u64,
) -> (result: VisualTree)
    requires
        rect.measurable(),
    ensures
        result.visual == (BlurVisual {
            backdrop: backdrop_for(params.style, *monitor, generation),
            knobs: params.knobs,
            parallax: params.parallax,
        }),
        result.root == (RootVisual {
            width: rect.spec_width() as i32,
            height: rect.spec_height() as i32,
            corner_radius: params.corner_radius,
            opacity: params.opacity,
        }),
        result.layers@ == layers(
            *params,
            *monitor,
            rect.spec_width() as i32,
            rect.spec_height() as i32,
        ),
{
    let width: i32 = rect.width();
    let height: i32 = rect.height();
    let tint = Brush::Color(params.tint);
    let (backdrop, brush) = if params.style == BackdropStyle::Solid {
        (Backdrop::Solid, tint)
    } else if params.style == BackdropStyle::Wallpaper {
        (
            Backdrop::Wallpaper { monitor: *monitor, generation },
            Brush::Picture { monitor: *monitor, picture_knobs: params.knobs },
        )
    } else {
        (
            Backdrop::Acrylic,
            Brush::LiveBlur {
                blur_amount: params.knobs.blur_amount,
                saturation: params.knobs.saturation,
            },
        )
    };
    let mut list: Vec<PaintedLayer> = Vec::new();
    list.push(PaintedLayer { layer: Layer::Blur, brush, width, height });
    list.push(PaintedLayer { layer: Layer::Tint, brush: tint, width, height });
    list.push(
        PaintedLayer {
            layer: Layer::Vignette,
            brush: Brush::Vignette { strength: params.vignette },
            width,
            height,
        },
    );
    list.push(PaintedLayer { layer: Layer::GapRight, brush: tint, width: 0, height: 0 });
    list.push(PaintedLayer { layer: Layer::GapBottom, brush: tint, width: 0, height: 0 });
    proof {
        assert(list@ =~= layers(*params, *monitor, width, height));
    }
    VisualTree {
        visual: BlurVisual { backdrop, knobs: params.knobs, parallax: params.parallax },
        root: RootVisual {
            width,
            height,
            corner_radius: params.corner_radius,
            opacity: params.opacity,
        },
        layers: list,
    }
}

/// What takes the given size when an overlay is resized: all but the layers
/// that fill gaps.
pub open spec fn resizes(width: i32, height: i32) -> Seq<Resize> {
    seq![
        Resize { part: Resized::Root, width, height },
        Resize { part: Resized::Layer(Layer::Blur), width, height },
        Resize { part: Resized::Layer(Layer::Tint), width, height },
        Resize { part: Resized::Layer(Layer::Vignette), width, height },
        Resize { part: Resized::Clip, width, height },
    ]
}

impl BlurVisual {
    /// Resizes the overlay to `rect` and keeps its picture showing what is
    /// under it. `current` is the generation of the desktop, `monitor_there`
    /// the monitor at `rect`.
    pub fn set_rect(&mut self, rect: &Rect, current: u64, monitor_there: &Rect) -> (result: (
        Vec<Resize>,
        Option<CropPlan>,
    ))
        requires
            rect.measurable(),
        ensures
            result.0@ == resizes(rect.spec_width() as i32, rect.spec_height() as i32),
            result.1 == old(self).crop_plan(*rect, current, *monitor_there),
            *final(self) == old(self).cropped(*rect, current, *monitor_there),
    {
        let width: i32 = rect.width();
        let height: i32 = rect.height();
        let mut list: Vec<Resize> = Vec::new();
        list.push(Resize { part: Resized::Root, width, height });
        list.push(Resize { part: Resized::Layer(Layer::Blur), width, height });
        list.push(Resize { part: Resized::Layer(Layer::Tint), width, height });
        list.push(Resize { part: Resized::Layer(Layer::Vignette), width, height });
        list.push(Resize { part: Resized::Clip, width, height });
        proof {
            assert(list@ =~= resizes(width, height));
        }
        let crop = self.sync_crop(rect, current, monitor_there);
        (list, crop)
    }

    /// Whether the picture has to be taken up anew for an overlay at `rect`:
    /// the desktop has changed, or the overlay has come to another monitor.
    pub open spec fn is_stale(self, rect: Rect, current: u64) -> bool {
        match self.backdrop {
            Backdrop::Wallpaper { monitor, generation } => {
                generation != current || !monitor.spec_contains_point(rect.spec_center())
            },
            _ => false,
        }
    }

    /// What keeping the picture in place at `rect` comes down to.
    pub open spec fn crop_plan(self, rect: Rect, current: u64, monitor_there: Rect) -> Option<
        CropPlan,
    > {
        match self.backdrop {
            Backdrop::Wallpaper { monitor, .. } => Some(
                if self.is_stale(rect, current) {
                    CropPlan { rebinds: Some(monitor_there), monitor: monitor_there }
                } else {
                    CropPlan { rebinds: None, monitor }
                },
            ),
            _ => None,
        }
    }

    /// The overlay once its picture has been kept in place at `rect`.
    pub open spec fn cropped(self, rect: Rect, current: u64, monitor_there: Rect) -> BlurVisual {
        if self.is_stale(rect, current) {
            BlurVisual {
                backdrop: Backdrop::Wallpaper { monitor: monitor_there, generation: current },
                ..self
            }
        } else {
            self
        }
    }

    /// Keeps the picture showing what is under `rect`. `current` is the
    /// generation of the desktop, `monitor_there` the monitor at `rect`.
    pub fn sync_crop(&mut self, rect: &Rect, current: u64, monitor_there: &Rect) -> (result: Option<
        CropPlan,
    >)
        requires
            rect.measurable(),
        ensures
            result == old(self).crop_plan(*rect, current, *monitor_there),
            *final(self) == old(self).cropped(*rect, current, *monitor_there),
    {
        match self.backdrop {
            Backdrop::Wallpaper { monitor, generation } => {
                if generation != current || !monitor.contains_point(&rect.center_point()) {
                    self.backdrop = Backdrop::Wallpaper {
                        monitor: *monitor_there,
                        generation: current,
                    };
                    Some(CropPlan { rebinds: Some(*monitor_there), monitor: *monitor_there })
                } else {
                    Some(CropPlan { rebinds: None, monitor })
                }
            },
            _ => None,
        }
    }

    /// Whether the overlay has to be brought up to date with the desktop.
    pub fn needs_backdrop_sync(&self, current: u64) -> (result: bool)
        ensures
            result == (self.backdrop matches Backdrop::Wallpaper { monitor, generation }
                && generation != current),
    {
        match self.backdrop {
            Backdrop::Wallpaper { monitor: _, generation } => generation != current,
            _ => false,
        }
    }

    /// What is painted over the strips that the window does not reach.
    /// `covered` is its size, `full` that of the overlay; both start at the
    /// same corner. Nothing without a color, or where nothing is left over.
    pub fn gap_fill(color: Option<Color>, covered: (i32, i32), full: (i32, i32)) -> (result: Option<
        GapFill,
    >)
        requires
            i32::MIN <= full.0 - covered.0 <= i32::MAX,
            i32::MIN <= full.1 - covered.1 <= i32::MAX,
            covered.0 + max_int(full.0 - covered.0, 0) <= i32::MAX,
            covered.1 + max_int(full.1 - covered.1, 0) <= i32::MAX,
        ensures
            ({
                let right_w = max_int(full.0 - covered.0, 0);
                let bottom_h = max_int(full.1 - covered.1, 0);
                result == (if color is Some && (right_w > 0 || bottom_h > 0) {
                    Some(
                        GapFill {
                            color: color->0,
                            right: Rect {
                                left: covered.0,
                                top: 0,
                                right: (covered.0 + right_w) as i32,
                                bottom: full.1,
                            },
                            bottom: Rect {
                                left: 0,
                                top: covered.1,
                                right: min_int(covered.0 as int, full.0 as int) as i32,
                                bottom: (covered.1 + bottom_h) as i32,
                            },
                        },
                    )
                } else {
                    None
                })
            }),
    {
        let right_w: i32 = max_i32(full.0 - covered.0, 0);
        let bottom_h: i32 = max_i32(full.1 - covered.1, 0);
        let color: Color = match color {
            Some(c) => c,
            None => {
                return None;
            },
        };
        if right_w <= 0 && bottom_h <= 0 {
            return None;
        }
        Some(
            GapFill {
                color,
                right: Rect::from_ltrb(covered.0, 0, covered.0 + right_w, full.1),
                bottom: Rect::from_ltrb(
                    0,
                    covered.1,
                    min_i32(covered.0, full.0),
                    covered.1 + bottom_h,
                ),
            },
        )
    }

    /// The layers that take the color of a new tint, in order: the lowest one
    /// too, where the tint is all that it shows.
    pub open spec fn tinted(self, tint: Color) -> Seq<(Layer, Color)> {
        if self.backdrop is Solid {
            seq![(Layer::Tint, tint), (Layer::Blur, tint)]
        } else {
            seq![(Layer::Tint, tint)]
        }
    }

    /// The layers that take the color of a new tint.
    pub fn set_tint(&self, tint: Color) -> (result: Vec<(Layer, Color)>)
        ensures
            result@ == self.tinted(tint),
    {
        let mut result: Vec<(Layer, Color)> = Vec::new();
        result.push((Layer::Tint, tint));
        if matches!(self.backdrop, Backdrop::Solid) {
            result.push((Layer::Blur, tint));
        }
        proof {
            assert(result@ =~= self.tinted(tint));
        }
        result
    }

    /// What changing a number that the live blur knows comes down to.
    pub open spec fn knob_action(self) -> KnobAction {
        match self.backdrop {
            Backdrop::Acrylic => KnobAction::RebuildBrush,
            Backdrop::Wallpaper { monitor, .. } => KnobAction::Rebake(monitor),
            Backdrop::Solid => KnobAction::Nothing,
        }
    }

    /// What changing a number that only pictures know comes down to.
    pub open spec fn picture_action(self) -> KnobAction {
        match self.backdrop {
            Backdrop::Wallpaper { monitor, .. } => KnobAction::Rebake(monitor),
            _ => KnobAction::Nothing,
        }
    }

    fn reapply_knobs(&mut self, knobs: BakeKnobs) -> (result: KnobAction)
        ensures
            *final(self) == (BlurVisual { knobs, ..*old(self) }),
            result == old(self).knob_action(),
    {
        self.knobs = knobs;
        match self.backdrop {
            Backdrop::Acrylic => KnobAction::RebuildBrush,
            Backdrop::Wallpaper { monitor, generation: _ } => KnobAction::Rebake(monitor),
            Backdrop::Solid => KnobAction::Nothing,
        }
    }

    fn rebake_only(&mut self, knobs: BakeKnobs) -> (result: KnobAction)
        ensures
            *final(self) == (BlurVisual { knobs, ..*old(self) }),
            result == old(self).picture_action(),
    {
        self.knobs = knobs;
        match self.backdrop {
            Backdrop::Wallpaper { monitor, generation: _ } => KnobAction::Rebake(monitor),
            _ => KnobAction::Nothing,
        }
    }

    pub fn set_blur_amount(&mut self, value: i64) -> (result: KnobAction)
        ensures
            *final(self) == (BlurVisual {
                knobs: BakeKnobs { blur_amount: value, ..old(self).knobs },
                ..*old(self)
            }),
            result == old(self).knob_action(),
    {
        let mut knobs = self.knobs;
        knobs.blur_amount = value;
        self.reapply_knobs(knobs)
    }

    pub fn set_saturation(&mut self, value: i64) -> (result: KnobAction)
        ensures
            *final(self) == (BlurVisual {
                knobs: BakeKnobs { saturation: value, ..old(self).knobs },
                ..*old(self)
            }),
            result == old(self).knob_action(),
    {
        let mut knobs = self.knobs;
        knobs.saturation = value;
        self.reapply_knobs(knobs)
    }

    pub fn set_exposure(&mut self, value: i64) -> (result: KnobAction)
        ensures
            *final(self) == (BlurVisual {
                knobs: BakeKnobs { exposure: value, ..old(self).knobs },
                ..*old(self)
            }),
            result == old(self).picture_action(),
    {
        let mut knobs = self.knobs;
        knobs.exposure = value;
        self.rebake_only(knobs)
    }

    pub fn set_contrast(&mut self, value: i64) -> (result: KnobAction)
        ensures
            *final(self) == (BlurVisual {
                knobs: BakeKnobs { contrast: value, ..old(self).knobs },
                ..*old(self)
            }),
            result == old(self).picture_action(),
    {
        let mut knobs = self.knobs;
        knobs.contrast = value;
        self.rebake_only(knobs)
    }

    pub fn set_highlights(&mut self, value: i64) -> (result: KnobAction)
        ensures
            *final(self) == (BlurVisual {
                knobs: BakeKnobs { highlights: value, ..old(self).knobs },
                ..*old(self)
            }),
            result == old(self).picture_action(),
    {
        let mut knobs = self.knobs;
        knobs.highlights = value;
        self.rebake_only(knobs)
    }

    pub fn set_shadows(&mut self, value: i64) -> (result: KnobAction)
        ensures
            *final(self) == (BlurVisual {
                knobs: BakeKnobs { shadows: value, ..old(self).knobs },
                ..*old(self)
            }),
            result == old(self).picture_action(),
    {
        let mut knobs = self.knobs;
        knobs.shadows = value;
        self.rebake_only(knobs)
    }

    pub fn set_grain(&mut self, value: i64) -> (result: KnobAction)
        ensures
            *final(self) == (BlurVisual {
                knobs: BakeKnobs { grain: value, ..old(self).knobs },
                ..*old(self)
            }),
            result == old(self).picture_action(),
    {
        let mut knobs = self.knobs;
        knobs.grain = value;
        self.rebake_only(knobs)
    }

    /// Sets how far the picture follows the window. Returns the monitor that
    /// its part is cut from anew, if it shows a picture.
    pub fn set_parallax(&mut self, value: i64) -> (result: Option<Rect>)
        ensures
            *final(self) == (BlurVisual { parallax: value, ..*old(self) }),
            result == (match old(self).backdrop {
                Backdrop::Wallpaper { monitor, .. } => Some(monitor),
                _ => None,
            }),
    {
        self.parallax = value;
        match self.backdrop {
            Backdrop::Wallpaper { monitor, generation: _ } => Some(monitor),
            _ => None,
        }
    }
}

/// What a border is drawn from, in thousandths of a pixel: the size of its
/// overlay, its width and its outer radius.
#[derive(Clone, Copy, Debug, PartialEq, Eq, Structural)]
pub struct Ring {
    pub size_x: i64,
    pub size_y: i64,
    pub width: i64,
    pub corner_radius: i64,
}

/// The line that a border is drawn along, in halves of thousandths of a pixel.
#[derive(Clone, Copy, Debug, PartialEq, Eq, Structural)]
pub struct RingGeometry {
    /// How far it is from the edges of the overlay.
    pub inset: i64,
    pub size_x: i64,
    pub size_y: i64,
    pub corner_radius: i64,
}

/// How wide a border is drawn.
pub open spec fn stroke_width(ring: Ring) -> int {
    max_int(ring.width as int, 0)
}

/// The length of the line along a side of the overlay that is `size` long, in
/// halves of thousandths of a pixel.
pub open spec fn line_length(size: int, ring: Ring) -> int {
    2 * max_int(size - stroke_width(ring), 0)
}

/// The radius of the line, in halves of thousandths of a pixel.
pub open spec fn line_radius(ring: Ring) -> int {
    max_int(2 * ring.corner_radius - stroke_width(ring), 0)
}

fn not_negative(v: i128) -> (result: i128)
    ensures
        result == max_int(v as int, 0),
{
    if v < 0 {
        0
    } else {
        v
    }
}

/// The line that a border is drawn along. Half of its width is drawn on either
/// side of it, so the line stays half a width inside; nothing of it becomes
/// negative.
pub fn ring_geometry(ring: &Ring) -> (result: RingGeometry)
    requires
        line_length(ring.size_x as int, *ring) <= i64::MAX,
        line_length(ring.size_y as int, *ring) <= i64::MAX,
        line_radius(*ring) <= i64::MAX,
    ensures
        result.inset == stroke_width(*ring),
        result.size_x == line_length(ring.size_x as int, *ring),
        result.size_y == line_length(ring.size_y as int, *ring),
        result.corner_radius == line_radius(*ring),
{
    let width: i128 = not_negative(ring.width as i128);
    RingGeometry {
        inset: width as i64,
        size_x: (2 * not_negative(ring.size_x as i128 - width)) as i64,
        size_y: (2 * not_negative(ring.size_y as i128 - width)) as i64,
        corner_radius: not_negative(2 * ring.corner_radius as i128 - width) as i64,
    }
}

/// Whether the drawing of layers can be used: it is tried once, and what came
/// of that is kept.
#[derive(Clone, Copy, Debug, PartialEq, Eq, Structural)]
pub struct Pipeline {
    pub available: Option<bool>,
}

impl Pipeline {
    pub fn new() -> (pipeline: Pipeline)
        ensures
            pipeline.available is None,
    {
        Pipeline { available: None }
    }

    /// Whether it has to be tried.
    pub fn needs_start(&self) -> (result: bool)
        ensures
            result == self.available is None,
    {
        self.available.is_none()
    }

    /// Notes what came of trying it, the first time. Returns whether it can be
    /// used.
    pub fn started(&mut self, works: bool) -> (result: bool)
        ensures
            result == (match old(self).available {
                Some(a) => a,
                None => works,
            }),
            final(self).available == Some(result),
    {
        match self.available {
            Some(a) => a,
            None => {
                self.available = Some(works);
                works
            },
        }
    }
}

/// The window and the two strips cover the overlay, and no point is covered by
/// two of them.
pub proof fn gaps_complete_the_overlay(covered: (i32, i32), full: (i32, i32), x: int, y: int)
    requires
        0 <= covered.0,
        0 <= covered.1,
        0 <= x < full.0,
        0 <= y < full.1,
    ensures
        ({
            let right_w = max_int(full.0 - covered.0, 0);
            let bottom_h = max_int(full.1 - covered.1, 0);
            let in_window = x < covered.0 && y < covered.1;
            let in_right = covered.0 <= x < covered.0 + right_w && 0 <= y < full.1;
            let in_bottom = 0 <= x < min_int(covered.0 as int, full.0 as int) && covered.1 <= y
                < covered.1 + bottom_h;
            &&& in_window || in_right || in_bottom
            &&& !(in_window && in_right)
            &&& !(in_window && in_bottom)
            &&& !(in_right && in_bottom)
        }),
{
}

/// A border that is not wider than its overlay reaches from the edge of the
/// overlay to one width inside.
pub proof fn borders_reach_the_edge(ring: Ring, g: RingGeometry)
    requires
        0 <= ring.width <= ring.size_x,
        ring.width <= ring.size_y,
        g.inset == stroke_width(ring),
        g.size_x == line_length(ring.size_x as int, ring),
        g.size_y == line_length(ring.size_y as int, ring),
    ensures
        g.inset - ring.width == 0,
        g.inset + g.size_x + ring.width == 2 * ring.size_x,
        g.inset + g.size_y + ring.width == 2 * ring.size_y,
{
}

/// After the picture was taken up anew it is not out of date.
pub proof fn taking_up_refreshes(v: BlurVisual, rect: Rect, current: u64, there: Rect)
    requires
        v.is_stale(rect, current),
        there.spec_contains_point(rect.spec_center()),
    ensures
        !v.cropped(rect, current, there).is_stale(rect, current),
{
}

/// Below the layers that fill gaps, an overlay shows the color of its tint in
/// exactly the layers that a new tint reaches.
pub proof fn tints_are_where_they_change(
    params: BlurOverlayParams,
    monitor: Rect,
    generation: u64,
    width: i32,
    height: i32,
    tint: Color,
    i: int,
)
    requires
        0 <= i < 3,
    ensures
        ({
            let visual = BlurVisual {
                backdrop: backdrop_for(params.style, monitor, generation),
                knobs: params.knobs,
                parallax: params.parallax,
            };
            let l = layers(params, monitor, width, height)[i];
            l.brush == Brush::Color(params.tint) <==> visual.tinted(tint).contains(
                (l.layer, tint),
            )
        }),
{
    let visual = BlurVisual {
        backdrop: backdrop_for(params.style, monitor, generation),
        knobs: params.knobs,
        parallax: params.parallax,
    };
    assert(visual.tinted(tint)[0] == (Layer::Tint, tint));
    if params.style == BackdropStyle::Solid {
        assert(visual.tinted(tint)[1] == (Layer::Blur, tint));
    }
}

/// What comes after the last dot of a name holds no dot, and is the whole name
/// if that holds none.
pub proof fn names_end_after_their_last_dot(name: Seq<char>, start: int)
    requires
        0 <= start <= name.len(),
        start > 0 ==> name[start - 1] == '.',
        forall|k: int| start <= k < name.len() ==> name[k] != '.',
    ensures
        after_last_dot(name) == name.subrange(start, name.len() as int),
{
    lemma_after_dot(name, start);
}

/// What the lowest layer shows goes by the style: a color, the picture of the
/// desktop, or else what is behind, blurred.
pub proof fn styles_decide_the_backdrop(params: BlurOverlayParams, monitor: Rect, generation: u64)
    ensures
        backdrop_for(BackdropStyle::Solid, monitor, generation) == Backdrop::Solid,
        backdrop_for(BackdropStyle::Wallpaper, monitor, generation) == (Backdrop::Wallpaper {
            monitor,
            generation,
        }),
        backdrop_for(BackdropStyle::Acrylic, monitor, generation) == Backdrop::Acrylic,
        backdrop_for(BackdropStyle::Mica, monitor, generation) == Backdrop::Acrylic,
        backdrop_for(BackdropStyle::MicaAlt, monitor, generation) == Backdrop::Acrylic,
        params.style == BackdropStyle::Solid ==> backdrop_brush(params, monitor) == Brush::Color(
            params.tint,
        ),
        params.style == BackdropStyle::Wallpaper ==> backdrop_brush(params, monitor)
            == (Brush::Picture { monitor, picture_knobs: params.knobs }),
        params.style != BackdropStyle::Solid && params.style != BackdropStyle::Wallpaper
            ==> backdrop_brush(params, monitor) == (Brush::LiveBlur {
            blur_amount: params.knobs.blur_amount,
            saturation: params.knobs.saturation,
        }),
{
}

/// The layers of an overlay, from the lowest on: the backdrop, the tint, the
/// vignette, and two that fill gaps, which start with no size.
pub proof fn layers_lie_on_each_other(
    params: BlurOverlayParams,
    monitor: Rect,
    width: i32,
    height: i32,
    i: int,
)
    ensures
        ({
            let l = layers(params, monitor, width, height);
            &&& l.len() == 5
            &&& l[0].layer == Layer::Blur && l[0].brush == backdrop_brush(params, monitor)
            &&& l[1].layer == Layer::Tint && l[1].brush == Brush::Color(params.tint)
            &&& l[2].layer == Layer::Vignette && l[2].brush == (Brush::Vignette {
                strength: params.vignette,
            })
            &&& l[3].layer == Layer::GapRight && l[3].brush == Brush::Color(params.tint)
            &&& l[4].layer == Layer::GapBottom && l[4].brush == Brush::Color(params.tint)
            &&& 0 <= i < 3 ==> l[i].width == width && l[i].height == height
            &&& 3 <= i < 5 ==> l[i].width == 0 && l[i].height == 0
        }),
        ({
            let r = resizes(width, height);
            &&& r.len() == 5
            &&& r[0].part == Resized::Root
            &&& r[1].part == Resized::Layer(Layer::Blur)
            &&& r[2].part == Resized::Layer(Layer::Tint)
            &&& r[3].part == Resized::Layer(Layer::Vignette)
            &&& r[4].part == Resized::Clip
            &&& 0 <= i < 5 ==> r[i].width == width && r[i].height == height
        }),
{
}

/// A picture is taken up anew exactly if the desktop has changed, or the middle
/// of the overlay has come to another monitor. Other backdrops never are.
pub proof fn stale_pictures_are_taken_up_anew(
    v: BlurVisual,
    rect: Rect,
    current: u64,
    there: Rect,
    monitor: Rect,
    generation: u64,
)
    ensures
        !(v.backdrop is Wallpaper) ==> v.crop_plan(rect, current, there) is None && v.cropped(
            rect,
            current,
            there,
        ) == v,
        v.backdrop == (Backdrop::Wallpaper { monitor, generation }) ==> {
            let stays = generation == current && monitor.spec_contains_point(rect.spec_center());
            &&& v.crop_plan(rect, current, there) == Some(
                if stays {
                    CropPlan { rebinds: None, monitor }
                } else {
                    CropPlan { rebinds: Some(there), monitor: there }
                },
            )
            &&& v.cropped(rect, current, there).backdrop == (if stays {
                v.backdrop
            } else {
                Backdrop::Wallpaper { monitor: there, generation: current }
            })
        },
{
}

/// What a change comes down to goes by the backdrop: a live blur is built again,
/// a picture drawn again, and a color takes on the tint.
pub proof fn changes_go_by_the_backdrop(v: BlurVisual, tint: Color, monitor: Rect, generation: u64)
    ensures
        v.backdrop == Backdrop::Acrylic ==> v.knob_action() == KnobAction::RebuildBrush
            && v.picture_action() == KnobAction::Nothing && v.tinted(tint) == seq![
            (Layer::Tint, tint),
        ],
        v.backdrop == (Backdrop::Wallpaper { monitor, generation }) ==> v.knob_action()
            == KnobAction::Rebake(monitor) && v.picture_action() == KnobAction::Rebake(monitor)
            && v.tinted(tint) == seq![(Layer::Tint, tint)],
        v.backdrop == Backdrop::Solid ==> v.knob_action() == KnobAction::Nothing
            && v.picture_action() == KnobAction::Nothing && v.tinted(tint) == seq![
            (Layer::Tint, tint),
            (Layer::Blur, tint),
        ],
{
}

/// The line of a border is as long as the side less the width of the border, and
/// nothing of it is negative.
pub proof fn borders_are_drawn_within(ring: Ring, size: int)
    ensures
        ring.width >= 0 ==> stroke_width(ring) == ring.width,
        ring.width < 0 ==> stroke_width(ring) == 0,
        0 <= ring.width <= size ==> line_length(size, ring) == 2 * (size - ring.width),
        ring.width >= size && ring.width >= 0 ==> line_length(size, ring) == 0,
        0 <= ring.width <= 2 * ring.corner_radius ==> line_radius(ring) == 2 * ring.corner_radius
            - ring.width,
        ring.width >= 2 * ring.corner_radius && ring.width >= 0 ==> line_radius(ring) == 0,
{
}

} // verus!
