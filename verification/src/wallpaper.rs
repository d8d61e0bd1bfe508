//! What the desktop shows behind all windows.

use vstd::prelude::*;

use crate::geometry::{Color, Rect};

verus! {

/// How the picture of the desktop is laid out on a monitor.
#[derive(Clone, Copy, Debug, PartialEq, Eq, Structural)]
pub enum WallpaperFit {
    /// At its own size, in the middle.
    Center,
    /// At its own size, repeated.
    Tile,
    /// Scaled to the monitor, out of proportion.
    Stretch,
    /// Scaled to be within the monitor.
    Fit,
    /// Scaled to cover the monitor.
    Fill,
    /// One picture over all monitors.
    Span,
}

impl WallpaperFit {
    /// The layout that the system's number stands for. Numbers that are not
    /// known stand for the system's own default.
    pub open spec fn of_position(position: i32) -> WallpaperFit {
        if position == 0 {
            WallpaperFit::Center
        } else if position == 1 {
            WallpaperFit::Tile
        } else if position == 2 {
            WallpaperFit::Stretch
        } else if position == 3 {
            WallpaperFit::Fit
        } else if position == 5 {
            WallpaperFit::Span
        } else {
            WallpaperFit::Fill
        }
    }
}

impl From<i32> for WallpaperFit {
    fn from(position: i32) -> (fit: WallpaperFit) {
        if position == 0 {
            WallpaperFit::Center
        } else if position == 1 {
            WallpaperFit::Tile
        } else if position == 2 {
            WallpaperFit::Stretch
        } else if position == 3 {
            WallpaperFit::Fit
        } else if position == 5 {
            WallpaperFit::Span
        } else {
            WallpaperFit::Fill
        }
    }
}

impl vstd::std_specs::convert::FromSpecImpl<i32> for WallpaperFit {
    open spec fn obeys_from_spec() -> bool {
        true
    }

    open spec fn from_spec(position: i32) -> WallpaperFit {
        WallpaperFit::of_position(position)
    }
}

/// The color that the system's number stands for: red in its lowest byte, then
/// green, then blue.
pub open spec fn color_of(number: u32) -> Color {
    Color {
        r: (number % 256) as u8,
        g: (number / 256 % 256) as u8,
        b: (number / 65536 % 256) as u8,
        a: 255,
    }
}

/// The opaque color that the system's number stands for.
pub fn from_colorref(number: u32) -> (result: Color)
    ensures
        result == color_of(number),
{
    Color {
        r: (number % 256) as u8,
        g: (number / 256 % 256) as u8,
        b: (number / 65536 % 256) as u8,
        a: 255,
    }
}

/// What the system's wallpaper service says. Each answer may fail.
#[derive(Debug)]
pub struct ServiceAnswers {
    pub position: Option<i32>,
    pub background: Option<u32>,
    /// The picture of the monitor, if it has one of its own.
    pub monitor_image: Option<String>,
    /// The picture of the desktop.
    pub desktop_image: Option<String>,
}

/// What the desktop shows: its picture, how it is laid out, and the color
/// around it.
#[derive(Debug)]
pub struct DesktopSettings {
    pub image: Option<String>,
    pub fit: WallpaperFit,
    pub background: Color,
}

/// The text of a path, if it is there.
pub open spec fn text_of(path: Option<String>) -> Option<Seq<char>> {
    match path {
        Some(p) => Some(p@),
        None => None,
    }
}

/// A path that is not empty.
pub open spec fn nonempty(path: Option<String>) -> Option<Seq<char>> {
    match path {
        Some(p) => if p@.len() == 0 {
            None
        } else {
            Some(p@)
        },
        None => None,
    }
}

/// A copy of a path, unless it is empty.
fn keep_nonempty(path: &Option<String>) -> (result: Option<String>)
    ensures
        text_of(result) == nonempty(*path),
{
    match path {
        Some(p) => {
            let empty = "".to_owned();
            proof {
                reveal_strlit("");
            }
            if *p == empty {
                proof {
                    assert(p@.len() == 0);
                }
                None
            } else {
                proof {
                    if p@.len() == 0 {
                        assert(p@ =~= empty@);
                    }
                }
                Some(p.clone())
            }
        },
        None => None,
    }
}

/// Puts together what the desktop shows. Without the service only the picture
/// of the desktop (`fallback_image`) and the system's color are known. With
/// `of_monitor` a picture of the monitor's own comes first.
pub fn desktop_settings(
    service: &Option<ServiceAnswers>,
    of_monitor: bool,
    fallback_image: &Option<String>,
    system_background: u32,
) -> (result: DesktopSettings)
    ensures
        match *service {
            Some(s) => {
                &&& text_of(result.image) == (if of_monitor && nonempty(s.monitor_image) is Some {
                    nonempty(s.monitor_image)
                } else {
                    nonempty(s.desktop_image)
                })
                &&& result.fit == (match s.position {
                    Some(p) => WallpaperFit::of_position(p),
                    None => WallpaperFit::Fill,
                })
                &&& result.background == (match s.background {
                    Some(c) => color_of(c),
                    None => color_of(system_background),
                })
            },
            None => {
                &&& text_of(result.image) == nonempty(*fallback_image)
                &&& result.fit == WallpaperFit::Fill
                &&& result.background == color_of(system_background)
            },
        },
{
    match service {
        Some(s) => {
            let fit = match s.position {
                Some(p) => WallpaperFit::from(p),
                None => WallpaperFit::Fill,
            };
            let background = match s.background {
                Some(c) => from_colorref(c),
                None => from_colorref(system_background),
            };
            let own = keep_nonempty(&s.monitor_image);
            let image = if of_monitor && own.is_some() {
                own
            } else {
                keep_nonempty(&s.desktop_image)
            };
            DesktopSettings { image, fit, background }
        },
        None => DesktopSettings {
            image: keep_nonempty(fallback_image),
            fit: WallpaperFit::Fill,
            background: from_colorref(system_background),
        },
    }
}

/// Which of the monitors that the service lists is the one at `monitor`: the
/// first that it gives the same area for.
pub fn monitor_index(areas: &Vec<Option<Rect>>, monitor: &Rect) -> (result: Option<usize>)
    ensures
        match result {
            Some(i) => {
                &&& i < areas@.len()
                &&& areas@[i as int] == Some(*monitor)
                &&& forall|k: int| 0 <= k < i ==> areas@[k] != Some(*monitor)
            },
            None => forall|k: int| 0 <= k < areas@.len() ==> areas@[k] != Some(*monitor),
        },
{
    let mut i: usize = 0;
    while i < areas.len()
        invariant
            i <= areas@.len(),
            forall|k: int| 0 <= k < i ==> areas@[k] != Some(*monitor),
        decreases areas@.len() - i,
    {
        if let Some(area) = areas[i] {
            if area == *monitor {
                return Some(i);
            }
        }
        i = i + 1;
    }
    None
}

/// How much of `buffer` comes before its first zero.
pub fn text_length(buffer: &Vec<u16>) -> (result: usize)
    ensures
        result <= buffer@.len(),
        forall|k: int| 0 <= k < result ==> buffer@[k] != 0,
        result < buffer@.len() ==> buffer@[result as int] == 0,
{
    let mut i: usize = 0;
    while i < buffer.len()
        invariant
            i <= buffer@.len(),
            forall|k: int| 0 <= k < i ==> buffer@[k] != 0,
        decreases buffer@.len() - i,
    {
        if buffer[i] == 0 {
            return i;
        }
        i = i + 1;
    }
    i
}

/// What one monitor shows: everything that decides how it is drawn.
#[derive(Debug)]
pub struct MonitorWallpaper {
    pub image: Option<String>,
    /// When the picture was written last, in milliseconds. Other pictures are
    /// often written to the same place.
    pub modified: Option<u64>,
    pub fit: WallpaperFit,
    pub background: Color,
    pub monitor: Rect,
    /// The area of all monitors.
    pub virtual_screen: Rect,
}

/// The same, as plain values.
pub struct WallpaperView {
    pub image: Option<Seq<char>>,
    pub modified: Option<u64>,
    pub fit: WallpaperFit,
    pub background: Color,
    pub monitor: Rect,
    pub virtual_screen: Rect,
}

impl View for MonitorWallpaper {
    type V = WallpaperView;

    open spec fn view(&self) -> WallpaperView {
        WallpaperView {
            image: text_of(self.image),
            modified: self.modified,
            fit: self.fit,
            background: self.background,
            monitor: self.monitor,
            virtual_screen: self.virtual_screen,
        }
    }
}

fn same_path(a: &Option<String>, b: &Option<String>) -> (result: bool)
    ensures
        result == (text_of(*a) == text_of(*b)),
{
    match (a, b) {
        (Some(a), Some(b)) => *a == *b,
        (None, None) => true,
        _ => false,
    }
}

fn copy_path(a: &Option<String>) -> (result: Option<String>)
    ensures
        text_of(result) == text_of(*a),
{
    match a {
        Some(p) => Some(p.clone()),
        None => None,
    }
}

impl MonitorWallpaper {
    /// What the monitor at `monitor` shows, with the time that its picture was
    /// written at, which only counts where there is a picture.
    pub fn query(
        settings: DesktopSettings,
        image_modified: Option<u64>,
        monitor: &Rect,
        virtual_screen: &Rect,
    ) -> (result: MonitorWallpaper)
        ensures
            result@ == (WallpaperView {
                image: text_of(settings.image),
                modified: if settings.image is Some {
                    image_modified
                } else {
                    None
                },
                fit: settings.fit,
                background: settings.background,
                monitor: *monitor,
                virtual_screen: *virtual_screen,
            }),
    {
        let modified: Option<u64> = if settings.image.is_some() {
            image_modified
        } else {
            None
        };
        MonitorWallpaper {
            image: settings.image,
            modified,
            fit: settings.fit,
            background: settings.background,
            monitor: *monitor,
            virtual_screen: *virtual_screen,
        }
    }

    /// Whether the two are drawn the same.
    pub fn same(&self, other: &MonitorWallpaper) -> (result: bool)
        ensures
            result == (self@ == other@),
    {
        same_path(&self.image, &other.image) && self.modified == other.modified && self.fit
            == other.fit && self.background == other.background && self.monitor == other.monitor
            && self.virtual_screen == other.virtual_screen
    }

    /// A copy.
    pub fn copy(&self) -> (result: MonitorWallpaper)
        ensures
            result@ == self@,
    {
        MonitorWallpaper {
            image: copy_path(&self.image),
            modified: self.modified,
            fit: self.fit,
            background: self.background,
            monitor: self.monitor,
            virtual_screen: self.virtual_screen,
        }
    }
}

/// What the desktop shows, whatever the monitor: it is compared to notice a
/// change.
#[derive(Debug)]
pub struct DesktopSignature {
    pub image: Option<String>,
    pub modified: Option<u64>,
    pub fit: WallpaperFit,
    pub background: Color,
}

/// The same, as plain values.
pub struct SignatureView {
    pub image: Option<Seq<char>>,
    pub modified: Option<u64>,
    pub fit: WallpaperFit,
    pub background: Color,
}

impl View for DesktopSignature {
    type V = SignatureView;

    open spec fn view(&self) -> SignatureView {
        SignatureView {
            image: text_of(self.image),
            modified: self.modified,
            fit: self.fit,
            background: self.background,
        }
    }
}

/// The signature of what the desktop shows.
pub fn desktop_signature(settings: DesktopSettings, image_modified: Option<u64>) -> (result:
    DesktopSignature)
    ensures
        result@ == (SignatureView {
            image: text_of(settings.image),
            modified: if settings.image is Some {
                image_modified
            } else {
                None
            },
            fit: settings.fit,
            background: settings.background,
        }),
{
    let modified: Option<u64> = if settings.image.is_some() {
        image_modified
    } else {
        None
    };
    DesktopSignature {
        image: settings.image,
        modified,
        fit: settings.fit,
        background: settings.background,
    }
}

impl DesktopSignature {
    /// Whether the two stand for the same desktop.
    pub fn same(&self, other: &DesktopSignature) -> (result: bool)
        ensures
            result == (self@ == other@),
    {
        same_path(&self.image, &other.image) && self.modified == other.modified && self.fit
            == other.fit && self.background == other.background
    }
}

/// Each number of the system stands for a layout of the picture, and unknown
/// ones for the one that covers the monitor.
pub proof fn numbers_stand_for_layouts(position: i32)
    ensures
        WallpaperFit::of_position(0) == WallpaperFit::Center,
        WallpaperFit::of_position(1) == WallpaperFit::Tile,
        WallpaperFit::of_position(2) == WallpaperFit::Stretch,
        WallpaperFit::of_position(3) == WallpaperFit::Fit,
        WallpaperFit::of_position(4) == WallpaperFit::Fill,
        WallpaperFit::of_position(5) == WallpaperFit::Span,
        position < 0 || position > 5 ==> WallpaperFit::of_position(position) == WallpaperFit::Fill,
{
}

/// A color is put together from its bytes, red lowest.
pub proof fn colors_are_put_together_from_bytes(r: u8, g: u8, b: u8, rest: u8)
    ensures
        color_of((rest * 16777216 + b * 65536 + g * 256 + r) as u32) == (Color { r, g, b, a: 255 }),
{
    let n = rest * 16777216 + b * 65536 + g * 256 + r;
    assert(n % 256 == r);
    assert(n / 256 % 256 == g);
    assert(n / 65536 % 256 == b);
}

/// An empty path is none.
pub proof fn empty_paths_are_none(path: Option<String>)
    ensures
        path is None ==> nonempty(path) is None && text_of(path) is None,
        path matches Some(p) ==> text_of(path) == Some(p@) && (p@.len() > 0 ==> nonempty(path)
            == Some(p@)) && (p@.len() == 0 ==> nonempty(path) is None),
{
}

} // verus!
