//! Where the picture of the desktop lands on a monitor.

use vstd::prelude::*;

use crate::geometry::Rect;
use crate::wallpaper::{MonitorWallpaper, WallpaperFit};

verus! {

/// A fraction, with a denominator above zero.
#[derive(Clone, Copy, Debug, PartialEq, Eq, Structural)]
pub struct Ratio {
    pub num: i128,
    pub den: i128,
}

impl Ratio {
    pub open spec fn wf(self) -> bool {
        self.den > 0
    }

    pub open spec fn whole(n: int) -> Ratio {
        Ratio { num: n as i128, den: 1 }
    }

    /// Whether the two stand for the same number.
    pub open spec fn same(self, other: Ratio) -> bool {
        self.num * other.den == other.num * self.den
    }

    pub open spec fn le(self, other: Ratio) -> bool {
        self.num * other.den <= other.num * self.den
    }
}

/// Where a picture lands, in the pixels of the monitor.
#[derive(Clone, Copy, Debug, PartialEq, Eq, Structural)]
pub struct Placement {
    pub scale_x: Ratio,
    pub scale_y: Ratio,
    pub offset_x: Ratio,
    pub offset_y: Ratio,
    /// Whether it is repeated to cover the monitor.
    pub tiled: bool,
}

/// The area that a picture is laid out in: all monitors for one that spans
/// them, else the monitor.
pub open spec fn frame_of(fit: WallpaperFit, monitor: Rect, virtual_screen: Rect) -> Rect {
    if fit == WallpaperFit::Span {
        virtual_screen
    } else {
        monitor
    }
}

/// How much a picture of the given size is scaled to be laid out in an area
/// of the given size.
pub open spec fn scales(fit: WallpaperFit, iw: int, ih: int, fw: int, fh: int) -> (Ratio, Ratio) {
    let across = Ratio { num: fw as i128, den: iw as i128 };
    let down = Ratio { num: fh as i128, den: ih as i128 };
    match fit {
        WallpaperFit::Center => (Ratio::whole(1), Ratio::whole(1)),
        WallpaperFit::Tile => (Ratio::whole(1), Ratio::whole(1)),
        WallpaperFit::Stretch => (across, down),
        WallpaperFit::Fit => if across.le(down) {
            (across, across)
        } else {
            (down, down)
        },
        _ => if down.le(across) {
            (across, across)
        } else {
            (down, down)
        },
    }
}

/// How far a picture of length `i`, scaled by `scale`, is moved to be in the
/// middle of a frame of length `f` that starts at `start`.
pub open spec fn middle_offset(start: int, f: int, i: int, scale: Ratio) -> Ratio {
    Ratio {
        num: (2 * start * scale.den + f * scale.den - i * scale.num) as i128,
        den: (2 * scale.den) as i128,
    }
}

/// Where a picture of the given size lands on a monitor.
pub open spec fn placed(
    image: (u32, u32),
    fit: WallpaperFit,
    monitor: Rect,
    virtual_screen: Rect,
) -> Placement {
    let (iw, ih) = (image.0 as int, image.1 as int);
    let one = Ratio::whole(1);
    if iw == 0 || ih == 0 {
        Placement {
            scale_x: one,
            scale_y: one,
            offset_x: Ratio::whole(0),
            offset_y: Ratio::whole(0),
            tiled: false,
        }
    } else if fit == WallpaperFit::Tile {
        Placement {
            scale_x: one,
            scale_y: one,
            offset_x: Ratio::whole(-(monitor.left as int % iw)),
            offset_y: Ratio::whole(-(monitor.top as int % ih)),
            tiled: true,
        }
    } else {
        let frame = frame_of(fit, monitor, virtual_screen);
        let (fw, fh) = (frame.spec_width(), frame.spec_height());
        let (sx, sy) = scales(fit, iw, ih, fw, fh);
        Placement {
            scale_x: sx,
            scale_y: sy,
            offset_x: middle_offset(frame.left - monitor.left, fw, iw, sx),
            offset_y: middle_offset(frame.top - monitor.top, fh, ih, sy),
            tiled: false,
        }
    }
}

/// The remainder of `a` by `b`, which is never negative.
fn rem_euclid(a: i32, b: u32) -> (result: i128)
    requires
        b > 0,
    ensures
        result == a as int % b as int,
        0 <= result < b,
{
    let wide: i64 = a as i64;
    let by: i64 = b as i64;
    if wide >= 0 {
        (wide % by) as i128
    } else {
        let up: i64 = -wide;
        let r: i64 = up % by;
        proof {
            let q = up as int / by as int;
            vstd::arithmetic::div_mod::lemma_fundamental_div_mod(up as int, by as int);
            if r == 0 {
                assert(wide as int == (-q) * by + 0) by (nonlinear_arith)
                    requires
                        up == by * q + r,
                        wide == -up,
                        r == 0,
                ;
                vstd::arithmetic::div_mod::lemma_fundamental_div_mod_converse(
                    wide as int,
                    by as int,
                    -q,
                    0,
                );
            } else {
                assert(wide as int == (-q - 1) * by + (by - r)) by (nonlinear_arith)
                    requires
                        up == by * q + r,
                        wide == -up,
                ;
                vstd::arithmetic::div_mod::lemma_fundamental_div_mod_converse(
                    wide as int,
                    by as int,
                    -q - 1,
                    by - r,
                );
            }
        }
        if r == 0 {
            0
        } else {
            (by - r) as i128
        }
    }
}

fn ratio(num: i32, den: u32) -> (result: Ratio)
    requires
        den > 0,
    ensures
        result == (Ratio { num: num as i128, den: den as i128 }),
{
    Ratio { num: num as i128, den: den as i128 }
}

/// Whether a ratio is of a side of a monitor to a side of a picture.
pub open spec fn is_small(r: Ratio) -> bool {
    &&& 0 < r.den <= 0xffff_ffff
    &&& -0x8000_0000 <= r.num <= 0x7fff_ffff
}

fn at_most(a: Ratio, b: Ratio) -> (result: bool)
    requires
        is_small(a),
        is_small(b),
    ensures
        result == a.le(b),
{
    proof {
        let (an, ad, bn, bd) = (a.num as int, a.den as int, b.num as int, b.den as int);
        assert(-0x8000_0000_0000_0000 <= an * bd <= 0x8000_0000_0000_0000) by (nonlinear_arith)
            requires
                -0x8000_0000 <= an <= 0x7fff_ffff,
                0 < bd <= 0xffff_ffff,
        ;
        assert(-0x8000_0000_0000_0000 <= bn * ad <= 0x8000_0000_0000_0000) by (nonlinear_arith)
            requires
                -0x8000_0000 <= bn <= 0x7fff_ffff,
                0 < ad <= 0xffff_ffff,
        ;
    }
    a.num * b.den <= b.num * a.den
}

fn offset_in(start: i64, length: i32, image: u32, scale: Ratio) -> (result: Ratio)
    requires
        is_small(scale),
        -0x1_0000_0000 <= start <= 0x1_0000_0000,
    ensures
        result == middle_offset(start as int, length as int, image as int, scale),
{
    proof {
        let (n, d) = (scale.num as int, scale.den as int);
        assert(-0x1_0000_0000 * 0x1_0000_0000 <= start * d <= 0x1_0000_0000 * 0x1_0000_0000)
            by (nonlinear_arith)
            requires
                -0x1_0000_0000 <= start <= 0x1_0000_0000,
                0 < d <= 0xffff_ffff,
        ;
        assert(2 * start * d == 2 * (start * d)) by (nonlinear_arith);
        assert(-0x1_0000_0000 * 0x1_0000_0000 <= length * d <= 0x1_0000_0000 * 0x1_0000_0000)
            by (nonlinear_arith)
            requires
                -0x8000_0000 <= length <= 0x7fff_ffff,
                0 < d <= 0xffff_ffff,
        ;
        assert(-0x1_0000_0000 * 0x1_0000_0000 <= image * n <= 0x1_0000_0000 * 0x1_0000_0000)
            by (nonlinear_arith)
            requires
                -0x8000_0000 <= n <= 0x7fff_ffff,
                0 <= image <= 0xffff_ffff,
        ;
    }
    Ratio {
        num: 2 * (start as i128) * scale.den + length as i128 * scale.den - image as i128
            * scale.num,
        den: 2 * scale.den,
    }
}

/// Where a picture of the given size lands on its monitor.
pub fn place(image: (u32, u32), wallpaper: &MonitorWallpaper) -> (result: Placement)
    requires
        image.0 != 0 && image.1 != 0 && wallpaper.fit != WallpaperFit::Tile ==> (if wallpaper.fit
            == WallpaperFit::Span {
            wallpaper.virtual_screen.measurable()
        } else {
            wallpaper.monitor.measurable()
        }),
    ensures
        result == placed(image, wallpaper.fit, wallpaper.monitor, wallpaper.virtual_screen),
{
    let one = Ratio { num: 1, den: 1 };
    let zero = Ratio { num: 0, den: 1 };
    if image.0 == 0 || image.1 == 0 {
        return Placement {
            scale_x: one,
            scale_y: one,
            offset_x: zero,
            offset_y: zero,
            tiled: false,
        };
    }
    let monitor = wallpaper.monitor;
    if wallpaper.fit == WallpaperFit::Tile {
        return Placement {
            scale_x: one,
            scale_y: one,
            offset_x: Ratio { num: -rem_euclid(monitor.left, image.0), den: 1 },
            offset_y: Ratio { num: -rem_euclid(monitor.top, image.1), den: 1 },
            tiled: true,
        };
    }
    let frame = if wallpaper.fit == WallpaperFit::Span {
        wallpaper.virtual_screen
    } else {
        monitor
    };
    let fw: i32 = frame.width();
    let fh: i32 = frame.height();
    let across = ratio(fw, image.0);
    let down = ratio(fh, image.1);
    let (scale_x, scale_y) = match wallpaper.fit {
        WallpaperFit::Center => (one, one),
        WallpaperFit::Stretch => (across, down),
        WallpaperFit::Fit => if at_most(across, down) {
            (across, across)
        } else {
            (down, down)
        },
        _ => if at_most(down, across) {
            (across, across)
        } else {
            (down, down)
        },
    };
    Placement {
        scale_x,
        scale_y,
        offset_x: offset_in(frame.left as i64 - monitor.left as i64, fw, image.0, scale_x),
        offset_y: offset_in(frame.top as i64 - monitor.top as i64, fh, image.1, scale_y),
        tiled: false,
    }
}

/// A picture that is scaled to be within the monitor is: neither side is longer
/// than the monitor's, and one of them is as long.
pub proof fn fit_is_within(iw: int, ih: int, fw: int, fh: int)
    requires
        0 < iw <= u32::MAX,
        0 < ih <= u32::MAX,
        i32::MIN <= fw <= i32::MAX,
        i32::MIN <= fh <= i32::MAX,
    ensures
        ({
            let (sx, sy) = scales(WallpaperFit::Fit, iw, ih, fw, fh);
            &&& sx == sy
            &&& iw * sx.num <= fw * sx.den
            &&& ih * sy.num <= fh * sy.den
            &&& iw * sx.num == fw * sx.den || ih * sy.num == fh * sy.den
        }),
{
    lemma_scaled(iw, fw);
    lemma_scaled(ih, fh);
    assert(fw * ih == ih * fw) by (nonlinear_arith);
    assert(fh * iw == iw * fh) by (nonlinear_arith);
}

/// A picture that is scaled to cover an area does: neither side is shorter than
/// the area's, and one of them is as long.
pub proof fn fill_covers(fit: WallpaperFit, iw: int, ih: int, fw: int, fh: int)
    requires
        fit == WallpaperFit::Fill || fit == WallpaperFit::Span,
        0 < iw <= u32::MAX,
        0 < ih <= u32::MAX,
        i32::MIN <= fw <= i32::MAX,
        i32::MIN <= fh <= i32::MAX,
    ensures
        ({
            let (sx, sy) = scales(fit, iw, ih, fw, fh);
            &&& sx == sy
            &&& iw * sx.num >= fw * sx.den
            &&& ih * sy.num >= fh * sy.den
            &&& iw * sx.num == fw * sx.den || ih * sy.num == fh * sy.den
        }),
{
    lemma_scaled(iw, fw);
    lemma_scaled(ih, fh);
    assert(fw * ih == ih * fw) by (nonlinear_arith);
    assert(fh * iw == iw * fh) by (nonlinear_arith);
}

proof fn lemma_scaled(i: int, f: int)
    ensures
        i * f == f * i,
{
    assert(i * f == f * i) by (nonlinear_arith);
}

/// A picture that is repeated starts at the corner of the first monitor, on
/// every monitor: the pattern has no seams.
pub proof fn tiles_line_up(image: (u32, u32), monitor: Rect, virtual_screen: Rect)
    requires
        image.0 > 0,
        image.1 > 0,
    ensures
        ({
            let p = placed(image, WallpaperFit::Tile, monitor, virtual_screen);
            &&& (monitor.left + p.offset_x.num) % (image.0 as int) == 0
            &&& (monitor.top + p.offset_y.num) % (image.1 as int) == 0
            &&& p.offset_x.den == 1 && p.offset_y.den == 1
            &&& p.offset_x.num <= 0 && p.offset_y.num <= 0
        }),
{
    lemma_aligned(monitor.left as int, image.0 as int);
    lemma_aligned(monitor.top as int, image.1 as int);
}

proof fn lemma_aligned(a: int, b: int)
    requires
        b > 0,
    ensures
        (a - a % b) % b == 0,
        0 <= a % b < b,
{
    vstd::arithmetic::div_mod::lemma_fundamental_div_mod(a, b);
    let q = a / b;
    assert(a - a % b == q * b) by (nonlinear_arith)
        requires
            a == b * q + a % b,
    ;
    vstd::arithmetic::div_mod::lemma_mod_multiples_basic(q, b);
    assert(0 <= a % b < b) by {
        vstd::arithmetic::div_mod::lemma_mod_bound(a, b);
    }
}

/// A picture that spans all monitors is scaled the same on each of them, and
/// shifted by their distance: the parts line up across the edges.
pub proof fn spans_line_up(image: (u32, u32), a: Rect, b: Rect, virtual_screen: Rect)
    requires
        image.0 > 0,
        image.1 > 0,
        virtual_screen.measurable(),
    ensures
        ({
            let p = placed(image, WallpaperFit::Span, a, virtual_screen);
            let q = placed(image, WallpaperFit::Span, b, virtual_screen);
            &&& p.scale_x == q.scale_x && p.scale_y == q.scale_y
            &&& p.offset_x.den == q.offset_x.den
            &&& p.offset_x.num - q.offset_x.num == (b.left - a.left) * p.offset_x.den
            &&& p.offset_y.den == q.offset_y.den
            &&& p.offset_y.num - q.offset_y.num == (b.top - a.top) * p.offset_y.den
        }),
{
    let (iw, ih) = (image.0 as int, image.1 as int);
    let v = virtual_screen;
    let (fw, fh) = (v.spec_width(), v.spec_height());
    let (sx, sy) = scales(WallpaperFit::Span, iw, ih, fw, fh);
    lemma_offset_fits(v.left - a.left, fw, iw, sx);
    lemma_offset_fits(v.left - b.left, fw, iw, sx);
    lemma_offset_fits(v.top - a.top, fh, ih, sy);
    lemma_offset_fits(v.top - b.top, fh, ih, sy);
    let d = sx.den as int;
    let (s, t) = (v.left - a.left, v.left - b.left);
    assert(2 * s * d - 2 * t * d == (s - t) * (2 * d)) by (nonlinear_arith);
    let e = sy.den as int;
    let (y, z) = (v.top - a.top, v.top - b.top);
    assert(2 * y * e - 2 * z * e == (y - z) * (2 * e)) by (nonlinear_arith);
}

proof fn lemma_offset_fits(start: int, f: int, i: int, scale: Ratio)
    requires
        is_small(scale),
        -0x1_0000_0000 <= start <= 0x1_0000_0000,
        i32::MIN <= f <= i32::MAX,
        0 <= i <= u32::MAX,
    ensures
        middle_offset(start, f, i, scale).num == 2 * start * scale.den + f * scale.den - i
            * scale.num,
        middle_offset(start, f, i, scale).den == 2 * scale.den,
{
    let (n, d) = (scale.num as int, scale.den as int);
    assert(-0x1_0000_0000 * 0x1_0000_0000 <= start * d <= 0x1_0000_0000 * 0x1_0000_0000)
        by (nonlinear_arith)
        requires
            -0x1_0000_0000 <= start <= 0x1_0000_0000,
            0 < d <= 0xffff_ffff,
    ;
    assert(2 * start * d == 2 * (start * d)) by (nonlinear_arith);
    assert(-0x1_0000_0000 * 0x1_0000_0000 <= f * d <= 0x1_0000_0000 * 0x1_0000_0000)
        by (nonlinear_arith)
        requires
            -0x8000_0000 <= f <= 0x7fff_ffff,
            0 < d <= 0xffff_ffff,
    ;
    assert(-0x1_0000_0000 * 0x1_0000_0000 <= i * n <= 0x1_0000_0000 * 0x1_0000_0000)
        by (nonlinear_arith)
        requires
            -0x8000_0000 <= n <= 0x7fff_ffff,
            0 <= i <= 0xffff_ffff,
    ;
}

/// A picture that is centered keeps its size and is in the middle of its
/// monitor: as far from the left as from the right, and from the top as from
/// the bottom.
pub proof fn centered_pictures_keep_their_size(image: (u32, u32), monitor: Rect, screen: Rect)
    requires
        image.0 > 0,
        image.1 > 0,
        monitor.measurable(),
    ensures
        ({
            let p = placed(image, WallpaperFit::Center, monitor, screen);
            &&& p.scale_x.num == p.scale_x.den && p.scale_x.den > 0
            &&& p.scale_y.num == p.scale_y.den && p.scale_y.den > 0
            &&& p.offset_x.den > 0
            &&& p.offset_y.den > 0
            &&& 2 * p.offset_x.num == ((monitor.right - monitor.left) - image.0) * p.offset_x.den
            &&& 2 * p.offset_y.num == ((monitor.bottom - monitor.top) - image.1) * p.offset_y.den
            &&& !p.tiled
        }),
{
    let one = Ratio::whole(1);
    let (iw, ih) = (image.0 as int, image.1 as int);
    let (fw, fh) = (monitor.spec_width(), monitor.spec_height());
    lemma_offset_fits(0, fw, iw, one);
    lemma_offset_fits(0, fh, ih, one);
    let p = placed(image, WallpaperFit::Center, monitor, screen);
    assert(p.offset_x == middle_offset(0, fw, iw, one));
    assert(p.offset_y == middle_offset(0, fh, ih, one));
    assert(p.offset_x.num == fw - iw && p.offset_x.den == 2);
    assert(p.offset_y.num == fh - ih && p.offset_y.den == 2);
}

/// A picture that is stretched covers its monitor exactly.
pub proof fn stretched_pictures_fill_the_monitor(image: (u32, u32), monitor: Rect, screen: Rect)
    requires
        image.0 > 0,
        image.1 > 0,
        monitor.measurable(),
    ensures
        ({
            let p = placed(image, WallpaperFit::Stretch, monitor, screen);
            &&& p.scale_x.den > 0
            &&& p.scale_y.den > 0
            &&& image.0 * p.scale_x.num == (monitor.right - monitor.left) * p.scale_x.den
            &&& image.1 * p.scale_y.num == (monitor.bottom - monitor.top) * p.scale_y.den
            &&& p.offset_x.num == 0
            &&& p.offset_y.num == 0
            &&& !p.tiled
        }),
{
    let (iw, ih) = (image.0 as int, image.1 as int);
    let (fw, fh) = (monitor.spec_width(), monitor.spec_height());
    let (sx, sy) = scales(WallpaperFit::Stretch, iw, ih, fw, fh);
    lemma_offset_fits(0, fw, iw, sx);
    lemma_offset_fits(0, fh, ih, sy);
    lemma_scaled(iw, fw);
    lemma_scaled(ih, fh);
    let p = placed(image, WallpaperFit::Stretch, monitor, screen);
    assert(p.offset_x == middle_offset(0, fw, iw, sx));
    assert(p.offset_y == middle_offset(0, fh, ih, sy));
    assert(sx.num == fw && sx.den == iw);
    assert(sy.num == fh && sy.den == ih);
    assert(2 * 0 * iw == 0 && 2 * 0 * ih == 0) by (nonlinear_arith);
    assert(p.offset_x.num == fw * iw - iw * fw);
    assert(p.offset_y.num == fh * ih - ih * fh);
    assert(image.0 * p.scale_x.num == iw * fw);
    assert(image.1 * p.scale_y.num == ih * fh);
    assert((monitor.right - monitor.left) * p.scale_x.den == fw * iw);
    assert((monitor.bottom - monitor.top) * p.scale_y.den == fh * ih);
}

/// A picture that keeps its proportions is in the middle of its monitor,
/// whether it is made to fit or to fill. Made to fit it nowhere reaches beyond
/// the monitor, made to fill it leaves nothing of it bare, and either way one of
/// its sides is as long as the monitor's.
pub proof fn proportional_pictures_are_centered(
    fit: WallpaperFit,
    image: (u32, u32),
    monitor: Rect,
    screen: Rect,
)
    requires
        fit == WallpaperFit::Fit || fit == WallpaperFit::Fill,
        image.0 > 0,
        image.1 > 0,
        monitor.measurable(),
    ensures
        ({
            let p = placed(image, fit, monitor, screen);
            let (w, h) = (monitor.right - monitor.left, monitor.bottom - monitor.top);
            &&& p.scale_x == p.scale_y
            &&& p.scale_x.den > 0
            &&& p.offset_x.den == 2 * p.scale_x.den
            &&& p.offset_y.den == 2 * p.scale_y.den
            &&& p.offset_x.num == w * p.scale_x.den - image.0 * p.scale_x.num
            &&& p.offset_y.num == h * p.scale_y.den - image.1 * p.scale_y.num
            &&& fit == WallpaperFit::Fit ==> p.offset_x.num >= 0 && p.offset_y.num >= 0
            &&& fit == WallpaperFit::Fill ==> p.offset_x.num <= 0 && p.offset_y.num <= 0
            &&& p.offset_x.num == 0 || p.offset_y.num == 0
            &&& !p.tiled
        }),
{
    let (iw, ih) = (image.0 as int, image.1 as int);
    let (fw, fh) = (monitor.spec_width(), monitor.spec_height());
    let (sx, sy) = scales(fit, iw, ih, fw, fh);
    if fit == WallpaperFit::Fit {
        fit_is_within(iw, ih, fw, fh);
    } else {
        fill_covers(fit, iw, ih, fw, fh);
    }
    lemma_offset_fits(0, fw, iw, sx);
    lemma_offset_fits(0, fh, ih, sy);
}

/// A picture that spans all monitors is in the middle of them together, leaves
/// nothing of them bare, and on a monitor shows what lies there.
pub proof fn spanning_pictures_are_shared(image: (u32, u32), monitor: Rect, screen: Rect)
    requires
        image.0 > 0,
        image.1 > 0,
        screen.measurable(),
    ensures
        ({
            let p = placed(image, WallpaperFit::Span, monitor, screen);
            let (w, h) = (screen.right - screen.left, screen.bottom - screen.top);
            &&& p.scale_x == p.scale_y
            &&& p.scale_x.den > 0
            &&& p.offset_x.den == 2 * p.scale_x.den
            &&& p.offset_y.den == 2 * p.scale_y.den
            &&& p.offset_x.num == (screen.left - monitor.left) * p.offset_x.den + (w * p.scale_x.den
                - image.0 * p.scale_x.num)
            &&& p.offset_y.num == (screen.top - monitor.top) * p.offset_y.den + (h * p.scale_y.den
                - image.1 * p.scale_y.num)
            &&& w * p.scale_x.den <= image.0 * p.scale_x.num
            &&& h * p.scale_y.den <= image.1 * p.scale_y.num
            &&& w * p.scale_x.den == image.0 * p.scale_x.num || h * p.scale_y.den == image.1
                * p.scale_y.num
            &&& !p.tiled
        }),
{
    let (iw, ih) = (image.0 as int, image.1 as int);
    let (fw, fh) = (screen.spec_width(), screen.spec_height());
    let (sx, sy) = scales(WallpaperFit::Span, iw, ih, fw, fh);
    fill_covers(WallpaperFit::Span, iw, ih, fw, fh);
    lemma_offset_fits(screen.left - monitor.left, fw, iw, sx);
    lemma_offset_fits(screen.top - monitor.top, fh, ih, sy);
    let d = sx.den as int;
    let (s, t) = (screen.left - monitor.left, screen.top - monitor.top);
    assert(2 * s * d == s * (2 * d)) by (nonlinear_arith);
    assert(2 * t * d == t * (2 * d)) by (nonlinear_arith);
}

/// A picture that is repeated keeps its size; one without pixels is neither
/// scaled nor moved nor repeated.
pub proof fn tiles_keep_their_size(fit: WallpaperFit, image: (u32, u32), monitor: Rect, screen: Rect)
    ensures
        image.0 > 0 && image.1 > 0 && fit == WallpaperFit::Tile ==> {
            let p = placed(image, fit, monitor, screen);
            &&& p.scale_x.num == 1 && p.scale_x.den == 1
            &&& p.scale_y.num == 1 && p.scale_y.den == 1
            &&& p.tiled
            &&& -p.offset_x.num < image.0
            &&& -p.offset_y.num < image.1
        },
        image.0 == 0 || image.1 == 0 ==> {
            let p = placed(image, fit, monitor, screen);
            &&& p.scale_x.num == 1 && p.scale_x.den == 1
            &&& p.scale_y.num == 1 && p.scale_y.den == 1
            &&& p.offset_x.num == 0 && p.offset_x.den == 1
            &&& p.offset_y.num == 0 && p.offset_y.den == 1
            &&& !p.tiled
        },
{
    if image.0 > 0 && image.1 > 0 {
        lemma_aligned(monitor.left as int, image.0 as int);
        lemma_aligned(monitor.top as int, image.1 as int);
    }
}

} // verus!
