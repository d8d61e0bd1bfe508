//! Screen coordinates.

use vstd::prelude::*;

verus! {

/// A position on the virtual desktop, in pixels.
#[derive(Clone, Copy, Debug, PartialEq, Eq, Structural)]
pub struct Point {
    pub x: i32,
    pub y: i32,
}

/// A color with straight alpha.
#[derive(Clone, Copy, Debug, PartialEq, Eq, Structural)]
pub struct Color {
    pub r: u8,
    pub g: u8,
    pub b: u8,
    pub a: u8,
}

/// One of the four ways a command can point.
#[derive(Clone, Copy, Debug, PartialEq, Eq, Structural)]
pub enum Direction {
    Left,
    Right,
    Up,
    Down,
}

/// A rectangle on the virtual desktop. `right` and `bottom` are exclusive.
#[derive(Clone, Copy, Debug, PartialEq, Eq, Structural)]
pub struct Rect {
    pub left: i32,
    pub top: i32,
    pub right: i32,
    pub bottom: i32,
}

/// The integer `v`, held to the closed range from `lo` to `hi`.
pub open spec fn clamped(v: int, lo: int, hi: int) -> int {
    if v < lo {
        lo
    } else if v > hi {
        hi
    } else {
        v
    }
}

pub open spec fn min_int(a: int, b: int) -> int {
    if a <= b {
        a
    } else {
        b
    }
}

pub open spec fn max_int(a: int, b: int) -> int {
    if a >= b {
        a
    } else {
        b
    }
}

/// Integer division that rounds toward zero.
pub open spec fn div_toward_zero(a: int, b: int) -> int
    recommends
        b > 0,
{
    if a >= 0 {
        a / b
    } else {
        -((-a) / b)
    }
}

/// `v / 2`, rounded toward zero.
pub fn half(v: i32) -> (result: i32)
    ensures
        result == div_toward_zero(v as int, 2),
{
    if v >= 0 {
        v / 2
    } else if v == i32::MIN {
        -1073741824
    } else {
        -((-v) / 2)
    }
}

/// `a / b`, rounded toward zero.
pub fn quotient(a: i32, b: i32) -> (result: i32)
    requires
        b > 1,
    ensures
        result == div_toward_zero(a as int, b as int),
{
    let wide: i64 = a as i64;
    let by: i64 = b as i64;
    if a >= 0 {
        proof {
            lemma_quotient(a as int, b as int);
        }
        (wide / by) as i32
    } else {
        proof {
            lemma_quotient(-a, b as int);
        }
        (-((-wide) / by)) as i32
    }
}

proof fn lemma_quotient(a: int, b: int)
    by (nonlinear_arith)
    requires
        a >= 0,
        b > 1,
    ensures
        0 <= a / b <= a,
        a > 0 ==> a / b < a,
{
}

pub fn min_i32(a: i32, b: i32) -> (result: i32)
    ensures
        result == min_int(a as int, b as int),
{
    if a <= b {
        a
    } else {
        b
    }
}

pub fn max_i32(a: i32, b: i32) -> (result: i32)
    ensures
        result == max_int(a as int, b as int),
{
    if a >= b {
        a
    } else {
        b
    }
}

impl Rect {
    pub open spec fn spec_width(self) -> int {
        self.right - self.left
    }

    pub open spec fn spec_height(self) -> int {
        self.bottom - self.top
    }

    /// Whether the extents of the rectangle can be measured in an `i32`.
    pub open spec fn measurable(self) -> bool {
        &&& i32::MIN <= self.spec_width() <= i32::MAX
        &&& i32::MIN <= self.spec_height() <= i32::MAX
    }

    /// Whether nothing of the rectangle would ever be drawn.
    pub open spec fn spec_is_empty(self) -> bool {
        self.right <= self.left || self.bottom <= self.top
    }

    /// Whether the pixel at (`x`, `y`) is one of the rectangle's.
    pub open spec fn covers(self, x: int, y: int) -> bool {
        self.left <= x < self.right && self.top <= y < self.bottom
    }

    pub open spec fn spec_from_xy(x: int, y: int, width: int, height: int) -> Rect {
        Rect { left: x as i32, top: y as i32, right: (x + width) as i32, bottom: (y + height) as i32 }
    }

    pub fn from_ltrb(left: i32, top: i32, right: i32, bottom: i32) -> (rect: Rect)
        ensures
            rect == (Rect { left, top, right, bottom }),
    {
        Rect { left, top, right, bottom }
    }

    pub fn from_xy(x: i32, y: i32, width: i32, height: i32) -> (rect: Rect)
        requires
            i32::MIN <= x + width <= i32::MAX,
            i32::MIN <= y + height <= i32::MAX,
        ensures
            rect.left == x,
            rect.top == y,
            rect.right == x + width,
            rect.bottom == y + height,
    {
        Rect { left: x, top: y, right: x + width, bottom: y + height }
    }

    pub fn x(&self) -> (result: i32)
        ensures
            result == self.left,
    {
        self.left
    }

    pub fn y(&self) -> (result: i32)
        ensures
            result == self.top,
    {
        self.top
    }

    pub fn width(&self) -> (result: i32)
        requires
            self.measurable(),
        ensures
            result == self.spec_width(),
    {
        self.right - self.left
    }

    pub fn height(&self) -> (result: i32)
        requires
            self.measurable(),
        ensures
            result == self.spec_height(),
    {
        self.bottom - self.top
    }

    /// Whether the rectangle covers no pixel.
    pub fn is_empty(&self) -> (result: bool)
        ensures
            result == self.spec_is_empty(),
    {
        self.right <= self.left || self.bottom <= self.top
    }

    pub open spec fn spec_center(self) -> Point {
        Point {
            x: (self.left + div_toward_zero(self.spec_width(), 2)) as i32,
            y: (self.top + div_toward_zero(self.spec_height(), 2)) as i32,
        }
    }

    /// The middle of the rectangle, rounded toward its top-left corner.
    pub fn center_point(&self) -> (result: Point)
        requires
            self.measurable(),
        ensures
            result == self.spec_center(),
            result.x == self.left + div_toward_zero(self.spec_width(), 2),
            result.y == self.top + div_toward_zero(self.spec_height(), 2),
    {
        let w: i32 = self.right - self.left;
        let h: i32 = self.bottom - self.top;
        Point { x: self.left + half(w), y: self.top + half(h) }
    }

    pub open spec fn spec_contains_point(self, point: Point) -> bool {
        self.left <= point.x <= self.right && self.top <= point.y <= self.bottom
    }

    /// Whether `point` lies within the rectangle, its edges included.
    pub fn contains_point(&self, point: &Point) -> (result: bool)
        ensures
            result == self.spec_contains_point(*point),
    {
        self.left <= point.x && point.x <= self.right && self.top <= point.y && point.y
            <= self.bottom
    }

    pub open spec fn spec_contains_rect(self, other: Rect) -> bool {
        &&& self.left <= other.left
        &&& self.top <= other.top
        &&& other.right <= self.right
        &&& other.bottom <= self.bottom
    }

    /// Whether `other` lies within the rectangle on every side.
    pub fn contains_rect(&self, other: &Rect) -> (result: bool)
        ensures
            result == self.spec_contains_rect(*other),
    {
        self.left <= other.left && self.top <= other.top && other.right <= self.right
            && other.bottom <= self.bottom
    }

    /// Whether each side can be moved inward by `amount` pixels.
    pub open spec fn can_inset(self, amount: int) -> bool {
        &&& i32::MIN <= self.left + amount <= i32::MAX
        &&& i32::MIN <= self.top + amount <= i32::MAX
        &&& i32::MIN <= self.right - amount <= i32::MAX
        &&& i32::MIN <= self.bottom - amount <= i32::MAX
    }

    pub open spec fn spec_inset(self, amount: int) -> Rect {
        Rect {
            left: (self.left + amount) as i32,
            top: (self.top + amount) as i32,
            right: (self.right - amount) as i32,
            bottom: (self.bottom - amount) as i32,
        }
    }

    /// Moves each side inward by `amount` pixels.
    pub fn inset(&self, amount: i32) -> (result: Rect)
        requires
            self.can_inset(amount as int),
        ensures
            result == self.spec_inset(amount as int),
    {
        Rect {
            left: self.left + amount,
            top: self.top + amount,
            right: self.right - amount,
            bottom: self.bottom - amount,
        }
    }

    pub open spec fn spec_intersect(self, other: Rect) -> Rect {
        Rect {
            left: max_int(self.left as int, other.left as int) as i32,
            top: max_int(self.top as int, other.top as int) as i32,
            right: min_int(self.right as int, other.right as int) as i32,
            bottom: min_int(self.bottom as int, other.bottom as int) as i32,
        }
    }

    /// The part shared with `other`: empty where there is none.
    pub fn intersect(&self, other: &Rect) -> (result: Rect)
        ensures
            result == self.spec_intersect(*other),
            forall|x: int, y: int| #[trigger]
                result.covers(x, y) <==> self.covers(x, y) && other.covers(x, y),
    {
        Rect {
            left: max_i32(self.left, other.left),
            top: max_i32(self.top, other.top),
            right: min_i32(self.right, other.right),
            bottom: min_i32(self.bottom, other.bottom),
        }
    }

    pub open spec fn same_size(self, other: Rect) -> bool {
        self.spec_width() == other.spec_width() && self.spec_height() == other.spec_height()
    }

    /// Whether the two rectangles differ in width or in height.
    pub fn differs_in_size(&self, other: &Rect) -> (result: bool)
        requires
            self.measurable(),
            other.measurable(),
        ensures
            result == !self.same_size(*other),
    {
        self.width() != other.width() || self.height() != other.height()
    }
}

impl Rect {
    /// Where the rectangle goes when it is put into the middle of `outer`.
    pub open spec fn spec_centered_x(self, outer: Rect) -> int {
        outer.left + div_toward_zero(outer.spec_width(), 2) - div_toward_zero(
            self.spec_width(),
            2,
        )
    }

    pub open spec fn spec_centered_y(self, outer: Rect) -> int {
        outer.top + div_toward_zero(outer.spec_height(), 2) - div_toward_zero(
            self.spec_height(),
            2,
        )
    }

    /// Whether every edge of the rectangle can be told once it is in the middle
    /// of `outer`.
    pub open spec fn can_center(self, outer: Rect) -> bool {
        &&& self.measurable()
        &&& outer.measurable()
        &&& i32::MIN <= self.spec_centered_x(outer) <= i32::MAX
        &&& i32::MIN <= self.spec_centered_y(outer) <= i32::MAX
        &&& i32::MIN <= self.spec_centered_x(outer) + self.spec_width() <= i32::MAX
        &&& i32::MIN <= self.spec_centered_y(outer) + self.spec_height() <= i32::MAX
    }

    pub open spec fn spec_translate_to_center(self, outer: Rect) -> Rect {
        Rect::spec_from_xy(
            self.spec_centered_x(outer),
            self.spec_centered_y(outer),
            self.spec_width(),
            self.spec_height(),
        )
    }

    /// The same size in the middle of `outer`.
    pub fn translate_to_center(&self, outer: &Rect) -> (result: Rect)
        requires
            self.can_center(*outer),
        ensures
            result == self.spec_translate_to_center(*outer),
            result.same_size(*self),
    {
        let width: i32 = self.width();
        let height: i32 = self.height();
        let x: i32 = (outer.left + half(outer.width())) - half(width);
        let y: i32 = (outer.top + half(outer.height())) - half(height);
        Rect::from_xy(x, y, width, height)
    }

    /// Whether every edge can be told once the size is held to `max_width` and
    /// `max_height`.
    pub open spec fn can_clamp(self, max_width: int, max_height: int) -> bool {
        &&& self.measurable()
        &&& i32::MIN <= self.left + min_int(self.spec_width(), max_width) <= i32::MAX
        &&& i32::MIN <= self.top + min_int(self.spec_height(), max_height) <= i32::MAX
    }

    pub open spec fn spec_clamp_size(self, max_width: int, max_height: int) -> Rect {
        Rect::spec_from_xy(
            self.left as int,
            self.top as int,
            min_int(self.spec_width(), max_width),
            min_int(self.spec_height(), max_height),
        )
    }

    /// The same place, with the size held to `max_width` and `max_height`.
    pub fn clamp_size(&self, max_width: i32, max_height: i32) -> (result: Rect)
        requires
            self.can_clamp(max_width as int, max_height as int),
        ensures
            result == self.spec_clamp_size(max_width as int, max_height as int),
    {
        Rect::from_xy(
            self.left,
            self.top,
            min_i32(self.width(), max_width),
            min_i32(self.height(), max_height),
        )
    }
}

/// A rectangle is empty exactly if it has no pixel: one that is not has that of
/// its top-left corner.
pub proof fn empty_rects_have_no_pixels(r: Rect, x: int, y: int)
    ensures
        r.spec_is_empty() ==> !r.covers(x, y),
        !r.spec_is_empty() ==> r.covers(r.left as int, r.top as int),
        r.covers(x, y) <==> r.left <= x && x < r.right && r.top <= y && y < r.bottom,
        r.spec_width() == r.right - r.left,
        r.spec_height() == r.bottom - r.top,
{
}

/// A rectangle lies within another exactly if all of its pixels do, as far as
/// it has any.
pub proof fn contained_rects_share_their_pixels(r: Rect, other: Rect, x: int, y: int)
    ensures
        r.spec_contains_rect(other) && other.covers(x, y) ==> r.covers(x, y),
        !other.spec_is_empty() && r.covers(other.left as int, other.top as int) && r.covers(
            other.right - 1,
            other.bottom - 1,
        ) ==> r.spec_contains_rect(other),
        r.spec_contains_rect(r),
{
}

/// The middle of a rectangle is as far from one side as from the other, up to
/// a pixel.
pub proof fn middles_are_in_the_middle(r: Rect)
    requires
        r.measurable(),
    ensures
        -1 <= (r.spec_center().x - r.left) - (r.right - r.spec_center().x) <= 1,
        -1 <= (r.spec_center().y - r.top) - (r.bottom - r.spec_center().y) <= 1,
        !r.spec_is_empty() ==> r.covers(r.spec_center().x as int, r.spec_center().y as int),
{
}

/// A point of a rectangle is one of its pixels or on its far edges.
pub proof fn edges_belong_to_a_rect(r: Rect, point: Point)
    ensures
        r.covers(point.x as int, point.y as int) ==> r.spec_contains_point(point),
        r.spec_contains_point(point) ==> r.left <= point.x && point.x <= r.right && r.top <= point.y
            && point.y <= r.bottom,
        !r.spec_is_empty() ==> r.spec_contains_point(Point { x: r.right, y: r.bottom }),
        !r.spec_is_empty() ==> r.spec_contains_point(Point { x: r.left, y: r.top }),
{
}

/// A rectangle that is moved to the middle of another keeps its size, and has
/// as much room on one side as on the other, up to a pixel.
pub proof fn centered_rects_keep_their_size(r: Rect, outer: Rect)
    requires
        r.can_center(outer),
        !r.spec_is_empty(),
        !outer.spec_is_empty(),
    ensures
        ({
            let c = r.spec_translate_to_center(outer);
            &&& c.right - c.left == r.right - r.left
            &&& c.bottom - c.top == r.bottom - r.top
            &&& -1 <= (c.left - outer.left) - (outer.right - c.right) <= 1
            &&& -1 <= (c.top - outer.top) - (outer.bottom - c.bottom) <= 1
        }),
{
}

/// A rectangle whose size is held to a limit stays where it is, is no larger
/// than the limit, and is as large as it was if that was no larger.
pub proof fn held_rects_stay_in_place(r: Rect, max_width: int, max_height: int)
    requires
        r.can_clamp(max_width, max_height),
    ensures
        ({
            let c = r.spec_clamp_size(max_width, max_height);
            &&& c.left == r.left && c.top == r.top
            &&& c.right - c.left <= max_width
            &&& c.bottom - c.top <= max_height
            &&& r.right - r.left <= max_width ==> c.right == r.right
            &&& r.bottom - r.top <= max_height ==> c.bottom == r.bottom
            &&& r.right - r.left > max_width ==> c.right - c.left == max_width
            &&& r.bottom - r.top > max_height ==> c.bottom - c.top == max_height
        }),
{
}

/// Moving the sides in and out again leaves a rectangle as it was; moved in, it
/// loses the pixels at its edges.
pub proof fn insets_undo_outsets(r: Rect, amount: int, x: int, y: int)
    requires
        r.can_inset(amount),
        amount >= 0,
    ensures
        r.spec_inset(amount).covers(x, y) <==> r.left + amount <= x && x < r.right - amount && r.top
            + amount <= y && y < r.bottom - amount,
        r.spec_inset(amount).spec_inset(-amount) == r,
{
}

/// What two rectangles share are the pixels of both.
pub proof fn shared_pixels_are_in_both(r: Rect, other: Rect, x: int, y: int)
    ensures
        r.spec_intersect(other).covers(x, y) <==> r.covers(x, y) && other.covers(x, y),
        r.same_size(other) <==> r.right - r.left == other.right - other.left && r.bottom - r.top
            == other.bottom - other.top,
{
}

/// A number that is held to a range is in it, and stays as it is if it was.
pub proof fn held_numbers_are_in_range(v: int, lo: int, hi: int)
    requires
        lo <= hi,
    ensures
        lo <= clamped(v, lo, hi) <= hi,
        lo <= v <= hi ==> clamped(v, lo, hi) == v,
        v < lo ==> clamped(v, lo, hi) == lo,
        v > hi ==> clamped(v, lo, hi) == hi,
        min_int(v, lo) <= v && min_int(v, lo) <= lo && (min_int(v, lo) == v || min_int(v, lo) == lo),
        max_int(v, lo) >= v && max_int(v, lo) >= lo && (max_int(v, lo) == v || max_int(v, lo) == lo),
{
}

/// A quotient that is rounded toward zero is off by less than one, and never
/// too far from zero.
pub proof fn quotients_are_rounded_toward_zero(a: int, b: int)
    requires
        b > 0,
    ensures
        a >= 0 ==> b * div_toward_zero(a, b) <= a < b * div_toward_zero(a, b) + b,
        a <= 0 ==> b * div_toward_zero(a, b) - b < a <= b * div_toward_zero(a, b),
        div_toward_zero(-a, b) == -div_toward_zero(a, b),
{
    if a >= 0 {
        vstd::arithmetic::div_mod::lemma_fundamental_div_mod(a, b);
        vstd::arithmetic::div_mod::lemma_mod_bound(a, b);
    }
    if a <= 0 {
        vstd::arithmetic::div_mod::lemma_fundamental_div_mod(-a, b);
        vstd::arithmetic::div_mod::lemma_mod_bound(-a, b);
        let q = (-a) / b;
        assert(b * (-q) == -(b * q)) by (nonlinear_arith);
    }
    if a == 0 {
        vstd::arithmetic::div_mod::lemma_div_basics_1(b);
    }
}

} // verus!
