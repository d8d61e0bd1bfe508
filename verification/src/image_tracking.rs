//! Following pictures as the content of their window scrolls.
//!
//! Colors are given by the levels of their channels in millionths.

use vstd::prelude::*;

use crate::geometry::{clamped, div_toward_zero, half, Rect};

verus! {

/// The most samples along one side of a picture.
pub const FINGERPRINT_SIDE: i32 = 12;

/// The most samples of a picture.
pub const MAX_SAMPLES: usize = 144;

/// The mean difference, in millionths, up to which a picture counts as found.
pub const MATCH_MAX_DIFFERENCE: u64 = 30_000;

/// The mean difference, in millionths, up to which a picture counts as not
/// having moved.
pub const UNCHANGED_MAX_DIFFERENCE: u64 = 5_000;

/// A color.
#[derive(Clone, Copy, Debug, PartialEq, Eq, Structural)]
pub struct Levels {
    pub r: u32,
    pub g: u32,
    pub b: u32,
}

/// How far apart two levels are.
pub open spec fn distance(a: u32, b: u32) -> int {
    if a < b {
        b - a
    } else {
        a - b
    }
}

/// How far apart two colors are: as far as the channel that differs most.
pub open spec fn color_distance(a: Levels, b: Levels) -> int {
    let (r, g, b) = (distance(a.r, b.r), distance(a.g, b.g), distance(a.b, b.b));
    if r >= g && r >= b {
        r
    } else if g >= b {
        g
    } else {
        b
    }
}

fn level_distance(a: u32, b: u32) -> (result: u32)
    ensures
        result == distance(a, b),
{
    if a < b {
        b - a
    } else {
        a - b
    }
}

fn difference_of(a: Levels, b: Levels) -> (result: u32)
    ensures
        result == color_distance(a, b),
{
    let r: u32 = level_distance(a.r, b.r);
    let g: u32 = level_distance(a.g, b.g);
    let b: u32 = level_distance(a.b, b.b);
    if r >= g && r >= b {
        r
    } else if g >= b {
        g
    } else {
        b
    }
}

/// The pixels of a part of a frame, row by row; transparent ones are left out.
#[derive(Debug)]
pub struct Region {
    pub rect: Rect,
    pub pixels: Vec<Option<Levels>>,
}

impl Region {
    /// Whether the pixels can be counted.
    pub open spec fn wf(self) -> bool {
        &&& self.rect.measurable()
        &&& !self.rect.spec_is_empty() ==> self.rect.spec_width() * self.rect.spec_height()
            <= i32::MAX
    }

    /// The place of a pixel among the pixels.
    pub open spec fn index_of(self, x: int, y: int) -> int {
        (y - self.rect.top) * self.rect.spec_width() + (x - self.rect.left)
    }

    /// The color at (`x`, `y`), if it is known.
    pub open spec fn color_at(self, x: int, y: int) -> Option<Levels> {
        if self.rect.covers(x, y) && self.index_of(x, y) < self.pixels@.len() {
            self.pixels@[self.index_of(x, y)]
        } else {
            None
        }
    }

    /// The color at (`x`, `y`), if it is known.
    pub fn at(&self, x: i32, y: i32) -> (result: Option<Levels>)
        requires
            self.wf(),
        ensures
            result == self.color_at(x as int, y as int),
    {
        if x < self.rect.left || y < self.rect.top || x >= self.rect.right || y
            >= self.rect.bottom {
            return None;
        }
        let width: i32 = self.rect.width();
        let row: i32 = y - self.rect.top;
        let column: i32 = x - self.rect.left;
        proof {
            let w = self.rect.spec_width();
            let h = self.rect.spec_height();
            assert(0 <= row * w && row * w + column < w * h) by (nonlinear_arith)
                requires
                    0 <= row <= h - 1,
                    0 <= column < w,
            ;
        }
        let index: i32 = row * width + column;
        if (index as usize) < self.pixels.len() {
            self.pixels[index as usize]
        } else {
            None
        }
    }
}

/// A pixel of a picture: its place, seen from the corner of the picture, and
/// its color.
#[derive(Clone, Copy, Debug, PartialEq, Eq, Structural)]
pub struct Sample {
    pub x: i32,
    pub y: i32,
    pub color: Levels,
}

/// How many samples are taken along a side of the given length.
pub open spec fn sample_count(length: int) -> int {
    clamped(length, 1, FINGERPRINT_SIDE as int)
}

/// The middle of cell `i` of `count` along a side of the given length.
pub open spec fn cell_middle(i: int, length: int, count: int) -> int {
    div_toward_zero((2 * i + 1) * length, 2 * count)
}

/// The sample in the given row and column of the grid over a picture, if the
/// color there is known.
pub open spec fn grid_sample(picture: Rect, region: Region, row: int, column: int) -> Seq<Sample> {
    let (w, h) = (picture.spec_width(), picture.spec_height());
    let x = cell_middle(column, w, sample_count(w));
    let y = cell_middle(row, h, sample_count(h));
    match region.color_at(picture.left + x, picture.top + y) {
        Some(color) => seq![Sample { x: x as i32, y: y as i32, color }],
        None => Seq::empty(),
    }
}

/// The samples in the first columns of a row.
pub open spec fn row_samples(picture: Rect, region: Region, row: int, columns: int) -> Seq<Sample>
    decreases columns,
{
    if columns <= 0 {
        Seq::empty()
    } else {
        row_samples(picture, region, row, columns - 1) + grid_sample(
            picture,
            region,
            row,
            columns - 1,
        )
    }
}

/// The samples in the first rows of the grid, row by row.
pub open spec fn grid_samples(picture: Rect, region: Region, rows: int) -> Seq<Sample>
    decreases rows,
{
    if rows <= 0 {
        Seq::empty()
    } else {
        grid_samples(picture, region, rows - 1) + row_samples(
            picture,
            region,
            rows - 1,
            sample_count(picture.spec_width()),
        )
    }
}

/// The samples of a picture.
pub open spec fn samples_of(picture: Rect, region: Region) -> Seq<Sample> {
    grid_samples(picture, region, sample_count(picture.spec_height()))
}

/// Pixels of a picture by which it is found again.
#[derive(Debug)]
pub struct Fingerprint {
    pub samples: Vec<Sample>,
}

fn count_along(length: i32) -> (result: i32)
    ensures
        result == sample_count(length as int),
{
    if length < 1 {
        1
    } else if length > FINGERPRINT_SIDE {
        FINGERPRINT_SIDE
    } else {
        length
    }
}

fn middle_of_cell(i: i32, length: i32, count: i32) -> (result: i32)
    requires
        0 <= i < count,
        count == sample_count(length as int),
    ensures
        result == cell_middle(i as int, length as int, count as int),
        0 <= result <= length || length <= result <= 0,
{
    if length < 0 {
        proof {
            // There is one cell.
            assert(i == 0 && count == 1);
            assert((2 * i + 1) * length == length) by (nonlinear_arith)
                requires
                    i == 0,
            ;
        }
        return half(length);
    }
    proof {
        assert(0 <= (2 * i + 1) * length <= 23 * length) by (nonlinear_arith)
            requires
                0 <= i <= 11,
                0 <= length,
        ;
        assert((2 * i + 1) * length <= (2 * count) * length) by (nonlinear_arith)
            requires
                0 <= i < count,
                0 <= length,
        ;
        let n = (2 * i + 1) * length;
        let d = 2 * count;
        assert(0 <= n / d <= length) by (nonlinear_arith)
            requires
                0 <= n <= d * length,
                d > 0,
        ;
    }
    ((2 * i as i64 + 1) * length as i64 / (2 * count as i64)) as i32
}

/// A sum of differences and how many they are.
#[derive(Clone, Copy, Debug, PartialEq, Eq, Structural)]
pub struct Difference {
    pub sum: u64,
    pub count: u64,
}

impl Difference {
    /// Whether the mean is at most `limit`.
    pub open spec fn within(self, limit: u64) -> bool {
        self.sum <= limit * self.count
    }

    /// Whether the mean is less than that of `other`.
    pub open spec fn less(self, other: Difference) -> bool {
        self.sum * other.count < other.sum * self.count
    }

    pub open spec fn wf(self) -> bool {
        0 < self.count <= MAX_SAMPLES && self.sum <= self.count * 0xffff_ffff
    }

    fn is_within(self, limit: u64) -> (result: bool)
        requires
            self.wf(),
            limit <= 0xffff_ffff,
        ensures
            result == self.within(limit),
    {
        proof {
            assert(limit * self.count <= 0xffff_ffff * 144) by (nonlinear_arith)
                requires
                    0 <= limit <= 0xffff_ffff,
                    0 <= self.count <= 144,
            ;
        }
        self.sum <= limit * self.count
    }

    fn is_less(self, other: Difference) -> (result: bool)
        requires
            self.wf(),
            other.wf(),
        ensures
            result == self.less(other),
    {
        proof {
            assert(self.sum * other.count <= 144 * 0xffff_ffff * 144) by (nonlinear_arith)
                requires
                    0 <= self.sum <= 144 * 0xffff_ffff,
                    0 <= other.count <= 144,
            ;
            assert(other.sum * self.count <= 144 * 0xffff_ffff * 144) by (nonlinear_arith)
                requires
                    0 <= other.sum <= 144 * 0xffff_ffff,
                    0 <= self.count <= 144,
            ;
        }
        self.sum * other.count < other.sum * self.count
    }
}

/// Where a sample is looked for with its picture moved down by `shift`, and
/// how far the color there is from its own; nothing if it is out of view.
pub open spec fn sample_difference(
    s: Sample,
    picture: Rect,
    view: Rect,
    region: Region,
    shift: int,
) -> Option<int> {
    let (x, y) = (picture.left + s.x, picture.top + s.y + shift);
    if !view.covers(x, y) {
        None
    } else {
        match region.color_at(x, y) {
            Some(found) => Some(color_distance(found, s.color)),
            None => None,
        }
    }
}

/// The differences of the samples that are in view, summed up.
pub open spec fn sum_of(
    samples: Seq<Sample>,
    picture: Rect,
    view: Rect,
    region: Region,
    shift: int,
) -> (int, int)
    decreases samples.len(),
{
    if samples.len() == 0 {
        (0, 0)
    } else {
        let (sum, count) = sum_of(samples.drop_last(), picture, view, region, shift);
        match sample_difference(samples.last(), picture, view, region, shift) {
            Some(d) => (sum + d, count + 1),
            None => (sum, count),
        }
    }
}

/// The difference of a picture moved down by `shift`; nothing if fewer than
/// half of its samples are in view.
pub open spec fn difference_with(
    samples: Seq<Sample>,
    picture: Rect,
    view: Rect,
    region: Region,
    shift: int,
) -> Option<Difference> {
    let (sum, count) = sum_of(samples, picture, view, region, shift);
    if count * 2 >= samples.len() {
        Some(Difference { sum: sum as u64, count: count as u64 })
    } else {
        None
    }
}

/// A shift and its difference.
#[derive(Clone, Copy, Debug, PartialEq, Eq, Structural)]
pub struct Candidate {
    pub shift: i32,
    pub difference: Difference,
}

/// The better of the best so far and `shift`: the best so far, unless the
/// other differs less.
pub open spec fn better(
    best: Option<Candidate>,
    shift: int,
    difference: Option<Difference>,
) -> Option<Candidate> {
    match difference {
        None => best,
        Some(d) => match best {
            Some(b) => if d.less(b.difference) {
                Some(Candidate { shift: shift as i32, difference: d })
            } else {
                best
            },
            None => Some(Candidate { shift: shift as i32, difference: d }),
        },
    }
}

/// The best shift up to `max`, tried from the nearest on, down before up.
pub open spec fn best_shift(
    samples: Seq<Sample>,
    picture: Rect,
    view: Rect,
    region: Region,
    max: int,
) -> Option<Candidate>
    decreases max + 1,
{
    if max < 0 {
        None
    } else {
        let nearer = best_shift(samples, picture, view, region, max - 1);
        let down = better(nearer, max, difference_with(samples, picture, view, region, max));
        if max == 0 {
            down
        } else {
            better(down, -max, difference_with(samples, picture, view, region, -max))
        }
    }
}

/// The shift at which a picture is found.
pub open spec fn found_shift(
    samples: Seq<Sample>,
    picture: Rect,
    view: Rect,
    region: Region,
    max_shift: int,
) -> Option<i32> {
    if samples.len() == 0 {
        None
    } else if difference_with(samples, picture, view, region, 0) matches Some(d) && d.within(
        UNCHANGED_MAX_DIFFERENCE,
    ) {
        Some(0)
    } else {
        match best_shift(samples, picture, view, region, max_shift) {
            Some(c) => if c.difference.within(MATCH_MAX_DIFFERENCE) {
                Some(c.shift)
            } else {
                None
            },
            None => None,
        }
    }
}

proof fn lemma_sum_bounds(
    samples: Seq<Sample>,
    picture: Rect,
    view: Rect,
    region: Region,
    shift: int,
)
    ensures
        ({
            let (sum, count) = sum_of(samples, picture, view, region, shift);
            &&& 0 <= count <= samples.len()
            &&& 0 <= sum <= count * 0xffff_ffff
        }),
    decreases samples.len(),
{
    if samples.len() > 0 {
        lemma_sum_bounds(samples.drop_last(), picture, view, region, shift);
    }
}

proof fn lemma_row_len(picture: Rect, region: Region, row: int, columns: int)
    requires
        0 <= columns,
    ensures
        row_samples(picture, region, row, columns).len() <= columns,
    decreases columns,
{
    if columns > 0 {
        lemma_row_len(picture, region, row, columns - 1);
    }
}

impl Fingerprint {
    pub open spec fn wf(self) -> bool {
        self.samples@.len() <= MAX_SAMPLES
    }

    /// Samples `picture` from `region` on a grid: at the middle of each cell,
    /// so that no sample is on its edge.
    pub fn sample(picture: &Rect, region: &Region) -> (result: Fingerprint)
        requires
            picture.measurable(),
            region.wf(),
        ensures
            result.wf(),
            result.samples@ == samples_of(*picture, *region),
    {
        let width: i32 = picture.width();
        let height: i32 = picture.height();
        let columns: i32 = count_along(width);
        let rows: i32 = count_along(height);
        let mut samples: Vec<Sample> = Vec::new();
        let mut row: i32 = 0;
        while row < rows
            invariant
                picture.measurable(),
                region.wf(),
                width == picture.spec_width(),
                height == picture.spec_height(),
                columns == sample_count(width as int),
                rows == sample_count(height as int),
                0 <= row <= rows,
                samples@ == grid_samples(*picture, *region, row as int),
                samples@.len() <= 12 * row,
            decreases rows - row,
        {
            let ghost before = samples@;
            let mut column: i32 = 0;
            while column < columns
                invariant
                    picture.measurable(),
                    region.wf(),
                    width == picture.spec_width(),
                    height == picture.spec_height(),
                    columns == sample_count(width as int),
                    rows == sample_count(height as int),
                    0 <= row < rows,
                    0 <= column <= columns,
                    samples@ == before + row_samples(*picture, *region, row as int, column as int),
                decreases columns - column,
            {
                let x: i32 = middle_of_cell(column, width, columns);
                let y: i32 = middle_of_cell(row, height, rows);
                let ghost so_far = samples@;
                match region.at(picture.left + x, picture.top + y) {
                    Some(color) => {
                        samples.push(Sample { x, y, color });
                    },
                    None => {},
                }
                proof {
                    assert(samples@ =~= so_far + grid_sample(
                        *picture,
                        *region,
                        row as int,
                        column as int,
                    ));
                    assert(samples@ =~= before + row_samples(
                        *picture,
                        *region,
                        row as int,
                        column + 1,
                    ));
                }
                column = column + 1;
            }
            proof {
                lemma_row_len(*picture, *region, row as int, columns as int);
            }
            row = row + 1;
        }
        Fingerprint { samples }
    }

    /// The difference of the picture moved down by `shift`.
    fn difference_at(&self, picture: &Rect, view: &Rect, region: &Region, shift: i32) -> (result:
        Option<Difference>)
        requires
            self.wf(),
            region.wf(),
            self.samples@.len() > 0,
        ensures
            result == difference_with(self.samples@, *picture, *view, *region, shift as int),
            result matches Some(d) ==> d.wf(),
    {
        let mut sum: u64 = 0;
        let mut count: u64 = 0;
        let mut i: usize = 0;
        let ghost s = self.samples@;
        proof {
            assert(s.subrange(0, 0) =~= Seq::<Sample>::empty());
        }
        while i < self.samples.len()
            invariant
                s == self.samples@,
                i <= s.len() <= MAX_SAMPLES,
                region.wf(),
                (sum as int, count as int) == sum_of(
                    s.subrange(0, i as int),
                    *picture,
                    *view,
                    *region,
                    shift as int,
                ),
                count <= i,
                sum <= count * 0xffff_ffff,
            decreases s.len() - i,
        {
            let sample = self.samples[i];
            proof {
                let next = s.subrange(0, i + 1);
                assert(next.drop_last() =~= s.subrange(0, i as int));
                assert(next.last() == sample);
                assert(s[i as int] == sample);
            }
            let x: i64 = picture.left as i64 + sample.x as i64;
            let y: i64 = picture.top as i64 + sample.y as i64 + shift as i64;
            if x >= view.left as i64 && y >= view.top as i64 && x < view.right as i64 && y
                < view.bottom as i64 {
                match region.at(x as i32, y as i32) {
                    Some(found) => {
                        sum = sum + difference_of(found, sample.color) as u64;
                        count = count + 1;
                    },
                    None => {},
                }
            }
            i = i + 1;
        }
        proof {
            assert(s.subrange(0, i as int) =~= s);
        }
        if count * 2 >= self.samples.len() as u64 {
            Some(Difference { sum, count })
        } else {
            None
        }
    }

    /// The shift downwards, of at most `max_shift`, at which the picture that
    /// was at `picture` is found in `region`. Only what shows in `view` counts.
    /// Of equally good shifts it is the nearest.
    pub fn find_shift(&self, picture: &Rect, view: &Rect, region: &Region, max_shift: i32) -> (
        result: Option<i32>)
        requires
            self.wf(),
            region.wf(),
        ensures
            result == found_shift(self.samples@, *picture, *view, *region, max_shift as int),
            // A picture that is where it was sampled has not moved.
            picture.measurable() && !picture.spec_is_empty() && view.spec_contains_rect(*picture)
                && self.samples@.len() > 0 && self.samples@ == samples_of(*picture, *region)
                ==> result == Some(0i32),
    {
        proof {
            if picture.measurable() && !picture.spec_is_empty() && view.spec_contains_rect(
                *picture,
            ) && self.samples@.len() > 0 && self.samples@ == samples_of(*picture, *region) {
                unmoved_pictures_stay(*picture, *view, *region, max_shift as int);
            }
        }
        if self.samples.len() == 0 {
            return None;
        }
        match self.difference_at(picture, view, region, 0) {
            Some(d) => {
                if d.is_within(UNCHANGED_MAX_DIFFERENCE) {
                    return Some(0);
                }
            },
            None => {},
        }
        let ghost s = self.samples@;
        let mut best: Option<Candidate> = None;
        let last: i64 = max_shift as i64;
        let mut near: i64 = 0;
        while near <= last
            invariant
                s == self.samples@,
                s.len() > 0,
                self.wf(),
                region.wf(),
                last == max_shift,
                0 <= near,
                near <= last + 1 || last < 0,
                last < 0 ==> near == 0,
                best == best_shift(s, *picture, *view, *region, near - 1),
                best matches Some(c) ==> c.difference.wf(),
            decreases last + 1 - near,
        {
            let down: i32 = near as i32;
            best = pick(best, down, self.difference_at(picture, view, region, down));
            if near != 0 {
                best = pick(best, -down, self.difference_at(picture, view, region, -down));
            }
            near = near + 1;
        }
        proof {
            if max_shift < 0 {
                assert(best_shift(s, *picture, *view, *region, max_shift as int) is None);
            }
        }
        match best {
            Some(c) => if c.difference.is_within(MATCH_MAX_DIFFERENCE) {
                Some(c.shift)
            } else {
                None
            },
            None => None,
        }
    }
}

/// The better of the best so far and `shift`.
fn pick(best: Option<Candidate>, shift: i32, difference: Option<Difference>) -> (result: Option<
    Candidate,
>)
    requires
        best matches Some(c) ==> c.difference.wf(),
        difference matches Some(d) ==> d.wf(),
    ensures
        result == better(best, shift as int, difference),
        result matches Some(c) ==> c.difference.wf(),
{
    match difference {
        None => best,
        Some(d) => match best {
            Some(b) => if d.is_less(b.difference) {
                Some(Candidate { shift, difference: d })
            } else {
                best
            },
            None => Some(Candidate { shift, difference: d }),
        },
    }
}

proof fn lemma_less_transitive(a: Difference, b: Difference, c: Difference)
    requires
        a.wf(),
        b.wf(),
        c.wf(),
        !b.less(a),
        !c.less(b),
    ensures
        !c.less(a),
{
    assert(a.sum * b.count <= b.sum * a.count);
    assert(b.sum * c.count <= c.sum * b.count);
    let (x, p, y, q, z, r) = (
        a.sum as int,
        a.count as int,
        b.sum as int,
        b.count as int,
        c.sum as int,
        c.count as int,
    );
    assert(x * r <= z * p) by (nonlinear_arith)
        requires
            x * q <= y * p,
            y * r <= z * q,
            p > 0,
            q > 0,
            r > 0,
            x >= 0,
            y >= 0,
            z >= 0,
    {
        assert((x * q) * r <= (y * p) * r) by (nonlinear_arith)
            requires
                x * q <= y * p,
                r > 0,
        ;
        assert((y * r) * p <= (z * q) * p) by (nonlinear_arith)
            requires
                y * r <= z * q,
                p > 0,
        ;
        assert((x * r) * q == (x * q) * r) by (nonlinear_arith);
        assert((y * p) * r == (y * r) * p) by (nonlinear_arith);
        assert((z * q) * p == (z * p) * q) by (nonlinear_arith);
        assert((x * r) * q <= (z * p) * q);
        if x * r > z * p {
            assert((x * r) * q > (z * p) * q) by (nonlinear_arith)
                requires
                    x * r > z * p,
                    q > 0,
            ;
        }
    }
}

proof fn lemma_difference_wf(
    samples: Seq<Sample>,
    picture: Rect,
    view: Rect,
    region: Region,
    shift: int,
)
    requires
        0 < samples.len() <= MAX_SAMPLES,
    ensures
        difference_with(samples, picture, view, region, shift) matches Some(d) ==> d.wf(),
{
    lemma_sum_bounds(samples, picture, view, region, shift);
}

proof fn lemma_best(
    samples: Seq<Sample>,
    picture: Rect,
    view: Rect,
    region: Region,
    max: int,
    t: int,
)
    requires
        0 < samples.len() <= MAX_SAMPLES,
        -max <= t <= max,
        max <= i32::MAX,
        difference_with(samples, picture, view, region, t) is Some,
    ensures
        ({
            let d = difference_with(samples, picture, view, region, t)->0;
            best_shift(samples, picture, view, region, max) matches Some(c) && c.difference.wf()
                && !d.less(c.difference)
        }),
    decreases max,
{
    let dt = difference_with(samples, picture, view, region, t);
    let dm = difference_with(samples, picture, view, region, max);
    let dn = difference_with(samples, picture, view, region, -max);
    lemma_difference_wf(samples, picture, view, region, t);
    lemma_difference_wf(samples, picture, view, region, max);
    lemma_difference_wf(samples, picture, view, region, -max);
    lemma_best_wf(samples, picture, view, region, max - 1);
    let nearer = best_shift(samples, picture, view, region, max - 1);
    let down = better(nearer, max, dm);
    let up = better(down, -max, dn);
    if -(max - 1) <= t <= max - 1 {
        lemma_best(samples, picture, view, region, max - 1, t);
    }
    let d = dt->0;
    if t != -max || max == 0 {
        assert(down matches Some(c) && c.difference.wf() && !d.less(c.difference)) by {
            if t == max {
                if nearer is Some && !d.less(nearer->0.difference) {
                } else {
                    assert(!d.less(d));
                }
            } else {
                let c0 = nearer->0;
                if dm is Some && dm->0.less(c0.difference) {
                    assert(!c0.difference.less(dm->0)) by (nonlinear_arith)
                        requires
                            dm->0.sum * c0.difference.count < c0.difference.sum * dm->0.count,
                            c0.difference.less(dm->0) == (c0.difference.sum * dm->0.count
                                < dm->0.sum * c0.difference.count),
                    ;
                    lemma_less_transitive(dm->0, c0.difference, d);
                }
            }
        }
        if max > 0 && dn is Some && dn->0.less(down->0.difference) {
            let c1 = down->0;
            assert(!c1.difference.less(dn->0)) by (nonlinear_arith)
                requires
                    dn->0.sum * c1.difference.count < c1.difference.sum * dn->0.count,
                    c1.difference.less(dn->0) == (c1.difference.sum * dn->0.count < dn->0.sum
                        * c1.difference.count),
            ;
            lemma_less_transitive(dn->0, c1.difference, d);
        }
    } else {
        assert(!d.less(d));
    }
}

proof fn lemma_best_wf(
    samples: Seq<Sample>,
    picture: Rect,
    view: Rect,
    region: Region,
    max: int,
)
    requires
        0 < samples.len() <= MAX_SAMPLES,
        max <= i32::MAX,
    ensures
        best_shift(samples, picture, view, region, max) matches Some(c) ==> {
            &&& c.difference.wf()
            &&& -max <= c.shift <= max
            &&& difference_with(samples, picture, view, region, c.shift as int) == Some(
                c.difference,
            )
        },
    decreases max + 1,
{
    if max >= 0 {
        lemma_best_wf(samples, picture, view, region, max - 1);
        lemma_difference_wf(samples, picture, view, region, max);
        lemma_difference_wf(samples, picture, view, region, -max);
    }
}

/// A picture is found where it differs least, unless it has hardly changed
/// where it was; and it is found whenever some shift is good enough.
pub proof fn best_match_is_found(
    samples: Seq<Sample>,
    picture: Rect,
    view: Rect,
    region: Region,
    max_shift: int,
    t: int,
)
    requires
        0 < samples.len() <= MAX_SAMPLES,
        max_shift <= i32::MAX,
        -max_shift <= t <= max_shift,
        difference_with(samples, picture, view, region, t) matches Some(d) && d.within(
            MATCH_MAX_DIFFERENCE,
        ),
    ensures
        found_shift(samples, picture, view, region, max_shift) matches Some(s) && {
            let found = difference_with(samples, picture, view, region, s as int);
            &&& found is Some
            &&& ({
                ||| s == 0 && found->0.within(UNCHANGED_MAX_DIFFERENCE)
                ||| !difference_with(samples, picture, view, region, t)->0.less(found->0)
            })
        },
{
    lemma_best(samples, picture, view, region, max_shift, t);
    lemma_best_wf(samples, picture, view, region, max_shift);
    lemma_difference_wf(samples, picture, view, region, t);
    let c = best_shift(samples, picture, view, region, max_shift)->0;
    let d = difference_with(samples, picture, view, region, t)->0;
    assert(c.difference.within(MATCH_MAX_DIFFERENCE)) by {
        let (x, p, y, q) = (
            c.difference.sum as int,
            c.difference.count as int,
            d.sum as int,
            d.count as int,
        );
        assert(x * q <= y * p);
        assert(x <= 30_000 * p) by (nonlinear_arith)
            requires
                x * q <= y * p,
                y <= 30_000 * q,
                p > 0,
                q > 0,
        {
            assert(y * p <= (30_000 * q) * p) by (nonlinear_arith)
                requires
                    y <= 30_000 * q,
                    p > 0,
            ;
            assert((30_000 * q) * p == (30_000 * p) * q) by (nonlinear_arith);
            if x > 30_000 * p {
                assert(x * q > (30_000 * p) * q) by (nonlinear_arith)
                    requires
                        x > 30_000 * p,
                        q > 0,
                ;
            }
        }
    }
}

/// How far a shift is.
pub open spec fn reach(shift: int) -> int {
    if shift < 0 {
        -shift
    } else {
        shift
    }
}

proof fn lemma_less_before(a: Difference, b: Difference, c: Difference)
    requires
        a.wf(),
        b.wf(),
        c.wf(),
        a.less(b),
        !c.less(b),
    ensures
        a.less(c),
{
    if !a.less(c) {
        lemma_less_transitive(b, c, a);
    }
}

proof fn lemma_less_one_way(a: Difference, b: Difference)
    requires
        a.less(b),
    ensures
        !b.less(a),
{
    let (x, p, y, q) = (a.sum as int, a.count as int, b.sum as int, b.count as int);
    assert(x * q < y * p);
    assert(!(y * p < x * q));
}

proof fn lemma_nearer_is_better(
    samples: Seq<Sample>,
    picture: Rect,
    view: Rect,
    region: Region,
    max: int,
    t: int,
)
    requires
        0 < samples.len() <= MAX_SAMPLES,
        max <= i32::MAX,
        difference_with(samples, picture, view, region, t) is Some,
        best_shift(samples, picture, view, region, max) matches Some(c) && reach(t) < reach(
            c.shift as int,
        ),
    ensures
        best_shift(samples, picture, view, region, max)->0.difference.less(
            difference_with(samples, picture, view, region, t)->0,
        ),
    decreases max + 1,
{
    let dt = difference_with(samples, picture, view, region, t)->0;
    let dm = difference_with(samples, picture, view, region, max);
    let dn = difference_with(samples, picture, view, region, -max);
    let nearer = best_shift(samples, picture, view, region, max - 1);
    let down = better(nearer, max, dm);
    let c = best_shift(samples, picture, view, region, max)->0;
    lemma_difference_wf(samples, picture, view, region, t);
    lemma_difference_wf(samples, picture, view, region, max);
    lemma_difference_wf(samples, picture, view, region, -max);
    lemma_best_wf(samples, picture, view, region, max);
    lemma_best_wf(samples, picture, view, region, max - 1);
    if reach(c.shift as int) < max {
        assert(nearer == Some(c));
        lemma_nearer_is_better(samples, picture, view, region, max - 1, t);
    } else {
        lemma_best(samples, picture, view, region, max - 1, t);
        let n = nearer->0.difference;
        assert(!dt.less(n));
        if c.shift == max {
            assert(c.difference.less(n));
        } else {
            assert(c.difference.less(down->0.difference));
            if down->0 != nearer->0 {
                lemma_less_one_way(down->0.difference, n);
                lemma_less_before(c.difference, down->0.difference, n);
            }
        }
        lemma_less_before(c.difference, n, dt);
    }
}

/// Where a picture is found. One that has hardly changed where it was has not
/// moved. Else it is found at the shift that differs least, of equally good
/// ones at the nearest, and nowhere only if no shift is good enough.
pub proof fn nearest_of_equals_wins(
    samples: Seq<Sample>,
    picture: Rect,
    view: Rect,
    region: Region,
    max_shift: int,
    t: int,
)
    requires
        0 < samples.len() <= MAX_SAMPLES,
        0 <= max_shift <= i32::MAX,
        -max_shift <= t <= max_shift,
    ensures
        ({
            let at_rest = difference_with(samples, picture, view, region, 0);
            let there = difference_with(samples, picture, view, region, t);
            let found = found_shift(samples, picture, view, region, max_shift);
            if at_rest matches Some(d) && d.within(UNCHANGED_MAX_DIFFERENCE) {
                found == Some(0i32)
            } else {
                match found {
                    Some(s) => {
                        let least = difference_with(samples, picture, view, region, s as int);
                        &&& -max_shift <= s <= max_shift
                        &&& least matches Some(d) && d.within(MATCH_MAX_DIFFERENCE)
                        &&& there is Some ==> !there->0.less(least->0)
                        &&& there is Some && reach(t) < reach(s as int) ==> least->0.less(
                            there->0,
                        )
                    },
                    None => there matches Some(d) ==> !d.within(MATCH_MAX_DIFFERENCE),
                }
            }
        }),
{
    let there = difference_with(samples, picture, view, region, t);
    lemma_best_wf(samples, picture, view, region, max_shift);
    if there is Some {
        lemma_best(samples, picture, view, region, max_shift, t);
        let c = best_shift(samples, picture, view, region, max_shift)->0;
        if reach(t) < reach(c.shift as int) {
            lemma_nearer_is_better(samples, picture, view, region, max_shift, t);
        }
        if there->0.within(MATCH_MAX_DIFFERENCE) {
            best_match_is_found(samples, picture, view, region, max_shift, t);
        }
    }
}

/// Whether a sample is found unchanged where it was taken.
spec fn is_unmoved(s: Sample, picture: Rect, view: Rect, region: Region) -> bool {
    sample_difference(s, picture, view, region, 0) == Some(0int)
}

proof fn lemma_middle_within(i: int, length: int, count: int)
    by (nonlinear_arith)
    requires
        0 <= i < count,
        0 < length,
    ensures
        0 <= cell_middle(i, length, count) < length,
{
    let n = (2 * i + 1) * length;
    let d = 2 * count;
    assert(0 <= n < d * length);
    assert(0 <= n / d < length);
    assert(cell_middle(i, length, count) == n / d);
}

proof fn lemma_row_unmoved(
    picture: Rect,
    view: Rect,
    region: Region,
    row: int,
    columns: int,
    k: int,
)
    requires
        picture.measurable(),
        !picture.spec_is_empty(),
        view.spec_contains_rect(picture),
        0 <= row < sample_count(picture.spec_height()),
        0 <= columns <= sample_count(picture.spec_width()),
        0 <= k < row_samples(picture, region, row, columns).len(),
    ensures
        is_unmoved(row_samples(picture, region, row, columns)[k], picture, view, region),
    decreases columns,
{
    let before = row_samples(picture, region, row, columns - 1);
    if k < before.len() {
        lemma_row_unmoved(picture, view, region, row, columns - 1, k);
        assert(row_samples(picture, region, row, columns)[k] == before[k]);
    } else {
        let (w, h) = (picture.spec_width(), picture.spec_height());
        lemma_middle_within(columns - 1, w, sample_count(w));
        lemma_middle_within(row, h, sample_count(h));
        let last = grid_sample(picture, region, row, columns - 1);
        assert(row_samples(picture, region, row, columns)[k] == last[k - before.len()]);
    }
}

proof fn lemma_grid_unmoved(picture: Rect, view: Rect, region: Region, rows: int, k: int)
    requires
        picture.measurable(),
        !picture.spec_is_empty(),
        view.spec_contains_rect(picture),
        0 <= rows <= sample_count(picture.spec_height()),
        0 <= k < grid_samples(picture, region, rows).len(),
    ensures
        is_unmoved(grid_samples(picture, region, rows)[k], picture, view, region),
    decreases rows,
{
    let before = grid_samples(picture, region, rows - 1);
    if k < before.len() {
        lemma_grid_unmoved(picture, view, region, rows - 1, k);
        assert(grid_samples(picture, region, rows)[k] == before[k]);
    } else {
        let columns = sample_count(picture.spec_width());
        lemma_row_unmoved(picture, view, region, rows - 1, columns, k - before.len());
        assert(grid_samples(picture, region, rows)[k] == row_samples(
            picture,
            region,
            rows - 1,
            columns,
        )[k - before.len()]);
    }
}

proof fn lemma_sum_unmoved(samples: Seq<Sample>, picture: Rect, view: Rect, region: Region)
    requires
        forall|k: int|
            0 <= k < samples.len() ==> is_unmoved(#[trigger] samples[k], picture, view, region),
    ensures
        sum_of(samples, picture, view, region, 0) == (0int, samples.len() as int),
    decreases samples.len(),
{
    if samples.len() > 0 {
        let rest = samples.drop_last();
        assert forall|k: int| 0 <= k < rest.len() implies is_unmoved(
            #[trigger] rest[k],
            picture,
            view,
            region,
        ) by {
            assert(rest[k] == samples[k]);
        }
        lemma_sum_unmoved(rest, picture, view, region);
        assert(is_unmoved(samples[samples.len() - 1], picture, view, region));
    }
}

proof fn lemma_grid_len(picture: Rect, region: Region, rows: int)
    requires
        0 <= rows,
    ensures
        grid_samples(picture, region, rows).len() <= 12 * rows,
    decreases rows,
{
    if rows > 0 {
        lemma_grid_len(picture, region, rows - 1);
        lemma_row_len(picture, region, rows - 1, sample_count(picture.spec_width()));
    }
}

/// A picture that is looked for where it was sampled has not moved, however far
/// it is searched for.
pub proof fn unmoved_pictures_stay(picture: Rect, view: Rect, region: Region, max_shift: int)
    requires
        picture.measurable(),
        !picture.spec_is_empty(),
        view.spec_contains_rect(picture),
        samples_of(picture, region).len() > 0,
    ensures
        found_shift(samples_of(picture, region), picture, view, region, max_shift) == Some(0i32),
{
    let rows = sample_count(picture.spec_height());
    let samples = grid_samples(picture, region, rows);
    lemma_grid_len(picture, region, rows);
    assert forall|k: int| 0 <= k < samples.len() implies is_unmoved(
        #[trigger] samples[k],
        picture,
        view,
        region,
    ) by {
        lemma_grid_unmoved(picture, view, region, rows, k);
    }
    lemma_sum_unmoved(samples, picture, view, region);
}

/// Two colors are as far apart as the channel that differs most.
pub proof fn colors_differ_by_their_worst_channel(a: Levels, b: Levels)
    ensures
        ({
            let d = color_distance(a, b);
            &&& d >= a.r - b.r && d >= b.r - a.r
            &&& d >= a.g - b.g && d >= b.g - a.g
            &&& d >= a.b - b.b && d >= b.b - a.b
            &&& d == a.r - b.r || d == b.r - a.r || d == a.g - b.g || d == b.g - a.g || d == a.b
                - b.b || d == b.b - a.b
        }),
        color_distance(a, b) == color_distance(b, a),
        color_distance(a, a) == 0,
{
}

/// The pixels of a region are listed row by row, from its corner on. Outside of
/// it, and beyond what is listed, no color is known.
pub proof fn pixels_are_listed_row_by_row(region: Region, x: int, y: int)
    ensures
        ({
            let i = (y - region.rect.top) * (region.rect.right - region.rect.left) + (x
                - region.rect.left);
            let is_inside = region.rect.left <= x < region.rect.right && region.rect.top <= y
                < region.rect.bottom;
            region.color_at(x, y) == (if is_inside && i < region.pixels@.len() {
                region.pixels@[i]
            } else {
                None
            })
        }),
{
}

/// A side is sampled at up to twelve places, and at least at one, each in the
/// middle of its cell.
pub proof fn samples_are_taken_in_the_middle(i: int, length: int, count: int)
    requires
        0 <= i < count,
        0 <= length,
    ensures
        length < 1 ==> sample_count(length) == 1,
        1 <= length <= 12 ==> sample_count(length) == length,
        length > 12 ==> sample_count(length) == 12,
        0 <= (2 * i + 1) * length - 2 * count * cell_middle(i, length, count) < 2 * count,
{
    let n = (2 * i + 1) * length;
    let d = 2 * count;
    assert(n >= 0) by (nonlinear_arith)
        requires
            n == (2 * i + 1) * length,
            i >= 0,
            length >= 0,
    ;
    assert(cell_middle(i, length, count) == n / d);
    vstd::arithmetic::div_mod::lemma_fundamental_div_mod(n, d);
    vstd::arithmetic::div_mod::lemma_mod_bound(n, d);
}

/// A picture is sampled on a grid, row by row. A place whose color is not known
/// gives no sample.
pub proof fn pictures_are_sampled_row_by_row(picture: Rect, region: Region, row: int, column: int)
    ensures
        ({
            let x = cell_middle(
                column,
                picture.right - picture.left,
                sample_count(picture.right - picture.left),
            );
            let y = cell_middle(
                row,
                picture.bottom - picture.top,
                sample_count(picture.bottom - picture.top),
            );
            match region.color_at(picture.left + x, picture.top + y) {
                Some(color) => grid_sample(picture, region, row, column) == seq![
                    Sample { x: x as i32, y: y as i32, color },
                ],
                None => grid_sample(picture, region, row, column) == Seq::<Sample>::empty(),
            }
        }),
        row_samples(picture, region, row, 0) == Seq::<Sample>::empty(),
        column >= 0 ==> row_samples(picture, region, row, column + 1) == row_samples(
            picture,
            region,
            row,
            column,
        ) + grid_sample(picture, region, row, column),
        grid_samples(picture, region, 0) == Seq::<Sample>::empty(),
        row >= 0 ==> grid_samples(picture, region, row + 1) == grid_samples(picture, region, row)
            + row_samples(picture, region, row, sample_count(picture.right - picture.left)),
        samples_of(picture, region) == grid_samples(
            picture,
            region,
            sample_count(picture.bottom - picture.top),
        ),
{
}

/// The mean of a difference is compared without dividing: it is within a limit,
/// or less than another, exactly if the quotient would be.
pub proof fn means_are_compared_by_products(a: Difference, b: Difference, limit: u64)
    requires
        a.count > 0,
        b.count > 0,
    ensures
        a.within(limit) <==> a.sum <= limit * a.count,
        a.less(b) <==> a.sum * b.count < b.sum * a.count,
        MATCH_MAX_DIFFERENCE == 30_000,
        UNCHANGED_MAX_DIFFERENCE == 5_000,
{
}

/// A sample is looked for where its picture has moved it, and counts only if it
/// is in view and the color there is known.
pub proof fn samples_count_while_in_view(
    s: Sample,
    samples: Seq<Sample>,
    picture: Rect,
    view: Rect,
    region: Region,
    shift: int,
    sum: int,
    count: int,
)
    requires
        sum_of(samples, picture, view, region, shift) == (sum, count),
    ensures
        ({
            let x = picture.left + s.x;
            let y = picture.top + s.y + shift;
            let found = region.color_at(x, y);
            let in_view = view.left <= x < view.right && view.top <= y < view.bottom;
            &&& in_view && found is Some ==> sample_difference(s, picture, view, region, shift)
                == Some(color_distance(found->0, s.color)) && sum_of(
                samples.push(s),
                picture,
                view,
                region,
                shift,
            ) == (sum + color_distance(found->0, s.color), count + 1)
            &&& !in_view || found is None ==> sample_difference(s, picture, view, region, shift) is None
                && sum_of(samples.push(s), picture, view, region, shift) == (sum, count)
        }),
        sum_of(Seq::empty(), picture, view, region, shift) == (0int, 0int),
        count * 2 < samples.len() ==> difference_with(samples, picture, view, region, shift) is None,
        count * 2 >= samples.len() ==> (difference_with(samples, picture, view, region, shift)
            matches Some(d) && d.sum == sum as u64 && d.count == count as u64),
{
    assert(samples.push(s).drop_last() =~= samples);
}

/// What is found is good enough: its mean is at most three hundredths of the
/// full range. Without samples nothing is found.
pub proof fn only_good_matches_are_found(
    samples: Seq<Sample>,
    picture: Rect,
    view: Rect,
    region: Region,
    max_shift: int,
)
    requires
        samples.len() <= MAX_SAMPLES,
        max_shift <= i32::MAX,
    ensures
        samples.len() == 0 ==> found_shift(samples, picture, view, region, max_shift) is None,
        found_shift(samples, picture, view, region, max_shift) matches Some(s) ==> {
            let found = difference_with(samples, picture, view, region, s as int);
            &&& found is Some
            &&& found->0.sum <= 30_000 * found->0.count
            &&& s == 0 || -max_shift <= s <= max_shift
        },
{
    if samples.len() > 0 {
        lemma_best_wf(samples, picture, view, region, max_shift);
    }
}

} // verus!
