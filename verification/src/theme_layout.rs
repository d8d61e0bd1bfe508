//! How a color theme is laid out for drawing: its filters in numbered slots,
//! and the parts of a window that point at them.

use vstd::prelude::*;

use crate::geometry::{max_i32, max_int, min_i32, min_int};
use crate::sorting::{is_stable_order, stable_order};

verus! {

/// How many filters besides its own a theme can use.
pub const MAX_ELEMENT_FILTERS: usize = 7;

/// The filters that one window is drawn with: the theme's own, then those of
/// its elements.
pub const MAX_FILTER_SLOTS: usize = 8;

/// The slot that leaves what it covers as it is.
pub const SLOT_ORIGINAL: u32 = 0xffff_ffff;

/// How many parts of a window can be drawn in their own way.
pub const MAX_REGIONS: usize = 64;

/// The kinds of parts that a window is made of.
#[derive(Clone, Copy, Debug, PartialEq, Eq, Structural)]
pub enum UiElementKind {
    Image,
    Edit,
    Document,
    Button,
    Hyperlink,
    CheckBox,
    RadioButton,
    ComboBox,
    ListItem,
    TreeItem,
    TabItem,
    MenuItem,
    DataItem,
    Header,
    ToolBar,
    StatusBar,
    TitleBar,
}

impl UiElementKind {
    /// The place of the kind among all kinds.
    pub open spec fn spec_rank(self) -> u8 {
        match self {
            UiElementKind::Image => 0,
            UiElementKind::Edit => 1,
            UiElementKind::Document => 2,
            UiElementKind::Button => 3,
            UiElementKind::Hyperlink => 4,
            UiElementKind::CheckBox => 5,
            UiElementKind::RadioButton => 6,
            UiElementKind::ComboBox => 7,
            UiElementKind::ListItem => 8,
            UiElementKind::TreeItem => 9,
            UiElementKind::TabItem => 10,
            UiElementKind::MenuItem => 11,
            UiElementKind::DataItem => 12,
            UiElementKind::Header => 13,
            UiElementKind::ToolBar => 14,
            UiElementKind::StatusBar => 15,
            UiElementKind::TitleBar => 16,
        }
    }

    pub fn rank(&self) -> (result: u8)
        ensures
            result == self.spec_rank(),
    {
        match *self {
            UiElementKind::Image => 0,
            UiElementKind::Edit => 1,
            UiElementKind::Document => 2,
            UiElementKind::Button => 3,
            UiElementKind::Hyperlink => 4,
            UiElementKind::CheckBox => 5,
            UiElementKind::RadioButton => 6,
            UiElementKind::ComboBox => 7,
            UiElementKind::ListItem => 8,
            UiElementKind::TreeItem => 9,
            UiElementKind::TabItem => 10,
            UiElementKind::MenuItem => 11,
            UiElementKind::DataItem => 12,
            UiElementKind::Header => 13,
            UiElementKind::ToolBar => 14,
            UiElementKind::StatusBar => 15,
            UiElementKind::TitleBar => 16,
        }
    }
}

/// The numbers that a filter hands to the drawing, by the key that they are
/// filed under.
#[derive(Clone, Copy, Debug, PartialEq, Eq, Structural)]
pub struct FilterConstants {
    pub key: u64,
}

/// The filter that changes nothing.
pub const IDENTITY_KEY: u64 = 0;

impl FilterConstants {
    pub open spec fn spec_identity() -> FilterConstants {
        FilterConstants { key: IDENTITY_KEY }
    }

    pub fn identity() -> (result: FilterConstants)
        ensures
            result == FilterConstants::spec_identity(),
    {
        FilterConstants { key: IDENTITY_KEY }
    }
}

/// What happens to the colors that a filter is laid over.
#[derive(Clone, Copy, Debug, PartialEq, Eq, Structural)]
pub struct ColorFilter {
    pub constants: FilterConstants,
}

/// How the parts of one kind are drawn.
#[derive(Clone, Copy, Debug, PartialEq, Eq, Structural)]
pub enum ElementTreatment {
    /// As they are.
    Original,
    Filter(ColorFilter),
}

#[derive(Clone, Copy, Debug, PartialEq, Eq, Structural)]
pub struct ElementEntry {
    pub kind: UiElementKind,
    pub treatment: ElementTreatment,
}

/// What a theme is made of.
#[derive(Debug)]
pub struct ColorThemeOptions {
    pub filter: ColorFilter,
    pub elements: Vec<ElementEntry>,
    pub detect_colors: bool,
    pub skip_if_dark: bool,
}

/// A theme uses more filters than there are slots.
#[derive(Clone, Copy, Debug, PartialEq, Eq, Structural)]
pub struct TooManyFilters;

/// A theme that windows can be drawn with.
#[derive(Debug)]
pub struct ColorTheme {
    pub options: ColorThemeOptions,
}

/// Whether `elements` are in the order of their kinds, each kind once.
pub open spec fn is_kind_ordered(elements: Seq<ElementEntry>) -> bool {
    forall|a: int, b: int|
        #![trigger elements[a], elements[b]]
        0 <= a < b < elements.len() ==> elements[a].kind.spec_rank()
            < elements[b].kind.spec_rank()
}

/// `elements` with `e` in its place, instead of what it held for the kind.
pub open spec fn with_entry(elements: Seq<ElementEntry>, e: ElementEntry) -> Seq<ElementEntry>
    decreases elements.len(),
{
    if elements.len() == 0 {
        seq![e]
    } else {
        let last = elements.last();
        if last.kind.spec_rank() < e.kind.spec_rank() {
            elements.push(e)
        } else if last.kind == e.kind {
            elements.drop_last().push(e)
        } else {
            with_entry(elements.drop_last(), e).push(last)
        }
    }
}

/// `elements` in the order of their kinds. Of two for the same kind, the later
/// one counts.
pub open spec fn kind_ordered(elements: Seq<ElementEntry>) -> Seq<ElementEntry>
    decreases elements.len(),
{
    if elements.len() == 0 {
        Seq::empty()
    } else {
        with_entry(kind_ordered(elements.drop_last()), elements.last())
    }
}

/// The filters that `elements` use besides `own`, in order, each once.
pub open spec fn distinct_filters(elements: Seq<ElementEntry>, own: ColorFilter) -> Seq<ColorFilter>
    decreases elements.len(),
{
    if elements.len() == 0 {
        Seq::empty()
    } else {
        let rest = distinct_filters(elements.drop_last(), own);
        match elements.last().treatment {
            ElementTreatment::Original => rest,
            ElementTreatment::Filter(f) => if f == own || rest.contains(f) {
                rest
            } else {
                rest.push(f)
            },
        }
    }
}

proof fn lemma_with_entry(elements: Seq<ElementEntry>, e: ElementEntry)
    requires
        is_kind_ordered(elements),
    ensures
        is_kind_ordered(with_entry(elements, e)),
        with_entry(elements, e).len() > 0,
        with_entry(elements, e).last().kind.spec_rank() == (if elements.len() > 0
            && elements.last().kind.spec_rank() > e.kind.spec_rank() {
            elements.last().kind.spec_rank()
        } else {
            e.kind.spec_rank()
        }),
    decreases elements.len(),
{
    if elements.len() > 0 {
        let d = elements.drop_last();
        assert(is_kind_ordered(d));
        let last = elements.last();
        if last.kind.spec_rank() > e.kind.spec_rank() {
            lemma_with_entry(d, e);
            let inner = with_entry(d, e);
            let w = inner.push(last);
            if d.len() > 0 {
                assert(elements[d.len() - 1].kind.spec_rank() < elements[d.len()
                    as int].kind.spec_rank());
            }
            assert forall|a: int, b: int|
                #![trigger w[a], w[b]]
                0 <= a < b < w.len() implies w[a].kind.spec_rank() < w[b].kind.spec_rank() by {
                if b == inner.len() {
                    assert(w[a] == inner[a]);
                    if a < inner.len() - 1 {
                        assert(inner[a].kind.spec_rank() < inner[inner.len()
                            - 1].kind.spec_rank());
                    }
                } else {
                    assert(w[a] == inner[a] && w[b] == inner[b]);
                }
            }
        }
    }
}

proof fn lemma_kind_ordered(elements: Seq<ElementEntry>)
    ensures
        is_kind_ordered(kind_ordered(elements)),
    decreases elements.len(),
{
    if elements.len() > 0 {
        lemma_kind_ordered(elements.drop_last());
        lemma_with_entry(kind_ordered(elements.drop_last()), elements.last());
    }
}

/// Puts `e` in its place among `elements`.
fn insert_entry(elements: &mut Vec<ElementEntry>, e: ElementEntry)
    requires
        is_kind_ordered(old(elements)@),
    ensures
        final(elements)@ == with_entry(old(elements)@, e),
{
    let ghost all = elements@;
    let mut i: usize = elements.len();
    proof {
        assert(all.subrange(0, all.len() as int) =~= all);
        assert(all.subrange(all.len() as int, all.len() as int) =~= Seq::<ElementEntry>::empty());
        assert(with_entry(all, e) + Seq::<ElementEntry>::empty() =~= with_entry(all, e));
    }
    while i > 0 && elements[i - 1].kind.rank() > e.kind.rank()
        invariant
            i <= elements@.len(),
            elements@ == all,
            with_entry(all, e) == with_entry(all.subrange(0, i as int), e) + all.subrange(
                i as int,
                all.len() as int,
            ),
        decreases i,
    {
        proof {
            let cur = all.subrange(0, i as int);
            assert(cur.last() == all[i - 1]);
            assert(cur.drop_last() =~= all.subrange(0, i - 1));
            assert(with_entry(cur, e) == with_entry(all.subrange(0, i - 1), e).push(all[i - 1]));
            assert(with_entry(all, e) =~= with_entry(all.subrange(0, i - 1), e) + all.subrange(
                i - 1,
                all.len() as int,
            ));
        }
        i = i - 1;
    }
    if i > 0 && elements[i - 1].kind.rank() == e.kind.rank() {
        proof {
            let cur = all.subrange(0, i as int);
            assert(cur.last() == all[i - 1]);
            assert(all[i - 1].kind == e.kind);
            assert(all.update(i - 1, e) =~= cur.drop_last().push(e) + all.subrange(
                i as int,
                all.len() as int,
            ));
        }
        elements.set(i - 1, e);
    } else {
        proof {
            let cur = all.subrange(0, i as int);
            if i > 0 {
                assert(cur.last() == all[i - 1]);
            } else {
                assert(cur =~= Seq::<ElementEntry>::empty());
            }
            assert(all.insert(i as int, e) =~= cur.push(e) + all.subrange(
                i as int,
                all.len() as int,
            ));
            assert(cur.push(e) =~= with_entry(cur, e));
        }
        elements.insert(i, e);
    }
}

/// The filters that `elements` use besides `own`, in order, each once.
pub fn element_filters(elements: &Vec<ElementEntry>, own: ColorFilter) -> (result: Vec<ColorFilter>)
    ensures
        result@ == distinct_filters(elements@, own),
{
    let mut result: Vec<ColorFilter> = Vec::new();
    let mut i: usize = 0;
    proof {
        assert(elements@.subrange(0, 0) =~= Seq::<ElementEntry>::empty());
    }
    while i < elements.len()
        invariant
            i <= elements@.len(),
            result@ == distinct_filters(elements@.subrange(0, i as int), own),
        decreases elements@.len() - i,
    {
        proof {
            let next = elements@.subrange(0, i + 1);
            assert(next.drop_last() =~= elements@.subrange(0, i as int));
            assert(next.last() == elements@[i as int]);
        }
        if let ElementTreatment::Filter(f) = elements[i].treatment {
            if f != own && filter_position(&result, f).is_none() {
                result.push(f);
            }
        }
        i = i + 1;
    }
    proof {
        assert(elements@.subrange(0, i as int) =~= elements@);
    }
    result
}

/// The first place of `f` in `filters`, from `i` on.
pub open spec fn filter_index(filters: Seq<ColorFilter>, f: ColorFilter, i: int) -> Option<int>
    decreases filters.len() - i,
{
    if i < 0 || i >= filters.len() {
        None
    } else if filters[i] == f {
        Some(i)
    } else {
        filter_index(filters, f, i + 1)
    }
}

fn filter_position(filters: &Vec<ColorFilter>, f: ColorFilter) -> (result: Option<usize>)
    ensures
        match result {
            Some(i) => i < filters@.len() && filters@[i as int] == f && filter_index(
                filters@,
                f,
                0,
            ) == Some(i as int),
            None => !filters@.contains(f) && filter_index(filters@, f, 0) is None,
        },
{
    let mut i: usize = 0;
    while i < filters.len()
        invariant
            i <= filters@.len(),
            forall|j: int| 0 <= j < i ==> filters@[j] != f,
            filter_index(filters@, f, i as int) == filter_index(filters@, f, 0),
        decreases filters@.len() - i,
    {
        if filters[i] == f {
            return Some(i);
        }
        i = i + 1;
    }
    None
}

impl ColorTheme {
    /// The filters of the theme's elements.
    pub open spec fn filters(self) -> Seq<ColorFilter> {
        distinct_filters(self.options.elements@, self.options.filter)
    }

    /// Whether the theme can be laid out.
    pub open spec fn wf(self) -> bool {
        &&& is_kind_ordered(self.options.elements@)
        &&& self.filters().len() <= MAX_ELEMENT_FILTERS
    }

    /// Makes a theme of `options`, unless they use more filters than fit.
    pub fn new(options: ColorThemeOptions) -> (result: Result<ColorTheme, TooManyFilters>)
        ensures
            match result {
                Ok(theme) => {
                    &&& theme.wf()
                    &&& theme.options.filter == options.filter
                    &&& theme.options.elements@ == kind_ordered(options.elements@)
                    &&& theme.options.detect_colors == options.detect_colors
                    &&& theme.options.skip_if_dark == options.skip_if_dark
                },
                Err(_) => distinct_filters(
                    kind_ordered(options.elements@),
                    options.filter,
                ).len() > MAX_ELEMENT_FILTERS,
            },
    {
        let mut elements: Vec<ElementEntry> = Vec::new();
        let mut i: usize = 0;
        proof {
            assert(options.elements@.subrange(0, 0) =~= Seq::<ElementEntry>::empty());
        }
        while i < options.elements.len()
            invariant
                i <= options.elements@.len(),
                elements@ == kind_ordered(options.elements@.subrange(0, i as int)),
            decreases options.elements@.len() - i,
        {
            proof {
                lemma_kind_ordered(options.elements@.subrange(0, i as int));
                let next = options.elements@.subrange(0, i + 1);
                assert(next.drop_last() =~= options.elements@.subrange(0, i as int));
                assert(next.last() == options.elements@[i as int]);
            }
            insert_entry(&mut elements, options.elements[i]);
            i = i + 1;
        }
        proof {
            assert(options.elements@.subrange(0, i as int) =~= options.elements@);
            lemma_kind_ordered(options.elements@);
        }
        let filters = element_filters(&elements, options.filter);
        if filters.len() > MAX_ELEMENT_FILTERS {
            return Err(TooManyFilters);
        }
        Ok(
            ColorTheme {
                options: ColorThemeOptions {
                    filter: options.filter,
                    elements,
                    detect_colors: options.detect_colors,
                    skip_if_dark: options.skip_if_dark,
                },
            },
        )
    }
}

/// What each slot holds: the theme's own filter, then those of its elements,
/// then nothing but the filter that changes nothing.
pub open spec fn slots_of(theme: ColorTheme) -> Seq<FilterConstants> {
    Seq::new(
        MAX_FILTER_SLOTS as nat,
        |i: int|
            if i == 0 {
                theme.options.filter.constants
            } else if i <= theme.filters().len() {
                theme.filters()[i - 1].constants
            } else {
                FilterConstants::spec_identity()
            },
    )
}

/// What each slot holds.
pub fn filter_slots(theme: &ColorTheme) -> (result: Vec<FilterConstants>)
    requires
        theme.wf(),
    ensures
        result@ == slots_of(*theme),
{
    let filters = element_filters(&theme.options.elements, theme.options.filter);
    let mut slots: Vec<FilterConstants> = Vec::new();
    slots.push(theme.options.filter.constants);
    let mut i: usize = 0;
    while i < MAX_ELEMENT_FILTERS
        invariant
            i <= MAX_ELEMENT_FILTERS,
            filters@ == theme.filters(),
            slots@.len() == i + 1,
            forall|k: int| 0 <= k <= i ==> #[trigger] slots@[k] == slots_of(*theme)[k],
        decreases MAX_ELEMENT_FILTERS - i,
    {
        if i < filters.len() {
            slots.push(filters[i].constants);
        } else {
            slots.push(FilterConstants::identity());
        }
        i = i + 1;
    }
    proof {
        assert(slots@ =~= slots_of(*theme));
    }
    slots
}

/// The slot that a part with the given treatment is drawn with.
pub open spec fn slot_of(theme: ColorTheme, treatment: ElementTreatment) -> u32 {
    match treatment {
        ElementTreatment::Original => SLOT_ORIGINAL,
        ElementTreatment::Filter(f) => match filter_index(theme.filters(), f, 0) {
            Some(i) => (i + 1) as u32,
            None => 0,
        },
    }
}

/// The slot of each kind that the theme draws in its own way.
pub open spec fn element_slots_of(theme: ColorTheme) -> Seq<(UiElementKind, u32)> {
    theme.options.elements@.map_values(|e: ElementEntry| (e.kind, slot_of(theme, e.treatment)))
}

/// The slot of each kind that the theme draws in its own way, in the order of
/// the kinds.
pub fn element_slots(theme: &ColorTheme) -> (result: Vec<(UiElementKind, u32)>)
    requires
        theme.wf(),
    ensures
        result@ == element_slots_of(*theme),
{
    let filters = element_filters(&theme.options.elements, theme.options.filter);
    let mut result: Vec<(UiElementKind, u32)> = Vec::new();
    let mut i: usize = 0;
    while i < theme.options.elements.len()
        invariant
            i <= theme.options.elements@.len(),
            filters@ == theme.filters(),
            filters@.len() <= MAX_ELEMENT_FILTERS,
            result@.len() == i,
            forall|k: int| 0 <= k < i ==> #[trigger] result@[k] == element_slots_of(*theme)[k],
        decreases theme.options.elements@.len() - i,
    {
        let e = theme.options.elements[i];
        let slot: u32 = match e.treatment {
            ElementTreatment::Original => SLOT_ORIGINAL,
            ElementTreatment::Filter(f) => match filter_position(&filters, f) {
                Some(at) => (at + 1) as u32,
                None => 0,
            },
        };
        result.push((e.kind, slot));
        i = i + 1;
    }
    proof {
        assert(result@ =~= element_slots_of(*theme));
    }
    result
}

/// A part that is drawn with a filter of its own is drawn with exactly that
/// filter.
pub proof fn slot_holds_the_filter(theme: ColorTheme, k: int)
    requires
        theme.wf(),
        0 <= k < theme.options.elements@.len(),
    ensures
        match theme.options.elements@[k].treatment {
            ElementTreatment::Original => slot_of(
                theme,
                theme.options.elements@[k].treatment,
            ) == SLOT_ORIGINAL,
            ElementTreatment::Filter(f) => {
                let slot = slot_of(theme, theme.options.elements@[k].treatment);
                slot < MAX_FILTER_SLOTS && slots_of(theme)[slot as int] == f.constants
            },
        },
{
    if let ElementTreatment::Filter(f) = theme.options.elements@[k].treatment {
        let own = theme.options.filter;
        lemma_filter_listed(theme.options.elements@, own, k, f);
        lemma_filter_index(theme.filters(), f, 0);
        let i = filter_index(theme.filters(), f, 0);
        if i is None {
            assert(f == own) by {
                if theme.filters().contains(f) {
                    let j = choose|j: int|
                        0 <= j < theme.filters().len() && theme.filters()[j] == f;
                    assert(theme.filters()[j] == f);
                }
            }
        }
    }
}

proof fn lemma_filter_index(filters: Seq<ColorFilter>, f: ColorFilter, i: int)
    requires
        0 <= i <= filters.len(),
    ensures
        match filter_index(filters, f, i) {
            Some(k) => i <= k < filters.len() && filters[k] == f,
            None => forall|j: int| i <= j < filters.len() ==> filters[j] != f,
        },
    decreases filters.len() - i,
{
    if i < filters.len() && filters[i] != f {
        lemma_filter_index(filters, f, i + 1);
    }
}

proof fn lemma_filter_listed(elements: Seq<ElementEntry>, own: ColorFilter, k: int, f: ColorFilter)
    requires
        0 <= k < elements.len(),
        elements[k].treatment == ElementTreatment::Filter(f),
    ensures
        f == own || distinct_filters(elements, own).contains(f),
    decreases elements.len(),
{
    let rest = distinct_filters(elements.drop_last(), own);
    let all = distinct_filters(elements, own);
    if f != own {
        if k < elements.len() - 1 {
            assert(elements.drop_last()[k] == elements[k]);
            lemma_filter_listed(elements.drop_last(), own, k, f);
            let j = choose|j: int| 0 <= j < rest.len() && rest[j] == f;
            assert(all[j] == f);
        } else if rest.contains(f) {
            assert(all == rest);
        } else {
            assert(all[rest.len() as int] == f);
        }
    }
}

/// A part of a window, in pixels of what is drawn. Its right and bottom edges
/// are exclusive.
#[derive(Clone, Copy, Debug, PartialEq, Eq)]
pub struct ElementRect {
    pub kind: UiElementKind,
    /// The left, top, right and bottom edges.
    pub ltrb: [i32; 4],
}

/// The slot that `slots` give for `kind`, from the one at `i` on.
pub open spec fn slot_for(
    slots: Seq<(UiElementKind, u32)>,
    kind: UiElementKind,
    i: int,
) -> Option<u32>
    decreases slots.len() - i,
{
    if i < 0 || i >= slots.len() {
        None
    } else if slots[i].0 == kind {
        Some(slots[i].1)
    } else {
        slot_for(slots, kind, i + 1)
    }
}

/// The part of `ltrb` that is drawn.
pub open spec fn clipped(ltrb: Seq<i32>, width: int, height: int) -> Seq<int> {
    seq![
        max_int(ltrb[0] as int, 0),
        max_int(ltrb[1] as int, 0),
        min_int(ltrb[2] as int, width),
        min_int(ltrb[3] as int, height),
    ]
}

/// A part of what is drawn, and the slot that it is drawn with.
#[verifier::ext_equal]
pub struct Region {
    pub ltrb: Seq<int>,
    pub slot: u32,
}

/// How `e` is drawn, if it is drawn in its own way and seen at all.
pub open spec fn region_of(
    slots: Seq<(UiElementKind, u32)>,
    e: ElementRect,
    width: int,
    height: int,
) -> Option<Region> {
    let c = clipped(e.ltrb@, width, height);
    match slot_for(slots, e.kind, 0) {
        Some(slot) => if c[0] < c[2] && c[1] < c[3] {
            Some(Region { ltrb: c, slot })
        } else {
            None
        },
        None => None,
    }
}

/// How each of `elements` is drawn that is drawn in its own way and seen.
pub open spec fn regions_of(
    slots: Seq<(UiElementKind, u32)>,
    elements: Seq<ElementRect>,
    width: int,
    height: int,
) -> Seq<Region>
    decreases elements.len(),
{
    if elements.len() == 0 {
        Seq::empty()
    } else {
        let rest = regions_of(slots, elements.drop_last(), width, height);
        match region_of(slots, elements.last(), width, height) {
            Some(r) => rest.push(r),
            None => rest,
        }
    }
}

/// How many pixels the region has.
pub open spec fn region_area(r: Region) -> int {
    (r.ltrb[2] - r.ltrb[0]) * (r.ltrb[3] - r.ltrb[1])
}

/// What regions are ordered by: the largest first.
pub open spec fn region_keys(regions: Seq<Region>) -> Seq<u64> {
    regions.map_values(|r: Region| (u64::MAX - region_area(r)) as u64)
}

/// What a list of drawn regions stands for.
pub open spec fn drawn_regions(v: Seq<([i32; 4], u32)>) -> Seq<Region> {
    v.map_values(
        |r: ([i32; 4], u32)| Region { ltrb: r.0@.map_values(|x: i32| x as int), slot: r.1 },
    )
}

/// Whether `drawn` is `regions` from the largest to the smallest, equal ones as
/// they come, and no more of them than fit.
pub open spec fn is_largest_first(regions: Seq<Region>, drawn: Seq<Region>) -> bool {
    exists|order: Seq<usize>| #[trigger]
        is_stable_order(region_keys(regions), order) && order.no_duplicates() && drawn
            == Seq::new(
            min_int(regions.len() as int, MAX_REGIONS as int) as nat,
            |i: int| regions[order[i] as int],
        )
}

/// A width or height, as far as an edge can tell it.
pub open spec fn extent(v: u32) -> int {
    min_int(v as int, i32::MAX as int)
}

fn extent_i32(v: u32) -> (result: i32)
    ensures
        result == extent(v),
{
    if v > 0x7fff_ffff {
        0x7fff_ffff
    } else {
        v as i32
    }
}

fn find_slot(slots: &Vec<(UiElementKind, u32)>, kind: UiElementKind) -> (result: Option<u32>)
    ensures
        result == slot_for(slots@, kind, 0),
{
    let mut i: usize = 0;
    while i < slots.len()
        invariant
            i <= slots@.len(),
            slot_for(slots@, kind, i as int) == slot_for(slots@, kind, 0),
        decreases slots@.len() - i,
    {
        if slots[i].0 == kind {
            return Some(slots[i].1);
        }
        i = i + 1;
    }
    None
}

/// How the parts of a window are drawn: those that the theme draws in its own
/// way, as far as they are seen in what is drawn, the largest first, so that a
/// part within another comes after it.
pub fn element_regions(theme: &ColorTheme, elements: &Vec<ElementRect>, size: (u32, u32)) -> (result:
    Vec<([i32; 4], u32)>)
    requires
        theme.wf(),
    ensures
        is_largest_first(
            regions_of(element_slots_of(*theme), elements@, extent(size.0), extent(size.1)),
            drawn_regions(result@),
        ),
{
    let slots = element_slots(theme);
    let width: i32 = extent_i32(size.0);
    let height: i32 = extent_i32(size.1);
    let mut regions: Vec<([i32; 4], u32)> = Vec::new();
    let mut keys: Vec<u64> = Vec::new();
    let ghost w = width as int;
    let ghost h = height as int;
    let mut i: usize = 0;
    proof {
        assert(elements@.subrange(0, 0) =~= Seq::<ElementRect>::empty());
        assert(drawn_regions(regions@) =~= Seq::<Region>::empty());
        assert(keys@ =~= region_keys(Seq::<Region>::empty()));
    }
    while i < elements.len()
        invariant
            i <= elements@.len(),
            w == width,
            h == height,
            drawn_regions(regions@) == regions_of(slots@, elements@.subrange(0, i as int), w, h),
            keys@ == region_keys(drawn_regions(regions@)),
        decreases elements@.len() - i,
    {
        let e = &elements[i];
        proof {
            let next = elements@.subrange(0, i + 1);
            assert(next.drop_last() =~= elements@.subrange(0, i as int));
            assert(next.last() == *e);
        }
        if let Some(slot) = find_slot(&slots, e.kind) {
            let left: i32 = max_i32(e.ltrb[0], 0);
            let top: i32 = max_i32(e.ltrb[1], 0);
            let right: i32 = min_i32(e.ltrb[2], width);
            let bottom: i32 = min_i32(e.ltrb[3], height);
            if left < right && top < bottom {
                let across: u64 = (right - left) as u64;
                let down: u64 = (bottom - top) as u64;
                proof {
                    assert(across * down <= 0x7fff_ffff * 0x7fff_ffff) by (nonlinear_arith)
                        requires
                            0 <= across <= 0x7fff_ffff,
                            0 <= down <= 0x7fff_ffff,
                    ;
                }
                let key: u64 = u64::MAX - across * down;
                let ltrb: [i32; 4] = [left, top, right, bottom];
                let ghost before = regions@;
                let ghost before_keys = keys@;
                regions.push((ltrb, slot));
                keys.push(key);
                proof {
                    let r = Region { ltrb: clipped(e.ltrb@, w, h), slot };
                    assert(ltrb@.map_values(|x: i32| x as int) =~= r.ltrb);
                    assert(drawn_regions(regions@) =~= drawn_regions(before).push(r));
                    assert(region_area(r) == across * down);
                    assert(keys@ =~= region_keys(drawn_regions(regions@)));
                }
            }
        }
        i = i + 1;
    }
    proof {
        assert(elements@.subrange(0, i as int) =~= elements@);
    }
    let order = stable_order(&keys);
    let mut result: Vec<([i32; 4], u32)> = Vec::new();
    let mut k: usize = 0;
    while k < order.len() && k < MAX_REGIONS
        invariant
            k <= order@.len(),
            k <= MAX_REGIONS,
            is_stable_order(keys@, order@),
            keys@.len() == regions@.len(),
            result@.len() == k,
            forall|j: int| 0 <= j < k ==> #[trigger] result@[j] == regions@[order@[j] as int],
        decreases order@.len() - k,
    {
        let r = regions[order[k]];
        result.push(r);
        k = k + 1;
    }
    proof {
        let all = drawn_regions(regions@);
        assert(drawn_regions(result@) =~= Seq::new(
            min_int(all.len() as int, MAX_REGIONS as int) as nat,
            |i: int| all[order@[i] as int],
        ));
    }
    result
}

proof fn lemma_regions_within(
    slots: Seq<(UiElementKind, u32)>,
    elements: Seq<ElementRect>,
    width: int,
    height: int,
    k: int,
)
    requires
        0 <= k < regions_of(slots, elements, width, height).len(),
    ensures
        ({
            let r = regions_of(slots, elements, width, height)[k];
            &&& r.ltrb.len() == 4
            &&& 0 <= r.ltrb[0] < r.ltrb[2] <= width
            &&& 0 <= r.ltrb[1] < r.ltrb[3] <= height
        }),
    decreases elements.len(),
{
    let rest = regions_of(slots, elements.drop_last(), width, height);
    if k < rest.len() {
        lemma_regions_within(slots, elements.drop_last(), width, height, k);
    }
}

/// What is drawn lies within the frame, there is never more of it than fits,
/// and no part is drawn before a larger one.
pub proof fn regions_fit_and_nest(
    slots: Seq<(UiElementKind, u32)>,
    elements: Seq<ElementRect>,
    width: int,
    height: int,
    drawn: Seq<Region>,
    a: int,
    b: int,
)
    requires
        0 <= width <= i32::MAX,
        0 <= height <= i32::MAX,
        is_largest_first(regions_of(slots, elements, width, height), drawn),
        0 <= a < b < drawn.len(),
    ensures
        drawn.len() <= MAX_REGIONS,
        0 <= drawn[a].ltrb[0] < drawn[a].ltrb[2] <= width,
        0 <= drawn[a].ltrb[1] < drawn[a].ltrb[3] <= height,
        region_area(drawn[b]) <= region_area(drawn[a]),
{
    let all = regions_of(slots, elements, width, height);
    let keys = region_keys(all);
    let order = choose|order: Seq<usize>| #[trigger]
        is_stable_order(keys, order) && order.no_duplicates() && drawn == Seq::new(
            min_int(all.len() as int, MAX_REGIONS as int) as nat,
            |i: int| all[order[i] as int],
        );
    let x = order[a] as int;
    let y = order[b] as int;
    assert(order[a] < keys.len() && order[b] < keys.len());
    lemma_regions_within(slots, elements, width, height, x);
    lemma_regions_within(slots, elements, width, height, y);
    assert(drawn[a] == all[x] && drawn[b] == all[y]);
    lemma_area_bound(all[x].ltrb[2] - all[x].ltrb[0], all[x].ltrb[3] - all[x].ltrb[1]);
    lemma_area_bound(all[y].ltrb[2] - all[y].ltrb[0], all[y].ltrb[3] - all[y].ltrb[1]);
    assert(keys[x] == u64::MAX - region_area(all[x]));
    assert(keys[y] == u64::MAX - region_area(all[y]));
}

proof fn lemma_area_bound(w: int, h: int)
    by (nonlinear_arith)
    requires
        0 <= w <= i32::MAX,
        0 <= h <= i32::MAX,
    ensures
        0 <= w * h <= u64::MAX,
{
}

/// Each kind has a place of its own among all kinds.
pub proof fn kinds_have_their_places(a: UiElementKind, b: UiElementKind)
    ensures
        a.spec_rank() == b.spec_rank() ==> a == b,
        a.spec_rank() <= 16,
        FilterConstants::spec_identity().key == 0,
{
}

/// What is laid down for a kind takes the place of what was laid down for it
/// before, and leaves everything else.
pub proof fn entries_replace_those_of_their_kind(
    elements: Seq<ElementEntry>,
    e: ElementEntry,
    x: ElementEntry,
)
    requires
        is_kind_ordered(elements),
    ensures
        with_entry(elements, e).contains(e),
        x.kind == e.kind && with_entry(elements, e).contains(x) ==> x == e,
        x.kind != e.kind ==> (with_entry(elements, e).contains(x) <==> elements.contains(x)),
    decreases elements.len(),
{
    let w = with_entry(elements, e);
    if elements.len() == 0 {
        assert(w[0] == e);
    } else {
        let last = elements.last();
        let rest = elements.drop_last();
        assert(is_kind_ordered(rest));
        assert(elements[elements.len() - 1] == last);
        kinds_have_their_places(last.kind, e.kind);
        kinds_have_their_places(x.kind, e.kind);
        if elements.contains(x) {
            let k = choose|k: int| 0 <= k < elements.len() && elements[k] == x;
            if k < rest.len() {
                assert(rest[k] == x);
                assert(elements[k].kind.spec_rank() < elements[elements.len() - 1].kind.spec_rank());
            }
        }
        if rest.contains(x) {
            let k = choose|k: int| 0 <= k < rest.len() && rest[k] == x;
            assert(elements[k] == x);
            assert(elements[k].kind.spec_rank() < elements[elements.len() - 1].kind.spec_rank());
        }
        if last.kind.spec_rank() < e.kind.spec_rank() {
            assert(w == elements.push(e));
            assert(w[elements.len() as int] == e);
            if w.contains(x) {
                let k = choose|k: int| 0 <= k < w.len() && w[k] == x;
                if k < elements.len() {
                    assert(elements[k] == x);
                }
            }
            if elements.contains(x) {
                let k = choose|k: int| 0 <= k < elements.len() && elements[k] == x;
                assert(w[k] == x);
            }
        } else if last.kind == e.kind {
            assert(w == rest.push(e));
            assert(w[rest.len() as int] == e);
            if w.contains(x) {
                let k = choose|k: int| 0 <= k < w.len() && w[k] == x;
                if k < rest.len() {
                    assert(rest[k] == x);
                }
            }
            if rest.contains(x) {
                let k = choose|k: int| 0 <= k < rest.len() && rest[k] == x;
                assert(w[k] == x);
            }
        } else {
            entries_replace_those_of_their_kind(rest, e, x);
            let inner = with_entry(rest, e);
            assert(w == inner.push(last));
            assert(w[inner.len() as int] == last);
            let i = choose|i: int| 0 <= i < inner.len() && inner[i] == e;
            assert(w[i] == e);
            if w.contains(x) {
                let k = choose|k: int| 0 <= k < w.len() && w[k] == x;
                if k < inner.len() {
                    assert(inner[k] == x);
                }
            }
            if inner.contains(x) {
                let k = choose|k: int| 0 <= k < inner.len() && inner[k] == x;
                assert(w[k] == x);
            }
        }
    }
}

/// Of two entries for a kind the later one counts, and those for other kinds
/// stay. The kinds come in their order.
pub proof fn later_entries_count(elements: Seq<ElementEntry>, e: ElementEntry, x: ElementEntry)
    ensures
        kind_ordered(Seq::empty()) == Seq::<ElementEntry>::empty(),
        kind_ordered(elements.push(e)).contains(e),
        x.kind == e.kind && kind_ordered(elements.push(e)).contains(x) ==> x == e,
        x.kind != e.kind ==> (kind_ordered(elements.push(e)).contains(x) <==> kind_ordered(
            elements,
        ).contains(x)),
        forall|a: int, b: int|
            #![trigger kind_ordered(elements)[a], kind_ordered(elements)[b]]
            0 <= a < b < kind_ordered(elements).len() ==> kind_ordered(elements)[a].kind.spec_rank()
                < kind_ordered(elements)[b].kind.spec_rank(),
{
    assert(elements.push(e).drop_last() =~= elements);
    lemma_kind_ordered(elements);
    entries_replace_those_of_their_kind(kind_ordered(elements), e, x);
}

/// The filters of a theme are those that its elements use besides its own, each
/// once.
pub proof fn filters_are_listed_once(elements: Seq<ElementEntry>, own: ColorFilter, f: ColorFilter)
    ensures
        distinct_filters(elements, own).no_duplicates(),
        distinct_filters(elements, own).contains(f) <==> f != own && exists|k: int|
            0 <= k < elements.len() && (#[trigger] elements[k]).treatment
                == ElementTreatment::Filter(f),
    decreases elements.len(),
{
    if elements.len() > 0 {
        let rest = elements.drop_last();
        filters_are_listed_once(rest, own, f);
        let before = distinct_filters(rest, own);
        let all = distinct_filters(elements, own);
        if exists|k: int| 0 <= k < rest.len() && (#[trigger] rest[k]).treatment
            == ElementTreatment::Filter(f) {
            let k = choose|k: int| 0 <= k < rest.len() && (#[trigger] rest[k]).treatment
                == ElementTreatment::Filter(f);
            assert(elements[k].treatment == ElementTreatment::Filter(f));
        }
        if exists|k: int| 0 <= k < elements.len() && (#[trigger] elements[k]).treatment
            == ElementTreatment::Filter(f) {
            let k = choose|k: int| 0 <= k < elements.len() && (#[trigger] elements[k]).treatment
                == ElementTreatment::Filter(f);
            if k < rest.len() {
                assert(rest[k].treatment == ElementTreatment::Filter(f));
            }
        }
        assert(elements[elements.len() - 1] == elements.last());
        if all.contains(f) {
            let k = choose|k: int| 0 <= k < all.len() && all[k] == f;
            if k < before.len() {
                assert(before[k] == f);
            }
        }
        if before.contains(f) {
            let k = choose|k: int| 0 <= k < before.len() && before[k] == f;
            assert(all[k] == f);
        }
        if elements.last().treatment == ElementTreatment::Filter(f) && f != own && !before.contains(f) {
            assert(all[before.len() as int] == f);
        }
    }
}

/// The first slot holds the filter of the theme, those behind it the filters of
/// its elements, and the rest nothing.
pub proof fn slots_hold_the_filters(theme: ColorTheme, i: int)
    requires
        theme.filters().len() <= 7,
    ensures
        slots_of(theme).len() == 8,
        slots_of(theme)[0] == theme.options.filter.constants,
        0 <= i < theme.filters().len() ==> slots_of(theme)[i + 1] == theme.filters()[i].constants,
        theme.filters().len() < i < 8 ==> slots_of(theme)[i].key == 0,
        slot_of(theme, ElementTreatment::Original) == 0xffff_ffff,
        !theme.filters().contains(theme.options.filter) ==> slot_of(
            theme,
            ElementTreatment::Filter(theme.options.filter),
        ) == 0,
        MAX_ELEMENT_FILTERS == 7,
        element_slots_of(theme).len() == theme.options.elements@.len(),
        0 <= i < theme.options.elements@.len() ==> element_slots_of(theme)[i] == (
            theme.options.elements@[i].kind,
            slot_of(theme, theme.options.elements@[i].treatment),
        ),
{
    let own = theme.options.filter;
    lemma_filter_index(theme.filters(), own, 0);
    if filter_index(theme.filters(), own, 0) is Some {
        assert(theme.filters()[filter_index(theme.filters(), own, 0)->0] == own);
    }
}

proof fn lemma_slot_for(slots: Seq<(UiElementKind, u32)>, kind: UiElementKind, i: int, k: int)
    requires
        0 <= i <= k <= slots.len(),
        forall|j: int| i <= j < k ==> (#[trigger] slots[j]).0 != kind,
    ensures
        k < slots.len() && slots[k].0 == kind ==> slot_for(slots, kind, i) == Some(slots[k].1),
        k == slots.len() ==> slot_for(slots, kind, i) is None,
    decreases slots.len() - i,
{
    if i < k {
        assert(slots[i].0 != kind);
        lemma_slot_for(slots, kind, i + 1, k);
    }
}

/// An element is drawn in the slot of its kind, cut to the frame. One whose kind
/// has no slot, or of which nothing is in the frame, is not drawn in its own
/// way.
pub proof fn elements_are_drawn_in_the_slot_of_their_kind(
    slots: Seq<(UiElementKind, u32)>,
    e: ElementRect,
    width: int,
    height: int,
    k: int,
)
    requires
        0 <= k <= slots.len(),
        forall|j: int| 0 <= j < k ==> (#[trigger] slots[j]).0 != e.kind,
        k < slots.len() ==> slots[k].0 == e.kind,
    ensures
        ({
            let l = if e.ltrb@[0] < 0 {
                0
            } else {
                e.ltrb@[0] as int
            };
            let t = if e.ltrb@[1] < 0 {
                0
            } else {
                e.ltrb@[1] as int
            };
            let r = if e.ltrb@[2] < width {
                e.ltrb@[2] as int
            } else {
                width
            };
            let b = if e.ltrb@[3] < height {
                e.ltrb@[3] as int
            } else {
                height
            };
            region_of(slots, e, width, height) == (if k < slots.len() && l < r && t < b {
                Some(Region { ltrb: seq![l, t, r, b], slot: slots[k].1 })
            } else {
                None
            })
        }),
{
    lemma_slot_for(slots, e.kind, 0, k);
}

/// Elements are looked at in turn, and those that are not drawn in their own way
/// are passed over.
pub proof fn elements_are_looked_at_in_turn(
    slots: Seq<(UiElementKind, u32)>,
    elements: Seq<ElementRect>,
    e: ElementRect,
    width: int,
    height: int,
)
    ensures
        regions_of(slots, Seq::empty(), width, height) == Seq::<Region>::empty(),
        region_of(slots, e, width, height) is None ==> regions_of(
            slots,
            elements.push(e),
            width,
            height,
        ) == regions_of(slots, elements, width, height),
        region_of(slots, e, width, height) matches Some(r) ==> regions_of(
            slots,
            elements.push(e),
            width,
            height,
        ) == regions_of(slots, elements, width, height).push(r),
{
    assert(elements.push(e).drop_last() =~= elements);
}

/// As many regions are drawn as fit, all of them if there are no more than
/// sixty-four, and each is one of the regions.
pub proof fn regions_are_drawn_as_far_as_they_fit(
    regions: Seq<Region>,
    drawn: Seq<Region>,
    i: int,
    v: u32,
)
    requires
        is_largest_first(regions, drawn),
    ensures
        regions.len() <= 64 ==> drawn.len() == regions.len(),
        regions.len() > 64 ==> drawn.len() == 64,
        0 <= i < drawn.len() ==> regions.contains(drawn[i]),
        v <= i32::MAX ==> extent(v) == v,
        v > i32::MAX ==> extent(v) == i32::MAX,
        forall|r: Region| #[trigger]
            region_area(r) == (r.ltrb[2] - r.ltrb[0]) * (r.ltrb[3] - r.ltrb[1]),
{
    let order = choose|order: Seq<usize>| #[trigger]
        is_stable_order(region_keys(regions), order) && order.no_duplicates() && drawn == Seq::new(
            min_int(regions.len() as int, MAX_REGIONS as int) as nat,
            |i: int| regions[order[i] as int],
        );
    if 0 <= i < drawn.len() {
        assert(order[i] < region_keys(regions).len());
        assert(drawn[i] == regions[order[i] as int]);
    }
}

} // verus!
