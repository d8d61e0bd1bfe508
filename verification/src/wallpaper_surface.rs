//! Pictures of the desktop, drawn once and used by all windows over it.
//!
//! The numbers that a picture is drawn with are given in millionths.

use vstd::prelude::*;

use crate::geometry::Rect;
use crate::wallpaper::{DesktopSignature, MonitorWallpaper, SignatureView, WallpaperView};

verus! {

/// The most pictures that are kept.
pub const MAX_CACHED_SURFACES: usize = 4;

/// How long a change of the desktop can go unnoticed, in milliseconds.
pub const POLL_INTERVAL: u64 = 2000;

/// What leaves the colors of a picture as they are.
pub const NEUTRAL_SATURATION: i64 = 1_000_000;

/// The numbers that a picture is drawn with.
#[derive(Clone, Copy, Debug, PartialEq, Eq, Structural)]
pub struct BakeKnobs {
    pub blur_amount: i64,
    pub saturation: i64,
    pub exposure: i64,
    pub contrast: i64,
    pub highlights: i64,
    pub shadows: i64,
    pub grain: i64,
}

/// Everything that decides how a picture looks.
#[derive(Debug)]
pub struct WallpaperKey {
    pub wallpaper: MonitorWallpaper,
    pub knobs: BakeKnobs,
}

/// The same, as plain values.
pub struct KeyView {
    pub wallpaper: WallpaperView,
    pub knobs: BakeKnobs,
}

impl View for WallpaperKey {
    type V = KeyView;

    open spec fn view(&self) -> KeyView {
        KeyView { wallpaper: self.wallpaper@, knobs: self.knobs }
    }
}

/// A picture that is kept, by the number that it goes by.
#[derive(Debug)]
pub struct CachedSurface {
    pub key: WallpaperKey,
    pub surface: u64,
    /// When it was used last.
    pub last_used: u64,
}

/// The same, as plain values.
pub struct SurfaceView {
    pub key: KeyView,
    pub surface: u64,
    pub last_used: u64,
}

impl View for CachedSurface {
    type V = SurfaceView;

    open spec fn view(&self) -> SurfaceView {
        SurfaceView { key: self.key@, surface: self.surface, last_used: self.last_used }
    }
}

/// The pictures that are kept.
#[derive(Debug)]
pub struct SurfaceCache {
    pub entries: Vec<CachedSurface>,
    /// Counts the uses.
    pub clock: u64,
}

/// The entries of a cache as plain values.
pub open spec fn views(entries: Seq<CachedSurface>) -> Seq<SurfaceView> {
    entries.map_values(|e: CachedSurface| e@)
}

/// The place of the first entry for `key`.
pub open spec fn place_of(entries: Seq<SurfaceView>, key: KeyView) -> Option<int>
    decreases entries.len(),
{
    if entries.len() == 0 {
        None
    } else {
        match place_of(entries.drop_last(), key) {
            Some(i) => Some(i),
            None => if entries.last().key == key {
                Some(entries.len() - 1)
            } else {
                None
            },
        }
    }
}

proof fn lemma_place(entries: Seq<SurfaceView>, key: KeyView)
    ensures
        match place_of(entries, key) {
            Some(i) => {
                &&& 0 <= i < entries.len()
                &&& entries[i].key == key
                &&& forall|k: int| 0 <= k < i ==> (#[trigger] entries[k]).key != key
            },
            None => forall|k: int| 0 <= k < entries.len() ==> (#[trigger] entries[k]).key != key,
        },
    decreases entries.len(),
{
    if entries.len() > 0 {
        let rest = entries.drop_last();
        lemma_place(rest, key);
        assert forall|k: int| 0 <= k < rest.len() implies rest[k] == entries[k] by {}
        if place_of(rest, key) is None {
            assert forall|k: int| 0 <= k < rest.len() implies (#[trigger] entries[k]).key
                != key by {
                assert(rest[k].key != key);
            }
        } else {
            let i = place_of(rest, key)->0;
            assert forall|k: int| 0 <= k < i implies (#[trigger] entries[k]).key != key by {
                assert(rest[k].key != key);
            }
        }
    }
}

/// Picks the entries that a new picture for `key` does not replace: those of
/// other monitors and those drawn with other numbers.
pub open spec fn not_replaced(key: KeyView) -> spec_fn(SurfaceView) -> bool {
    |e: SurfaceView|
        e.key.wallpaper.monitor != key.wallpaper.monitor || e.key.knobs != key.knobs
}

/// The place of the first entry that was used longest ago.
pub open spec fn oldest(entries: Seq<SurfaceView>) -> int
    decreases entries.len(),
{
    if entries.len() <= 1 {
        0
    } else {
        let i = oldest(entries.drop_last());
        if entries.last().last_used < entries[i].last_used {
            entries.len() - 1
        } else {
            i
        }
    }
}

/// The entries without those used longest ago, down to the most that are kept.
pub open spec fn trimmed(entries: Seq<SurfaceView>) -> Seq<SurfaceView>
    decreases entries.len(),
{
    if entries.len() <= MAX_CACHED_SURFACES {
        entries
    } else {
        proof {
            lemma_oldest(entries);
        }
        trimmed(entries.remove(oldest(entries)))
    }
}

/// The entries after a new picture for `key` has been kept.
pub open spec fn after_insert(entries: Seq<SurfaceView>, new: SurfaceView) -> Seq<SurfaceView> {
    trimmed(entries.filter(not_replaced(new.key)).push(new))
}

pub proof fn lemma_oldest(entries: Seq<SurfaceView>)
    requires
        entries.len() > 0,
    ensures
        0 <= oldest(entries) < entries.len(),
        forall|k: int|
            0 <= k < entries.len() ==> entries[oldest(entries)].last_used <= (
            #[trigger] entries[k]).last_used,
    decreases entries.len(),
{
    if entries.len() > 1 {
        let rest = entries.drop_last();
        lemma_oldest(rest);
        assert forall|k: int| 0 <= k < entries.len() implies entries[oldest(entries)].last_used
            <= (#[trigger] entries[k]).last_used by {
            if k < rest.len() {
                assert(rest[k] == entries[k]);
            }
        }
    }
}

/// What a request for a picture comes down to: the picture, if it is kept, and
/// the time of the request.
#[derive(Clone, Copy, Debug, PartialEq, Eq, Structural)]
pub struct Lookup {
    pub surface: Option<u64>,
    pub now: u64,
}

impl SurfaceCache {
    pub fn new() -> (cache: SurfaceCache)
        ensures
            cache.entries@.len() == 0,
            cache.clock == 0,
    {
        SurfaceCache { entries: Vec::new(), clock: 0 }
    }

    pub open spec fn wf(self) -> bool {
        &&& self.entries@.len() <= MAX_CACHED_SURFACES
        &&& forall|k: int|
            0 <= k < self.entries@.len() ==> (#[trigger] self.entries@[k]).last_used < self.clock
    }

    /// Asks for the picture for `key`. One that is kept counts as used.
    pub fn look_up(&mut self, key: &WallpaperKey) -> (result: Lookup)
        requires
            old(self).wf(),
            old(self).clock < u64::MAX,
        ensures
            final(self).wf(),
            result.now == old(self).clock,
            final(self).clock == old(self).clock + 1,
            ({
                let before = views(old(self).entries@);
                match place_of(before, key@) {
                    Some(i) => {
                        &&& result.surface == Some(before[i].surface)
                        &&& views(final(self).entries@) == before.update(
                            i,
                            SurfaceView { last_used: old(self).clock, ..before[i] },
                        )
                    },
                    None => {
                        &&& result.surface is None
                        &&& views(final(self).entries@) == before
                    },
                }
            }),
    {
        let now: u64 = self.clock;
        let ghost before = views(self.entries@);
        proof {
            lemma_place(before, key@);
        }
        self.clock = self.clock + 1;
        let mut i: usize = 0;
        while i < self.entries.len()
            invariant
                i <= self.entries@.len(),
                self.entries@ == old(self).entries@,
                self.clock == old(self).clock + 1,
                now == old(self).clock,
                before == views(old(self).entries@),
                old(self).wf(),
                forall|k: int| 0 <= k < i ==> (#[trigger] before[k]).key != key@,
            decreases self.entries@.len() - i,
        {
            if same_key(&self.entries[i].key, key) {
                proof {
                    lemma_place(before, key@);
                    assert(before[i as int].key == key@);
                    assert(place_of(before, key@) == Some(i as int));
                }
                self.entries[i].last_used = now;
                proof {
                    assert(views(self.entries@) =~= before.update(
                        i as int,
                        SurfaceView { last_used: now, ..before[i as int] },
                    ));
                }
                return Lookup { surface: Some(self.entries[i].surface), now };
            }
            i = i + 1;
        }
        proof {
            lemma_place(before, key@);
        }
        Lookup { surface: None, now }
    }

    /// Keeps a picture that was drawn for `key`, asked for at `now`. It takes
    /// the place of the one drawn with the same numbers for the same monitor;
    /// beyond the most that are kept, those used longest ago go.
    pub fn insert(&mut self, key: WallpaperKey, surface: u64, now: u64)
        requires
            old(self).wf(),
            now < old(self).clock,
        ensures
            final(self).wf(),
            final(self).clock == old(self).clock,
            views(final(self).entries@) == after_insert(
                views(old(self).entries@),
                SurfaceView { key: key@, surface, last_used: now },
            ),
    {
        let ghost new = SurfaceView { key: key@, surface, last_used: now };
        self.drop_replaced(&key);
        let ghost kept = views(self.entries@);
        self.entries.push(CachedSurface { key, surface, last_used: now });
        proof {
            assert(views(self.entries@) =~= kept.push(new));
        }
        while self.entries.len() > MAX_CACHED_SURFACES
            invariant
                self.clock == old(self).clock,
                forall|k: int|
                    0 <= k < self.entries@.len() ==> (#[trigger] self.entries@[k]).last_used
                        < self.clock,
                trimmed(views(self.entries@)) == after_insert(views(old(self).entries@), new),
            decreases self.entries@.len(),
        {
            let ghost before = views(self.entries@);
            let at: usize = self.find_oldest();
            let gone = self.entries.remove(at);
            proof {
                assert(views(self.entries@) =~= before.remove(at as int));
            }
        }
    }

    /// The place of the first entry that was used longest ago.
    fn find_oldest(&self) -> (result: usize)
        requires
            self.entries@.len() > 0,
        ensures
            result == oldest(views(self.entries@)),
            result < self.entries@.len(),
    {
        let ghost all = views(self.entries@);
        let mut at: usize = 0;
        let mut i: usize = 1;
        proof {
            assert(all.subrange(0, 1).len() == 1);
        }
        while i < self.entries.len()
            invariant
                1 <= i <= self.entries@.len(),
                at < i,
                all == views(self.entries@),
                at == oldest(all.subrange(0, i as int)),
            decreases self.entries@.len() - i,
        {
            proof {
                let next = all.subrange(0, i + 1);
                assert(next.drop_last() =~= all.subrange(0, i as int));
                assert(next.last() == all[i as int]);
                assert(next[at as int] == all[at as int]);
            }
            if self.entries[i].last_used < self.entries[at].last_used {
                at = i;
            }
            i = i + 1;
        }
        proof {
            assert(all.subrange(0, i as int) =~= all);
        }
        at
    }

    /// Lets go of what a new picture for `key` replaces.
    fn drop_replaced(&mut self, key: &WallpaperKey)
        requires
            old(self).wf(),
        ensures
            final(self).clock == old(self).clock,
            views(final(self).entries@) == views(old(self).entries@).filter(not_replaced(key@)),
            final(self).entries@.len() <= MAX_CACHED_SURFACES,
            forall|k: int|
                0 <= k < final(self).entries@.len() ==> (#[trigger] final(
                    self).entries@[k]).last_used < final(self).clock,
    {
        let ghost before = views(self.entries@);
        let ghost pred = not_replaced(key@);
        let ghost mut seen: int = 0;
        let mut i: usize = 0;
        proof {
            reveal(Seq::filter);
            assert(before.subrange(0, 0) =~= Seq::<SurfaceView>::empty());
            assert(before =~= before.subrange(0, 0).filter(pred) + before.subrange(
                0,
                before.len() as int,
            ));
        }
        while i < self.entries.len()
            invariant
                0 <= seen <= before.len(),
                pred == not_replaced(key@),
                i == before.subrange(0, seen).filter(pred).len(),
                views(self.entries@) == before.subrange(0, seen).filter(pred) + before.subrange(
                    seen,
                    before.len() as int,
                ),
                self.clock == old(self).clock,
                before == views(old(self).entries@),
                self.entries@.len() <= MAX_CACHED_SURFACES,
                forall|k: int|
                    0 <= k < self.entries@.len() ==> (#[trigger] self.entries@[k]).last_used
                        < self.clock,
            decreases self.entries@.len() - i,
        {
            let ghost kept = before.subrange(0, seen).filter(pred);
            proof {
                reveal(Seq::filter);
                let next = before.subrange(0, seen + 1);
                assert(next.drop_last() =~= before.subrange(0, seen));
                assert(next.last() == before[seen]);
                assert(views(self.entries@)[i as int] == before[seen]);
            }
            let replaced: bool = self.entries[i].key.wallpaper.monitor == key.wallpaper.monitor
                && self.entries[i].key.knobs == key.knobs;
            if replaced {
                let ghost prev = self.entries@;
                let gone = self.entries.remove(i);
                proof {
                    assert(self.entries@ =~= prev.remove(i as int));
                    assert(views(self.entries@) =~= views(prev).remove(i as int));
                    assert(views(self.entries@) =~= kept + before.subrange(
                        seen + 1,
                        before.len() as int,
                    ));
                }
            } else {
                proof {
                    assert(views(self.entries@) =~= kept.push(before[seen]) + before.subrange(
                        seen + 1,
                        before.len() as int,
                    ));
                }
                i = i + 1;
            }
            proof {
                seen = seen + 1;
            }
        }
        proof {
            assert(seen == before.len());
            assert(before.subrange(0, seen) =~= before);
            assert(views(self.entries@) =~= before.filter(pred));
        }
    }
}

fn same_key(a: &WallpaperKey, b: &WallpaperKey) -> (result: bool)
    ensures
        result == (a@ == b@),
{
    a.wallpaper.same(&b.wallpaper) && a.knobs == b.knobs
}

/// What was read of a monitor, and at which generation.
#[derive(Debug)]
pub struct MemoEntry {
    pub monitor: Rect,
    pub generation: u64,
    pub wallpaper: MonitorWallpaper,
}

/// The same, as plain values.
pub struct MemoView {
    pub monitor: Rect,
    pub generation: u64,
    pub wallpaper: WallpaperView,
}

impl View for MemoEntry {
    type V = MemoView;

    open spec fn view(&self) -> MemoView {
        MemoView {
            monitor: self.monitor,
            generation: self.generation,
            wallpaper: self.wallpaper@,
        }
    }
}

/// What was read of each monitor.
#[derive(Debug)]
pub struct WallpaperMemo {
    pub entries: Vec<MemoEntry>,
}

/// The entries of a memo as plain values.
pub open spec fn memo_views(entries: Seq<MemoEntry>) -> Seq<MemoView> {
    entries.map_values(|e: MemoEntry| e@)
}

/// What was read of `monitor` at `generation`, if anything was.
pub open spec fn remembered(
    entries: Seq<MemoView>,
    monitor: Rect,
    generation: u64,
) -> Option<WallpaperView>
    decreases entries.len(),
{
    if entries.len() == 0 {
        None
    } else if entries[0].monitor == monitor && entries[0].generation == generation {
        Some(entries[0].wallpaper)
    } else {
        remembered(entries.drop_first(), monitor, generation)
    }
}

/// Picks what was read of other monitors.
pub open spec fn of_others(monitor: Rect) -> spec_fn(MemoView) -> bool {
    |e: MemoView| e.monitor != monitor
}

impl WallpaperMemo {
    pub fn new() -> (memo: WallpaperMemo)
        ensures
            memo.entries@.len() == 0,
    {
        WallpaperMemo { entries: Vec::new() }
    }

    /// What is known of `monitor` at `generation`; nothing if it has to be
    /// read.
    pub fn get(&self, monitor: &Rect, generation: u64) -> (result: Option<MonitorWallpaper>)
        ensures
            (match result {
                Some(w) => Some(w@),
                None => None,
            }) == remembered(memo_views(self.entries@), *monitor, generation),
    {
        let ghost all = memo_views(self.entries@);
        let mut i: usize = 0;
        proof {
            assert(all.subrange(0, all.len() as int) =~= all);
        }
        while i < self.entries.len()
            invariant
                i <= self.entries@.len(),
                all == memo_views(self.entries@),
                remembered(all.subrange(i as int, all.len() as int), *monitor, generation)
                    == remembered(all, *monitor, generation),
            decreases self.entries@.len() - i,
        {
            proof {
                let rest = all.subrange(i as int, all.len() as int);
                assert(rest[0] == all[i as int]);
                assert(rest.drop_first() =~= all.subrange(i + 1, all.len() as int));
            }
            if self.entries[i].monitor == *monitor && self.entries[i].generation == generation {
                return Some(self.entries[i].wallpaper.copy());
            }
            i = i + 1;
        }
        proof {
            assert(all.subrange(i as int, all.len() as int) =~= Seq::<MemoView>::empty());
        }
        None
    }

    /// Remembers what was read of `monitor` at `generation`, in place of what
    /// was read of it before.
    pub fn put(&mut self, monitor: &Rect, generation: u64, wallpaper: MonitorWallpaper)
        ensures
            memo_views(final(self).entries@) == memo_views(old(self).entries@).filter(
                of_others(*monitor),
            ).push(MemoView { monitor: *monitor, generation, wallpaper: wallpaper@ }),
    {
        let ghost before = memo_views(self.entries@);
        let ghost pred = of_others(*monitor);
        let ghost mut seen: int = 0;
        let mut i: usize = 0;
        proof {
            reveal(Seq::filter);
            assert(before.subrange(0, 0) =~= Seq::<MemoView>::empty());
            assert(before =~= before.subrange(0, 0).filter(pred) + before.subrange(
                0,
                before.len() as int,
            ));
        }
        while i < self.entries.len()
            invariant
                0 <= seen <= before.len(),
                pred == of_others(*monitor),
                i == before.subrange(0, seen).filter(pred).len(),
                memo_views(self.entries@) == before.subrange(0, seen).filter(pred)
                    + before.subrange(seen, before.len() as int),
                before == memo_views(old(self).entries@),
            decreases self.entries@.len() - i,
        {
            let ghost kept = before.subrange(0, seen).filter(pred);
            proof {
                reveal(Seq::filter);
                let next = before.subrange(0, seen + 1);
                assert(next.drop_last() =~= before.subrange(0, seen));
                assert(next.last() == before[seen]);
                assert(memo_views(self.entries@)[i as int] == before[seen]);
            }
            if self.entries[i].monitor == *monitor {
                let ghost prev = self.entries@;
                let gone = self.entries.remove(i);
                proof {
                    assert(self.entries@ =~= prev.remove(i as int));
                    assert(memo_views(self.entries@) =~= memo_views(prev).remove(i as int));
                    assert(memo_views(self.entries@) =~= kept + before.subrange(
                        seen + 1,
                        before.len() as int,
                    ));
                }
            } else {
                proof {
                    assert(memo_views(self.entries@) =~= kept.push(before[seen])
                        + before.subrange(seen + 1, before.len() as int));
                }
                i = i + 1;
            }
            proof {
                seen = seen + 1;
            }
        }
        proof {
            assert(seen == before.len());
            assert(before.subrange(0, seen) =~= before);
            assert(memo_views(self.entries@) =~= before.filter(pred));
        }
        let ghost kept = memo_views(self.entries@);
        let ghost new = MemoView { monitor: *monitor, generation, wallpaper: wallpaper@ };
        self.entries.push(MemoEntry { monitor: *monitor, generation, wallpaper });
        proof {
            assert(memo_views(self.entries@) =~= kept.push(new));
        }
    }
}

/// What is watched of the desktop.
#[derive(Debug)]
pub struct DesktopWatch {
    /// Counts the changes.
    pub generation: u64,
    /// When the desktop was looked at last, in milliseconds.
    pub last_poll: u64,
    /// What it showed then.
    pub seen: Option<DesktopSignature>,
}

/// Whether the desktop is to be looked at again at `now`, after it was looked at
/// at `last_poll`.
pub open spec fn poll_is_due(last_poll: u64, now: u64) -> bool {
    now - last_poll >= POLL_INTERVAL
}

impl DesktopWatch {
    pub fn new() -> (watch: DesktopWatch)
        ensures
            watch.generation == 0,
            watch.last_poll == 0,
            watch.seen is None,
    {
        DesktopWatch { generation: 0, last_poll: 0, seen: None }
    }

    /// What was seen last.
    pub open spec fn seen_view(self) -> Option<SignatureView> {
        match self.seen {
            Some(s) => Some(s@),
            None => None,
        }
    }

    /// Marks every picture as possibly out of date.
    pub fn invalidate(&mut self)
        requires
            old(self).generation < u64::MAX,
        ensures
            final(self).generation == old(self).generation + 1,
            final(self).last_poll == old(self).last_poll,
            final(self).seen == old(self).seen,
    {
        self.generation = self.generation + 1;
    }

    /// Whether the desktop is to be looked at, at `now`: not sooner than the
    /// interval after the last look. It then counts as looked at.
    pub fn claim_poll(&mut self, now: u64) -> (claimed: bool)
        ensures
            claimed == poll_is_due(old(self).last_poll, now),
            final(self).last_poll == (if claimed {
                now
            } else {
                old(self).last_poll
            }),
            final(self).generation == old(self).generation,
            final(self).seen == old(self).seen,
    {
        if now < self.last_poll || now - self.last_poll < POLL_INTERVAL {
            return false;
        }
        self.last_poll = now;
        true
    }

    /// Takes note of what the desktop shows. A change marks every picture as
    /// possibly out of date; the first look only says what there is.
    pub fn observe(&mut self, signature: DesktopSignature)
        requires
            old(self).generation < u64::MAX,
        ensures
            final(self).seen_view() == Some(signature@),
            final(self).last_poll == old(self).last_poll,
            final(self).generation == (if old(self).seen_view() is None || old(self).seen_view()
                == Some(signature@) {
                old(self).generation as int
            } else {
                old(self).generation + 1
            }),
    {
        let same: bool = match &self.seen {
            Some(s) => s.same(&signature),
            None => false,
        };
        if same {
            return;
        }
        let is_first: bool = self.seen.is_none();
        self.seen = Some(signature);
        if !is_first {
            self.invalidate();
        }
    }
}

/// The area that a window's picture is drawn for: that of its monitor, or of
/// all of them where the system does not say.
pub fn monitor_bounds(monitor: Option<Rect>, virtual_screen: &Rect) -> (result: Rect)
    ensures
        result == (match monitor {
            Some(m) => m,
            None => *virtual_screen,
        }),
{
    match monitor {
        Some(m) => m,
        None => *virtual_screen,
    }
}

/// How far the picture of a monitor is moved to show what is under `rect`,
/// where it stays in place.
pub fn crop_offset(rect: &Rect, monitor: &Rect) -> (result: (i32, i32))
    requires
        i32::MIN <= monitor.left - rect.left <= i32::MAX,
        i32::MIN <= monitor.top - rect.top <= i32::MAX,
    ensures
        result.0 == monitor.left - rect.left,
        result.1 == monitor.top - rect.top,
{
    (monitor.x() - rect.x(), monitor.y() - rect.y())
}

/// One step of drawing the picture of a monitor.
#[derive(Clone, Copy, Debug, PartialEq, Eq, Structural)]
pub enum DrawStage {
    /// The picture file, moved and scaled.
    Transform,
    /// Repeated without end.
    Wrap,
    /// Over the color of the desktop.
    OverBackground,
    /// With its edges drawn out without end.
    Clamp,
    Blur(i64),
    /// Cut to the monitor.
    Crop,
    Exposure(i64),
    Contrast(i64),
    HighlightsShadows(i64, i64),
    Saturation(i64),
    Grain(i64),
    Draw,
}

/// The steps that grade the colors: each is left out where it changes nothing.
pub open spec fn grading(k: BakeKnobs) -> Seq<DrawStage> {
    let a = if k.exposure != 0 {
        seq![DrawStage::Exposure(k.exposure)]
    } else {
        Seq::empty()
    };
    let b = if k.contrast != 0 {
        seq![DrawStage::Contrast(k.contrast)]
    } else {
        Seq::empty()
    };
    let c = if k.highlights != 0 || k.shadows != 0 {
        seq![DrawStage::HighlightsShadows(k.highlights, k.shadows)]
    } else {
        Seq::empty()
    };
    let d = if k.saturation != NEUTRAL_SATURATION {
        seq![DrawStage::Saturation(k.saturation)]
    } else {
        Seq::empty()
    };
    a + b + c + d
}

/// The step that adds grain.
pub open spec fn graining(k: BakeKnobs) -> Seq<DrawStage> {
    if k.grain > 0 {
        seq![DrawStage::Grain(k.grain)]
    } else {
        Seq::empty()
    }
}

/// The steps that lay the picture out on the desktop.
pub open spec fn composing(tiled: bool) -> Seq<DrawStage> {
    if tiled {
        seq![DrawStage::Transform, DrawStage::Wrap]
    } else {
        seq![DrawStage::Transform, DrawStage::OverBackground, DrawStage::Clamp]
    }
}

/// The steps that draw the picture of a monitor over its color.
pub open spec fn stages(k: BakeKnobs, tiled: bool) -> Seq<DrawStage> {
    composing(tiled) + seq![DrawStage::Blur(k.blur_amount), DrawStage::Crop] + grading(k)
        + graining(k) + seq![DrawStage::Crop, DrawStage::Draw]
}

/// The steps that draw the picture of a monitor. Without a picture file that
/// can be read there are none: the color of the desktop is all that shows.
pub fn draw_stages(has_image: bool, decodes: bool, tiled: bool, knobs: &BakeKnobs) -> (result: Option<
    Vec<DrawStage>,
>)
    ensures
        match result {
            Some(steps) => has_image && decodes && steps@ == stages(*knobs, tiled),
            None => !(has_image && decodes),
        },
{
    if !has_image || !decodes {
        return None;
    }
    let mut steps: Vec<DrawStage> = Vec::new();
    steps.push(DrawStage::Transform);
    if tiled {
        steps.push(DrawStage::Wrap);
    } else {
        steps.push(DrawStage::OverBackground);
        steps.push(DrawStage::Clamp);
    }
    proof {
        assert(steps@ =~= composing(tiled));
    }
    steps.push(DrawStage::Blur(knobs.blur_amount));
    steps.push(DrawStage::Crop);
    if knobs.exposure != 0 {
        steps.push(DrawStage::Exposure(knobs.exposure));
    }
    if knobs.contrast != 0 {
        steps.push(DrawStage::Contrast(knobs.contrast));
    }
    if knobs.highlights != 0 || knobs.shadows != 0 {
        steps.push(DrawStage::HighlightsShadows(knobs.highlights, knobs.shadows));
    }
    if knobs.saturation != NEUTRAL_SATURATION {
        steps.push(DrawStage::Saturation(knobs.saturation));
    }
    if knobs.grain > 0 {
        steps.push(DrawStage::Grain(knobs.grain));
    }
    steps.push(DrawStage::Crop);
    steps.push(DrawStage::Draw);
    proof {
        assert(steps@ =~= stages(*knobs, tiled));
    }
    Some(steps)
}

/// What drawing comes to: the end of it is always reached, and its failure
/// counts before that of the drawing itself. `drawn` says whether a picture was
/// drawn, or nothing where that failed.
pub fn draw_result(ended: bool, drawn: Option<bool>) -> (result: Option<bool>)
    ensures
        result == (if ended {
            drawn
        } else {
            None
        }),
{
    if ended {
        drawn
    } else {
        None
    }
}

proof fn lemma_trimmed_keeps_last(entries: Seq<SurfaceView>)
    requires
        entries.len() > 0,
        forall|k: int|
            0 <= k < entries.len() - 1 ==> (#[trigger] entries[k]).last_used
                < entries.last().last_used,
    ensures
        trimmed(entries).len() > 0,
        trimmed(entries).len() <= MAX_CACHED_SURFACES,
        trimmed(entries).last() == entries.last(),
        forall|k: int|
            0 <= k < trimmed(entries).len() ==> exists|j: int|
                0 <= j < entries.len() && #[trigger] trimmed(entries)[k] == entries[j],
    decreases entries.len(),
{
    if entries.len() > MAX_CACHED_SURFACES {
        lemma_oldest(entries);
        let i = oldest(entries);
        assert(entries[0].last_used < entries.last().last_used);
        assert(i < entries.len() - 1);
        let rest = entries.remove(i);
        assert(rest.last() == entries.last());
        assert forall|k: int| 0 <= k < rest.len() - 1 implies (#[trigger] rest[k]).last_used
            < rest.last().last_used by {
            if k < i {
                assert(rest[k] == entries[k]);
            } else {
                assert(rest[k] == entries[k + 1]);
            }
        }
        lemma_trimmed_keeps_last(rest);
        assert forall|k: int| 0 <= k < trimmed(entries).len() implies exists|j: int|
            0 <= j < entries.len() && #[trigger] trimmed(entries)[k] == entries[j] by {
            let j = choose|j: int| 0 <= j < rest.len() && trimmed(rest)[k] == rest[j];
            if j < i {
                assert(entries[j] == rest[j]);
            } else {
                assert(entries[j + 1] == rest[j]);
            }
        }
    } else {
        assert forall|k: int| 0 <= k < trimmed(entries).len() implies exists|j: int|
            0 <= j < entries.len() && #[trigger] trimmed(entries)[k] == entries[j] by {
            assert(trimmed(entries)[k] == entries[k]);
        }
    }
}

/// A picture that was just drawn is kept: asking for it again finds it, and
/// nothing is drawn twice. It also never pushes the number of pictures beyond
/// the most that are kept.
pub proof fn drawn_pictures_are_found(entries: Seq<SurfaceView>, new: SurfaceView)
    requires
        place_of(entries, new.key) is None,
        forall|k: int|
            0 <= k < entries.len() ==> (#[trigger] entries[k]).last_used < new.last_used,
    ensures
        ({
            let after = after_insert(entries, new);
            &&& after.len() <= MAX_CACHED_SURFACES
            &&& place_of(after, new.key) matches Some(i) && after[i].surface == new.surface
        }),
{
    let kept = entries.filter(not_replaced(new.key));
    let all = kept.push(new);
    assert forall|k: int| 0 <= k < kept.len() implies entries.contains(#[trigger] kept[k]) by {
        entries.lemma_filter_contains_rev(not_replaced(new.key), kept[k]);
    }
    assert forall|k: int| 0 <= k < all.len() - 1 implies (#[trigger] all[k]).last_used
        < all.last().last_used by {
        assert(entries.contains(kept[k]));
    }
    lemma_trimmed_keeps_last(all);
    let after = trimmed(all);
    lemma_place(after, new.key);
    lemma_place(entries, new.key);
    let i = place_of(after, new.key)->0;
    assert(after[after.len() - 1].key == new.key);
    let j = choose|j: int| 0 <= j < all.len() && after[i] == all[j];
    if j < kept.len() {
        assert(entries.contains(kept[j]));
        let m = choose|m: int| 0 <= m < entries.len() && entries[m] == kept[j];
        assert(entries[m].key != new.key);
    }
}

/// The picture is cut to the monitor right before it is drawn, whatever is
/// done to it before.
pub proof fn drawn_pictures_are_bounded(k: BakeKnobs, tiled: bool)
    ensures
        ({
            let s = stages(k, tiled);
            &&& s.len() >= 2
            &&& s[s.len() - 1] == DrawStage::Draw
            &&& s[s.len() - 2] == DrawStage::Crop
        }),
{
}

/// Where no number but the blur changes anything, nothing but the blur is done.
pub proof fn neutral_numbers_change_nothing(k: BakeKnobs)
    requires
        k.saturation == NEUTRAL_SATURATION,
        k.exposure == 0,
        k.contrast == 0,
        k.highlights == 0,
        k.shadows == 0,
        k.grain <= 0,
    ensures
        grading(k) == Seq::<DrawStage>::empty(),
        graining(k) == Seq::<DrawStage>::empty(),
{
}

/// The desktop is looked at once per interval, however often it is asked for.
pub proof fn looks_are_throttled(first: u64, second: u64, third: u64)
    requires
        poll_is_due(first, second),
        poll_is_due(second, third),
    ensures
        third - second >= POLL_INTERVAL,
        !poll_is_due(second, second),
{
}

/// A picture that is kept is found by its key, the first one if there are more.
pub proof fn pictures_are_found_by_their_keys(entries: Seq<SurfaceView>, key: KeyView, i: int)
    requires
        0 <= i <= entries.len(),
        forall|k: int| 0 <= k < i ==> (#[trigger] entries[k]).key != key,
    ensures
        i == entries.len() ==> place_of(entries, key) is None,
        i < entries.len() && entries[i].key == key ==> place_of(entries, key) == Some(i),
{
    lemma_place(entries, key);
    if i < entries.len() && entries[i].key == key {
        let p = place_of(entries, key);
        assert(p is Some);
        assert(p->0 == i);
    }
}

/// A new picture takes the place of the one that was drawn with the same numbers
/// for the same monitor, and of no other. It comes last.
pub proof fn new_pictures_replace_their_own_kind(
    entries: Seq<SurfaceView>,
    new: SurfaceView,
    e: SurfaceView,
)
    requires
        entries.len() < 4,
    ensures
        ({
            let after = after_insert(entries, new);
            &&& after.last() == new
            &&& after.contains(new)
            &&& e != new ==> (after.contains(e) <==> entries.contains(e) && (
            e.key.wallpaper.monitor != new.key.wallpaper.monitor || e.key.knobs != new.key.knobs))
        }),
{
    let pred = not_replaced(new.key);
    let kept = entries.filter(pred);
    let after = kept.push(new);
    entries.lemma_filter_len(pred);
    assert(after_insert(entries, new) == after);
    assert(after[kept.len() as int] == new);
    if after.contains(e) {
        let k = choose|k: int| 0 <= k < after.len() && after[k] == e;
        if k < kept.len() {
            assert(kept[k] == e);
            entries.lemma_filter_pred(pred, k);
            entries.lemma_filter_contains_rev(pred, e);
        }
    }
    if entries.contains(e) && pred(e) {
        let k = choose|k: int| 0 <= k < entries.len() && entries[k] == e;
        entries.lemma_filter_contains(pred, k);
        let j = choose|j: int| 0 <= j < kept.len() && kept[j] == e;
        assert(after[j] == e);
    }
}

/// Up to four pictures are kept. Of more, the one that was used longest ago goes
/// first, and of several of those the first.
pub proof fn the_oldest_pictures_go(entries: Seq<SurfaceView>, k: int)
    ensures
        entries.len() <= 4 ==> trimmed(entries) == entries,
        entries.len() > 4 ==> trimmed(entries) == trimmed(entries.remove(oldest(entries))),
        0 <= k < entries.len() ==> {
            &&& 0 <= oldest(entries) < entries.len()
            &&& entries[oldest(entries)].last_used <= entries[k].last_used
            &&& k < oldest(entries) ==> entries[oldest(entries)].last_used < entries[k].last_used
        },
    decreases entries.len(),
{
    if entries.len() > 0 {
        lemma_oldest(entries);
    }
    if entries.len() > 1 {
        let rest = entries.drop_last();
        lemma_oldest(rest);
        the_oldest_pictures_go(rest, k);
        if 0 <= k < rest.len() {
            assert(rest[k] == entries[k]);
        }
        assert(rest[oldest(rest)] == entries[oldest(rest)]);
    }
}

/// What was read of a monitor is remembered for its generation only.
pub proof fn reads_are_remembered_for_a_generation(
    entries: Seq<MemoView>,
    monitor: Rect,
    generation: u64,
    e: MemoView,
    i: int,
)
    requires
        0 <= i <= entries.len(),
        forall|k: int|
            0 <= k < i ==> (#[trigger] entries[k]).monitor != monitor || entries[k].generation
                != generation,
    ensures
        i == entries.len() ==> remembered(entries, monitor, generation) is None,
        i < entries.len() && entries[i].monitor == monitor && entries[i].generation == generation
            ==> remembered(entries, monitor, generation) == Some(entries[i].wallpaper),
        of_others(monitor)(e) <==> e.monitor != monitor,
    decreases entries.len(),
{
    if i > 0 {
        assert(entries[0].monitor != monitor || entries[0].generation != generation);
        let rest = entries.drop_first();
        assert forall|k: int| 0 <= k < i - 1 implies (#[trigger] rest[k]).monitor != monitor
            || rest[k].generation != generation by {
            assert(rest[k] == entries[k + 1]);
        }
        reads_are_remembered_for_a_generation(rest, monitor, generation, e, i - 1);
    }
}

/// The desktop is looked at again two seconds after the last look.
pub proof fn looks_are_two_seconds_apart(last_poll: u64, now: u64)
    ensures
        poll_is_due(last_poll, now) <==> now - last_poll >= 2000,
{
}

proof fn lemma_four_stages(
    a: Seq<DrawStage>,
    b: Seq<DrawStage>,
    c: Seq<DrawStage>,
    d: Seq<DrawStage>,
)
    ensures
        (a + b + c + d).len() == a.len() + b.len() + c.len() + d.len(),
        a.len() > 0 ==> (a + b + c + d)[0] == a[0],
        b.len() > 0 ==> (a + b + c + d)[a.len() as int] == b[0],
        c.len() > 0 ==> (a + b + c + d)[(a.len() + b.len()) as int] == c[0],
        d.len() > 0 ==> (a + b + c + d)[(a.len() + b.len() + c.len()) as int] == d[0],
{
}

/// The colors are graded by the numbers that change something, in their order:
/// exposure, contrast, highlights and shadows, saturation.
pub proof fn colors_are_graded_in_order(k: BakeKnobs)
    ensures
        ({
            let s = grading(k);
            let a: int = if k.exposure != 0 {
                1
            } else {
                0
            };
            let b: int = if k.contrast != 0 {
                a + 1
            } else {
                a
            };
            let c: int = if k.highlights != 0 || k.shadows != 0 {
                b + 1
            } else {
                b
            };
            let d: int = if k.saturation != 1_000_000 {
                c + 1
            } else {
                c
            };
            &&& s.len() == d
            &&& a > 0 ==> s[0] == DrawStage::Exposure(k.exposure)
            &&& b > a ==> s[a] == DrawStage::Contrast(k.contrast)
            &&& c > b ==> s[b] == DrawStage::HighlightsShadows(k.highlights, k.shadows)
            &&& d > c ==> s[c] == DrawStage::Saturation(k.saturation)
        }),
        k.grain > 0 ==> graining(k) == seq![DrawStage::Grain(k.grain)],
        k.grain <= 0 ==> graining(k) == Seq::<DrawStage>::empty(),
{
    let a = if k.exposure != 0 {
        seq![DrawStage::Exposure(k.exposure)]
    } else {
        Seq::empty()
    };
    let b = if k.contrast != 0 {
        seq![DrawStage::Contrast(k.contrast)]
    } else {
        Seq::empty()
    };
    let c = if k.highlights != 0 || k.shadows != 0 {
        seq![DrawStage::HighlightsShadows(k.highlights, k.shadows)]
    } else {
        Seq::empty()
    };
    let d = if k.saturation != 1_000_000 {
        seq![DrawStage::Saturation(k.saturation)]
    } else {
        Seq::empty()
    };
    lemma_four_stages(a, b, c, d);
    assert(grading(k) == a + b + c + d);
}

/// A picture is laid out, then blurred and cut, then graded and grained, and
/// then cut again and drawn. Only a tiled one is repeated, and only one that is
/// not is laid over the color of the desktop.
pub proof fn pictures_are_drawn_in_order(k: BakeKnobs)
    ensures
        stages(k, true) == seq![
            DrawStage::Transform,
            DrawStage::Wrap,
            DrawStage::Blur(k.blur_amount),
            DrawStage::Crop,
        ] + grading(k) + graining(k) + seq![DrawStage::Crop, DrawStage::Draw],
        stages(k, false) == seq![
            DrawStage::Transform,
            DrawStage::OverBackground,
            DrawStage::Clamp,
            DrawStage::Blur(k.blur_amount),
            DrawStage::Crop,
        ] + grading(k) + graining(k) + seq![DrawStage::Crop, DrawStage::Draw],
{
    assert(composing(true) + seq![DrawStage::Blur(k.blur_amount), DrawStage::Crop] =~= seq![
        DrawStage::Transform,
        DrawStage::Wrap,
        DrawStage::Blur(k.blur_amount),
        DrawStage::Crop,
    ]);
    assert(composing(false) + seq![DrawStage::Blur(k.blur_amount), DrawStage::Crop] =~= seq![
        DrawStage::Transform,
        DrawStage::OverBackground,
        DrawStage::Clamp,
        DrawStage::Blur(k.blur_amount),
        DrawStage::Crop,
    ]);
}

} // verus!
