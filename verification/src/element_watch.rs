//! Where the parts of a themed window are: when its accessibility tree is
//! read, and what is made of it.

use vstd::prelude::*;

use crate::geometry::Rect;
use crate::theme_layout::{ElementRect, UiElementKind};

verus! {

/// The shortest time between two reads of one window, in milliseconds.
pub const MIN_QUERY_INTERVAL: u64 = 400;

/// How many times its own duration a read is followed by a pause.
pub const QUERY_BACKOFF: u64 = 20;

/// The control types that count as `kind`.
pub open spec fn types_of(kind: UiElementKind) -> Seq<u32> {
    match kind {
        UiElementKind::Image => seq![50006],
        UiElementKind::Edit => seq![50004],
        UiElementKind::Document => seq![50030],
        UiElementKind::Button => seq![50000, 50031],
        UiElementKind::Hyperlink => seq![50005],
        UiElementKind::CheckBox => seq![50002],
        UiElementKind::RadioButton => seq![50013],
        UiElementKind::ComboBox => seq![50003],
        UiElementKind::ListItem => seq![50007],
        UiElementKind::TreeItem => seq![50024],
        UiElementKind::TabItem => seq![50019],
        UiElementKind::MenuItem => seq![50011],
        UiElementKind::DataItem => seq![50029],
        UiElementKind::Header => seq![50034, 50035],
        UiElementKind::ToolBar => seq![50021],
        UiElementKind::StatusBar => seq![50017],
        UiElementKind::TitleBar => seq![50037],
    }
}

/// The control types that count as `kind`.
pub fn control_types(kind: UiElementKind) -> (result: Vec<u32>)
    ensures
        result@ == types_of(kind),
{
    let mut types: Vec<u32> = Vec::new();
    let first: u32 = match kind {
        UiElementKind::Image => 50006,
        UiElementKind::Edit => 50004,
        UiElementKind::Document => 50030,
        UiElementKind::Button => 50000,
        UiElementKind::Hyperlink => 50005,
        UiElementKind::CheckBox => 50002,
        UiElementKind::RadioButton => 50013,
        UiElementKind::ComboBox => 50003,
        UiElementKind::ListItem => 50007,
        UiElementKind::TreeItem => 50024,
        UiElementKind::TabItem => 50019,
        UiElementKind::MenuItem => 50011,
        UiElementKind::DataItem => 50029,
        UiElementKind::Header => 50034,
        UiElementKind::ToolBar => 50021,
        UiElementKind::StatusBar => 50017,
        UiElementKind::TitleBar => 50037,
    };
    types.push(first);
    match kind {
        UiElementKind::Button => {
            types.push(50031);
        },
        UiElementKind::Header => {
            types.push(50035);
        },
        _ => {},
    }
    proof {
        assert(types@ =~= types_of(kind));
    }
    types
}

/// Whether elements of the control type count as `kind`.
pub open spec fn is_type_of(control_type: u32, kind: UiElementKind) -> bool {
    types_of(kind).contains(control_type)
}

proof fn lemma_types(control_type: u32, kind: UiElementKind)
    ensures
        is_type_of(control_type, kind) <==> (match kind {
            UiElementKind::Image => control_type == 50006,
            UiElementKind::Edit => control_type == 50004,
            UiElementKind::Document => control_type == 50030,
            UiElementKind::Button => control_type == 50000 || control_type == 50031,
            UiElementKind::Hyperlink => control_type == 50005,
            UiElementKind::CheckBox => control_type == 50002,
            UiElementKind::RadioButton => control_type == 50013,
            UiElementKind::ComboBox => control_type == 50003,
            UiElementKind::ListItem => control_type == 50007,
            UiElementKind::TreeItem => control_type == 50024,
            UiElementKind::TabItem => control_type == 50019,
            UiElementKind::MenuItem => control_type == 50011,
            UiElementKind::DataItem => control_type == 50029,
            UiElementKind::Header => control_type == 50034 || control_type == 50035,
            UiElementKind::ToolBar => control_type == 50021,
            UiElementKind::StatusBar => control_type == 50017,
            UiElementKind::TitleBar => control_type == 50037,
        }),
{
    let s = types_of(kind);
    if s.contains(control_type) {
        let i = choose|i: int| 0 <= i < s.len() && s[i] == control_type;
        assert(i == 0 || i == 1);
    }
    assert(s[0] == s[0]);
    if s.len() > 1 {
        assert(s[1] == s[1]);
        assert(s.contains(s[1]));
    }
    assert(s.contains(s[0]));
}

/// The kind that elements of the control type count as, if any: no type counts
/// as two.
pub fn kind_of(control_type: u32) -> (result: Option<UiElementKind>)
    ensures
        match result {
            Some(kind) => is_type_of(control_type, kind) && forall|other: UiElementKind|
                is_type_of(control_type, other) ==> other == kind,
            None => forall|kind: UiElementKind| !is_type_of(control_type, kind),
        },
{
    proof {
        lemma_types(control_type, UiElementKind::Image);
        lemma_types(control_type, UiElementKind::Edit);
        lemma_types(control_type, UiElementKind::Document);
        lemma_types(control_type, UiElementKind::Button);
        lemma_types(control_type, UiElementKind::Hyperlink);
        lemma_types(control_type, UiElementKind::CheckBox);
        lemma_types(control_type, UiElementKind::RadioButton);
        lemma_types(control_type, UiElementKind::ComboBox);
        lemma_types(control_type, UiElementKind::ListItem);
        lemma_types(control_type, UiElementKind::TreeItem);
        lemma_types(control_type, UiElementKind::TabItem);
        lemma_types(control_type, UiElementKind::MenuItem);
        lemma_types(control_type, UiElementKind::DataItem);
        lemma_types(control_type, UiElementKind::Header);
        lemma_types(control_type, UiElementKind::ToolBar);
        lemma_types(control_type, UiElementKind::StatusBar);
        lemma_types(control_type, UiElementKind::TitleBar);
    }
    if control_type == 50006 {
        Some(UiElementKind::Image)
    } else if control_type == 50004 {
        Some(UiElementKind::Edit)
    } else if control_type == 50030 {
        Some(UiElementKind::Document)
    } else if control_type == 50000 || control_type == 50031 {
        Some(UiElementKind::Button)
    } else if control_type == 50005 {
        Some(UiElementKind::Hyperlink)
    } else if control_type == 50002 {
        Some(UiElementKind::CheckBox)
    } else if control_type == 50013 {
        Some(UiElementKind::RadioButton)
    } else if control_type == 50003 {
        Some(UiElementKind::ComboBox)
    } else if control_type == 50007 {
        Some(UiElementKind::ListItem)
    } else if control_type == 50024 {
        Some(UiElementKind::TreeItem)
    } else if control_type == 50019 {
        Some(UiElementKind::TabItem)
    } else if control_type == 50011 {
        Some(UiElementKind::MenuItem)
    } else if control_type == 50029 {
        Some(UiElementKind::DataItem)
    } else if control_type == 50034 || control_type == 50035 {
        Some(UiElementKind::Header)
    } else if control_type == 50021 {
        Some(UiElementKind::ToolBar)
    } else if control_type == 50017 {
        Some(UiElementKind::StatusBar)
    } else if control_type == 50037 {
        Some(UiElementKind::TitleBar)
    } else {
        None
    }
}

/// The kind that elements of the control type count as.
pub open spec fn kind_for(control_type: u32) -> Option<UiElementKind> {
    if exists|kind: UiElementKind| is_type_of(control_type, kind) {
        Some(choose|kind: UiElementKind| is_type_of(control_type, kind))
    } else {
        None
    }
}

/// The control types that are asked for to find elements of `kinds`, in order.
pub open spec fn wanted_types(kinds: Seq<UiElementKind>) -> Seq<u32>
    decreases kinds.len(),
{
    if kinds.len() == 0 {
        Seq::empty()
    } else {
        wanted_types(kinds.drop_last()) + types_of(kinds.last())
    }
}

/// The control types that are asked for to find elements of `kinds`. Without
/// any there is nothing to ask for.
pub fn query_types(kinds: &Vec<UiElementKind>) -> (result: Vec<u32>)
    ensures
        result@ == wanted_types(kinds@),
{
    let mut types: Vec<u32> = Vec::new();
    let mut i: usize = 0;
    proof {
        assert(kinds@.subrange(0, 0) =~= Seq::<UiElementKind>::empty());
    }
    while i < kinds.len()
        invariant
            i <= kinds@.len(),
            types@ == wanted_types(kinds@.subrange(0, i as int)),
        decreases kinds@.len() - i,
    {
        let mut more = control_types(kinds[i]);
        types.append(&mut more);
        proof {
            let next = kinds@.subrange(0, i + 1);
            assert(next.drop_last() =~= kinds@.subrange(0, i as int));
        }
        i = i + 1;
    }
    proof {
        assert(kinds@.subrange(0, i as int) =~= kinds@);
    }
    types
}

/// An element as the accessibility tree gives it, in screen coordinates.
#[derive(Clone, Copy, Debug, PartialEq, Eq, Structural)]
pub struct FoundElement {
    pub control_type: u32,
    pub rect: Rect,
    pub offscreen: bool,
}

/// Whether an element is drawn: it is of a known kind, on the screen and not
/// empty.
pub open spec fn is_drawn(e: FoundElement) -> bool {
    kind_for(e.control_type) is Some && !e.offscreen && !e.rect.spec_is_empty()
}

/// Whether the place of an element can be seen from `origin`.
pub open spec fn can_see_from(e: FoundElement, origin: (i32, i32)) -> bool {
    &&& i32::MIN <= e.rect.left - origin.0 <= i32::MAX
    &&& i32::MIN <= e.rect.top - origin.1 <= i32::MAX
    &&& i32::MIN <= e.rect.right - origin.0 <= i32::MAX
    &&& i32::MIN <= e.rect.bottom - origin.1 <= i32::MAX
}

/// Whether `out` is `e`, seen from `origin`.
pub open spec fn is_seen_as(e: FoundElement, origin: (i32, i32), out: ElementRect) -> bool {
    &&& is_type_of(e.control_type, out.kind)
    &&& out.ltrb@ == seq![
        (e.rect.left - origin.0) as i32,
        (e.rect.top - origin.1) as i32,
        (e.rect.right - origin.0) as i32,
        (e.rect.bottom - origin.1) as i32,
    ]
}

/// Whether `out` lists the drawn ones of `found`, in order, seen from
/// `origin`.
pub open spec fn lists_drawn(
    found: Seq<FoundElement>,
    origin: (i32, i32),
    out: Seq<ElementRect>,
) -> bool {
    let drawn = found.filter(drawn_ones());
    &&& out.len() == drawn.len()
    &&& forall|k: int| 0 <= k < out.len() ==> is_seen_as(drawn[k], origin, #[trigger] out[k])
}

/// Picks the elements that are drawn.
pub open spec fn drawn_ones() -> spec_fn(FoundElement) -> bool {
    |e: FoundElement| is_drawn(e)
}

/// The elements that are drawn, seen from the corner of the window's frame.
pub fn elements_of(found: &Vec<FoundElement>, origin: (i32, i32)) -> (result: Vec<ElementRect>)
    requires
        forall|k: int|
            0 <= k < found@.len() && is_drawn(#[trigger] found@[k]) ==> can_see_from(
                found@[k],
                origin,
            ),
    ensures
        lists_drawn(found@, origin, result@),
{
    let mut out: Vec<ElementRect> = Vec::new();
    let mut i: usize = 0;
    proof {
        reveal(Seq::filter);
        assert(found@.subrange(0, 0) =~= Seq::<FoundElement>::empty());
    }
    while i < found.len()
        invariant
            i <= found@.len(),
            lists_drawn(found@.subrange(0, i as int), origin, out@),
            forall|k: int|
                0 <= k < found@.len() && is_drawn(#[trigger] found@[k]) ==> can_see_from(
                    found@[k],
                    origin,
                ),
        decreases found@.len() - i,
    {
        let e = found[i];
        proof {
            reveal(Seq::filter);
            let next = found@.subrange(0, i + 1);
            assert(next.drop_last() =~= found@.subrange(0, i as int));
            assert(next.last() == e);
        }
        match kind_of(e.control_type) {
            Some(kind) => {
                proof {
                    assert(is_type_of(e.control_type, kind));
                }
                if !e.offscreen && !e.rect.is_empty() {
                    proof {
                        assert(is_drawn(found@[i as int]));
                    }
                    let ltrb: [i32; 4] = [
                        e.rect.left - origin.0,
                        e.rect.top - origin.1,
                        e.rect.right - origin.0,
                        e.rect.bottom - origin.1,
                    ];
                    out.push(ElementRect { kind, ltrb });
                    proof {
                        assert(out@.last().ltrb@ =~= seq![
                            (e.rect.left - origin.0) as i32,
                            (e.rect.top - origin.1) as i32,
                            (e.rect.right - origin.0) as i32,
                            (e.rect.bottom - origin.1) as i32,
                        ]);
                    }
                }
            },
            None => {},
        }
        i = i + 1;
    }
    proof {
        assert(found@.subrange(0, i as int) =~= found@);
    }
    out
}

/// One watched window.
#[derive(Debug)]
pub struct ElementWatch {
    /// The window.
    pub source: isize,
    pub kinds: Vec<UiElementKind>,
    /// Whether the window changed since it was read last.
    pub dirty: bool,
    pub closed: bool,
    /// When it may be read again, in milliseconds.
    pub next_query: Option<u64>,
}

fn same_kinds(a: &Vec<UiElementKind>, b: &Vec<UiElementKind>) -> (result: bool)
    ensures
        result == (a@ == b@),
{
    if a.len() != b.len() {
        return false;
    }
    let mut i: usize = 0;
    while i < a.len()
        invariant
            a@.len() == b@.len(),
            i <= a@.len(),
            forall|k: int| 0 <= k < i ==> a@[k] == b@[k],
        decreases a@.len() - i,
    {
        if a[i] != b[i] {
            return false;
        }
        i = i + 1;
    }
    proof {
        assert(a@ =~= b@);
    }
    true
}

impl ElementWatch {
    /// A window that has not been read yet.
    pub fn start(source: isize, kinds: Vec<UiElementKind>) -> (watch: ElementWatch)
        ensures
            watch == (ElementWatch {
                source,
                kinds,
                dirty: true,
                closed: false,
                next_query: None,
            }),
    {
        ElementWatch { source, kinds, dirty: true, closed: false, next_query: None }
    }

    /// Notes that the window changed. Returns whether the reader has to be
    /// woken: it has not been told before.
    pub fn notify(&mut self) -> (wakes: bool)
        ensures
            wakes == !old(self).dirty,
            *final(self) == (ElementWatch { dirty: true, ..*old(self) }),
    {
        let wakes: bool = !self.dirty;
        self.dirty = true;
        wakes
    }

    /// Asks for other kinds of elements. Returns whether the reader has to be
    /// woken; the same kinds change nothing.
    pub fn set_kinds(&mut self, kinds: Vec<UiElementKind>) -> (wakes: bool)
        ensures
            if old(self).kinds@ == kinds@ {
                &&& !wakes
                &&& *final(self) == *old(self)
            } else {
                &&& wakes == !old(self).dirty
                &&& *final(self) == (ElementWatch { kinds, dirty: true, ..*old(self) })
            },
    {
        if same_kinds(&self.kinds, &kinds) {
            return false;
        }
        self.kinds = kinds;
        self.notify()
    }

    /// Ends the watch. The reader is woken to let it go.
    pub fn close(&mut self)
        ensures
            *final(self) == (ElementWatch { closed: true, ..*old(self) }),
    {
        self.closed = true;
    }
}

/// What the reader does next.
#[derive(Clone, Copy, Debug, PartialEq, Eq, Structural)]
pub enum NextStep {
    /// It reads the window of the watch at this place.
    Query(usize),
    /// It waits until this time, or until it is woken.
    WaitUntil(u64),
    /// It waits until it is woken.
    Wait,
}

/// The reader of all watched windows.
#[derive(Debug)]
pub struct Worker {
    pub watches: Vec<ElementWatch>,
    /// Whether accessibility trees can be read at all.
    pub available: bool,
}

/// Picks the watches that have not ended.
pub open spec fn open_ones() -> spec_fn(ElementWatch) -> bool {
    |w: ElementWatch| !w.closed
}

/// When a watch may be read, seen at `now`.
pub open spec fn due_of(w: ElementWatch, now: u64) -> u64 {
    match w.next_query {
        Some(due) => due,
        None => now,
    }
}

/// Whether a watch is to be read at `now`.
pub open spec fn is_due(w: ElementWatch, now: u64) -> bool {
    w.dirty && due_of(w, now) <= now
}

/// The first time that one of the changed ones among `ws` may be read.
pub open spec fn earliest_due(ws: Seq<ElementWatch>, now: u64) -> Option<u64>
    decreases ws.len(),
{
    if ws.len() == 0 {
        None
    } else {
        let rest = earliest_due(ws.drop_last(), now);
        if !ws.last().dirty {
            rest
        } else {
            match rest {
                None => Some(due_of(ws.last(), now)),
                Some(t) => if due_of(ws.last(), now) < t {
                    Some(due_of(ws.last(), now))
                } else {
                    Some(t)
                },
            }
        }
    }
}

/// What the reader does with `ws` at `now`: it reads the first that is due.
pub open spec fn next_step(ws: Seq<ElementWatch>, now: u64) -> NextStep {
    if exists|k: int| 0 <= k < ws.len() && is_due(#[trigger] ws[k], now) {
        NextStep::Query(first_due(ws, now) as usize)
    } else {
        match earliest_due(ws, now) {
            Some(t) => NextStep::WaitUntil(t),
            None => NextStep::Wait,
        }
    }
}

/// The first place of a watch that is due.
pub open spec fn first_due(ws: Seq<ElementWatch>, now: u64) -> int {
    choose|k: int|
        0 <= k < ws.len() && is_due(ws[k], now) && forall|j: int|
            0 <= j < k ==> !is_due(#[trigger] ws[j], now)
}

/// When a window may be read again after a read that took `took` and ended at
/// `ended`: the longer it took, the longer the pause.
pub open spec fn pause_end(ended: int, took: int) -> int {
    ended + (if took * QUERY_BACKOFF > MIN_QUERY_INTERVAL {
        took * QUERY_BACKOFF
    } else {
        MIN_QUERY_INTERVAL as int
    })
}

impl Worker {
    pub fn new() -> (worker: Worker)
        ensures
            worker.watches@ == Seq::<ElementWatch>::empty(),
            worker.available,
    {
        Worker { watches: Vec::new(), available: true }
    }

    /// Takes up a watch, unless nothing can be read. Returns whether the
    /// reader has to be woken.
    pub fn add_watch(&mut self, watch: ElementWatch) -> (wakes: bool)
        ensures
            wakes == old(self).available,
            final(self).available == old(self).available,
            final(self).watches@ == (if old(self).available {
                old(self).watches@.push(watch)
            } else {
                old(self).watches@
            }),
    {
        if !self.available {
            return false;
        }
        self.watches.push(watch);
        true
    }

    /// Gives up: nothing can be read, now or later.
    pub fn give_up(&mut self)
        ensures
            !final(self).available,
            final(self).watches@ == Seq::<ElementWatch>::empty(),
    {
        self.available = false;
        self.watches = Vec::new();
    }

    /// Lets go of the watches that have ended and says what to do at `now`.
    pub fn next_due(&mut self, now: u64) -> (result: NextStep)
        ensures
            final(self).available == old(self).available,
            final(self).watches@ == old(self).watches@.filter(open_ones()),
            result == next_step(final(self).watches@, now),
    {
        self.retain_open();
        let ghost ws = self.watches@;
        let mut earliest: Option<u64> = None;
        let mut i: usize = 0;
        proof {
            assert(ws.subrange(0, 0) =~= Seq::<ElementWatch>::empty());
        }
        while i < self.watches.len()
            invariant
                i <= ws.len(),
                self.watches@ == ws,
                self.available == old(self).available,
                ws == old(self).watches@.filter(open_ones()),
                earliest == earliest_due(ws.subrange(0, i as int), now),
                forall|k: int| 0 <= k < i ==> !is_due(#[trigger] ws[k], now),
            decreases ws.len() - i,
        {
            proof {
                let next = ws.subrange(0, i + 1);
                assert(next.drop_last() =~= ws.subrange(0, i as int));
                assert(next.last() == ws[i as int]);
            }
            if self.watches[i].dirty {
                let due: u64 = match self.watches[i].next_query {
                    Some(due) => due,
                    None => now,
                };
                if due <= now {
                    proof {
                        assert(is_due(ws[i as int], now));
                        let k = first_due(ws, now);
                        assert(is_due(ws[k], now) && 0 <= k < ws.len());
                        assert(k == i);
                    }
                    return NextStep::Query(i);
                }
                earliest = match earliest {
                    Some(t) => if due < t {
                        Some(due)
                    } else {
                        Some(t)
                    },
                    None => Some(due),
                };
            }
            i = i + 1;
        }
        proof {
            assert(ws.subrange(0, i as int) =~= ws);
        }
        match earliest {
            Some(t) => NextStep::WaitUntil(t),
            None => NextStep::Wait,
        }
    }

    /// Lets go of the watches that have ended.
    fn retain_open(&mut self)
        ensures
            final(self).available == old(self).available,
            final(self).watches@ == old(self).watches@.filter(open_ones()),
    {
        let ghost before = self.watches@;
        let ghost mut seen: int = 0;
        let mut i: usize = 0;
        proof {
            reveal(Seq::filter);
            assert(before.subrange(0, 0) =~= Seq::<ElementWatch>::empty());
            assert(self.watches@ =~= before.subrange(0, 0).filter(open_ones()) + before.subrange(
                0,
                before.len() as int,
            ));
        }
        while i < self.watches.len()
            invariant
                0 <= seen <= before.len(),
                i == before.subrange(0, seen).filter(open_ones()).len(),
                self.watches@ == before.subrange(0, seen).filter(open_ones()) + before.subrange(
                    seen,
                    before.len() as int,
                ),
                self.available == old(self).available,
                before == old(self).watches@,
            decreases self.watches@.len() - i,
        {
            let ghost kept = before.subrange(0, seen).filter(open_ones());
            proof {
                reveal(Seq::filter);
                let next = before.subrange(0, seen + 1);
                assert(next.drop_last() =~= before.subrange(0, seen));
                assert(next.last() == before[seen]);
                assert(self.watches@[i as int] == before[seen]);
            }
            if self.watches[i].closed {
                let gone = self.watches.remove(i);
                proof {
                    assert(self.watches@ =~= kept + before.subrange(seen + 1, before.len() as int));
                }
            } else {
                proof {
                    assert(self.watches@ =~= kept.push(before[seen]) + before.subrange(
                        seen + 1,
                        before.len() as int,
                    ));
                }
                i = i + 1;
            }
            proof {
                seen = seen + 1;
            }
        }
        proof {
            assert(seen == before.len());
            assert(before.subrange(0, seen) =~= before);
            assert(self.watches@ =~= before.filter(open_ones()));
        }
    }

    /// Notes that the window of the watch at `index` is about to be read.
    pub fn begin_query(&mut self, index: usize)
        requires
            index < old(self).watches@.len(),
        ensures
            final(self).available == old(self).available,
            final(self).watches@ == old(self).watches@.update(
                index as int,
                ElementWatch { dirty: false, ..old(self).watches@[index as int] },
            ),
    {
        self.watches[index].dirty = false;
        proof {
            assert(self.watches@ =~= old(self).watches@.update(
                index as int,
                ElementWatch { dirty: false, ..old(self).watches@[index as int] },
            ));
        }
    }

    /// Notes that the read of the watch at `index` took `took` and ended at
    /// `ended`. Returns whether what it found is handed on: it worked and the
    /// watch has not ended meanwhile.
    pub fn end_query(&mut self, index: usize, ended: u64, took: u64, worked: bool) -> (delivers: bool)
        requires
            index < old(self).watches@.len(),
            pause_end(ended as int, took as int) <= u64::MAX,
            took * QUERY_BACKOFF <= u64::MAX,
        ensures
            final(self).available == old(self).available,
            final(self).watches@ == old(self).watches@.update(
                index as int,
                ElementWatch {
                    next_query: Some(pause_end(ended as int, took as int) as u64),
                    ..old(self).watches@[index as int]
                },
            ),
            delivers == (worked && !old(self).watches@[index as int].closed),
    {
        let backoff: u64 = took * QUERY_BACKOFF;
        let pause: u64 = if backoff > MIN_QUERY_INTERVAL {
            backoff
        } else {
            MIN_QUERY_INTERVAL
        };
        self.watches[index].next_query = Some(ended + pause);
        proof {
            assert(self.watches@ =~= old(self).watches@.update(
                index as int,
                ElementWatch {
                    next_query: Some(pause_end(ended as int, took as int) as u64),
                    ..old(self).watches@[index as int]
                },
            ));
        }
        worked && !self.watches[index].closed
    }
}

/// Reading a window takes at most one part in twenty-one of the time: after a
/// read of `took` the next starts twenty times that later, and never sooner
/// than the shortest pause.
pub proof fn reads_are_throttled(ended: u64, took: u64, w: ElementWatch, now: u64)
    requires
        pause_end(ended as int, took as int) <= u64::MAX,
        w.next_query == Some(pause_end(ended as int, took as int) as u64),
        is_due(w, now),
    ensures
        now - ended >= took * QUERY_BACKOFF,
        now - ended >= MIN_QUERY_INTERVAL,
{
}

/// Every kind can be found: its control types count as it and as nothing else.
pub proof fn kinds_are_told_apart(a: UiElementKind, b: UiElementKind, control_type: u32)
    requires
        is_type_of(control_type, a),
        is_type_of(control_type, b),
    ensures
        a == b,
{
    lemma_types(control_type, a);
    lemma_types(control_type, b);
}

/// Each control type that is known counts as one kind.
pub proof fn control_types_count_as_their_kinds(control_type: u32, kind: UiElementKind)
    ensures
        kind_for(control_type) == Some(kind) <==> (match kind {
            UiElementKind::Image => control_type == 50006,
            UiElementKind::Edit => control_type == 50004,
            UiElementKind::Document => control_type == 50030,
            UiElementKind::Button => control_type == 50000 || control_type == 50031,
            UiElementKind::Hyperlink => control_type == 50005,
            UiElementKind::CheckBox => control_type == 50002,
            UiElementKind::RadioButton => control_type == 50013,
            UiElementKind::ComboBox => control_type == 50003,
            UiElementKind::ListItem => control_type == 50007,
            UiElementKind::TreeItem => control_type == 50024,
            UiElementKind::TabItem => control_type == 50019,
            UiElementKind::MenuItem => control_type == 50011,
            UiElementKind::DataItem => control_type == 50029,
            UiElementKind::Header => control_type == 50034 || control_type == 50035,
            UiElementKind::ToolBar => control_type == 50021,
            UiElementKind::StatusBar => control_type == 50017,
            UiElementKind::TitleBar => control_type == 50037,
        }),
{
    lemma_types(control_type, kind);
    if is_type_of(control_type, kind) {
        let other = choose|k: UiElementKind| is_type_of(control_type, k);
        kinds_are_told_apart(other, kind, control_type);
    }
    if kind_for(control_type) == Some(kind) {
        assert(is_type_of(control_type, kind));
    }
}

/// The control types of all kinds that are looked for are asked for, in order.
pub proof fn all_kinds_are_asked_for(kinds: Seq<UiElementKind>, kind: UiElementKind)
    ensures
        wanted_types(Seq::empty()) == Seq::<u32>::empty(),
        wanted_types(kinds.push(kind)) == wanted_types(kinds) + types_of(kind),
{
    assert(kinds.push(kind).drop_last() =~= kinds);
}

/// An element is drawn if its kind is known, it is on the screen, and it is not
/// empty. It is drawn as seen from the corner of the window.
pub proof fn elements_are_seen_from_the_corner(e: FoundElement, origin: (i32, i32), out: ElementRect)
    requires
        can_see_from(e, origin),
    ensures
        is_drawn(e) <==> kind_for(e.control_type) is Some && !e.offscreen && e.rect.left
            < e.rect.right && e.rect.top < e.rect.bottom,
        is_seen_as(e, origin, out) ==> {
            &&& out.ltrb@[0] == e.rect.left - origin.0
            &&& out.ltrb@[1] == e.rect.top - origin.1
            &&& out.ltrb@[2] == e.rect.right - origin.0
            &&& out.ltrb@[3] == e.rect.bottom - origin.1
            &&& kind_for(e.control_type) == Some(out.kind)
        },
{
    if is_seen_as(e, origin, out) {
        let other = choose|k: UiElementKind| is_type_of(e.control_type, k);
        kinds_are_told_apart(other, out.kind, e.control_type);
    }
}

/// All elements that are drawn are listed, in their order, and no others.
pub proof fn drawn_elements_are_listed(
    found: Seq<FoundElement>,
    e: FoundElement,
    origin: (i32, i32),
    out: Seq<ElementRect>,
    o: ElementRect,
)
    requires
        lists_drawn(found, origin, out),
    ensures
        !is_drawn(e) ==> lists_drawn(found.push(e), origin, out),
        is_drawn(e) && is_seen_as(e, origin, o) ==> lists_drawn(found.push(e), origin, out.push(o)),
        is_drawn(e) ==> !lists_drawn(found.push(e), origin, out),
{
    reveal(Seq::filter);
    assert(found.push(e).drop_last() =~= found);
    let before = found.filter(drawn_ones());
    let drawn = found.push(e).filter(drawn_ones());
    assert(drawn == (if is_drawn(e) {
        before.push(e)
    } else {
        before
    }));
    if is_drawn(e) && is_seen_as(e, origin, o) {
        let more = out.push(o);
        assert forall|k: int| 0 <= k < more.len() implies is_seen_as(
            drawn[k],
            origin,
            #[trigger] more[k],
        ) by {
            if k < out.len() {
                assert(more[k] == out[k]);
                assert(drawn[k] == before[k]);
            }
        }
    }
}

/// A changed window is read once its pause is over, the first of those that are
/// due. If none is, the reader waits for the first that will be, and if nothing
/// changed, until it is woken.
pub proof fn changed_windows_are_read_in_turn(ws: Seq<ElementWatch>, now: u64, k: int)
    requires
        0 <= k <= ws.len() <= usize::MAX,
        forall|j: int|
            0 <= j < k ==> !((#[trigger] ws[j]).dirty && (ws[j].next_query is None
                || ws[j].next_query->0 <= now)),
        k < ws.len() ==> ws[k].dirty && (ws[k].next_query is None || ws[k].next_query->0 <= now),
    ensures
        k < ws.len() ==> next_step(ws, now) == NextStep::Query(k as usize),
        k == ws.len() && (forall|j: int| 0 <= j < ws.len() ==> !(#[trigger] ws[j]).dirty)
            ==> next_step(ws, now) == NextStep::Wait,
        k == ws.len() && (exists|j: int| 0 <= j < ws.len() && (#[trigger] ws[j]).dirty) ==> (
        next_step(ws, now) matches NextStep::WaitUntil(t) && (forall|j: int|
            0 <= j < ws.len() && (#[trigger] ws[j]).dirty ==> ws[j].next_query is Some && t
                <= ws[j].next_query->0) && exists|j: int|
            0 <= j < ws.len() && (#[trigger] ws[j]).dirty && ws[j].next_query == Some(t)),
{
    assert forall|j: int| 0 <= j < k implies !is_due(#[trigger] ws[j], now) by {}
    if k < ws.len() {
        assert(is_due(ws[k], now));
        let first = first_due(ws, now);
        assert(0 <= first < ws.len() && is_due(ws[first], now));
        assert(first == k) by {
            if first < k {
                assert(!is_due(ws[first], now));
            }
            if k < first {
                assert(!is_due(ws[k], now));
            }
        }
    } else {
        lemma_earliest_due(ws, now);
        if exists|j: int| 0 <= j < ws.len() && (#[trigger] ws[j]).dirty {
            let t = earliest_due(ws, now)->0;
            assert forall|j: int| 0 <= j < ws.len() && (#[trigger] ws[j]).dirty implies
                ws[j].next_query is Some && t <= ws[j].next_query->0 by {
                assert(!is_due(ws[j], now));
            }
            let j = choose|j: int|
                0 <= j < ws.len() && (#[trigger] ws[j]).dirty && due_of(ws[j], now) == t;
            assert(ws[j].dirty && ws[j].next_query == Some(t));
        }
    }
}

proof fn lemma_earliest_due(ws: Seq<ElementWatch>, now: u64)
    ensures
        match earliest_due(ws, now) {
            None => forall|j: int| 0 <= j < ws.len() ==> !(#[trigger] ws[j]).dirty,
            Some(t) => (forall|j: int|
                0 <= j < ws.len() && (#[trigger] ws[j]).dirty ==> t <= due_of(ws[j], now)) && exists|
                j: int,
            |
                0 <= j < ws.len() && (#[trigger] ws[j]).dirty && due_of(ws[j], now) == t,
        },
    decreases ws.len(),
{
    if ws.len() > 0 {
        let rest = ws.drop_last();
        lemma_earliest_due(rest, now);
        assert forall|j: int| 0 <= j < rest.len() implies rest[j] == ws[j] by {}
        assert(ws[ws.len() - 1] == ws.last());
        match earliest_due(rest, now) {
            Some(t) => {
                let j = choose|j: int|
                    0 <= j < rest.len() && (#[trigger] rest[j]).dirty && due_of(rest[j], now) == t;
                assert(ws[j].dirty && due_of(ws[j], now) == t);
                assert forall|j: int| 0 <= j < rest.len() && (#[trigger] ws[j]).dirty implies t
                    <= due_of(ws[j], now) by {
                    assert(rest[j].dirty);
                }
            },
            None => {
                assert forall|j: int| 0 <= j < rest.len() implies !(#[trigger] ws[j]).dirty by {
                    assert(!rest[j].dirty);
                }
            },
        }
    }
}

/// After a read a window is left alone for twenty times as long as it took, and
/// at least for four tenths of a second. A watch that has ended is let go of.
pub proof fn long_reads_are_followed_by_long_pauses(ended: int, took: int, w: ElementWatch)
    ensures
        20 * took > 400 ==> pause_end(ended, took) == ended + 20 * took,
        20 * took <= 400 ==> pause_end(ended, took) == ended + 400,
        open_ones()(w) <==> !w.closed,
{
}

} // verus!
