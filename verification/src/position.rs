//! Where containers are on the screen.

use vstd::prelude::*;

use crate::container::{ContainerKind, StackContainer, TilingDirection, WorkspaceLayout};
use crate::geometry::{Direction, Rect};
use crate::tree::{position, wf, Tree};
use crate::tree_moves::has_focus;
use crate::window_state::WindowState;

verus! {

/// The workspace that a command goes to.
#[derive(Debug)]
pub enum WorkspaceTarget {
    Name(String),
    Recent,
    NextActive,
    PreviousActive,
    NextActiveInMonitor,
    PreviousActiveInMonitor,
    Next,
    Previous,
    /// The first without windows.
    NextEmpty,
    Direction(Direction),
}

/// Why a container is nowhere.
#[derive(Clone, Copy, Debug, PartialEq, Eq, Structural)]
pub enum PositionError {
    NoParent,
    /// The place of the parent is not known.
    ParentUnplaced,
    /// The parent lays nothing out.
    NoLayout,
    /// The container is not one of those that the parent lays out.
    NotAmongSiblings,
    /// The layout gives it no place.
    IndexOutOfRange,
}

/// What has a place on the screen.
pub trait PositionGetters {
    /// The place, or why there is none.
    spec fn place(&self) -> Result<Rect, PositionError>;

    /// Whether the place can be computed.
    spec fn computable(&self) -> bool;

    fn to_rect(&self) -> (result: Result<Rect, PositionError>)
        requires
            self.computable(),
        ensures
            result == self.place(),
    ;
}

/// What a window is in, as far as its place depends on it.
#[derive(Clone, Copy, Debug, PartialEq, Eq, Structural)]
pub enum WindowParent {
    Missing,
    /// A stack, with the height of its tab bar.
    Stack { rect: Option<Rect>, tab_height: i32 },
    /// What lays its children out in a row or a column, one after the other.
    Row {
        rect: Option<Rect>,
        direction: TilingDirection,
        inner_gap: i32,
        /// How many others take part.
        siblings: i32,
    },
    /// Anything else.
    Other,
}

/// A tiling window, as far as its place depends on it.
#[derive(Clone, Copy, Debug, PartialEq, Eq, Structural)]
pub struct TilingWindowPosition {
    pub parent: WindowParent,
    /// Its share of the length that is left once the gaps are taken off.
    pub length: i32,
    /// The place of the one before it, if there is one; nothing inside if that
    /// is not known.
    pub previous: Option<Option<Rect>>,
}

/// The length that is shared out along the direction: that of the parent
/// without the gaps.
pub open spec fn shared_length(
    rect: Rect,
    direction: TilingDirection,
    inner_gap: int,
    siblings: int,
) -> int {
    let length = match direction {
        TilingDirection::Vertical => rect.spec_height(),
        TilingDirection::Horizontal => rect.spec_width(),
    };
    length - inner_gap * siblings
}

/// The length that is shared out along the direction.
pub fn available_length(rect: &Rect, direction: TilingDirection, inner_gap: i32, siblings: i32) -> (
    result: i32)
    requires
        rect.measurable(),
        i32::MIN <= inner_gap * siblings <= i32::MAX,
        i32::MIN <= shared_length(*rect, direction, inner_gap as int, siblings as int)
            <= i32::MAX,
    ensures
        result == shared_length(*rect, direction, inner_gap as int, siblings as int),
{
    match direction {
        TilingDirection::Vertical => rect.height() - inner_gap * siblings,
        TilingDirection::Horizontal => rect.width() - inner_gap * siblings,
    }
}

/// The place below the tab bar of a stack.
pub open spec fn below_tabs(rect: Rect, tab_height: int) -> Rect {
    if tab_height > 0 {
        Rect { top: (rect.top + tab_height) as i32, ..rect }
    } else {
        rect
    }
}

/// The place of a window of the given length in a row or column that starts at
/// `rect`, behind the one before it.
pub open spec fn in_row(
    rect: Rect,
    direction: TilingDirection,
    inner_gap: int,
    length: int,
    previous: Option<Rect>,
) -> Rect {
    match direction {
        TilingDirection::Vertical => {
            let y = match previous {
                Some(p) => p.top + p.spec_height() + inner_gap,
                None => rect.top as int,
            };
            Rect::spec_from_xy(rect.left as int, y, rect.spec_width(), length)
        },
        TilingDirection::Horizontal => {
            let x = match previous {
                Some(p) => p.left + p.spec_width() + inner_gap,
                None => rect.left as int,
            };
            Rect::spec_from_xy(x, rect.top as int, length, rect.spec_height())
        },
    }
}

/// Whether that place can be computed.
pub open spec fn can_row(
    rect: Rect,
    direction: TilingDirection,
    inner_gap: int,
    length: int,
    previous: Option<Rect>,
) -> bool {
    &&& rect.measurable()
    &&& previous matches Some(p) ==> p.measurable()
    &&& match direction {
        TilingDirection::Vertical => {
            let y = match previous {
                Some(p) => p.top + p.spec_height() + inner_gap,
                None => rect.top as int,
            };
            &&& i32::MIN <= y <= i32::MAX
            &&& i32::MIN <= y + length <= i32::MAX
        },
        TilingDirection::Horizontal => {
            let x = match previous {
                Some(p) => p.left + p.spec_width() + inner_gap,
                None => rect.left as int,
            };
            &&& i32::MIN <= x <= i32::MAX
            &&& i32::MIN <= x + length <= i32::MAX
        },
    }
}

impl PositionGetters for TilingWindowPosition {
    open spec fn place(&self) -> Result<Rect, PositionError> {
        match self.parent {
            WindowParent::Missing => Err(PositionError::NoParent),
            WindowParent::Stack { rect, tab_height } => match rect {
                Some(r) => Ok(below_tabs(r, tab_height as int)),
                None => Err(PositionError::ParentUnplaced),
            },
            WindowParent::Row { rect, direction, inner_gap, siblings } => match rect {
                Some(r) => match self.previous {
                    Some(None) => Err(PositionError::ParentUnplaced),
                    Some(Some(p)) => Ok(
                        in_row(r, direction, inner_gap as int, self.length as int, Some(p)),
                    ),
                    None => Ok(in_row(r, direction, inner_gap as int, self.length as int, None)),
                },
                None => Err(PositionError::ParentUnplaced),
            },
            WindowParent::Other => Err(PositionError::NoLayout),
        }
    }

    open spec fn computable(&self) -> bool {
        match self.parent {
            WindowParent::Stack { rect, tab_height } => rect is Some && tab_height > 0
                ==> rect->0.top + tab_height <= i32::MAX,
            WindowParent::Row { rect, direction, inner_gap, siblings } => match rect {
                Some(r) => match self.previous {
                    Some(None) => true,
                    Some(Some(p)) => can_row(
                        r,
                        direction,
                        inner_gap as int,
                        self.length as int,
                        Some(p),
                    ),
                    None => can_row(r, direction, inner_gap as int, self.length as int, None),
                },
                None => true,
            },
            _ => true,
        }
    }

    fn to_rect(&self) -> (result: Result<Rect, PositionError>) {
        match self.parent {
            WindowParent::Missing => Err(PositionError::NoParent),
            WindowParent::Stack { rect, tab_height } => {
                let rect: Rect = match rect {
                    Some(r) => r,
                    None => {
                        return Err(PositionError::ParentUnplaced);
                    },
                };
                if tab_height > 0 {
                    Ok(Rect::from_ltrb(rect.left, rect.top + tab_height, rect.right, rect.bottom))
                } else {
                    Ok(rect)
                }
            },
            WindowParent::Row { rect, direction, inner_gap, siblings: _ } => {
                let rect: Rect = match rect {
                    Some(r) => r,
                    None => {
                        return Err(PositionError::ParentUnplaced);
                    },
                };
                let previous: Option<Rect> = match self.previous {
                    Some(Some(p)) => Some(p),
                    Some(None) => {
                        return Err(PositionError::ParentUnplaced);
                    },
                    None => None,
                };
                match direction {
                    TilingDirection::Vertical => {
                        let y: i32 = match previous {
                            Some(p) => p.bottom + inner_gap,
                            None => rect.top,
                        };
                        Ok(Rect::from_xy(rect.left, y, rect.width(), self.length))
                    },
                    TilingDirection::Horizontal => {
                        let x: i32 = match previous {
                            Some(p) => p.right + inner_gap,
                            None => rect.left,
                        };
                        Ok(Rect::from_xy(x, rect.top, self.length, rect.height()))
                    },
                }
            },
            WindowParent::Other => Err(PositionError::NoLayout),
        }
    }
}

/// What a split or a stack is in, as far as its place depends on it.
#[derive(Debug)]
pub enum GroupParent {
    Missing,
    /// A stack; a split fills all of it.
    Stack { rect: Option<Rect> },
    /// What lays its children out: those that take part, and the places that
    /// the layout gives them, if its own is known.
    Layout { tiling_children: Vec<u128>, rects: Option<Vec<Rect>> },
    /// Anything else.
    Other,
}

/// A split or a stack, as far as its place depends on it.
#[derive(Debug)]
pub struct GroupPosition {
    pub id: u128,
    pub is_split: bool,
    pub parent: GroupParent,
}

/// The place that a layout gives to `id`.
pub open spec fn given_place(id: u128, children: Seq<u128>, rects: Option<Seq<Rect>>) -> Result<
    Rect,
    PositionError,
> {
    match rects {
        None => Err(PositionError::ParentUnplaced),
        Some(rects) => if !children.contains(id) {
            Err(PositionError::NotAmongSiblings)
        } else if children.index_of(id) < rects.len() {
            Ok(rects[children.index_of(id)])
        } else {
            Err(PositionError::IndexOutOfRange)
        },
    }
}

impl PositionGetters for GroupPosition {
    open spec fn place(&self) -> Result<Rect, PositionError> {
        match self.parent {
            GroupParent::Missing => Err(
                if self.is_split {
                    PositionError::NoParent
                } else {
                    PositionError::NoLayout
                },
            ),
            GroupParent::Stack { rect } => if self.is_split {
                match rect {
                    Some(r) => Ok(r),
                    None => Err(PositionError::ParentUnplaced),
                }
            } else {
                Err(PositionError::NoLayout)
            },
            GroupParent::Layout { tiling_children, rects } => given_place(
                self.id,
                tiling_children@,
                match rects {
                    Some(r) => Some(r@),
                    None => None,
                },
            ),
            GroupParent::Other => Err(PositionError::NoLayout),
        }
    }

    /// No child is listed twice.
    open spec fn computable(&self) -> bool {
        match self.parent {
            GroupParent::Layout { tiling_children, rects } => tiling_children@.no_duplicates(),
            _ => true,
        }
    }

    fn to_rect(&self) -> (result: Result<Rect, PositionError>) {
        match &self.parent {
            GroupParent::Missing => if self.is_split {
                Err(PositionError::NoParent)
            } else {
                Err(PositionError::NoLayout)
            },
            GroupParent::Stack { rect } => if self.is_split {
                match *rect {
                    Some(r) => Ok(r),
                    None => Err(PositionError::ParentUnplaced),
                }
            } else {
                Err(PositionError::NoLayout)
            },
            GroupParent::Layout { tiling_children, rects } => {
                let rects: &Vec<Rect> = match rects {
                    Some(r) => r,
                    None => {
                        return Err(PositionError::ParentUnplaced);
                    },
                };
                let index: usize = match position(tiling_children, self.id) {
                    Some(i) => i,
                    None => {
                        return Err(PositionError::NotAmongSiblings);
                    },
                };
                proof {
                    let i = tiling_children@.index_of(self.id);
                    assert(tiling_children@[i] == self.id);
                    assert(i == index);
                }
                if index < rects.len() {
                    Ok(rects[index])
                } else {
                    Err(PositionError::IndexOutOfRange)
                }
            },
            GroupParent::Other => Err(PositionError::NoLayout),
        }
    }
}

/// The scale that the height of a tab bar is taken at, in millionths: that of
/// the monitor, if it counts. There is none where the monitor is not known.
pub open spec fn spec_tab_bar_scale(scale_with_dpi: bool, monitor_scale: Option<u32>) -> Option<u32> {
    match monitor_scale {
        Some(s) => Some(
            if scale_with_dpi {
                s
            } else {
                1_000_000
            },
        ),
        None => None,
    }
}

/// The scale that the height of a tab bar is taken at, in millionths.
pub fn tab_bar_scale(scale_with_dpi: bool, monitor_scale: Option<u32>) -> (result: Option<u32>)
    ensures
        result == spec_tab_bar_scale(scale_with_dpi, monitor_scale),
{
    match monitor_scale {
        Some(s) => Some(
            if scale_with_dpi {
                s
            } else {
                1_000_000
            },
        ),
        None => None,
    }
}

impl StackContainer {
    /// The height of the tab bar in pixels. `scaled` is its height at the scale
    /// that it is taken at; without a scale, and without a tab bar, there is
    /// none.
    pub fn tab_bar_height_px(is_enabled: bool, scaled: Option<i32>) -> (result: i32)
        ensures
            result == (match scaled {
                Some(height) => if is_enabled {
                    height
                } else {
                    0
                },
                None => 0,
            }),
    {
        match scaled {
            Some(height) => if is_enabled {
                height
            } else {
                0
            },
            None => 0,
        }
    }
}

/// A container as it is told to others.
#[derive(Debug)]
pub struct ContainerInfo {
    pub id: u128,
    pub kind: ContainerKind,
    pub parent_id: Option<u128>,
    pub children: Vec<u128>,
    pub child_focus_order: Vec<u128>,
    pub has_focus: bool,
    pub layout: WorkspaceLayout,
    pub state: WindowState,
    pub handle: isize,
    pub x: i32,
    pub y: i32,
    pub width: i32,
    pub height: i32,
}

fn copy_ids(ids: &Vec<u128>) -> (result: Vec<u128>)
    ensures
        result@ == ids@,
{
    let mut out: Vec<u128> = Vec::new();
    let mut i: usize = 0;
    while i < ids.len()
        invariant
            i <= ids@.len(),
            out@ =~= ids@.subrange(0, i as int),
        decreases ids@.len() - i,
    {
        out.push(ids[i]);
        i = i + 1;
    }
    proof {
        assert(out@ =~= ids@);
    }
    out
}

/// What is told of the container at `id`. One that has no place is not told
/// of.
pub fn to_dto(tree: &Tree, id: u128, rect: Result<Rect, PositionError>) -> (result: Result<
    ContainerInfo,
    PositionError,
>)
    requires
        wf(tree@),
        tree@.contains_key(id),
        rect matches Ok(r) ==> r.measurable(),
    ensures
        match rect {
            Err(e) => result == Err::<ContainerInfo, PositionError>(e),
            Ok(r) => {
                &&& result matches Ok(info)
                &&& info.id == id
                &&& info.kind == tree@[id].kind
                &&& info.parent_id == tree@[id].parent
                &&& info.children@ == tree@[id].children
                &&& info.child_focus_order@ == tree@[id].focus_order
                &&& info.has_focus == has_focus(tree@, id)
                &&& info.layout == tree@[id].layout
                &&& info.state == tree@[id].state
                &&& info.handle == tree@[id].handle
                &&& info.x == r.left
                &&& info.y == r.top
                &&& info.width == r.spec_width()
                &&& info.height == r.spec_height()
            },
        },
{
    let rect: Rect = match rect {
        Ok(r) => r,
        Err(e) => {
            return Err(e);
        },
    };
    let has_focus: bool = tree.has_focus(id);
    let node = tree.get(id);
    Ok(
        ContainerInfo {
            id,
            kind: node.kind,
            parent_id: node.parent,
            children: copy_ids(&node.children),
            child_focus_order: copy_ids(&node.focus_order),
            has_focus,
            layout: node.layout,
            state: node.state,
            handle: node.handle,
            x: rect.x(),
            y: rect.y(),
            width: rect.width(),
            height: rect.height(),
        },
    )
}

/// Two windows that follow each other in a row or column are exactly the gap
/// apart, and as broad as their parent.
pub proof fn neighbors_keep_the_gap(
    rect: Rect,
    direction: TilingDirection,
    inner_gap: int,
    length: int,
    previous: Rect,
)
    requires
        can_row(rect, direction, inner_gap, length, Some(previous)),
    ensures
        ({
            let r = in_row(rect, direction, inner_gap, length, Some(previous));
            match direction {
                TilingDirection::Vertical => {
                    &&& r.top == previous.bottom + inner_gap
                    &&& r.spec_height() == length
                    &&& r.left == rect.left && r.right == rect.right
                },
                TilingDirection::Horizontal => {
                    &&& r.left == previous.right + inner_gap
                    &&& r.spec_width() == length
                    &&& r.top == rect.top && r.bottom == rect.bottom
                },
            }
        }),
{
}

/// All windows of a stack are at the same place, within the stack.
pub proof fn stacked_windows_share_their_place(
    a: TilingWindowPosition,
    b: TilingWindowPosition,
    rect: Rect,
    tab_height: i32,
)
    requires
        a.parent == (WindowParent::Stack { rect: Some(rect), tab_height }),
        b.parent == a.parent,
        0 <= tab_height <= rect.spec_height(),
        rect.measurable(),
    ensures
        a.place() == b.place(),
        a.place() matches Ok(r) && rect.left == r.left && rect.right == r.right && rect.bottom
            == r.bottom && rect.top <= r.top <= rect.bottom,
{
}

/// The first window of a row or column stands at its start, and is as broad as
/// it.
pub proof fn the_first_stands_at_the_start(
    rect: Rect,
    direction: TilingDirection,
    inner_gap: int,
    length: int,
)
    requires
        can_row(rect, direction, inner_gap, length, None),
    ensures
        ({
            let r = in_row(rect, direction, inner_gap, length, None);
            &&& r.left == rect.left
            &&& r.top == rect.top
            &&& direction == TilingDirection::Vertical ==> r.bottom == rect.top + length && r.right
                == rect.right
            &&& direction == TilingDirection::Horizontal ==> r.right == rect.left + length
                && r.bottom == rect.bottom
        }),
{
}

/// What is shared out along a row or column is its length without the gaps, of
/// which there is one for each other that takes part.
pub proof fn gaps_are_not_shared_out(rect: Rect, inner_gap: int, siblings: int)
    ensures
        shared_length(rect, TilingDirection::Vertical, inner_gap, siblings) == rect.bottom - rect.top
            - inner_gap * siblings,
        shared_length(rect, TilingDirection::Horizontal, inner_gap, siblings) == rect.right
            - rect.left - inner_gap * siblings,
{
}

/// A tab bar takes its height off the top of what a stack shows.
pub proof fn tab_bars_take_off_the_top(rect: Rect, tab_height: int)
    requires
        rect.top + tab_height <= i32::MAX,
    ensures
        tab_height > 0 ==> below_tabs(rect, tab_height).top == rect.top + tab_height,
        tab_height <= 0 ==> below_tabs(rect, tab_height).top == rect.top,
        below_tabs(rect, tab_height).left == rect.left,
        below_tabs(rect, tab_height).right == rect.right,
        below_tabs(rect, tab_height).bottom == rect.bottom,
{
}

/// A tiling window is placed by its parent: by a stack below the tabs, and by a
/// row or column behind the one before it. Where the parent or the one before it
/// is not placed, the window is not either.
pub proof fn tiling_windows_are_placed_by_their_parents(
    w: TilingWindowPosition,
    r: Rect,
    tab_height: i32,
    direction: TilingDirection,
    inner_gap: i32,
    siblings: i32,
    p: Rect,
)
    ensures
        w.parent is Missing ==> w.place() == Err::<Rect, PositionError>(PositionError::NoParent),
        w.parent is Other ==> w.place() == Err::<Rect, PositionError>(PositionError::NoLayout),
        w.parent == (WindowParent::Stack { rect: None, tab_height }) ==> w.place() == Err::<
            Rect,
            PositionError,
        >(PositionError::ParentUnplaced),
        w.parent == (WindowParent::Stack { rect: Some(r), tab_height }) ==> w.place() == Ok::<
            Rect,
            PositionError,
        >(below_tabs(r, tab_height as int)),
        w.parent == (WindowParent::Row { rect: None, direction, inner_gap, siblings }) ==> w.place()
            == Err::<Rect, PositionError>(PositionError::ParentUnplaced),
        w.parent == (WindowParent::Row { rect: Some(r), direction, inner_gap, siblings }) ==> {
            &&& w.previous == Some(None::<Rect>) ==> w.place() == Err::<Rect, PositionError>(
                PositionError::ParentUnplaced,
            )
            &&& w.previous == Some(Some(p)) ==> w.place() == Ok::<Rect, PositionError>(
                in_row(r, direction, inner_gap as int, w.length as int, Some(p)),
            )
            &&& w.previous is None ==> w.place() == Ok::<Rect, PositionError>(
                in_row(r, direction, inner_gap as int, w.length as int, None),
            )
        },
{
}

/// A split or stack is where the layout of its parent puts it: at the place with
/// the number that it has among the children. In a stack a split fills all of
/// it.
pub proof fn groups_are_placed_by_their_parents(
    g: GroupPosition,
    children: Vec<u128>,
    rects: Vec<Rect>,
    r: Rect,
    i: int,
)
    ensures
        g.parent is Missing && g.is_split ==> g.place() == Err::<Rect, PositionError>(
            PositionError::NoParent,
        ),
        g.parent is Missing && !g.is_split ==> g.place() == Err::<Rect, PositionError>(
            PositionError::NoLayout,
        ),
        g.parent is Other ==> g.place() == Err::<Rect, PositionError>(PositionError::NoLayout),
        g.parent == (GroupParent::Stack { rect: Some(r) }) && g.is_split ==> g.place() == Ok::<
            Rect,
            PositionError,
        >(r),
        g.parent == (GroupParent::Stack { rect: None }) && g.is_split ==> g.place() == Err::<
            Rect,
            PositionError,
        >(PositionError::ParentUnplaced),
        g.parent is Stack && !g.is_split ==> g.place() == Err::<Rect, PositionError>(
            PositionError::NoLayout,
        ),
        g.parent == (GroupParent::Layout { tiling_children: children, rects: None }) ==> g.place()
            == Err::<Rect, PositionError>(PositionError::ParentUnplaced),
        g.parent == (GroupParent::Layout { tiling_children: children, rects: Some(rects) }) ==> {
            &&& !children@.contains(g.id) ==> g.place() == Err::<Rect, PositionError>(
                PositionError::NotAmongSiblings,
            )
            &&& children@.no_duplicates() && 0 <= i < children@.len() && children@[i] == g.id
                ==> g.place() == (if i < rects@.len() {
                Ok::<Rect, PositionError>(rects@[i])
            } else {
                Err::<Rect, PositionError>(PositionError::IndexOutOfRange)
            })
        },
{
    if children@.no_duplicates() && 0 <= i < children@.len() && children@[i] == g.id {
        crate::tree::lemma_index_of(children@, g.id, i);
    }
}

/// A tab bar is as high as the monitor is scaled, if it goes by that, and there
/// is no height without a monitor.
pub proof fn tab_bars_go_by_the_scale(scale: u32, scale_with_dpi: bool)
    ensures
        spec_tab_bar_scale(true, Some(scale)) == Some(scale),
        spec_tab_bar_scale(false, Some(scale)) == Some(1_000_000u32),
        spec_tab_bar_scale(scale_with_dpi, None) is None,
{
}

} // verus!
