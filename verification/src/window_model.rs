//! What is known of a window beside its place in the tree.

use vstd::prelude::*;

use crate::geometry::Rect;
use crate::ids::{draw_id, is_random_uuid};
use crate::manage::InsertionTarget;
use crate::window_state::{DisplayState, WindowState};

verus! {

/// How many characters a title may have to be written out.
pub const MAX_TITLE_CHARS: usize = 20;

/// How many characters of a longer title are written out.
pub const SHORT_TITLE_CHARS: usize = 17;

/// A title, cut short if it is long.
pub open spec fn shortened(title: Seq<char>) -> Seq<char> {
    if title.len() > MAX_TITLE_CHARS {
        title.subrange(0, SHORT_TITLE_CHARS as int) + "..."@
    } else {
        title
    }
}

/// A title, cut short if it is long.
pub fn shortened_title(title: &String) -> (result: String)
    ensures
        result@ == shortened(title@),
{
    let text: &str = title.as_str();
    if text.unicode_len() <= MAX_TITLE_CHARS {
        return title.clone();
    }
    let mut out = text.substring_char(0, SHORT_TITLE_CHARS).to_owned();
    out.append("...");
    out
}

/// A window in words: its id, its process, its class and its title.
pub open spec fn described(
    id: Seq<char>,
    process: Seq<char>,
    class: Seq<char>,
    title: Seq<char>,
) -> Seq<char> {
    "Window(id="@ + id + ", process="@ + process + ", class="@ + class + ", title="@ + shortened(
        title,
    ) + ")"@
}

/// A window in words.
pub fn describe_window(id: &String, process: &String, class: &String, title: &String) -> (result:
    String)
    ensures
        result@ == described(id@, process@, class@, title@),
{
    let mut out = "Window(id=".to_owned();
    out.append(id.as_str());
    out.append(", process=");
    out.append(process.as_str());
    out.append(", class=");
    out.append(class.as_str());
    out.append(", title=");
    let short = shortened_title(title);
    out.append(short.as_str());
    out.append(")");
    out
}

/// A window and how it is kept.
#[derive(Clone, Copy, Debug, PartialEq, Eq, Structural)]
pub struct WindowModel {
    pub id: u128,
    pub handle: isize,
    pub state: WindowState,
    pub prev_state: Option<WindowState>,
    pub display_state: DisplayState,
    pub has_pending_dpi_adjustment: bool,
    pub floating_placement: Rect,
    pub has_custom_floating_placement: bool,
    /// Where it goes when it tiles again.
    pub insertion_target: Option<InsertionTarget>,
}

/// A tiling window under `id`, as it is before anything happens to it.
pub open spec fn new_tiling(
    id: u128,
    handle: isize,
    prev_state: Option<WindowState>,
    floating_placement: Rect,
    has_custom_floating_placement: bool,
) -> WindowModel {
    WindowModel {
        id,
        handle,
        state: WindowState::Tiling,
        prev_state,
        display_state: DisplayState::Shown,
        has_pending_dpi_adjustment: false,
        floating_placement,
        has_custom_floating_placement,
        insertion_target: None,
    }
}

impl WindowModel {
    /// A tiling window, under an id of its own unless it is given one.
    pub fn new(
        id: Option<u128>,
        handle: isize,
        prev_state: Option<WindowState>,
        floating_placement: Rect,
        has_custom_floating_placement: bool,
    ) -> (window: WindowModel)
        ensures
            window == new_tiling(
                window.id,
                handle,
                prev_state,
                floating_placement,
                has_custom_floating_placement,
            ),
            match id {
                Some(i) => window.id == i,
                None => is_random_uuid(window.id),
            },
    {
        let id: u128 = match id {
            Some(i) => i,
            None => draw_id(),
        };
        WindowModel {
            id,
            handle,
            state: WindowState::Tiling,
            prev_state,
            display_state: DisplayState::Shown,
            has_pending_dpi_adjustment: false,
            floating_placement,
            has_custom_floating_placement,
            insertion_target: None,
        }
    }

    /// The same window in a mode in which it does not tile.
    pub fn to_non_tiling(
        &self,
        state: WindowState,
        insertion_target: Option<InsertionTarget>,
    ) -> (window: WindowModel)
        ensures
            window == (WindowModel {
                state,
                prev_state: Some(WindowState::Tiling),
                insertion_target,
                ..new_tiling(
                    self.id,
                    self.handle,
                    None,
                    self.floating_placement,
                    self.has_custom_floating_placement,
                )
            }),
    {
        WindowModel {
            id: self.id,
            handle: self.handle,
            state,
            prev_state: Some(WindowState::Tiling),
            display_state: DisplayState::Shown,
            has_pending_dpi_adjustment: false,
            floating_placement: self.floating_placement,
            has_custom_floating_placement: self.has_custom_floating_placement,
            insertion_target,
        }
    }
}

/// Titles of up to twenty characters are written out. Of longer ones the first
/// seventeen are, and three dots.
pub proof fn long_titles_are_cut_short(title: Seq<char>, i: int)
    ensures
        title.len() <= 20 ==> shortened(title) == title,
        title.len() > 20 ==> shortened(title).len() == 20 && (0 <= i < 17 ==> shortened(title)[i]
            == title[i]) && (17 <= i < 20 ==> shortened(title)[i] == '.'),
{
    reveal_strlit("...");
}

/// A window in words names its parts in turn.
pub proof fn windows_are_described_by_their_parts(
    id: Seq<char>,
    process: Seq<char>,
    class: Seq<char>,
    title: Seq<char>,
)
    requires
        title.len() <= 20,
    ensures
        described(id, process, class, title) == "Window(id="@ + id + ", process="@ + process
            + ", class="@ + class + ", title="@ + title + ")"@,
{
}

/// A new window tiles, is shown, and has nothing pending.
pub proof fn new_windows_tile(
    id: u128,
    handle: isize,
    prev_state: Option<WindowState>,
    floating_placement: Rect,
    has_custom_floating_placement: bool,
)
    ensures
        ({
            let w = new_tiling(
                id,
                handle,
                prev_state,
                floating_placement,
                has_custom_floating_placement,
            );
            &&& w.id == id
            &&& w.handle == handle
            &&& w.state is Tiling
            &&& w.prev_state == prev_state
            &&& w.display_state is Shown
            &&& !w.has_pending_dpi_adjustment
            &&& w.floating_placement == floating_placement
            &&& w.has_custom_floating_placement == has_custom_floating_placement
            &&& w.insertion_target is None
        }),
{
}

} // verus!
