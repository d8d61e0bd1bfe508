//! What the system reports of windows, as events of the window manager.

use vstd::prelude::*;

verus! {

pub const EVENT_SYSTEM_FOREGROUND: u32 = 3;

pub const EVENT_SYSTEM_MOVESIZESTART: u32 = 10;

pub const EVENT_SYSTEM_MOVESIZEEND: u32 = 11;

pub const EVENT_SYSTEM_MINIMIZESTART: u32 = 22;

pub const EVENT_SYSTEM_MINIMIZEEND: u32 = 23;

pub const EVENT_OBJECT_DESTROY: u32 = 32769;

pub const EVENT_OBJECT_SHOW: u32 = 32770;

pub const EVENT_OBJECT_HIDE: u32 = 32771;

pub const EVENT_OBJECT_REORDER: u32 = 32772;

pub const EVENT_OBJECT_LOCATIONCHANGE: u32 = 32779;

pub const EVENT_OBJECT_NAMECHANGE: u32 = 32780;

pub const EVENT_OBJECT_CLOAKED: u32 = 32791;

pub const EVENT_OBJECT_UNCLOAKED: u32 = 32792;

/// The object that stands for a window as a whole.
pub const OBJID_WINDOW: i32 = 0;

/// The shell's notice that a window flashes its button: its notice of a
/// redraw (6) with the high bit (32768).
pub const HSHELL_FLASH: u32 = 32774;

/// What the platform adds to an event: nothing.
#[derive(Clone, Copy, Debug, PartialEq, Eq, Structural)]
pub struct WindowEventNotificationInner;

/// What happened to a window. Windows are given by their handles.
#[derive(Clone, Copy, Debug, PartialEq, Eq, Structural)]
pub enum WindowEvent {
    AttentionRequested { window: isize },
    Destroyed { window_id: isize },
    Focused { window: isize },
    Hidden { window: isize },
    MovedOrResized { window: isize, is_interactive_start: bool, is_interactive_end: bool },
    Minimized { window: isize },
    MinimizeEnded { window: isize },
    Shown { window: isize },
    TitleChanged { window: isize },
    ZOrderChanged,
}

/// What a report of the system says of a window.
pub open spec fn event_of_window(event_type: u32, window: isize) -> Option<WindowEvent> {
    if event_type == EVENT_OBJECT_DESTROY {
        Some(WindowEvent::Destroyed { window_id: window })
    } else if event_type == EVENT_SYSTEM_FOREGROUND {
        Some(WindowEvent::Focused { window })
    } else if event_type == EVENT_OBJECT_HIDE || event_type == EVENT_OBJECT_CLOAKED {
        Some(WindowEvent::Hidden { window })
    } else if event_type == EVENT_SYSTEM_MINIMIZESTART {
        Some(WindowEvent::Minimized { window })
    } else if event_type == EVENT_SYSTEM_MINIMIZEEND {
        Some(WindowEvent::MinimizeEnded { window })
    } else if event_type == EVENT_OBJECT_SHOW || event_type == EVENT_OBJECT_UNCLOAKED {
        Some(WindowEvent::Shown { window })
    } else if event_type == EVENT_OBJECT_NAMECHANGE {
        Some(WindowEvent::TitleChanged { window })
    } else if event_type == EVENT_OBJECT_LOCATIONCHANGE || event_type
        == EVENT_SYSTEM_MOVESIZESTART || event_type == EVENT_SYSTEM_MOVESIZEEND {
        Some(
            WindowEvent::MovedOrResized {
                window,
                is_interactive_start: event_type == EVENT_SYSTEM_MOVESIZESTART,
                is_interactive_end: event_type == EVENT_SYSTEM_MOVESIZEEND,
            },
        )
    } else {
        None
    }
}

/// What a report of the system says. A new order of the windows is reported of
/// the desktop; everything else of a window, and what is reported of a part of
/// one says nothing.
pub open spec fn event_of(
    event_type: u32,
    handle: isize,
    id_object: i32,
    id_child: i32,
    desktop: isize,
) -> Option<WindowEvent> {
    if event_type == EVENT_OBJECT_REORDER {
        if handle == desktop {
            Some(WindowEvent::ZOrderChanged)
        } else {
            None
        }
    } else if id_object == OBJID_WINDOW && id_child == 0 && handle != 0 {
        event_of_window(event_type, handle)
    } else {
        None
    }
}

/// Reads a report of the system. `desktop` is the handle of the desktop.
pub fn window_event(
    event_type: u32,
    handle: isize,
    id_object: i32,
    id_child: i32,
    desktop: isize,
) -> (result: Option<WindowEvent>)
    ensures
        result == event_of(event_type, handle, id_object, id_child, desktop),
{
    if event_type == EVENT_OBJECT_REORDER {
        return if handle == desktop {
            Some(WindowEvent::ZOrderChanged)
        } else {
            None
        };
    }
    let is_window_event: bool = id_object == OBJID_WINDOW && id_child == 0 && handle != 0;
    if !is_window_event {
        return None;
    }
    let window: isize = handle;
    if event_type == EVENT_OBJECT_DESTROY {
        Some(WindowEvent::Destroyed { window_id: window })
    } else if event_type == EVENT_SYSTEM_FOREGROUND {
        Some(WindowEvent::Focused { window })
    } else if event_type == EVENT_OBJECT_HIDE || event_type == EVENT_OBJECT_CLOAKED {
        Some(WindowEvent::Hidden { window })
    } else if event_type == EVENT_OBJECT_LOCATIONCHANGE {
        Some(
            WindowEvent::MovedOrResized {
                window,
                is_interactive_start: false,
                is_interactive_end: false,
            },
        )
    } else if event_type == EVENT_SYSTEM_MINIMIZESTART {
        Some(WindowEvent::Minimized { window })
    } else if event_type == EVENT_SYSTEM_MINIMIZEEND {
        Some(WindowEvent::MinimizeEnded { window })
    } else if event_type == EVENT_SYSTEM_MOVESIZESTART {
        Some(
            WindowEvent::MovedOrResized {
                window,
                is_interactive_start: true,
                is_interactive_end: false,
            },
        )
    } else if event_type == EVENT_SYSTEM_MOVESIZEEND {
        Some(
            WindowEvent::MovedOrResized {
                window,
                is_interactive_start: false,
                is_interactive_end: true,
            },
        )
    } else if event_type == EVENT_OBJECT_SHOW || event_type == EVENT_OBJECT_UNCLOAKED {
        Some(WindowEvent::Shown { window })
    } else if event_type == EVENT_OBJECT_NAMECHANGE {
        Some(WindowEvent::TitleChanged { window })
    } else {
        None
    }
}

/// What a message to the window manager's own window comes down to.
#[derive(Clone, Copy, Debug, PartialEq, Eq, Structural)]
pub enum ShellReply {
    /// It is none of the shell's; others may handle it.
    NotShell,
    /// It is the shell's and says nothing of interest.
    Ignored,
    Event(WindowEvent),
}

/// Reads a message. `shell_message` is the number of the shell's messages; the
/// lower half of `wparam` says what it is about, `lparam` is the window.
pub fn shell_event(message: u32, shell_message: u32, wparam: u64, lparam: isize) -> (result:
    ShellReply)
    ensures
        result == (if message != shell_message {
            ShellReply::NotShell
        } else if wparam % 0x1_0000_0000 == HSHELL_FLASH {
            ShellReply::Event(WindowEvent::AttentionRequested { window: lparam })
        } else {
            ShellReply::Ignored
        }),
{
    if message != shell_message {
        return ShellReply::NotShell;
    }
    if wparam % 0x1_0000_0000 == HSHELL_FLASH as u64 {
        ShellReply::Event(WindowEvent::AttentionRequested { window: lparam })
    } else {
        ShellReply::Ignored
    }
}

/// Why a listener could not be made.
#[derive(Clone, Copy, Debug, PartialEq, Eq, Structural)]
pub enum ListenerError {
    SenderAlreadySet,
    ShellHookRefused,
    EventHookRefused,
}

/// The ranges of reports that are asked for, one hook for each.
pub open spec fn event_ranges() -> Seq<(u32, u32)> {
    seq![
        (EVENT_OBJECT_DESTROY, EVENT_OBJECT_REORDER),
        (EVENT_SYSTEM_MINIMIZESTART, EVENT_SYSTEM_MINIMIZEEND),
        (EVENT_SYSTEM_MOVESIZESTART, EVENT_SYSTEM_MOVESIZEEND),
        (EVENT_SYSTEM_FOREGROUND, EVENT_SYSTEM_FOREGROUND),
        (EVENT_OBJECT_LOCATIONCHANGE, EVENT_OBJECT_NAMECHANGE),
        (EVENT_OBJECT_CLOAKED, EVENT_OBJECT_UNCLOAKED),
    ]
}

/// The ranges of reports that are asked for.
pub fn hook_ranges() -> (result: Vec<(u32, u32)>)
    ensures
        result@ == event_ranges(),
{
    let mut ranges: Vec<(u32, u32)> = Vec::new();
    ranges.push((EVENT_OBJECT_DESTROY, EVENT_OBJECT_REORDER));
    ranges.push((EVENT_SYSTEM_MINIMIZESTART, EVENT_SYSTEM_MINIMIZEEND));
    ranges.push((EVENT_SYSTEM_MOVESIZESTART, EVENT_SYSTEM_MOVESIZEEND));
    ranges.push((EVENT_SYSTEM_FOREGROUND, EVENT_SYSTEM_FOREGROUND));
    ranges.push((EVENT_OBJECT_LOCATIONCHANGE, EVENT_OBJECT_NAMECHANGE));
    ranges.push((EVENT_OBJECT_CLOAKED, EVENT_OBJECT_UNCLOAKED));
    proof {
        assert(ranges@ =~= event_ranges());
    }
    ranges
}

/// Whether a hook was refused.
pub open spec fn is_refused(handle: isize) -> bool {
    handle == 0 || handle == -1
}

/// A listener: its hooks and the callback for the shell's messages.
#[derive(Debug)]
pub struct WindowListener {
    pub hook_handles: Vec<isize>,
    pub shell_hook_callback_id: Option<usize>,
}

/// What a listener leaves behind to be released.
#[derive(Debug)]
pub struct Released {
    pub hooks: Vec<isize>,
    pub callback: Option<usize>,
}

impl WindowListener {
    /// A listener with its shell callback, and no hooks yet. It cannot be made
    /// if the shell refuses to call back, nor if events are sent somewhere
    /// already (`sender_is_set`).
    pub fn new(shell_hook_callback_id: Option<usize>, sender_is_set: bool) -> (result: Result<
        WindowListener,
        ListenerError,
    >)
        ensures
            match result {
                Ok(listener) => {
                    &&& shell_hook_callback_id is Some
                    &&& !sender_is_set
                    &&& listener.hook_handles@ == Seq::<isize>::empty()
                    &&& listener.shell_hook_callback_id == shell_hook_callback_id
                },
                Err(e) => if shell_hook_callback_id is None {
                    e == ListenerError::ShellHookRefused
                } else {
                    sender_is_set && e == ListenerError::SenderAlreadySet
                },
            },
    {
        if shell_hook_callback_id.is_none() {
            return Err(ListenerError::ShellHookRefused);
        }
        if sender_is_set {
            return Err(ListenerError::SenderAlreadySet);
        }
        Ok(WindowListener { hook_handles: Vec::new(), shell_hook_callback_id })
    }

    /// Takes up the hook that was made for the next range. A refused one ends
    /// the making of the listener.
    pub fn add_hook(&mut self, handle: isize) -> (result: Result<(), ListenerError>)
        ensures
            final(self).shell_hook_callback_id == old(self).shell_hook_callback_id,
            match result {
                Ok(_) => {
                    &&& !is_refused(handle)
                    &&& final(self).hook_handles@ == old(self).hook_handles@.push(handle)
                },
                Err(e) => {
                    &&& is_refused(handle)
                    &&& e == ListenerError::EventHookRefused
                    &&& final(self).hook_handles@ == old(self).hook_handles@
                },
            },
    {
        if handle == 0 || handle == -1 {
            return Err(ListenerError::EventHookRefused);
        }
        self.hook_handles.push(handle);
        Ok(())
    }

    /// Ends the listener: what it gives back is released, and it holds nothing
    /// any more, so that ending it again releases nothing.
    pub fn terminate(&mut self) -> (released: Released)
        ensures
            released.hooks@ == old(self).hook_handles@,
            released.callback == old(self).shell_hook_callback_id,
            final(self).hook_handles@ == Seq::<isize>::empty(),
            final(self).shell_hook_callback_id is None,
    {
        let mut hooks: Vec<isize> = Vec::new();
        std::mem::swap(&mut hooks, &mut self.hook_handles);
        let callback: Option<usize> = self.shell_hook_callback_id;
        self.shell_hook_callback_id = None;
        Released { hooks, callback }
    }
}

/// Whether a kind of report is asked for.
pub open spec fn is_hooked(event_type: u32) -> bool {
    exists|i: int|
        0 <= i < event_ranges().len() && (#[trigger] event_ranges()[i]).0 <= event_type
            <= event_ranges()[i].1
}

/// Every kind of report that says something is asked for.
pub proof fn every_event_is_hooked(
    event_type: u32,
    handle: isize,
    id_object: i32,
    id_child: i32,
    desktop: isize,
)
    requires
        event_of(event_type, handle, id_object, id_child, desktop) is Some,
    ensures
        is_hooked(event_type),
{
    let r = event_ranges();
    assert(r[0] == (EVENT_OBJECT_DESTROY, EVENT_OBJECT_REORDER));
    assert(r[1] == (EVENT_SYSTEM_MINIMIZESTART, EVENT_SYSTEM_MINIMIZEEND));
    assert(r[2] == (EVENT_SYSTEM_MOVESIZESTART, EVENT_SYSTEM_MOVESIZEEND));
    assert(r[3] == (EVENT_SYSTEM_FOREGROUND, EVENT_SYSTEM_FOREGROUND));
    assert(r[4] == (EVENT_OBJECT_LOCATIONCHANGE, EVENT_OBJECT_NAMECHANGE));
    assert(r[5] == (EVENT_OBJECT_CLOAKED, EVENT_OBJECT_UNCLOAKED));
}

/// What each kind of report says of a window.
pub proof fn reports_have_their_meaning(handle: isize, desktop: isize)
    requires
        handle != 0,
    ensures
        event_of(3, handle, 0, 0, desktop) == Some(WindowEvent::Focused { window: handle }),
        event_of(10, handle, 0, 0, desktop) == Some(
            WindowEvent::MovedOrResized {
                window: handle,
                is_interactive_start: true,
                is_interactive_end: false,
            },
        ),
        event_of(11, handle, 0, 0, desktop) == Some(
            WindowEvent::MovedOrResized {
                window: handle,
                is_interactive_start: false,
                is_interactive_end: true,
            },
        ),
        event_of(32779, handle, 0, 0, desktop) == Some(
            WindowEvent::MovedOrResized {
                window: handle,
                is_interactive_start: false,
                is_interactive_end: false,
            },
        ),
        event_of(22, handle, 0, 0, desktop) == Some(WindowEvent::Minimized { window: handle }),
        event_of(23, handle, 0, 0, desktop) == Some(WindowEvent::MinimizeEnded { window: handle }),
        event_of(32769, handle, 0, 0, desktop) == Some(WindowEvent::Destroyed { window_id: handle }),
        event_of(32770, handle, 0, 0, desktop) == Some(WindowEvent::Shown { window: handle }),
        event_of(32792, handle, 0, 0, desktop) == Some(WindowEvent::Shown { window: handle }),
        event_of(32771, handle, 0, 0, desktop) == Some(WindowEvent::Hidden { window: handle }),
        event_of(32791, handle, 0, 0, desktop) == Some(WindowEvent::Hidden { window: handle }),
        event_of(32780, handle, 0, 0, desktop) == Some(WindowEvent::TitleChanged { window: handle }),
{
}

/// A new order of the windows is reported of the desktop, and everything else of
/// a whole window. All other reports say nothing.
pub proof fn other_reports_say_nothing(
    event_type: u32,
    handle: isize,
    id_object: i32,
    id_child: i32,
    desktop: isize,
)
    ensures
        event_type == 32772 ==> event_of(event_type, handle, id_object, id_child, desktop) == (
        if handle == desktop {
            Some(WindowEvent::ZOrderChanged)
        } else {
            None
        }),
        event_type != 32772 && (id_object != 0 || id_child != 0 || handle == 0) ==> event_of(
            event_type,
            handle,
            id_object,
            id_child,
            desktop,
        ) is None,
        event_of(event_type, handle, id_object, id_child, desktop) is Some ==> event_type == 3
            || 10 <= event_type <= 11 || 22 <= event_type <= 23 || 32769 <= event_type <= 32772
            || 32779 <= event_type <= 32780 || 32791 <= event_type <= 32792,
{
}

/// No report is asked for but those that may say something. A hook is refused
/// by a handle that is zero or minus one.
pub proof fn only_events_are_hooked(event_type: u32, handle: isize)
    ensures
        is_hooked(event_type) ==> event_type == 3 || 10 <= event_type <= 11 || 22 <= event_type <= 23
            || 32769 <= event_type <= 32772 || 32779 <= event_type <= 32780 || 32791 <= event_type
            <= 32792,
        is_refused(handle) <==> handle == 0 || handle == -1,
        HSHELL_FLASH == 32774,
{
}

} // verus!
