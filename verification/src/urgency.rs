//! Windows that ask for attention.

use vstd::prelude::*;

use crate::container::ContainerKind;
use crate::tree::{nearest, position, wf, Nodes, Tree};

verus! {

/// How long a window that has asked for attention is not heard again, in
/// milliseconds.
pub const ALERT_DEBOUNCE: u64 = 3000;

/// What a request for attention, or its end, changes.
#[derive(Clone, Copy, Debug, PartialEq, Eq, Structural)]
pub struct UrgencyChange {
    /// When the window asked for attention.
    pub alert_at: Option<u64>,
    /// Whether the change is told to others.
    pub emits: bool,
}

/// What marking a window as urgent at `now`, or clearing it, changes. A window
/// that has the focus does not become urgent, and one that keeps asking is
/// heard once per interval.
pub open spec fn urgency(
    alert_at: Option<u64>,
    is_urgent: bool,
    has_focus: bool,
    now: u64,
) -> UrgencyChange {
    if is_urgent {
        if has_focus || (alert_at matches Some(at) && now - at < ALERT_DEBOUNCE) {
            UrgencyChange { alert_at, emits: false }
        } else {
            UrgencyChange { alert_at: Some(now), emits: true }
        }
    } else {
        UrgencyChange { alert_at: None, emits: alert_at is Some }
    }
}

/// Marks a window as urgent at `now`, or clears it. `alert_at` is when it asked
/// for attention before. Clearing changes something only where the window was
/// urgent.
pub fn set_window_urgency(alert_at: Option<u64>, is_urgent: bool, has_focus: bool, now: u64) -> (
    result: UrgencyChange)
    ensures
        result == urgency(alert_at, is_urgent, has_focus, now),
{
    if is_urgent {
        if has_focus {
            return UrgencyChange { alert_at, emits: false };
        }
        if let Some(at) = alert_at {
            if now < at || now - at < ALERT_DEBOUNCE {
                return UrgencyChange { alert_at, emits: false };
            }
        }
        UrgencyChange { alert_at: Some(now), emits: true }
    } else {
        UrgencyChange { alert_at: None, emits: alert_at.is_some() }
    }
}

/// What a window that asks for attention brings about.
#[derive(Clone, Copy, Debug, PartialEq, Eq, Structural)]
pub struct AttentionPlan {
    /// Whether it is marked as urgent.
    pub marks: bool,
    /// Whether its button stops flashing.
    pub stops_flashing: bool,
}

/// Decides what a window that asks for attention brings about. `has_focus` is
/// nothing if the window is not managed. One that has the focus already brings
/// about nothing.
pub fn handle_window_attention_requested(
    has_focus: Option<bool>,
    suppress_taskbar_flash: bool,
) -> (result: AttentionPlan)
    ensures
        result == (AttentionPlan {
            marks: has_focus == Some(false),
            stops_flashing: has_focus == Some(false) && suppress_taskbar_flash,
        }),
{
    match has_focus {
        Some(false) => AttentionPlan { marks: true, stops_flashing: suppress_taskbar_flash },
        _ => AttentionPlan { marks: false, stops_flashing: false },
    }
}

/// A window and when it asked for attention.
#[derive(Clone, Copy, Debug, PartialEq, Eq, Structural)]
pub struct AlertedWindow {
    pub id: u128,
    pub alert_at: Option<u64>,
}

/// The place of the window that asked for attention last; of those that asked
/// at the same time, the last one.
pub open spec fn most_urgent(ws: Seq<AlertedWindow>) -> Option<int>
    decreases ws.len(),
{
    if ws.len() == 0 {
        None
    } else {
        let before = most_urgent(ws.drop_last());
        match ws.last().alert_at {
            None => before,
            Some(at) => match before {
                Some(b) => if ws[b].alert_at->0 > at {
                    before
                } else {
                    Some(ws.len() - 1)
                },
                None => Some(ws.len() - 1),
            },
        }
    }
}

proof fn lemma_most_urgent(ws: Seq<AlertedWindow>)
    ensures
        match most_urgent(ws) {
            Some(i) => {
                &&& 0 <= i < ws.len()
                &&& ws[i].alert_at is Some
                &&& forall|k: int|
                    0 <= k < ws.len() && (#[trigger] ws[k]).alert_at is Some ==> ws[k].alert_at->0
                        <= ws[i].alert_at->0
            },
            None => forall|k: int| 0 <= k < ws.len() ==> (#[trigger] ws[k]).alert_at is None,
        },
    decreases ws.len(),
{
    if ws.len() > 0 {
        let rest = ws.drop_last();
        lemma_most_urgent(rest);
        assert forall|k: int| 0 <= k < rest.len() implies rest[k] == ws[k] by {}
        match most_urgent(ws) {
            Some(i) => {
                assert forall|k: int|
                    0 <= k < ws.len() && (#[trigger] ws[k]).alert_at is Some implies ws[k].alert_at->0
                    <= ws[i].alert_at->0 by {
                    if k < rest.len() {
                        assert(rest[k] == ws[k]);
                    }
                }
            },
            None => {
                assert forall|k: int| 0 <= k < ws.len() implies (
                #[trigger] ws[k]).alert_at is None by {
                    if k < rest.len() {
                        assert(rest[k] == ws[k]);
                    }
                }
            },
        }
    }
}

/// How the most urgent window gets the focus.
#[derive(Debug)]
pub struct FocusUrgent {
    pub window: u128,
    /// The workspace that is switched to first, by its name.
    pub switches_to: Option<String>,
}

/// The workspace of `w` that has to be switched to: the one that it is on,
/// unless that is displayed.
pub open spec fn hidden_workspace(m: Nodes, w: u128, displayed: Seq<u128>) -> Option<u128> {
    match nearest(m, w, ContainerKind::Workspace) {
        Some(ws) => if displayed.contains(ws) {
            None
        } else {
            Some(ws)
        },
        None => None,
    }
}

/// Gives the focus to the window that asked for attention last, on its
/// workspace. Without such a window nothing happens.
pub fn focus_urgent_window(tree: &Tree, windows: &Vec<AlertedWindow>, displayed: &Vec<u128>) -> (
    result: Option<FocusUrgent>)
    requires
        wf(tree@),
        forall|k: int| 0 <= k < windows@.len() ==> tree@.contains_key((#[trigger] windows@[k]).id),
    ensures
        match most_urgent(windows@) {
            None => result is None,
            Some(i) => {
                &&& result matches Some(f)
                &&& f.window == windows@[i].id
                &&& match hidden_workspace(tree@, f.window, displayed@) {
                    Some(ws) => (match f.switches_to {
                        Some(name) => Some(name@),
                        None => None,
                    }) == tree@[ws].name,
                    None => f.switches_to is None,
                }
            },
        },
{
    let mut best: Option<usize> = None;
    let mut i: usize = 0;
    proof {
        assert(windows@.subrange(0, 0) =~= Seq::<AlertedWindow>::empty());
    }
    while i < windows.len()
        invariant
            i <= windows@.len(),
            match best {
                Some(b) => b < i && most_urgent(windows@.subrange(0, i as int)) == Some(b as int),
                None => most_urgent(windows@.subrange(0, i as int)) is None,
            },
        decreases windows@.len() - i,
    {
        proof {
            let next = windows@.subrange(0, i + 1);
            assert(next.drop_last() =~= windows@.subrange(0, i as int));
            assert(next.last() == windows@[i as int]);
            lemma_most_urgent(windows@.subrange(0, i as int));
            if let Some(b) = best {
                assert(next[b as int] == windows@[b as int]);
            }
        }
        if let Some(at) = windows[i].alert_at {
            let keeps: bool = match best {
                Some(b) => match windows[b].alert_at {
                    Some(t) => t > at,
                    None => false,
                },
                None => false,
            };
            if !keeps {
                best = Some(i);
            }
        }
        i = i + 1;
    }
    proof {
        assert(windows@.subrange(0, i as int) =~= windows@);
        lemma_most_urgent(windows@);
    }
    let at: usize = match best {
        Some(b) => b,
        None => {
            return None;
        },
    };
    let window: u128 = windows[at].id;
    proof {
        assert(tree@.contains_key(windows@[at as int].id));
    }
    let switches_to: Option<String> = match tree.nearest(window, ContainerKind::Workspace) {
        Some(ws) => if position(displayed, ws).is_some() {
            None
        } else {
            match &tree.get(ws).name {
                Some(name) => Some(name.clone()),
                None => None,
            }
        },
        None => None,
    };
    Some(FocusUrgent { window, switches_to })
}

/// The window that gets the focus asked for attention, and no other asked
/// later.
pub proof fn latest_alert_wins(ws: Seq<AlertedWindow>, k: int)
    requires
        0 <= k < ws.len(),
        ws[k].alert_at is Some,
    ensures
        most_urgent(ws) matches Some(i) && 0 <= i < ws.len() && ws[i].alert_at is Some
            && ws[i].alert_at->0 >= ws[k].alert_at->0,
{
    lemma_most_urgent(ws);
}

/// A window that keeps asking does not put off being heard: what it asks before
/// the interval is over changes nothing, and what it asks after is heard.
pub proof fn asking_again_puts_nothing_off(at: u64, t: u64, later: u64)
    requires
        t - at < ALERT_DEBOUNCE,
        later - at >= ALERT_DEBOUNCE,
    ensures
        urgency(Some(at), true, false, t) == (UrgencyChange { alert_at: Some(at), emits: false }),
        urgency(urgency(Some(at), true, false, t).alert_at, true, false, later).emits,
{
}

/// Clearing a window that is clear already is told to nobody.
pub proof fn clearing_twice_is_told_once(alert_at: Option<u64>, focus: bool, t: u64, later: u64)
    ensures
        !urgency(urgency(alert_at, false, focus, t).alert_at, false, focus, later).emits,
{
}

/// A window becomes urgent when it asks for attention without having the focus,
/// unless it did so less than three seconds ago. Only what changes is told.
pub proof fn windows_are_heard_once_in_three_seconds(alert_at: Option<u64>, at: u64, now: u64)
    ensures
        urgency(alert_at, true, true, now) == (UrgencyChange { alert_at, emits: false }),
        urgency(None, true, false, now) == (UrgencyChange { alert_at: Some(now), emits: true }),
        now - at < 3000 ==> urgency(Some(at), true, false, now) == (UrgencyChange {
            alert_at: Some(at),
            emits: false,
        }),
        now - at >= 3000 ==> urgency(Some(at), true, false, now) == (UrgencyChange {
            alert_at: Some(now),
            emits: true,
        }),
        urgency(Some(at), false, true, now) == (UrgencyChange { alert_at: None, emits: true }),
        urgency(Some(at), false, false, now) == (UrgencyChange { alert_at: None, emits: true }),
        urgency(None, false, true, now) == (UrgencyChange { alert_at: None, emits: false }),
        urgency(None, false, false, now) == (UrgencyChange { alert_at: None, emits: false }),
{
}

/// Of the windows that asked at the same time the last one gets the focus; if
/// none asked, none gets it.
pub proof fn last_of_the_latest_wins(ws: Seq<AlertedWindow>, k: int)
    ensures
        most_urgent(ws) is None ==> (0 <= k < ws.len() ==> ws[k].alert_at is None),
        most_urgent(ws) matches Some(i) ==> {
            &&& 0 <= i < ws.len()
            &&& ws[i].alert_at is Some
            &&& 0 <= k < i && ws[k].alert_at is Some ==> ws[k].alert_at->0 <= ws[i].alert_at->0
            &&& i < k < ws.len() && ws[k].alert_at is Some ==> ws[k].alert_at->0 < ws[i].alert_at->0
        },
    decreases ws.len(),
{
    if ws.len() > 0 {
        let rest = ws.drop_last();
        last_of_the_latest_wins(rest, k);
        lemma_most_urgent(rest);
        lemma_most_urgent(ws);
        if 0 <= k < rest.len() {
            assert(rest[k] == ws[k]);
        }
        if let Some(b) = most_urgent(rest) {
            assert(rest[b] == ws[b]);
        }
    }
}

/// A workspace is switched to exactly if the window is on it and it is not
/// displayed.
pub proof fn hidden_workspaces_are_switched_to(m: Nodes, w: u128, displayed: Seq<u128>, ws: u128)
    ensures
        hidden_workspace(m, w, displayed) == Some(ws) <==> nearest(m, w, ContainerKind::Workspace)
            == Some(ws) && !displayed.contains(ws),
{
}

} // verus!
