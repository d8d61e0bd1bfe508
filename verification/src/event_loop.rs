//! What the window manager does next: what it starts with, which event comes
//! first, and what each brings about.

use vstd::prelude::*;

use crate::config_types::KeybindingConfig;

verus! {

/// The most events that are served ahead of one frame of an animation.
pub const MAX_PRIORITY_EVENTS_PER_FRAME: usize = 8;

/// The platform that the window manager runs on.
#[derive(Clone, Copy, Debug, PartialEq, Eq, Structural)]
pub enum Platform {
    Windows,
    MacOs,
}

/// One step of starting.
#[derive(Clone, Copy, Debug, PartialEq, Eq, Structural)]
pub enum StartupStep {
    Logging,
    SingleInstance,
    /// Ends the start unless the user lets other windows be controlled.
    AccessibilityCheck,
    Config,
    SystemTray,
    WindowManager,
    IpcServer,
    /// Failing, it ends nothing.
    Watcher,
    PathFromShell,
    WindowListener,
    DisplayListener,
    MouseListener,
    KeybindingListener,
    /// Failing, they end nothing.
    StartupCommands,
}

/// What a failing step does.
#[derive(Clone, Copy, Debug, PartialEq, Eq, Structural)]
pub enum FailureEffect {
    /// The start ends.
    Fatal,
    /// The user is told, and the start goes on.
    Dialog,
    /// It is noted, and the start goes on.
    Warning,
}

/// What a failing step does.
pub fn failure_effect(step: StartupStep) -> (result: FailureEffect)
    ensures
        result == (match step {
            StartupStep::StartupCommands => FailureEffect::Dialog,
            StartupStep::Watcher => FailureEffect::Warning,
            StartupStep::PathFromShell => FailureEffect::Warning,
            _ => FailureEffect::Fatal,
        }),
{
    match step {
        StartupStep::StartupCommands => FailureEffect::Dialog,
        StartupStep::Watcher => FailureEffect::Warning,
        StartupStep::PathFromShell => FailureEffect::Warning,
        _ => FailureEffect::Fatal,
    }
}

/// The steps of starting, in order. `in_terminal` says whether it was started
/// from a terminal, which has the right path already.
pub open spec fn startup(platform: Platform, in_terminal: bool) -> Seq<StartupStep> {
    let first = seq![StartupStep::Logging, StartupStep::SingleInstance];
    let check = if platform == Platform::MacOs {
        seq![StartupStep::AccessibilityCheck]
    } else {
        Seq::empty()
    };
    let state = seq![
        StartupStep::Config,
        StartupStep::SystemTray,
        StartupStep::WindowManager,
        StartupStep::IpcServer,
    ];
    let helper = match platform {
        Platform::Windows => seq![StartupStep::Watcher],
        Platform::MacOs => if in_terminal {
            Seq::empty()
        } else {
            seq![StartupStep::PathFromShell]
        },
    };
    let listeners = seq![
        StartupStep::WindowListener,
        StartupStep::DisplayListener,
        StartupStep::MouseListener,
        StartupStep::KeybindingListener,
        StartupStep::StartupCommands,
    ];
    first + check + state + helper + listeners
}

/// The steps of starting, in order.
pub fn startup_steps(platform: Platform, in_terminal: bool) -> (result: Vec<StartupStep>)
    ensures
        result@ == startup(platform, in_terminal),
{
    let mut steps: Vec<StartupStep> = Vec::new();
    steps.push(StartupStep::Logging);
    steps.push(StartupStep::SingleInstance);
    match platform {
        Platform::MacOs => {
            steps.push(StartupStep::AccessibilityCheck);
        },
        Platform::Windows => {},
    }
    steps.push(StartupStep::Config);
    steps.push(StartupStep::SystemTray);
    steps.push(StartupStep::WindowManager);
    steps.push(StartupStep::IpcServer);
    match platform {
        Platform::Windows => {
            steps.push(StartupStep::Watcher);
        },
        Platform::MacOs => {
            if !in_terminal {
                steps.push(StartupStep::PathFromShell);
            }
        },
    }
    steps.push(StartupStep::WindowListener);
    steps.push(StartupStep::DisplayListener);
    steps.push(StartupStep::MouseListener);
    steps.push(StartupStep::KeybindingListener);
    steps.push(StartupStep::StartupCommands);
    proof {
        assert(steps@ =~= startup(platform, in_terminal));
    }
    steps
}

/// What mice do.
#[derive(Clone, Copy, Debug, PartialEq, Eq, Structural)]
pub enum MouseEventKind {
    Move,
    LeftButtonUp,
}

/// What is listened to of the mouse: its moves only where the focus follows
/// it.
pub fn mouse_events(focus_follows_cursor: bool) -> (result: Vec<MouseEventKind>)
    ensures
        result@ == (if focus_follows_cursor {
            seq![MouseEventKind::Move, MouseEventKind::LeftButtonUp]
        } else {
            seq![MouseEventKind::LeftButtonUp]
        }),
{
    let mut kinds: Vec<MouseEventKind> = Vec::new();
    if focus_follows_cursor {
        kinds.push(MouseEventKind::Move);
    }
    kinds.push(MouseEventKind::LeftButtonUp);
    proof {
        if focus_follows_cursor {
            assert(kinds@ =~= seq![MouseEventKind::Move, MouseEventKind::LeftButtonUp]);
        } else {
            assert(kinds@ =~= seq![MouseEventKind::LeftButtonUp]);
        }
    }
    kinds
}

/// The keys of all of `configs`, in order.
pub open spec fn bindings_of(configs: Seq<KeybindingConfig>) -> Seq<Seq<char>>
    decreases configs.len(),
{
    if configs.len() == 0 {
        Seq::empty()
    } else {
        bindings_of(configs.drop_last()) + texts_of(configs.last().bindings@)
    }
}

/// The texts of `strings`.
pub open spec fn texts_of(strings: Seq<String>) -> Seq<Seq<char>> {
    strings.map_values(|s: String| s@)
}

/// The keys that are listened to: those of all of `configs`.
pub fn all_bindings(configs: &Vec<&KeybindingConfig>) -> (result: Vec<String>)
    ensures
        texts_of(result@) == bindings_of(configs@.map_values(|k: &KeybindingConfig| *k)),
{
    let ghost all = configs@.map_values(|k: &KeybindingConfig| *k);
    let mut out: Vec<String> = Vec::new();
    let mut i: usize = 0;
    proof {
        assert(all.subrange(0, 0) =~= Seq::<KeybindingConfig>::empty());
        assert(texts_of(out@) =~= Seq::<Seq<char>>::empty());
    }
    while i < configs.len()
        invariant
            i <= configs@.len(),
            all == configs@.map_values(|k: &KeybindingConfig| *k),
            texts_of(out@) == bindings_of(all.subrange(0, i as int)),
        decreases configs@.len() - i,
    {
        let config: &KeybindingConfig = configs[i];
        let ghost before = texts_of(out@);
        let mut j: usize = 0;
        while j < config.bindings.len()
            invariant
                j <= config.bindings@.len(),
                texts_of(out@) == before + texts_of(config.bindings@).subrange(0, j as int),
            decreases config.bindings@.len() - j,
        {
            let ghost prev = out@;
            let key = config.bindings[j].clone();
            out.push(key);
            proof {
                assert(texts_of(out@) =~= texts_of(prev).push(key@));
                assert(texts_of(out@) =~= before + texts_of(config.bindings@).subrange(
                    0,
                    j + 1,
                ));
            }
            j = j + 1;
        }
        proof {
            let next = all.subrange(0, i + 1);
            assert(next.drop_last() =~= all.subrange(0, i as int));
            assert(next.last() == *config);
            assert(texts_of(config.bindings@).subrange(0, j as int) =~= texts_of(
                config.bindings@,
            ));
        }
        i = i + 1;
    }
    proof {
        assert(all.subrange(0, i as int) =~= all);
    }
    out
}

/// What can come to the window manager.
#[derive(Clone, Copy, Debug, PartialEq, Eq, Structural)]
pub enum LoopEvent {
    Interrupt,
    ExitCommand,
    TrayExit,
    AnimationTick,
    Mouse,
    Window,
    Display,
    Keybinding,
    CleanupTick,
    IpcMessage,
    WmEvent,
    TrayReload,
}

impl LoopEvent {
    /// How soon an event is served: the lower, the sooner.
    pub open spec fn rank(self) -> int {
        match self {
            LoopEvent::Interrupt => 0,
            LoopEvent::ExitCommand => 1,
            LoopEvent::TrayExit => 2,
            LoopEvent::AnimationTick => 3,
            LoopEvent::Mouse => 4,
            LoopEvent::Window => 5,
            LoopEvent::Display => 6,
            LoopEvent::Keybinding => 7,
            LoopEvent::CleanupTick => 8,
            LoopEvent::IpcMessage => 9,
            LoopEvent::WmEvent => 10,
            LoopEvent::TrayReload => 11,
        }
    }

    fn order(&self) -> (result: u8)
        ensures
            result == self.rank(),
    {
        match *self {
            LoopEvent::Interrupt => 0,
            LoopEvent::ExitCommand => 1,
            LoopEvent::TrayExit => 2,
            LoopEvent::AnimationTick => 3,
            LoopEvent::Mouse => 4,
            LoopEvent::Window => 5,
            LoopEvent::Display => 6,
            LoopEvent::Keybinding => 7,
            LoopEvent::CleanupTick => 8,
            LoopEvent::IpcMessage => 9,
            LoopEvent::WmEvent => 10,
            LoopEvent::TrayReload => 11,
        }
    }
}

/// Picks the event that is served first of those that are there.
pub fn select_event(ready: &Vec<LoopEvent>) -> (result: Option<LoopEvent>)
    ensures
        match result {
            Some(e) => ready@.contains(e) && forall|k: int|
                0 <= k < ready@.len() ==> e.rank() <= (#[trigger] ready@[k]).rank(),
            None => ready@.len() == 0,
        },
{
    if ready.len() == 0 {
        return None;
    }
    let mut best = ready[0];
    let mut i: usize = 1;
    proof {
        assert(ready@.contains(ready@[0]));
    }
    while i < ready.len()
        invariant
            1 <= i <= ready@.len(),
            ready@.contains(best),
            forall|k: int| 0 <= k < i ==> best.rank() <= (#[trigger] ready@[k]).rank(),
        decreases ready@.len() - i,
    {
        if ready[i].order() < best.order() {
            best = ready[i];
            proof {
                assert(ready@.contains(ready@[i as int]));
            }
        }
        i = i + 1;
    }
    Some(best)
}

/// What an event brings about.
#[derive(Clone, Copy, Debug, PartialEq, Eq, Structural)]
pub enum LoopAction {
    /// The window manager ends.
    Exit,
    /// All ticks that have piled up count as one, and one frame is drawn.
    UpdateAnimations,
    ProcessPlatformEvent,
    CleanupInvalidWindows,
    Nothing,
    AnswerIpc,
    ForwardWmEvent,
    ReloadConfig,
}

/// Decides what an event brings about. While paused, windows that are gone are
/// not looked for.
pub fn action_for(event: LoopEvent, is_paused: bool) -> (result: LoopAction)
    ensures
        result == (match event {
            LoopEvent::Interrupt => LoopAction::Exit,
            LoopEvent::ExitCommand => LoopAction::Exit,
            LoopEvent::TrayExit => LoopAction::Exit,
            LoopEvent::AnimationTick => LoopAction::UpdateAnimations,
            LoopEvent::Mouse => LoopAction::ProcessPlatformEvent,
            LoopEvent::Window => LoopAction::ProcessPlatformEvent,
            LoopEvent::Display => LoopAction::ProcessPlatformEvent,
            LoopEvent::Keybinding => LoopAction::ProcessPlatformEvent,
            LoopEvent::CleanupTick => if is_paused {
                LoopAction::Nothing
            } else {
                LoopAction::CleanupInvalidWindows
            },
            LoopEvent::IpcMessage => LoopAction::AnswerIpc,
            LoopEvent::WmEvent => LoopAction::ForwardWmEvent,
            LoopEvent::TrayReload => LoopAction::ReloadConfig,
        }),
{
    match event {
        LoopEvent::Interrupt => LoopAction::Exit,
        LoopEvent::ExitCommand => LoopAction::Exit,
        LoopEvent::TrayExit => LoopAction::Exit,
        LoopEvent::AnimationTick => LoopAction::UpdateAnimations,
        LoopEvent::Mouse => LoopAction::ProcessPlatformEvent,
        LoopEvent::Window => LoopAction::ProcessPlatformEvent,
        LoopEvent::Display => LoopAction::ProcessPlatformEvent,
        LoopEvent::Keybinding => LoopAction::ProcessPlatformEvent,
        LoopEvent::CleanupTick => if is_paused {
            LoopAction::Nothing
        } else {
            LoopAction::CleanupInvalidWindows
        },
        LoopEvent::IpcMessage => LoopAction::AnswerIpc,
        LoopEvent::WmEvent => LoopAction::ForwardWmEvent,
        LoopEvent::TrayReload => LoopAction::ReloadConfig,
    }
}

/// What a failing action does. While the listeners are asked anew, a failure
/// ends the window manager; what goes wrong between it and those who listen to
/// it is only noted.
pub fn loop_failure(action: LoopAction, while_refreshing: bool) -> (result: FailureEffect)
    ensures
        result == (match action {
            LoopAction::AnswerIpc => FailureEffect::Warning,
            LoopAction::ForwardWmEvent => if while_refreshing {
                FailureEffect::Fatal
            } else {
                FailureEffect::Warning
            },
            _ => FailureEffect::Dialog,
        }),
{
    match action {
        LoopAction::AnswerIpc => FailureEffect::Warning,
        LoopAction::ForwardWmEvent => if while_refreshing {
            FailureEffect::Fatal
        } else {
            FailureEffect::Warning
        },
        _ => FailureEffect::Dialog,
    }
}

/// What the window manager has told of itself.
#[derive(Clone, Copy, Debug, PartialEq, Eq, Structural)]
pub enum WmEventKind {
    PauseChanged { is_paused: bool },
    UserConfigChanged,
    BindingModesChanged,
    Other,
}

/// What changes of the listeners.
#[derive(Clone, Copy, Debug, PartialEq, Eq, Structural)]
pub struct ListenerUpdate {
    /// Whether the mouse is listened to from now on, if that changes.
    pub mouse_enabled: Option<bool>,
    /// Whether the keys and the events of the mouse are asked for anew.
    pub refreshes: bool,
}

/// Decides what changes of the listeners.
pub fn listener_update(event: WmEventKind) -> (result: ListenerUpdate)
    ensures
        result.mouse_enabled == (match event {
            WmEventKind::PauseChanged { is_paused } => Some(!is_paused),
            _ => None,
        }),
        result.refreshes == !(event is Other),
{
    match event {
        WmEventKind::PauseChanged { is_paused } => ListenerUpdate {
            mouse_enabled: Some(!is_paused),
            refreshes: true,
        },
        WmEventKind::UserConfigChanged => ListenerUpdate { mouse_enabled: None, refreshes: true },
        WmEventKind::BindingModesChanged => ListenerUpdate {
            mouse_enabled: None,
            refreshes: true,
        },
        WmEventKind::Other => ListenerUpdate { mouse_enabled: None, refreshes: false },
    }
}

/// What is queued by the listeners.
#[derive(Clone, Copy, Debug, PartialEq, Eq, Structural)]
pub struct Queued {
    pub keybinding: bool,
    pub mouse: bool,
    pub window: bool,
    pub display: bool,
}

/// The event that is served ahead of the next frame, after `served` others: of
/// what is queued the keys first, since someone waits for them. Beyond the most
/// that are served, and with nothing queued, there is none.
pub fn next_priority_event(queued: &Queued, served: usize) -> (result: Option<LoopEvent>)
    ensures
        result == (if served >= MAX_PRIORITY_EVENTS_PER_FRAME {
            None
        } else if queued.keybinding {
            Some(LoopEvent::Keybinding)
        } else if queued.mouse {
            Some(LoopEvent::Mouse)
        } else if queued.window {
            Some(LoopEvent::Window)
        } else if queued.display {
            Some(LoopEvent::Display)
        } else {
            None
        }),
{
    if served >= MAX_PRIORITY_EVENTS_PER_FRAME {
        None
    } else if queued.keybinding {
        Some(LoopEvent::Keybinding)
    } else if queued.mouse {
        Some(LoopEvent::Mouse)
    } else if queued.window {
        Some(LoopEvent::Window)
    } else if queued.display {
        Some(LoopEvent::Display)
    } else {
        None
    }
}

/// Ending comes before everything, and frames of an animation before what
/// comes from the platform.
pub proof fn ending_comes_first(e: LoopEvent, exit: LoopEvent, input: LoopEvent)
    requires
        exit is Interrupt || exit is ExitCommand || exit is TrayExit,
        !(e is Interrupt || e is ExitCommand || e is TrayExit),
        input is Mouse || input is Window || input is Display || input is Keybinding,
    ensures
        exit.rank() < e.rank(),
        LoopEvent::AnimationTick.rank() < input.rank(),
{
}

/// Which event is served first is never in doubt.
pub proof fn ranks_are_distinct(a: LoopEvent, b: LoopEvent)
    requires
        a.rank() == b.rank(),
    ensures
        a == b,
{
}

/// Nothing is listened to before there is a window manager to tell.
pub proof fn listeners_come_last(platform: Platform, in_terminal: bool, i: int, j: int)
    requires
        0 <= i < startup(platform, in_terminal).len(),
        0 <= j < startup(platform, in_terminal).len(),
        startup(platform, in_terminal)[i] == StartupStep::WindowManager,
        startup(platform, in_terminal)[j] == StartupStep::WindowListener || startup(
            platform,
            in_terminal,
        )[j] == StartupStep::KeybindingListener,
    ensures
        i < j,
{
}

/// The steps of starting on each platform, in order.
pub proof fn starting_goes_step_by_step()
    ensures
        startup(Platform::Windows, true) == startup(Platform::Windows, false),
        startup(Platform::Windows, false) == seq![
            StartupStep::Logging,
            StartupStep::SingleInstance,
            StartupStep::Config,
            StartupStep::SystemTray,
            StartupStep::WindowManager,
            StartupStep::IpcServer,
            StartupStep::Watcher,
            StartupStep::WindowListener,
            StartupStep::DisplayListener,
            StartupStep::MouseListener,
            StartupStep::KeybindingListener,
            StartupStep::StartupCommands,
        ],
        startup(Platform::MacOs, false) == seq![
            StartupStep::Logging,
            StartupStep::SingleInstance,
            StartupStep::AccessibilityCheck,
            StartupStep::Config,
            StartupStep::SystemTray,
            StartupStep::WindowManager,
            StartupStep::IpcServer,
            StartupStep::PathFromShell,
            StartupStep::WindowListener,
            StartupStep::DisplayListener,
            StartupStep::MouseListener,
            StartupStep::KeybindingListener,
            StartupStep::StartupCommands,
        ],
        startup(Platform::MacOs, true) == startup(Platform::MacOs, false).remove(7),
{
    assert(startup(Platform::Windows, false) =~= seq![
        StartupStep::Logging,
        StartupStep::SingleInstance,
        StartupStep::Config,
        StartupStep::SystemTray,
        StartupStep::WindowManager,
        StartupStep::IpcServer,
        StartupStep::Watcher,
        StartupStep::WindowListener,
        StartupStep::DisplayListener,
        StartupStep::MouseListener,
        StartupStep::KeybindingListener,
        StartupStep::StartupCommands,
    ]);
    assert(startup(Platform::MacOs, false) =~= seq![
        StartupStep::Logging,
        StartupStep::SingleInstance,
        StartupStep::AccessibilityCheck,
        StartupStep::Config,
        StartupStep::SystemTray,
        StartupStep::WindowManager,
        StartupStep::IpcServer,
        StartupStep::PathFromShell,
        StartupStep::WindowListener,
        StartupStep::DisplayListener,
        StartupStep::MouseListener,
        StartupStep::KeybindingListener,
        StartupStep::StartupCommands,
    ]);
    assert(startup(Platform::MacOs, true) =~= startup(Platform::MacOs, false).remove(7));
}

/// Events are served in this order: what ends the window manager, frames, the
/// mouse, windows, displays, keys, cleaning up, requests, what the window
/// manager tells, and reloading.
pub proof fn events_are_served_in_order()
    ensures
        LoopEvent::Interrupt.rank() < LoopEvent::ExitCommand.rank(),
        LoopEvent::ExitCommand.rank() < LoopEvent::TrayExit.rank(),
        LoopEvent::TrayExit.rank() < LoopEvent::AnimationTick.rank(),
        LoopEvent::AnimationTick.rank() < LoopEvent::Mouse.rank(),
        LoopEvent::Mouse.rank() < LoopEvent::Window.rank(),
        LoopEvent::Window.rank() < LoopEvent::Display.rank(),
        LoopEvent::Display.rank() < LoopEvent::Keybinding.rank(),
        LoopEvent::Keybinding.rank() < LoopEvent::CleanupTick.rank(),
        LoopEvent::CleanupTick.rank() < LoopEvent::IpcMessage.rank(),
        LoopEvent::IpcMessage.rank() < LoopEvent::WmEvent.rank(),
        LoopEvent::WmEvent.rank() < LoopEvent::TrayReload.rank(),
        MAX_PRIORITY_EVENTS_PER_FRAME == 8,
{
}

/// All keys of all configurations are listened to, in their order.
pub proof fn all_keys_are_listened_to(configs: Seq<KeybindingConfig>, config: KeybindingConfig, k: int)
    ensures
        bindings_of(Seq::empty()) == Seq::<Seq<char>>::empty(),
        bindings_of(configs.push(config)).len() == bindings_of(configs).len()
            + config.bindings@.len(),
        0 <= k < bindings_of(configs).len() ==> bindings_of(configs.push(config))[k] == bindings_of(
            configs,
        )[k],
        0 <= k < config.bindings@.len() ==> bindings_of(configs.push(config))[bindings_of(
            configs,
        ).len() + k] == config.bindings@[k]@,
{
    assert(configs.push(config).drop_last() =~= configs);
}

} // verus!
