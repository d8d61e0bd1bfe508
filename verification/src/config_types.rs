//! What a user can configure.

use vstd::prelude::*;

use crate::geometry::Rect;
use crate::window_state::{FloatingState, FullscreenState, WindowState};

verus! {

/// A command that a rule or a key can run.
#[derive(Debug)]
pub enum InvokeCommand {
    SetFloating {
        centered: Option<bool>,
        shown_on_top: Option<bool>,
        x_pos: Option<i32>,
        y_pos: Option<i32>,
        width: Option<i32>,
        height: Option<i32>,
    },
    Ignore,
    /// Manages a window that would be passed over.
    ForceManage,
    WmTogglePause,
    WmReloadConfig,
    /// Any other command, as it was written.
    Other(String),
}

/// What an [`InvokeCommand`] stands for.
#[verifier::ext_equal]
pub enum CommandView {
    SetFloating {
        centered: Option<bool>,
        shown_on_top: Option<bool>,
        x_pos: Option<i32>,
        y_pos: Option<i32>,
        width: Option<i32>,
        height: Option<i32>,
    },
    Ignore,
    ForceManage,
    WmTogglePause,
    WmReloadConfig,
    Other(Seq<char>),
}

impl View for InvokeCommand {
    type V = CommandView;

    open spec fn view(&self) -> CommandView {
        match *self {
            InvokeCommand::SetFloating { centered, shown_on_top, x_pos, y_pos, width, height } =>
            CommandView::SetFloating { centered, shown_on_top, x_pos, y_pos, width, height },
            InvokeCommand::Ignore => CommandView::Ignore,
            InvokeCommand::ForceManage => CommandView::ForceManage,
            InvokeCommand::WmTogglePause => CommandView::WmTogglePause,
            InvokeCommand::WmReloadConfig => CommandView::WmReloadConfig,
            InvokeCommand::Other(text) => CommandView::Other(text@),
        }
    }
}

impl InvokeCommand {
    /// Whether both are the same command.
    pub fn is_same(&self, other: &InvokeCommand) -> (result: bool)
        ensures
            result == (self@ == other@),
    {
        match (self, other) {
            (
                InvokeCommand::SetFloating {
                    centered: c1,
                    shown_on_top: t1,
                    x_pos: x1,
                    y_pos: y1,
                    width: w1,
                    height: h1,
                },
                InvokeCommand::SetFloating {
                    centered: c2,
                    shown_on_top: t2,
                    x_pos: x2,
                    y_pos: y2,
                    width: w2,
                    height: h2,
                },
            ) => *c1 == *c2 && *t1 == *t2 && *x1 == *x2 && *y1 == *y2 && *w1 == *w2 && *h1 == *h2,
            (InvokeCommand::Ignore, InvokeCommand::Ignore) => true,
            (InvokeCommand::ForceManage, InvokeCommand::ForceManage) => true,
            (InvokeCommand::WmTogglePause, InvokeCommand::WmTogglePause) => true,
            (InvokeCommand::WmReloadConfig, InvokeCommand::WmReloadConfig) => true,
            (InvokeCommand::Other(a), InvokeCommand::Other(b)) => *a == *b,
            _ => false,
        }
    }
}

/// The commands that a list of them stands for.
pub open spec fn commands_view(commands: Seq<InvokeCommand>) -> Seq<CommandView> {
    commands.map_values(|c: InvokeCommand| c@)
}

/// Whether `command` is one of `commands`.
pub fn contains_command(commands: &Vec<InvokeCommand>, command: &InvokeCommand) -> (result: bool)
    ensures
        result == commands_view(commands@).contains(command@),
{
    let ghost views = commands_view(commands@);
    let mut i: usize = 0;
    while i < commands.len()
        invariant
            i <= commands@.len(),
            views == commands_view(commands@),
            forall|k: int| 0 <= k < i ==> views[k] != command@,
        decreases commands@.len() - i,
    {
        if commands[i].is_same(command) {
            proof {
                assert(views[i as int] == command@);
            }
            return true;
        }
        i = i + 1;
    }
    false
}

/// When a rule is looked at.
#[derive(Clone, Copy, Debug, PartialEq, Eq, Structural)]
pub enum WindowRuleEvent {
    Manage,
    Focus,
    TitleChange,
}

/// What a text has to be like.
#[derive(Debug)]
pub enum MatchType {
    Equals { equals: String },
}

impl View for MatchType {
    type V = Seq<char>;

    open spec fn view(&self) -> Seq<char> {
        match *self {
            MatchType::Equals { equals } => equals@,
        }
    }
}

impl MatchType {
    pub fn is_match(&self, value: &str) -> (result: bool)
        ensures
            result == (self@ == value@),
    {
        match self {
            MatchType::Equals { equals } => crate::text::same_text(equals, value),
        }
    }
}

/// What a window has to be like. What is left out matches anything.
#[derive(Debug)]
pub struct WindowMatchConfig {
    pub window_process: Option<MatchType>,
    pub window_class: Option<MatchType>,
    pub window_title: Option<MatchType>,
}

/// What a [`WindowMatchConfig`] stands for.
#[verifier::ext_equal]
pub struct MatchView {
    pub window_process: Option<Seq<char>>,
    pub window_class: Option<Seq<char>>,
    pub window_title: Option<Seq<char>>,
}

pub open spec fn opt_text(m: Option<MatchType>) -> Option<Seq<char>> {
    match m {
        Some(t) => Some(t@),
        None => None,
    }
}

impl View for WindowMatchConfig {
    type V = MatchView;

    open spec fn view(&self) -> MatchView {
        MatchView {
            window_process: opt_text(self.window_process),
            window_class: opt_text(self.window_class),
            window_title: opt_text(self.window_title),
        }
    }
}

impl Default for WindowMatchConfig {
    fn default() -> (result: WindowMatchConfig)
        ensures
            result@ == (MatchView { window_process: None, window_class: None, window_title: None }),
    {
        WindowMatchConfig { window_process: None, window_class: None, window_title: None }
    }
}

fn same_match_type(a: &Option<MatchType>, b: &Option<MatchType>) -> (result: bool)
    ensures
        result == (opt_text(*a) == opt_text(*b)),
{
    match (a, b) {
        (Some(MatchType::Equals { equals: x }), Some(MatchType::Equals { equals: y })) => *x == *y,
        (None, None) => true,
        _ => false,
    }
}

impl WindowMatchConfig {
    pub fn is_same(&self, other: &WindowMatchConfig) -> (result: bool)
        ensures
            result == (self@ == other@),
    {
        same_match_type(&self.window_process, &other.window_process) && same_match_type(
            &self.window_class,
            &other.window_class,
        ) && same_match_type(&self.window_title, &other.window_title)
    }
}

/// Commands that are run for windows of some kind.
#[derive(Debug)]
pub struct WindowRuleConfig {
    pub commands: Vec<InvokeCommand>,
    pub match_window: Vec<WindowMatchConfig>,
    pub on: Vec<WindowRuleEvent>,
    pub run_once: bool,
}

/// What a [`WindowRuleConfig`] stands for.
#[verifier::ext_equal]
pub struct RuleView {
    pub commands: Seq<CommandView>,
    pub match_window: Seq<MatchView>,
    pub on: Seq<WindowRuleEvent>,
    pub run_once: bool,
}

pub open spec fn matches_view(m: Seq<WindowMatchConfig>) -> Seq<MatchView> {
    m.map_values(|c: WindowMatchConfig| c@)
}

impl View for WindowRuleConfig {
    type V = RuleView;

    open spec fn view(&self) -> RuleView {
        RuleView {
            commands: commands_view(self.commands@),
            match_window: matches_view(self.match_window@),
            on: self.on@,
            run_once: self.run_once,
        }
    }
}

impl WindowRuleConfig {
    /// Whether both say the same.
    pub fn is_same(&self, other: &WindowRuleConfig) -> (result: bool)
        ensures
            result == (self@ == other@),
    {
        if self.run_once != other.run_once || self.commands.len() != other.commands.len()
            || self.match_window.len() != other.match_window.len() || self.on.len()
            != other.on.len() {
            proof {
                assert(commands_view(self.commands@).len() == self.commands@.len());
                assert(commands_view(other.commands@).len() == other.commands@.len());
                assert(matches_view(self.match_window@).len() == self.match_window@.len());
                assert(matches_view(other.match_window@).len() == other.match_window@.len());
            }
            return false;
        }
        let mut i: usize = 0;
        while i < self.commands.len()
            invariant
                i <= self.commands@.len() == other.commands@.len(),
                forall|k: int|
                    0 <= k < i ==> (#[trigger] self.commands@[k])@ == other.commands@[k]@,
            decreases self.commands@.len() - i,
        {
            if !self.commands[i].is_same(&other.commands[i]) {
                proof {
                    assert(commands_view(self.commands@)[i as int] != commands_view(
                        other.commands@,
                    )[i as int]);
                }
                return false;
            }
            i = i + 1;
        }
        let mut j: usize = 0;
        while j < self.match_window.len()
            invariant
                j <= self.match_window@.len() == other.match_window@.len(),
                forall|k: int|
                    0 <= k < j ==> (#[trigger] self.match_window@[k])@ == other.match_window@[k]@,
            decreases self.match_window@.len() - j,
        {
            if !self.match_window[j].is_same(&other.match_window[j]) {
                proof {
                    assert(matches_view(self.match_window@)[j as int] != matches_view(
                        other.match_window@,
                    )[j as int]);
                }
                return false;
            }
            j = j + 1;
        }
        let mut k: usize = 0;
        while k < self.on.len()
            invariant
                k <= self.on@.len() == other.on@.len(),
                forall|q: int| 0 <= q < k ==> #[trigger] self.on@[q] == other.on@[q],
            decreases self.on@.len() - k,
        {
            if self.on[k] != other.on[k] {
                return false;
            }
            k = k + 1;
        }
        proof {
            assert(commands_view(self.commands@) =~= commands_view(other.commands@));
            assert(matches_view(self.match_window@) =~= matches_view(other.match_window@));
            assert(self.on@ =~= other.on@);
        }
        true
    }
}

/// A workspace, as it is configured.
#[derive(Debug)]
pub struct WorkspaceConfig {
    pub name: String,
    pub display_name: Option<String>,
    /// The number of the monitor that it belongs to.
    pub bind_to_monitor: Option<u32>,
    /// Whether it stays when it is empty.
    pub keep_alive: bool,
}

/// Commands that keys run.
#[derive(Debug)]
pub struct KeybindingConfig {
    pub commands: Vec<InvokeCommand>,
    pub bindings: Vec<String>,
}

/// Keys that are in force while a mode is on.
#[derive(Debug)]
pub struct BindingModeConfig {
    pub name: String,
    pub keybindings: Vec<KeybindingConfig>,
}

/// The mode that new windows start in.
#[derive(Clone, Copy, Debug, PartialEq, Eq, Structural)]
pub enum InitialWindowState {
    Tiling,
    Floating,
}

/// A whole configuration.
#[derive(Debug)]
pub struct ParsedConfig {
    pub dynamic_workspaces: bool,
    pub suppress_taskbar_flash: bool,
    pub workspaces: Vec<WorkspaceConfig>,
    pub window_rules: Vec<WindowRuleConfig>,
    pub keybindings: Vec<KeybindingConfig>,
    pub initial_state: InitialWindowState,
    pub floating_defaults: FloatingState,
    pub fullscreen_defaults: FullscreenState,
}

impl ParsedConfig {
    /// The mode that windows start in unless something speaks against it.
    pub open spec fn spec_default_state(self) -> WindowState {
        match self.initial_state {
            InitialWindowState::Tiling => WindowState::Tiling,
            InitialWindowState::Floating => WindowState::Floating(self.floating_defaults),
        }
    }

    pub fn default_state(&self) -> (result: WindowState)
        ensures
            result == self.spec_default_state(),
    {
        match self.initial_state {
            InitialWindowState::Tiling => WindowState::Tiling,
            InitialWindowState::Floating => WindowState::Floating(self.floating_defaults),
        }
    }
}

impl Default for ParsedConfig {
    fn default() -> (result: ParsedConfig)
        ensures
            !result.dynamic_workspaces,
            !result.suppress_taskbar_flash,
            result.workspaces@.len() == 0,
            result.window_rules@.len() == 0,
            result.keybindings@.len() == 0,
            result.initial_state == InitialWindowState::Tiling,
            result.floating_defaults == (FloatingState { centered: true, shown_on_top: false }),
            result.fullscreen_defaults == (FullscreenState { maximized: true, shown_on_top: false }),
    {
        ParsedConfig {
            dynamic_workspaces: false,
            suppress_taskbar_flash: false,
            workspaces: Vec::new(),
            window_rules: Vec::new(),
            keybindings: Vec::new(),
            initial_state: InitialWindowState::Tiling,
            floating_defaults: FloatingState { centered: true, shown_on_top: false },
            fullscreen_defaults: FullscreenState { maximized: true, shown_on_top: false },
        }
    }
}

/// What the system says of a window.
#[derive(Debug)]
pub struct NativeWindowProperties {
    pub title: String,
    /// Its class, on a system that has window classes.
    pub class_name: Option<String>,
    pub process_name: String,
    pub frame: Rect,
    pub is_minimized: bool,
    pub is_maximized: bool,
    pub is_resizable: bool,
}

/// Windows start tiled or floating as the configuration says, and those that
/// float start with its defaults.
pub proof fn the_configuration_picks_the_default(config: ParsedConfig)
    ensures
        config.initial_state == InitialWindowState::Tiling ==> config.spec_default_state()
            == WindowState::Tiling,
        config.initial_state == InitialWindowState::Floating ==> config.spec_default_state()
            == WindowState::Floating(config.floating_defaults),
{
}

/// What is asked of a window, and what a rule does, is what the configuration
/// says.
pub proof fn rules_say_what_is_written(m: WindowMatchConfig, rule: WindowRuleConfig, i: int)
    ensures
        m.window_process is None ==> m@.window_process is None,
        m.window_process matches Some(t) ==> m@.window_process == Some(t@),
        m.window_class is None ==> m@.window_class is None,
        m.window_class matches Some(t) ==> m@.window_class == Some(t@),
        m.window_title is None ==> m@.window_title is None,
        m.window_title matches Some(t) ==> m@.window_title == Some(t@),
        rule@.run_once == rule.run_once,
        rule@.on == rule.on@,
        rule@.commands.len() == rule.commands@.len(),
        rule@.match_window.len() == rule.match_window@.len(),
        0 <= i < rule.commands@.len() ==> rule@.commands[i] == rule.commands@[i]@,
        0 <= i < rule.match_window@.len() ==> rule@.match_window[i] == rule.match_window@[i]@,
{
}

} // verus!
