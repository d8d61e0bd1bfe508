use glazewm::color_themes::ColorThemes;
use glazewm::config_types::{
    BindingModeConfig, InvokeCommand, KeybindingConfig, MatchType, NativeWindowProperties,
    ParsedConfig, WindowMatchConfig, WindowRuleConfig, WindowRuleEvent, WorkspaceConfig,
};
use glazewm::container::Workspace;
use glazewm::event_loop::{
    action_for, all_bindings, failure_effect, listener_update, loop_failure, mouse_events,
    next_priority_event, select_event, startup_steps, FailureEffect, LoopAction, LoopEvent, MouseEventKind, Platform,
    Queued, StartupStep, WmEventKind,
};
use glazewm::geometry::Rect;
use glazewm::manage::{
    check_is_manageable, window_state_to_create, Manageability, WindowMake,
};
use glazewm::text::{comes_before, format_u32, parse_u32};
use glazewm::user_config::{config_path, ConfigError, NamedWorkspace, UserConfig};
use glazewm::window_state::WindowState;

fn no_themes() -> ColorThemes {
    ColorThemes::new(String::new(), None, None)
}

fn test_properties(process_name: &str, title: &str) -> NativeWindowProperties {
    NativeWindowProperties {
        title: title.to_string(),
        class_name: Some("TestClass".to_string()),
        process_name: process_name.to_string(),
        frame: Rect::from_ltrb(0, 0, 100, 100),
        is_minimized: false,
        is_maximized: false,
        is_resizable: true,
    }
}

/// A config with the given window rules.
fn test_config(window_rules: Vec<WindowRuleConfig>) -> UserConfig {
    let mut value = ParsedConfig::default();
    value.window_rules = window_rules;
    UserConfig::new(String::new(), Ok((value, String::new())), no_themes()).expect("a config")
}

/// A rule with the given command for windows of the given process.
fn test_rule(command: InvokeCommand, process_name: &str) -> WindowRuleConfig {
    WindowRuleConfig {
        commands: vec![command],
        match_window: vec![WindowMatchConfig {
            window_process: Some(MatchType::Equals { equals: process_name.to_string() }),
            ..WindowMatchConfig::default()
        }],
        on: vec![WindowRuleEvent::Manage],
        run_once: true,
    }
}

#[test]
fn force_manage_rule_matches_window() {
    let config = test_config(vec![test_rule(InvokeCommand::ForceManage, "my-launcher")]);

    assert!(config.is_force_managed(&test_properties("my-launcher", "Launcher")));
}

#[test]
fn non_matching_window_is_not_force_managed() {
    let config = test_config(vec![test_rule(InvokeCommand::ForceManage, "my-launcher")]);

    assert!(!config.is_force_managed(&test_properties("other-app", "Other")));
}

#[test]
fn matching_rule_without_force_manage_command_is_skipped() {
    let config = test_config(vec![test_rule(InvokeCommand::Ignore, "my-launcher")]);

    assert!(!config.is_force_managed(&test_properties("my-launcher", "Launcher")));
}

#[test]
fn no_windows_are_force_managed_by_default() {
    let config = test_config(Vec::new());

    assert!(!config.is_force_managed(&test_properties("Flow.Launcher", "Flow.Launcher")));
}

/// A config with the given workspaces.
fn mock_config(workspace_names: &[&str], dynamic_workspaces: bool) -> UserConfig {
    let mut value = ParsedConfig::default();
    value.dynamic_workspaces = dynamic_workspaces;
    value.workspaces = workspace_names
        .iter()
        .map(|name| WorkspaceConfig {
            name: (*name).to_string(),
            display_name: None,
            bind_to_monitor: None,
            keep_alive: false,
        })
        .collect();
    UserConfig::new(String::new(), Ok((value, String::new())), no_themes()).expect("a config")
}

fn names(names: &[&str]) -> Vec<String> {
    names.iter().map(|name| (*name).to_string()).collect()
}

#[test]
fn sorts_dynamic_workspaces_after_configured_ones() {
    let config = mock_config(&["b", "a"], true);
    let mut workspaces: Vec<NamedWorkspace> = ["11", "2", "a", "b"]
        .iter()
        .enumerate()
        .map(|(i, name)| NamedWorkspace {
            workspace: Workspace { id: i as u128 },
            name: (*name).to_string(),
        })
        .collect();
    config.sort_workspaces(&mut workspaces);

    let names = workspaces.iter().map(|w| w.name.clone()).collect::<Vec<_>>();
    assert_eq!(names, vec!["b", "a", "2", "11"]);
    let ids = workspaces.iter().map(|w| w.workspace.id).collect::<Vec<_>>();
    assert_eq!(ids, vec![3, 2, 1, 0]);
}

#[test]
fn orders_configured_and_active_workspace_names() {
    let config = mock_config(&["1", "2"], true);

    assert_eq!(config.ordered_workspace_names(&names(&["2", "3"])), vec!["1", "2", "3"]);
}

#[test]
fn picks_lowest_unused_dynamic_workspace_name() {
    let config = mock_config(&["1", "3"], true);

    assert_eq!(config.next_dynamic_workspace_name(&names(&["2"])), "4");
    assert_eq!(config.next_dynamic_workspace_name(&names(&[])), "2");
}

#[test]
fn only_creates_dynamic_configs_when_enabled() {
    let active = names(&["1"]);

    assert!(mock_config(&["1"], false)
        .dynamic_workspace_config(&"2".to_string(), &active)
        .is_none());

    // A workspace that is active already cannot be created.
    assert!(mock_config(&["1"], true)
        .dynamic_workspace_config(&"1".to_string(), &active)
        .is_none());

    let dynamic_config = mock_config(&["1"], true)
        .dynamic_workspace_config(&"2".to_string(), &active)
        .expect("Dynamic workspace config.");

    assert_eq!(dynamic_config.name, "2");
    assert!(!dynamic_config.keep_alive);
}

#[test]
fn inactive_workspaces_are_offered() {
    let mut config = mock_config(&["1", "2", "3"], false);
    config.value.workspaces[1].bind_to_monitor = Some(1);

    let inactive = config.inactive_workspace_configs(&names(&["1"]));
    let found = inactive.iter().map(|w| w.name.as_str()).collect::<Vec<_>>();
    assert_eq!(found, vec!["2", "3"]);
    // Those that belong to no monitor come first.
    let next = config.next_inactive_workspace_config(&names(&["1"])).map(|w| w.name.clone());
    assert_eq!(next, Some("3".to_string()));
    let next = config.next_inactive_workspace_config(&names(&["1", "3"])).map(|w| w.name.clone());
    assert_eq!(next, Some("2".to_string()));
    assert!(config.next_inactive_workspace_config(&names(&["1", "2", "3"])).is_none());
    let bound = config.workspace_config_for_monitor(1, &names(&[])).map(|w| w.name.clone());
    assert_eq!(bound, Some("2".to_string()));
    assert!(config.workspace_config_for_monitor(0, &names(&[])).is_none());
    assert_eq!(config.workspace_config_index(&"3".to_string()), Some(2));
    assert_eq!(config.workspace_config_index(&"4".to_string()), None);
}

#[test]
fn done_rules_do_not_run_again() {
    let config = test_config(vec![test_rule(InvokeCommand::ForceManage, "my-launcher")]);
    let properties = test_properties("my-launcher", "Launcher");
    let pending =
        config.pending_window_rules(&properties, &vec![], WindowRuleEvent::Manage);
    let before = pending.len();
    assert!(before >= 1);
    let done = vec![test_rule(InvokeCommand::ForceManage, "my-launcher")];
    let pending = config.pending_window_rules(&properties, &done, WindowRuleEvent::Manage);
    assert_eq!(pending.len(), before - 1);
}

#[test]
fn reloading_puts_new_values_in_force() {
    let mut config = test_config(Vec::new());
    let mut value = ParsedConfig::default();
    value.window_rules = vec![test_rule(InvokeCommand::ForceManage, "my-launcher")];
    assert!(config.reload(Ok((value, "text".to_string()))).is_ok());
    assert!(config.is_force_managed(&test_properties("my-launcher", "Launcher")));
    assert_eq!(config.value_str, "text");
}

#[test]
fn failed_reads_leave_the_config_in_force() {
    let mut config = test_config(vec![test_rule(InvokeCommand::ForceManage, "my-launcher")]);
    config.value_str = "before".to_string();
    let rules = config.window_rules_by_event(WindowRuleEvent::Manage).len();
    assert_eq!(config.reload(Err(ConfigError::Invalid)), Err(ConfigError::Invalid));
    assert_eq!(config.reload(Err(ConfigError::Unreadable)), Err(ConfigError::Unreadable));
    assert_eq!(config.value_str, "before");
    assert_eq!(config.window_rules_by_event(WindowRuleEvent::Manage).len(), rules);
    assert!(config.is_force_managed(&test_properties("my-launcher", "Launcher")));
    let failed = UserConfig::new(String::new(), Err(ConfigError::NotCreated), no_themes());
    assert_eq!(failed.err(), Some(ConfigError::NotCreated));
}

#[test]
fn the_argument_says_where_the_config_is() {
    let path = |s: &str| Some(s.to_string());
    assert_eq!(config_path(path("a"), path("v"), path("d")), Ok("a".to_string()));
    assert_eq!(config_path(None, path("v"), path("d")), Ok("v".to_string()));
    assert_eq!(config_path(None, None, path("d")), Ok("d".to_string()));
    assert_eq!(config_path(path("a"), None, None), Err(ConfigError::NoHome));
}

fn keys(bindings: &[&str], command: InvokeCommand) -> KeybindingConfig {
    KeybindingConfig { commands: vec![command], bindings: names(bindings) }
}

#[test]
fn only_pause_keys_work_while_paused() {
    let mut value = ParsedConfig::default();
    value.keybindings = vec![
        keys(&["alt+p"], InvokeCommand::WmTogglePause),
        keys(&["alt+a", "alt+b"], InvokeCommand::WmReloadConfig),
    ];
    let config =
        UserConfig::new(String::new(), Ok((value, String::new())), no_themes()).expect("a config");
    let modes: Vec<BindingModeConfig> = Vec::new();
    let active = config.active_keybinding_configs(&modes, false);
    assert_eq!(all_bindings(&active), vec!["alt+p", "alt+a", "alt+b"]);
    let paused = config.active_keybinding_configs(&modes, true);
    assert_eq!(all_bindings(&paused), vec!["alt+p"]);
}

#[test]
fn binding_modes_replace_keys() {
    let config = test_config(Vec::new());
    let modes = vec![BindingModeConfig {
        name: "resize".to_string(),
        keybindings: vec![keys(&["h"], InvokeCommand::WmReloadConfig)],
    }];
    let active = config.active_keybinding_configs(&modes, false);
    assert_eq!(all_bindings(&active), vec!["h"]);
}

#[test]
fn windows_are_sorted_out() {
    let config = test_config(vec![test_rule(InvokeCommand::ForceManage, "my-launcher")]);
    let plain = WindowMake {
        is_visible: true,
        is_child: false,
        is_unswitchable: false,
        has_owner: false,
        has_caption: true,
        is_standard: true,
    };
    let any = test_properties("other-app", "Other");
    assert_eq!(check_is_manageable(&config, &any, &plain), Manageability::Manageable);
    let odd = WindowMake { is_standard: false, ..plain };
    assert_eq!(check_is_manageable(&config, &any, &odd), Manageability::NonStandard);
    let hidden = WindowMake { is_visible: false, ..plain };
    assert_eq!(check_is_manageable(&config, &any, &hidden), Manageability::NotVisible);
    let child = WindowMake { is_child: true, ..plain };
    assert_eq!(check_is_manageable(&config, &any, &child), Manageability::UnmanageableStyle);
    let menu = WindowMake { has_owner: true, has_caption: false, ..plain };
    assert_eq!(check_is_manageable(&config, &any, &menu), Manageability::OwnedWithoutCaption);
    let forced = test_properties("my-launcher", "Launcher");
    assert_eq!(check_is_manageable(&config, &forced, &child), Manageability::Manageable);
}

#[test]
fn new_windows_get_their_mode() {
    let config = ParsedConfig::default();
    let area = Rect::from_ltrb(0, 0, 800, 600);
    let mut properties = test_properties("a", "b");
    properties.is_minimized = true;
    assert_eq!(window_state_to_create(&properties, &area, &config), WindowState::Minimized);
    let mut fixed = test_properties("a", "b");
    fixed.is_resizable = false;
    assert!(window_state_to_create(&fixed, &area, &config).is_floating());
    let plain = test_properties("a", "b");
    assert!(window_state_to_create(&plain, &area, &config).is_tiling());
}

#[test]
fn numbers_are_read_and_written() {
    assert_eq!(parse_u32("42"), Some(42));
    assert_eq!(parse_u32("+7"), Some(7));
    assert_eq!(parse_u32(""), None);
    assert_eq!(parse_u32("-1"), None);
    assert_eq!(parse_u32("4294967295"), Some(u32::MAX));
    assert_eq!(parse_u32("4294967296"), None);
    assert_eq!(format_u32(0), "0");
    assert_eq!(format_u32(1020), "1020");
    assert!(comes_before("a", "b"));
    assert!(comes_before("a", "ab"));
    assert!(!comes_before("b", "a"));
    assert!(!comes_before("a", "a"));
}

#[test]
fn events_are_served_in_order() {
    assert_eq!(select_event(&vec![]), None);
    assert_eq!(
        select_event(&vec![LoopEvent::Keybinding, LoopEvent::AnimationTick, LoopEvent::Mouse]),
        Some(LoopEvent::AnimationTick)
    );
    assert_eq!(
        select_event(&vec![LoopEvent::AnimationTick, LoopEvent::TrayExit]),
        Some(LoopEvent::TrayExit)
    );
    assert_eq!(action_for(LoopEvent::TrayExit, false), LoopAction::Exit);
    assert_eq!(action_for(LoopEvent::CleanupTick, true), LoopAction::Nothing);
    assert_eq!(action_for(LoopEvent::CleanupTick, false), LoopAction::CleanupInvalidWindows);
}

#[test]
fn keys_come_first_and_frames_are_not_starved() {
    let all = Queued { keybinding: true, mouse: true, window: true, display: true };
    assert_eq!(next_priority_event(&all, 0), Some(LoopEvent::Keybinding));
    let some = Queued { keybinding: false, mouse: false, ..all };
    assert_eq!(next_priority_event(&some, 7), Some(LoopEvent::Window));
    assert_eq!(next_priority_event(&all, 8), None);
    let none = Queued { keybinding: false, mouse: false, window: false, display: false };
    assert_eq!(next_priority_event(&none, 0), None);
}

#[test]
fn listeners_follow_the_settings() {
    assert_eq!(mouse_events(true), vec![MouseEventKind::Move, MouseEventKind::LeftButtonUp]);
    assert_eq!(mouse_events(false), vec![MouseEventKind::LeftButtonUp]);
    let pause = listener_update(WmEventKind::PauseChanged { is_paused: true });
    assert_eq!(pause.mouse_enabled, Some(false));
    assert!(pause.refreshes);
    let other = listener_update(WmEventKind::Other);
    assert_eq!(other.mouse_enabled, None);
    assert!(!other.refreshes);
}

#[test]
fn starting_goes_step_by_step() {
    let windows = startup_steps(Platform::Windows, false);
    assert_eq!(windows.len(), 12);
    assert_eq!(windows[6], StartupStep::Watcher);
    let mac = startup_steps(Platform::MacOs, false);
    assert_eq!(mac[2], StartupStep::AccessibilityCheck);
    assert!(mac.contains(&StartupStep::PathFromShell));
    assert!(!startup_steps(Platform::MacOs, true).contains(&StartupStep::PathFromShell));
    assert_eq!(loop_failure(LoopAction::AnswerIpc, false), FailureEffect::Warning);
    assert_eq!(loop_failure(LoopAction::ForwardWmEvent, true), FailureEffect::Fatal);
    assert_eq!(loop_failure(LoopAction::ReloadConfig, false), FailureEffect::Dialog);
    assert_eq!(failure_effect(StartupStep::Watcher), FailureEffect::Warning);
    assert_eq!(failure_effect(StartupStep::StartupCommands), FailureEffect::Dialog);
    assert_eq!(failure_effect(StartupStep::Config), FailureEffect::Fatal);
}
