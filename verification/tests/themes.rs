use glazewm::color_theme_sync::{
    remove_color_theme_popup, resync_color_theme_z_order, sync_color_theme_popup,
    sync_color_themes, ColorThemePopup, ColorThemeState, PopupAction, PopupCandidate, Restack,
    StepReply, ThemeAction, ThemeOverlay, ThemeWindow, ThemedWindow,
};
use glazewm::color_themes::{ColorThemes, NamedTheme};
use glazewm::geometry::Rect;
use glazewm::theme_layout::{
    element_regions, element_slots, filter_slots, ColorFilter, ColorTheme, ColorThemeOptions,
    ElementEntry, ElementRect, ElementTreatment, FilterConstants, TooManyFilters, UiElementKind,
    SLOT_ORIGINAL,
};
use glazewm::window_state::WindowState;

fn filter(background: &str) -> ColorFilter {
    let key = u64::from_str_radix(&background[1..], 16).expect("valid test color");
    ColorFilter { constants: FilterConstants { key } }
}

fn options(elements: Vec<(UiElementKind, ElementTreatment)>) -> ColorThemeOptions {
    ColorThemeOptions {
        filter: filter("#1e1e1e"),
        elements: elements
            .into_iter()
            .map(|(kind, treatment)| ElementEntry { kind, treatment })
            .collect(),
        detect_colors: false,
        skip_if_dark: false,
    }
}

fn theme(elements: Vec<(UiElementKind, ElementTreatment)>) -> ColorTheme {
    ColorTheme::new(options(elements)).expect("valid theme")
}

fn winter() -> Vec<NamedTheme> {
    vec![NamedTheme { name: "winter".to_string(), theme: theme(vec![]) }]
}

#[test]
fn element_filters_share_slots() {
    let theme = theme(vec![
        (UiElementKind::Hyperlink, ElementTreatment::Original),
        (UiElementKind::Edit, ElementTreatment::Filter(filter("#202040"))),
        (UiElementKind::Button, ElementTreatment::Filter(filter("#402020"))),
        (UiElementKind::ComboBox, ElementTreatment::Filter(filter("#202040"))),
        (UiElementKind::TabItem, ElementTreatment::Filter(filter("#1e1e1e"))),
    ]);

    assert_eq!(
        element_slots(&theme),
        vec![
            (UiElementKind::Edit, 1),
            (UiElementKind::Button, 2),
            (UiElementKind::Hyperlink, SLOT_ORIGINAL),
            (UiElementKind::ComboBox, 1),
            (UiElementKind::TabItem, 0),
        ]
    );

    let slots = filter_slots(&theme);
    assert_eq!(slots[0], filter("#1e1e1e").constants);
    assert_eq!(slots[1], filter("#202040").constants);
    assert_eq!(slots[3], FilterConstants::identity());
}

#[test]
fn element_regions_are_filtered_clipped_and_ordered() {
    let theme = theme(vec![
        (UiElementKind::Button, ElementTreatment::Original),
        (UiElementKind::Edit, ElementTreatment::Filter(filter("#202040"))),
    ]);

    let element = |kind, ltrb| ElementRect { kind, ltrb };
    let regions = element_regions(
        &theme,
        &vec![
            // Partly left of the frame.
            element(UiElementKind::Button, [-100, 50, 100, 250]),
            element(UiElementKind::Edit, [0, 0, 400, 30]),
            // Not configured.
            element(UiElementKind::ListItem, [0, 0, 50, 50]),
            // Entirely outside the frame.
            element(UiElementKind::Edit, [900, 900, 950, 950]),
        ],
        (800, 600),
    );

    assert_eq!(regions, vec![([0, 50, 100, 250], SLOT_ORIGINAL), ([0, 0, 400, 30], 1)]);
}

#[test]
fn too_many_element_filters_are_refused() {
    let kinds = [
        UiElementKind::Image,
        UiElementKind::Edit,
        UiElementKind::Document,
        UiElementKind::Button,
        UiElementKind::Hyperlink,
        UiElementKind::CheckBox,
        UiElementKind::RadioButton,
        UiElementKind::ComboBox,
    ];
    let with = |n: usize| {
        (0..n)
            .map(|i| {
                let f = ColorFilter { constants: FilterConstants { key: 100 + i as u64 } };
                (kinds[i], ElementTreatment::Filter(f))
            })
            .collect::<Vec<_>>()
    };
    assert!(ColorTheme::new(options(with(7))).is_ok());
    assert_eq!(ColorTheme::new(options(with(8))).err(), Some(TooManyFilters));
}

#[test]
fn invalid_edit_keeps_previous_themes() {
    let mut themes = ColorThemes::new("config.yaml".to_string(), None, None);
    assert!(themes.get("winter").is_none());

    assert!(themes.needs_read(Some(1)));
    assert!(themes.reload_if_changed(Some(1), Some(winter())));
    assert!(themes.get("winter").is_some());

    // What was written does not parse.
    assert!(!themes.reload_if_changed(Some(2), None));
    assert!(themes.get("winter").is_some());

    // Nothing was written since.
    assert!(!themes.needs_read(Some(2)));
    assert!(!themes.reload_if_changed(Some(2), Some(vec![])));
    assert!(themes.get("winter").is_some());

    // The file is gone.
    assert!(!themes.needs_read(None));
    assert!(themes.reload_if_changed(None, None));
    assert!(themes.get("winter").is_none());
}

fn window(id: u128, hwnd: isize) -> ThemeWindow {
    ThemeWindow {
        id,
        hwnd,
        process_id: 7,
        state: WindowState::Tiling,
        is_displayed: true,
        has_stand_in: false,
    }
}

fn themed_state() -> (ColorThemeState, ColorThemes) {
    let state = ColorThemeState {
        windows: vec![ThemedWindow { id: 1, theme_name: "winter".to_string() }],
        failures: vec![],
        overlays: vec![],
        popups: vec![],
    };
    (state, ColorThemes::new("config.yaml".to_string(), Some(1), Some(winter())))
}

#[test]
fn themed_windows_get_overlays() {
    let (mut state, themes) = themed_state();
    let windows = vec![window(1, 11), window(2, 22)];
    let plan = sync_color_themes(&state, &themes, &vec![], &windows);
    let action = plan.steps.iter().find(|s| s.id == 1).map(|s| s.action);
    assert_eq!(action, Some(ThemeAction::Create { hwnd: 11 }));
    assert!(!plan.steps.iter().any(|s| {
        s.id == 2 && matches!(s.action, ThemeAction::Create { .. })
    }));

    // A window that was given up is never themed again.
    state.give_up(1);
    let plan = sync_color_themes(&state, &themes, &vec![], &windows);
    assert!(!plan.steps.iter().any(|s| matches!(s.action, ThemeAction::Create { .. })));
}

#[test]
fn cycles_end_with_what_came_of_them() {
    let (mut state, themes) = themed_state();
    let windows = vec![window(1, 11), window(2, 22)];
    assert!(state.theme_of(&themes, 1).is_some());
    assert!(state.theme_of(&themes, 2).is_none());
    // An overlay that is made in this cycle keeps the popups of its window.
    state.popups.push(ColorThemePopup { hwnd: 33, owner: 1, has_failed: false });
    state.popups.push(ColorThemePopup { hwnd: 44, owner: 2, has_failed: false });
    state.windows.push(ThemedWindow { id: 9, theme_name: "winter".to_string() });
    state.failures.push(9);
    let plan = sync_color_themes(&state, &themes, &vec![], &windows);
    assert_eq!(plan.steps.len(), 1);
    state.finish_sync(&plan, &vec![StepReply::Overlay { is_visible: true }], &themes, &windows);
    assert_eq!(
        state.overlays,
        vec![ThemeOverlay { id: 1, is_visible: true, has_failed: false }]
    );
    assert_eq!(state.popups.len(), 1);
    assert_eq!(state.popups[0].owner, 1);
    // Windows that are gone are forgotten.
    assert_eq!(state.windows.len(), 1);
    assert!(state.failures.is_empty());

    // An overlay that is hidden takes its popups with it.
    let hidden = vec![ThemeWindow { is_displayed: false, ..window(1, 11) }];
    let plan = sync_color_themes(&state, &themes, &vec![], &hidden);
    assert_eq!(plan.steps[0].action, ThemeAction::Hide);
    state.finish_sync(&plan, &vec![StepReply::NoFrame], &themes, &hidden);
    assert!(!state.overlays[0].is_visible);
    assert!(state.popups.is_empty());

    // One that cannot be made is noted.
    state.overlays.clear();
    let plan = sync_color_themes(&state, &themes, &vec![], &windows);
    state.finish_sync(&plan, &vec![StepReply::Failed], &themes, &windows);
    assert_eq!(state.failures, vec![1]);
    assert!(state.overlays.is_empty());
}

#[test]
fn overlays_of_unthemed_windows_are_removed() {
    let (mut state, themes) = themed_state();
    state.windows.clear();
    state.overlays.push(ThemeOverlay { id: 1, is_visible: true, has_failed: false });
    let plan = sync_color_themes(&state, &themes, &vec![], &vec![window(1, 11)]);
    assert_eq!(plan.removed, vec![1]);
}

#[test]
fn popups_follow_their_window() {
    let (mut state, themes) = themed_state();
    state.overlays.push(ThemeOverlay { id: 1, is_visible: true, has_failed: false });
    let windows = vec![window(1, 11)];
    let candidate = PopupCandidate {
        hwnd: 33,
        is_managed: false,
        frame: Some(Rect::from_ltrb(0, 0, 100, 100)),
        is_top_level: true,
        is_visible: true,
        process_id: 7,
    };
    assert_eq!(
        sync_color_theme_popup(&state, &themes, &windows, &candidate),
        PopupAction::Create { owner: 1 }
    );
    // A popup of another process is none of ours.
    let other = PopupCandidate { process_id: 8, ..candidate };
    assert_eq!(
        sync_color_theme_popup(&state, &themes, &windows, &other),
        PopupAction::Ignore
    );

    state.popups.push(ColorThemePopup { hwnd: 33, owner: 1, has_failed: false });
    assert_eq!(
        sync_color_theme_popup(&state, &themes, &windows, &candidate),
        PopupAction::Move
    );
    let restacks = resync_color_theme_z_order(&state, &windows);
    assert!(restacks.contains(&Restack::Window { id: 1, hwnd: 11 }));
    assert!(restacks.contains(&Restack::Popup { hwnd: 33 }));

    remove_color_theme_popup(33, &mut state);
    assert!(state.popups.is_empty());
    remove_color_theme_popup(33, &mut state);
    assert!(state.popups.is_empty());
}

#[test]
fn forgetting_keeps_live_windows() {
    let (mut state, _) = themed_state();
    state.windows.push(ThemedWindow { id: 2, theme_name: "winter".to_string() });
    state.forget_gone(&vec![2]);
    assert_eq!(state.windows.len(), 1);
    assert_eq!(state.windows[0].id, 2);
}
