use glazewm::color_capture::{
    ensure_capturable, initial_size, is_more_elevated, CaptureError, FrameConstants, RawSize,
    Renderer, Size,
};
use glazewm::effects::{
    apply_window_effects, blur_overlay_params_for, border_overlay_params_for, BackdropStyle,
    CornerStyle, WindowEffectConfig, WindowEffectsConfig,
};
use glazewm::element_watch::{
    control_types, elements_of, kind_of, query_types, ElementWatch, FoundElement, NextStep, Worker,
};
use glazewm::geometry::{Color, Point, Rect};
use glazewm::graphics_device::{
    accent_policy, accent_policy_with_flags, choose_driver, needs_new_device, AccentState,
    DeviceError, DeviceSlot, DriverType, ACCENT_FLAG_USE_GRADIENT_COLOR,
};
use glazewm::overlays::{
    overlay_z_anchor, sync_overlays, upsert_overlay, ExistingOverlay, OverlayAction, OverlayCycle,
    OverlayWindow, UpsertAction,
};
use glazewm::platform_sync::{
    finish_sync, jump_cursor, jump_position, platform_sync, sync_focus, unfocused_effect_windows,
    update_effects, CursorJumpTrigger, EffectUpdate, FocusAction, FocusedWindow, JumpTarget, PendingChanges, SyncStage,
};
use glazewm::redraw::{
    cycle_has_resize, plan_shell_marks, plan_window, position_source, session_overlay,
    PositionSource, RedrawSettings, RedrawStep, SessionOverlay, SessionSnapshot, SizeCheck,
    WindowSnapshot,
};
use glazewm::redraw_cycle::{
    owes_uncloak, Animated, CycleAction, RedrawCycle, SessionFacts, WindowAction, WindowFacts,
};
use glazewm::reposition::{
    commit_pending_cloaks, reposition_window, CloakState, CloakStep, HideCorner, HideMethod,
    PendingCloak, PosFlags, RepositionInput, RepositionStep, SessionNeeds, WindowZOrder,
};
use glazewm::resize_session::{
    compute_border_inset, to_logical, Insets, ResizeSession, SessionOptions, Surrogate,
    SurrogateChange, SurrogatePlace,
};
use glazewm::scratchpad_overlay::{overlay_area, NativeScratchpadOverlay};
use glazewm::sorting::stable_order;
use glazewm::system_accent_color::{system_accent_color, AccentCache, AccentError};
use glazewm::theme_layout::UiElementKind;
use glazewm::window_listener::{
    hook_ranges, shell_event, window_event, ListenerError, ShellReply, WindowEvent,
    WindowListener, EVENT_OBJECT_CLOAKED, EVENT_OBJECT_DESTROY, EVENT_OBJECT_REORDER,
    EVENT_SYSTEM_MOVESIZEEND, HSHELL_FLASH,
};
use glazewm::window_state::{DisplayState, FullscreenState, WindowState};
use glazewm::workspace_surrogate::{monitor_middle, zoomed_part, SurrogateMode, WorkspaceSurrogate};
use glazewm::workspace_switch::{
    iris_max_radius, plan_workspace_switch, surrogate_place, surrogate_show, switch_pre_pass,
    IrisSwitchRequest, MonitorBounds, SurrogateShow, SwitchCandidate, WorkspaceSwitchStyle,
};
use glazewm::z_order::{
    above_placement, insert_above_point, insert_after_point, is_directly_above, is_shown_over,
    match_z_band, set_topmost, InsertAfter, StackedWindow,
};

#[test]
fn windows_report_events() {
    assert_eq!(
        window_event(EVENT_OBJECT_DESTROY, 5, 0, 0, 1),
        Some(WindowEvent::Destroyed { window_id: 5 })
    );
    assert_eq!(
        window_event(EVENT_OBJECT_CLOAKED, 5, 0, 0, 1),
        Some(WindowEvent::Hidden { window: 5 })
    );
    assert_eq!(
        window_event(EVENT_SYSTEM_MOVESIZEEND, 5, 0, 0, 1),
        Some(WindowEvent::MovedOrResized {
            window: 5,
            is_interactive_start: false,
            is_interactive_end: true,
        })
    );
    // A part of a window, and no window at all.
    assert_eq!(window_event(EVENT_OBJECT_DESTROY, 5, 0, 1, 1), None);
    assert_eq!(window_event(EVENT_OBJECT_DESTROY, 5, -4, 0, 1), None);
    assert_eq!(window_event(EVENT_OBJECT_DESTROY, 0, 0, 0, 1), None);
    assert_eq!(window_event(12, 5, 0, 0, 1), None);
    // A new order is reported of the desktop.
    assert_eq!(
        window_event(EVENT_OBJECT_REORDER, 1, -4, 0, 1),
        Some(WindowEvent::ZOrderChanged)
    );
    assert_eq!(window_event(EVENT_OBJECT_REORDER, 5, 0, 0, 1), None);
    assert_eq!(hook_ranges().len(), 6);
    assert_eq!(
        shell_event(9, 9, HSHELL_FLASH as u64, 5),
        ShellReply::Event(WindowEvent::AttentionRequested { window: 5 })
    );
    assert_eq!(shell_event(9, 9, 4, 5), ShellReply::Ignored);
    assert_eq!(shell_event(8, 9, HSHELL_FLASH as u64, 5), ShellReply::NotShell);
}

#[test]
fn listeners_are_ended_once() {
    assert!(matches!(WindowListener::new(None, true), Err(ListenerError::ShellHookRefused)));
    assert!(matches!(WindowListener::new(Some(3), true), Err(ListenerError::SenderAlreadySet)));
    let mut listener = WindowListener::new(Some(3), false).expect("a listener");
    assert_eq!(listener.add_hook(7), Ok(()));
    assert_eq!(listener.add_hook(0), Err(ListenerError::EventHookRefused));
    assert_eq!(listener.add_hook(-1), Err(ListenerError::EventHookRefused));
    let released = listener.terminate();
    assert_eq!((released.hooks, released.callback), (vec![7], Some(3)));
    let again = listener.terminate();
    assert_eq!((again.hooks, again.callback), (vec![], None));
}

#[test]
fn accent_colors_are_cached() {
    let red = Color { r: 255, g: 0, b: 0, a: 255 };
    let blue = Color { r: 0, g: 0, b: 255, a: 255 };
    let mut cache = AccentCache::new();
    assert!(cache.needs_read(1000));
    assert_eq!(system_accent_color(&mut cache, 1000, None), Err(AccentError::ReadFailed));
    assert_eq!(system_accent_color(&mut cache, 1001, Some(red)), Ok(red));
    assert!(!cache.needs_read(1250));
    assert_eq!(system_accent_color(&mut cache, 1250, Some(blue)), Ok(red));
    assert_eq!(system_accent_color(&mut cache, 1251, Some(blue)), Ok(blue));
}

#[test]
fn scratchpad_overlays_cover_the_monitor() {
    assert!(NativeScratchpadOverlay::new(0).is_err());
    assert_eq!(NativeScratchpadOverlay::new(5).map(|o| o.hwnd()), Ok(5));
    let area = overlay_area(&Rect::from_ltrb(10, 20, 110, 70));
    assert_eq!((area.x, area.y, area.width, area.height), (10, 20, 100, 50));
}

fn stacked(handle: isize, topmost: bool) -> StackedWindow {
    StackedWindow {
        handle,
        topmost,
        is_visible: true,
        is_cloaked: false,
        is_overlay: false,
        bounds: Some(Rect::from_ltrb(0, 0, 100, 100)),
    }
}

#[test]
fn overlays_find_their_place_behind() {
    let hidden = StackedWindow { is_visible: false, ..stacked(3, true) };
    let z = vec![stacked(1, true), stacked(2, false), hidden, stacked(4, false)];
    // The window below the anchor is in the upper band.
    assert_eq!(insert_after_point(&z, 2), 4);
    assert_eq!(insert_after_point(&z, 1), 1);
    assert_eq!(insert_after_point(&z, 99), 99);
    let stuck = vec![stacked(2, false), hidden];
    assert_eq!(insert_after_point(&stuck, 2), 2);
}

#[test]
fn overlays_find_their_place_above() {
    let z = vec![stacked(1, true), stacked(2, false), stacked(3, false)];
    assert_eq!(insert_above_point(&z, 3, 9), InsertAfter::Window(2));
    assert_eq!(insert_above_point(&z, 2, 9), InsertAfter::Top);
    assert_eq!(insert_above_point(&z, 3, 2), InsertAfter::Top);
    let top = above_placement(&z, 2, 9);
    assert_eq!((top.topmost, top.after), (true, InsertAfter::Window(1)));
    let covered = above_placement(&z, 3, 9);
    assert_eq!((covered.topmost, covered.after), (false, InsertAfter::Window(2)));
    let lone = vec![stacked(2, false)];
    assert_eq!(above_placement(&lone, 2, 9).after, InsertAfter::Topmost);
    assert!(is_directly_above(&z, 2, 3));
    assert!(!is_directly_above(&z, 1, 3));
    assert!(!is_directly_above(&z, 3, 2));
    let cloaked = StackedWindow { is_cloaked: true, ..stacked(2, false) };
    assert!(!is_shown_over(&cloaked, None));
    assert!(is_shown_over(&stacked(2, false), None));
    assert!(!is_shown_over(&stacked(2, false), Some(Rect::from_ltrb(100, 0, 200, 100))));
    assert_eq!(set_topmost(true, true), None);
    assert_eq!(set_topmost(false, true), Some(InsertAfter::Topmost));
    assert_eq!(match_z_band(true, false), Some(InsertAfter::NotTopmost));
}

#[test]
fn elements_are_told_apart() {
    assert_eq!(kind_of(50000), Some(UiElementKind::Button));
    assert_eq!(kind_of(50031), Some(UiElementKind::Button));
    assert_eq!(kind_of(50037), Some(UiElementKind::TitleBar));
    assert_eq!(kind_of(50001), None);
    assert_eq!(control_types(UiElementKind::Header), vec![50034, 50035]);
    assert_eq!(
        query_types(&vec![UiElementKind::Image, UiElementKind::Button]),
        vec![50006, 50000, 50031]
    );
    let found = vec![
        FoundElement {
            control_type: 50000,
            rect: Rect::from_ltrb(110, 120, 130, 140),
            offscreen: false,
        },
        FoundElement {
            control_type: 50000,
            rect: Rect::from_ltrb(110, 120, 130, 140),
            offscreen: true,
        },
        FoundElement {
            control_type: 50001,
            rect: Rect::from_ltrb(110, 120, 130, 140),
            offscreen: false,
        },
        FoundElement { control_type: 50004, rect: Rect::from_ltrb(5, 5, 5, 9), offscreen: false },
    ];
    let elements = elements_of(&found, (100, 100));
    assert_eq!(elements.len(), 1);
    assert_eq!(elements[0].kind, UiElementKind::Button);
    assert_eq!(elements[0].ltrb, [10, 20, 30, 40]);
}

#[test]
fn slow_windows_are_read_less_often() {
    let mut worker = Worker::new();
    assert_eq!(worker.next_due(0), NextStep::Wait);
    assert!(worker.add_watch(ElementWatch::start(5, vec![UiElementKind::Image])));
    assert_eq!(worker.next_due(0), NextStep::Query(0));
    worker.begin_query(0);
    assert!(worker.end_query(0, 50, 50, true));
    assert_eq!(worker.next_due(60), NextStep::Wait);
    assert!(worker.watches[0].notify());
    assert!(!worker.watches[0].notify());
    assert_eq!(worker.next_due(60), NextStep::WaitUntil(1050));
    assert_eq!(worker.next_due(1050), NextStep::Query(0));
    worker.begin_query(0);
    assert!(!worker.end_query(0, 1051, 1, false));
    assert_eq!(worker.watches[0].next_query, Some(1451));
    assert!(!worker.watches[0].set_kinds(vec![UiElementKind::Image]));
    assert!(worker.watches[0].set_kinds(vec![UiElementKind::Edit]));
    worker.watches[0].close();
    assert_eq!(worker.next_due(9999), NextStep::Wait);
    assert!(worker.watches.is_empty());
    worker.give_up();
    assert!(!worker.add_watch(ElementWatch::start(5, vec![])));
    assert!(worker.watches.is_empty());
}

const RED: Color = Color { r: 255, g: 0, b: 0, a: 255 };

#[test]
fn frames_release_the_placeholder() {
    let size = Size { width: 100, height: 50 };
    let pool = RawSize { width: 100, height: 50 };
    let mut r = Renderer::start(size, Some(RED), false, pool);
    assert_eq!(r.visible_fill, Some(RED));
    assert!(!r.sprite_visible);
    // An empty frame changes nothing.
    assert!(r.on_frame_arrived(1, Some(RawSize { width: 0, height: 5 })).render.is_none());
    assert!(r.on_frame_arrived(1, None).render.is_none());
    // A smaller one is shown, over the color.
    let small = RawSize { width: 90, height: 50 };
    let plan = r.on_frame_arrived(2, Some(small));
    assert_eq!(plan.recreates, Some(small));
    assert!(plan.render.is_some_and(|p| p.resizes && p.makes_view));
    assert!(r.sprite_visible);
    assert_eq!(r.visible_fill, Some(RED));
    assert!(r.last_frame.is_none());
    // One that covers makes the color go.
    r.on_frame_arrived(3, Some(pool));
    assert_eq!(r.visible_fill, None);
    let plan = r.on_frame_arrived(4, Some(pool));
    assert_eq!(plan.recreates, None);
    assert_eq!(r.last_frame.map(|f| f.id), Some(4));
    assert!(r.set_theme().is_some());
}

#[test]
fn held_frames_wait() {
    let size = Size { width: 100, height: 50 };
    let pool = RawSize { width: 100, height: 50 };
    let mut r = Renderer::start(size, None, true, pool);
    r.set_fill(Some(RED));
    assert_eq!(r.visible_fill, Some(RED));
    r.on_frame_arrived(1, Some(pool));
    assert!(!r.sprite_visible);
    r.release_fill_when_covered(size);
    assert!(r.set_frames_held(false).is_some());
    assert!(r.sprite_visible);
    assert_eq!(r.visible_fill, None);
    assert!(r.fail());
    assert!(!r.fail());
    assert!(r.has_failed());
    assert!(!r.sprite_visible);
    assert!(r.on_frame_arrived(2, Some(pool)).render.is_none());
    r.set_fill(Some(RED));
    assert_eq!(r.visible_fill, None);
}

#[test]
fn windows_that_cannot_be_captured_are_refused() {
    assert_eq!(ensure_capturable(Some(true), false, Some(0)), Ok(()));
    assert_eq!(ensure_capturable(Some(true), false, None), Ok(()));
    assert_eq!(ensure_capturable(None, false, None), Err(CaptureError::SupportUnknown));
    assert_eq!(ensure_capturable(Some(false), true, None), Err(CaptureError::Unsupported));
    assert_eq!(ensure_capturable(Some(true), true, Some(1)), Err(CaptureError::Elevated));
    assert_eq!(ensure_capturable(Some(true), false, Some(1)), Err(CaptureError::Blocked));
    assert!(!is_more_elevated(Some(true), None));
    assert!(is_more_elevated(Some(false), None));
    assert!(is_more_elevated(None, Some(None)));
    assert!(!is_more_elevated(Some(false), Some(Some(false))));
    let size = initial_size(&Rect::from_ltrb(0, 0, 0, 7));
    assert_eq!(size, Size { width: 1, height: 7 });
    assert_eq!(FrameConstants::new(size).size, [1, 7]);
}

#[test]
fn devices_are_made_anew_after_a_loss() {
    assert_eq!(choose_driver(true, false), Ok(DriverType::Hardware));
    assert_eq!(choose_driver(false, true), Ok(DriverType::Warp));
    assert_eq!(choose_driver(false, false), Err(DeviceError::NoDevice));
    assert!(needs_new_device(false, false));
    assert!(needs_new_device(true, true));
    assert!(!needs_new_device(true, false));
    let mut slot = DeviceSlot::new();
    assert_eq!(slot.acquire(false), Err(DeviceError::NoDevice));
    assert_eq!(slot.acquire(true), Ok(true));
    assert_eq!(slot.acquire(true), Err(DeviceError::InUse));
    slot.reset();
    slot.release();
    assert_eq!(slot.acquire(true), Ok(false));
    slot.release();
    slot.reset();
    assert_eq!(slot.acquire(true), Ok(true));
    assert_eq!(accent_policy(AccentState::HostBackdrop, 9).accent_state, 5);
    let blur =
        accent_policy_with_flags(AccentState::BlurBehind, ACCENT_FLAG_USE_GRADIENT_COLOR, 9);
    assert_eq!((blur.accent_state, blur.accent_flags, blur.gradient_color), (3, 2, 9));
}

const NO_BORDER: Insets = Insets { left: 0, top: 0, right: 0, bottom: 0 };

#[test]
fn sessions_end_at_their_target() {
    let border = compute_border_inset(
        Some(Rect::from_ltrb(0, 0, 100, 100)),
        Some(Rect::from_ltrb(7, 0, 93, 93)),
    );
    assert_eq!(border, Insets { left: 7, top: 0, right: 7, bottom: 7 });
    assert_eq!(compute_border_inset(None, Some(Rect::from_ltrb(0, 0, 1, 1))), NO_BORDER);
    let small = Rect::from_xy(0, 0, 100, 100);
    let large = Rect::from_xy(0, 0, 200, 100);
    assert_eq!(to_logical(&small, &border), Rect::from_ltrb(7, 0, 93, 93));
    let options = SessionOptions { effect_opacity: 200, initially_visible: true };
    let grow = ResizeSession::setup(&small, &large, &options, &border);
    assert!(grow.is_growing);
    assert_eq!(grow.thumbnail_rect, large);
    let shrink = ResizeSession::setup(&large, &small, &options, &border);
    assert_eq!(shrink.thumbnail_rect, large);
    assert!(!shrink.is_growing);

    let mut session = ResizeSession::begin(5, &large, &grow, Surrogate::Live);
    assert!(session.has_surrogate() && session.needs_preposition() && session.show());
    assert_eq!(session.update(&small, 99),
        Some(SurrogatePlace { rect: Rect::from_ltrb(7, 0, 93, 93), opacity: 99 }));
    let turn = session.update_target(&large, &small);
    assert_eq!(turn.moves_window, None);
    assert_eq!(turn.thumbnail, Some(to_logical(&large, &border)));
    let on = session.update_target(&small, &small);
    assert_eq!(on.moves_window, Some(small));
    assert_eq!(*session.target_rect(), small);
    let end = session.pre_commit(true);
    assert_eq!(end.moves_window, Some(small));
    // It ends as opaque as it was to be all along.
    let place = SurrogatePlace { rect: to_logical(&small, &border), opacity: 200 };
    assert_eq!(end.moves_surrogate, Some(place));
    assert_eq!(session.commit(true), Some(small));
    session.pre_commit(false);
    assert_eq!(session.commit(true), None);
}

#[test]
fn pictures_are_cut_to_the_monitor() {
    let options = SessionOptions { effect_opacity: 255, initially_visible: true };
    let rect = Rect::from_xy(0, 0, 100, 100);
    let setup = ResizeSession::setup(&rect, &rect, &options, &NO_BORDER);
    let session = ResizeSession::begin(5, &rect, &setup, Surrogate::Blank);
    assert!(!session.has_surrogate());
    let monitor = Rect::from_xy(0, 0, 1000, 1000);
    match session.update_clipped(&Rect::from_xy(-40, 10, 100, 100), &monitor, 77) {
        SurrogateChange::Show { frame, opacity } => {
            assert_eq!(opacity, 77);
            assert_eq!(frame.source, Rect::from_ltrb(40, 0, 100, 100));
            assert_eq!(frame.dest, Rect::from_ltrb(0, 0, 60, 100));
            assert_eq!(frame.place, Some(Rect::from_ltrb(0, 10, 60, 110)));
        },
        other => panic!("{other:?}"),
    }
    assert_eq!(
        session.update_clipped(&Rect::from_xy(-200, 10, 100, 100), &monitor, 77),
        SurrogateChange::Hide { new_opacity: None }
    );
    assert_eq!(
        session.update_zoom_fade(0, 5, 33),
        SurrogateChange::Hide { new_opacity: Some(33) }
    );
    match session.update_zoom_fade(20, 10, 34) {
        SurrogateChange::Show { frame, opacity } => {
            assert_eq!(frame.dest, Rect::from_ltrb(30, 40, 70, 60));
            assert_eq!(opacity, 34);
        },
        other => panic!("{other:?}"),
    }
    let none = ResizeSession::begin(5, &rect, &setup, Surrogate::Missing);
    assert_eq!(none.update_zoom_fade(20, 10, 34), SurrogateChange::Nothing);
    assert_eq!(none.defer_update(&rect, 34), None);
    assert!(!none.show());
}

#[test]
fn workspaces_slide_off_the_monitor() {
    let monitor = Rect::from_xy(100, 0, 1000, 500);
    let rect = Rect::from_xy(200, 50, 300, 400);
    let setup = WorkspaceSurrogate::new(&rect, &monitor, 255, false, &NO_BORDER);
    assert_eq!(setup.source_rect, monitor);
    assert!(!setup.keeps_corners);
    let mut pinned = setup.surrogate;
    assert_eq!(pinned.mode, SurrogateMode::PinnedViewport);
    let (frame, opacity) = pinned.show_initial();
    assert_eq!(frame.dest, Rect::from_xy(100, 50, 300, 400));
    assert_eq!((frame.place, opacity), (None, 255));
    let frame = pinned.slide_axis(-200, &monitor, false).expect("visible");
    assert_eq!(frame.source, Rect::from_ltrb(100, 0, 300, 400));
    assert_eq!(frame.dest, Rect::from_ltrb(0, 50, 200, 450));
    assert!(pinned.slide_axis(-400, &monitor, false).is_none());

    let border = Insets { left: 7, top: 0, right: 7, bottom: 7 };
    let mut live = WorkspaceSurrogate::new(&rect, &monitor, 200, true, &border).surrogate;
    assert!(live.is_live());
    assert_eq!(live.apply_effect_opacity(), 200);
    let (frame, opacity) = live.show_incoming(10);
    assert_eq!(frame.place, Some(live.rect));
    assert_eq!(opacity, 10);
    assert_eq!(live.current_rect(), Some(live.rect));
    let frame = live.slide_axis(100, &monitor, true).expect("visible");
    assert_eq!(frame.source, Rect::from_ltrb(7, 0, 293, 350));
    assert_eq!(frame.place, Some(Rect::from_ltrb(207, 150, 493, 500)));
    assert!(live.update_zoom(0, 1).is_none());
    assert_eq!(live.current_rect(), None);
}

#[test]
fn workspaces_zoom_about_the_middle() {
    let monitor = Rect::from_xy(100, 0, 1000, 500);
    assert_eq!(monitor_middle(&monitor), (600, 250));
    let zoomed = Rect::from_xy(150, 50, 100, 100);
    let part = zoomed_part(&zoomed, -100, &monitor, false, true);
    assert_eq!(part.visible, Some(Rect::from_ltrb(100, 50, 150, 150)));
    assert_eq!(zoomed_part(&zoomed, -100, &monitor, false, false).visible, None);
    let rect = Rect::from_xy(200, 50, 300, 400);
    let mut s = WorkspaceSurrogate::new(&rect, &monitor, 255, false, &NO_BORDER).surrogate;
    let frame =
        s.slide_zoom_axis(part.visible, &Rect::from_ltrb(100, -1, 500, 400)).expect("visible");
    assert_eq!(frame.source, Rect::from_ltrb(100, 0, 300, 400));
    assert!(s.slide_zoom_axis(None, &rect).is_none());
}

#[test]
fn switches_need_participants() {
    let monitor = MonitorBounds { x: 0, y: 0, width: 100, height: 50, handle: 7 };
    let candidate = SwitchCandidate {
        id: 1,
        is_incoming: true,
        is_outgoing: false,
        monitor: Some(monitor),
    };
    let plan = plan_workspace_switch(&vec![candidate], 1, WorkspaceSwitchStyle::Slide);
    assert!(plan.starts);
    assert_eq!(plan.participants.len(), 1);
    let idle = SwitchCandidate { is_incoming: false, ..candidate };
    assert!(!plan_workspace_switch(&vec![idle], 1, WorkspaceSwitchStyle::Slide).starts);
    assert_eq!(surrogate_show(false, WorkspaceSwitchStyle::Slide), SurrogateShow::Initial);
    assert_eq!(surrogate_show(true, WorkspaceSwitchStyle::Fade), SurrogateShow::Incoming);
    assert_eq!(surrogate_show(true, WorkspaceSwitchStyle::Slide), SurrogateShow::Later);
}

#[test]
fn the_iris_reaches_every_corner() {
    let req = IrisSwitchRequest {
        origin_x: 0,
        origin_y: 0,
        monitor_x: 0,
        monitor_y: 0,
        monitor_width: 30,
        monitor_height: 40,
    };
    assert_eq!(iris_max_radius(&req), 50);
    let off = IrisSwitchRequest { monitor_width: 31, ..req };
    assert_eq!(iris_max_radius(&off), 51);
}

fn input() -> RepositionInput {
    RepositionInput {
        state: WindowState::Tiling,
        rect: Rect::from_xy(0, 0, 100, 50),
        z_order: WindowZOrder::Normal,
        is_visible: true,
        has_surrogate: false,
        is_dragged: false,
        is_minimized: false,
        is_maximized: false,
        has_maximize_box: true,
        has_pending_dpi_adjustment: false,
        hide_method: HideMethod::Cloak,
        hide_corner: HideCorner::BottomRight,
        frame: Rect::from_xy(0, 0, 100, 50),
        working_area: Some(Rect::from_xy(0, 0, 1000, 500)),
    }
}

#[test]
fn windows_are_put_in_place() {
    let (steps, cloak) = reposition_window(&input()).expect("a monitor");
    assert!(steps.iter().any(|s| matches!(s, RepositionStep::SetWindowPos { .. })));
    assert!(steps.contains(&RepositionStep::SetCloaked(false)));
    assert_eq!(cloak, CloakState::Applied);
    let hidden = RepositionInput {
        is_visible: false,
        hide_method: HideMethod::PlaceInCorner,
        working_area: None,
        ..input()
    };
    assert!(reposition_window(&hidden).is_err());
    let flags = PosFlags {
        no_z_order: true,
        frame_changed: false,
        no_copy_bits: false,
        async_pos: false,
    };
    assert_eq!(flags.bits() & 0x4, 0x4);
}

#[test]
fn one_flush_comes_before_all_cloaks() {
    let pending = |window| PendingCloak {
        window,
        z_order: WindowZOrder::Normal,
        target_rect: Rect::from_xy(0, 0, 10, 10),
        session: None,
    };
    let steps = commit_pending_cloaks(&vec![pending(1), pending(2)]);
    let flushes = steps.iter().filter(|s| **s == CloakStep::Flush).count();
    assert_eq!(flushes, 1);
    let flush = steps.iter().position(|s| *s == CloakStep::Flush).expect("a flush");
    let cloak = steps.iter().position(|s| *s == CloakStep::Cloak(1)).expect("a cloak");
    assert!(flush < cloak);
    assert!(commit_pending_cloaks(&vec![]).is_empty());
}

fn effects() -> WindowEffectsConfig {
    let plain = WindowEffectConfig {
        hide_title_bar: true,
        corner_enabled: false,
        corner_style: CornerStyle::Rounded,
        transparency_enabled: false,
        alpha: 100,
        backdrop_enabled: false,
        backdrop_style: BackdropStyle::Acrylic,
        backdrop_tint: None,
        border_color: None,
    };
    let focused = WindowEffectConfig {
        border_color: Some(RED),
        backdrop_enabled: true,
        backdrop_tint: Some(RED),
        transparency_enabled: true,
        ..plain
    };
    WindowEffectsConfig { focused_window: focused, other_windows: plain }
}

#[test]
fn effects_depend_on_the_focus() {
    let config = effects();
    assert_eq!(border_overlay_params_for(true, &config).map(|l| l.color), Some(RED));
    assert!(border_overlay_params_for(false, &config).is_none());
    assert!(blur_overlay_params_for(true, &config).is_some());
    assert!(blur_overlay_params_for(false, &config).is_none());
    assert!(!apply_window_effects(&config, true).is_empty());
    assert_eq!(config.class(true).opacity(), 100);
    assert_eq!(config.class(false).opacity(), 255);
}

#[test]
fn overlays_follow_their_windows() {
    let window = OverlayWindow {
        id: 1,
        hwnd: 11,
        state: WindowState::Tiling,
        is_displayed: true,
        has_live_tracker: false,
        has_active_surrogate: false,
    };
    let mut cycle = OverlayCycle {
        focused: 1,
        focused_enabled: true,
        other_enabled: false,
        full_z_order_resync: false,
        redrawing: vec![],
        z_order_touched: vec![],
        existing: vec![],
    };
    let plan = sync_overlays(&cycle, &vec![window]);
    assert!(plan.steps.iter().any(|s| matches!(s.action, OverlayAction::Create { anchor: 11 })));
    cycle.existing.push(ExistingOverlay { id: 1, is_visible: true });
    cycle.existing.push(ExistingOverlay { id: 2, is_visible: true });
    let plan = sync_overlays(&cycle, &vec![window]);
    assert_eq!(plan.removed, vec![2]);
    assert_eq!(overlay_z_anchor(&WindowState::Tiling, 11), 11);
    assert_eq!(upsert_overlay(&vec![1], 1), UpsertAction::Update);
    assert_eq!(upsert_overlay(&vec![1], 2), UpsertAction::Create);
}

fn pending() -> PendingChanges {
    PendingChanges {
        has_containers_to_redraw: true,
        has_workspaces_to_reorder: false,
        needs_focus_update: true,
        needs_cursor_jump: false,
        needs_focused_effect_update: false,
        needs_all_effects_update: false,
    }
}

#[test]
fn focus_comes_after_drawing() {
    let stages = platform_sync(true, &pending(), false).expect("a focused container");
    let redraw = stages.iter().position(|s| *s == SyncStage::Redraw).expect("drawing");
    let focus = stages.iter().position(|s| *s == SyncStage::SyncFocus).expect("focus");
    assert!(redraw < focus);
    assert!(!stages.contains(&SyncStage::JumpCursor));
    assert!(platform_sync(false, &pending(), false).is_err());
    let mut dirty = true;
    finish_sync(&mut dirty);
    assert!(!dirty);
    assert_eq!(sync_focus(None, false), FocusAction::FocusDesktop);
    let window = FocusedWindow { id: 5, is_switch_incoming: false, has_resize_session: false };
    assert_eq!(sync_focus(Some(window), false), FocusAction::FocusWindow(5));
    assert_eq!(
        jump_cursor(CursorJumpTrigger::WindowFocus, None, None),
        Ok(Some(JumpTarget::FocusedContainer))
    );
    assert!(jump_cursor(CursorJumpTrigger::MonitorFocus, None, None).is_err());
    assert_eq!(
        jump_cursor(CursorJumpTrigger::MonitorFocus, Some(1), Some(2)),
        Ok(Some(JumpTarget::Monitor(1)))
    );
    assert_eq!(jump_cursor(CursorJumpTrigger::MonitorFocus, Some(1), Some(1)), Ok(None));
    assert_eq!(jump_position(&Rect::from_xy(0, 0, 10, 20)), Point { x: 5, y: 10 });
    assert_eq!(unfocused_effect_windows(true, &vec![1, 2, 3], None, 2), vec![1, 3]);
}

#[test]
fn effects_follow_the_focus() {
    let windows = vec![1, 2, 3];
    let mut last = Some(1);
    let steps = update_effects(false, &windows, &mut last, 2, true, None);
    assert_eq!(steps, vec![EffectUpdate::ApplyFocused(2), EffectUpdate::ApplyUnfocused(1)]);
    assert_eq!(last, Some(2));
    // A running animation has the last word.
    let steps = update_effects(true, &windows, &mut last, 3, true, Some(40));
    assert_eq!(
        steps,
        vec![
            EffectUpdate::ApplyFocused(3),
            EffectUpdate::ApplyUnfocused(1),
            EffectUpdate::ApplyUnfocused(2),
            EffectUpdate::SetAlpha { window: 3, alpha: 40 },
        ]
    );
    let steps = update_effects(false, &windows, &mut last, 3, true, None);
    assert_eq!((steps, last), (vec![EffectUpdate::ApplyFocused(3)], Some(3)));
    // An empty workspace has no effects, and nothing is remembered.
    let steps = update_effects(false, &windows, &mut last, 9, false, Some(40));
    assert_eq!((steps, last), (vec![EffectUpdate::ApplyUnfocused(3)], None));
    let steps = update_effects(false, &windows, &mut last, 9, false, None);
    assert!(steps.is_empty());
}

#[test]
fn states_change_step_by_step() {
    assert_eq!(DisplayState::Shown.transition(false), DisplayState::Hiding);
    assert_eq!(DisplayState::Hidden.transition(true), DisplayState::Showing);
    assert_eq!(DisplayState::Shown.transition(true), DisplayState::Shown);
    let full = WindowState::Fullscreen(FullscreenState { maximized: false, shown_on_top: true });
    assert!(full.is_fullscreen() && full.is_topmost());
    assert_eq!(stable_order(&vec![3, 1, 3, 0]), vec![3, 1, 0, 2]);
}

fn redraw_step() -> RedrawStep {
    RedrawStep {
        window: 5,
        workspace: 3,
        monitor: 2,
        hide_corner: HideCorner::BottomLeft,
        z_order: WindowZOrder::Normal,
        set_z_order: false,
        redraw: true,
    }
}

fn snapshot() -> WindowSnapshot {
    WindowSnapshot {
        state: WindowState::Tiling,
        prev_state: None,
        display_state: DisplayState::Hidden,
        is_displayed: true,
        target_rect: Rect::from_xy(0, 0, 100, 50),
        previous_target: None,
        is_state_change: false,
        is_outgoing_switch: false,
        is_frozen_by_switch: false,
    }
}

const SETTINGS: RedrawSettings = RedrawSettings {
    suppress_animations: false,
    resize_animation: true,
    move_animation: false,
    open_animation: true,
    hide_method: HideMethod::Cloak,
    show_all_in_taskbar: false,
};

const NO_SESSION: WindowFacts = WindowFacts {
    session: None,
    is_cloaked: false,
    is_pending_cleanup: false,
    was_pre_committed: false,
};

#[test]
fn windows_are_begun_and_settled() {
    let mut cycle = RedrawCycle::new();
    let (step, w) = (redraw_step(), snapshot());
    assert_eq!(
        cycle.begin_window(&step, &w, &SETTINGS),
        vec![
            WindowAction::SetDisplayState(DisplayState::Showing),
            WindowAction::RecordTarget(w.target_rect),
            WindowAction::StartOpenAnimation,
        ]
    );
    let plan = plan_window(&w, &SETTINGS);
    assert_eq!(position_source(&w, &SETTINGS, &plan, true), PositionSource::Animation);
    assert_eq!(position_source(&w, &SETTINGS, &plan, false), PositionSource::Target);
    let place = Animated::At { rect: w.target_rect, opacity: Some(9) };
    let actions =
        cycle.settle_window(&step, &w, &SETTINGS, PositionSource::Animation, place, &NO_SESSION);
    assert_eq!(
        actions,
        vec![
            WindowAction::Reposition { rect: w.target_rect, has_surrogate: false },
            WindowAction::Reveal,
            WindowAction::HideSwitchSurrogate,
            WindowAction::SetTransparency(9),
            WindowAction::SetTaskbarVisibility(true),
        ]
    );
    // The pass waits once more at its very end.
    assert_eq!(cycle.finish().last(), Some(&CycleAction::Flush));
    assert!(owes_uncloak(CloakState::Untouched));
    assert!(!owes_uncloak(CloakState::Applied));
}

#[test]
fn covered_windows_are_cloaked_together() {
    let mut cycle = RedrawCycle::new();
    let session = SessionFacts {
        snapshot: SessionSnapshot {
            is_cloaked: false,
            has_blur: true,
            has_border: true,
            has_anchor: true,
            has_rect: true,
        },
        needs: SessionNeeds { needs_preposition: true, is_move_only: true },
    };
    let facts = WindowFacts { session: Some(session), ..NO_SESSION };
    let w = WindowSnapshot { display_state: DisplayState::Shown, ..snapshot() };
    for window in [5, 6] {
        let step = RedrawStep { window, ..redraw_step() };
        let actions = cycle.settle_window(
            &step,
            &w,
            &SETTINGS,
            PositionSource::Animation,
            Animated::Frozen,
            &facts,
        );
        assert_eq!(
            actions,
            vec![
                WindowAction::UpsertBlurOverlay,
                WindowAction::UpsertBorderOverlay,
                WindowAction::ShowSurrogate,
            ]
        );
    }
    let done = cycle.finish();
    let waits = done.iter().filter(|a| **a == CycleAction::Cloak(CloakStep::Flush)).count();
    assert_eq!(waits, 1);
    assert_eq!(done[2], CycleAction::Cloak(CloakStep::Flush));
    assert_eq!(done[3], CycleAction::Cloak(CloakStep::Cloak(5)));
    assert!(done.contains(&CycleAction::Cloak(CloakStep::Cloak(6))));
    assert!(!done.contains(&CycleAction::Flush));
    // Windows that are only moved among the others.
    let step = RedrawStep { set_z_order: true, redraw: false, ..redraw_step() };
    assert_eq!(
        cycle.begin_window(&step, &w, &SETTINGS),
        vec![WindowAction::SetZOrder(WindowZOrder::Normal)]
    );
    assert_eq!(cycle.z_order_touched, vec![5]);
}

#[test]
fn fullscreen_windows_are_not_animated() {
    let full = WindowState::Fullscreen(FullscreenState { maximized: false, shown_on_top: true });
    let w = WindowSnapshot {
        state: full,
        previous_target: Some(Rect::from_xy(0, 0, 10, 10)),
        ..snapshot()
    };
    let plan = plan_window(&w, &SETTINGS);
    assert!(plan.is_resize && plan.anim_enabled && !plan.starts_open_animation);
    assert_eq!(position_source(&w, &SETTINGS, &plan, true), PositionSource::Target);
    let marks = plan_shell_marks(&w, &SETTINGS, &plan);
    assert_eq!(marks.mark_fullscreen, Some(true));
    let check = |previous, target| SizeCheck { previous, target };
    let rect = Some(Rect::from_xy(0, 0, 10, 10));
    let moved = Some(Rect::from_xy(5, 0, 10, 10));
    let grown = Some(Rect::from_xy(0, 0, 11, 10));
    assert!(!cycle_has_resize(&vec![check(rect, moved), check(None, grown)]));
    assert!(cycle_has_resize(&vec![check(rect, moved), check(rect, grown)]));
    assert_eq!(session_overlay(true, true, true, true), SessionOverlay::Leave);
    assert_eq!(session_overlay(false, true, true, false), SessionOverlay::Hide);
    assert_eq!(session_overlay(false, true, true, true), SessionOverlay::Upsert);
}

#[test]
fn stand_ins_are_made_for_a_place() {
    let a = Some(Rect::from_xy(1, 0, 10, 10));
    let b = Some(Rect::from_xy(2, 0, 10, 10));
    let c = Some(Rect::from_xy(3, 0, 10, 10));
    assert_eq!(surrogate_place(true, a, b, c), a);
    assert_eq!(surrogate_place(true, None, b, c), None);
    assert_eq!(surrogate_place(false, a, b, c), b);
    assert_eq!(surrogate_place(false, a, None, c), c);
    assert_eq!(surrogate_place(false, a, None, None), Some(Rect::from_xy(0, 0, 0, 0)));
    assert!(switch_pre_pass(true, false, true).starts_iris);
    assert!(!switch_pre_pass(true, true, true).plans_switch);
    assert!(!switch_pre_pass(true, false, false).starts_iris);
}
