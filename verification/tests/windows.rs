use hotaru::figure::Figure;
use hotaru::models::{Settings, ThemeMode};
use hotaru::state::{AppState, PanelState};
use hotaru::window_geometry::{Geometry, GeometryStore, WindowMode, WorkArea};
use hotaru::windows::{after_blur, anchored_y, area_around, chart_logical_size, check_loaded, check_shown, clamp_chart_h, icon_anchor, minds_blur, monitor_containing, native_theme, navigate, on_close, open_chart, open_panel, position_chart, resize_chart, shown_height, start_view, sync_panel_url, ChartMove, CloseMove, MonitorRect, OpeningCheck, PanelMove, Screen, StartView, WindowRect, CHART_MAX_H_BITS, CHART_MIN_H_BITS, CHART_W_BITS, PANEL_CHROME_SCRIPT};

fn fig(x: f64) -> Figure {
    Figure { bits: x.to_bits() }
}

fn val(f: Figure) -> f64 {
    f64::from_bits(f.bits)
}

/// 1080p monitor at the virtual-desktop origin: `(top, height)`.
const SCREEN: Option<(f64, f64)> = Some((0.0, 1080.0));

fn top(below: bool, cur_top: f64, cur_h: f64, target_h: f64, monitor: Option<(f64, f64)>) -> f64 {
    val(anchored_y(below, fig(cur_top), fig(cur_h), fig(target_h), monitor.map(|(y, h)| (fig(y), fig(h)))))
}

fn height(logical_h: f64, monitor: Option<f64>) -> f64 {
    val(clamp_chart_h(fig(logical_h), monitor.map(fig)))
}

const CHART_W: f64 = 320.0;
const CHART_MIN_H: f64 = 300.0;
const CHART_MAX_H: f64 = 900.0;

#[test]
fn named_sizes_are_what_they_say() {
    assert_eq!(f64::from_bits(CHART_W_BITS), CHART_W);
    assert_eq!(f64::from_bits(CHART_MIN_H_BITS), CHART_MIN_H);
    assert_eq!(f64::from_bits(CHART_MAX_H_BITS), CHART_MAX_H);
}

#[test]
fn grows_downwards_when_anchored_below_the_icon() {
    assert_eq!(top(true, 30.0, 300.0, 600.0, SCREEN), 30.0);
    assert_eq!(top(true, 30.0, 600.0, 300.0, SCREEN), 30.0);
}

#[test]
fn grows_upwards_when_anchored_above_the_icon() {
    assert_eq!(top(false, 726.0, 300.0, 600.0, SCREEN), 426.0);
    assert_eq!(top(false, 426.0, 600.0, 300.0, SCREEN), 726.0);
}

#[test]
fn keeps_the_popover_inside_its_monitor() {
    assert_eq!(top(false, 1000.0, 26.0, 900.0, SCREEN), 126.0);
    assert_eq!(top(false, 300.0, 26.0, 900.0, SCREEN), 0.0);
    assert_eq!(top(true, 900.0, 100.0, 600.0, SCREEN), 480.0);
    assert_eq!(
        top(false, 100.0, 100.0, 900.0, Some((0.0, 800.0))),
        0.0
    );
}

#[test]
fn secondary_monitor_bounds_use_its_own_origin() {
    let above = Some((-1200.0, 1200.0));
    assert_eq!(top(false, -300.0, 100.0, 900.0, above), -1100.0);
    assert_eq!(top(false, -1150.0, 50.0, 900.0, above), -1200.0);
}

#[test]
fn height_clamp_respects_the_monitor_in_logical_pixels() {
    assert_eq!(height(500.0, Some(1080.0)), 500.0);
    assert_eq!(height(200.0, Some(1080.0)), CHART_MIN_H);
    assert_eq!(height(2000.0, Some(1080.0)), CHART_MAX_H);
    assert_eq!(height(700.0, Some(720.0)), 640.0);
    assert_eq!(height(700.0, Some(300.0)), CHART_MIN_H);
    assert_eq!(height(2000.0, None), CHART_MAX_H);
}

#[test]
fn initial_size_tracks_the_node_count() {
    let chart_logical_size = |n: usize| {
        let (w, h) = chart_logical_size(n);
        (val(w), val(h))
    };
    assert_eq!(chart_logical_size(0), (CHART_W, CHART_MIN_H));
    assert_eq!(chart_logical_size(4), (CHART_W, 398.0));
    assert_eq!(chart_logical_size(100), (CHART_W, CHART_MAX_H));
}

#[test]
fn panel_chrome_contains_navigation_and_window_actions() {
    for action in [
        "history.back()",
        "history.forward()",
        "location.reload()",
        "invokeWindow('minimize')",
        "invokeWindow('toggle_maximize')",
        "invokeWindow('close')",
    ] {
        assert!(PANEL_CHROME_SCRIPT.contains(action), "missing {action}");
    }
}

#[test]
fn panel_chrome_uses_system_theme_and_offsets_page_content() {
    assert!(PANEL_CHROME_SCRIPT.contains("prefers-color-scheme: dark"));
    assert!(PANEL_CHROME_SCRIPT.contains("padding-top: calc("));
    assert!(PANEL_CHROME_SCRIPT.contains("data-tauri-drag-region"));
}

fn monitor(x: i32, y: i32, width: u32, height: u32, scale: f64) -> MonitorRect {
    MonitorRect { x, y, width, height, scale: fig(scale) }
}

#[test]
fn popovers_hang_below_menu_bars_and_stand_on_taskbars() {
    let m = monitor(0, 0, 1920, 1080, 1.0);
    let (center, bottom) = icon_anchor(fig(1000.0), fig(0.0), fig(24.0), fig(24.0));
    let p = position_chart(&m, center, fig(0.0), bottom, fig(400.0));
    assert_eq!((p.x, p.y, p.below), (852, 30, true));
    let (center, bottom) = icon_anchor(fig(1900.0), fig(1040.0), fig(20.0), fig(40.0));
    let p = position_chart(&m, center, fig(1040.0), bottom, fig(400.0));
    // Pushed in from the right edge.
    assert_eq!((p.x, p.y, p.below), (1600, 634, false));
    // Twice as many pixels, on a monitor to the left.
    let m = monitor(-2560, 0, 2560, 1440, 2.0);
    let p = position_chart(&m, fig(-2550.0), fig(0.0), fig(44.0), fig(400.0));
    assert_eq!((p.x, p.y, p.below), (-2560, 56, true));
}

#[test]
fn monitors_are_found_by_a_point() {
    let list = vec![monitor(0, 0, 100, 100, 1.0), monitor(100, 0, 100, 100, 1.0)];
    let at = |x: f64, y: f64| monitor_containing(&list, Some(monitor(9, 9, 1, 1, 1.0)), fig(x), fig(y)).unwrap().x;
    assert_eq!(at(50.0, 50.0), 0);
    // A shared edge belongs to the first.
    assert_eq!(at(100.0, 0.0), 0);
    assert_eq!(at(150.0, 100.0), 100);
    // None there: the primary one.
    assert_eq!(at(500.0, 0.0), 9);
    assert!(monitor_containing(&list, None, fig(-1.0), fig(0.0)).is_none());
}

#[test]
fn resizing_grows_away_from_the_icon() {
    let list = vec![monitor(0, 0, 1920, 1080, 1.0)];
    let window = WindowRect { x: 100, y: 634, width: 320, height: 400, scale: fig(1.0) };
    let up = resize_chart(&window, false, fig(500.0), None, &list, None);
    assert_eq!((val(up.applied), up.y, up.height, up.move_first), (500.0, 534, 500, true));
    let down = resize_chart(&window, true, fig(2000.0), None, &list, None);
    // 900 high, and pushed up to stay on the monitor.
    assert_eq!((val(down.applied), down.y, down.height), (900.0, 180, 900));
    let smaller = resize_chart(&window, false, fig(10.0), None, &list, None);
    assert_eq!((val(smaller.applied), smaller.y, smaller.height, smaller.move_first), (300.0, 734, 300, false));
    // Without a monitor only the height range counts.
    let lost = resize_chart(&window, true, fig(333.3), None, &vec![], None);
    assert_eq!((lost.y, lost.height), (634, 333));
}

#[test]
fn resizing_stays_in_the_work_area() {
    let list = vec![monitor(0, 0, 1920, 1080, 1.0)];
    let area = |y: i32, height: u32| Some(WorkArea { x: 0, y, width: 1920, height });
    // Above a taskbar: from the top of the area to the popover's bottom edge.
    let window = WindowRect { x: 100, y: 634, width: 320, height: 400, scale: fig(1.0) };
    let up = resize_chart(&window, false, fig(2000.0), area(25, 1015), &list, None);
    assert_eq!((val(up.applied), up.y, up.height), (1009.0, 25, 1009));
    // Below a menu bar: from the popover's top edge to the Dock.
    let hanging = WindowRect { x: 100, y: 30, width: 320, height: 400, scale: fig(1.0) };
    let down = resize_chart(&hanging, true, fig(850.0), area(25, 705), &list, None);
    assert_eq!((val(down.applied), down.y, down.height), (700.0, 30, 700));
    // What there is room for is given, also beyond the range without an area.
    let fits = resize_chart(&hanging, true, fig(950.5), area(25, 1015), &list, None);
    assert_eq!((val(fits.applied), fits.y, fits.height), (950.5, 30, 951));
    // The least height, where less is left or asked for.
    let tight = resize_chart(&hanging, true, fig(850.0), area(25, 105), &list, None);
    assert_eq!((val(tight.applied), tight.y), (300.0, 30));
    let gone = WindowRect { x: 100, y: 2000, width: 320, height: 400, scale: fig(1.0) };
    assert_eq!(val(resize_chart(&gone, true, fig(850.0), area(25, 705), &list, None).applied), 300.0);
    // A popover that already overflowed counts from the end of the area.
    let over = WindowRect { x: 100, y: 0, width: 480, height: 1350, scale: fig(1.5) };
    assert_eq!(val(resize_chart(&over, false, fig(900.0), area(0, 1050), &list, None).applied), 700.0);
    // In logical pixels.
    let dense = WindowRect { x: 100, y: 60, width: 640, height: 800, scale: fig(2.0) };
    assert_eq!(val(resize_chart(&dense, true, fig(850.0), area(50, 1410), &list, None).applied), 700.0);
}

#[test]
fn work_areas_go_with_their_monitors() {
    let screen = |x: i32, inset: i32| Screen {
        monitor: monitor(x, 0, 1000, 1000, 1.0),
        area: WorkArea { x, y: inset, width: 1000, height: 900 },
    };
    let screens = vec![screen(0, 10), screen(1001, 20)];
    let window = |x: i32, y: i32| WindowRect { x, y, width: 320, height: 400, scale: fig(1.0) };
    assert_eq!(area_around(&window(100, 30), true, &screens, None).unwrap().y, 10);
    assert_eq!(area_around(&window(1100, 30), true, &screens, None).unwrap().y, 20);
    // Below, the top edge has to be on the monitor; above, the bottom edge.
    assert!(area_around(&window(100, -30), true, &screens, None).is_none());
    assert_eq!(area_around(&window(100, -30), false, &screens, None).unwrap().y, 10);
    assert_eq!(area_around(&window(9000, 0), true, &screens, Some(screen(5, 30))).unwrap().y, 30);
}

#[test]
fn popovers_without_focus_hide() {
    let mut state = AppState::new(Settings::default(), 0);
    for (visible, focused) in [(Some(true), Some(true)), (Some(false), Some(false)), (None, Some(false)), (Some(true), None)] {
        assert!(!after_blur(&mut state, visible, focused, 9));
    }
    assert_eq!(state.chart_hidden_at, None);
    assert!(after_blur(&mut state, Some(true), Some(false), 9));
    assert_eq!(state.chart_hidden_at, Some(9));
}

#[test]
fn clicks_toggle_the_chart() {
    assert_eq!(open_chart(Some(699), Some(false), false), ChartMove::Ignore);
    assert_eq!(open_chart(Some(700), Some(false), false), ChartMove::Show { anchor: true });
    assert_eq!(open_chart(None, Some(false), true), ChartMove::Show { anchor: false });
    assert_eq!(open_chart(None, Some(true), true), ChartMove::Hide);
    assert_eq!(open_chart(None, None, false), ChartMove::Create);
    assert_eq!(val(shown_height(Some((800, fig(2.0))), 3)), 400.0);
    assert_eq!(val(shown_height(None, 4)), 398.0);
    assert_eq!(native_theme(ThemeMode::System), None);
    assert_eq!(native_theme(ThemeMode::Light), Some(false));
    assert_eq!(native_theme(ThemeMode::Dark), Some(true));
}

#[test]
fn panels_follow_the_backend() {
    let mut state = AppState::new(Settings::default(), 0);
    assert!(matches!(open_panel(&mut state, true), PanelMove::OpenSettings));
    state.settings.backend_url = "a.com".into();
    match open_panel(&mut state, false) {
        PanelMove::Create { base } => assert_eq!(base, "https://a.com"),
        _ => panic!("there is no window yet"),
    }
    match open_panel(&mut state, true) {
        PanelMove::Focus { navigate } => {
            assert_eq!(navigate.as_deref(), Some("window.location.replace(\"https://a.com\")"))
        }
        _ => panic!("there is a window"),
    }
    assert_eq!(state.loaded_panel_url.as_deref(), Some("https://a.com"));
    assert!(matches!(open_panel(&mut state, true), PanelMove::Focus { navigate: None }));
    assert_eq!(sync_panel_url(&mut state, "https://a.com/", true), None);
    assert_eq!(sync_panel_url(&mut state, "b.com", false), None);
    assert!(sync_panel_url(&mut state, "b.com", true).is_some());
    assert_eq!(sync_panel_url(&mut state, "", true), None);
    assert_eq!(navigate("a\"b\n"), "window.location.replace(\"a\\\"b\\n\")");
    assert_eq!(
        navigate("\\\u{8}\t\u{c}\r\u{0}\u{1f}\u{7f}/节"),
        "window.location.replace(\"\\\\\\b\\t\\f\\r\\u0000\\u001f\u{7f}/节\")"
    );
}

#[test]
fn panels_that_hang_are_made_anew_three_times() {
    let mut panel = PanelState { load_ms: 0, load_started_ms: 1, reload_ms: 0, recreate_streak: 0, epoch: 1 };
    assert!(!panel.watchdog_tick(true, 30_001));
    assert!(!panel.watchdog_tick(false, 100_000));
    let mut now = 100_000;
    let mut made = 0;
    for _ in 0..20 {
        if panel.watchdog_tick(true, now) {
            made += 1;
        }
        now += 30_000;
    }
    assert_eq!(made, 3);
    panel.mark_loaded(now);
    assert_eq!((panel.load_ms, panel.recreate_streak), (now, 0));
    assert!(!panel.watchdog_tick(true, now + 100_000));
    assert_eq!(panel.recreate_streak, 0);
    panel.turn_over();
    assert_eq!(panel.epoch, 2);
    let mut full = PanelState { epoch: u64::MAX, ..panel };
    full.turn_over();
    assert_eq!(full.epoch, 0);
}

#[test]
fn panels_that_load_in_between_are_made_anew_again() {
    let mut panel = PanelState { load_ms: 0, load_started_ms: 0, reload_ms: 0, recreate_streak: 0, epoch: 1 };
    let mut now = 100_000;
    for _ in 0..10 {
        panel.load_started_ms = now;
        assert!(panel.watchdog_tick(true, now + 30_001));
        assert_eq!(panel.reload_ms, now + 30_001);
        panel.mark_loaded(now + 31_000);
        now += 100_000;
    }
}

#[test]
fn openings_are_looked_after() {
    let panel = PanelState { load_ms: 10, load_started_ms: 0, reload_ms: 0, recreate_streak: 0, epoch: 3 };
    assert_eq!(check_shown(3, &panel, false), OpeningCheck::Show);
    assert_eq!(check_shown(3, &panel, true), OpeningCheck::Leave);
    assert_eq!(check_shown(2, &panel, false), OpeningCheck::Leave);
    assert_eq!(check_loaded(3, 10, &panel, true), OpeningCheck::Reload);
    assert_eq!(check_loaded(3, 9, &panel, true), OpeningCheck::Leave);
    assert_eq!(check_loaded(3, 10, &panel, false), OpeningCheck::Leave);
    assert_eq!(check_loaded(2, 10, &panel, true), OpeningCheck::Leave);
}

#[test]
fn windows_at_the_start_and_at_the_end() {
    assert_eq!(start_view("  ", true), StartView::Settings);
    assert_eq!(start_view("a", true), StartView::HiddenPanel);
    assert_eq!(start_view("a", false), StartView::Panel);
    assert_eq!(on_close("main"), CloseMove::HidePanel);
    assert_eq!(on_close("chart"), CloseMove::HideChart);
    assert_eq!(on_close("settings"), CloseMove::Close);
    assert!(minds_blur("chart", false));
    assert!(!minds_blur("chart", true));
    assert!(!minds_blur("main", false));
}

const SHOWN: WindowMode = WindowMode { visible: true, minimized: false, maximized: false };

#[test]
fn places_are_kept_and_put_back() {
    let mut store = GeometryStore::default();
    let g = Geometry { x: -1200, y: 40, width: 800, height: 600 };
    assert!(store.remember("main", SHOWN, Some(g)));
    let left = WorkArea { x: -1920, y: 0, width: 1920, height: 1080 };
    let main = WorkArea { x: 0, y: 0, width: 1920, height: 1080 };
    let areas = vec![main, left];
    assert!(store.can_restore("main", None, &areas));
    assert_eq!(store.restore("main", None, &areas), Some(g));
    // That monitor is gone: the first one, pushed in and cut to its size.
    assert_eq!(
        store.restore("main", None, &vec![WorkArea { x: 0, y: 0, width: 640, height: 480 }]),
        Some(Geometry { x: 0, y: 0, width: 640, height: 480 })
    );
    assert_eq!(store.restore("main", None, &vec![]), None);
    assert_eq!(store.restore("settings", None, &areas), None);
}

#[test]
fn popovers_take_their_height_from_their_content() {
    let mut store = GeometryStore::default();
    let g = Geometry { x: 10, y: 20, width: 320, height: 500 };
    assert!(store.remember("chart", SHOWN, Some(g)));
    let areas = vec![WorkArea { x: 0, y: 0, width: 1920, height: 1080 }];
    assert_eq!(store.restore("chart", Some(700), &areas), Some(Geometry { height: 700, ..g }));
    assert_eq!(store.restore("chart", None, &areas), Some(g));
}

#[test]
fn places_that_are_not_kept() {
    let mut store = GeometryStore::default();
    let g = Some(Geometry { x: 0, y: 0, width: 10, height: 10 });
    assert!(!store.remember("other", SHOWN, g));
    assert!(!store.remember("main", WindowMode { visible: false, ..SHOWN }, g));
    assert!(!store.remember("main", WindowMode { minimized: true, ..SHOWN }, g));
    assert!(!store.remember("main", WindowMode { maximized: true, ..SHOWN }, g));
    assert!(!store.remember("main", SHOWN, None));
    assert!(!store.remember("main", SHOWN, Some(Geometry { x: 0, y: 0, width: 0, height: 10 })));
    assert_eq!(store.windows.len(), 0);
    // A stored place without a size is not used.
    store.windows.insert("main".to_string(), Geometry { x: 0, y: 0, width: 0, height: 10 });
    assert_eq!(store.restore("main", None, &vec![WorkArea { x: 0, y: 0, width: 9, height: 9 }]), None);
    // An area so wide that what is left of it cannot be counted.
    store.windows.insert("main".to_string(), Geometry { x: 0, y: 0, width: 1, height: 10 });
    assert!(!store.can_restore("main", None, &vec![WorkArea { x: 0, y: 0, width: u32::MAX, height: 9 }]));
}
