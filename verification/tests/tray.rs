use hotaru::figure::Figure;
use hotaru::models::{icon_state, Aggregate, IconState, MonitorSnapshot, Settings, Severity, ThemeMode};
use hotaru::providers::komari::{offline_snapshot, ClientInfo};
use hotaru::readout::fmt_rate_menu_bar;
use hotaru::tray::{click_action, icon_foreground, icon_mark, menu_action, menu_bar_text, tooltip_text, tray_click, tray_view, ClickAction, IconMark, MenuAction, MouseEvent, TrayClick};

fn fig(x: f64) -> Figure {
    Figure { bits: x.to_bits() }
}

#[test]
fn menu_bar_rates_keep_a_decimal_only_from_mb_up() {
    const KB: f64 = 1024.0;
    const MB: f64 = 1024.0 * KB;
    const GB: f64 = 1024.0 * MB;
    let fmt_rate_menu_bar = |x: f64| fmt_rate_menu_bar(fig(x));
    assert_eq!(fmt_rate_menu_bar(0.0), "0 B/s");
    assert_eq!(fmt_rate_menu_bar(-1.0), "0 B/s");
    assert_eq!(fmt_rate_menu_bar(940.0), "940 B/s");
    // 16 KB/s and change still reads as 16, not 16.3
    assert_eq!(fmt_rate_menu_bar(16.3 * KB), "16 KB/s");
    assert_eq!(fmt_rate_menu_bar(KB), "1 KB/s");
    // from MB up a whole unit is too coarse to round to
    assert_eq!(fmt_rate_menu_bar(MB), "1.0 MB/s");
    assert_eq!(fmt_rate_menu_bar(2.75 * MB), "2.8 MB/s");
    assert_eq!(fmt_rate_menu_bar(4.0 * GB), "4.0 GB/s");
    // ...but three digits is the whole budget: past 100 the tenths digit
    // buys nothing and would push the text into the arrow column.
    assert_eq!(fmt_rate_menu_bar(99.94 * MB), "99.9 MB/s");
    assert_eq!(fmt_rate_menu_bar(125.4 * MB), "125 MB/s");
    // the widest the ladder can produce, which the tab stop has to clear
    assert_eq!(fmt_rate_menu_bar(1023.9 * MB), "1024 MB/s");
}

#[test]
fn menu_bar_text_stacks_the_two_rates_around_a_tab() {
    let agg = Aggregate {
        net_up: fig(16.0 * 1024.0),
        net_down: fig(5.0 * 1024.0),
        ..Aggregate::default()
    };
    // The tab is the column split; the newline is the second line. Both
    // only mean anything against the paragraph style set alongside them.
    assert_eq!(menu_bar_text(&agg), "↑\t16 KB/s\n↓\t5 KB/s");
}

#[test]
fn tooltips() {
    let agg = Aggregate {
        online: 1,
        total: 2,
        cpu: fig(42.5),
        mem_pct: fig(50.0),
        net_up: fig(512.0),
        net_down: fig(2048.0),
        ..Aggregate::default()
    };
    let mut snap = MonitorSnapshot { backend_ok: true, error: None, nodes: vec![], last_update_ms: 0 };
    assert_eq!(tooltip_text(&snap, &agg), "Hotaru · 在线 1/2\nCPU 42% · 内存 50%\n↑512B/s ↓2.0KB/s");
    snap.backend_ok = false;
    assert_eq!(tooltip_text(&snap, &agg), "Hotaru · 后端不可达\n后端不可达");
    snap.error = Some("x".repeat(91));
    assert_eq!(tooltip_text(&snap, &agg), format!("Hotaru · 后端不可达\n{}…", "x".repeat(89)));
}

#[test]
fn tray_shows_what_the_settings_ask_for() {
    let info = ClientInfo { uuid: "a".into(), name: "a".into(), ..Default::default() };
    let mut node = offline_snapshot(&info);
    node.online = true;
    node.total_up = u64::MAX;
    let mut settings = Settings::default();
    let mut snap = MonitorSnapshot { backend_ok: true, error: None, nodes: vec![node.clone()], last_update_ms: 0 };
    let view = tray_view(&settings, &snap).unwrap();
    assert_eq!(view.title, "↑\t0 B/s\n↓\t0 B/s");
    assert_eq!(view.icon.severity, Severity::Normal);
    settings.show_menu_bar_text = false;
    assert_eq!(tray_view(&settings, &snap).unwrap().title, "");
    snap.nodes.push(node);
    assert!(tray_view(&settings, &snap).is_none());
}

#[test]
fn icon_marks() {
    let state = |severity: Severity, gauge: Option<f64>, badge: bool| IconState { severity, gauge: gauge.map(fig), badge };
    assert_eq!(icon_mark(&state(Severity::Normal, Some(42.0), false)), IconMark::Plain);
    assert_eq!(icon_mark(&state(Severity::Warn, Some(88.0), false)), IconMark::SmallDot);
    assert_eq!(icon_mark(&state(Severity::Normal, Some(42.0), true)), IconMark::SmallDot);
    assert_eq!(icon_mark(&state(Severity::Error, Some(99.0), false)), IconMark::LargeDot);
    assert_eq!(icon_mark(&state(Severity::Error, None, false)), IconMark::Slash);
    assert_eq!(icon_mark(&state(Severity::Down, None, false)), IconMark::Slash);
    assert_eq!(icon_foreground(false, Some(true), ThemeMode::Dark), (0, 0, 0, 255));
    assert_eq!(icon_foreground(true, None, ThemeMode::Dark), (0xF5, 0xF5, 0xF7, 255));
    assert_eq!(icon_foreground(true, Some(false), ThemeMode::Dark), (0x1D, 0x1D, 0x1F, 255));
    assert_eq!(icon_foreground(true, None, ThemeMode::System), (0x1D, 0x1D, 0x1F, 255));
}

#[test]
fn menu_entries() {
    assert_eq!(menu_action("quit"), MenuAction::Quit);
    assert_eq!(menu_action("open-panel"), MenuAction::OpenPanel);
    assert_eq!(menu_action("reload-panel"), MenuAction::ReloadPanel);
    assert_eq!(menu_action("open-settings"), MenuAction::OpenSettings);
    assert_eq!(menu_action("autostart"), MenuAction::ToggleAutostart);
    assert_eq!(menu_action("x"), MenuAction::Nothing);
    assert_eq!(tray_click(TrayClick::LeftReleased), ClickAction::ToggleChart);
    assert_eq!(tray_click(TrayClick::LeftPressed), ClickAction::Ignore);
    assert_eq!(tray_click(TrayClick::LeftDouble), ClickAction::OpenPanel);
    assert_eq!(tray_click(TrayClick::Other), ClickAction::Ignore);
}

#[test]
fn one_release_toggles_and_presses_are_ignored() {
    assert_eq!(
        click_action(MouseEvent::LeftMouseDown, false, 1),
        ClickAction::Ignore
    );
    assert_eq!(
        click_action(MouseEvent::LeftMouseUp, false, 1),
        ClickAction::ToggleChart
    );
}

#[test]
fn right_click_and_control_click_open_only_the_menu() {
    assert_eq!(
        click_action(MouseEvent::RightMouseUp, false, 1),
        ClickAction::ContextMenu
    );
    assert_eq!(
        click_action(MouseEvent::LeftMouseUp, true, 2),
        ClickAction::ContextMenu
    );
    assert_eq!(
        click_action(MouseEvent::RightMouseDown, false, 1),
        ClickAction::Ignore
    );
}

#[test]
fn double_click_opens_panel_without_another_toggle() {
    assert_eq!(
        click_action(MouseEvent::LeftMouseUp, false, 2),
        ClickAction::OpenPanel
    );
    assert_eq!(
        click_action(MouseEvent::LeftMouseUp, false, 3),
        ClickAction::Ignore
    );
    assert_eq!(
        click_action(MouseEvent::Other, false, 1),
        ClickAction::Ignore
    );
}

#[test]
fn marks_follow_the_nodes() {
    let node = |uuid: &str, online: bool, cpu: f64, used: u64| {
        let info = ClientInfo { uuid: uuid.into(), name: uuid.into(), ..Default::default() };
        let mut n = offline_snapshot(&info);
        n.online = online;
        n.cpu_usage = fig(cpu);
        n.ram_used = used;
        n.ram_total = 100;
        n
    };
    let settings = Settings::default();
    let mark = |backend_ok: bool, nodes: Vec<hotaru::models::NodeSnapshot>| {
        let snap = MonitorSnapshot { backend_ok, error: None, nodes, last_update_ms: 0 };
        icon_mark(&icon_state(&settings, &snap))
    };
    assert_eq!(mark(false, vec![node("a", true, 1.0, 1)]), IconMark::Slash);
    assert_eq!(mark(true, vec![]), IconMark::Slash);
    assert_eq!(mark(true, vec![node("a", false, 1.0, 1)]), IconMark::Slash);
    assert_eq!(mark(true, vec![node("a", true, 79.9, 84)]), IconMark::Plain);
    assert_eq!(mark(true, vec![node("a", true, 80.0, 84)]), IconMark::SmallDot);
    assert_eq!(mark(true, vec![node("a", true, 1.0, 85)]), IconMark::SmallDot);
    assert_eq!(mark(true, vec![node("a", true, 95.0, 1)]), IconMark::LargeDot);
    assert_eq!(mark(true, vec![node("a", true, 1.0, 100)]), IconMark::LargeDot);
    assert_eq!(mark(true, vec![node("a", true, 1.0, 1), node("b", false, 99.0, 1)]), IconMark::SmallDot);
}
