use hotaru::commands::node_display_name;
use hotaru::decimal::{decimal, signed_decimal};
use hotaru::figure::Figure;
use hotaru::models::{icon_state, pct, MonitorSnapshot, Settings, Severity};
use hotaru::providers::komari::{offline_snapshot, report_to_snapshot, traffic_used, ClientInfo, Report};
use hotaru::providers::monitor::{ping_url, uuid_of};
use hotaru::window_geometry::{Geometry, GeometryStore, WindowMode, WorkArea};
use hotaru::windows::{clamp_chart_h, position_chart, MonitorRect};

fn fig(x: f64) -> Figure {
    Figure { bits: x.to_bits() }
}

#[test]
fn percentages_are_from_0_to_100() {
    for (used, total) in [(0, 1), (1, 3), (2, 3), (u64::MAX - 1, u64::MAX), (u64::MAX, u64::MAX)] {
        let share = pct(used, total).unwrap();
        assert!(fig(0.0).le(share) && share.le(fig(100.0)), "{used} of {total}");
    }
    assert_eq!(pct(5, 0), None);
    assert_eq!(pct(1, 4), Some(fig(25.0)));
}

#[test]
fn errors_come_after_warnings() {
    let info = ClientInfo { uuid: "u".into(), name: "n".into(), ..Default::default() };
    for warn in [1.0, 50.0, 84.9, 85.0, 85.1, 100.0] {
        let settings = Settings { cpu_warn_pct: fig(warn), ..Settings::default() };
        for cpu in [0.0, 0.9, 49.9, 50.0, 64.9, 65.0, 84.9, 85.0, 99.9, 100.0, 250.0] {
            let mut node = offline_snapshot(&info);
            node.online = true;
            node.cpu_usage = fig(cpu);
            let snap = MonitorSnapshot { backend_ok: true, error: None, nodes: vec![node], last_update_ms: 0 };
            let severity = icon_state(&settings, &snap).severity;
            assert_eq!(severity == Severity::Normal, cpu < warn, "{cpu} at {warn}");
            let err = f64::min(warn + 15.0, 100.0);
            assert_eq!(severity == Severity::Error, cpu >= err, "{cpu} at {warn}");
        }
    }
}

#[test]
fn no_more_is_billed_than_was_sent_and_received() {
    for mode in ["sum", "MAX", "min", "up", "Down", "?", ""] {
        let used = traffic_used(mode, 30, 70);
        assert!((30..=100).contains(&used), "{mode}");
    }
}

#[test]
fn the_picker_and_the_popover_agree() {
    for (name, uuid) in [("", "0123456789"), ("x", "0123456789"), ("", "abc"), (" y ", "abc")] {
        let info = ClientInfo { uuid: uuid.into(), name: name.into(), ..Default::default() };
        assert_eq!(node_display_name(&info), report_to_snapshot(&info, true, &Report::default()).name);
    }
}

#[test]
fn numbers_are_told_apart_by_their_digits() {
    let list = [i64::MIN, -10, -1, 0, 1, 9, 10, 11, 99, 100, i64::MAX];
    for a in list {
        for b in list {
            assert_eq!(signed_decimal(a) == signed_decimal(b), a == b);
            assert_eq!(uuid_of(a) == uuid_of(b), a == b);
            if a >= 0 && b >= 0 {
                assert_eq!(decimal(a as u64) == decimal(b as u64), a == b);
            }
        }
        let url = ping_url("b", &uuid_of(a), 1).unwrap();
        assert_eq!(url, format!("b/api/nodes/{a}/metrics?hours=1&points=60&series=ping"));
    }
}

#[test]
fn popovers_stay_on_their_monitor() {
    for (x, y) in [(0, 0), (-2560, -1440), (1920, 300)] {
        let m = MonitorRect { x, y, width: 1920, height: 1080, scale: fig(1.5) };
        for (cx, top) in [(-9000.0, -9000.0), (0.0, 0.0), (900.5, 1060.0), (9000.0, 9000.0)] {
            let p = position_chart(&m, fig(cx), fig(top), fig(top + 24.0), fig(400.0));
            assert!(p.x >= x && p.y >= y);
            assert!(p.x + 480 <= x + 1920 && p.y + 600 <= y + 1080);
            assert_eq!(p.below, top + 24.0 < y as f64 + 540.0);
        }
    }
    for h in [-1.0, 0.0, 300.0, 555.5, 900.0, 1e9] {
        let got = clamp_chart_h(fig(h), Some(fig(700.0)));
        assert!(fig(300.0).le(got) && got.le(fig(620.0)));
    }
}

#[test]
fn windows_come_back_on_screen() {
    let shown = WindowMode { visible: true, minimized: false, maximized: false };
    let areas = vec![WorkArea { x: -100, y: 50, width: 1000, height: 700 }];
    for (x, y, width, height) in [(0, 60, 300, 300), (-5000, -5000, 10, 10), (5000, 5000, 5000, 10), (899, 749, 1, 1)] {
        let mut store = GeometryStore::default();
        assert!(store.remember("settings", shown, Some(Geometry { x, y, width, height })));
        let g = store.restore("settings", None, &areas).unwrap();
        assert!(g.x >= -100 && g.y >= 50);
        assert!(g.x + g.width as i32 <= 900 && g.y + g.height as i32 <= 750);
    }
    // An area so wide that the room in it counts as a negative one.
    let mut store = GeometryStore::default();
    let g = Geometry { x: 7, y: 0, width: 1, height: 1 };
    assert!(store.remember("main", shown, Some(g)));
    let wide = vec![WorkArea { x: i32::MIN, y: 0, width: u32::MAX, height: 10 }];
    assert!(store.can_restore("main", None, &wide));
    assert_eq!(store.restore("main", None, &wide), Some(Geometry { x: i32::MIN, ..g }));
    let beside = vec![WorkArea { x: i32::MIN + 9, y: 0, width: u32::MAX, height: 10 }];
    assert!(!store.can_restore("main", None, &beside));
}
