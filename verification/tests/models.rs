use hotaru::figure::Figure;
use hotaru::models::{aggregate, aggregate_within, fmt_bytes, fmt_rate, fmt_uptime, icon_state, normalize_base, origin_of, pct, report_to_snapshot, scoped_nodes, ws_url_of, Aggregate, Envelope, MonitorSnapshot, NodeSnapshot, Report, Settings, Severity, ThemeMode, TrayMode, WsPayload};
use hotaru::table::Table;
use hotaru::wire::{Conns, Mem, NetStat, Usage};
use serde_json::Value;

fn fig(x: f64) -> Figure {
    Figure { bits: x.to_bits() }
}

fn val(f: Figure) -> f64 {
    f64::from_bits(f.bits)
}

fn test_default() -> NodeSnapshot {
    NodeSnapshot {
        uuid: "u".into(),
        name: "n".into(),
        online: true,
        region: String::new(),
        os: String::new(),
        group: String::new(),
        tags: Vec::new(),
        latency: None,
        loss: None,
        cpu_usage: fig(0.0),
        ram_used: 0,
        ram_total: 0,
        swap_used: 0,
        swap_total: 0,
        disk_used: 0,
        disk_total: 0,
        net_up: fig(0.0),
        net_down: fig(0.0),
        total_up: 0,
        total_down: 0,
        traffic_limit: 0,
        traffic_limit_type: String::new(),
        traffic_used: 0,
        traffic_period: String::new(),
        expired_at: None,
        tcp: 0,
        udp: 0,
        uptime_secs: 0,
        has_metrics: true,
    }
}

fn natural(v: &Value, keys: &[&str]) -> Option<u64> {
    keys.iter().find_map(|k| v.get(k)).and_then(|x| x.as_u64())
}

fn number(v: &Value, key: &str) -> Option<Figure> {
    v.get(key).and_then(|x| x.as_f64()).map(fig)
}

fn mem(v: &Value, key: &str) -> Option<Mem> {
    v.get(key).map(|m| Mem { total: natural(m, &["total"]), used: natural(m, &["used"]) })
}

fn report(v: &Value) -> Report {
    Report {
        cpu: v.get("cpu").map(|c| Usage { usage: number(c, "usage") }),
        ram: mem(v, "ram"),
        swap: mem(v, "swap"),
        disk: mem(v, "disk"),
        network: v.get("network").map(|n| NetStat {
            up: number(n, "up"),
            down: number(n, "down"),
            total_up: natural(n, &["total_up", "totalUp"]),
            total_down: natural(n, &["total_down", "totalDown"]),
        }),
        connections: v.get("connections").map(|c| Conns { tcp: natural(c, &["tcp"]), udp: natural(c, &["udp"]) }),
        uptime: natural(v, &["uptime"]),
    }
}

fn envelope(text: &str) -> Envelope<WsPayload> {
    let v: Value = serde_json::from_str(text).unwrap();
    let data = v.get("data").map(|d| {
        let mut reports = Table::new();
        for (uuid, r) in d.get("data").and_then(|m| m.as_object()).unwrap() {
            reports.insert(uuid.clone(), report(r));
        }
        let online = d
            .get("online")
            .and_then(|o| o.as_array())
            .unwrap()
            .iter()
            .map(|o| o.as_str().unwrap().to_string())
            .collect();
        WsPayload { online, data: reports }
    });
    Envelope {
        status: v.get("status").and_then(|s| s.as_str()).unwrap().to_string(),
        data,
        message: None,
    }
}

fn sample_ws_json() -> String {
    r#"{
      "status": "success",
      "data": {
        "online": ["uuid-1"],
        "data": {
          "uuid-1": {
            "cpu": {"usage": 42.5},
            "ram": {"total": 8589934592, "used": 4294967296},
            "swap": {"total": 1073741824, "used": 0},
            "disk": {"total": 107374182400, "used": 53687091200},
            "network": {"up": 128.0, "down": 3567155.2, "totalUp": 1024, "totalDown": 2048},
            "connections": {"tcp": 120, "udp": 8},
            "uptime": 98765
          },
          "uuid-2": {
            "cpu": {"usage": 91.0},
            "ram": {"total": 4294967296, "used": 2147483648}
          }
        }
      }
    }"#
    .to_string()
}

#[test]
fn normalize_base_variants() {
    assert_eq!(normalize_base(" https://a.com/ ").unwrap(), "https://a.com");
    assert_eq!(normalize_base("a.com").unwrap(), "https://a.com");
    assert_eq!(normalize_base("http://a.com:8080//").unwrap(), "http://a.com:8080");
    assert!(normalize_base("").is_err());
    assert!(normalize_base("ftp://a.com").is_err());
}

#[test]
fn normalize_base_says_what_is_wrong() {
    assert_eq!(normalize_base("  / ").unwrap_err(), "后端地址为空");
    assert_eq!(normalize_base("ftp://a.com").unwrap_err(), "不支持的协议: ftp");
    assert_eq!(normalize_base("http://a b/").unwrap_err(), "无法解析后端地址: http://a b");
    // The normal form is its own.
    for raw in [" https://a.com/ ", "a.com", "http://a.com:8080//", "HTTP://X.org/y/"] {
        let base = normalize_base(raw).unwrap();
        assert_eq!(normalize_base(&base).unwrap(), base);
    }
    // White space in front of the slashes comes to light only the second time.
    assert_eq!(normalize_base("http://a.com/x /").unwrap(), "http://a.com/x ");
    assert_eq!(normalize_base("http://a.com/x ").unwrap(), "http://a.com/x");
}

#[test]
fn origin_variants() {
    assert_eq!(origin_of("https://a.com"), "https://a.com:443");
    assert_eq!(origin_of("https://a.com:8443/x"), "https://a.com:8443");
    assert_eq!(origin_of("http://a.com"), "http://a.com:80");
    assert_eq!(origin_of("http://a.com:9000"), "http://a.com:9000");
}

#[test]
fn origins_of_other_texts() {
    assert_eq!(origin_of("no address"), "no address");
    assert_eq!(origin_of("foo://bar/x"), "foo://bar");
    assert_eq!(origin_of("mailto:me"), "mailto://");
    assert_eq!(origin_of("https://A.com:443/x"), "https://a.com:443");
}

#[test]
fn ws_url_variants() {
    assert_eq!(ws_url_of("https://a.com").unwrap(), "wss://a.com/api/clients");
    assert_eq!(ws_url_of("http://a.com").unwrap(), "ws://a.com/api/clients");
}

#[test]
fn sockets_of_odd_addresses() {
    assert_eq!(ws_url_of("a.com/x/").unwrap(), "wss://a.com/x/api/clients");
    assert_eq!(ws_url_of("").unwrap_err(), "后端地址为空");
    // Only the letters as written are replaced.
    assert_eq!(ws_url_of("HTTP://a.com").unwrap(), "HTTP://a.com/api/clients");
}

#[test]
fn formats() {
    assert_eq!(fmt_rate(fig(512.0)), "512B/s");
    assert_eq!(fmt_rate(fig(2048.0)), "2.0KB/s");
    assert_eq!(fmt_rate(fig(3.4 * 1024.0 * 1024.0)), "3.40MB/s");
    assert_eq!(fmt_bytes(0), "0B");
    assert_eq!(fmt_bytes(5 * 1024 * 1024 * 1024), "5.00GB");
    assert_eq!(fmt_uptime(3600 * 27), "1天3小时");
    assert_eq!(fmt_uptime(300), "5分钟");
}

#[test]
fn formats_at_the_edges() {
    assert_eq!(fmt_rate(fig(-3.0)), "0B/s");
    assert_eq!(fmt_rate(fig(-0.0)), "-0B/s");
    assert_eq!(fmt_rate(fig(1023.5)), "1024B/s");
    assert_eq!(fmt_rate(fig(1024.0)), "1.0KB/s");
    assert_eq!(fmt_rate(fig(1024.0 * 1024.0 * 1024.0)), "1.00GB/s");
    assert_eq!(fmt_rate(fig(f64::NAN)), "NaNGB/s");
    assert_eq!(fmt_bytes(1023), "1023B");
    assert_eq!(fmt_bytes(1024), "1.0KB");
    assert_eq!(fmt_bytes(1024 * 1024), "1.00MB");
    assert_eq!(fmt_bytes(u64::MAX), "16777216.00TB");
    assert_eq!(fmt_uptime(59), "0分钟");
    assert_eq!(fmt_uptime(3600), "1小时0分");
    assert_eq!(fmt_uptime(86400), "1天0小时");
}

#[test]
fn models_parse_ws_payload() {
    let mut names = std::collections::HashMap::new();
    names.insert("uuid-1".to_string(), "node-1".to_string());
    let env = envelope(&sample_ws_json());
    let payload = env.data.unwrap();
    assert_eq!(payload.online, vec!["uuid-1".to_string()]);
    assert_eq!(payload.data.len(), 2);
    let rep = payload.data.get("uuid-1").unwrap();
    let snap = report_to_snapshot("uuid-1", names.get("uuid-1").unwrap(), true, rep);
    assert_eq!(snap.name, "node-1");
    assert!((val(snap.cpu_usage) - 42.5).abs() < 1e-9);
    assert_eq!(snap.ram_used, 4294967296);
    assert!((val(snap.net_down) - 3567155.2).abs() < 1e-9);
    assert_eq!(snap.tcp, 120);
    // unknown node gets a fallback name
    let rep2 = payload.data.get("uuid-2").unwrap();
    let snap2 = report_to_snapshot("uuid-2", "", false, rep2);
    assert_eq!(snap2.name, "节点 uuid-2");
    assert_eq!(snap2.uptime_secs, 0);
}

#[test]
fn aggregate_math() {
    let mut names = std::collections::HashMap::new();
    names.insert("uuid-1".to_string(), "node-1".to_string());
    let payload = envelope(&sample_ws_json()).data.unwrap();
    let nodes: Vec<NodeSnapshot> = (0..payload.data.len())
        .map(|i| {
            let (uuid, rep) = (payload.data.key(i), payload.data.value(i));
            let online = payload.online.iter().any(|o| o == uuid);
            report_to_snapshot(uuid, names.get(uuid).map(|s| s.as_str()).unwrap_or(""), online, rep)
        })
        .collect();
    let agg = aggregate(&nodes.iter().collect::<Vec<_>>());
    assert_eq!(agg.total, 2);
    assert_eq!(agg.online, 1);
    assert!((val(agg.cpu) - 42.5).abs() < 1e-9);
    assert!((val(agg.mem_pct) - 50.0).abs() < 1e-9);
    assert!((val(agg.net_down) - 3567155.2).abs() < 1e-9);
    assert_eq!(agg.ram_total, 8589934592);
}

#[test]
fn aggregates_of_nothing_and_of_too_much() {
    let none: Aggregate = aggregate(&[]);
    assert_eq!((none.online, none.total, none.ram_total), (0, 0, 0));
    assert_eq!(val(none.cpu), 0.0);
    assert_eq!(val(none.mem_pct), 0.0);
    let mut a = test_default();
    a.total_up = u64::MAX;
    let mut b = test_default();
    b.total_up = 1;
    assert!(aggregate_within(&[&a, &b]).is_none());
    b.online = false;
    let agg = aggregate_within(&[&a, &b]).unwrap();
    assert_eq!((agg.online, agg.total, agg.total_up), (1, 2, u64::MAX));
    assert_eq!(pct(1, 0), None);
    assert_eq!(pct(1, 3), Some(fig(1.0 / 3.0 * 100.0)));
}

#[test]
fn icon_severity_rules() {
    let mut s = Settings::default();
    s.cpu_warn_pct = fig(80.0);
    s.mem_warn_pct = fig(85.0);
    let snap = MonitorSnapshot {
        backend_ok: false,
        error: Some("x".into()),
        nodes: vec![],
        last_update_ms: 0,
    };
    assert_eq!(icon_state(&s, &snap).severity, Severity::Down);

    let snap = MonitorSnapshot {
        backend_ok: true,
        error: None,
        nodes: vec![NodeSnapshot {
            cpu_usage: fig(42.0),
            ram_used: 4294967296,
            ram_total: 8589934592,
            online: true,
            ..test_default()
        }],
        last_update_ms: 0,
    };
    let st = icon_state(&s, &snap);
    assert_eq!(st.severity, Severity::Normal);
    assert!((val(st.gauge.unwrap()) - 50.0).abs() < 1e-9);
    assert!(!st.badge);

    // offline sibling triggers badge in aggregate mode
    let mut offline = test_default();
    offline.online = false;
    let snap2 = MonitorSnapshot {
        backend_ok: true,
        error: None,
        nodes: vec![snap.nodes[0].clone(), offline],
        last_update_ms: 0,
    };
    assert!(icon_state(&s, &snap2).badge);

    // cpu above warn -> Warn
    let mut high = snap.nodes[0].clone();
    high.cpu_usage = fig(88.0);
    let snap3 = MonitorSnapshot { nodes: vec![high], ..snap };
    assert_eq!(icon_state(&s, &snap3).severity, Severity::Warn);

    // node mode without badge
    let mut s_node = s.clone();
    s_node.tray_mode = TrayMode::Node;
    s_node.pinned_uuid = "pinned".into();
    let mut pinned = test_default();
    pinned.uuid = "pinned".into();
    pinned.online = true;
    let other = NodeSnapshot {
        uuid: "other".into(),
        online: false,
        ..test_default()
    };
    let snap4 = MonitorSnapshot {
        backend_ok: true,
        error: None,
        nodes: vec![pinned, other],
        last_update_ms: 0,
    };
    assert!(!icon_state(&s_node, &snap4).badge);
    assert_eq!(icon_state(&s_node, &snap4).severity, Severity::Normal);
}

#[test]
fn icon_at_its_levels() {
    let s = Settings::default();
    let state = |cpu: f64| {
        let node = NodeSnapshot { cpu_usage: fig(cpu), ..test_default() };
        icon_state(&s, &MonitorSnapshot { backend_ok: true, error: None, nodes: vec![node], last_update_ms: 0 })
    };
    assert_eq!(state(79.9).severity, Severity::Normal);
    assert_eq!(state(80.0).severity, Severity::Warn);
    assert_eq!(state(94.9).severity, Severity::Warn);
    assert_eq!(state(95.0).severity, Severity::Error);
    assert_eq!(val(state(250.0).gauge.unwrap()), 100.0);
    // Nobody online is an error without a gauge; no node at all is down.
    let mut off = test_default();
    off.online = false;
    let st = icon_state(&s, &MonitorSnapshot { backend_ok: true, error: None, nodes: vec![off], last_update_ms: 0 });
    assert_eq!((st.severity, st.gauge, st.badge), (Severity::Error, None, false));
    let st = icon_state(&s, &MonitorSnapshot { backend_ok: true, error: None, nodes: vec![], last_update_ms: 0 });
    assert_eq!(st.severity, Severity::Down);
}

#[test]
fn scoped_nodes_fallback() {
    let mut s = Settings::default();
    s.tray_mode = TrayMode::Node;
    s.pinned_uuid = "missing".into();
    let nodes = vec![NodeSnapshot {
        uuid: "a".into(),
        ..test_default()
    }];
    // pinned node vanished -> falls back to all nodes
    assert_eq!(scoped_nodes(&s, &nodes).len(), 1);
}

#[test]
fn scope_follows_the_mode() {
    let nodes = vec![
        NodeSnapshot { uuid: "a".into(), ..test_default() },
        NodeSnapshot { uuid: "b".into(), ..test_default() },
    ];
    let mut s = Settings::default();
    s.pinned_uuid = "b".into();
    assert_eq!(scoped_nodes(&s, &nodes).len(), 2);
    s.tray_mode = TrayMode::Node;
    let scope = scoped_nodes(&s, &nodes);
    assert_eq!((scope.len(), scope[0].uuid.as_str()), (1, "b"));
}

#[test]
fn settings_are_made_fit() {
    let raw = Settings {
        backend_url: "  https://a.com// ".into(),
        api_key: " k ".into(),
        poll_interval_secs: 0,
        tray_mode: TrayMode::Node,
        pinned_uuid: "  ".into(),
        cpu_warn_pct: fig(0.0),
        mem_warn_pct: fig(250.0),
        ..Settings::default()
    };
    let s = raw.sanitized();
    assert_eq!(s.backend_url, "https://a.com");
    assert_eq!(s.api_key, "k");
    assert_eq!(s.poll_interval_secs, 1);
    assert_eq!(s.tray_mode, TrayMode::Aggregate);
    assert_eq!((val(s.cpu_warn_pct), val(s.mem_warn_pct)), (1.0, 100.0));
    let again = s.clone().sanitized();
    assert_eq!((again.backend_url, again.poll_interval_secs), (s.backend_url, s.poll_interval_secs));
    let slow = Settings { poll_interval_secs: 3600, ..Settings::default() }.sanitized();
    assert_eq!(slow.poll_interval_secs, 60);
    // The one address that is not made fit at once.
    let odd = Settings { backend_url: "x /".into(), ..Settings::default() }.sanitized();
    assert_eq!(odd.backend_url, "x ");
    assert_eq!(odd.sanitized().backend_url, "x");
}

#[test]
fn defaults_are_the_documented_ones() {
    let s = Settings::default();
    assert_eq!(s.poll_interval_secs, 3);
    assert_eq!((val(s.cpu_warn_pct), val(s.mem_warn_pct)), (80.0, 85.0));
    assert_eq!((s.tray_mode, s.theme), (TrayMode::Aggregate, ThemeMode::System));
    assert!(s.show_menu_bar_text && !s.accept_invalid_certs && !s.silent_start);
    let copy = s.copied();
    assert_eq!(copy.poll_interval_secs, 3);
}

#[test]
fn existing_preferences_keep_auto_hide_enabled() {
    let settings = hotaru::settings::loaded(None);
    assert!(!settings.chart_keep_open);
    let kept = hotaru::settings::loaded(Some(Settings { poll_interval_secs: 99, ..Settings::default() }));
    assert_eq!(kept.poll_interval_secs, 60);
}

#[test]
fn offline_snapshots_say_why() {
    let snap = MonitorSnapshot::offline("x");
    assert!(!snap.backend_ok && snap.nodes.is_empty());
    assert_eq!(snap.error.as_deref(), Some("x"));
    assert_eq!(MonitorSnapshot::offline_at("y", 5).last_update_ms, 5);
    assert_eq!(hotaru::clock::epoch_ms(None), 0);
    assert_eq!(hotaru::clock::epoch_ms(Some(5)), 5);
    assert_eq!(hotaru::clock::epoch_ms(Some(u128::from(u64::MAX) + 3)), 2);
    // Some time after this was written.
    assert!(hotaru::models::now_ms() > 1_700_000_000_000);
}
