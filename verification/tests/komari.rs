use hotaru::figure::Figure;
use hotaru::http::{Fetched, HttpStatus};
use hotaru::models::{summarize_ping, NodeSnapshot, Settings};
use hotaru::providers::komari::{accept_nodes, are_nameable, is_nameable, live_snapshot, offline_snapshot, parse_nodes, parse_ping_records, parse_ws_text, polled_snapshot, read_ping, recent_snapshot, report_to_snapshot, requires_authenticated_http, split_tags, traffic_used, ClientInfo, Envelope, NetStat, RecentReply, Report, Usage, WsPayload};
use hotaru::table::Table;
use hotaru::wire::{Conns, Mem};
use serde_json::Value;

fn fig(x: f64) -> Figure {
    Figure { bits: x.to_bits() }
}

fn val(f: Figure) -> f64 {
    f64::from_bits(f.bits)
}

fn natural(v: &Value, keys: &[&str]) -> Option<u64> {
    keys.iter().find_map(|k| v.get(k)).and_then(|x| x.as_u64())
}

fn number(v: &Value, key: &str) -> Option<Figure> {
    v.get(key).and_then(|x| x.as_f64()).map(fig)
}

fn mem(v: &Value, key: &str) -> Option<Mem> {
    v.get(key).map(|m| Mem { total: natural(m, &["total"]), used: natural(m, &["used"]) })
}

fn report(v: &Value) -> Report {
    Report {
        cpu: v.get("cpu").map(|c| Usage { usage: number(c, "usage") }),
        ram: mem(v, "ram"),
        swap: mem(v, "swap"),
        disk: mem(v, "disk"),
        network: v.get("network").map(|n| NetStat {
            up: number(n, "up"),
            down: number(n, "down"),
            total_up: natural(n, &["total_up", "totalUp"]),
            total_down: natural(n, &["total_down", "totalDown"]),
        }),
        connections: v.get("connections").map(|c| Conns { tcp: natural(c, &["tcp"]), udp: natural(c, &["udp"]) }),
        uptime: natural(v, &["uptime"]),
    }
}

fn envelope(text: &str) -> Option<Envelope<WsPayload>> {
    let v: Value = serde_json::from_str(text).ok()?;
    let data = v.get("data").map(|d| {
        let mut reports = Table::new();
        if let Some(map) = d.get("data").and_then(|m| m.as_object()) {
            for (uuid, r) in map {
                reports.insert(uuid.clone(), report(r));
            }
        }
        let online = d
            .get("online")
            .and_then(|o| o.as_array())
            .map(|list| list.iter().map(|o| o.as_str().unwrap().to_string()).collect())
            .unwrap_or_default();
        WsPayload { online, data: reports }
    });
    Some(Envelope {
        status: v.get("status").and_then(|s| s.as_str())?.to_string(),
        data,
        message: None,
    })
}

fn sample_ws_json() -> String {
    r#"{
      "status": "success",
      "data": {
        "online": ["uuid-1"],
        "data": {
          "uuid-1": {
            "cpu": {"usage": 42.5},
            "ram": {"total": 8589934592, "used": 4294967296},
            "swap": {"total": 1073741824, "used": 0},
            "disk": {"total": 107374182400, "used": 53687091200},
            "network": {"up": 128.0, "down": 3567155.2, "totalUp": 1024, "totalDown": 2048},
            "connections": {"tcp": 120, "udp": 8},
            "uptime": 98765
          },
          "uuid-2": {
            "cpu": {"usage": 91.0},
            "ram": {"total": 4294967296, "used": 2147483648}
          }
        }
      }
    }"#
    .to_string()
}

#[test]
fn komari_parse_ws_payload() {
    let env = envelope(&sample_ws_json()).unwrap();
    let payload = env.data.unwrap();
    assert_eq!(payload.online, vec!["uuid-1".to_string()]);
    assert_eq!(payload.data.len(), 2);
    let rep = payload.data.get("uuid-1").unwrap();
    let info = ClientInfo {
        uuid: "uuid-1".into(),
        name: "node-1".into(),
        traffic_limit: 1_000_000,
        traffic_limit_type: "sum".into(),
        expired_at: Some("2027-01-01T00:00:00Z".into()),
        ..Default::default()
    };
    let snap = report_to_snapshot(&info, true, rep);
    assert_eq!(snap.name, "node-1");
    assert!((val(snap.cpu_usage) - 42.5).abs() < 1e-9);
    assert_eq!(snap.ram_used, 4294967296);
    assert!((val(snap.net_down) - 3567155.2).abs() < 1e-9);
    assert_eq!(snap.tcp, 120);
    assert_eq!(snap.traffic_limit, 1_000_000);
    assert_eq!(snap.traffic_limit_type, "sum");
    assert_eq!(snap.expired_at.as_deref(), Some("2027-01-01T00:00:00Z"));
    // unknown node gets a fallback name
    let rep2 = payload.data.get("uuid-2").unwrap();
    let info2 = ClientInfo {
        uuid: "uuid-2".into(),
        ..Default::default()
    };
    let snap2 = report_to_snapshot(&info2, false, rep2);
    assert_eq!(snap2.name, "节点 uuid-2");
    assert_eq!(snap2.uptime_secs, 0);
}

#[test]
fn group_reaches_the_snapshot_and_is_optional() {
    let info = ClientInfo { uuid: "u".into(), group: "\u{751f}\u{4ea7}".into(), ..Default::default() };
    assert_eq!(info.group, "生产");
    let snap = report_to_snapshot(&info, true, &Report::default());
    assert_eq!(snap.group, "生产");

    // Komari versions without groups simply leave the node ungrouped.
    let plain = ClientInfo { uuid: "u".into(), ..Default::default() };
    assert!(report_to_snapshot(&plain, true, &Report::default())
        .group
        .is_empty());
}

#[test]
fn tags_split_on_semicolons() {
    assert_eq!(split_tags("hk;bgp"), vec!["hk", "bgp"]);
    // Komari lets the field be blank, ragged or padded.
    assert_eq!(split_tags(" hk ; ; bgp;"), vec!["hk", "bgp"]);
    assert!(split_tags("").is_empty());
    assert!(split_tags(";;").is_empty());
    // commas are not separators, they stay inside one tag
    assert_eq!(split_tags("hk,bgp"), vec!["hk,bgp"]);
}

#[test]
fn api_key_uses_authenticated_http_transport() {
    let mut settings = Settings::default();
    assert!(!requires_authenticated_http(&settings));

    settings.api_key = "secret".into();
    assert!(requires_authenticated_http(&settings));
}

fn three_nodes() -> Table<ClientInfo> {
    let mut nodes = Table::new();
    for (uuid, name) in [("uuid-1", "A"), ("uuid-2", "B"), ("uuid-3", "C")] {
        nodes.insert(
            uuid.to_string(),
            ClientInfo { uuid: uuid.into(), name: name.into(), ..Default::default() },
        );
    }
    nodes
}

const LIVE_TEXT: &str = r#"{"status":"success","data":{"data":{"uuid-1":{"cpu":{"usage":10}}},"online":["uuid-1"]}}"#;

#[test]
fn komari_ws_parse_keeps_nodes_without_live_data() {
    let nodes = three_nodes();
    let snap = parse_ws_text(envelope(LIVE_TEXT), &nodes).expect("parse ok");
    assert_eq!(snap.nodes.len(), 3);
    let a = snap.nodes.iter().find(|n| n.uuid == "uuid-1").unwrap();
    assert!(a.online);
    assert!((val(a.cpu_usage) - 10.0).abs() < 1e-9);
    let c = snap.nodes.iter().find(|n| n.uuid == "uuid-3").unwrap();
    assert!(!c.online);
    assert_eq!(val(c.cpu_usage), 0.0);
}

#[test]
fn monitor_ws_parse_keeps_nodes_without_live_data() {
    let nodes = three_nodes();
    let snap = hotaru::monitor::parse_ws_text(envelope(LIVE_TEXT), &nodes).expect("parse ok");
    assert_eq!(snap.nodes.len(), 3);
    let a = snap.nodes.iter().find(|n| n.uuid == "uuid-1").unwrap();
    assert!(a.online);
    assert!((val(a.cpu_usage) - 10.0).abs() < 1e-9);
    let c = snap.nodes.iter().find(|n| n.uuid == "uuid-3").unwrap();
    assert!(!c.online);
    assert_eq!(val(c.cpu_usage), 0.0);
    assert_eq!(hotaru::monitor::origin_of_safe("https://a.com"), "https://a.com:443");
}

#[test]
fn messages_without_data_bring_no_snapshot() {
    let nodes = three_nodes();
    assert!(parse_ws_text(envelope("oops"), &nodes).is_none());
    assert!(parse_ws_text(envelope(r#"{"status":"success"}"#), &nodes).is_none());
}

#[test]
fn live_nodes_are_listed_by_name() {
    let mut nodes = Table::new();
    for (uuid, name) in [("1", "z"), ("2", "a"), ("3", ""), ("4", "a")] {
        nodes.insert(uuid.to_string(), ClientInfo { uuid: uuid.into(), name: name.into(), ..Default::default() });
    }
    assert!(are_nameable(&nodes));
    let snap = live_snapshot(&WsPayload::default(), &nodes, 7);
    let shown: Vec<(&str, &str)> = snap.nodes.iter().map(|n| (n.name.as_str(), n.uuid.as_str())).collect();
    assert_eq!(shown, vec![("a", "2"), ("a", "4"), ("z", "1"), ("节点 3", "3")]);
    assert_eq!((snap.backend_ok, snap.error.is_none(), snap.last_update_ms), (true, true, 7));
}

#[test]
fn nodes_that_cannot_be_named_are_told() {
    let odd = ClientInfo { uuid: "节点甲".into(), ..Default::default() };
    assert!(!is_nameable(&odd));
    let named = ClientInfo { name: "x".into(), ..odd.clone() };
    assert!(is_nameable(&named));
    let mut nodes = Table::new();
    nodes.insert("节点甲".to_string(), odd);
    assert!(!are_nameable(&nodes));
}

#[test]
fn unreachable_nodes_count_as_offline() {
    let info = ClientInfo { uuid: "u".into(), name: "n".into(), ..Default::default() };
    let env = |data: Option<Vec<Report>>| Some(Envelope { status: "success".into(), data, message: None });
    let hot = Report { uptime: Some(5), ..Default::default() };
    let two = vec![Report::default(), hot];
    let up = recent_snapshot(&info, Some(RecentReply { code: 200, body: env(Some(two.clone())) }));
    // The last report is the latest.
    assert_eq!((up.online, up.uptime_secs), (true, 5));
    for reply in [
        None,
        Some(RecentReply { code: 500, body: env(Some(two)) }),
        Some(RecentReply { code: 200, body: None }),
        Some(RecentReply { code: 200, body: env(None) }),
        Some(RecentReply { code: 200, body: env(Some(vec![])) }),
    ] {
        let node = recent_snapshot(&info, reply);
        assert_eq!((node.online, node.uptime_secs), (false, 0));
    }
    assert!(!offline_snapshot(&info).online);
}

#[test]
fn polled_nodes_are_listed_by_name() {
    let node = |name: &str| {
        let info = ClientInfo { uuid: name.into(), name: name.into(), ..Default::default() };
        offline_snapshot(&info)
    };
    let nodes: Vec<NodeSnapshot> = vec![node("c"), node("a"), node("b")];
    let snap = polled_snapshot(nodes, 3);
    assert_eq!(snap.nodes.iter().map(|n| n.name.clone()).collect::<Vec<_>>(), vec!["a", "b", "c"]);
}

#[test]
fn node_lists_are_kept_by_id() {
    let client = |uuid: &str, name: &str| ClientInfo { uuid: uuid.into(), name: name.into(), ..Default::default() };
    let env = |status: &str, data: Option<Vec<ClientInfo>>, message: Option<&str>| Envelope {
        status: status.into(),
        data,
        message: message.map(String::from),
    };
    let table = parse_nodes(Ok(env("success", Some(vec![client("b", "1"), client("", "2"), client("a", "3"), client("b", "4")]), None))).unwrap();
    assert_eq!(table.len(), 2);
    assert_eq!(table.get("b").unwrap().name, "4");
    assert!(table.get("").is_none());
    assert_eq!(parse_nodes(Err("e".into())).unwrap_err(), "解析 /api/nodes 失败: e");
    assert_eq!(parse_nodes(Ok(env("error", None, Some("m")))).unwrap_err(), "后端返回错误: error（m）");
    assert_eq!(parse_nodes(Ok(env("success", None, None))).unwrap_err(), "响应缺少 data 字段");
}

#[test]
fn bodies_of_the_node_list() {
    let text = |code: u16, phrase: &str| Fetched::Text {
        status: HttpStatus { code, text: phrase.into() },
        text: "body".into(),
    };
    assert_eq!(accept_nodes(text(200, "200 OK")).unwrap(), "body");
    assert_eq!(accept_nodes(text(401, "401 Unauthorized")).unwrap_err(), "后端返回 401：站点为私有模式，请在设置中填写 API Key");
    assert_eq!(accept_nodes(text(502, "502 Bad Gateway")).unwrap_err(), "请求 /api/nodes 失败: HTTP 502 Bad Gateway");
    assert_eq!(accept_nodes(Fetched::SendFailed("e".into())).unwrap_err(), "请求 /api/nodes 失败: e");
    assert_eq!(accept_nodes(Fetched::ReadFailed("e".into())).unwrap_err(), "e");
}

fn records(text: &str) -> Vec<hotaru::ping::PingPoint> {
    parse_ping_records(&serde_json::from_str::<Value>(text).unwrap())
}

#[test]
fn komari_ping_records_preserve_task_identity_and_skip_invalid_values() {
    let points = records(
        r#"{
        "data": { "records": [
            { "task_id": 7, "time": "2026-08-29T16:50:00Z", "value": 42.5 },
            { "task_id": 9, "time": "2026-08-29T16:51:00Z", "value": 1 },
            { "task_id": 7, "time": "2026-08-29T16:52:00Z" }
        ] }
    }"#,
    );
    assert_eq!(points.len(), 2);
    assert_eq!(points[0].task_id, 7);
    assert_eq!(val(points[0].v), 42.5);
    assert_eq!(points[1].task_id, 9);
    assert_eq!(val(points[1].v), 1.0);
    // A probe that answered is not a loss, and one that did not is a whole one.
    assert_eq!(points[0].loss, Some(fig(0.0)));
    assert_eq!(
        records(
            r#"{
            "data": { "records": [
                { "task_id": 7, "time": "2026-08-29T16:50:00Z", "value": -1 }
            ] }
        }"#
        )[0]
            .loss,
        Some(fig(1.0))
    );
}

#[test]
fn logs_of_another_shape_hold_no_records() {
    for text in ["[]", "null", r#"{"data":[]}"#, r#"{"data":{"records":{}}}"#, r#"{"data":{"records":[1,null,{"value":"x","time":"2026-08-29T16:50:00Z"},{"value":1,"time":5}]}}"#] {
        assert!(records(text).is_empty(), "{text}");
    }
    // Tied records keep their order.
    let tied = records(r#"{"data":{"records":[{"value":2,"time":"1970-01-01T00:00:01Z"},{"value":1,"time":"1970-01-01T00:00:00Z","task_id":-4},{"value":3,"time":"1970-01-01T00:00:01Z","task_id":1.5}]}}"#);
    assert_eq!(tied.iter().map(|p| (val(p.v), p.task_id)).collect::<Vec<_>>(), vec![(1.0, 0), (2.0, 0), (3.0, 0)]);
}

#[test]
fn records_are_summed_up() {
    let points = records(
        r#"{"data":{"records":[
            {"task_id":1,"time":"1970-01-01T00:00:01Z","value":10},
            {"task_id":2,"time":"1970-01-01T00:00:01Z","value":30},
            {"task_id":1,"time":"1970-01-01T00:00:02Z","value":20},
            {"task_id":2,"time":"1970-01-01T00:00:03Z","value":-1}
        ]}}"#,
    );
    let summary = summarize_ping(&points);
    // The newest answers are 20 and 30; one record in four was lost.
    assert_eq!(summary.latency, Some(fig(25.0)));
    assert_eq!(summary.loss, Some(fig(0.25)));
    let none = summarize_ping(&Vec::new());
    assert_eq!((none.latency, none.loss), (None, None));
}

/// The quota rule the popover used to apply in JavaScript, byte for byte.
#[test]
fn traffic_used_follows_the_billing_mode() {
    assert_eq!(traffic_used("sum", 30, 70), 100);
    assert_eq!(traffic_used("max", 30, 70), 70);
    assert_eq!(traffic_used("min", 30, 70), 30);
    assert_eq!(traffic_used("up", 30, 70), 30);
    assert_eq!(traffic_used("down", 30, 70), 70);
    // Unset or unrecognised bills the larger direction, as before.
    assert_eq!(traffic_used("", 30, 70), 70);
    assert_eq!(traffic_used("SUM", 30, 70), 100);
    // A node whose counters would overflow the sum must not wrap.
    assert_eq!(traffic_used("sum", u64::MAX, 1), u64::MAX);
}

#[test]
fn snapshot_reports_lifetime_traffic_against_the_quota() {
    let info = ClientInfo {
        uuid: "u".into(),
        traffic_limit: 1_000,
        traffic_limit_type: "sum".into(),
        ..Default::default()
    };
    let report = Report {
        network: Some(NetStat {
            total_up: Some(40),
            total_down: Some(60),
            ..Default::default()
        }),
        ..Default::default()
    };
    let snap = report_to_snapshot(&info, true, &report);
    assert_eq!(snap.traffic_used, 100);
    assert_eq!(snap.traffic_period, "累计");
    assert!(snap.has_metrics);
}

#[test]
fn ping_logs_are_read_and_summed_up() {
    let log = r#"{"data":{"records":[
        {"task_id":1,"time":"1970-01-01T00:00:02Z","value":20},
        {"task_id":1,"time":"1970-01-01T00:00:01Z","value":10},
        {"task_id":1,"time":"1970-01-01T00:00:03Z","value":-1}
    ]}}"#;
    let data = read_ping(200, log).unwrap();
    assert_eq!(data.points.iter().map(|p| p.t).collect::<Vec<_>>(), vec![1000, 2000, 3000]);
    assert_eq!(data.summary.latency, Some(fig(20.0)));
    let loss = data.summary.loss.unwrap();
    assert_eq!(val(loss), 1.0 / 3.0);
    assert!(fig(0.0).le(loss) && loss.le(fig(1.0)));
    assert!(read_ping(503, log).is_none());
    assert!(read_ping(200, "<html>").is_none());
    assert!(read_ping(200, "{}").unwrap().points.is_empty());
}
