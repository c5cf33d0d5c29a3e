use hotaru::figure::Figure;
use hotaru::http::{Fetched, HttpStatus};
use hotaru::models::NodeSnapshot;
use hotaru::ping::{PingPoint, PingSummary};
use hotaru::providers::monitor::{accept_nodes_text, handshake_failure, parse_frame, parse_ping_body, ping_url, read_ping, site_name, times_fit, uuid_of, Frame, Metrics, Node, PingBody, PingRow, NEEDS_PUBLIC_PAGE};
use hotaru::providers::FetchError;
use hotaru::table::Table;
use serde_json::Value;

fn fig(x: f64) -> Figure {
    Figure { bits: x.to_bits() }
}

fn val(f: Figure) -> f64 {
    f64::from_bits(f.bits)
}

fn natural(v: &Value, key: &str) -> u64 {
    v.get(key).and_then(|x| x.as_u64()).unwrap_or(0)
}

fn number(v: &Value, key: &str) -> Figure {
    fig(v.get(key).and_then(|x| x.as_f64()).unwrap_or(0.0))
}

fn text(v: &Value, key: &str) -> String {
    v.get(key).and_then(|x| x.as_str()).unwrap_or("").to_string()
}

fn frame(json: &str) -> Frame {
    let v: Value = serde_json::from_str(json).unwrap();
    let nodes = v
        .get("nodes")
        .and_then(|n| n.as_array())
        .unwrap()
        .iter()
        .map(|n| Node {
            id: n.get("id").and_then(|x| x.as_i64()).unwrap_or(0),
            name: text(n, "name"),
            online: n.get("online").and_then(|x| x.as_bool()).unwrap_or(false),
            country: text(n, "country"),
            os: text(n, "os"),
            metrics: n.get("metrics").filter(|m| m.is_object()).map(|m| Metrics {
                cpu: number(m, "cpu"),
                mem_total: natural(m, "mem_total"),
                mem_used: natural(m, "mem_used"),
                swap_total: natural(m, "swap_total"),
                swap_used: natural(m, "swap_used"),
                disk_total: natural(m, "disk_total"),
                disk_used: natural(m, "disk_used"),
                net_rx: number(m, "net_rx"),
                net_tx: number(m, "net_tx"),
                tcp: natural(m, "tcp"),
                udp: natural(m, "udp"),
                uptime: natural(m, "uptime"),
            }),
            total_rx: natural(n, "total_rx"),
            total_tx: natural(n, "total_tx"),
            month_used: natural(n, "month_used"),
            traffic_limit: natural(n, "traffic_limit"),
            traffic_mode: text(n, "traffic_mode"),
            expires_at: n.get("expires_at").and_then(|x| x.as_str()).map(String::from),
        })
        .collect();
    Frame { nodes }
}

fn nodes_of(json: &str) -> Vec<NodeSnapshot> {
    parse_frame(Ok(frame(json))).unwrap()
}

/// Two nodes trimmed out of a real `/api/nodes` response, keeping one
/// online node and one offline node with `metrics: null`.
fn sample_frame() -> &'static str {
    r#"{"admin":false,"nodes":[
      {"id":1,"name":"LAS C.Std.B - Pro","online":true,"country":"US",
       "os":"Debian GNU/Linux 13 (trixie)","expires_at":"2026-09-26",
       "traffic_limit":0,"traffic_mode":"sum","traffic_reset_day":26,
       "total_rx":2033943981,"total_tx":2404081446,
       "month_rx":2033029951,"month_tx":2403238915,"month_used":4436268866,
       "metrics":{"cpu":1.0025062561035156,"disk_total":31620823040,
         "disk_used":3142778880,"load":[0.0,0.04,0.04],
         "mem_total":4112384000,"mem_used":848678912,
         "net_rx":11505,"net_tx":53735,"procs":129,
         "swap_total":0,"swap_used":0,"tcp":17,"udp":6,"uptime":2318724}},
      {"id":9,"name":"BreadCloud LAX Bite","online":false,"country":"US",
       "os":"Ubuntu 24.04","expires_at":"2027-09-04",
       "traffic_limit":2147483648000,"traffic_mode":"sum",
       "total_rx":10,"total_tx":20,"month_used":30,"metrics":null}
    ]}"#
}

#[test]
fn frame_maps_onto_the_shared_snapshot() {
    let nodes = nodes_of(sample_frame());
    assert_eq!(nodes.len(), 2);
    let n = nodes.iter().find(|n| n.uuid == "m:1").unwrap();

    assert_eq!(n.name, "LAS C.Std.B - Pro");
    assert!(n.online && n.has_metrics);
    // The flag lookup wants a two-letter code, and grouping is by country.
    assert_eq!(n.region, "US");
    assert_eq!(n.group, "US");
    assert!(n.tags.is_empty());
    assert_eq!(n.os, "Debian GNU/Linux 13 (trixie)");
    assert!((val(n.cpu_usage) - 1.0025062561035156).abs() < 1e-9);
    assert_eq!(n.ram_used, 848_678_912);
    assert_eq!(n.disk_total, 31_620_823_040);
    // rx is inbound: the node's download, and tx its upload.
    assert!((val(n.net_up) - 53_735.0).abs() < 1e-9);
    assert!((val(n.net_down) - 11_505.0).abs() < 1e-9);
    assert_eq!(n.total_up, 2_404_081_446);
    assert_eq!(n.total_down, 2_033_943_981);
    assert_eq!(n.tcp, 17);
    assert_eq!(n.udp, 6);
    assert_eq!(n.uptime_secs, 2_318_724);
    assert_eq!(n.expired_at.as_deref(), Some("2026-09-26"));
}

#[test]
fn quota_is_billed_against_the_month_not_the_lifetime_totals() {
    let nodes = nodes_of(sample_frame());
    let n = nodes.iter().find(|n| n.uuid == "m:9").unwrap();
    // The hub already applied `traffic_mode`; the lifetime totals (10 + 20)
    // are shown elsewhere but never billed, since the quota resets monthly.
    assert_eq!(n.traffic_used, 30);
    assert_eq!(n.traffic_limit, 2_147_483_648_000);
    assert_eq!(n.traffic_period, "本月");
    assert_eq!(n.total_up, 20);
    assert_eq!(n.total_down, 10);
}

#[test]
fn offline_node_reports_no_metrics_instead_of_zeroes() {
    let nodes = nodes_of(sample_frame());
    let n = nodes.iter().find(|n| n.uuid == "m:9").unwrap();
    assert!(!n.online);
    assert!(!n.has_metrics);
    assert_eq!(val(n.cpu_usage), 0.0);
}

/// The state the hub's own docs warn about: connected, but the agent has
/// not sent its first report. Rendering that as 0% CPU would drag the
/// fleet average down every time a node reconnects.
#[test]
fn connected_but_silent_node_is_online_without_metrics() {
    let nodes = nodes_of(r#"{"nodes":[{"id":4,"name":"fresh","online":true,"metrics":null}]}"#);
    assert!(nodes[0].online);
    assert!(!nodes[0].has_metrics);
}

#[test]
fn nameless_node_falls_back_to_its_id() {
    let nodes = nodes_of(r#"{"nodes":[{"id":7,"name":"  ","online":true}]}"#);
    assert_eq!(nodes[0].name, "节点 7");
    assert_eq!(nodes[0].uuid, "m:7");
}

#[test]
fn frames_are_listed_by_name_and_broken_ones_refused() {
    let nodes = nodes_of(r#"{"nodes":[{"id":1,"name":"b"},{"id":-2,"name":""},{"id":3,"name":"a"}]}"#);
    assert_eq!(nodes.iter().map(|n| n.uuid.clone()).collect::<Vec<_>>(), vec!["m:3", "m:1", "m:-2"]);
    assert_eq!(nodes[2].name, "节点 -2");
    assert_eq!(parse_frame(Err("e".into())).unwrap_err(), "解析 /api/nodes 失败: e");
    assert_eq!(uuid_of(i64::MIN), "m:-9223372036854775808");
}

fn body(json: &str) -> Option<PingBody> {
    let v: Value = serde_json::from_str(json).ok()?;
    let mut probes = Table::new();
    for (k, name) in v.get("probes").and_then(|p| p.as_object())? {
        probes.insert(k.clone(), name.as_str()?.to_string());
    }
    let mut loss = Table::new();
    for (k, pct) in v.get("loss").and_then(|p| p.as_object())? {
        loss.insert(k.clone(), fig(pct.as_f64()?));
    }
    let ping = v
        .get("ping")
        .and_then(|p| p.as_array())?
        .iter()
        .map(|r| PingRow {
            task_id: natural(r, "task_id"),
            ts: natural(r, "ts"),
            latency: r.get("latency").and_then(|x| x.as_f64()).map(fig),
            loss: r.get("loss").and_then(|x| x.as_f64()).map(fig),
        })
        .collect();
    Some(PingBody { ping, probes, loss })
}

fn window(json: &str) -> (Vec<PingPoint>, PingSummary) {
    parse_ping_body(body(json))
}

fn sample_ping() -> &'static str {
    r#"{
      "ping":[
        {"task_id":1,"ts":1790064060,"latency":1},
        {"task_id":3,"ts":1790064060,"latency":141},
        {"task_id":1,"ts":1790064120,"latency":2},
        {"task_id":3,"ts":1790064120,"latency":null},
        {"task_id":4,"ts":1790064120,"latency":130,"loss":25}
      ],
      "probes":{"1":"Cloudflare","3":"浙江联通","4":"浙江移动"},
      "loss":{"3":50.0}
    }"#
}

#[test]
fn ping_rows_carry_their_bucket_loss() {
    let (points, _) = window(sample_ping());
    assert_eq!(points.len(), 5);
    // Epoch seconds on the wire, milliseconds everywhere in this app.
    assert_eq!(points[0].t, 1_790_064_060_000);
    // A null median means the whole bucket was lost; the chart reads that
    // off the sign, so it has to become a negative latency.
    let dead = points.iter().find(|p| p.task_id == 3 && val(p.v) < 0.0).unwrap();
    assert_eq!(val(dead.v), -1.0);
    assert_eq!(dead.loss, Some(fig(1.0)));
    // A partially lost bucket still answered, and reports a percentage.
    let partial = points.iter().find(|p| p.task_id == 4).unwrap();
    assert!((val(partial.v) - 130.0).abs() < 1e-9);
    assert_eq!(partial.loss, Some(fig(0.25)));
    // A clean bucket is an explicit zero, not an absent figure.
    assert_eq!(points[0].loss, Some(fig(0.0)));
}

#[test]
fn ping_summary_uses_the_windows_own_loss_figures() {
    let (_, summary) = window(sample_ping());
    // Newest answered sample per probe: task 1 at 2ms, task 3 at 141ms
    // (its newer bucket was a total loss), task 4 at 130ms.
    let mean = (2.0 + 141.0 + 130.0) / 3.0;
    assert!((val(summary.latency.unwrap()) - mean).abs() < 1e-9);
    // Percentages on the wire, a share here. Probes 1 and 4 are absent
    // from `loss`, which means they lost nothing, not that they are
    // unknown, so they count as zero across three probes.
    assert!((val(summary.loss.unwrap()) - 0.5 / 3.0).abs() < 1e-9);
}

#[test]
fn ping_summary_without_records_knows_nothing() {
    let (points, summary) = window(r#"{"ping":[],"probes":{},"loss":{}}"#);
    assert!(points.is_empty());
    assert_eq!(summary, PingSummary::default());
    // Malformed bodies are treated the same way rather than failing the
    // whole refresh round.
    assert_eq!(window("not json").1, PingSummary::default());
}

#[test]
fn ping_summary_without_a_roster_goes_by_the_rows() {
    let (points, summary) = window(
        r#"{"ping":[
            {"task_id":10,"ts":5,"latency":4},
            {"task_id":2,"ts":9,"latency":8},
            {"task_id":2,"ts":9,"latency":16},
            {"task_id":2,"ts":7,"latency":99}
        ],"probes":{},"loss":{"10":100,"7":100}}"#,
    );
    // In order of time; of two answers at once the later row counts.
    assert_eq!(points.iter().map(|p| p.t).collect::<Vec<_>>(), vec![5000, 7000, 9000, 9000]);
    assert_eq!(summary.latency, Some(fig(10.0)));
    assert_eq!(summary.loss, Some(fig(0.5)));
}

#[test]
fn times_that_do_not_fit_are_told() {
    let row = |ts: u64| PingRow { task_id: 0, ts, latency: None, loss: None };
    assert!(times_fit(&vec![row(0), row(u64::MAX / 1000)]));
    assert!(!times_fit(&vec![row(u64::MAX / 1000 + 1)]));
}

#[test]
fn windows_are_asked_for_by_the_hubs_own_ids() {
    assert_eq!(
        ping_url("https://a", "m:7", 1).unwrap(),
        "https://a/api/nodes/7/metrics?hours=1&points=60&series=ping"
    );
    assert_eq!(ping_url("https://a", "uuid-7", 1), None);
}

#[test]
fn site_names_are_trimmed() {
    assert_eq!(site_name(200, r#"{"site_name":" 我的站 "}"#).as_deref(), Some("我的站"));
    assert_eq!(site_name(200, r#"{"site_name":"  "}"#), None);
    assert_eq!(site_name(200, r#"{"site_name":5}"#), None);
    assert_eq!(site_name(200, "oops"), None);
    assert_eq!(site_name(403, r#"{"site_name":"x"}"#), None);
}

#[test]
fn replies_of_the_hub() {
    let reply = |code: u16, phrase: &str| Fetched::Text {
        status: HttpStatus { code, text: phrase.into() },
        text: "body".into(),
    };
    assert_eq!(accept_nodes_text(reply(204, "")).unwrap(), "body");
    assert!(matches!(accept_nodes_text(reply(401, "")), Err(FetchError::Unauthorized)));
    let told = |f: Fetched| accept_nodes_text(f).unwrap_err().explain("?");
    assert_eq!(told(reply(500, "500 Internal Server Error")), "请求 /api/nodes 失败: HTTP 500 Internal Server Error");
    assert_eq!(told(Fetched::SendFailed("e".into())), "请求 /api/nodes 失败: e");
    assert_eq!(told(Fetched::ReadFailed("e".into())), "e");
    assert_eq!(handshake_failure(Some(401), "e"), NEEDS_PUBLIC_PAGE);
    assert_eq!(handshake_failure(Some(403), "e"), "连接失败: e");
    assert_eq!(handshake_failure(None, "e"), "连接失败: e");
}

#[test]
fn ping_windows_are_read_where_the_hub_answers() {
    let data = read_ping(200, body(sample_ping())).unwrap();
    assert_eq!(data.points.len(), 5);
    assert_eq!(data.summary, window(sample_ping()).1);
    // The hub's history gate turned the request away.
    assert!(read_ping(503, body(sample_ping())).is_none());
    let unread = read_ping(200, None).unwrap();
    assert!(unread.points.is_empty());
    assert_eq!(unread.summary, PingSummary::default());
}
