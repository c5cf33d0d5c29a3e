use hotaru::commands::save_settings;
use hotaru::engine::{after_session, frame_of, merge_ping, next_move, ping_round, ping_summaries, ping_wait_ms, tick_secs, AfterSession, Move, Publisher};
use hotaru::figure::Figure;
use hotaru::models::{MonitorSnapshot, NodeSnapshot, Settings};
use hotaru::ping::{PingData, PingSummary};
use hotaru::providers::komari::{offline_snapshot, ClientInfo};
use hotaru::providers::Provider;
use hotaru::state::{AppState, NetFrame, NetHistory, CONNECTING, HISTORY_MAX_POINTS, HISTORY_RETENTION_MS};
use hotaru::table::Table;

fn fig(x: f64) -> Figure {
    Figure { bits: x.to_bits() }
}

fn frame(t: u64, up: f64) -> NetFrame {
    NetFrame { t, nodes: vec![("a".into(), fig(up), fig(up * 2.0), true)] }
}

#[test]
fn history_trims_by_retention() {
    let mut hist = NetHistory::default();
    for i in 0..10u64 {
        hist.push(frame(i * 1000, 1.0));
    }
    assert_eq!(hist.since(0).len(), 10);
    assert_eq!(hist.since(4000).len(), 6);
    // a much newer sample evicts everything strictly older than the
    // retention window (cutoff is exclusive: t == cutoff survives)
    hist.push(frame(HISTORY_RETENTION_MS + 9000, 2.0));
    assert_eq!(hist.since(0).len(), 2);
    hist.push(frame(2 * HISTORY_RETENTION_MS + 10_000, 2.0));
    assert_eq!(hist.since(0).len(), 1);
}

#[test]
fn history_rejects_backwards_time() {
    let mut hist = NetHistory::default();
    hist.push(frame(2000, 1.0));
    hist.push(frame(1000, 5.0));
    let pts = hist.since(0);
    assert_eq!(pts.len(), 1);
    assert_eq!(pts[0].t, 2000);
}

#[test]
fn history_keeps_per_node_entries() {
    let mut hist = NetHistory::default();
    hist.push(NetFrame {
        t: 1000,
        nodes: vec![("a".into(), fig(1.0), fig(2.0), true), ("b".into(), fig(3.0), fig(4.0), false)],
    });
    hist.push(NetFrame {
        t: 2000,
        nodes: vec![("a".into(), fig(5.0), fig(6.0), true)],
    });
    let frames = hist.since(0);
    assert_eq!(frames.len(), 2);
    assert_eq!(frames[0].nodes.len(), 2);
    assert_eq!(frames[1].nodes.len(), 1);
}

#[test]
fn history_is_capped_and_can_be_forgotten() {
    let mut hist = NetHistory::default();
    for i in 0..(HISTORY_MAX_POINTS as u64 + 5) {
        hist.push(NetFrame { t: i / 10, nodes: vec![] });
    }
    assert_eq!(hist.len(), HISTORY_MAX_POINTS);
    hist.clear();
    assert_eq!(hist.len(), 0);
}

fn node(uuid: &str) -> NodeSnapshot {
    let info = ClientInfo { uuid: uuid.into(), name: uuid.into(), ..Default::default() };
    let mut n = offline_snapshot(&info);
    n.net_up = fig(3.0);
    n
}

fn data(latency: f64) -> PingData {
    PingData { points: vec![], summary: PingSummary { latency: Some(fig(latency)), loss: None } }
}

#[test]
fn ping_figures_reach_only_their_nodes() {
    let mut records = Table::new();
    records.insert("a".to_string(), data(5.0));
    let mut nodes = vec![node("a"), node("b")];
    nodes[0].loss = Some(fig(1.0));
    merge_ping(&mut nodes, &ping_summaries(&records));
    assert_eq!((nodes[0].latency, nodes[0].loss), (Some(fig(5.0)), None));
    assert_eq!((nodes[1].latency, nodes[1].uuid.as_str()), (None, "b"));
    assert_eq!(nodes[0].net_up, fig(3.0));
}

#[test]
fn publishing_stores_and_limits_redraws() {
    let mut state = AppState::new(Settings::default(), 0);
    state.ping_records.insert("a".to_string(), data(7.0));
    let mut publisher = Publisher::new();
    let snap = |t: u64| MonitorSnapshot { backend_ok: true, error: None, nodes: vec![node("a")], last_update_ms: t };
    assert!(publisher.publish(&mut state, snap(10), 100));
    assert_eq!(state.snapshot.nodes[0].latency, Some(fig(7.0)));
    assert_eq!((state.net_history.len(), state.net_history.since(0)[0].t), (1, 10));
    assert!(!publisher.publish(&mut state, snap(20), 1099));
    assert!(publisher.publish(&mut state, snap(30), 1100));
    assert!(!publisher.publish(&mut state, snap(40), 1200));
    assert_eq!(state.net_history.len(), 4);
    // A frame from before is not added, the snapshot is still shown.
    assert!(Publisher::default().publish(&mut state, snap(5), 0));
    assert_eq!((state.net_history.len(), state.snapshot.last_update_ms), (4, 5));
    let f = frame_of(&state.snapshot);
    assert_eq!((f.nodes[0].0.as_str(), f.nodes[0].1, f.nodes[0].3), ("a", fig(3.0), false));
}

#[test]
fn state_starts_out_connecting() {
    let state = AppState::new(Settings::default(), 9);
    assert_eq!(state.snapshot.error.as_deref(), Some(CONNECTING));
    assert_eq!((state.config_epoch, state.panel.epoch, state.snapshot.last_update_ms), (0, 1, 9));
}

#[test]
fn another_target_clears_what_is_shown() {
    let mut state = AppState::new(Settings { backend_url: "https://a".into(), ..Settings::default() }, 0);
    state.clear_error();
    state.snapshot.nodes.push(node("a"));
    state.net_history.push(frame(1, 1.0));
    state.ping_records.insert("a".to_string(), data(1.0));
    let same = Settings { backend_url: "https://a".into(), poll_interval_secs: 9, ..Settings::default() };
    assert!(!state.apply_settings(same, 5));
    assert_eq!(state.ping_records.len(), 1);
    assert_eq!((state.snapshot.nodes.len(), state.net_history.len(), state.config_epoch), (1, 1, 1));
    let other = Settings { backend_url: "https://a".into(), api_key: "k".into(), ..Settings::default() };
    assert!(state.apply_settings(other, 6));
    assert_eq!((state.snapshot.nodes.len(), state.net_history.len(), state.config_epoch), (0, 0, 2));
    // Ping records stay until the next round is stored.
    assert_eq!(state.ping_records.len(), 1);
    assert_eq!((state.snapshot.backend_ok, state.snapshot.last_update_ms), (false, 6));
    let certs = Settings { backend_url: "https://a".into(), api_key: "k".into(), accept_invalid_certs: true, ..Settings::default() };
    assert!(state.apply_settings(certs, 7));
    assert_eq!(state.settings.api_key, "k");
}

#[test]
fn errors_come_and_go() {
    let mut state = AppState::new(Settings::default(), 0);
    state.snapshot.nodes.push(node("a"));
    state.set_error("x");
    assert_eq!((state.snapshot.backend_ok, state.snapshot.error.as_deref(), state.snapshot.nodes.len()), (false, Some("x"), 1));
    state.clear_error();
    assert_eq!((state.snapshot.backend_ok, state.snapshot.error.is_none()), (true, true));
    state.bump_config_epoch();
    assert_eq!(state.config_epoch, 1);
}

#[test]
fn fetched_records_are_folded_in() {
    let mut state = AppState::new(Settings::default(), 0);
    state.snapshot.nodes.push(node("a"));
    assert!(!state.store_ping(Table::new()));
    let mut fresh = Table::new();
    fresh.insert("a".to_string(), data(2.0));
    assert!(state.store_ping(fresh));
    assert_eq!(state.snapshot.nodes[0].latency, Some(fig(2.0)));
    assert_eq!(state.ping_records.len(), 1);
}

#[test]
fn refused_nodes_keep_their_records() {
    let mut state = AppState::new(Settings::default(), 0);
    state.snapshot.nodes.push(node("u"));
    state.snapshot.nodes.push(node("v"));
    state.ping_records.insert("u".to_string(), data(5.0));
    state.ping_records.insert("v".to_string(), data(6.0));
    state.ping_records.insert("gone".to_string(), data(8.0));
    // A round without anything leaves even what is no longer listed.
    assert!(!state.store_ping(Table::new()));
    assert_eq!(state.ping_records.len(), 3);
    let mut fresh = Table::new();
    fresh.insert("v".to_string(), data(7.0));
    assert!(state.store_ping(fresh));
    assert_eq!(state.ping_records.get("u").unwrap().summary.latency, Some(fig(5.0)));
    assert_eq!(state.ping_records.get("v").unwrap().summary.latency, Some(fig(7.0)));
    assert_eq!(state.snapshot.nodes[0].latency, Some(fig(5.0)));
    assert_eq!(state.snapshot.nodes[1].latency, Some(fig(7.0)));
    assert!(state.ping_records.get("gone").is_none());
    assert_eq!(state.ping_records.len(), 2);
}

#[test]
fn failed_saves_change_nothing() {
    let mut state = AppState::new(Settings { backend_url: "https://a".into(), ..Settings::default() }, 0);
    state.snapshot.nodes.push(node("a"));
    let other = || Settings { backend_url: "https://b".into(), ..Settings::default() };
    assert_eq!(save_settings(&mut state, other(), Err("disk".into()), 5), Err("disk".to_string()));
    assert_eq!((state.settings.backend_url.as_str(), state.config_epoch), ("https://a", 0));
    assert_eq!(state.snapshot.nodes.len(), 1);
    assert_eq!(save_settings(&mut state, other(), Ok(()), 6), Ok(true));
    assert_eq!((state.settings.backend_url.as_str(), state.config_epoch), ("https://b", 1));
    assert_eq!((state.snapshot.nodes.len(), state.snapshot.last_update_ms), (0, 6));
    assert_eq!(save_settings(&mut state, other(), Ok(()), 7), Ok(false));
}

#[test]
fn engine_moves() {
    assert!(matches!(next_move(Settings::default()), Move::AwaitSettings));
    match next_move(Settings { backend_url: " a/ ".into(), ..Settings::default() }) {
        Move::Connect(s) => assert_eq!(s.backend_url, "a"),
        Move::AwaitSettings => panic!("a backend is set"),
    }
    assert!(matches!(after_session(Ok(())), AfterSession::Restart));
    match after_session(Err("e".into())) {
        AfterSession::BackOff { error, wait_ms } => assert_eq!((error.as_str(), wait_ms), ("e", 5000)),
        AfterSession::Restart => panic!("a failed session backs off"),
    }
    assert_eq!((ping_wait_ms(Some(true)), ping_wait_ms(None)), (60_000, 2_000));
    // A backend without ping tasks is not asked again at once.
    assert_eq!(ping_wait_ms(Some(false)), 60_000);
    assert_eq!(tick_secs(&Settings { poll_interval_secs: 0, ..Settings::default() }), 1);
    assert_eq!(tick_secs(&Settings::default()), 3);
}

#[test]
fn tables_keep_their_keys_in_order() {
    let mut t: Table<u8> = Table::new();
    for (k, v) in [("b", 1), ("a", 2), ("c", 3), ("a", 4)] {
        t.insert(k.to_string(), v);
    }
    assert_eq!(t.len(), 3);
    assert_eq!((0..3).map(|i| (t.key(i).as_str(), *t.value(i))).collect::<Vec<_>>(), vec![("a", 4), ("b", 1), ("c", 3)]);
    assert_eq!((t.get("c"), t.get("d")), (Some(&3), None));
    let mut lists: Table<Vec<u8>> = Table::new();
    lists.push_under("x", 1);
    lists.push_under("w", 2);
    lists.push_under("x", 3);
    assert_eq!((lists.get("x"), lists.get("w")), (Some(&vec![1, 3]), Some(&vec![2])));
}

#[test]
fn ping_rounds_wait_for_a_backend_and_its_nodes() {
    let mut state = AppState::new(
        Settings { backend_url: " a.com/ ".into(), api_key: " k ".into(), ..Settings::default() },
        0,
    );
    // The engine has not identified the backend yet.
    state.snapshot.nodes.push(node("b"));
    assert!(ping_round(&state).is_none());
    state.provider = Some(Provider::Komari);
    state.snapshot.nodes.push(node("a"));
    let round = ping_round(&state).unwrap();
    assert_eq!((round.base.as_str(), round.api_key.as_str()), ("https://a.com", "k"));
    assert_eq!(round.uuids, vec!["b", "a"]);
    assert_eq!((round.provider, round.accept_invalid_certs), (Provider::Komari, false));
    state.snapshot.nodes.clear();
    assert!(ping_round(&state).is_none());
    state.snapshot.nodes.push(node("a"));
    state.settings.backend_url.clear();
    assert!(ping_round(&state).is_none());
}
