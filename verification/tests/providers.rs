use hotaru::models::{BackendKind, Settings};
use hotaru::providers::session::{after_first_nodes, after_transport, after_unread, fallback_notice, komari_transport, monitor_transport, step, Action, Event, Following, Phase, Read, Transport};
use hotaru::providers::komari::{recent_url, ClientInfo, RECENT_CONCURRENCY};
use hotaru::providers::monitor::site_url;
use hotaru::providers::{node_list_url, sniff, FetchError, Provider, UNAUTHORIZED_UNKNOWN_KIND, UNRECOGNISED_KIND};
use hotaru::table::Table;

#[test]
fn sniff_tells_the_two_envelopes_apart() {
    assert_eq!(
        sniff(r#"{"status":"success","data":[{"uuid":"a"}]}"#),
        Some(Provider::Komari)
    );
    assert_eq!(
        sniff(r#"{"admin":false,"nodes":[{"id":1}]}"#),
        Some(Provider::Monitor)
    );
    // An empty fleet still identifies its backend.
    assert_eq!(
        sniff(r#"{"admin":false,"nodes":[]}"#),
        Some(Provider::Monitor)
    );
    assert_eq!(
        sniff(r#"{"status":"success","data":[]}"#),
        Some(Provider::Komari)
    );
}

#[test]
fn sniff_refuses_anything_else() {
    // A reverse proxy's error page, or some other service entirely.
    assert_eq!(sniff("<html>404</html>"), None);
    assert_eq!(sniff(r#"{"status":"ok"}"#), None);
    assert_eq!(sniff(r#"{"nodes":"not-a-list"}"#), None);
    assert_eq!(sniff("[]"), None);
}

#[test]
fn sniffing_at_the_edges() {
    // A node list decides, whatever else is there.
    assert_eq!(sniff(r#"{"nodes":[],"status":"success","data":[]}"#), Some(Provider::Monitor));
    assert_eq!(sniff(r#"{"nodes":{},"status":"success","data":[]}"#), Some(Provider::Komari));
    // The key alone does not do: there has to be a list under it.
    assert_eq!(sniff(r#"{"nodes":{},"status":"success","data":null}"#), None);
    assert_eq!(sniff(r#"{"status":"ok","data":{}}"#), None);
    assert_eq!(sniff(r#"{"status":1,"data":[]}"#), None);
}

/// What a private Komari site answers: its envelope to a request with a key,
/// and a 401 to one without.
fn private_komari(api_key: &str) -> Result<String, FetchError> {
    if api_key.is_empty() {
        Err(FetchError::Unauthorized)
    } else {
        Ok(r#"{"status":"success","data":[{"uuid":"u","name":"n"}]}"#.to_string())
    }
}

#[test]
fn auto_detection_sends_the_api_key_so_private_komari_is_recognised() {
    let settings = Settings {
        backend_kind: BackendKind::Auto,
        api_key: "secret".into(),
        ..Settings::default()
    };
    let found = Provider::resolve(&settings, Some(private_komari(&settings.api_key)));
    assert_eq!(found, Ok(Provider::Komari));
}

#[test]
fn unauthenticated_detection_names_both_possible_causes() {
    let settings = Settings {
        backend_kind: BackendKind::Auto,
        ..Settings::default()
    };
    let err = Provider::resolve(&settings, Some(private_komari(&settings.api_key))).unwrap_err();
    assert_eq!(err, UNAUTHORIZED_UNKNOWN_KIND);
    assert!(err.contains("API Key") && err.contains("公开页"));
}

#[test]
fn explicit_kinds_skip_detection() {
    for (kind, want) in [
        (BackendKind::Komari, Provider::Komari),
        (BackendKind::Monitor, Provider::Monitor),
    ] {
        let settings = Settings {
            backend_kind: kind,
            ..Settings::default()
        };
        assert_eq!(Provider::named(kind), Some(want));
        assert_eq!(Provider::resolve(&settings, None), Ok(want));
    }
    assert_eq!(Provider::named(BackendKind::Auto), None);
}

#[test]
fn detection_that_fails_says_why() {
    let settings = Settings::default();
    assert_eq!(Provider::resolve(&settings, Some(Ok("[]".into()))).unwrap_err(), UNRECOGNISED_KIND);
    assert_eq!(Provider::resolve(&settings, Some(Err(FetchError::Other("e".into())))).unwrap_err(), "e");
    assert_eq!(FetchError::Unauthorized.explain("u"), "u");
    assert_eq!(FetchError::Other("o".into()).explain("u"), "o");
    assert_eq!((Provider::Komari.label(), Provider::Monitor.label()), ("Komari", "极简探针"));
}

#[test]
fn ping_concurrency_respects_the_probe_hubs_history_gate() {
    assert_eq!(Provider::Monitor.ping_concurrency(), 1);
    assert!(Provider::Komari.ping_concurrency() > 1);
}

fn after(transport: Transport, phase: Phase, event: Event) -> (Phase, String) {
    let (next, action) = step(transport, phase, event);
    let told = match action {
        Action::Wait => "wait".to_string(),
        Action::ReadNodes => "nodes".to_string(),
        Action::SendGet => "get".to_string(),
        Action::ReadMessage => "read".to_string(),
        Action::PollNodes => "poll".to_string(),
        Action::FetchNodes => "fetch".to_string(),
        Action::ShowPolled => "show polled".to_string(),
        Action::Show(text) => format!("show {text}"),
        Action::Finish => "finish".to_string(),
        Action::Fail(why) => format!("fail {why}"),
    };
    (next, told)
}

#[test]
fn pull_sockets_ask_and_read() {
    let t = Transport::PullSocket;
    assert_eq!(after(t, Phase::Waiting, Event::Tick { nodes_age_ms: 59_999 }), (Phase::Sending, "get".into()));
    assert_eq!(after(t, Phase::Waiting, Event::Tick { nodes_age_ms: 60_000 }), (Phase::ReadingNodes, "nodes".into()));
    // A list that could not be read again stays in use.
    assert_eq!(after(t, Phase::ReadingNodes, Event::NodesRead(Err("e".into()))), (Phase::Sending, "get".into()));
    assert_eq!(after(t, Phase::Sending, Event::Sent(true)), (Phase::Receiving, "read".into()));
    assert_eq!(after(t, Phase::Sending, Event::Sent(false)), (Phase::Over, "fail 发送 WS 消息失败".into()));
    assert_eq!(after(t, Phase::Receiving, Event::Received(Read::Text("x".into()))), (Phase::Waiting, "show x".into()));
    assert_eq!(after(t, Phase::Receiving, Event::Received(Read::Other)), (Phase::Waiting, "wait".into()));
    assert_eq!(after(t, Phase::Receiving, Event::Received(Read::Failed("e".into()))), (Phase::Over, "fail 读取失败: e".into()));
    assert_eq!(after(t, Phase::Receiving, Event::Received(Read::Closed)), (Phase::Over, "fail 连接已被服务端关闭".into()));
    assert_eq!(after(t, Phase::Receiving, Event::Received(Read::TimedOut)), (Phase::Over, "fail 读取超时".into()));
    assert_eq!(after(t, Phase::Waiting, Event::ConfigChanged), (Phase::Over, "finish".into()));
    // What does not belong to the phase changes nothing.
    assert_eq!(after(t, Phase::Waiting, Event::Polled), (Phase::Waiting, "wait".into()));
}

#[test]
fn polling_and_pushing() {
    let t = Transport::PollEach;
    assert_eq!(after(t, Phase::Waiting, Event::Tick { nodes_age_ms: 0 }), (Phase::Polling, "poll".into()));
    assert_eq!(after(t, Phase::Waiting, Event::Tick { nodes_age_ms: 60_000 }), (Phase::ReadingNodes, "nodes".into()));
    assert_eq!(after(t, Phase::ReadingNodes, Event::NodesRead(Ok(()))), (Phase::Polling, "poll".into()));
    assert_eq!(after(t, Phase::ReadingNodes, Event::NodesRead(Err("e".into()))), (Phase::Over, "fail e".into()));
    assert_eq!(after(t, Phase::Polling, Event::Polled), (Phase::Waiting, "show polled".into()));
    let t = Transport::PushSocket;
    assert_eq!(after(t, Phase::Waiting, Event::Received(Read::Text("x".into()))), (Phase::Waiting, "show x".into()));
    assert_eq!(after(t, Phase::Waiting, Event::Tick { nodes_age_ms: 0 }), (Phase::Waiting, "wait".into()));
    let t = Transport::PollAll;
    assert_eq!(after(t, Phase::Waiting, Event::Tick { nodes_age_ms: 0 }), (Phase::Fetching, "fetch".into()));
    assert_eq!(after(t, Phase::Fetching, Event::Fetched(Ok("x".into()))), (Phase::Waiting, "show x".into()));
    assert_eq!(
        after(t, Phase::Fetching, Event::Fetched(Err(FetchError::Unauthorized))),
        (Phase::Over, "fail 站点未开启公开页；Hotaru 仅支持可匿名访问的极简探针站点".into())
    );
    assert_eq!(after(t, Phase::Fetching, Event::Fetched(Err(FetchError::Other("e".into())))), (Phase::Over, "fail e".into()));
}

#[test]
fn transports_follow_the_settings() {
    let mut s = Settings::default();
    assert_eq!(komari_transport(&s), Transport::PullSocket);
    s.api_key = "k".into();
    assert_eq!(komari_transport(&s), Transport::PollEach);
    s.poll_interval_secs = 3;
    assert_eq!(monitor_transport(&s), Transport::PushSocket);
    s.poll_interval_secs = 4;
    assert_eq!(monitor_transport(&s), Transport::PollAll);
    assert_eq!(fallback_notice("e"), "实时连接不可用（e），已回退 HTTP 轮询");
}

#[test]
fn a_failed_live_socket_gives_way_to_polling() {
    match after_transport(Transport::PullSocket, Err("读取超时".into())) {
        Following::Poll { notice } => assert_eq!(notice, "实时连接不可用（读取超时），已回退 HTTP 轮询"),
        Following::Over(_) => panic!("polling takes over"),
    }
    assert!(matches!(after_transport(Transport::PullSocket, Ok(())), Following::Over(Ok(()))));
    for transport in [Transport::PollEach, Transport::PushSocket, Transport::PollAll] {
        match after_transport(transport, Err("e".into())) {
            Following::Over(Err(e)) => assert_eq!(e, "e"),
            _ => panic!("the session is over"),
        }
    }
}

#[test]
fn texts_that_cannot_be_read() {
    for transport in [Transport::PushSocket, Transport::PollAll] {
        let (phase, action) = after_unread(transport, "why".into());
        assert_eq!(phase, Phase::Over);
        assert!(matches!(action, Action::Fail(e) if e == "why"));
    }
    for transport in [Transport::PullSocket, Transport::PollEach] {
        let (phase, action) = after_unread(transport, "why".into());
        assert_eq!(phase, Phase::Waiting);
        assert!(matches!(action, Action::Wait));
    }
}

#[test]
fn only_the_live_socket_begins_without_nodes() {
    assert_eq!(after_first_nodes(Transport::PullSocket, Err("e".into())).unwrap().len(), 0);
    for transport in [Transport::PollEach, Transport::PushSocket, Transport::PollAll] {
        assert_eq!(after_first_nodes(transport, Err("e".into())).unwrap_err(), "e");
    }
    for transport in [Transport::PullSocket, Transport::PollEach] {
        let mut nodes = Table::new();
        nodes.insert("u".to_string(), ClientInfo::default());
        assert_eq!(after_first_nodes(transport, Ok(nodes)).unwrap().key(0), "u");
    }
}

#[test]
fn addresses_of_the_backends() {
    assert_eq!(node_list_url("https://a.com"), "https://a.com/api/nodes");
    assert_eq!(recent_url("https://a.com", "u"), "https://a.com/api/recent/u");
    assert_eq!(site_url("https://a.com"), "https://a.com/api/me");
    assert_eq!(RECENT_CONCURRENCY, 8);
}
