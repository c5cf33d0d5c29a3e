use hotaru::commands::{check_for_updates, days_from_civil, downsample, get_app_info, get_net_history, get_ping_records, github_page_url, is_offer_displayable, list_nodes, lists_nodes, node_display_name, nodes_url, open_github_page, parse_ping_records, parse_rfc3339_ms, requested_records_url, test_connection, version_url, GitHubRelease, NodesReply, UpdateReply, VersionReply, GITHUB_RELEASES_URL, GITHUB_REPOSITORY_URL, HISTORY_MAX_SERIES_POINTS};
use hotaru::figure::Figure;
use hotaru::http::HttpStatus;
use hotaru::models::Settings;
use hotaru::providers::komari::parse_nodes;
use hotaru::state::{NetFrame, NetHistory, NetPoint};
use hotaru::version::{parse_release_version, Release};
use hotaru::wire::{ClientInfo, Envelope};

fn fig(x: f64) -> Figure {
    Figure { bits: x.to_bits() }
}

fn val(f: Figure) -> f64 {
    f64::from_bits(f.bits)
}

fn pt(t: u64, up: f64) -> NetPoint {
    NetPoint { t, up: fig(up), down: fig(up), online: true }
}

#[test]
fn downsample_short_series_unchanged() {
    let pts: Vec<NetPoint> = (0..100).map(|i| pt(i * 1000, i as f64)).collect();
    assert_eq!(downsample(&pts), pts);
}

#[test]
fn downsample_buckets_average() {
    let pts: Vec<NetPoint> = (0..1000).map(|i| pt(i * 1000, i as f64)).collect();
    let out = downsample(&pts);
    assert!(out.len() <= HISTORY_MAX_SERIES_POINTS);
    // 1000 -> step 2 -> 500 buckets averaging pairs (i, i+1)
    assert_eq!(out.len(), 500);
    assert!((val(out[0].up) - 0.5).abs() < 1e-9);
    assert!((val(out[1].up) - 2.5).abs() < 1e-9);
}

#[test]
fn downsample_keeps_the_middle_and_the_last_bucket() {
    let mut pts: Vec<NetPoint> = (0..1441).map(|i| pt(i, i as f64)).collect();
    for p in pts.iter_mut() {
        p.online = false;
    }
    pts[1].online = true;
    // 1441 -> step 3 -> 481 buckets, the last of a single point
    let out = downsample(&pts);
    assert_eq!(out.len(), 481);
    assert_eq!((out[0].t, out[0].online), (1, true));
    assert_eq!((out[1].t, out[1].online), (4, false));
    assert_eq!((out[480].t, val(out[480].up)), (1440, 1440.0));
    let exact: Vec<NetPoint> = (0..720).map(|i| pt(i, 0.0)).collect();
    assert_eq!(downsample(&exact).len(), 720);
}

#[test]
fn rfc3339_parse_epoch() {
    assert_eq!(parse_rfc3339_ms("1970-01-01T00:00:00Z"), Some(0));
    assert_eq!(parse_rfc3339_ms("1970-01-02T00:00:00Z"), Some(86_400_000));
    // 2024-02-29 (leap day) 00:00 UTC
    assert_eq!(parse_rfc3339_ms("2024-02-29T00:00:00Z"), Some(1_709_164_800_000));
    // fractional seconds ignored
    assert_eq!(
        parse_rfc3339_ms("2024-02-29T00:00:00.123456Z"),
        Some(1_709_164_800_000)
    );
    assert_eq!(parse_rfc3339_ms("not-a-date"), None);
}

#[test]
fn rfc3339_at_the_edges() {
    assert_eq!(parse_rfc3339_ms("2024-02-29T01:02:03"), Some(1_709_164_800_000 + 3_723_000));
    // Only the numbers are read.
    assert_eq!(parse_rfc3339_ms("1970x01x02x00x00x00"), Some(86_400_000));
    // A sign counts as a digit's place.
    assert_eq!(parse_rfc3339_ms("1970-01-+2T00:00:00Z"), Some(86_400_000));
    // Before the epoch the count wraps around.
    assert_eq!(parse_rfc3339_ms("1969-12-31T23:59:59Z"), Some((-1000i64) as u64));
    assert_eq!(parse_rfc3339_ms("1970-01-01T00:00:0"), None);
    assert_eq!(parse_rfc3339_ms("1970-01-01T00:00:zz"), None);
    assert_eq!(parse_rfc3339_ms("1970-01-01T00:00:节"), None);
    assert_eq!(parse_rfc3339_ms(""), None);
    // The last second of a year with four digits.
    assert_eq!(parse_rfc3339_ms("9999-12-31T23:59:59.5Z"), Some(253_402_300_799_000));
}

#[test]
fn days_follow_the_calendar() {
    assert_eq!(days_from_civil(1970, 1, 1), 0);
    assert_eq!(days_from_civil(2000, 3, 1) - days_from_civil(2000, 2, 29), 1);
    assert_eq!(days_from_civil(1900, 3, 1) - days_from_civil(1900, 2, 28), 1);
    assert_eq!(days_from_civil(-1, 12, 31) + 1, days_from_civil(0, 1, 1));
    assert_eq!(days_from_civil(2026, 8, 29), 20694);
}

#[test]
fn commands_ping_records_preserve_task_identity_and_skip_invalid_values() {
    let body: serde_json::Value = serde_json::from_str(
        r#"{
        "data": { "records": [
            { "task_id": 7, "time": "2026-08-29T16:50:00Z", "value": 42.5 },
            { "task_id": 9, "time": "2026-08-29T16:51:00Z", "value": 1 },
            { "task_id": 7, "time": "2026-08-29T16:52:00Z" }
        ] }
    }"#,
    )
    .unwrap();
    let points = parse_ping_records(&body);
    assert_eq!(points.len(), 2);
    assert_eq!(points[0].task_id, 7);
    assert_eq!(val(points[0].v), 42.5);
    assert_eq!(points[1].task_id, 9);
    assert_eq!(val(points[1].v), 1.0);
}

#[test]
fn ping_replies_that_fail_say_why() {
    let status = |code: u16, text: &str| HttpStatus { code, text: text.to_string() };
    let log = r#"{"data":{"records":[{"time":"1970-01-01T00:00:01Z","value":3},{"time":"1970-01-01T00:00:00Z","value":2,"task_id":1}]}}"#;
    let points = get_ping_records(status(200, "200 OK"), Ok(log.to_string())).unwrap();
    // In order of time; a record without a task belongs to task 0.
    assert_eq!(points.iter().map(|p| (p.t, p.task_id)).collect::<Vec<_>>(), vec![(0, 1), (1000, 0)]);
    assert_eq!(get_ping_records(status(503, "503 Service Unavailable"), Ok(log.to_string())).unwrap_err(), "HTTP 503 Service Unavailable");
    assert_eq!(get_ping_records(status(200, "200 OK"), Err("broken".to_string())).unwrap_err(), "broken");
    assert!(get_ping_records(status(200, "200 OK"), Ok("<html>".to_string())).is_err());
    assert!(get_ping_records(status(200, "200 OK"), Ok("[]".to_string())).unwrap().is_empty());
}

#[test]
fn release_versions_use_semver_ordering() {
    let release = |text: &str| Release::parse(text).unwrap();
    assert_eq!(parse_release_version("v1.2.3").unwrap().display(), release("1.2.3").display());
    assert!(parse_release_version("V2.0.0").unwrap().is_after(&release("1.99.99")));
    assert!(parse_release_version("v1.2.3")
        .unwrap()
        .is_after(&parse_release_version("v1.2.3-rc.1").unwrap()));
    assert!(parse_release_version("latest").is_err());
}

#[test]
fn versions_are_written_as_they_were_read() {
    for text in ["1.2.3", "0.0.0", "1.2.3-rc.1", "1.2.3+build.5", "1.2.3-a.10+b"] {
        assert_eq!(Release::parse(text).unwrap().display(), text);
    }
    assert_eq!(parse_release_version("  vV1.0.0 ").unwrap().display(), "1.0.0");
    assert_eq!(parse_release_version("v1").unwrap_err(), "无法识别 Release 版本号：v1");
    let a = Release::parse("1.2.3").unwrap();
    assert!(!a.is_after(&Release::parse("1.2.3").unwrap()));
    assert!(Release::parse("1.2.3-rc.10").unwrap().is_after(&Release::parse("1.2.3-rc.9").unwrap()));
    assert!(!Release::parse("1.2.3-rc.1").unwrap().is_after(&a));
    assert_eq!(get_app_info(&a).version, "1.2.3");
    assert_eq!(get_app_info(&a).repository_url, "https://github.com/Gongsc/hotaru");
}

#[test]
fn update_checks() {
    let current = Release::parse("1.0.0").unwrap();
    let release = |tag: &str| GitHubRelease {
        tag_name: tag.to_string(),
        html_url: "u".to_string(),
        name: Some("n".to_string()),
        published_at: None,
    };
    let reply = |code: u16, text: &str, body: Result<GitHubRelease, String>| UpdateReply::Answered {
        status: HttpStatus { code, text: text.to_string() },
        body,
    };
    let told = check_for_updates(&current, reply(200, "200 OK", Ok(release("v1.1.0")))).unwrap();
    assert!(told.update_available);
    assert_eq!((told.current_version.as_str(), told.latest_version.as_str()), ("1.0.0", "1.1.0"));
    assert_eq!((told.release_url.as_str(), told.release_name.as_deref()), ("u", Some("n")));
    assert!(!check_for_updates(&current, reply(200, "200 OK", Ok(release("v1.0.0")))).unwrap().update_available);
    assert!(!check_for_updates(&current, reply(200, "200 OK", Ok(release("v1.0.0-rc.1")))).unwrap().update_available);
    assert_eq!(
        check_for_updates(&current, reply(200, "200 OK", Ok(release("latest")))).unwrap_err(),
        "无法识别 Release 版本号：latest"
    );
    assert_eq!(
        check_for_updates(&current, reply(404, "404 Not Found", Ok(release("v2.0.0")))).unwrap_err(),
        "GitHub 仓库尚未发布 Release"
    );
    assert_eq!(
        check_for_updates(&current, reply(403, "403 Forbidden", Ok(release("v2.0.0")))).unwrap_err(),
        "GitHub 返回 HTTP 403 Forbidden"
    );
    assert_eq!(
        check_for_updates(&current, reply(200, "200 OK", Err("e".into()))).unwrap_err(),
        "GitHub Release 响应格式无效: e"
    );
    assert_eq!(check_for_updates(&current, UpdateReply::SendFailed("e".into())).unwrap_err(), "无法连接 GitHub: e");
    assert_eq!(check_for_updates(&current, UpdateReply::NoClient("e".into())).unwrap_err(), "无法初始化更新检查: e");
}

#[test]
fn github_links_are_allowlisted() {
    assert_eq!(github_page_url("repository"), Some(GITHUB_REPOSITORY_URL));
    assert_eq!(github_page_url("releases"), Some(GITHUB_RELEASES_URL));
    assert_eq!(github_page_url("https://example.com"), None);
}

#[test]
fn other_pages_are_refused() {
    assert_eq!(open_github_page("releases"), Ok(GITHUB_RELEASES_URL));
    assert_eq!(open_github_page("x").unwrap_err(), "不支持的 GitHub 页面");
}

fn frame(t: u64, samples: &[(&str, f64, f64, bool)]) -> NetFrame {
    NetFrame {
        t,
        nodes: samples.iter().map(|s| (s.0.to_string(), fig(s.1), fig(s.2), s.3)).collect(),
    }
}

#[test]
fn curves_cover_each_node_and_all_together() {
    let mut history = NetHistory::default();
    history.push(frame(1_000, &[("b", 1.0, 2.0, true), ("a", 10.0, 20.0, false)]));
    history.push(frame(100_000, &[("a", 30.0, 40.0, true)]));
    let all = get_net_history(&history, 3600, 100_000);
    assert_eq!(all.aggregate.len(), 2);
    assert_eq!((val(all.aggregate[0].up), val(all.aggregate[0].down)), (11.0, 22.0));
    assert!(all.aggregate[0].online);
    assert_eq!(all.nodes.len(), 2);
    // Walked in the order of the ids.
    assert_eq!((all.nodes.key(0).as_str(), all.nodes.key(1).as_str()), ("a", "b"));
    let a = all.nodes.get("a").unwrap();
    assert_eq!(a.iter().map(|p| (p.t, val(p.up), p.online)).collect::<Vec<_>>(), vec![(1_000, 10.0, false), (100_000, 30.0, true)]);
    // A range is at least a minute: the first frame is too old for it.
    let short = get_net_history(&history, 0, 100_000);
    assert_eq!(short.aggregate.len(), 1);
    assert!(short.nodes.get("b").is_none());
    // Ranges are no longer than what is kept.
    assert_eq!(get_net_history(&history, u64::MAX, 100_000).aggregate.len(), 2);
}

fn client(uuid: &str, name: &str, tags: &str) -> ClientInfo {
    ClientInfo {
        uuid: uuid.into(),
        name: name.into(),
        tags: tags.into(),
        ..ClientInfo::default()
    }
}

fn answered(code: u16, text: &str, status: &str, data: Option<Vec<ClientInfo>>, message: Option<&str>) -> NodesReply {
    NodesReply::Answered {
        status: HttpStatus { code, text: text.into() },
        body: Ok(Envelope { status: status.into(), data, message: message.map(String::from) }),
    }
}

#[test]
fn node_lists_and_their_errors() {
    let nodes = vec![client("0123456789", "  ", "hk;bgp"), client("u2", "n2", "")];
    let reply = answered(200, "200 OK", "success", Some(nodes), None);
    assert!(is_offer_displayable(&reply));
    let rows = list_nodes(reply).unwrap();
    assert_eq!((rows[0].uuid.as_str(), rows[0].name.as_str()), ("0123456789", "节点 01234567"));
    assert_eq!(rows[0].tags, vec!["hk", "bgp"]);
    assert_eq!(rows[1].name, "n2");
    assert!(list_nodes(answered(200, "200 OK", "success", Some(vec![]), None)).unwrap().is_empty());
    assert_eq!(list_nodes(answered(200, "200 OK", "success", None, None)).unwrap_err(), "响应缺少 data 字段");
    assert_eq!(
        list_nodes(answered(401, "401 Unauthorized", "success", None, None)).unwrap_err(),
        "HTTP 401：站点为私有模式，需要 API Key（管理后台 → 设置 → API Key）"
    );
    assert_eq!(list_nodes(answered(500, "500 Internal Server Error", "", None, None)).unwrap_err(), "后端返回 HTTP 500 Internal Server Error");
    assert_eq!(list_nodes(answered(200, "200 OK", "error", None, Some("m"))).unwrap_err(), "后端返回错误: error（m）");
    assert_eq!(list_nodes(answered(200, "200 OK", "error", None, None)).unwrap_err(), "后端返回错误: error");
    assert_eq!(list_nodes(NodesReply::SendFailed("e".into())).unwrap_err(), "无法连接后端: e");
    assert!(lists_nodes(&answered(204, "204 No Content", "success", None, None)));
    assert!(!lists_nodes(&answered(200, "200 OK", "error", None, None)));
    assert!(!lists_nodes(&answered(401, "401 Unauthorized", "success", None, None)));
    assert!(!lists_nodes(&NodesReply::SendFailed("e".into())));
    let broken = NodesReply::Answered { status: HttpStatus { code: 200, text: String::new() }, body: Err("e".into()) };
    assert_eq!(list_nodes(broken).unwrap_err(), "响应不是有效的 Komari API: e");
    assert_eq!(node_display_name(&client("节点甲", "x", "")), "x");
    assert!(!is_offer_displayable(&answered(200, "200 OK", "success", Some(vec![client("节点甲", " ", "")]), None)));
    // Where nothing is offered, nothing has to be labelled.
    assert!(is_offer_displayable(&answered(500, "500", "success", Some(vec![client("节点甲", " ", "")]), None)));
    assert!(is_offer_displayable(&answered(200, "200 OK", "success", None, None)));
    assert!(is_offer_displayable(&NodesReply::SendFailed("e".into())));
}

#[test]
fn picker_and_engine_read_one_list() {
    let list = || vec![client("b", "one", ""), client("", "none", ""), client("a", "two", ""), client("b", "three", "x")];
    let rows = list_nodes(answered(200, "200 OK", "success", Some(list()), None)).unwrap();
    let shown: Vec<(&str, &str)> = rows.iter().map(|r| (r.uuid.as_str(), r.name.as_str())).collect();
    assert_eq!(shown, vec![("a", "two"), ("b", "three")]);
    let known = parse_nodes(Ok(Envelope { status: "success".into(), data: Some(list()), message: None })).unwrap();
    assert_eq!(known.len(), rows.len());
    for row in &rows {
        assert_eq!(known.get(&row.uuid).unwrap().name, row.name);
    }
    assert!(parse_nodes(Ok(Envelope { status: "success".into(), data: None, message: None })).is_err());
}

#[test]
fn connection_tests_count_nodes() {
    let nodes = vec![client("a", "", ""), client("b", "", "")];
    let version = Some(VersionReply { code: 200, body: r#"{"version":"1.0.5","hash":"x"}"#.into() });
    let told = test_connection(answered(200, "200 OK", "success", Some(nodes), None), version).unwrap();
    assert!(told.ok);
    assert_eq!((told.node_count, told.version.as_str()), (2, "1.0.5"));
    assert_eq!(told.message, "连接成功，发现 2 个节点");
    for version in [
        None,
        Some(VersionReply { code: 500, body: r#"{"version":"1"}"#.into() }),
        Some(VersionReply { code: 200, body: "oops".into() }),
        Some(VersionReply { code: 200, body: r#"{"version":1}"#.into() }),
    ] {
        assert_eq!(test_connection(answered(200, "200 OK", "success", None, None), version).unwrap().version, "");
    }
    assert!(test_connection(NodesReply::SendFailed("e".into()), None).is_err());
}

#[test]
fn addresses_of_requests() {
    let settings = Settings { backend_url: " a.com/ ".into(), ..Settings::default() };
    assert_eq!(nodes_url(settings.clone()).unwrap(), "https://a.com/api/nodes");
    assert_eq!(
        requested_records_url(settings.clone(), "u", 99).unwrap(),
        "https://a.com/api/records/ping?uuid=u&hours=24"
    );
    assert_eq!(
        requested_records_url(settings, "u", 0).unwrap(),
        "https://a.com/api/records/ping?uuid=u&hours=1"
    );
    assert_eq!(nodes_url(Settings::default()).unwrap_err(), "后端地址为空");
    assert_eq!(version_url("https://a.com"), "https://a.com/api/version");
}
