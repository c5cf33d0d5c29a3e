//! Komari (`komari-monitor/komari`).
//!
//! Live data arrives over a *pull* WebSocket: the client sends `get` and reads
//! one snapshot back. `/api/nodes` carries only the static node list, so the
//! HTTP fallback needs one `/api/recent/{uuid}` request per node.

use vstd::prelude::*;
use vstd::utf8::encode_utf8;

use crate::calendar::{parse_rfc3339_ms, time_in};
use crate::clock::now_ms;
use crate::figure::{figure_of, Figure, ONE_BITS, ZERO_BITS};
use crate::http::{is_success, success, Fetched, UNAUTHORIZED};
use crate::json::{figure_in, json_figure, json_get, json_list, json_natural, json_of, json_read, json_text, jsons, list_in, member, member_of, natural_in, read_json, text_in, Json};
use crate::models::{MonitorSnapshot, NodeFacts, NodeSnapshot, Settings, SnapshotFacts};
use crate::order::{sorted, sorted_from, views};
use crate::ping::{summarize_ping, summary_of, PingData, PingPoint};
use crate::table::Table;
use crate::text::{can_shorten, has_short_form, joined, lower, lowered, same, short_form, shortened, split_on, split_trimmed, text_if, texts, trimmed_pieces};
use crate::urls::outcome;
use crate::wire::{blank_report, count, figure, total, total_in, used, used_in};

pub use crate::wire::{ClientFacts, ClientInfo, Conns, Envelope, Mem, NetStat, Report, Usage, WsPayload};

verus! {

/// Which period `NodeSnapshot::traffic_used` covers here.
pub const TRAFFIC_PERIOD: &'static str = "累计";

/// Komari keeps a node's tags in one `;`-separated string.
pub fn split_tags(raw: &str) -> (out: Vec<String>)
    ensures
        texts(out@) == trimmed_pieces(split_on(raw@, ';')),
{
    split_trimmed(raw, ';')
}

/// The larger of two counts.
pub open spec fn larger(a: u64, b: u64) -> u64 {
    if a < b {
        b
    } else {
        a
    }
}

/// The traffic that a billing mode counts; an unknown mode counts the larger
/// direction.
pub open spec fn billed(mode: Seq<char>, up: u64, down: u64) -> u64 {
    let name = lower(mode);
    if name == "sum"@ {
        if up + down > u64::MAX {
            u64::MAX
        } else {
            (up + down) as u64
        }
    } else if name == "min"@ {
        if up < down {
            up
        } else {
            down
        }
    } else if name == "up"@ {
        up
    } else if name == "down"@ {
        down
    } else {
        larger(up, down)
    }
}

/// Komari's quota runs against the lifetime counters it keeps per node, picked
/// by the node's billing mode. Unknown modes bill the larger direction.
pub fn traffic_used(limit_type: &str, total_up: u64, total_down: u64) -> (res: u64)
    ensures
        res == billed(limit_type@, total_up, total_down),
{
    let mode = lowered(limit_type);
    if same(mode.as_str(), "sum") {
        total_up.saturating_add(total_down)
    } else if same(mode.as_str(), "min") {
        if total_up < total_down {
            total_up
        } else {
            total_down
        }
    } else if same(mode.as_str(), "up") {
        total_up
    } else if same(mode.as_str(), "down") {
        total_down
    } else if total_up < total_down {
        total_down
    } else {
        total_up
    }
}

/// Whatever the mode, no more is billed than both directions together, and
/// never less than the smaller of them.
pub proof fn billing_stays_between_the_counters(mode: Seq<char>, up: u64, down: u64)
    ensures
        billed(mode, up, down) <= up + down,
        billed(mode, up, down) >= if up < down {
            up
        } else {
            down
        },
{
}

/// What a node is called: its name, or the beginning of its id.
pub open spec fn shown_name(name: Seq<char>, uuid: Seq<char>) -> Seq<char> {
    if name.len() == 0 {
        "节点 "@ + short_form(uuid)
    } else {
        name
    }
}

/// Whether a node can be named: the id of a nameless one can be cut short.
pub open spec fn nameable(info: ClientFacts) -> bool {
    info.name.len() == 0 ==> has_short_form(info.uuid)
}

/// Whether a node can be named.
pub fn is_nameable(info: &ClientInfo) -> (res: bool)
    ensures
        res == nameable(info@),
{
    !info.name.as_str().is_empty() || can_shorten(info.uuid.as_str())
}

/// A node as its list item and a report describe it.
pub open spec fn node_facts(info: ClientFacts, online: bool, r: Report) -> NodeFacts {
    NodeFacts {
        uuid: info.uuid,
        name: shown_name(info.name, info.uuid),
        online,
        region: info.region,
        os: info.os,
        group: info.group,
        tags: trimmed_pieces(split_on(info.tags, ';')),
        latency: None,
        loss: None,
        cpu_usage: r.cpu_usage(),
        ram_used: used_in(r.ram),
        ram_total: total_in(r.ram),
        swap_used: used_in(r.swap),
        swap_total: total_in(r.swap),
        disk_used: used_in(r.disk),
        disk_total: total_in(r.disk),
        net_up: r.rate_up(),
        net_down: r.rate_down(),
        total_up: r.sent(),
        total_down: r.received(),
        traffic_limit: info.traffic_limit,
        traffic_limit_type: info.traffic_limit_type,
        traffic_used: billed(info.traffic_limit_type, r.sent(), r.received()),
        traffic_period: TRAFFIC_PERIOD@,
        expired_at: info.expired_at,
        tcp: r.tcp_count(),
        udp: r.udp_count(),
        uptime_secs: crate::wire::count_or_zero(r.uptime),
        has_metrics: true,
    }
}

fn copied(value: &Option<String>) -> (res: Option<String>)
    ensures
        text_if(res) == text_if(*value),
{
    match value {
        Some(text) => Some(text.clone()),
        None => None,
    }
}

pub fn report_to_snapshot(info: &ClientInfo, online: bool, r: &Report) -> (res: NodeSnapshot)
    requires
        nameable(info@),
    ensures
        res@ == node_facts(info@, online, *r),
{
    let name = if info.name.as_str().is_empty() {
        joined("节点 ", shortened(info.uuid.as_str()).as_str())
    } else {
        info.name.clone()
    };
    let cpu_usage = match r.cpu {
        Some(c) => figure(c.usage),
        None => Figure { bits: ZERO_BITS },
    };
    let (net_up, net_down, total_up, total_down) = match r.network {
        Some(n) => (figure(n.up), figure(n.down), count(n.total_up), count(n.total_down)),
        None => (Figure { bits: ZERO_BITS }, Figure { bits: ZERO_BITS }, 0, 0),
    };
    let (tcp, udp) = match r.connections {
        Some(c) => (count(c.tcp), count(c.udp)),
        None => (0, 0),
    };
    NodeSnapshot {
        uuid: info.uuid.clone(),
        name,
        online,
        region: info.region.clone(),
        os: info.os.clone(),
        group: info.group.clone(),
        tags: split_tags(info.tags.as_str()),
        latency: None,
        loss: None,
        cpu_usage,
        ram_used: used(r.ram),
        ram_total: total(r.ram),
        swap_used: used(r.swap),
        swap_total: total(r.swap),
        disk_used: used(r.disk),
        disk_total: total(r.disk),
        net_up,
        net_down,
        total_up,
        total_down,
        traffic_limit: info.traffic_limit,
        traffic_limit_type: info.traffic_limit_type.clone(),
        traffic_used: traffic_used(info.traffic_limit_type.as_str(), total_up, total_down),
        traffic_period: TRAFFIC_PERIOD.to_owned(),
        expired_at: copied(&info.expired_at),
        tcp,
        udp,
        uptime_secs: count(r.uptime),
        // Komari has no "connected but silent" state to report.
        has_metrics: true,
    }
}

/// A node of which nothing has been heard.
pub fn offline_snapshot(info: &ClientInfo) -> (res: NodeSnapshot)
    requires
        nameable(info@),
    ensures
        res@ == node_facts(info@, false, blank_report()),
{
    report_to_snapshot(info, false, &Report::default())
}

/// With a key the authenticated requests are used, without one the socket:
/// its filter of hidden nodes only knows a browser's session.
pub fn requires_authenticated_http(s: &Settings) -> (res: bool)
    ensures
        res == (s@.api_key.len() > 0),
{
    !s.api_key.as_str().is_empty()
}

// ---------------------------------------------------------------------------
// The live socket
// ---------------------------------------------------------------------------

/// Whether a list of texts holds one.
pub open spec fn listed(list: Seq<String>, text: Seq<char>) -> bool {
    exists|i: int| 0 <= i < list.len() && (#[trigger] list[i])@ == text
}

fn is_listed(list: &Vec<String>, text: &str) -> (res: bool)
    ensures
        res == listed(list@, text@),
{
    let mut i: usize = 0;
    while i < list.len()
        invariant
            i <= list@.len(),
            forall|j: int| 0 <= j < i ==> (#[trigger] list@[j])@ != text@,
        decreases list@.len() - i,
    {
        if same(list[i].as_str(), text) {
            assert(list@[i as int]@ == text@);
            return true;
        }
        i = i + 1;
    }
    false
}

/// A known node as a live payload describes it: a node that the payload leaves
/// out is offline.
pub open spec fn live_facts(payload: WsPayload, info: ClientFacts) -> NodeFacts {
    if payload.data@.contains_key(info.uuid) {
        node_facts(info, listed(payload.online@, info.uuid), payload.data@[info.uuid])
    } else {
        node_facts(info, false, blank_report())
    }
}

/// The known nodes, in the order of their keys.
pub open spec fn known(nodes: Table<ClientInfo>) -> Seq<ClientFacts> {
    nodes.rows().map_values(|row: (Seq<char>, ClientInfo)| row.1@)
}

/// All known nodes as a live payload describes them.
pub open spec fn live_list(payload: WsPayload, nodes: Seq<ClientFacts>) -> Seq<NodeFacts> {
    nodes.map_values(|info: ClientFacts| live_facts(payload, info))
}

/// Whether every known node can be named.
pub open spec fn all_nameable(nodes: Seq<ClientFacts>) -> bool {
    forall|i: int| 0 <= i < nodes.len() ==> nameable(#[trigger] nodes[i])
}

/// Whether every known node can be named.
pub fn are_nameable(nodes: &Table<ClientInfo>) -> (res: bool)
    ensures
        res == all_nameable(known(*nodes)),
{
    let count: usize = nodes.len();
    let mut i: usize = 0;
    while i < count
        invariant
            i <= count,
            count == nodes.rows().len(),
            forall|j: int| 0 <= j < i ==> nameable(#[trigger] known(*nodes)[j]),
        decreases count - i,
    {
        let info = nodes.value(i);
        assert(known(*nodes)[i as int] == info@);
        if !is_nameable(info) {
            return false;
        }
        i = i + 1;
    }
    true
}

/// A snapshot of every known node, by name, from a live payload. The known list
/// is what counts: a node missing from the payload (such as a router that
/// reports over HTTP) is shown offline rather than left out.
pub fn live_snapshot(payload: &WsPayload, nodes: &Table<ClientInfo>, now: u64) -> (res:
    MonitorSnapshot)
    requires
        all_nameable(known(*nodes)),
    ensures
        res@ == (SnapshotFacts {
            backend_ok: true,
            error: None,
            nodes: res@.nodes,
            last_update_ms: now,
        }),
        sorted_from::<NodeSnapshot>(live_list(*payload, known(*nodes)), res@.nodes),
{
    let mut list: Vec<NodeSnapshot> = Vec::new();
    let count: usize = nodes.len();
    let ghost all = known(*nodes);
    let mut i: usize = 0;
    assert(views(list@) =~= live_list(*payload, all.take(0)));
    while i < count
        invariant
            i <= count,
            count == nodes.rows().len(),
            all == known(*nodes),
            all_nameable(all),
            views(list@) == live_list(*payload, all.take(i as int)),
        decreases count - i,
    {
        let info = nodes.value(i);
        assert(all[i as int] == info@);
        let node = match payload.data.get(info.uuid.as_str()) {
            Some(report) => {
                let online = is_listed(&payload.online, info.uuid.as_str());
                report_to_snapshot(info, online, report)
            },
            None => offline_snapshot(info),
        };
        let ghost before = list@;
        list.push(node);
        i = i + 1;
        proof {
            assert(all.take(i as int) =~= all.take(i - 1).push(info@));
            assert(live_list(*payload, all.take(i as int)) =~= live_list(
                *payload,
                all.take(i - 1),
            ).push(live_facts(*payload, info@)));
            assert(views(list@) =~= views(before).push(node@));
        }
    }
    assert(all.take(i as int) =~= all);
    MonitorSnapshot::live(sorted(list), now)
}

/// The snapshot that a message on the socket brings: none where it could not
/// be read or carries no data.
pub fn parse_ws_text(message: Option<Envelope<WsPayload>>, nodes: &Table<ClientInfo>) -> (res:
    Option<MonitorSnapshot>)
    requires
        all_nameable(known(*nodes)),
    ensures
        match res {
            Some(snap) => message is Some && message.unwrap().data is Some && snap@ == (
            SnapshotFacts {
                backend_ok: true,
                error: None,
                nodes: snap@.nodes,
                last_update_ms: snap.last_update_ms,
            }) && sorted_from::<NodeSnapshot>(
                live_list(message.unwrap().data.unwrap(), known(*nodes)),
                snap@.nodes,
            ),
            None => message is None || message.unwrap().data is None,
        },
{
    match message {
        Some(env) => match env.data {
            Some(payload) => Some(live_snapshot(&payload, nodes, now_ms())),
            None => None,
        },
        None => None,
    }
}

/// A live snapshot lists exactly the known nodes, whatever the payload says.
pub proof fn live_snapshot_keeps_every_node(
    payload: WsPayload,
    nodes: Seq<ClientFacts>,
    shown: Seq<NodeFacts>,
    i: int,
)
    requires
        sorted_from::<NodeSnapshot>(live_list(payload, nodes), shown),
        0 <= i < nodes.len(),
    ensures
        shown.len() == nodes.len(),
        shown.contains(live_facts(payload, nodes[i])),
        !payload.data@.contains_key(nodes[i].uuid) ==> !live_facts(payload, nodes[i]).online,
{
    let list = live_list(payload, nodes);
    assert(list[i] == live_facts(payload, nodes[i]));
    list.to_multiset_ensures();
    shown.to_multiset_ensures();
    assert(list.contains(list[i]));
    assert(list.to_multiset().count(list[i]) > 0);
}

// ---------------------------------------------------------------------------
// HTTP polling: /api/nodes + /api/recent/{uuid}
// ---------------------------------------------------------------------------

/// How many requests for a node's latest report are in flight at once. Komari
/// has no endpoint that returns every node's over HTTP, so there is one request
/// for each node; one after the other they would take a round trip each, which
/// overruns the poll interval well before a large fleet is reached.
pub const RECENT_CONCURRENCY: usize = 8;

/// Where a node's latest report is read.
pub fn recent_url(base: &str, uuid: &str) -> (out: String)
    ensures
        out@ == base@ + "/api/recent/"@ + uuid@,
{
    let mut out = joined(base, "/api/recent/");
    out.append(uuid);
    out
}

/// What came of asking for one node's latest reports.
#[derive(Debug)]
pub struct RecentReply {
    pub code: u16,
    /// The reports, where the body could be read.
    pub body: Option<Envelope<Vec<Report>>>,
}

/// The reports of a reply, where it succeeded and has any.
pub open spec fn recent_reports(reply: Option<RecentReply>) -> Seq<Report> {
    match reply {
        Some(r) => if success(r.code) {
            match r.body {
                Some(env) => match env.data {
                    Some(reports) => reports@,
                    None => Seq::empty(),
                },
                None => Seq::empty(),
            }
        } else {
            Seq::empty()
        },
        None => Seq::empty(),
    }
}

/// A node by the reply to asking for its latest reports: by the last of them,
/// or offline.
pub open spec fn recent_facts(info: ClientFacts, reply: Option<RecentReply>) -> NodeFacts {
    if recent_reports(reply).len() > 0 {
        node_facts(info, true, recent_reports(reply).last())
    } else {
        node_facts(info, false, blank_report())
    }
}

/// One node by its latest report. Anything unexpected counts as offline: a
/// single unreachable node must not fail the whole refresh.
pub fn recent_snapshot(info: &ClientInfo, reply: Option<RecentReply>) -> (res: NodeSnapshot)
    requires
        nameable(info@),
    ensures
        res@ == recent_facts(info@, reply),
{
    match reply {
        Some(r) => if is_success(r.code) {
            match r.body {
                Some(env) => match env.data {
                    Some(reports) => if reports.len() > 0 {
                        report_to_snapshot(info, true, &reports[reports.len() - 1])
                    } else {
                        offline_snapshot(info)
                    },
                    None => offline_snapshot(info),
                },
                None => offline_snapshot(info),
            }
        } else {
            offline_snapshot(info)
        },
        None => offline_snapshot(info),
    }
}

/// A snapshot of polled nodes, by name.
pub fn polled_snapshot(nodes: Vec<NodeSnapshot>, now: u64) -> (res: MonitorSnapshot)
    ensures
        res@ == (SnapshotFacts {
            backend_ok: true,
            error: None,
            nodes: res@.nodes,
            last_update_ms: now,
        }),
        sorted_from::<NodeSnapshot>(views(nodes@), res@.nodes),
{
    MonitorSnapshot::live(sorted(nodes), now)
}

/// The body of `/api/nodes`, or why there is none.
pub open spec fn nodes_body(fetched: Fetched) -> Result<Seq<char>, Seq<char>> {
    match fetched {
        Fetched::SendFailed(e) => Err("请求 /api/nodes 失败: "@ + e@),
        Fetched::ReadFailed(e) => Err(e@),
        Fetched::Text { status, text } => if status.code == UNAUTHORIZED {
            Err("后端返回 401：站点为私有模式，请在设置中填写 API Key"@)
        } else if !success(status.code) {
            Err("请求 /api/nodes 失败: HTTP "@ + status.text@)
        } else {
            Ok(text@)
        },
    }
}

/// The body of `/api/nodes`, or why there is none.
pub fn accept_nodes(fetched: Fetched) -> (res: Result<String, String>)
    ensures
        outcome(res) == nodes_body(fetched),
{
    match fetched {
        Fetched::SendFailed(e) => Err(joined("请求 /api/nodes 失败: ", e.as_str())),
        Fetched::ReadFailed(e) => Err(e),
        Fetched::Text { status, text } => if status.code == UNAUTHORIZED {
            Err("后端返回 401：站点为私有模式，请在设置中填写 API Key".to_owned())
        } else if !is_success(status.code) {
            Err(joined("请求 /api/nodes 失败: HTTP ", status.text.as_str()))
        } else {
            Ok(text)
        },
    }
}

/// The nodes of a list by their ids: those without one are left out, and of
/// two with the same the later counts.
pub open spec fn by_uuid(list: Seq<ClientInfo>) -> Map<Seq<char>, ClientInfo>
    decreases list.len(),
{
    if list.len() == 0 {
        Map::empty()
    } else {
        let before = by_uuid(list.drop_last());
        let info = list.last();
        if info.uuid@.len() == 0 {
            before
        } else {
            before.insert(info.uuid@, info)
        }
    }
}

/// What is said of a backend that answers with an error of its own.
pub open spec fn refusal_text(status: Seq<char>, message: Option<Seq<char>>) -> Seq<char> {
    match message {
        Some(m) => "后端返回错误: "@ + status + "（"@ + m + "）"@,
        None => "后端返回错误: "@ + status,
    }
}

/// What is said of a backend that answers with an error of its own.
pub fn refusal(status: &str, message: Option<String>) -> (out: String)
    ensures
        out@ == refusal_text(status@, text_if(message)),
{
    let mut out = joined("后端返回错误: ", status);
    match message {
        Some(m) => {
            out.append("（");
            out.append(m.as_str());
            out.append("）");
        },
        None => {},
    }
    out
}

/// What is said of an answer that names no nodes.
pub const NO_DATA: &'static str = "响应缺少 data 字段";

/// The nodes that a body makes known, where it lists any.
pub open spec fn known_in(parsed: Result<Envelope<Vec<ClientInfo>>, String>) -> Option<
    Map<Seq<char>, ClientInfo>,
> {
    match parsed {
        Ok(env) => match env.data {
            Some(data) => if env.status@ == "success"@ {
                Some(by_uuid(data@))
            } else {
                None
            },
            None => None,
        },
        Err(_) => None,
    }
}

/// The node list of a body, as far as it was understood. The settings window's
/// picker reads the same list through unsaved form values.
pub fn parse_nodes(parsed: Result<Envelope<Vec<ClientInfo>>, String>) -> (res: Result<
    Table<ClientInfo>,
    String,
>)
    ensures
        res is Ok == known_in(parsed) is Some,
        match parsed {
            Err(e) => res is Err && res->Err_0@ == "解析 /api/nodes 失败: "@ + e@,
            Ok(env) => if env.status@ != "success"@ {
                res is Err && res->Err_0@ == refusal_text(env.status@, text_if(env.message))
            } else {
                match env.data {
                    None => res is Err && res->Err_0@ == NO_DATA@,
                    Some(data) => res is Ok && res->Ok_0@ == by_uuid(data@),
                }
            },
        },
{
    match parsed {
        Err(e) => Err(joined("解析 /api/nodes 失败: ", e.as_str())),
        Ok(env) => if !same(env.status.as_str(), "success") {
            Err(refusal(env.status.as_str(), env.message))
        } else {
            match env.data {
                None => Err(NO_DATA.to_owned()),
                Some(data) => Ok(nodes_by_uuid(data)),
            }
        },
    }
}

fn nodes_by_uuid(list: Vec<ClientInfo>) -> (res: Table<ClientInfo>)
    ensures
        res@ == by_uuid(list@),
{
    let mut table: Table<ClientInfo> = Table::new();
    let ghost all = list@;
    assert(all.take(0) =~= Seq::<ClientInfo>::empty());
    for info in it: list
        invariant
            it.seq() == all,
            table@ == by_uuid(all.take(it.index() as int)),
    {
        proof {
            assert(all.take(it.index() + 1).drop_last() =~= all.take(it.index() as int));
            assert(all.take(it.index() + 1).last() == info);
        }
        if !info.uuid.as_str().is_empty() {
            table.insert(info.uuid.clone(), info);
        }
    }
    assert(all.take(all.len() as int) =~= all);
    table
}

/// No node without an id is kept, and each is kept under its own.
pub proof fn nodes_are_kept_under_their_ids(list: Seq<ClientInfo>, uuid: Seq<char>)
    requires
        by_uuid(list).contains_key(uuid),
    ensures
        uuid.len() > 0,
        by_uuid(list)[uuid].uuid@ == uuid,
        list.contains(by_uuid(list)[uuid]),
    decreases list.len(),
{
    let front = list.drop_last();
    let info = list.last();
    assert(list[list.len() - 1] == info);
    if info.uuid@.len() == 0 || info.uuid@ != uuid {
        nodes_are_kept_under_their_ids(front, uuid);
        let i = choose|i: int| 0 <= i < front.len() && front[i] == by_uuid(front)[uuid];
        assert(list[i] == front[i]);
    }
}

// ---------------------------------------------------------------------------
// Ping records
// ---------------------------------------------------------------------------

/// The point that one record of a ping log makes; none where it has no value or
/// no time.
pub open spec fn record_point(record: Json) -> Option<PingPoint> {
    let time = match text_in(member(record, "time"@)) {
        Some(text) => time_in(encode_utf8(text)),
        None => None,
    };
    match (figure_in(member(record, "value"@)), time) {
        (Some(v), Some(t)) => Some(
            PingPoint {
                t,
                v,
                task_id: crate::wire::count_or_zero(natural_in(member(record, "task_id"@))),
                loss: Some(
                    if v.below(figure_of(ZERO_BITS)) {
                        figure_of(ONE_BITS)
                    } else {
                        figure_of(ZERO_BITS)
                    },
                ),
            },
        ),
        _ => None,
    }
}

/// The points that a list of records makes.
pub open spec fn record_points(records: Seq<Json>) -> Seq<PingPoint>
    decreases records.len(),
{
    if records.len() == 0 {
        Seq::empty()
    } else {
        let before = record_points(records.drop_last());
        match record_point(records.last()) {
            Some(point) => before.push(point),
            None => before,
        }
    }
}

/// The records of a ping log.
pub open spec fn records_in(body: Json) -> Seq<Json> {
    match list_in(member_of(member(body, "data"@), "records"@)) {
        Some(records) => records,
        None => Seq::empty(),
    }
}

fn point_of(record: &serde_json::Value) -> (res: Option<PingPoint>)
    ensures
        res == record_point(json_of(*record)),
{
    let v: Figure = match json_get(record, "value") {
        Some(value) => match json_figure(value) {
            Some(figure) => figure,
            None => {
                return None;
            },
        },
        None => {
            return None;
        },
    };
    let task_id: u64 = match json_get(record, "task_id") {
        Some(value) => count(json_natural(value)),
        None => 0,
    };
    let time: Option<u64> = match json_get(record, "time") {
        Some(value) => match json_text(value) {
            Some(text) => parse_rfc3339_ms(text),
            None => None,
        },
        None => None,
    };
    match time {
        Some(t) => {
            // One record is one probe here, so it either answered or it did
            // not; `summarize_ping` reads the same thing off the sign.
            let loss = if v.lt(Figure { bits: ZERO_BITS }) {
                Figure { bits: ONE_BITS }
            } else {
                Figure { bits: ZERO_BITS }
            };
            Some(PingPoint { t, v, task_id, loss: Some(loss) })
        },
        None => None,
    }
}

pub fn parse_ping_records(body: &serde_json::Value) -> (res: Vec<PingPoint>)
    ensures
        sorted_from::<PingPoint>(record_points(records_in(json_of(*body))), res@),
{
    let mut out: Vec<PingPoint> = Vec::new();
    let records: Option<&Vec<serde_json::Value>> = match json_get(body, "data") {
        Some(data) => match json_get(data, "records") {
            Some(list) => json_list(list),
            None => None,
        },
        None => None,
    };
    match records {
        Some(list) => {
            let ghost all = jsons(list@);
            let mut i: usize = 0;
            assert(all.take(0) =~= Seq::<Json>::empty());
            while i < list.len()
                invariant
                    i <= list@.len(),
                    all == jsons(list@),
                    out@ == record_points(all.take(i as int)),
                decreases list@.len() - i,
            {
                proof {
                    assert(all.take(i + 1).drop_last() =~= all.take(i as int));
                    assert(all.take(i + 1).last() == json_of(list@[i as int]));
                }
                match point_of(&list[i]) {
                    Some(point) => {
                        out.push(point);
                    },
                    None => {},
                }
                i = i + 1;
            }
            assert(all.take(i as int) =~= all);
        },
        None => {},
    }
    assert(views(out@) =~= out@);
    let res = sorted(out);
    assert(views(res@) =~= res@);
    res
}

/// A node's ping log, read and summed up. Nothing where the backend refused or
/// its answer is not JSON: a node that the backend has no ping task for simply
/// has no data, which is not an error.
pub fn read_ping(code: u16, body: &str) -> (res: Option<PingData>)
    ensures
        match res {
            Some(data) => success(code) && json_read(body@) is Some && sorted_from::<PingPoint>(
                record_points(records_in(json_read(body@).unwrap())),
                data.points@,
            ) && data.summary == summary_of(data.points@),
            None => !success(code) || json_read(body@) is None,
        },
{
    if !is_success(code) {
        return None;
    }
    match read_json(body) {
        Some(document) => {
            let points = parse_ping_records(&document);
            let summary = summarize_ping(&points);
            Some(PingData { points, summary })
        },
        None => None,
    }
}

} // verus!
