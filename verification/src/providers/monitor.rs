//! 极简探针 (`monitor-probe/monitor`).
//!
//! Only four read endpoints exist, and the hub documents them as the whole
//! contract a third-party client may rely on:
//!
//! ```text
//! GET /api/me                    site name, sign-in state, public-page switch
//! GET /api/nodes                 nodes + live metrics + cumulative traffic
//! GET /api/nodes/{id}/metrics    history and ping records
//! GET /api/ws                    pushes the /api/nodes frame every 2s
//! ```
//!
//! Two shapes differ from Komari and drive most of this module:
//!
//! * The live socket *pushes*. There is nothing to send and no interval to
//!   negotiate: the hub ticks every two seconds for every viewer.
//! * `/api/nodes` already carries every node's latest report, so the polling
//!   path is one request rather than one per node.
//!
//! Only anonymous access is supported. The hub has no API key: the sole
//! alternative is an admin session cookie, and an authenticated `/api/nodes`
//! includes every node's plaintext agent token. Holding that to draw a tray
//! icon is not a trade worth making, so a site with its public page switched
//! off is reported as unsupported rather than prompting for a password.

use vstd::prelude::*;

use crate::arithmetic::{divide_figures, quotient};
use crate::decimal::{decimal, digits, signed_decimal, signed_digits, signed_digits_tell_numbers_apart};
use crate::figure::{figure_of, Figure, HUNDRED_BITS, MINUS_ONE_BITS, ONE_BITS, ZERO_BITS};
use crate::http::{is_success, success, Fetched, UNAUTHORIZED};
use crate::json::{json_get, json_read, json_text, member_of, read_json, text_in};
use crate::models::{NodeFacts, NodeSnapshot};
use crate::order::{sorted, sorted_from, views};
use crate::ping::{add_answer, latencies, mean, mean_latency, mean_of, newest, Answer, PingData, PingPoint, PingSummary};
use crate::providers::FetchError;
use crate::table::{rows_of, Table};
use crate::text::{after_prefix, joined, text_if, trim, trimmed};

verus! {

/// Which period `NodeSnapshot::traffic_used` covers here: the hub bills a
/// calendar month that restarts on each node's own reset day.
pub const TRAFFIC_PERIOD: &'static str = "本月";

/// Shown whenever the hub answers 401. The only fix is on the hub's side, so
/// the message says what to change rather than offering a credential field.
pub const NEEDS_PUBLIC_PAGE: &'static str =
    "站点未开启公开页；Hotaru 仅支持可匿名访问的极简探针站点";

/// Above this, the poll interval is honoured over HTTP instead of riding the
/// socket. The hub pushes every 2s and that cadence cannot be negotiated, so a
/// viewer who asked for slower updates to save bandwidth would not get them.
pub const WS_MAX_INTERVAL_SECS: u64 = 3;

/// `uuid` prefix for this backend.
///
/// Node ids here are small integers, while `pinned_uuid` outlives a change of
/// backend. Without a prefix, switching a Komari site for a 极简探针 one would
/// silently apply the old site's choice to whichever node happens to hold id
/// 1, 2, 3.
pub const UUID_PREFIX: &'static str = "m:";

/// The id of a node as it is kept here.
pub open spec fn uuid_text(id: int) -> Seq<char> {
    UUID_PREFIX@ + signed_digits(id)
}

pub fn uuid_of(id: i64) -> (out: String)
    ensures
        out@ == uuid_text(id as int),
{
    joined(UUID_PREFIX, signed_decimal(id).as_str())
}

/// Different nodes have different ids, each behind the prefix.
pub proof fn ids_tell_nodes_apart(a: int, b: int)
    ensures
        uuid_text(a) == uuid_text(b) ==> a == b,
        UUID_PREFIX@.is_prefix_of(uuid_text(a)),
        uuid_text(a).skip(UUID_PREFIX@.len() as int) == signed_digits(a),
{
    let n = UUID_PREFIX@.len() as int;
    assert(uuid_text(a).skip(n) =~= signed_digits(a));
    assert(uuid_text(b).skip(n) =~= signed_digits(b));
    assert(UUID_PREFIX@ =~= uuid_text(a).take(n));
    if uuid_text(a) == uuid_text(b) {
        signed_digits_tell_numbers_apart(a, b);
    }
}

// ---------------------------------------------------------------------------
// Wire format
// ---------------------------------------------------------------------------

/// `GET /api/nodes`, and every frame `GET /api/ws` pushes: the hub renders one
/// payload and serves it to both.
#[derive(Debug, Clone)]
pub struct Frame {
    pub nodes: Vec<Node>,
}

/// Only the fields the popover draws.
#[derive(Debug, Clone)]
pub struct Node {
    pub id: i64,
    pub name: String,
    pub online: bool,
    /// ISO 3166-1 alpha-2, which is what the popover's flag lookup wants.
    pub country: String,
    pub os: String,
    /// Absent for an offline node, and also for one whose agent has connected
    /// but not yet reported.
    pub metrics: Option<Metrics>,
    /// Accumulated by the hub rather than read off the kernel, so a reboot does
    /// not reset them.
    pub total_rx: u64,
    pub total_tx: u64,
    /// Bytes this billing month, already reduced by `traffic_mode`.
    pub month_used: u64,
    pub traffic_limit: u64,
    /// `sum` | `max` | `up` | `down`.
    pub traffic_mode: String,
    /// A bare date, `2026-09-26`.
    pub expires_at: Option<String>,
}

#[derive(Debug, Clone, Copy)]
pub struct Metrics {
    /// Already a percentage, 0–100.
    pub cpu: Figure,
    pub mem_total: u64,
    pub mem_used: u64,
    pub swap_total: u64,
    pub swap_used: u64,
    pub disk_total: u64,
    pub disk_used: u64,
    /// B/s. `rx` is inbound, so it is the node's download.
    pub net_rx: Figure,
    pub net_tx: Figure,
    pub tcp: u64,
    pub udp: u64,
    pub uptime: u64,
}

/// Metrics of nothing.
pub open spec fn blank_metrics() -> Metrics {
    Metrics {
        cpu: figure_of(ZERO_BITS),
        mem_total: 0,
        mem_used: 0,
        swap_total: 0,
        swap_used: 0,
        disk_total: 0,
        disk_used: 0,
        net_rx: figure_of(ZERO_BITS),
        net_tx: figure_of(ZERO_BITS),
        tcp: 0,
        udp: 0,
        uptime: 0,
    }
}

impl Default for Metrics {
    fn default() -> (metrics: Self)
        ensures
            metrics == blank_metrics(),
    {
        Metrics {
            cpu: Figure { bits: ZERO_BITS },
            mem_total: 0,
            mem_used: 0,
            swap_total: 0,
            swap_used: 0,
            disk_total: 0,
            disk_used: 0,
            net_rx: Figure { bits: ZERO_BITS },
            net_tx: Figure { bits: ZERO_BITS },
            tcp: 0,
            udp: 0,
            uptime: 0,
        }
    }
}

/// A node of the hub as the popover shows it.
pub open spec fn hub_node_facts(n: Node) -> NodeFacts {
    let m = match n.metrics {
        Some(metrics) => metrics,
        None => blank_metrics(),
    };
    NodeFacts {
        uuid: uuid_text(n.id as int),
        name: if trim(n.name@).len() == 0 {
            "节点 "@ + signed_digits(n.id as int)
        } else {
            n.name@
        },
        online: n.online,
        region: n.country@,
        os: n.os@,
        group: n.country@,
        tags: Seq::empty(),
        latency: None,
        loss: None,
        cpu_usage: m.cpu,
        ram_used: m.mem_used,
        ram_total: m.mem_total,
        swap_used: m.swap_used,
        swap_total: m.swap_total,
        disk_used: m.disk_used,
        disk_total: m.disk_total,
        net_up: m.net_tx,
        net_down: m.net_rx,
        total_up: n.total_tx,
        total_down: n.total_rx,
        traffic_limit: n.traffic_limit,
        traffic_limit_type: n.traffic_mode@,
        traffic_used: n.month_used,
        traffic_period: TRAFFIC_PERIOD@,
        expired_at: text_if(n.expires_at),
        tcp: m.tcp,
        udp: m.udp,
        uptime_secs: m.uptime,
        has_metrics: n.metrics is Some,
    }
}

pub fn node_to_snapshot(n: &Node) -> (res: NodeSnapshot)
    ensures
        res@ == hub_node_facts(*n),
{
    let (m, has_metrics) = match n.metrics {
        Some(metrics) => (metrics, true),
        None => (Metrics::default(), false),
    };
    let expired_at = match &n.expires_at {
        Some(date) => Some(date.clone()),
        None => None,
    };
    let res = NodeSnapshot {
        uuid: uuid_of(n.id),
        name: if trimmed(n.name.as_str()).as_str().is_empty() {
            joined("节点 ", signed_decimal(n.id).as_str())
        } else {
            n.name.clone()
        },
        online: n.online,
        region: n.country.clone(),
        os: n.os.clone(),
        // The hub has no groups or tags. A country is the one facet every node
        // carries, and it is the axis a fleet spread across providers is
        // actually read along.
        group: n.country.clone(),
        tags: Vec::new(),
        latency: None,
        loss: None,
        cpu_usage: m.cpu,
        ram_used: m.mem_used,
        ram_total: m.mem_total,
        swap_used: m.swap_used,
        swap_total: m.swap_total,
        disk_used: m.disk_used,
        disk_total: m.disk_total,
        net_up: m.net_tx,
        net_down: m.net_rx,
        total_up: n.total_tx,
        total_down: n.total_rx,
        traffic_limit: n.traffic_limit,
        traffic_limit_type: n.traffic_mode.clone(),
        // The hub already reduced the month by `traffic_mode`; recomputing it
        // from the lifetime totals would bill a quota that resets monthly
        // against a counter that never does.
        traffic_used: n.month_used,
        traffic_period: TRAFFIC_PERIOD.to_owned(),
        expired_at,
        tcp: m.tcp,
        udp: m.udp,
        uptime_secs: m.uptime,
        has_metrics,
    };
    assert(res@.tags =~= Seq::<Seq<char>>::empty());
    res
}

/// All nodes of a frame, in its order.
pub open spec fn frame_facts(nodes: Seq<Node>) -> Seq<NodeFacts> {
    nodes.map_values(|n: Node| hub_node_facts(n))
}

/// The nodes of a frame, by name.
pub fn parse_frame(parsed: Result<Frame, String>) -> (res: Result<Vec<NodeSnapshot>, String>)
    ensures
        match parsed {
            Err(e) => res is Err && res->Err_0@ == "解析 /api/nodes 失败: "@ + e@,
            Ok(frame) => res is Ok && sorted_from::<NodeSnapshot>(
                frame_facts(frame.nodes@),
                views(res->Ok_0@),
            ),
        },
{
    match parsed {
        Err(e) => Err(joined("解析 /api/nodes 失败: ", e.as_str())),
        Ok(frame) => {
            let nodes = frame.nodes;
            let mut out: Vec<NodeSnapshot> = Vec::new();
            let mut i: usize = 0;
            assert(views(out@) =~= frame_facts(nodes@.take(0)));
            while i < nodes.len()
                invariant
                    i <= nodes@.len(),
                    views(out@) == frame_facts(nodes@.take(i as int)),
                decreases nodes@.len() - i,
            {
                let node = node_to_snapshot(&nodes[i]);
                let ghost before = out@;
                out.push(node);
                i = i + 1;
                proof {
                    assert(nodes@.take(i as int) =~= nodes@.take(i - 1).push(nodes@[i - 1]));
                    assert(frame_facts(nodes@.take(i as int)) =~= frame_facts(
                        nodes@.take(i - 1),
                    ).push(hub_node_facts(nodes@[i - 1])));
                    assert(views(out@) =~= views(before).push(node@));
                }
            }
            assert(nodes@.take(i as int) =~= nodes@);
            Ok(sorted(out))
        },
    }
}

// ---------------------------------------------------------------------------
// Replies
// ---------------------------------------------------------------------------

/// What is said of a socket that did not open.
pub open spec fn handshake_text(code: Option<u16>, error: Seq<char>) -> Seq<char> {
    if code == Some(UNAUTHORIZED) {
        NEEDS_PUBLIC_PAGE@
    } else {
        "连接失败: "@ + error
    }
}

/// What is said of a socket that did not open. A rejected handshake's status is
/// the one failure with an answer the user can act on.
pub fn handshake_failure(code: Option<u16>, error: &str) -> (out: String)
    ensures
        out@ == handshake_text(code, error@),
{
    match code {
        Some(c) => if c == UNAUTHORIZED {
            return NEEDS_PUBLIC_PAGE.to_owned();
        },
        None => {},
    }
    joined("连接失败: ", error)
}

/// `GET /api/nodes` as text, so the caller can parse it, or sniff which
/// backend answered.
pub fn accept_nodes_text(fetched: Fetched) -> (res: Result<String, FetchError>)
    ensures
        match fetched {
            Fetched::SendFailed(e) => res is Err && res->Err_0 is Other && res->Err_0->Other_0@
                == "请求 /api/nodes 失败: "@ + e@,
            Fetched::ReadFailed(e) => res is Err && res->Err_0 is Other && res->Err_0->Other_0@
                == e@,
            Fetched::Text { status, text } => if status.code == UNAUTHORIZED {
                res is Err && res->Err_0 is Unauthorized
            } else if !success(status.code) {
                res is Err && res->Err_0 is Other && res->Err_0->Other_0@
                    == "请求 /api/nodes 失败: HTTP "@ + status.text@
            } else {
                res is Ok && res->Ok_0@ == text@
            },
        },
{
    match fetched {
        Fetched::SendFailed(e) => Err(
            FetchError::Other(joined("请求 /api/nodes 失败: ", e.as_str())),
        ),
        Fetched::ReadFailed(e) => Err(FetchError::Other(e)),
        Fetched::Text { status, text } => if status.code == UNAUTHORIZED {
            Err(FetchError::Unauthorized)
        } else if !is_success(status.code) {
            Err(FetchError::Other(joined("请求 /api/nodes 失败: HTTP ", status.text.as_str())))
        } else {
            Ok(text)
        },
    }
}

/// The name that a body of `/api/me` gives the site.
pub open spec fn site_name_in(body: Seq<char>) -> Option<Seq<char>> {
    match text_in(member_of(json_read(body), "site_name"@)) {
        Some(name) => if trim(name).len() > 0 {
            Some(trim(name))
        } else {
            None
        },
        None => None,
    }
}

/// `GET /api/me`: used only for the site's own name in the connection test.
pub fn site_name(code: u16, body: &str) -> (res: Option<String>)
    ensures
        text_if(res) == if success(code) {
            site_name_in(body@)
        } else {
            None
        },
{
    if !is_success(code) {
        return None;
    }
    match read_json(body) {
        Some(value) => match json_get(&value, "site_name") {
            Some(found) => match json_text(found) {
                Some(text) => {
                    let name = trimmed(text);
                    if name.as_str().is_empty() {
                        None
                    } else {
                        Some(name)
                    }
                },
                None => None,
            },
            None => None,
        },
        None => None,
    }
}

// ---------------------------------------------------------------------------
// Ping records
// ---------------------------------------------------------------------------

/// `GET /api/nodes/{id}/metrics?series=ping`.
#[derive(Debug)]
pub struct PingBody {
    pub ping: Vec<PingRow>,
    /// Probe id -> display name, for every task assigned to the node.
    pub probes: Table<String>,
    /// Probe id -> percentage lost over the whole window. Only probes that lost
    /// something appear; a missing key means none did.
    pub loss: Table<Figure>,
}

#[derive(Debug, Clone, Copy)]
pub struct PingRow {
    pub task_id: u64,
    /// Epoch seconds.
    pub ts: u64,
    /// Median of the bucket, absent when every probe in it was lost.
    pub latency: Option<Figure>,
    /// Percentage lost within this bucket, absent when none were.
    pub loss: Option<Figure>,
}

/// Where the hub names its site.
pub fn site_url(base: &str) -> (out: String)
    ensures
        out@ == base@ + "/api/me"@,
{
    joined(base, "/api/me")
}

/// Where the ping window of a node is read, with a point for each minute.
pub open spec fn window_url(base: Seq<char>, id: Seq<char>, hours: u64) -> Seq<char> {
    base + "/api/nodes/"@ + id + "/metrics?hours="@ + digits(hours as nat) + "&points="@ + digits(
        (hours * 60) as nat,
    ) + "&series=ping"@
}

/// Where a node's ping window is read: `points` is reported rather than
/// requested, since the hub only ever thins further, and 60 over an hour lands
/// on its one-minute grid. Nothing for a node of another backend.
pub fn ping_url(base: &str, uuid: &str, hours: u64) -> (res: Option<String>)
    requires
        hours * 60 <= u64::MAX,
    ensures
        match res {
            Some(url) => UUID_PREFIX@.is_prefix_of(uuid@) && url@ == window_url(
                base@,
                uuid@.skip(UUID_PREFIX@.len() as int),
                hours,
            ),
            None => !UUID_PREFIX@.is_prefix_of(uuid@),
        },
{
    match after_prefix(uuid, UUID_PREFIX) {
        Some(id) => {
            proof {
                assert(uuid@.skip(UUID_PREFIX@.len() as int) =~= id@);
                assert(uuid@.take(UUID_PREFIX@.len() as int) =~= UUID_PREFIX@);
            }
            let mut url = joined(base, "/api/nodes/");
            url.append(id.as_str());
            url.append("/metrics?hours=");
            url.append(decimal(hours).as_str());
            url.append("&points=");
            url.append(decimal(hours * 60).as_str());
            url.append("&series=ping");
            Some(url)
        },
        None => None,
    }
}

/// A percentage as a share.
pub open spec fn share(percent: Figure) -> Figure {
    quotient(percent, figure_of(HUNDRED_BITS))
}

/// The point that one row makes. The chart reads a lost sample off the sign;
/// the hub says so with an absent median instead.
pub open spec fn row_point(row: PingRow) -> PingPoint {
    PingPoint {
        t: (row.ts * 1000) as u64,
        v: match row.latency {
            Some(v) => v,
            None => figure_of(MINUS_ONE_BITS),
        },
        task_id: row.task_id,
        loss: Some(
            match row.loss {
                Some(percent) => share(percent),
                None => if row.latency is None {
                    figure_of(ONE_BITS)
                } else {
                    figure_of(ZERO_BITS)
                },
            },
        ),
    }
}

pub open spec fn row_points(rows: Seq<PingRow>) -> Seq<PingPoint> {
    rows.map_values(|row: PingRow| row_point(row))
}

/// Whether every row's time fits in milliseconds.
pub open spec fn rows_fit(rows: Seq<PingRow>) -> bool {
    forall|i: int| 0 <= i < rows.len() ==> (#[trigger] rows[i]).ts * 1000 <= u64::MAX
}

/// Whether every row's time fits in milliseconds.
pub fn times_fit(rows: &Vec<PingRow>) -> (res: bool)
    ensures
        res == rows_fit(rows@),
{
    let mut i: usize = 0;
    while i < rows.len()
        invariant
            i <= rows@.len(),
            forall|j: int| 0 <= j < i ==> (#[trigger] rows@[j]).ts * 1000 <= u64::MAX,
        decreases rows@.len() - i,
    {
        if rows[i].ts > u64::MAX / 1000 {
            assert(rows@[i as int].ts * 1000 > u64::MAX);
            return false;
        }
        i = i + 1;
    }
    true
}

/// The rows that answered, as answers.
pub open spec fn row_answers(rows: Seq<PingRow>) -> Seq<Answer>
    decreases rows.len(),
{
    if rows.len() == 0 {
        Seq::empty()
    } else {
        let before = row_answers(rows.drop_last());
        let row = rows.last();
        match row.latency {
            Some(latency) => before.push(Answer { task_id: row.task_id, at: row.ts, latency }),
            None => before,
        }
    }
}

/// The probes that rows speak of, by their written ids.
pub open spec fn row_tasks(rows: Seq<PingRow>) -> Map<Seq<char>, bool>
    decreases rows.len(),
{
    if rows.len() == 0 {
        Map::empty()
    } else {
        row_tasks(rows.drop_last()).insert(digits(rows.last().task_id as nat), true)
    }
}

/// The keys of rows.
pub open spec fn keys_of<V>(rows: Seq<(Seq<char>, V)>) -> Seq<Seq<char>> {
    rows.map_values(|row: (Seq<char>, V)| row.0)
}

/// The probes that count, each once, in the order of their written ids: the
/// hub's roster, or without one the probes that have rows.
pub open spec fn roster(body: PingBody) -> Seq<Seq<char>> {
    if body.probes.rows().len() > 0 {
        keys_of(body.probes.rows())
    } else {
        keys_of(rows_of(row_tasks(body.ping@)))
    }
}

/// The share that a probe lost over the window.
pub open spec fn loss_share(body: PingBody, task: Seq<char>) -> Figure {
    share(
        if body.loss@.contains_key(task) {
            body.loss@[task]
        } else {
            figure_of(ZERO_BITS)
        },
    )
}

pub open spec fn loss_shares(body: PingBody, tasks: Seq<Seq<char>>) -> Seq<Figure> {
    tasks.map_values(|task: Seq<char>| loss_share(body, task))
}

/// What a window comes to: the mean of each probe's newest answer, and the mean
/// of what the hub says each probe lost.
pub open spec fn window_summary(body: PingBody) -> PingSummary {
    PingSummary {
        latency: mean(latencies(newest(row_answers(body.ping@)))),
        loss: mean(loss_shares(body, roster(body))),
    }
}

fn share_of(percent: Figure) -> (res: Figure)
    ensures
        res == share(percent),
{
    divide_figures(percent, Figure { bits: HUNDRED_BITS })
}

fn loss_share_of(body: &PingBody, task: &str) -> (res: Figure)
    ensures
        res == loss_share(*body, task@),
{
    match body.loss.get(task) {
        Some(percent) => share_of(*percent),
        None => share_of(Figure { bits: ZERO_BITS }),
    }
}

fn shares_for<V>(body: &PingBody, tasks: &Table<V>) -> (res: Vec<Figure>)
    ensures
        res@ == loss_shares(*body, keys_of(tasks.rows())),
        tasks.rows() == rows_of(tasks@),
{
    let count: usize = tasks.len();
    let mut res: Vec<Figure> = Vec::new();
    let mut i: usize = 0;
    let ghost keys = keys_of(tasks.rows());
    while i < count
        invariant
            i <= count,
            count == tasks.rows().len(),
            keys == keys_of(tasks.rows()),
            res@ == loss_shares(*body, keys.take(i as int)),
        decreases count - i,
    {
        let value = loss_share_of(body, tasks.key(i).as_str());
        res.push(value);
        i = i + 1;
        proof {
            assert(keys.take(i as int) =~= keys.take(i - 1).push(keys[i - 1]));
            assert(loss_shares(*body, keys.take(i as int)) =~= loss_shares(
                *body,
                keys.take(i - 1),
            ).push(value));
        }
    }
    assert(keys.take(i as int) =~= keys);
    res
}

/// Latency is the mean of each probe's newest answer, matching how the Komari
/// path reads it. Loss comes from the hub's own window figures instead of the
/// samples: failed probes are not in `ping` at all, so counting them there
/// would report every node as lossless. Probes the hub assigned but left out of
/// `loss` lost nothing, and count as zero rather than being skipped.
pub fn summarize(body: &PingBody) -> (res: PingSummary)
    ensures
        res == window_summary(*body),
{
    let mut answers: Vec<Answer> = Vec::new();
    let mut tasks: Table<bool> = Table::new();
    let ghost rows = body.ping@;
    let mut i: usize = 0;
    assert(rows.take(0) =~= Seq::<PingRow>::empty());
    while i < body.ping.len()
        invariant
            i <= rows.len(),
            rows == body.ping@,
            answers@ == newest(row_answers(rows.take(i as int))),
            tasks@ == row_tasks(rows.take(i as int)),
        decreases rows.len() - i,
    {
        let row = body.ping[i];
        proof {
            assert(rows.take(i + 1).drop_last() =~= rows.take(i as int));
            assert(rows.take(i + 1).last() == row);
        }
        match row.latency {
            Some(latency) => {
                let answer = Answer { task_id: row.task_id, at: row.ts, latency };
                proof {
                    let before = row_answers(rows.take(i as int));
                    assert(before.push(answer).drop_last() =~= before);
                }
                add_answer(&mut answers, answer);
            },
            None => {},
        }
        tasks.insert(decimal(row.task_id), true);
        i = i + 1;
    }
    assert(rows.take(i as int) =~= rows);
    // `probes` is the roster; `ping` is the fallback for a hub that ever stops
    // sending one, so a node with records is never reported as loss-unknown.
    let shares = if body.probes.len() > 0 {
        shares_for(body, &body.probes)
    } else {
        shares_for(body, &tasks)
    };
    PingSummary { latency: mean_latency(&answers), loss: mean_of(&shares) }
}

/// The points of a window in order of time, and what it comes to. A body that
/// could not be read counts as an empty one rather than failing the whole
/// refresh round.
pub fn parse_ping_body(parsed: Option<PingBody>) -> (res: (Vec<PingPoint>, PingSummary))
    requires
        parsed is Some ==> rows_fit(parsed.unwrap().ping@),
    ensures
        match parsed {
            Some(body) => sorted_from::<PingPoint>(row_points(body.ping@), res.0@) && res.1
                == window_summary(body),
            None => res.0@.len() == 0 && res.1 == (PingSummary { latency: None, loss: None }),
        },
{
    match parsed {
        Some(body) => {
            let mut points: Vec<PingPoint> = Vec::new();
            let ghost rows = body.ping@;
            let mut i: usize = 0;
            while i < body.ping.len()
                invariant
                    i <= rows.len(),
                    rows == body.ping@,
                    rows_fit(rows),
                    points@ == row_points(rows.take(i as int)),
                decreases rows.len() - i,
            {
                let row = body.ping[i];
                let v = match row.latency {
                    Some(value) => value,
                    None => Figure { bits: MINUS_ONE_BITS },
                };
                let loss = match row.loss {
                    Some(percent) => share_of(percent),
                    None => match row.latency {
                        None => Figure { bits: ONE_BITS },
                        Some(_) => Figure { bits: ZERO_BITS },
                    },
                };
                assert(rows[i as int].ts * 1000 <= u64::MAX);
                points.push(
                    PingPoint { t: row.ts * 1000, v, task_id: row.task_id, loss: Some(loss) },
                );
                i = i + 1;
                proof {
                    assert(rows.take(i as int) =~= rows.take(i - 1).push(row));
                    assert(row_points(rows.take(i as int)) =~= row_points(rows.take(i - 1)).push(
                        row_point(row),
                    ));
                }
            }
            assert(rows.take(i as int) =~= rows);
            let summary = summarize(&body);
            assert(views(points@) =~= points@);
            let out = sorted(points);
            assert(views(out@) =~= out@);
            (out, summary)
        },
        None => (Vec::new(), PingSummary::default()),
    }
}

/// A node's ping window, read and summed up. Nothing where the hub refused:
/// its history gate turns a request away rather than queueing it, and the next
/// round asks again.
pub fn read_ping(code: u16, parsed: Option<PingBody>) -> (res: Option<PingData>)
    requires
        parsed is Some ==> rows_fit(parsed.unwrap().ping@),
    ensures
        match res {
            Some(data) => success(code) && match parsed {
                Some(body) => sorted_from::<PingPoint>(row_points(body.ping@), data.points@)
                    && data.summary == window_summary(body),
                None => data.points@.len() == 0 && data.summary == (PingSummary {
                    latency: None,
                    loss: None,
                }),
            },
            None => !success(code),
        },
{
    if !is_success(code) {
        return None;
    }
    let (points, summary) = parse_ping_body(parsed);
    Some(PingData { points, summary })
}

} // verus!
