//! Where each figure of a node comes from.

use vstd::prelude::*;
use vstd::utf8::is_ascii_chars;

use crate::decimal::signed_digits;
use crate::figure::Figure;
use crate::http::{Fetched, HttpStatus};
use crate::json::{json_read, Json};
use crate::laws::settings::{all_white, trimming_takes_off_padding};
use crate::models::{MonitorSnapshot, NodeFacts, NodeSnapshot};
use crate::order::{sorted_from, tied, Ranked};
use crate::providers::komari::{billed, by_uuid, known, known_in, live_facts, live_list, node_facts, nodes_body, recent_facts, refusal_text, RecentReply};
use crate::providers::monitor::{frame_facts, hub_node_facts, site_name_in, Metrics, Node};
use crate::table::Table;
use crate::text::{lower, lower_char, plain_texts_shorten, split_on, text_le, texts, trim, trimmed_pieces, white};
use crate::wire::{blank_report, ClientFacts, ClientInfo, Envelope, Mem, NetStat, Report, WsPayload};

verus! {

/// A count that was told is shown, and zero is where none was.
pub open spec fn counts(shown: u64, told: Option<u64>) -> bool {
    match told {
        Some(n) => shown == n,
        None => shown == 0,
    }
}

/// A figure that was told is shown, and zero is where none was.
pub open spec fn figures(shown: Figure, told: Option<Figure>) -> bool {
    match told {
        Some(f) => shown == f,
        None => shown.bits == 0,
    }
}

/// The used and the total part of a memory are shown as such.
pub open spec fn memory(used: u64, total: u64, told: Option<Mem>) -> bool {
    match told {
        Some(m) => counts(used, m.used) && counts(total, m.total),
        None => used == 0 && total == 0,
    }
}

/// A node shows what a report says of it.
pub open spec fn shows_report(node: NodeSnapshot, r: Report) -> bool {
    &&& match r.cpu {
        Some(c) => figures(node.cpu_usage, c.usage),
        None => node.cpu_usage.bits == 0,
    }
    &&& memory(node.ram_used, node.ram_total, r.ram)
    &&& memory(node.swap_used, node.swap_total, r.swap)
    &&& memory(node.disk_used, node.disk_total, r.disk)
    &&& match r.network {
        Some(n) => {
            &&& figures(node.net_up, n.up)
            &&& figures(node.net_down, n.down)
            &&& counts(node.total_up, n.total_up)
            &&& counts(node.total_down, n.total_down)
        },
        None => {
            &&& node.net_up.bits == 0
            &&& node.net_down.bits == 0
            &&& node.total_up == 0
            &&& node.total_down == 0
        },
    }
    &&& match r.connections {
        Some(c) => counts(node.tcp, c.tcp) && counts(node.udp, c.udp),
        None => node.tcp == 0 && node.udp == 0,
    }
    &&& counts(node.uptime_secs, r.uptime)
    &&& node.has_metrics
}

/// A text that was told is shown, and none where none was.
pub open spec fn told_text(shown: Option<String>, told: Option<String>) -> bool {
    match told {
        Some(t) => shown is Some && shown.unwrap()@ == t@,
        None => shown is None,
    }
}

/// A node shows what its list item says of it.
pub open spec fn shows_item(node: NodeSnapshot, info: ClientInfo) -> bool {
    &&& node.uuid@ == info.uuid@
    &&& info.name@.len() > 0 ==> node.name@ == info.name@
    &&& info.name@.len() == 0 && is_ascii_chars(info.uuid@) ==> node.name@ == "节点 "@ + (
    if info.uuid@.len() < 8 {
        info.uuid@
    } else {
        info.uuid@.take(8)
    })
    &&& node.region@ == info.region@
    &&& node.os@ == info.os@
    &&& node.group@ == info.group@
    &&& node.traffic_limit == info.traffic_limit
    &&& node.traffic_limit_type@ == info.traffic_limit_type@
    &&& node.traffic_period@ == "累计"@
    &&& told_text(node.expired_at, info.expired_at)
    &&& node.latency is None
    &&& node.loss is None
}

/// A node shows each thing that its list item and its report say, and under its
/// own name: its upload is the report's, its download the report's, and so on.
pub proof fn nodes_show_their_item_and_report(
    info: ClientInfo,
    online: bool,
    r: Report,
    node: NodeSnapshot,
)
    requires
        node@ == node_facts(info@, online, r),
    ensures
        node.online == online,
        shows_item(node, info),
        shows_report(node, r),
{
    if info.name@.len() == 0 && is_ascii_chars(info.uuid@) {
        plain_texts_shorten(info.uuid@);
    }
}

/// Where a report tells both rates, they are the node's.
pub proof fn rates_are_told_apart(
    info: ClientInfo,
    online: bool,
    r: Report,
    n: NetStat,
    up: Figure,
    down: Figure,
    node: NodeSnapshot,
)
    requires
        r.network == Some(n),
        n.up == Some(up),
        n.down == Some(down),
        node@ == node_facts(info@, online, r),
    ensures
        node.net_up == up,
        node.net_down == down,
{
}

/// Nodes whose reports tell different downloads differ in that and in nothing
/// else; so do those with different uploads.
pub proof fn one_rate_changes_one_rate(
    info: ClientFacts,
    online: bool,
    r: Report,
    n: NetStat,
    rate: Option<Figure>,
)
    requires
        r.network == Some(n),
    ensures
        ({
            let as_told = node_facts(info, online, r);
            let other_down = node_facts(
                info,
                online,
                Report { network: Some(NetStat { down: rate, ..n }), ..r },
            );
            let other_up = node_facts(
                info,
                online,
                Report { network: Some(NetStat { up: rate, ..n }), ..r },
            );
            &&& other_down == (NodeFacts { net_down: other_down.net_down, ..as_told })
            &&& other_up == (NodeFacts { net_up: other_up.net_up, ..as_told })
            &&& figures(other_down.net_down, rate)
            &&& figures(other_up.net_up, rate)
        }),
{
}

/// The tags of a list item: those before a `;` and those after it, each without
/// the white space around it; what is only white space is none.
pub proof fn tags_stand_between_semicolons(a: Seq<char>, b: Seq<char>)
    ensures
        trimmed_pieces(split_on(a + seq![';'] + b, ';')) == trimmed_pieces(split_on(a, ';'))
            + trimmed_pieces(split_on(b, ';')),
        !a.contains(';') ==> trimmed_pieces(split_on(a, ';')) == if trim(a).len() == 0 {
            Seq::<Seq<char>>::empty()
        } else {
            seq![trim(a)]
        },
{
    pieces_join(a, b, ';');
    pieces_trim_apart(split_on(a, ';'), split_on(b, ';'));
    if !a.contains(';') {
        whole_piece(a, ';');
        reveal_with_fuel(trimmed_pieces, 2);
        assert(split_on(a, ';').drop_last() =~= Seq::<Seq<char>>::empty());
        assert(split_on(a, ';').last() == a);
        assert(trimmed_pieces(split_on(a, ';')) =~= if trim(a).len() == 0 {
            Seq::<Seq<char>>::empty()
        } else {
            seq![trim(a)]
        });
    }
}

/// What stands before and after a separator is split apart there.
pub proof fn pieces_join(a: Seq<char>, b: Seq<char>, sep: char)
    ensures
        split_on(a + seq![sep] + b, sep) == split_on(a, sep) + split_on(b, sep),
        split_on(b, sep).len() > 0,
    decreases b.len(),
{
    let all = a + seq![sep] + b;
    if b.len() == 0 {
        assert(all =~= a.push(sep));
        assert(all.drop_last() =~= a);
        assert(split_on(all, sep) =~= split_on(a, sep) + split_on(b, sep));
    } else {
        pieces_join(a, b.drop_last(), sep);
        assert(all.drop_last() =~= a + seq![sep] + b.drop_last());
        assert(all.last() == b.last());
        let (x, y) = (split_on(a, sep), split_on(b.drop_last(), sep));
        assert((x + y).last() == y.last());
        assert((x + y).drop_last() =~= x + y.drop_last());
        assert(split_on(all, sep) =~= x + split_on(b, sep));
    }
}

/// A text without a separator is one piece.
pub proof fn whole_piece(a: Seq<char>, sep: char)
    requires
        !a.contains(sep),
    ensures
        split_on(a, sep) == seq![a],
    decreases a.len(),
{
    if a.len() > 0 {
        assert(a[a.len() - 1] != sep);
        assert forall|i: int| 0 <= i < a.len() - 1 implies a.drop_last()[i] != sep by {
            assert(a[i] != sep);
        }
        whole_piece(a.drop_last(), sep);
        assert(a.drop_last().push(a.last()) =~= a);
        assert(split_on(a, sep) =~= seq![a]);
    } else {
        assert(a =~= Seq::empty());
    }
}

proof fn pieces_trim_apart(a: Seq<Seq<char>>, b: Seq<Seq<char>>)
    ensures
        trimmed_pieces(a + b) == trimmed_pieces(a) + trimmed_pieces(b),
    decreases b.len(),
{
    if b.len() == 0 {
        assert(a + b =~= a);
        assert(trimmed_pieces(a + b) =~= trimmed_pieces(a) + trimmed_pieces(b));
    } else {
        assert((a + b).drop_last() =~= a + b.drop_last());
        pieces_trim_apart(a, b.drop_last());
        assert(trimmed_pieces(a + b) =~= trimmed_pieces(a) + trimmed_pieces(b));
    }
}

/// The tags shown of a node are those of its list item.
pub proof fn nodes_show_their_tags(info: ClientInfo, online: bool, r: Report, node: NodeSnapshot)
    requires
        node@ == node_facts(info@, online, r),
        !info.tags@.contains(';'),
    ensures
        trim(info.tags@).len() == 0 ==> node.tags@.len() == 0,
        trim(info.tags@).len() > 0 ==> node.tags@.len() == 1 && node.tags@[0]@ == trim(info.tags@),
{
    tags_stand_between_semicolons(info.tags@, Seq::empty());
    assert(texts(node.tags@) == trimmed_pieces(split_on(info.tags@, ';')));
    assert(node.tags@.len() == texts(node.tags@).len());
    if trim(info.tags@).len() > 0 {
        assert(texts(node.tags@)[0] == trim(info.tags@));
    }
}

/// A quota is billed for both directions, the smaller or the larger one, or one
/// of them, by the name of its kind in either case of letters.
pub proof fn traffic_is_billed_by_kind(mode: Seq<char>, up: u64, down: u64)
    ensures
        lower(mode) == "sum"@ && up + down <= u64::MAX ==> billed(mode, up, down) == up + down,
        lower(mode) == "sum"@ && up + down > u64::MAX ==> billed(mode, up, down) == u64::MAX,
        lower(mode) == "min"@ ==> billed(mode, up, down) <= up && billed(mode, up, down) <= down && (
        billed(mode, up, down) == up || billed(mode, up, down) == down),
        lower(mode) == "up"@ ==> billed(mode, up, down) == up,
        lower(mode) == "down"@ ==> billed(mode, up, down) == down,
        !(lower(mode) == "sum"@ || lower(mode) == "min"@ || lower(mode) == "up"@ || lower(mode)
            == "down"@) ==> billed(mode, up, down) >= up && billed(mode, up, down) >= down && (
        billed(mode, up, down) == up || billed(mode, up, down) == down),
{
    reveal_strlit("sum");
    reveal_strlit("min");
    reveal_strlit("up");
    reveal_strlit("down");
    assert("sum"@[0] == 's' && "min"@[0] == 'm' && "up"@[0] == 'u' && "down"@[0] == 'd');
}

/// What a node was billed is a matter of its kind of quota and what its report
/// has it send and receive.
pub proof fn nodes_are_billed_for_their_traffic(
    info: ClientInfo,
    online: bool,
    r: Report,
    node: NodeSnapshot,
)
    requires
        node@ == node_facts(info@, online, r),
    ensures
        node.traffic_used == billed(info.traffic_limit_type@, node.total_up, node.total_down),
        info.traffic_limit_type@ == "up"@ ==> node.traffic_used == node.total_up,
        info.traffic_limit_type@ == "down"@ ==> node.traffic_used == node.total_down,
        info.traffic_limit_type@ == "max"@ ==> node.traffic_used >= node.total_up
            && node.traffic_used >= node.total_down,
{
    reveal_strlit("sum");
    reveal_strlit("min");
    reveal_strlit("up");
    reveal_strlit("down");
    reveal_strlit("max");
    assert(lower("up"@) =~= "up"@);
    assert(lower("down"@) =~= "down"@);
    assert(lower("max"@) =~= "max"@);
    traffic_is_billed_by_kind(info.traffic_limit_type@, node.total_up, node.total_down);
    assert("max"@[1] == 'a' && "min"@[1] == 'i' && "sum"@[0] == 's' && "max"@.len() == 3
        && "up"@.len() == 2 && "down"@.len() == 4);
}

/// Only the letters from `A` to `Z` are made small, each into its own small one.
pub proof fn small_letters(s: Seq<char>, i: int)
    requires
        0 <= i < s.len(),
    ensures
        lower(s).len() == s.len(),
        0x41 <= s[i] as u32 <= 0x5A ==> lower(s)[i] as u32 == s[i] as u32 + 32,
        !(0x41 <= s[i] as u32 <= 0x5A) ==> lower(s)[i] == s[i],
{
    let c = s[i];
    assert(lower(s)[i] == lower_char(c));
    assert('A' as u32 == 0x41 && 'Z' as u32 == 0x5A);
}

/// A node on the live socket is online where the socket both reports it and
/// names it as online. It shows the report that stands under its id, and with
/// none it shows nothing.
pub proof fn live_nodes_show_their_report(payload: WsPayload, info: ClientInfo, node: NodeSnapshot)
    requires
        node@ == live_facts(payload, info@),
    ensures
        shows_item(node, info),
        node.online <==> payload.data@.contains_key(info.uuid@) && exists|i: int|
            0 <= i < payload.online@.len() && (#[trigger] payload.online@[i])@ == info.uuid@,
        payload.data@.contains_key(info.uuid@) ==> shows_report(node, payload.data@[info.uuid@]),
        !payload.data@.contains_key(info.uuid@) ==> shows_report(node, nothing_reported()),
{
    if payload.data@.contains_key(info.uuid@) {
        nodes_show_their_item_and_report(info, node.online, payload.data@[info.uuid@], node);
    } else {
        nodes_show_their_item_and_report(info, false, blank_report(), node);
    }
}

/// A report without anything in it.
pub open spec fn nothing_reported() -> Report {
    Report {
        cpu: None,
        ram: None,
        swap: None,
        disk: None,
        network: None,
        connections: None,
        uptime: None,
    }
}

/// A polled node is online where it was answered with a report, and then shows
/// the last one; otherwise it is offline and shows nothing.
pub proof fn polled_nodes_show_their_last_report(
    info: ClientInfo,
    code: u16,
    env: Envelope<Vec<Report>>,
    reports: Vec<Report>,
    node: NodeSnapshot,
)
    requires
        env.data == Some(reports),
        node@ == recent_facts(info@, Some(RecentReply { code, body: Some(env) })),
    ensures
        shows_item(node, info),
        node.online <==> 200 <= code < 300 && reports@.len() > 0,
        node.online ==> shows_report(node, reports@[reports@.len() - 1]),
        !node.online ==> shows_report(node, nothing_reported()),
{
    if 200 <= code < 300 && reports@.len() > 0 {
        nodes_show_their_item_and_report(info, true, reports@[reports@.len() - 1], node);
    } else {
        nodes_show_their_item_and_report(info, false, blank_report(), node);
    }
}

/// A node whose reply did not come or has no reports in it is offline.
pub proof fn unanswered_nodes_are_offline(
    info: ClientInfo,
    reply: Option<RecentReply>,
    node: NodeSnapshot,
)
    requires
        node@ == recent_facts(info@, reply),
        match reply {
            None => true,
            Some(r) => r.body is None || r.body.unwrap().data is None || r.code < 200 || r.code >= 300,
        },
    ensures
        !node.online,
        shows_item(node, info),
        shows_report(node, nothing_reported()),
{
    nodes_show_their_item_and_report(info, false, blank_report(), node);
}

/// Under each id stands the last of the list items with it; an item without an
/// id is left out, and nothing else.
pub proof fn the_last_item_of_an_id_is_kept(list: Seq<ClientInfo>, i: int)
    requires
        0 <= i < list.len(),
        list[i].uuid@.len() > 0,
        forall|j: int| i < j < list.len() ==> (#[trigger] list[j]).uuid@ != list[i].uuid@,
    ensures
        by_uuid(list).contains_key(list[i].uuid@),
        by_uuid(list)[list[i].uuid@] == list[i],
    decreases list.len(),
{
    let front = list.drop_last();
    if i < list.len() - 1 {
        assert(list[list.len() - 1].uuid@ != list[i].uuid@);
        assert forall|j: int| i < j < front.len() implies (#[trigger] front[j]).uuid@
            != front[i].uuid@ by {
            assert(front[j] == list[j]);
        }
        the_last_item_of_an_id_is_kept(front, i);
    }
}

/// The body of the node list is what a reply of 200 to 299 holds; any other
/// reply is told why.
pub proof fn node_lists_come_with_success(status: HttpStatus, text: String, e: String)
    ensures
        200 <= status.code < 300 ==> nodes_body(Fetched::Text { status, text }) == Ok::<
            Seq<char>,
            Seq<char>,
        >(text@),
        !(200 <= status.code < 300) ==> nodes_body(Fetched::Text { status, text }) is Err,
        status.code != 401 && !(200 <= status.code < 300) ==> status.text@.is_suffix_of(
            nodes_body(Fetched::Text { status, text })->Err_0,
        ),
        nodes_body(Fetched::SendFailed(e)) is Err,
        e@.is_suffix_of(nodes_body(Fetched::SendFailed(e))->Err_0),
        nodes_body(Fetched::ReadFailed(e)) == Err::<Seq<char>, Seq<char>>(e@),
{
    let head = "请求 /api/nodes 失败: HTTP "@;
    assert((head + status.text@).skip(head.len() as int) =~= status.text@);
    let other = "请求 /api/nodes 失败: "@;
    assert((other + e@).skip(other.len() as int) =~= e@);
}

// ---------------------------------------------------------------------------
// The hub
// ---------------------------------------------------------------------------

/// A node shows what its metrics say.
pub open spec fn shows_metrics(node: NodeSnapshot, m: Metrics) -> bool {
    &&& node.cpu_usage == m.cpu
    &&& (node.ram_used, node.ram_total) == (m.mem_used, m.mem_total)
    &&& (node.swap_used, node.swap_total) == (m.swap_used, m.swap_total)
    &&& (node.disk_used, node.disk_total) == (m.disk_used, m.disk_total)
    &&& node.net_up == m.net_tx
    &&& node.net_down == m.net_rx
    &&& node.tcp == m.tcp
    &&& node.udp == m.udp
    &&& node.uptime_secs == m.uptime
}

/// A node of a hub shows each thing that its frame says, and under its own name:
/// what is sent is its upload and what is received its download; zero and no
/// metrics where none were reported.
pub proof fn hub_nodes_show_their_frame(n: Node, node: NodeSnapshot)
    requires
        node@ == hub_node_facts(n),
    ensures
        node.uuid@ == "m:"@ + signed_digits(n.id as int),
        trim(n.name@).len() > 0 ==> node.name@ == n.name@,
        trim(n.name@).len() == 0 ==> node.name@ == "节点 "@ + signed_digits(n.id as int),
        node.online == n.online,
        node.region@ == n.country@,
        node.group@ == n.country@,
        node.os@ == n.os@,
        node.tags@.len() == 0,
        node.latency is None,
        node.loss is None,
        node.total_up == n.total_tx,
        node.total_down == n.total_rx,
        node.traffic_limit == n.traffic_limit,
        node.traffic_limit_type@ == n.traffic_mode@,
        node.traffic_used == n.month_used,
        node.traffic_period@ == "本月"@,
        told_text(node.expired_at, n.expires_at),
        node.has_metrics == (n.metrics is Some),
        n.metrics is Some ==> shows_metrics(node, n.metrics.unwrap()),
        n.metrics is None ==> {
            &&& node.cpu_usage.bits == 0
            &&& (node.ram_used, node.ram_total) == (0u64, 0u64)
            &&& (node.swap_used, node.swap_total) == (0u64, 0u64)
            &&& (node.disk_used, node.disk_total) == (0u64, 0u64)
            &&& node.net_up.bits == 0
            &&& node.net_down.bits == 0
            &&& node.tcp == 0
            &&& node.udp == 0
            &&& node.uptime_secs == 0
        },
{
    assert(node.tags@.len() == texts(node.tags@).len());
}

/// A frame's nodes are shown one for one.
pub proof fn frames_show_each_node(nodes: Seq<Node>, i: int)
    requires
        0 <= i < nodes.len(),
    ensures
        frame_facts(nodes).len() == nodes.len(),
        frame_facts(nodes)[i].uuid == "m:"@ + signed_digits(nodes[i].id as int),
        frame_facts(nodes)[i] == hub_node_facts(nodes[i]),
{
}

/// The nodes of a snapshot stand by their names, and are those that were given:
/// none more, none less, and those of one name in the order they came in.
pub proof fn nodes_stand_by_name(before: Seq<NodeFacts>, after: Seq<NodeFacts>, i: int, j: int, x: NodeFacts)
    requires
        sorted_from::<NodeSnapshot>(before, after),
    ensures
        0 <= i <= j < after.len() ==> text_le(after[i].name, after[j].name),
        after.len() == before.len(),
        before.contains(x) <==> after.contains(x),
        after.filter(|y: NodeFacts| text_le(x.name, y.name) && text_le(y.name, x.name))
            == before.filter(|y: NodeFacts| text_le(x.name, y.name) && text_le(y.name, x.name)),
{
    before.to_multiset_ensures();
    after.to_multiset_ensures();
    if 0 <= i <= j < after.len() {
        assert(NodeSnapshot::ranked_le(after[i], after[j]));
    }
    assert(before.to_multiset().count(x) > 0 <==> before.contains(x));
    assert(after.to_multiset().count(x) > 0 <==> after.contains(x));
    let same = tied::<NodeSnapshot>(after, x);
    assert(same == tied::<NodeSnapshot>(before, x));
    let by_rank = |y: NodeFacts| NodeSnapshot::ranked_le(x, y) && NodeSnapshot::ranked_le(y, x);
    let by_name = |y: NodeFacts| text_le(x.name, y.name) && text_le(y.name, x.name);
    assert(by_rank =~= by_name);
}

/// A snapshot says what it holds.
pub proof fn snapshots_say_what_they_hold(snap: MonitorSnapshot, i: int)
    ensures
        snap@.backend_ok == snap.backend_ok,
        snap@.last_update_ms == snap.last_update_ms,
        snap@.nodes.len() == snap.nodes@.len(),
        0 <= i < snap.nodes@.len() ==> snap@.nodes[i] == snap.nodes@[i]@,
        snap.error is Some ==> snap@.error == Some(snap.error.unwrap()@),
        snap.error is None ==> snap@.error is None,
{
}

/// A node says what it holds.
pub proof fn nodes_say_what_they_hold(node: NodeSnapshot, i: int)
    ensures
        node@.uuid == node.uuid@,
        node@.name == node.name@,
        node@.online == node.online,
        node@.region == node.region@,
        node@.os == node.os@,
        node@.group == node.group@,
        node@.tags.len() == node.tags@.len(),
        0 <= i < node.tags@.len() ==> node@.tags[i] == node.tags@[i]@,
        node@.latency == node.latency,
        node@.loss == node.loss,
        node@.cpu_usage == node.cpu_usage,
        node@.ram_used == node.ram_used,
        node@.ram_total == node.ram_total,
        node@.net_up == node.net_up,
        node@.net_down == node.net_down,
        node@.traffic_used == node.traffic_used,
        node@.has_metrics == node.has_metrics,
{
}

/// The live list has each known node, one for one.
pub proof fn live_lists_have_each_node(payload: WsPayload, nodes: Table<ClientInfo>, i: int)
    requires
        0 <= i < nodes.rows().len(),
    ensures
        known(nodes).len() == nodes.rows().len(),
        known(nodes)[i] == nodes.rows()[i].1@,
        live_list(payload, known(nodes)).len() == nodes.rows().len(),
        live_list(payload, known(nodes))[i] == live_facts(payload, nodes.rows()[i].1@),
{
}

/// A refusal tells the backend's status, and its message where it has one.
pub proof fn refusals_tell_what_the_backend_said(status: Seq<char>, m: Seq<char>)
    ensures
        refusal_text(status, None) == "后端返回错误: "@ + status,
        ("后端返回错误: "@ + status).is_prefix_of(refusal_text(status, Some(m))),
        ("（"@ + m + "）"@).is_suffix_of(refusal_text(status, Some(m))),
{
    let head = "后端返回错误: "@ + status;
    let tail = "（"@ + m + "）"@;
    assert(refusal_text(status, Some(m)) =~= head + tail);
    assert((head + tail).take(head.len() as int) =~= head);
    assert((head + tail).skip(head.len() as int) =~= tail);
}

/// A list of nodes is made known by a body that says it succeeded and has one.
pub proof fn lists_are_made_known_by_success(
    env: Envelope<Vec<ClientInfo>>,
    data: Vec<ClientInfo>,
    e: String,
)
    ensures
        env.status@ == "success"@ && env.data == Some(data) ==> known_in(Ok(env)) == Some(
            by_uuid(data@),
        ),
        env.status@ != "success"@ || env.data is None ==> known_in(Ok(env)) is None,
        known_in(Err(e)) is None,
{
}

/// A site is named by what stands under its name, without the white space
/// around it.
pub proof fn sites_are_named(
    body: Seq<char>,
    members: Map<Seq<char>, Json>,
    a: Seq<char>,
    s: Seq<char>,
    b: Seq<char>,
)
    requires
        json_read(body) == Some(Json::Object(members)),
        members.contains_key("site_name"@),
        members["site_name"@] == Json::Text(a + s + b),
        all_white(a),
        all_white(b),
        s.len() > 0 ==> !white(s[0]) && !white(s[s.len() - 1]),
    ensures
        s.len() > 0 ==> site_name_in(body) == Some(s),
        s.len() == 0 ==> site_name_in(body) is None,
{
    trimming_takes_off_padding(a, s, b);
}

} // verus!
