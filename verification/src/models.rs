//! Settings, snapshots, the figures summed over them and the tray icon's state.

use vstd::prelude::*;

use crate::arithmetic::{add_figures, divide_figures, multiply_figures, product, quotient, sum, total, total_of, whole, whole_figure};
pub use crate::clock::now_ms;
use crate::figure::{figure_of, Figure, HUNDRED_BITS, ONE_BITS, ZERO_BITS};
use crate::order::{views, Ranked};
use crate::rounding::{adding_never_lowers, parts_are_shares, shares_are_at_most_the_whole};
use crate::text::{not_after, same, strip_end, strip_end_is_a_prefix, stripped_end, text_if, text_le, text_order, texts, trim, trim_leaves_no_white_ends, trimmed, white};

pub use crate::calendar::{days_from_civil, parse_rfc3339_ms};
pub use crate::ping::{summarize_ping, PingData, PingPoint, PingSummary};
pub use crate::providers::komari::split_tags;
pub use crate::readout::{fmt_bytes, fmt_rate, fmt_uptime};
pub use crate::state::{NetFrame, NetPoint};
pub use crate::urls::{normalize_base, origin_of, ws_url_of};
pub use crate::wire::{ClientInfo, Conns, Envelope, Mem, NetStat, Report, Usage, WsPayload};

verus! {

// ---------------------------------------------------------------------------
// Settings
// ---------------------------------------------------------------------------

/// Which backend the settings name.
#[derive(Debug, Clone, Copy, PartialEq, Eq, Structural)]
pub enum BackendKind {
    /// Find out by asking the site.
    Auto,
    Komari,
    Monitor,
}

#[derive(Debug, Clone, Copy, PartialEq, Eq, Structural)]
pub enum ThemeMode {
    System,
    Light,
    Dark,
}

#[derive(Debug, Clone, Copy, PartialEq, Eq, Structural)]
pub enum TrayMode {
    Aggregate,
    Node,
}

/// The warning level for CPU where none is set: `80.0`.
pub const CPU_WARN_BITS: u64 = 0x4054_0000_0000_0000;

/// The warning level for memory where none is set: `85.0`.
pub const MEM_WARN_BITS: u64 = 0x4055_4000_0000_0000;

#[derive(Debug, Clone)]
pub struct Settings {
    pub backend_url: String,
    pub api_key: String,
    pub backend_kind: BackendKind,
    pub poll_interval_secs: u64,
    pub tray_mode: TrayMode,
    pub pinned_uuid: String,
    pub show_menu_bar_text: bool,
    pub cpu_warn_pct: Figure,
    pub mem_warn_pct: Figure,
    pub accept_invalid_certs: bool,
    pub theme: ThemeMode,
    pub silent_start: bool,
    pub chart_keep_open: bool,
}

/// What settings say.
#[verifier::ext_equal]
pub struct SettingsFacts {
    pub backend_url: Seq<char>,
    pub api_key: Seq<char>,
    pub backend_kind: BackendKind,
    pub poll_interval_secs: u64,
    pub tray_mode: TrayMode,
    pub pinned_uuid: Seq<char>,
    pub show_menu_bar_text: bool,
    pub cpu_warn_pct: Figure,
    pub mem_warn_pct: Figure,
    pub accept_invalid_certs: bool,
    pub theme: ThemeMode,
    pub silent_start: bool,
    pub chart_keep_open: bool,
}

impl View for Settings {
    type V = SettingsFacts;

    open spec fn view(&self) -> SettingsFacts {
        SettingsFacts {
            backend_url: self.backend_url@,
            api_key: self.api_key@,
            backend_kind: self.backend_kind,
            poll_interval_secs: self.poll_interval_secs,
            tray_mode: self.tray_mode,
            pinned_uuid: self.pinned_uuid@,
            show_menu_bar_text: self.show_menu_bar_text,
            cpu_warn_pct: self.cpu_warn_pct,
            mem_warn_pct: self.mem_warn_pct,
            accept_invalid_certs: self.accept_invalid_certs,
            theme: self.theme,
            silent_start: self.silent_start,
            chart_keep_open: self.chart_keep_open,
        }
    }
}

/// What settings say where nothing is set.
pub open spec fn default_settings() -> SettingsFacts {
    SettingsFacts {
        backend_url: Seq::empty(),
        api_key: Seq::empty(),
        backend_kind: BackendKind::Auto,
        poll_interval_secs: 3,
        tray_mode: TrayMode::Aggregate,
        pinned_uuid: Seq::empty(),
        show_menu_bar_text: true,
        cpu_warn_pct: figure_of(CPU_WARN_BITS),
        mem_warn_pct: figure_of(MEM_WARN_BITS),
        accept_invalid_certs: false,
        theme: ThemeMode::System,
        silent_start: false,
        chart_keep_open: false,
    }
}

impl Default for Settings {
    fn default() -> (settings: Self)
        ensures
            settings@ == default_settings(),
    {
        Settings {
            backend_url: String::new(),
            api_key: String::new(),
            backend_kind: BackendKind::Auto,
            poll_interval_secs: 3,
            tray_mode: TrayMode::Aggregate,
            pinned_uuid: String::new(),
            show_menu_bar_text: true,
            cpu_warn_pct: Figure { bits: CPU_WARN_BITS },
            mem_warn_pct: Figure { bits: MEM_WARN_BITS },
            accept_invalid_certs: false,
            theme: ThemeMode::System,
            silent_start: false,
            chart_keep_open: false,
        }
    }
}

/// An address without white space around it and without slashes at its end.
pub open spec fn bare_url(raw: Seq<char>) -> Seq<char> {
    strip_end(trim(raw), '/')
}

/// A number held to the range from `low` to `high`.
pub open spec fn held(n: int, low: int, high: int) -> int {
    if n < low {
        low
    } else if n > high {
        high
    } else {
        n
    }
}

/// Settings made fit for use.
pub open spec fn tidied(s: SettingsFacts) -> SettingsFacts {
    SettingsFacts {
        backend_url: bare_url(s.backend_url),
        api_key: trim(s.api_key),
        poll_interval_secs: held(s.poll_interval_secs as int, 1, 60) as u64,
        tray_mode: if trim(s.pinned_uuid).len() == 0 {
            TrayMode::Aggregate
        } else {
            s.tray_mode
        },
        cpu_warn_pct: s.cpu_warn_pct.clamped(figure_of(ONE_BITS), figure_of(HUNDRED_BITS)),
        mem_warn_pct: s.mem_warn_pct.clamped(figure_of(ONE_BITS), figure_of(HUNDRED_BITS)),
        ..s
    }
}

impl Settings {
    pub fn sanitized(self) -> (res: Self)
        ensures
            res@ == tidied(self@),
    {
        let low = Figure { bits: ONE_BITS };
        let high = Figure { bits: HUNDRED_BITS };
        Settings {
            backend_url: stripped_end(trimmed(self.backend_url.as_str()).as_str(), '/'),
            api_key: trimmed(self.api_key.as_str()),
            backend_kind: self.backend_kind,
            poll_interval_secs: if self.poll_interval_secs < 1 {
                1
            } else if self.poll_interval_secs > 60 {
                60
            } else {
                self.poll_interval_secs
            },
            tray_mode: if trimmed(self.pinned_uuid.as_str()).as_str().is_empty() {
                TrayMode::Aggregate
            } else {
                self.tray_mode
            },
            pinned_uuid: self.pinned_uuid,
            show_menu_bar_text: self.show_menu_bar_text,
            cpu_warn_pct: self.cpu_warn_pct.clamp(low, high),
            mem_warn_pct: self.mem_warn_pct.clamp(low, high),
            accept_invalid_certs: self.accept_invalid_certs,
            theme: self.theme,
            silent_start: self.silent_start,
            chart_keep_open: self.chart_keep_open,
        }
    }

    /// Settings that say the same.
    pub fn copied(&self) -> (res: Self)
        ensures
            res@ == self@,
    {
        Settings {
            backend_url: self.backend_url.clone(),
            api_key: self.api_key.clone(),
            backend_kind: self.backend_kind,
            poll_interval_secs: self.poll_interval_secs,
            tray_mode: self.tray_mode,
            pinned_uuid: self.pinned_uuid.clone(),
            show_menu_bar_text: self.show_menu_bar_text,
            cpu_warn_pct: self.cpu_warn_pct,
            mem_warn_pct: self.mem_warn_pct,
            accept_invalid_certs: self.accept_invalid_certs,
            theme: self.theme,
            silent_start: self.silent_start,
            chart_keep_open: self.chart_keep_open,
        }
    }
}

/// Settings made fit are within their ranges: a poll interval from one second
/// to a minute, warning levels from 1 to 100 per cent, an address that does
/// not end in a slash, and a pinned node wherever one node is to be shown.
pub proof fn tidied_settings_are_in_range(s: SettingsFacts)
    ensures
        1 <= tidied(s).poll_interval_secs <= 60,
        !s.cpu_warn_pct.nan() ==> figure_of(ONE_BITS).at_most(tidied(s).cpu_warn_pct)
            && tidied(s).cpu_warn_pct.at_most(figure_of(HUNDRED_BITS)),
        !s.mem_warn_pct.nan() ==> figure_of(ONE_BITS).at_most(tidied(s).mem_warn_pct)
            && tidied(s).mem_warn_pct.at_most(figure_of(HUNDRED_BITS)),
        tidied(s).backend_url.len() > 0 ==> tidied(s).backend_url.last() != '/' && !white(
            tidied(s).backend_url[0],
        ),
        tidied(s).tray_mode is Node ==> trim(tidied(s).pinned_uuid).len() > 0,
{
    strip_end_is_a_prefix(trim(s.backend_url), '/');
    trim_leaves_no_white_ends(s.backend_url);
}

/// Settings made fit stay as they are when made fit again, unless taking the
/// slashes off the address has left white space at its end.
pub proof fn tidying_settings_is_idempotent(s: SettingsFacts)
    requires
        bare_url(s.backend_url).len() > 0 ==> !white(bare_url(s.backend_url).last()),
    ensures
        tidied(tidied(s)) == tidied(s),
{
    bare_url_is_stable(s.backend_url);
    trim_leaves_no_white_ends(s.api_key);
    trim_leaves_no_white_ends(s.pinned_uuid);
    assert(tidied(tidied(s)) =~= tidied(s));
}

/// A bare address is its own bare form, unless white space is left at its end.
pub proof fn bare_url_is_stable(raw: Seq<char>)
    requires
        bare_url(raw).len() > 0 ==> !white(bare_url(raw).last()),
    ensures
        bare_url(bare_url(raw)) == bare_url(raw),
{
    let bare = bare_url(raw);
    strip_end_is_a_prefix(trim(raw), '/');
    trim_leaves_no_white_ends(raw);
    if bare.len() > 0 {
        assert(bare[0] == trim(raw)[0]);
        assert(crate::text::trim_start(bare) == bare);
        assert(crate::text::trim_end(bare) == bare);
    } else {
        assert(trim(bare) == bare);
    }
}

// ---------------------------------------------------------------------------
// Snapshots
// ---------------------------------------------------------------------------

#[derive(Debug, Clone)]
pub struct NodeSnapshot {
    pub uuid: String,
    pub name: String,
    pub online: bool,
    pub region: String,
    pub os: String,
    pub group: String,
    pub tags: Vec<String>,
    /// Milliseconds.
    pub latency: Option<Figure>,
    /// A share from 0 to 1.
    pub loss: Option<Figure>,
    pub cpu_usage: Figure,
    pub ram_used: u64,
    pub ram_total: u64,
    pub swap_used: u64,
    pub swap_total: u64,
    pub disk_used: u64,
    pub disk_total: u64,
    /// B/s
    pub net_up: Figure,
    /// B/s
    pub net_down: Figure,
    pub total_up: u64,
    pub total_down: u64,
    pub traffic_limit: u64,
    pub traffic_limit_type: String,
    /// What the quota is billed for, over `traffic_period`.
    pub traffic_used: u64,
    pub traffic_period: String,
    pub expired_at: Option<String>,
    pub tcp: u64,
    pub udp: u64,
    pub uptime_secs: u64,
    /// Whether the node has reported at all.
    pub has_metrics: bool,
}

/// What a node's snapshot says.
#[verifier::ext_equal]
pub struct NodeFacts {
    pub uuid: Seq<char>,
    pub name: Seq<char>,
    pub online: bool,
    pub region: Seq<char>,
    pub os: Seq<char>,
    pub group: Seq<char>,
    pub tags: Seq<Seq<char>>,
    pub latency: Option<Figure>,
    pub loss: Option<Figure>,
    pub cpu_usage: Figure,
    pub ram_used: u64,
    pub ram_total: u64,
    pub swap_used: u64,
    pub swap_total: u64,
    pub disk_used: u64,
    pub disk_total: u64,
    pub net_up: Figure,
    pub net_down: Figure,
    pub total_up: u64,
    pub total_down: u64,
    pub traffic_limit: u64,
    pub traffic_limit_type: Seq<char>,
    pub traffic_used: u64,
    pub traffic_period: Seq<char>,
    pub expired_at: Option<Seq<char>>,
    pub tcp: u64,
    pub udp: u64,
    pub uptime_secs: u64,
    pub has_metrics: bool,
}

impl View for NodeSnapshot {
    type V = NodeFacts;

    open spec fn view(&self) -> NodeFacts {
        NodeFacts {
            uuid: self.uuid@,
            name: self.name@,
            online: self.online,
            region: self.region@,
            os: self.os@,
            group: self.group@,
            tags: texts(self.tags@),
            latency: self.latency,
            loss: self.loss,
            cpu_usage: self.cpu_usage,
            ram_used: self.ram_used,
            ram_total: self.ram_total,
            swap_used: self.swap_used,
            swap_total: self.swap_total,
            disk_used: self.disk_used,
            disk_total: self.disk_total,
            net_up: self.net_up,
            net_down: self.net_down,
            total_up: self.total_up,
            total_down: self.total_down,
            traffic_limit: self.traffic_limit,
            traffic_limit_type: self.traffic_limit_type@,
            traffic_used: self.traffic_used,
            traffic_period: self.traffic_period@,
            expired_at: text_if(self.expired_at),
            tcp: self.tcp,
            udp: self.udp,
            uptime_secs: self.uptime_secs,
            has_metrics: self.has_metrics,
        }
    }
}

/// Nodes are listed by name.
impl Ranked for NodeSnapshot {
    open spec fn ranked_le(a: NodeFacts, b: NodeFacts) -> bool {
        text_le(a.name, b.name)
    }

    proof fn rank_is_an_order(a: NodeFacts, b: NodeFacts, c: NodeFacts) {
        text_order(a.name, b.name, c.name);
    }

    fn not_after(&self, other: &NodeSnapshot) -> (res: bool) {
        not_after(self.name.as_str(), other.name.as_str())
    }
}

#[derive(Debug, Clone)]
pub struct MonitorSnapshot {
    pub backend_ok: bool,
    pub error: Option<String>,
    pub nodes: Vec<NodeSnapshot>,
    pub last_update_ms: u64,
}

/// What a snapshot of all nodes says.
#[verifier::ext_equal]
pub struct SnapshotFacts {
    pub backend_ok: bool,
    pub error: Option<Seq<char>>,
    pub nodes: Seq<NodeFacts>,
    pub last_update_ms: u64,
}

impl View for MonitorSnapshot {
    type V = SnapshotFacts;

    open spec fn view(&self) -> SnapshotFacts {
        SnapshotFacts {
            backend_ok: self.backend_ok,
            error: text_if(self.error),
            nodes: views(self.nodes@),
            last_update_ms: self.last_update_ms,
        }
    }
}

impl MonitorSnapshot {
    /// No backend and no nodes, as of now.
    pub fn offline(error: &str) -> (snap: Self)
        ensures
            snap@ == (SnapshotFacts {
                backend_ok: false,
                error: Some(error@),
                nodes: Seq::empty(),
                last_update_ms: snap.last_update_ms,
            }),
    {
        MonitorSnapshot::offline_at(error, now_ms())
    }

    /// No backend and no nodes, as of a given time.
    pub fn offline_at(error: &str, now: u64) -> (snap: Self)
        ensures
            snap@ == (SnapshotFacts {
                backend_ok: false,
                error: Some(error@),
                nodes: Seq::empty(),
                last_update_ms: now,
            }),
    {
        let snap = MonitorSnapshot {
            backend_ok: false,
            error: Some(error.to_owned()),
            nodes: Vec::new(),
            last_update_ms: now,
        };
        assert(snap@.nodes =~= Seq::<NodeFacts>::empty());
        snap
    }

    /// What a backend that answers has to say of its nodes.
    pub fn live(nodes: Vec<NodeSnapshot>, now: u64) -> (snap: Self)
        ensures
            snap@ == (SnapshotFacts {
                backend_ok: true,
                error: None,
                nodes: views(nodes@),
                last_update_ms: now,
            }),
            snap.nodes == nodes,
    {
        MonitorSnapshot { backend_ok: true, error: None, nodes, last_update_ms: now }
    }
}

// ---------------------------------------------------------------------------
// Figures over several nodes
// ---------------------------------------------------------------------------

#[derive(Debug, Clone, Copy)]
pub struct Aggregate {
    pub online: usize,
    pub total: usize,
    pub cpu: Figure,
    pub mem_pct: Figure,
    pub ram_used: u64,
    pub ram_total: u64,
    pub net_up: Figure,
    pub net_down: Figure,
    pub total_up: u64,
    pub total_down: u64,
}

impl Default for Aggregate {
    fn default() -> (res: Self)
        ensures
            res == (Aggregate {
                online: 0,
                total: 0,
                cpu: figure_of(ZERO_BITS),
                mem_pct: figure_of(ZERO_BITS),
                ram_used: 0,
                ram_total: 0,
                net_up: figure_of(ZERO_BITS),
                net_down: figure_of(ZERO_BITS),
                total_up: 0,
                total_down: 0,
            }),
    {
        let zero = Figure { bits: ZERO_BITS };
        Aggregate {
            online: 0,
            total: 0,
            cpu: zero,
            mem_pct: zero,
            ram_used: 0,
            ram_total: 0,
            net_up: zero,
            net_down: zero,
            total_up: 0,
            total_down: 0,
        }
    }
}

/// The nodes that one tray mode covers: all of them, or those pinned. Where
/// no node is the pinned one, all of them.
pub open spec fn in_scope(settings: SettingsFacts, nodes: Seq<NodeSnapshot>) -> Seq<NodeSnapshot> {
    let pinned = nodes.filter(|n: NodeSnapshot| n.uuid@ == settings.pinned_uuid);
    if settings.tray_mode is Node && pinned.len() > 0 {
        pinned
    } else {
        nodes
    }
}

/// The nodes behind a list of references.
pub open spec fn referred(list: Seq<&NodeSnapshot>) -> Seq<NodeSnapshot> {
    list.map_values(|n: &NodeSnapshot| *n)
}

/// Nodes covered by the current tray mode: all nodes, or the pinned one
/// (falling back to all when the pinned node vanished from the backend).
pub fn scoped_nodes<'a>(settings: &Settings, nodes: &'a [NodeSnapshot]) -> (res: Vec<
    &'a NodeSnapshot,
>)
    ensures
        referred(res@) == in_scope(settings@, nodes@),
{
    let mut every: Vec<&'a NodeSnapshot> = Vec::new();
    let mut pinned: Vec<&'a NodeSnapshot> = Vec::new();
    let ghost is_pinned = |n: NodeSnapshot| n.uuid@ == settings@.pinned_uuid;
    let mut i: usize = 0;
    proof {
        reveal(Seq::filter);
        assert(nodes@.take(0) =~= Seq::<NodeSnapshot>::empty());
        assert(referred(every@) =~= nodes@.take(0));
        assert(referred(pinned@) =~= nodes@.take(0).filter(is_pinned));
    }
    while i < nodes.len()
        invariant
            i <= nodes@.len(),
            referred(every@) == nodes@.take(i as int),
            is_pinned == (|n: NodeSnapshot| n.uuid@ == settings@.pinned_uuid),
            referred(pinned@) == nodes@.take(i as int).filter(is_pinned),
        decreases nodes@.len() - i,
    {
        let node = &nodes[i];
        let ghost seen = every@;
        let ghost kept = pinned@;
        proof {
            reveal(Seq::filter);
            assert(nodes@.take(i + 1).drop_last() =~= nodes@.take(i as int));
            assert(nodes@.take(i + 1) =~= nodes@.take(i as int).push(*node));
        }
        every.push(node);
        assert(referred(every@) =~= referred(seen).push(*node));
        if same(node.uuid.as_str(), settings.pinned_uuid.as_str()) {
            pinned.push(node);
            assert(referred(pinned@) =~= referred(kept).push(*node));
        }
        i = i + 1;
    }
    assert(nodes@.take(i as int) =~= nodes@);
    let one = match settings.tray_mode {
        TrayMode::Node => true,
        TrayMode::Aggregate => false,
    };
    if one && pinned.len() > 0 {
        pinned
    } else {
        every
    }
}

/// A tray mode covers some node wherever there is one, and only nodes there are.
pub proof fn scope_is_never_empty(settings: SettingsFacts, nodes: Seq<NodeSnapshot>)
    requires
        nodes.len() > 0,
    ensures
        in_scope(settings, nodes).len() > 0,
        forall|i: int|
            0 <= i < in_scope(settings, nodes).len() ==> nodes.contains(
                #[trigger] in_scope(settings, nodes)[i],
            ),
{
    let is_pinned = |n: NodeSnapshot| n.uuid@ == settings.pinned_uuid;
    assert forall|i: int| 0 <= i < in_scope(settings, nodes).len() implies nodes.contains(
        #[trigger] in_scope(settings, nodes)[i],
    ) by {
        let kept = nodes.filter(is_pinned);
        if settings.tray_mode is Node && kept.len() > 0 {
            nodes.lemma_filter_contains_rev(is_pinned, kept[i]);
        }
    }
}

/// A percentage of a total; nothing where there is no total.
pub open spec fn percent(used: u64, total: u64) -> Option<Figure> {
    if total == 0 {
        None
    } else {
        Some(
            product(
                quotient(whole(used as nat), whole(total as nat)),
                figure_of(HUNDRED_BITS),
            ),
        )
    }
}

pub fn pct(used: u64, total: u64) -> (res: Option<Figure>)
    ensures
        res == percent(used, total),
{
    if total == 0 {
        None
    } else {
        let share = divide_figures(whole_figure(used), whole_figure(total));
        Some(multiply_figures(share, Figure { bits: HUNDRED_BITS }))
    }
}

/// A percentage, zero where there is no total.
pub open spec fn percent_or_zero(used: u64, total: u64) -> Figure {
    match percent(used, total) {
        Some(value) => value,
        None => figure_of(ZERO_BITS),
    }
}

fn pct_or_zero(used: u64, total: u64) -> (res: Figure)
    ensures
        res == percent_or_zero(used, total),
{
    match pct(used, total) {
        Some(value) => value,
        None => Figure { bits: ZERO_BITS },
    }
}

/// Where no more is used than there is, a percentage is from 0 to 100.
pub proof fn percentages_stay_on_the_scale(used: u64, total: u64)
    requires
        used <= total,
    ensures
        figure_of(ZERO_BITS).at_most(percent_or_zero(used, total)),
        percent_or_zero(used, total).at_most(figure_of(HUNDRED_BITS)),
{
    if total > 0 {
        parts_are_shares(used as nat, total as nat);
        shares_are_at_most_the_whole(
            quotient(whole(used as nat), whole(total as nat)),
            figure_of(HUNDRED_BITS),
        );
    }
}

/// The nodes of a list that are online.
pub open spec fn online_of(nodes: Seq<NodeSnapshot>) -> Seq<NodeSnapshot> {
    nodes.filter(|n: NodeSnapshot| n.online)
}

/// The sum of whole numbers, without a limit.
pub open spec fn sum_of(list: Seq<u64>) -> nat
    decreases list.len(),
{
    if list.len() == 0 {
        0
    } else {
        sum_of(list.drop_last()) + list.last() as nat
    }
}

proof fn sum_of_grows(list: Seq<u64>, n: int)
    requires
        0 <= n <= list.len(),
    ensures
        sum_of(list.take(n)) <= sum_of(list),
    decreases list.len() - n,
{
    if n < list.len() {
        sum_of_grows(list, n + 1);
        assert(list.take(n + 1).drop_last() =~= list.take(n));
    } else {
        assert(list.take(n) =~= list);
    }
}

fn sum_within(list: &Vec<u64>) -> (res: Option<u64>)
    ensures
        match res {
            Some(n) => n == sum_of(list@),
            None => sum_of(list@) > u64::MAX,
        },
{
    let mut n: u64 = 0;
    let mut i: usize = 0;
    assert(list@.take(0) =~= Seq::<u64>::empty());
    while i < list.len()
        invariant
            i <= list@.len(),
            n == sum_of(list@.take(i as int)),
        decreases list@.len() - i,
    {
        proof {
            assert(list@.take(i + 1).drop_last() =~= list@.take(i as int));
            sum_of_grows(list@, i + 1);
        }
        match n.checked_add(list[i]) {
            Some(next) => {
                n = next;
            },
            None => {
                return None;
            },
        }
        i = i + 1;
    }
    assert(list@.take(i as int) =~= list@);
    Some(n)
}

pub open spec fn ram_used_of(nodes: Seq<NodeSnapshot>) -> Seq<u64> {
    nodes.map_values(|n: NodeSnapshot| n.ram_used)
}

pub open spec fn ram_total_of(nodes: Seq<NodeSnapshot>) -> Seq<u64> {
    nodes.map_values(|n: NodeSnapshot| n.ram_total)
}

pub open spec fn sent_of(nodes: Seq<NodeSnapshot>) -> Seq<u64> {
    nodes.map_values(|n: NodeSnapshot| n.total_up)
}

pub open spec fn received_of(nodes: Seq<NodeSnapshot>) -> Seq<u64> {
    nodes.map_values(|n: NodeSnapshot| n.total_down)
}

pub open spec fn cpu_of(nodes: Seq<NodeSnapshot>) -> Seq<Figure> {
    nodes.map_values(|n: NodeSnapshot| n.cpu_usage)
}

pub open spec fn up_of(nodes: Seq<NodeSnapshot>) -> Seq<Figure> {
    nodes.map_values(|n: NodeSnapshot| n.net_up)
}

pub open spec fn down_of(nodes: Seq<NodeSnapshot>) -> Seq<Figure> {
    nodes.map_values(|n: NodeSnapshot| n.net_down)
}

/// Whether the byte counts summed over the online nodes fit.
pub open spec fn sums_fit(nodes: Seq<NodeSnapshot>) -> bool {
    let online = online_of(nodes);
    &&& sum_of(ram_used_of(online)) <= u64::MAX
    &&& sum_of(ram_total_of(online)) <= u64::MAX
    &&& sum_of(sent_of(online)) <= u64::MAX
    &&& sum_of(received_of(online)) <= u64::MAX
}

/// The figures over a list of nodes: bytes and rates are summed over those
/// online, CPU is their mean.
pub open spec fn aggregate_of(nodes: Seq<NodeSnapshot>) -> Aggregate {
    let online = online_of(nodes);
    let used = sum_of(ram_used_of(online)) as u64;
    let available = sum_of(ram_total_of(online)) as u64;
    Aggregate {
        online: online.len() as usize,
        total: nodes.len() as usize,
        cpu: quotient(
            total(cpu_of(online)),
            whole(
                if online.len() == 0 {
                    1
                } else {
                    online.len()
                },
            ),
        ),
        mem_pct: percent_or_zero(used, available),
        ram_used: used,
        ram_total: available,
        net_up: total(up_of(online)),
        net_down: total(down_of(online)),
        total_up: sum_of(sent_of(online)) as u64,
        total_down: sum_of(received_of(online)) as u64,
    }
}

/// The figures over a list of nodes, or nothing where a sum does not fit.
pub fn aggregate_within(nodes: &[&NodeSnapshot]) -> (res: Option<Aggregate>)
    ensures
        match res {
            Some(figures) => sums_fit(referred(nodes@)) && figures == aggregate_of(
                referred(nodes@),
            ),
            None => !sums_fit(referred(nodes@)),
        },
{
    let ghost all = referred(nodes@);
    let ghost is_online = |n: NodeSnapshot| n.online;
    let mut used: Vec<u64> = Vec::new();
    let mut available: Vec<u64> = Vec::new();
    let mut sent: Vec<u64> = Vec::new();
    let mut received: Vec<u64> = Vec::new();
    let mut cpu: Vec<Figure> = Vec::new();
    let mut up: Vec<Figure> = Vec::new();
    let mut down: Vec<Figure> = Vec::new();
    let mut i: usize = 0;
    proof {
        reveal(Seq::filter);
        assert(all.take(0) =~= Seq::<NodeSnapshot>::empty());
        assert(online_of(all.take(0)) =~= Seq::<NodeSnapshot>::empty());
    }
    while i < nodes.len()
        invariant
            i <= nodes@.len(),
            all == referred(nodes@),
            used@ == ram_used_of(online_of(all.take(i as int))),
            available@ == ram_total_of(online_of(all.take(i as int))),
            sent@ == sent_of(online_of(all.take(i as int))),
            received@ == received_of(online_of(all.take(i as int))),
            cpu@ == cpu_of(online_of(all.take(i as int))),
            up@ == up_of(online_of(all.take(i as int))),
            down@ == down_of(online_of(all.take(i as int))),
        decreases nodes@.len() - i,
    {
        let node = nodes[i];
        proof {
            reveal(Seq::filter);
            assert(all.take(i + 1).drop_last() =~= all.take(i as int));
            assert(all.take(i + 1).last() == *node);
        }
        if node.online {
            used.push(node.ram_used);
            available.push(node.ram_total);
            sent.push(node.total_up);
            received.push(node.total_down);
            cpu.push(node.cpu_usage);
            up.push(node.net_up);
            down.push(node.net_down);
        }
        i = i + 1;
    }
    assert(all.take(i as int) =~= all);
    proof {
        all.lemma_filter_len(is_online);
    }
    let count: u64 = if cpu.len() == 0 {
        1
    } else {
        cpu.len() as u64
    };
    match (sum_within(&used), sum_within(&available), sum_within(&sent), sum_within(&received)) {
        (Some(ram_used), Some(ram_total), Some(total_up), Some(total_down)) => Some(
            Aggregate {
                online: cpu.len(),
                total: nodes.len(),
                cpu: divide_figures(total_of(&cpu), whole_figure(count)),
                mem_pct: pct_or_zero(ram_used, ram_total),
                ram_used,
                ram_total,
                net_up: total_of(&up),
                net_down: total_of(&down),
                total_up,
                total_down,
            },
        ),
        _ => None,
    }
}

/// The figures over a list of nodes whose byte counts fit.
pub fn aggregate(nodes: &[&NodeSnapshot]) -> (res: Aggregate)
    requires
        sums_fit(referred(nodes@)),
    ensures
        res == aggregate_of(referred(nodes@)),
{
    aggregate_within(nodes).unwrap()
}

/// No more nodes are online than there are, and offline ones count for
/// nothing else.
pub proof fn aggregate_counts_only_online_nodes(nodes: Seq<NodeSnapshot>)
    requires
        nodes.len() <= usize::MAX,
    ensures
        aggregate_of(nodes).online <= aggregate_of(nodes).total,
        aggregate_of(online_of(nodes)) == (Aggregate {
            total: aggregate_of(nodes).online,
            ..aggregate_of(nodes)
        }),
{
    let is_online = |n: NodeSnapshot| n.online;
    nodes.lemma_filter_len(is_online);
    online_twice(nodes);
}

proof fn online_twice(nodes: Seq<NodeSnapshot>)
    ensures
        online_of(online_of(nodes)) == online_of(nodes),
    decreases nodes.len(),
{
    reveal(Seq::filter);
    let is_online = |n: NodeSnapshot| n.online;
    if nodes.len() > 0 {
        online_twice(nodes.drop_last());
        let kept = online_of(nodes.drop_last());
        if nodes.last().online {
            assert(online_of(nodes) == kept.push(nodes.last()));
            assert(kept.push(nodes.last()).drop_last() =~= kept);
        }
    }
}

// ---------------------------------------------------------------------------
// Severity for the tray icon
// ---------------------------------------------------------------------------

#[derive(Debug, Clone, Copy, PartialEq, Eq, Structural)]
pub enum Severity {
    Normal,
    Warn,
    Error,
    Down,
}

#[derive(Debug, Clone, Copy, PartialEq, Eq, Structural)]
pub struct IconState {
    pub severity: Severity,
    /// Worst metric (CPU or memory) in percent, when available.
    pub gauge: Option<Figure>,
    pub badge: bool,
}

/// How far above its warning level a metric counts as an error: `15.0`.
pub const ERR_ABOVE_WARN_BITS: u64 = 0x402E_0000_0000_0000;

/// One metric of one node, with its warning level.
pub struct Reading {
    pub value: Figure,
    pub warn: Figure,
}

/// The two metrics of every node, in turn.
pub open spec fn readings_of(settings: SettingsFacts, nodes: Seq<NodeSnapshot>) -> Seq<Reading>
    decreases nodes.len(),
{
    if nodes.len() == 0 {
        Seq::empty()
    } else {
        let node = nodes.last();
        readings_of(settings, nodes.drop_last()).push(
            Reading { value: node.cpu_usage, warn: settings.cpu_warn_pct },
        ).push(
            Reading {
                value: percent_or_zero(node.ram_used, node.ram_total),
                warn: settings.mem_warn_pct,
            },
        )
    }
}

/// The level at which a metric counts as an error.
pub open spec fn err_level(warn: Figure) -> Figure {
    sum(warn, figure_of(ERR_ABOVE_WARN_BITS)).smaller(figure_of(HUNDRED_BITS))
}

/// What one metric says.
pub open spec fn severity_of(reading: Reading) -> Severity {
    if err_level(reading.warn).at_most(reading.value) {
        Severity::Error
    } else if reading.warn.at_most(reading.value) {
        Severity::Warn
    } else {
        Severity::Normal
    }
}

/// An error is never below its warning level: with a level from 1 to 100, a
/// metric needs attention exactly where it has reached its level.
pub proof fn errors_are_warnings_too(reading: Reading)
    requires
        figure_of(ONE_BITS).at_most(reading.warn),
        reading.warn.at_most(figure_of(HUNDRED_BITS)),
    ensures
        severity_of(reading) is Normal <==> !reading.warn.at_most(reading.value),
        severity_of(reading) !is Down,
{
    adding_never_lowers(reading.warn, figure_of(ERR_ABOVE_WARN_BITS));
}

/// The worst that any metric says.
pub open spec fn worst_severity(readings: Seq<Reading>) -> Severity {
    if exists|i: int| 0 <= i < readings.len() && severity_of(#[trigger] readings[i]) is Error {
        Severity::Error
    } else if exists|i: int| 0 <= i < readings.len() && severity_of(#[trigger] readings[i]) is Warn {
        Severity::Warn
    } else {
        Severity::Normal
    }
}

/// A metric held to the scale of the gauge.
pub open spec fn on_scale(value: Figure) -> Figure {
    value.clamped(figure_of(ZERO_BITS), figure_of(HUNDRED_BITS))
}

/// The gauge after a run of metrics: it moves to each one that is above it.
pub open spec fn gauge_of(readings: Seq<Reading>) -> Option<Figure>
    decreases readings.len(),
{
    if readings.len() == 0 {
        None
    } else {
        let value = readings.last().value;
        match gauge_of(readings.drop_last()) {
            None => Some(on_scale(value)),
            Some(gauge) => if gauge.below(value) {
                Some(on_scale(value))
            } else {
                Some(gauge)
            },
        }
    }
}

/// The icon for a snapshot.
pub open spec fn icon_of(settings: SettingsFacts, snap: MonitorSnapshot) -> IconState {
    let scope = in_scope(settings, snap.nodes@);
    let online = online_of(scope);
    if !snap.backend_ok || scope.len() == 0 {
        IconState { severity: Severity::Down, gauge: None, badge: false }
    } else if online.len() == 0 {
        IconState { severity: Severity::Error, gauge: None, badge: false }
    } else {
        let readings = readings_of(settings, online);
        IconState {
            severity: worst_severity(readings),
            gauge: gauge_of(readings),
            badge: settings.tray_mode is Aggregate && online.len() < scope.len(),
        }
    }
}

spec fn rank_of(s: Severity) -> u8 {
    match s {
        Severity::Normal => 0,
        Severity::Warn => 1,
        Severity::Error => 2,
        Severity::Down => 3,
    }
}

fn rank(s: Severity) -> (res: u8)
    ensures
        res == rank_of(s),
{
    match s {
        Severity::Normal => 0,
        Severity::Warn => 1,
        Severity::Error => 2,
        Severity::Down => 3,
    }
}

fn err_threshold(warn: Figure) -> (res: Figure)
    ensures
        res == err_level(warn),
{
    add_figures(warn, Figure { bits: ERR_ABOVE_WARN_BITS }).min(Figure { bits: HUNDRED_BITS })
}

/// Take one more metric into account.
fn take_reading(value: Figure, warn: Figure, severity: Severity, gauge: Option<Figure>) -> (res: (
    Severity,
    Option<Figure>,
))
    ensures
        rank_of(res.0) == if rank_of(severity_of(Reading { value, warn })) > rank_of(severity) {
            rank_of(severity_of(Reading { value, warn }))
        } else {
            rank_of(severity)
        },
        res.1 == (match gauge {
            None => Some(on_scale(value)),
            Some(g) => if g.below(value) {
                Some(on_scale(value))
            } else {
                Some(g)
            },
        }),
{
    let s: Severity = if err_threshold(warn).le(value) {
        Severity::Error
    } else if warn.le(value) {
        Severity::Warn
    } else {
        Severity::Normal
    };
    let higher = match gauge {
        None => true,
        Some(g) => g.lt(value),
    };
    let next = if higher {
        Some(value.clamp(Figure { bits: ZERO_BITS }, Figure { bits: HUNDRED_BITS }))
    } else {
        gauge
    };
    if rank(s) > rank(severity) {
        (s, next)
    } else {
        (severity, next)
    }
}

proof fn worst_grows(readings: Seq<Reading>, reading: Reading)
    ensures
        rank_of(worst_severity(readings.push(reading))) == if rank_of(severity_of(reading))
            > rank_of(worst_severity(readings)) {
            rank_of(severity_of(reading))
        } else {
            rank_of(worst_severity(readings))
        },
{
    let more = readings.push(reading);
    assert(more[readings.len() as int] == reading);
    assert forall|i: int| 0 <= i < readings.len() implies #[trigger] more[i] == readings[i] by {}
    if exists|i: int| 0 <= i < readings.len() && severity_of(#[trigger] readings[i]) is Error {
        let i = choose|i: int| 0 <= i < readings.len() && severity_of(#[trigger] readings[i]) is Error;
        assert(severity_of(more[i]) is Error);
    }
    if exists|i: int| 0 <= i < more.len() && severity_of(#[trigger] more[i]) is Error {
        let i = choose|i: int| 0 <= i < more.len() && severity_of(#[trigger] more[i]) is Error;
        if i < readings.len() {
            assert(severity_of(readings[i]) is Error);
        }
    }
    if exists|i: int| 0 <= i < readings.len() && severity_of(#[trigger] readings[i]) is Warn {
        let i = choose|i: int|
            0 <= i < readings.len() && severity_of(#[trigger] readings[i]) is Warn;
        assert(severity_of(more[i]) is Warn);
    }
    if exists|i: int| 0 <= i < more.len() && severity_of(#[trigger] more[i]) is Warn {
        let i = choose|i: int| 0 <= i < more.len() && severity_of(#[trigger] more[i]) is Warn;
        if i < readings.len() {
            assert(severity_of(readings[i]) is Warn);
        }
    }
}

pub fn icon_state(settings: &Settings, snap: &MonitorSnapshot) -> (res: IconState)
    ensures
        res == icon_of(settings@, *snap),
{
    let down = IconState { severity: Severity::Down, gauge: None, badge: false };
    if !snap.backend_ok {
        return down;
    }
    let scope = scoped_nodes(settings, snap.nodes.as_slice());
    let ghost nodes = referred(scope@);
    if scope.len() == 0 {
        return down;
    }
    let mut offline: usize = 0;
    let mut severity = Severity::Normal;
    let mut gauge: Option<Figure> = None;
    let mut i: usize = 0;
    proof {
        reveal(Seq::filter);
        assert(nodes.take(0) =~= Seq::<NodeSnapshot>::empty());
        assert(online_of(nodes.take(0)) =~= Seq::<NodeSnapshot>::empty());
    }
    while i < scope.len()
        invariant
            i <= scope@.len(),
            nodes == referred(scope@),
            offline <= i,
            online_of(nodes.take(i as int)).len() == i - offline,
            rank_of(severity) == rank_of(
                worst_severity(readings_of(settings@, online_of(nodes.take(i as int)))),
            ),
            gauge == gauge_of(readings_of(settings@, online_of(nodes.take(i as int)))),
        decreases scope@.len() - i,
    {
        let node = scope[i];
        let ghost seen = online_of(nodes.take(i as int));
        proof {
            reveal(Seq::filter);
            assert(nodes.take(i + 1).drop_last() =~= nodes.take(i as int));
            assert(nodes.take(i + 1).last() == *node);
        }
        if node.online {
            let memory = pct_or_zero(node.ram_used, node.ram_total);
            let after_cpu = take_reading(node.cpu_usage, settings.cpu_warn_pct, severity, gauge);
            let after_mem = take_reading(
                memory,
                settings.mem_warn_pct,
                after_cpu.0,
                after_cpu.1,
            );
            proof {
                let before = readings_of(settings@, seen);
                let first = Reading { value: node.cpu_usage, warn: settings.cpu_warn_pct };
                let second = Reading { value: memory, warn: settings.mem_warn_pct };
                worst_grows(before, first);
                worst_grows(before.push(first), second);
                assert(seen.push(*node).drop_last() =~= seen);
                assert(readings_of(settings@, seen.push(*node)) == before.push(first).push(
                    second,
                ));
                assert(before.push(first).push(second).drop_last() =~= before.push(first));
                assert(before.push(first).drop_last() =~= before);
                assert(gauge_of(before.push(first)) == after_cpu.1);
                assert(gauge_of(before.push(first).push(second)) == after_mem.1);
            }
            severity = after_mem.0;
            gauge = after_mem.1;
        } else {
            offline = offline + 1;
        }
        i = i + 1;
    }
    assert(nodes.take(i as int) =~= nodes);
    if offline == scope.len() {
        return IconState { severity: Severity::Error, gauge: None, badge: false };
    }
    let badge = match settings.tray_mode {
        TrayMode::Aggregate => offline > 0,
        TrayMode::Node => false,
    };
    IconState { severity, gauge, badge }
}

/// The icon shows a backend as down exactly where it does not answer or has no
/// nodes; the badge is only for several nodes; the gauge is there exactly
/// where some node in scope is online.
pub proof fn icon_follows_the_backend(settings: SettingsFacts, snap: MonitorSnapshot)
    ensures
        icon_of(settings, snap).severity is Down <==> !snap.backend_ok || snap.nodes@.len() == 0,
        icon_of(settings, snap).badge ==> settings.tray_mode is Aggregate && snap.backend_ok,
        icon_of(settings, snap).gauge is Some <==> snap.backend_ok && online_of(
            in_scope(settings, snap.nodes@),
        ).len() > 0,
{
    if snap.nodes@.len() > 0 {
        scope_is_never_empty(settings, snap.nodes@);
    } else {
        let is_pinned = |n: NodeSnapshot| n.uuid@ == settings.pinned_uuid;
        snap.nodes@.lemma_filter_len(is_pinned);
    }
    in_scope(settings, snap.nodes@).lemma_filter_len(|n: NodeSnapshot| n.online);
}

/// Where every metric is a number, the gauge shows the highest of them on its
/// scale from 0 to 100.
pub proof fn gauge_shows_the_highest_metric(readings: Seq<Reading>)
    requires
        readings.len() > 0,
        forall|i: int| 0 <= i < readings.len() ==> !(#[trigger] readings[i]).value.nan(),
    ensures
        gauge_of(readings) is Some,
        figure_of(ZERO_BITS).at_most(gauge_of(readings).unwrap()),
        gauge_of(readings).unwrap().at_most(figure_of(HUNDRED_BITS)),
        forall|i: int|
            0 <= i < readings.len() ==> on_scale((#[trigger] readings[i]).value).at_most(
                gauge_of(readings).unwrap(),
            ),
        exists|i: int|
            0 <= i < readings.len() && gauge_of(readings) == Some(
                on_scale((#[trigger] readings[i]).value),
            ),
    decreases readings.len(),
{
    let front = readings.drop_last();
    let last = readings.last();
    assert(readings[readings.len() - 1] == last);
    if front.len() > 0 {
        assert forall|i: int| 0 <= i < front.len() implies !(#[trigger] front[i]).value.nan() by {
            assert(front[i] == readings[i]);
        }
        gauge_shows_the_highest_metric(front);
        let gauge = gauge_of(front).unwrap();
        assert forall|i: int| 0 <= i < readings.len() implies on_scale(
            (#[trigger] readings[i]).value,
        ).at_most(gauge_of(readings).unwrap()) by {
            if i < front.len() {
                assert(front[i] == readings[i]);
                assert(on_scale(front[i].value).at_most(gauge));
            }
        }
        let k = choose|k: int|
            0 <= k < front.len() && gauge_of(front) == Some(on_scale((#[trigger] front[k]).value));
        assert(front[k] == readings[k]);
    } else {
        assert(gauge_of(front) is None);
    }
}

// ---------------------------------------------------------------------------
// Reports
// ---------------------------------------------------------------------------

/// A node of which only the id and the name are known.
pub open spec fn named_client(uuid: Seq<char>, name: Seq<char>) -> crate::wire::ClientFacts {
    crate::wire::ClientFacts { uuid, name, ..crate::wire::blank_client() }
}

/// A node by its id, its name and a report.
pub fn report_to_snapshot(uuid: &str, name: &str, online: bool, r: &Report) -> (res: NodeSnapshot)
    requires
        crate::providers::komari::nameable(named_client(uuid@, name@)),
    ensures
        res@ == crate::providers::komari::node_facts(named_client(uuid@, name@), online, *r),
{
    let mut info = ClientInfo::default();
    info.uuid = uuid.to_owned();
    info.name = name.to_owned();
    assert(info@ =~= named_client(uuid@, name@));
    crate::providers::komari::report_to_snapshot(&info, online, r)
}

} // verus!
