//! The monitoring loop: pick a backend, run its session, publish what it
//! reports.
//!
//! Everything backend-specific lives in [`crate::providers`]; what stays here
//! is the part both share: watching the settings, backing off, reporting
//! errors, folding ping figures into the snapshot and rate-limiting the tray.

use vstd::prelude::*;

use crate::figure::Figure;
use crate::models::{tidied, MonitorSnapshot, NodeSnapshot, Settings};
use crate::ping::{PingData, PingSummary};
use crate::providers::Provider;
use crate::state::{sample_facts, AppState, FrameFacts, NetFrame};
use crate::table::{map_of, Table};
use crate::text::texts;
use crate::urls::{normal_base, normalize_base};

verus! {

/// How long a node list is good for.
pub const NODES_REFRESH_MS: u64 = 60_000;

/// How long the tray is left alone between two redraws.
pub const TRAY_MIN_INTERVAL_MS: u64 = 1_000;

/// How long a socket may stay silent.
pub const WS_READ_TIMEOUT_MS: u64 = 15_000;

/// How long to wait after a session has failed.
pub const RECONNECT_BACKOFF_MS: u64 = 5_000;

/// How often the ping cache is refreshed. Far slower than the snapshot poll:
/// the backends' own ping tasks run on the order of a minute, so anything
/// quicker would just be extra requests for identical records.
pub const PING_REFRESH_MS: u64 = 60_000;

/// Retry gap while there is nothing to fetch yet (engine still connecting).
pub const PING_RETRY_MS: u64 = 2_000;

/// Window of ping history kept, matching the popover's 1-hour quality grid.
pub const PING_HOURS: u64 = 1;

/// Told where no backend is set.
pub const UNCONFIGURED: &'static str = "未配置后端地址，请在设置中填写";

// ---------------------------------------------------------------------------
// Sessions
// ---------------------------------------------------------------------------

/// What the engine does next.
#[derive(Debug)]
pub enum Move {
    /// Report that no backend is set, and wait for other settings.
    AwaitSettings,
    /// Run a session with these settings.
    Connect(Settings),
}

/// What to do with the settings as they are.
pub fn next_move(settings: Settings) -> (res: Move)
    ensures
        match res {
            Move::AwaitSettings => tidied(settings@).backend_url.len() == 0,
            Move::Connect(s) => s@ == tidied(settings@) && s@.backend_url.len() > 0,
        },
{
    let s = settings.sanitized();
    if s.backend_url.as_str().is_empty() {
        Move::AwaitSettings
    } else {
        Move::Connect(s)
    }
}

/// What follows a session.
#[derive(Debug)]
pub enum AfterSession {
    /// The settings changed: start over at once.
    Restart,
    /// Report the failure, then wait for a while or for other settings.
    BackOff { error: String, wait_ms: u64 },
}

pub fn after_session(outcome: Result<(), String>) -> (res: AfterSession)
    ensures
        match outcome {
            Ok(_) => res is Restart,
            Err(e) => res is BackOff && res->error@ == e@ && res->wait_ms == RECONNECT_BACKOFF_MS,
        },
{
    match outcome {
        Ok(_) => AfterSession::Restart,
        Err(error) => AfterSession::BackOff { error, wait_ms: RECONNECT_BACKOFF_MS },
    }
}

/// The seconds between two polls.
pub open spec fn seconds_between(wanted: u64) -> u64 {
    if wanted < 1 {
        1
    } else {
        wanted
    }
}

/// How often to poll, in seconds: never less than one.
pub fn tick_secs(settings: &Settings) -> (res: u64)
    ensures
        res == seconds_between(settings.poll_interval_secs),
{
    if settings.poll_interval_secs < 1 {
        1
    } else {
        settings.poll_interval_secs
    }
}

// ---------------------------------------------------------------------------
// Ping figures
// ---------------------------------------------------------------------------

/// A node with what its ping records come to, where there are any.
pub open spec fn with_ping(node: NodeSnapshot, summaries: Map<Seq<char>, PingSummary>) -> NodeSnapshot {
    if summaries.contains_key(node.uuid@) {
        NodeSnapshot {
            latency: summaries[node.uuid@].latency,
            loss: summaries[node.uuid@].loss,
            ..node
        }
    } else {
        node
    }
}

/// All nodes with what their ping records come to.
pub open spec fn all_with_ping(
    nodes: Seq<NodeSnapshot>,
    summaries: Map<Seq<char>, PingSummary>,
) -> Seq<NodeSnapshot> {
    nodes.map_values(|node: NodeSnapshot| with_ping(node, summaries))
}

/// Fold ping figures into the nodes that have them.
pub fn merge_ping(nodes: &mut Vec<NodeSnapshot>, summaries: &Table<PingSummary>)
    ensures
        final(nodes)@ == all_with_ping(old(nodes)@, summaries@),
{
    let ghost before = nodes@;
    let mut i: usize = 0;
    while i < nodes.len()
        invariant
            i <= nodes@.len(),
            nodes@.len() == before.len(),
            forall|j: int|
                0 <= j < i ==> #[trigger] nodes@[j] == with_ping(before[j], summaries@),
            forall|j: int| i <= j < nodes@.len() ==> #[trigger] nodes@[j] == before[j],
        decreases nodes@.len() - i,
    {
        let found: Option<PingSummary> = match summaries.get(nodes[i].uuid.as_str()) {
            Some(summary) => Some(*summary),
            None => None,
        };
        match found {
            Some(summary) => {
                nodes[i].latency = summary.latency;
                nodes[i].loss = summary.loss;
            },
            None => {},
        }
        i = i + 1;
    }
    assert(nodes@ =~= all_with_ping(before, summaries@));
}

/// Only latency and loss change, and only of nodes that have figures; folding
/// the same figures in twice is folding them in once.
pub proof fn ping_touches_nothing_else(node: NodeSnapshot, summaries: Map<Seq<char>, PingSummary>)
    ensures
        (NodeSnapshot { latency: node.latency, loss: node.loss, ..with_ping(node, summaries) })
            == node,
        !summaries.contains_key(node.uuid@) ==> with_ping(node, summaries) == node,
        with_ping(with_ping(node, summaries), summaries) == with_ping(node, summaries),
{
}

/// The summary of each node's records.
pub open spec fn summaries_of(records: Map<Seq<char>, PingData>) -> Map<Seq<char>, PingSummary> {
    records.map_values(|data: PingData| data.summary)
}

proof fn summaries_by_rows(
    rows: Seq<(Seq<char>, PingData)>,
    shorter: Seq<(Seq<char>, PingSummary)>,
)
    requires
        shorter == rows.map_values(|row: (Seq<char>, PingData)| (row.0, row.1.summary)),
    ensures
        map_of(shorter) == summaries_of(map_of(rows)),
    decreases rows.len(),
{
    if rows.len() > 0 {
        let front = rows.drop_last();
        let less = shorter.drop_last();
        assert(less =~= front.map_values(|row: (Seq<char>, PingData)| (row.0, row.1.summary)));
        summaries_by_rows(front, less);
    }
    assert(map_of(shorter) =~= summaries_of(map_of(rows)));
}

/// Latest summary per node.
pub fn ping_summaries(records: &Table<PingData>) -> (res: Table<PingSummary>)
    ensures
        res@ == summaries_of(records@),
{
    let mut res: Table<PingSummary> = Table::new();
    let count: usize = records.len();
    let ghost rows = records.rows();
    let mut i: usize = 0;
    assert(map_of(rows.take(0)) =~= Map::<Seq<char>, PingData>::empty());
    assert(res@ =~= summaries_of(map_of(rows.take(0))));
    while i < count
        invariant
            i <= count,
            count == rows.len(),
            rows == records.rows(),
            res@ == summaries_of(map_of(rows.take(i as int))),
        decreases count - i,
    {
        proof {
            assert(rows.take(i + 1).drop_last() =~= rows.take(i as int));
            assert(rows.take(i + 1).last() == rows[i as int]);
        }
        res.insert(records.key(i).clone(), records.value(i).summary);
        i = i + 1;
        assert(res@ =~= summaries_of(map_of(rows.take(i as int))));
    }
    assert(rows.take(i as int) =~= rows);
    res
}

/// What a round of the ping loop is to fetch.
#[derive(Debug)]
pub struct PingRound {
    pub provider: Provider,
    pub base: String,
    pub api_key: String,
    pub accept_invalid_certs: bool,
    /// The nodes to ask about, one request each.
    pub uuids: Vec<String>,
}

/// The identities of nodes, in order.
pub open spec fn uuids_of(nodes: Seq<NodeSnapshot>) -> Seq<Seq<char>> {
    nodes.map_values(|n: NodeSnapshot| n.uuid@)
}

/// The identities of nodes, in order.
pub fn listed_uuids(nodes: &Vec<NodeSnapshot>) -> (uuids: Vec<String>)
    ensures
        texts(uuids@) == uuids_of(nodes@),
{
    let mut uuids: Vec<String> = Vec::new();
    let mut i: usize = 0;
    while i < nodes.len()
        invariant
            i <= nodes@.len(),
            uuids@.len() == i,
            forall|j: int| 0 <= j < i ==> (#[trigger] uuids@[j])@ == nodes@[j].uuid@,
        decreases nodes@.len() - i,
    {
        uuids.push(nodes[i].uuid.clone());
        i = i + 1;
    }
    assert(texts(uuids@) =~= uuids_of(nodes@));
    uuids
}

/// The next round of the ping loop: every node of the snapshot. Nothing where
/// it is too early to look: no backend is set, the engine has not identified it
/// yet, or the snapshot has no nodes.
pub fn ping_round(state: &AppState) -> (res: Option<PingRound>)
    ensures
        match res {
            Some(round) => state.provider == Some(round.provider) && normal_base(
                tidied(state.settings@).backend_url,
            ) == Ok::<Seq<char>, Seq<char>>(round.base@) && round.api_key@ == tidied(
                state.settings@,
            ).api_key && round.accept_invalid_certs == state.settings.accept_invalid_certs
                && texts(round.uuids@) == uuids_of(state.snapshot.nodes@)
                && state.snapshot.nodes@.len() > 0,
            None => normal_base(tidied(state.settings@).backend_url) is Err
                || state.provider is None || state.snapshot.nodes@.len() == 0,
        },
{
    let settings = state.settings.copied().sanitized();
    let base: String = match normalize_base(settings.backend_url.as_str()) {
        Ok(base) => base,
        Err(_) => {
            return None;
        },
    };
    let provider: Provider = match state.provider {
        Some(provider) => provider,
        None => {
            return None;
        },
    };
    if state.snapshot.nodes.len() == 0 {
        return None;
    }
    let uuids = listed_uuids(&state.snapshot.nodes);
    Some(
        PingRound {
            provider,
            base,
            api_key: settings.api_key,
            accept_invalid_certs: settings.accept_invalid_certs,
            uuids,
        },
    )
}

/// The milliseconds that the ping loop waits after a round.
pub open spec fn wait_after(stored: Option<bool>) -> u64 {
    match stored {
        Some(_) => PING_REFRESH_MS,
        None => PING_RETRY_MS,
    }
}

/// How long the ping loop waits after a round, which says whether anything was
/// stored: a whole interval, also where there was nothing to find; a short
/// while where it was too early to look.
pub fn ping_wait_ms(stored: Option<bool>) -> (res: u64)
    ensures
        res == wait_after(stored),
{
    match stored {
        Some(_) => PING_REFRESH_MS,
        None => PING_RETRY_MS,
    }
}

// ---------------------------------------------------------------------------
// Publishing
// ---------------------------------------------------------------------------

/// Pushes snapshots to the popover, the stored state and the tray.
///
/// Carries the tray's rate limit, which is per session rather than global: a
/// provider ticking faster than once a second must not redraw the menu bar
/// that often, and the limit has to survive across ticks.
#[derive(Debug)]
pub struct Publisher {
    last_tray: Option<u64>,
}

/// The rates of every node.
pub open spec fn rates_of(nodes: Seq<NodeSnapshot>) -> Seq<(Seq<char>, Figure, Figure, bool)> {
    nodes.map_values(|n: NodeSnapshot| (n.uuid@, n.net_up, n.net_down, n.online))
}

/// The frame that a snapshot adds to the history.
pub fn frame_of(snap: &MonitorSnapshot) -> (res: NetFrame)
    ensures
        res@ == (FrameFacts { t: snap.last_update_ms, nodes: rates_of(snap.nodes@) }),
        res.nodes@.len() == snap.nodes@.len(),
        forall|i: int|
            0 <= i < snap.nodes@.len() ==> (#[trigger] res.nodes@[i]).0@ == snap.nodes@[i].uuid@
                && res.nodes@[i].1 == snap.nodes@[i].net_up && res.nodes@[i].2
                == snap.nodes@[i].net_down && res.nodes@[i].3 == snap.nodes@[i].online,
{
    let mut nodes: Vec<(String, Figure, Figure, bool)> = Vec::new();
    let mut i: usize = 0;
    while i < snap.nodes.len()
        invariant
            i <= snap.nodes@.len(),
            nodes@.len() == i,
            forall|j: int|
                0 <= j < i ==> sample_facts(#[trigger] nodes@[j]) == rates_of(snap.nodes@)[j]
                    && nodes@[j].0@ == snap.nodes@[j].uuid@ && nodes@[j].1 == snap.nodes@[j].net_up
                    && nodes@[j].2 == snap.nodes@[j].net_down && nodes@[j].3
                    == snap.nodes@[j].online,
        decreases snap.nodes@.len() - i,
    {
        let n = &snap.nodes[i];
        nodes.push((n.uuid.clone(), n.net_up, n.net_down, n.online));
        i = i + 1;
    }
    let res = NetFrame { t: snap.last_update_ms, nodes };
    assert(res@.nodes =~= rates_of(snap.nodes@));
    res
}

impl Publisher {
    /// When the tray was last redrawn.
    pub closed spec fn drawn_at(self) -> Option<u64> {
        self.last_tray
    }

    /// The first snapshot of a session reaches the tray immediately instead of
    /// waiting out the interval.
    pub fn new() -> (res: Self)
        ensures
            res.drawn_at() is None,
    {
        Publisher { last_tray: None }
    }

    /// Store a snapshot with the ping figures that are known, add its rates to
    /// the history, and say whether the tray is to be redrawn at `clock_ms`, a
    /// clock that only runs forward.
    pub fn publish(&mut self, state: &mut AppState, snap: MonitorSnapshot, clock_ms: u64) -> (redraw:
        bool)
        ensures
            final(state).snapshot == (MonitorSnapshot {
                nodes: final(state).snapshot.nodes,
                ..snap
            }),
            final(state).snapshot.nodes@ == all_with_ping(
                snap.nodes@,
                summaries_of(old(state).ping_records@),
            ),
            exists|frame: NetFrame|
                frame@ == (FrameFacts {
                    t: snap.last_update_ms,
                    nodes: rates_of(final(state).snapshot.nodes@),
                }) && final(state).net_history@ == crate::state::with_frame(
                    old(state).net_history@,
                    frame,
                ),
            old(state).net_history@.len() == 0 || old(state).net_history@.last().t
                <= snap.last_update_ms ==> {
                let newest = final(state).net_history@.last();
                let shown = final(state).snapshot.nodes@;
                &&& final(state).net_history@.len() > 0
                &&& newest.t == snap.last_update_ms
                &&& newest.nodes@.len() == shown.len()
                &&& forall|i: int|
                    0 <= i < shown.len() ==> (#[trigger] newest.nodes@[i]).0@ == shown[i].uuid@
                        && newest.nodes@[i].1 == shown[i].net_up && newest.nodes@[i].2
                        == shown[i].net_down && newest.nodes@[i].3 == shown[i].online
            },
            *final(state) == (AppState {
                snapshot: final(state).snapshot,
                net_history: final(state).net_history,
                ..*old(state)
            }),
            redraw == tray_is_due(old(self).drawn_at(), clock_ms),
            final(self).drawn_at() == if redraw {
                Some(clock_ms)
            } else {
                old(self).drawn_at()
            },
    {
        let summaries = ping_summaries(&state.ping_records);
        let mut snap = snap;
        merge_ping(&mut snap.nodes, &summaries);
        let frame = frame_of(&snap);
        let ghost before = state.net_history@;
        state.net_history.push(frame);
        proof {
            crate::state::history_stays_sound(before, frame);
        }
        state.snapshot = snap;
        let redraw = match self.last_tray {
            None => true,
            Some(last) => clock_ms.saturating_sub(last) >= TRAY_MIN_INTERVAL_MS,
        };
        if redraw {
            self.last_tray = Some(clock_ms);
        }
        redraw
    }
}

/// Whether enough time has passed since the last redraw.
pub open spec fn tray_is_due(drawn_at: Option<u64>, clock_ms: u64) -> bool {
    match drawn_at {
        None => true,
        Some(last) => clock_ms - last >= TRAY_MIN_INTERVAL_MS,
    }
}

impl Default for Publisher {
    fn default() -> (res: Self)
        ensures
            res.drawn_at() is None,
    {
        Publisher::new()
    }
}

/// Two redraws are at least a second apart, and the first comes at once.
pub proof fn redraws_are_spaced(first: u64, second: u64)
    ensures
        tray_is_due(None, first),
        tray_is_due(Some(first), second) ==> second >= first + TRAY_MIN_INTERVAL_MS,
{
}

} // verus!
