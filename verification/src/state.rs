//! Runtime state: network history, the latest snapshot and what the windows
//! are up to.

use std::collections::VecDeque;

use vstd::prelude::*;

use crate::engine::{all_with_ping, listed_uuids, merge_ping, ping_summaries, summaries_of, uuids_of, with_ping};
use crate::figure::Figure;
use crate::models::{MonitorSnapshot, NodeFacts, NodeSnapshot, Settings, SettingsFacts, SnapshotFacts};
use crate::order::views;
use crate::ping::PingData;
use crate::providers::Provider;
use crate::table::Table;
use crate::text::same;

verus! {

/// How long network history is kept in memory. Independent of the
/// configured display range so switching ranges never has to re-accumulate.
pub const HISTORY_RETENTION_MS: u64 = 21_600_000;

/// Absolute safety cap on stored points.
pub const HISTORY_MAX_POINTS: usize = 50_000;

/// The rates of every node at one time: id, up, down, online.
#[derive(Debug, Clone)]
pub struct NetFrame {
    pub t: u64,
    pub nodes: Vec<(String, Figure, Figure, bool)>,
}

/// What one node's sample says.
pub open spec fn sample_facts(sample: (String, Figure, Figure, bool)) -> (
    Seq<char>,
    Figure,
    Figure,
    bool,
) {
    (sample.0@, sample.1, sample.2, sample.3)
}

/// What a frame says.
#[verifier::ext_equal]
pub struct FrameFacts {
    pub t: u64,
    pub nodes: Seq<(Seq<char>, Figure, Figure, bool)>,
}

impl View for NetFrame {
    type V = FrameFacts;

    open spec fn view(&self) -> FrameFacts {
        FrameFacts {
            t: self.t,
            nodes: self.nodes@.map_values(
                |sample: (String, Figure, Figure, bool)| sample_facts(sample),
            ),
        }
    }
}

impl NetFrame {
    /// A frame that says the same.
    pub fn copied(&self) -> (res: NetFrame)
        ensures
            res@ == self@,
    {
        let mut nodes: Vec<(String, Figure, Figure, bool)> = Vec::new();
        let mut i: usize = 0;
        while i < self.nodes.len()
            invariant
                i <= self.nodes@.len(),
                nodes@.len() == i,
                forall|j: int|
                    0 <= j < i ==> sample_facts(#[trigger] nodes@[j]) == sample_facts(
                        self.nodes@[j],
                    ),
            decreases self.nodes@.len() - i,
        {
            let sample = &self.nodes[i];
            nodes.push((sample.0.clone(), sample.1, sample.2, sample.3));
            i = i + 1;
        }
        let res = NetFrame { t: self.t, nodes };
        assert(res@.nodes =~= self@.nodes);
        res
    }
}

/// One point of a rate curve.
#[derive(Debug, Clone, Copy, PartialEq, Eq, Structural)]
pub struct NetPoint {
    pub t: u64,
    pub up: Figure,
    pub down: Figure,
    pub online: bool,
}

// ---------------------------------------------------------------------------
// History
// ---------------------------------------------------------------------------

/// In-memory network history; lives only for the current process run.
/// Retention is independent of the configured display range so switching
/// ranges never has to re-accumulate.
#[derive(Debug)]
pub struct NetHistory {
    frames: VecDeque<NetFrame>,
}

/// The oldest time that is kept beside a frame of time `t`.
pub open spec fn cutoff(t: u64) -> int {
    if t < HISTORY_RETENTION_MS {
        0
    } else {
        t - HISTORY_RETENTION_MS
    }
}

/// The frames from a time on.
pub open spec fn from_time(frames: Seq<NetFrame>, since: int) -> Seq<NetFrame> {
    frames.filter(|f: NetFrame| f.t >= since)
}

/// The last frames, as many as the cap allows.
pub open spec fn capped(frames: Seq<NetFrame>) -> Seq<NetFrame> {
    if frames.len() > HISTORY_MAX_POINTS {
        frames.skip(frames.len() - HISTORY_MAX_POINTS)
    } else {
        frames
    }
}

/// A history with one more frame: a frame older than the newest is ignored;
/// otherwise what has become too old, or too much, leaves.
pub open spec fn with_frame(frames: Seq<NetFrame>, frame: NetFrame) -> Seq<NetFrame> {
    if frames.len() > 0 && frame.t < frames.last().t {
        frames
    } else {
        capped(from_time(frames.push(frame), cutoff(frame.t)))
    }
}

/// Times never fall, nothing is older than the retention allows, and there are
/// not too many frames.
pub open spec fn history_ok(frames: Seq<NetFrame>) -> bool {
    &&& frames.len() <= HISTORY_MAX_POINTS
    &&& forall|i: int, j: int|
        #![trigger frames[i], frames[j]]
        0 <= i <= j < frames.len() ==> frames[i].t <= frames[j].t
    &&& forall|i: int|
        0 <= i < frames.len() ==> cutoff(frames.last().t) <= (#[trigger] frames[i]).t
}

proof fn all_from_time(frames: Seq<NetFrame>, since: int)
    requires
        forall|i: int| 0 <= i < frames.len() ==> (#[trigger] frames[i]).t >= since,
    ensures
        from_time(frames, since) == frames,
    decreases frames.len(),
{
    reveal(Seq::filter);
    if frames.len() > 0 {
        let front = frames.drop_last();
        assert forall|i: int| 0 <= i < front.len() implies (#[trigger] front[i]).t >= since by {
            assert(front[i] == frames[i]);
        }
        all_from_time(front, since);
        assert(frames[frames.len() - 1].t >= since);
        assert(frames =~= front.push(frames.last()));
    }
}

proof fn from_time_drops_first(frames: Seq<NetFrame>, since: int)
    requires
        frames.len() > 0,
        frames[0].t < since,
    ensures
        from_time(frames, since) == from_time(frames.drop_first(), since),
    decreases frames.len(),
{
    reveal_with_fuel(Seq::filter, 2);
    let keep = |f: NetFrame| f.t >= since;
    assert(frames =~= seq![frames[0]] + frames.drop_first());
    Seq::filter_distributes_over_add(seq![frames[0]], frames.drop_first(), keep);
    assert(seq![frames[0]].drop_last() =~= Seq::<NetFrame>::empty());
    assert(seq![frames[0]].filter(keep) =~= Seq::<NetFrame>::empty());
}

impl View for NetHistory {
    type V = Seq<NetFrame>;

    closed spec fn view(&self) -> Seq<NetFrame> {
        self.frames@
    }
}

impl Default for NetHistory {
    fn default() -> (history: Self)
        ensures
            history@ == Seq::<NetFrame>::empty(),
    {
        NetHistory { frames: VecDeque::new() }
    }
}

impl NetHistory {
    #[verifier::type_invariant]
    spec fn sound(self) -> bool {
        history_ok(self.frames@)
    }

    /// How many frames are kept.
    pub fn len(&self) -> (res: usize)
        ensures
            res == self@.len(),
            history_ok(self@),
    {
        proof {
            use_type_invariant(self);
        }
        self.frames.len()
    }

    /// Add a frame. A stale one (the clock went backwards) is ignored, to keep
    /// the timeline monotonic.
    pub fn push(&mut self, frame: NetFrame)
        ensures
            final(self)@ == with_frame(old(self)@, frame),
            history_ok(old(self)@),
            history_ok(final(self)@),
    {
        proof {
            use_type_invariant(&*self);
        }
        let mut frames: VecDeque<NetFrame> = VecDeque::new();
        std::mem::swap(&mut frames, &mut self.frames);
        let ghost before = frames@;
        let len: usize = frames.len();
        if len > 0 && frame.t < frames[len - 1].t {
            self.frames = frames;
            return;
        }
        let oldest: u64 = frame.t.saturating_sub(HISTORY_RETENTION_MS);
        let ghost all = before.push(frame);
        let ghost fresh = from_time(all, oldest as int);
        let t: u64 = frame.t;
        frames.push_back(frame);
        assert(oldest == cutoff(t));
        proof {
            assert forall|i: int, j: int|
                #![trigger all[i], all[j]]
                0 <= i <= j < all.len() implies all[i].t <= all[j].t by {
                if j < before.len() {
                    assert(all[i] == before[i] && all[j] == before[j]);
                } else if i < before.len() {
                    assert(all[i] == before[i]);
                    assert(before[i].t <= before[before.len() - 1].t);
                }
            }
        }
        while frames[0].t < oldest
            invariant
                0 < frames@.len() <= HISTORY_MAX_POINTS + 1,
                oldest <= t,
                frames@.last().t == t,
                fresh == from_time(frames@, oldest as int),
                forall|i: int, j: int|
                    #![trigger frames@[i], frames@[j]]
                    0 <= i <= j < frames@.len() ==> frames@[i].t <= frames@[j].t,
            decreases frames@.len(),
        {
            let ghost held = frames@;
            proof {
                from_time_drops_first(held, oldest as int);
                assert(held.len() > 1) by {
                    assert(held.last() == held[held.len() - 1]);
                }
            }
            frames.pop_front();
            assert(frames@ =~= held.drop_first());
            assert(frames@.last() == held.last());
            assert forall|i: int, j: int|
                #![trigger frames@[i], frames@[j]]
                0 <= i <= j < frames@.len() implies frames@[i].t <= frames@[j].t by {
                assert(frames@[i] == held[i + 1] && frames@[j] == held[j + 1]);
            }
        }
        proof {
            assert forall|i: int| 0 <= i < frames@.len() implies (#[trigger] frames@[i]).t
                >= oldest by {
                assert(frames@[0].t <= frames@[i].t);
            }
            all_from_time(frames@, oldest as int);
        }
        let ghost kept = frames@;
        if frames.len() > HISTORY_MAX_POINTS {
            frames.pop_front();
            assert(frames@ =~= kept.drop_first());
            assert(frames@ =~= kept.skip(kept.len() - HISTORY_MAX_POINTS));
            assert forall|i: int| 0 <= i < frames@.len() implies (#[trigger] frames@[i]).t
                >= oldest by {
                assert(frames@[i] == kept[i + 1]);
            }
            assert forall|i: int, j: int|
                #![trigger frames@[i], frames@[j]]
                0 <= i <= j < frames@.len() implies frames@[i].t <= frames@[j].t by {
                assert(frames@[i] == kept[i + 1] && frames@[j] == kept[j + 1]);
            }
            assert(frames@.last() == kept.last());
        }
        self.frames = frames;
    }

    /// The frames from a time on, oldest first.
    pub fn since(&self, since_ms: u64) -> (res: Vec<NetFrame>)
        ensures
            views(res@) == views(from_time(self@, since_ms as int)),
    {
        let mut res: Vec<NetFrame> = Vec::new();
        let ghost all = self.frames@;
        let mut i: usize = 0;
        proof {
            reveal(Seq::filter);
            assert(all.take(0) =~= Seq::<NetFrame>::empty());
            assert(views(res@) =~= views(from_time(all.take(0), since_ms as int)));
        }
        while i < self.frames.len()
            invariant
                i <= all.len(),
                all == self.frames@,
                views(res@) == views(from_time(all.take(i as int), since_ms as int)),
            decreases all.len() - i,
        {
            proof {
                reveal(Seq::filter);
                assert(all.take(i + 1).drop_last() =~= all.take(i as int));
                assert(all.take(i + 1).last() == all[i as int]);
            }
            let frame = &self.frames[i];
            let ghost before = res@;
            let ghost kept = from_time(all.take(i as int), since_ms as int);
            if frame.t >= since_ms {
                let copy = frame.copied();
                res.push(copy);
                proof {
                    assert(views(res@) =~= views(before).push(copy@));
                    assert(views(kept.push(*frame)) =~= views(kept).push(frame@));
                }
            }
            i = i + 1;
        }
        assert(all.take(i as int) =~= all);
        res
    }

    /// Forget everything.
    pub fn clear(&mut self)
        ensures
            final(self)@ == Seq::<NetFrame>::empty(),
    {
        self.frames = VecDeque::new();
    }
}

/// A history stays in order and within its bounds whatever is added, and holds
/// the newest frame unless the clock went backwards.
pub proof fn history_stays_sound(frames: Seq<NetFrame>, frame: NetFrame)
    requires
        history_ok(frames),
    ensures
        history_ok(with_frame(frames, frame)),
        frames.len() == 0 || frame.t >= frames.last().t ==> with_frame(frames, frame).len() > 0
            && with_frame(frames, frame).last() == frame,
        frames.len() > 0 && frame.t < frames.last().t ==> with_frame(frames, frame) == frames,
{
    if frames.len() == 0 || frame.t >= frames.last().t {
        let all = frames.push(frame);
        let since = cutoff(frame.t);
        let fresh = from_time(all, since);
        reveal(Seq::filter);
        assert(all.drop_last() =~= frames);
        let before = from_time(frames, since);
        assert(fresh == before.push(frame));
        filter_keeps_order(frames, since);
        assert forall|i: int, j: int|
            #![trigger fresh[i], fresh[j]]
            0 <= i <= j < fresh.len() implies fresh[i].t <= fresh[j].t by {
            if j < before.len() {
                assert(fresh[i] == before[i] && fresh[j] == before[j]);
            } else if i < before.len() {
                assert(fresh[i] == before[i]);
                assert(before[i].t <= frames.last().t);
            }
        }
        let out = capped(fresh);
        assert(out.last() == frame);
        assert forall|i: int| 0 <= i < out.len() implies since <= (#[trigger] out[i]).t by {
            let k = i + (fresh.len() - out.len());
            assert(out[i] == fresh[k]);
            if k < before.len() {
                assert(fresh[k] == before[k]);
            }
        }
        assert forall|i: int, j: int|
            #![trigger out[i], out[j]]
            0 <= i <= j < out.len() implies out[i].t <= out[j].t by {
            let n = fresh.len() - out.len();
            assert(out[i] == fresh[i + n] && out[j] == fresh[j + n]);
        }
    }
}

proof fn filter_keeps_order(frames: Seq<NetFrame>, since: int)
    requires
        forall|i: int, j: int|
            #![trigger frames[i], frames[j]]
            0 <= i <= j < frames.len() ==> frames[i].t <= frames[j].t,
    ensures
        from_time(frames, since).len() <= frames.len(),
        forall|i: int, j: int|
            #![trigger from_time(frames, since)[i], from_time(frames, since)[j]]
            0 <= i <= j < from_time(frames, since).len() ==> from_time(frames, since)[i].t
                <= from_time(frames, since)[j].t,
        forall|i: int|
            0 <= i < from_time(frames, since).len() ==> since <= (#[trigger] from_time(
                frames,
                since,
            )[i]).t,
        frames.len() > 0 ==> forall|i: int|
            0 <= i < from_time(frames, since).len() ==> (#[trigger] from_time(frames, since)[i]).t
                <= frames.last().t,
    decreases frames.len(),
{
    reveal(Seq::filter);
    if frames.len() > 0 {
        let front = frames.drop_last();
        assert forall|i: int, j: int|
            #![trigger front[i], front[j]]
            0 <= i <= j < front.len() implies front[i].t <= front[j].t by {
            assert(front[i] == frames[i] && front[j] == frames[j]);
        }
        filter_keeps_order(front, since);
        let before = from_time(front, since);
        let out = from_time(frames, since);
        if front.len() > 0 {
            assert(front.last() == frames[frames.len() - 2]);
            assert(frames[frames.len() - 2].t <= frames[frames.len() - 1].t);
        }
        assert forall|i: int| 0 <= i < out.len() implies (#[trigger] out[i]).t
            <= frames.last().t && since <= out[i].t by {
            if i < before.len() {
                assert(out[i] == before[i]);
            }
        }
        assert forall|i: int, j: int|
            #![trigger out[i], out[j]]
            0 <= i <= j < out.len() implies out[i].t <= out[j].t by {
            if j < before.len() {
                assert(out[i] == before[i] && out[j] == before[j]);
            } else if i < before.len() {
                assert(out[i] == before[i]);
            }
        }
    }
}

/// What was just added is read back, and so is everything before it that the
/// retention still allows.
pub proof fn added_frames_are_read_back(frames: Seq<NetFrame>, frame: NetFrame)
    requires
        history_ok(frames),
        frames.len() < HISTORY_MAX_POINTS,
        frames.len() == 0 || frame.t >= frames.last().t,
    ensures
        with_frame(frames, frame) == from_time(frames, cutoff(frame.t)).push(frame),
        from_time(with_frame(frames, frame), frame.t as int).len() > 0,
        from_time(with_frame(frames, frame), frame.t as int).last() == frame,
{
    reveal(Seq::filter);
    let all = frames.push(frame);
    assert(all.drop_last() =~= frames);
    filter_keeps_order(frames, cutoff(frame.t));
    let out = with_frame(frames, frame);
    assert(out.drop_last() =~= from_time(frames, cutoff(frame.t)));
}

// ---------------------------------------------------------------------------
// Application state
// ---------------------------------------------------------------------------

/// Shown until a backend has answered.
pub const CONNECTING: &'static str = "正在连接后端…";

/// What is known of the panel's page, in epoch milliseconds.
#[derive(Debug, Clone, Copy, PartialEq, Eq, Structural)]
pub struct PanelState {
    /// The last finished page load.
    pub load_ms: u64,
    /// The last page load that began.
    pub load_started_ms: u64,
    /// The last time that the panel was made anew.
    pub reload_ms: u64,
    /// How often it was made anew without a page loading.
    pub recreate_streak: u64,
    /// How often it was opened or closed.
    pub epoch: u64,
}

/// Shared application state: settings, latest monitor snapshot, in-memory
/// network history and a config epoch used to wake the monitor engine after
/// settings changes.
#[derive(Debug)]
pub struct AppState {
    pub settings: Settings,
    pub snapshot: MonitorSnapshot,
    pub config_epoch: u64,
    /// The backend that the engine has found, once it has.
    pub provider: Option<Provider>,
    pub ping_records: Table<PingData>,
    /// Backend URL the "main" webview window is currently showing.
    pub loaded_panel_url: Option<String>,
    /// When the chart popover last auto-hid on focus loss (toggle guard), by a
    /// clock that only runs forward.
    pub chart_hidden_at: Option<u64>,
    /// Chart popover "pinned" (keep open on blur, keep dragged position).
    pub chart_pinned: bool,
    /// Whether the popover hangs below the tray icon.
    pub chart_below: bool,
    pub panel: PanelState,
    /// Aggregate network samples; lives only for the current process run.
    pub net_history: NetHistory,
}

/// Whether two settings reach for the same nodes.
pub open spec fn same_target(a: SettingsFacts, b: SettingsFacts) -> bool {
    a.backend_url == b.backend_url && a.api_key == b.api_key && a.accept_invalid_certs
        == b.accept_invalid_certs
}

/// What a state is once settings were taken over: those settings, one epoch
/// later, and nothing else but that another target clears what was shown.
pub open spec fn taken_over(before: AppState, settings: Settings, now: u64, after: AppState) -> bool {
    &&& after.settings == settings
    &&& after.config_epoch == before.config_epoch + 1
    &&& same_target(before.settings@, settings@) ==> after.net_history == before.net_history
        && after.snapshot == before.snapshot
    &&& !same_target(before.settings@, settings@) ==> after.net_history@ == Seq::<NetFrame>::empty()
        && after.snapshot@ == (SnapshotFacts {
        backend_ok: false,
        error: Some(CONNECTING@),
        nodes: Seq::<NodeFacts>::empty(),
        last_update_ms: now,
    })
    &&& after == (AppState {
        settings: after.settings,
        snapshot: after.snapshot,
        config_epoch: after.config_epoch,
        net_history: after.net_history,
        ..before
    })
}

impl AppState {
    pub fn new(settings: Settings, now: u64) -> (state: Self)
        ensures
            state.settings == settings,
            state.snapshot@ == (SnapshotFacts {
                backend_ok: false,
                error: Some(CONNECTING@),
                nodes: Seq::<NodeFacts>::empty(),
                last_update_ms: now,
            }),
            state.config_epoch == 0,
            state.provider is None,
            state.ping_records@ == Map::<Seq<char>, PingData>::empty(),
            state.loaded_panel_url is None,
            state.chart_hidden_at is None,
            !state.chart_pinned,
            !state.chart_below,
            state.panel == (PanelState {
                load_ms: 0,
                load_started_ms: 0,
                reload_ms: 0,
                recreate_streak: 0,
                epoch: 1,
            }),
            state.net_history@ == Seq::<NetFrame>::empty(),
    {
        AppState {
            settings,
            snapshot: MonitorSnapshot::offline_at(CONNECTING, now),
            config_epoch: 0,
            provider: None,
            ping_records: Table::new(),
            loaded_panel_url: None,
            chart_hidden_at: None,
            chart_pinned: false,
            chart_below: false,
            panel: PanelState {
                load_ms: 0,
                load_started_ms: 0,
                reload_ms: 0,
                recreate_streak: 0,
                epoch: 1,
            },
            net_history: NetHistory::default(),
        }
    }

    /// Wake whoever watches the settings.
    pub fn bump_config_epoch(&mut self)
        requires
            old(self).config_epoch < u64::MAX,
        ensures
            *final(self) == (AppState {
                config_epoch: (old(self).config_epoch + 1) as u64,
                ..*old(self)
            }),
    {
        self.config_epoch = self.config_epoch + 1;
    }

    /// Take over settings that were saved. A different site (or different
    /// credentials) means a different set of nodes: the old snapshot and
    /// history go right away, otherwise the popover keeps listing the previous
    /// backend's nodes, and charting their history, until the engine finishes
    /// reconnecting. Says whether they went.
    pub fn apply_settings(&mut self, settings: Settings, now: u64) -> (reset: bool)
        requires
            old(self).config_epoch < u64::MAX,
        ensures
            reset == !same_target(old(self).settings@, settings@),
            taken_over(*old(self), settings, now, *final(self)),
    {
        let reset = !same(self.settings.backend_url.as_str(), settings.backend_url.as_str())
            || !same(self.settings.api_key.as_str(), settings.api_key.as_str())
            || self.settings.accept_invalid_certs != settings.accept_invalid_certs;
        self.settings = settings;
        if reset {
            self.net_history.clear();
            self.snapshot = MonitorSnapshot::offline_at(CONNECTING, now);
        }
        self.bump_config_epoch();
        reset
    }

    /// The backend cannot be reached: keep the nodes, say why.
    pub fn set_error(&mut self, message: &str)
        ensures
            final(self).snapshot@ == (SnapshotFacts {
                backend_ok: false,
                error: Some(message@),
                ..old(self).snapshot@
            }),
            *final(self) == (AppState { snapshot: final(self).snapshot, ..*old(self) }),
    {
        self.snapshot.backend_ok = false;
        self.snapshot.error = Some(message.to_owned());
    }

    /// The backend answers again.
    pub fn clear_error(&mut self)
        ensures
            *final(self) == (AppState {
                snapshot: MonitorSnapshot { backend_ok: true, error: None, ..old(self).snapshot },
                ..*old(self)
            }),
    {
        self.snapshot.backend_ok = true;
        self.snapshot.error = None;
    }

    /// Take over ping records that were fetched, and fold the figures of all
    /// that are kept into the snapshot, which predates them. A listed node that
    /// had none this time (its backend may have refused another request just
    /// now) keeps what it has; the records of a node that is no longer listed
    /// go. Where no node had any, nothing changes. Says whether anything did.
    pub fn store_ping(&mut self, fresh: Table<PingData>) -> (stored: bool)
        ensures
            stored == (fresh.rows().len() > 0),
            stored ==> final(self).ping_records@ == records_after(
                old(self).ping_records@,
                old(self).snapshot.nodes@,
                fresh@,
            ),
            stored ==> *final(self) == (AppState {
                ping_records: final(self).ping_records,
                snapshot: final(self).snapshot,
                ..*old(self)
            }) && final(self).snapshot == (MonitorSnapshot {
                nodes: final(self).snapshot.nodes,
                ..old(self).snapshot
            }) && final(self).snapshot.nodes@ == all_with_ping(
                old(self).snapshot.nodes@,
                summaries_of(final(self).ping_records@),
            ),
            !stored ==> *final(self) == *old(self),
    {
        if fresh.len() == 0 {
            return false;
        }
        let listed = listed_uuids(&self.snapshot.nodes);
        self.ping_records.keep_only(&listed);
        self.ping_records.absorb(fresh);
        let summaries = ping_summaries(&self.ping_records);
        merge_ping(&mut self.snapshot.nodes, &summaries);
        true
    }
}

/// The records after a round that fetched some: of what there was, that of the
/// listed nodes, with what was fetched put over it.
pub open spec fn records_after(
    kept: Map<Seq<char>, PingData>,
    nodes: Seq<NodeSnapshot>,
    fresh: Map<Seq<char>, PingData>,
) -> Map<Seq<char>, PingData> {
    kept.restrict(uuids_of(nodes).to_set()).union_prefer_right(fresh)
}

/// A round that fetches nothing for a listed node leaves its records, and with
/// them its figures, as they were; a node that it does fetch for has the new
/// ones; and nothing is kept of a node that is neither.
pub proof fn refused_nodes_keep_their_records(
    kept: Map<Seq<char>, PingData>,
    nodes: Seq<NodeSnapshot>,
    fresh: Map<Seq<char>, PingData>,
    node: NodeSnapshot,
)
    ensures
        ({
            let now = records_after(kept, nodes, fresh);
            let uuid = node.uuid@;
            &&& nodes.contains(node) && !fresh.contains_key(uuid) ==> with_ping(
                node,
                summaries_of(now),
            ) == with_ping(node, summaries_of(kept))
            &&& nodes.contains(node) && !fresh.contains_key(uuid) && kept.contains_key(uuid)
                ==> now.contains_key(uuid) && now[uuid] == kept[uuid]
            &&& fresh.contains_key(uuid) ==> now.contains_key(uuid) && now[uuid] == fresh[uuid]
            &&& !uuids_of(nodes).contains(uuid) && !fresh.contains_key(uuid)
                ==> !now.contains_key(uuid)
        }),
{
    if nodes.contains(node) {
        let i = choose|i: int| 0 <= i < nodes.len() && nodes[i] == node;
        assert(uuids_of(nodes)[i] == node.uuid@);
    }
}

} // verus!
