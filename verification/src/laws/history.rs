//! What is published and kept, and the curves drawn of it.

use vstd::arithmetic::power2::{lemma2_to64, pow2};
use vstd::prelude::*;

use crate::arithmetic::whole;
use crate::commands::{averaged, bucket_size, div_up, downs, downsampled, frame_total, frame_totals, node_points, payload_of, points_among, range_start, ups, NetHistoryPayload};
use crate::engine::{all_with_ping, rates_of, summaries_of, tray_is_due, uuids_of, with_ping};
use crate::exact::{added, added_alike, dyadic, dyadics_total, means_are_bracketed};
use crate::figure::Figure;
use crate::models::{MonitorSnapshot, NodeSnapshot, Settings};
use crate::ping::PingData;
use crate::state::{capped, cutoff, from_time, history_ok, history_stays_sound, records_after, sample_facts, taken_over, with_frame, AppState, FrameFacts, NetFrame, NetPoint};

verus! {

/// A frame taken of nodes: for each its id, its upload, its download and
/// whether it is online, in that order.
pub proof fn frames_hold_the_rates_of_nodes(frame: NetFrame, t: u64, nodes: Seq<NodeSnapshot>, i: int)
    requires
        frame@ == (FrameFacts { t, nodes: rates_of(nodes) }),
        0 <= i < nodes.len(),
    ensures
        frame.t == t,
        frame.nodes@.len() == nodes.len(),
        frame.nodes@[i].0@ == nodes[i].uuid@,
        frame.nodes@[i].1 == nodes[i].net_up,
        frame.nodes@[i].2 == nodes[i].net_down,
        frame.nodes@[i].3 == nodes[i].online,
{
    assert(frame@.nodes.len() == frame.nodes@.len());
    assert(frame@.nodes[i] == sample_facts(frame.nodes@[i]));
    assert(frame@.nodes[i] == rates_of(nodes)[i]);
}

/// What is published is read back: the newest frame of the history has each
/// node's upload and download, as the snapshot has them.
pub proof fn published_rates_are_read_back(
    before: Seq<NetFrame>,
    frame: NetFrame,
    snap: MonitorSnapshot,
    i: int,
)
    requires
        history_ok(before),
        before.len() == 0 || before.last().t <= snap.last_update_ms,
        frame@ == (FrameFacts { t: snap.last_update_ms, nodes: rates_of(snap.nodes@) }),
        0 <= i < snap.nodes@.len(),
    ensures
        ({
            let kept = with_frame(before, frame);
            &&& kept.len() > 0
            &&& kept.last().t == snap.last_update_ms
            &&& kept.last().nodes@.len() == snap.nodes@.len()
            &&& kept.last().nodes@[i].0@ == snap.nodes@[i].uuid@
            &&& kept.last().nodes@[i].1 == snap.nodes@[i].net_up
            &&& kept.last().nodes@[i].2 == snap.nodes@[i].net_down
            &&& kept.last().nodes@[i].3 == snap.nodes@[i].online
        }),
{
    history_stays_sound(before, frame);
    frames_hold_the_rates_of_nodes(frame, snap.last_update_ms, snap.nodes@, i);
}

proof fn from_time_holds(frames: Seq<NetFrame>, since: int, f: NetFrame)
    ensures
        from_time(frames, since).contains(f) <==> frames.contains(f) && f.t >= since,
        from_time(frames, since).len() <= frames.len(),
{
    let keep = |f: NetFrame| f.t >= since;
    frames.lemma_filter_len(keep);
    if from_time(frames, since).contains(f) {
        let k = choose|k: int| 0 <= k < frames.filter(keep).len() && frames.filter(keep)[k] == f;
        frames.lemma_filter_pred(keep, k);
        frames.lemma_filter_contains_rev(keep, f);
    }
    if frames.contains(f) && f.t >= since {
        let k = choose|k: int| 0 <= k < frames.len() && frames[k] == f;
        frames.lemma_filter_contains(keep, k);
    }
}

/// The frames read from a time on are those that are as late, and no others.
pub proof fn frames_are_read_from_a_time_on(frames: Seq<NetFrame>, since: int, f: NetFrame)
    ensures
        from_time(frames, since).contains(f) <==> frames.contains(f) && since <= f.t,
{
    from_time_holds(frames, since, f);
}

/// Six hours are kept: with a frame added there is every frame from 21,600,000
/// milliseconds before it on and none from earlier, and never more than 50,000.
pub proof fn six_hours_are_kept(frames: Seq<NetFrame>, frame: NetFrame, f: NetFrame)
    requires
        frames.len() == 0 || frames.last().t <= frame.t,
    ensures
        with_frame(frames, frame).contains(f) ==> frame.t <= f.t + 21_600_000 && (f == frame
            || frames.contains(f)),
        frames.len() < 50_000 && frames.contains(f) && frame.t <= f.t + 21_600_000 ==> with_frame(
            frames,
            frame,
        ).contains(f),
        with_frame(frames, frame).contains(frame),
        with_frame(frames, frame).len() <= 50_000,
{
    let all = frames.push(frame);
    let fresh = from_time(all, cutoff(frame.t));
    from_time_holds(all, cutoff(frame.t), f);
    from_time_holds(all, cutoff(frame.t), frame);
    assert(all[frames.len() as int] == frame);
    if frames.contains(f) {
        let k = choose|k: int| 0 <= k < frames.len() && frames[k] == f;
        assert(all[k] == f);
    }
    if all.contains(f) && f != frame {
        let k = choose|k: int| 0 <= k < all.len() && all[k] == f;
        assert(frames[k] == f);
    }
    let kept = capped(fresh);
    if kept.contains(f) {
        let k = choose|k: int| 0 <= k < kept.len() && kept[k] == f;
        assert(kept[k] == fresh[k + (fresh.len() - kept.len())]);
        assert(fresh.contains(f));
    }
    reveal(Seq::filter);
    assert(all.drop_last() =~= frames);
    assert(fresh.last() == frame);
    assert(kept[kept.len() - 1] == frame);
}

/// Where there are too many, it is the oldest that go.
pub proof fn the_newest_frames_stay(frames: Seq<NetFrame>)
    ensures
        capped(frames).is_suffix_of(frames),
        frames.len() <= 50_000 ==> capped(frames).len() == frames.len(),
        frames.len() > 50_000 ==> capped(frames).len() == 50_000,
{
    assert(capped(frames) =~= frames.skip(frames.len() - capped(frames).len()));
}

// ---------------------------------------------------------------------------
// Curves
// ---------------------------------------------------------------------------

proof fn no_points(t: u64, samples: Seq<(Seq<char>, Figure, Figure, bool)>, uuid: Seq<char>)
    requires
        forall|k: int| 0 <= k < samples.len() ==> (#[trigger] samples[k]).0 != uuid,
    ensures
        points_among(t, samples, uuid) == Seq::<NetPoint>::empty(),
    decreases samples.len(),
{
    if samples.len() > 0 {
        let less = samples.drop_last();
        assert(samples[samples.len() - 1].0 != uuid);
        assert forall|k: int| 0 <= k < less.len() implies (#[trigger] less[k]).0 != uuid by {
            assert(less[k] == samples[k]);
        }
        no_points(t, less, uuid);
    }
}

/// In a frame that has an id once, that node has one point: its own upload and
/// download at the frame's time.
pub proof fn a_sample_is_a_point(
    t: u64,
    samples: Seq<(Seq<char>, Figure, Figure, bool)>,
    i: int,
)
    requires
        0 <= i < samples.len(),
        forall|k: int| 0 <= k < samples.len() && k != i ==> (#[trigger] samples[k]).0 != samples[i].0,
    ensures
        ({
            let points = points_among(t, samples, samples[i].0);
            &&& points.len() == 1
            &&& points[0].t == t
            &&& points[0].up == samples[i].1
            &&& points[0].down == samples[i].2
            &&& points[0].online == samples[i].3
        }),
    decreases samples.len(),
{
    let less = samples.drop_last();
    if i < less.len() {
        assert(less[i] == samples[i]);
        assert(samples[samples.len() - 1].0 != samples[i].0);
        assert forall|k: int| 0 <= k < less.len() && k != i implies (#[trigger] less[k]).0
            != less[i].0 by {
            assert(less[k] == samples[k]);
        }
        a_sample_is_a_point(t, less, i);
    } else {
        assert forall|k: int| 0 <= k < less.len() implies (#[trigger] less[k]).0 != samples[i].0 by {
            assert(less[k] == samples[k]);
        }
        no_points(t, less, samples[i].0);
    }
}

/// One more sample is one more point of the node that it is of, and of no other.
pub proof fn samples_go_on(
    t: u64,
    samples: Seq<(Seq<char>, Figure, Figure, bool)>,
    s: (Seq<char>, Figure, Figure, bool),
    uuid: Seq<char>,
)
    ensures
        s.0 != uuid ==> points_among(t, samples.push(s), uuid) == points_among(t, samples, uuid),
        s.0 == uuid ==> points_among(t, samples.push(s), uuid) == points_among(
            t,
            samples,
            uuid,
        ).push(NetPoint { t, up: s.1, down: s.2, online: s.3 }),
{
    assert(samples.push(s).drop_last() =~= samples);
}

/// The curve of a node goes on with its points in the next frame.
pub proof fn curves_go_on(frames: Seq<FrameFacts>, frame: FrameFacts, uuid: Seq<char>)
    ensures
        node_points(frames.push(frame), uuid) == node_points(frames, uuid) + points_among(
            frame.t,
            frame.nodes,
            uuid,
        ),
        node_points(Seq::empty(), uuid) == Seq::<NetPoint>::empty(),
        frame_totals(frames.push(frame)) == frame_totals(frames).push(frame_total(frame)),
{
    assert(frames.push(frame).drop_last() =~= frames);
    assert(frame_totals(frames.push(frame)) =~= frame_totals(frames).push(frame_total(frame)));
}

/// A curve of nodes with different ids ends with what was published last: for
/// each node its own upload and download.
pub proof fn curves_end_with_what_was_published(
    before: Seq<FrameFacts>,
    frame: NetFrame,
    snap: MonitorSnapshot,
    i: int,
)
    requires
        frame@ == (FrameFacts { t: snap.last_update_ms, nodes: rates_of(snap.nodes@) }),
        0 <= i < snap.nodes@.len(),
        forall|k: int|
            0 <= k < snap.nodes@.len() && k != i ==> (#[trigger] snap.nodes@[k]).uuid@
                != snap.nodes@[i].uuid@,
    ensures
        ({
            let points = node_points(before.push(frame@), snap.nodes@[i].uuid@);
            &&& points.len() == node_points(before, snap.nodes@[i].uuid@).len() + 1
            &&& points.last().t == snap.last_update_ms
            &&& points.last().up == snap.nodes@[i].net_up
            &&& points.last().down == snap.nodes@[i].net_down
            &&& points.last().online == snap.nodes@[i].online
        }),
{
    let samples = rates_of(snap.nodes@);
    curves_go_on(before, frame@, snap.nodes@[i].uuid@);
    assert forall|k: int| 0 <= k < samples.len() && k != i implies (#[trigger] samples[k]).0
        != samples[i].0 by {
        assert(snap.nodes@[k].uuid@ != snap.nodes@[i].uuid@);
    }
    a_sample_is_a_point(snap.last_update_ms, samples, i);
}

/// The curve of all nodes adds up rates, here in parts of `1 / 2^i`: uploads to
/// the upload, downloads to the download, at the frame's time.
pub proof fn frames_add_up(frame: FrameFacts, up: Seq<nat>, down: Seq<nat>, i: nat)
    requires
        up.len() == frame.nodes.len(),
        down.len() == frame.nodes.len(),
        forall|k: int|
            0 <= k < frame.nodes.len() ==> (#[trigger] frame.nodes[k]).1 == dyadic(up[k] as int, i)
                && frame.nodes[k].2 == dyadic(down[k] as int, i),
        added(up) < 0x20_0000_0000_0000,
        added(down) < 0x20_0000_0000_0000,
        i <= 1000,
    ensures
        frame_total(frame).t == frame.t,
        frame_total(frame).up == dyadic(added(up) as int, i),
        frame_total(frame).down == dyadic(added(down) as int, i),
        frame_total(frame).online,
{
    let sent = frame.nodes.map_values(|s: (Seq<char>, Figure, Figure, bool)| s.1);
    let received = frame.nodes.map_values(|s: (Seq<char>, Figure, Figure, bool)| s.2);
    assert forall|k: int| 0 <= k < sent.len() implies #[trigger] sent[k] == dyadic(up[k] as int, i) by {
        assert(frame.nodes[k].1 == dyadic(up[k] as int, i));
    }
    assert forall|k: int| 0 <= k < received.len() implies #[trigger] received[k] == dyadic(
        down[k] as int,
        i,
    ) by {
        assert(frame.nodes[k].2 == dyadic(down[k] as int, i));
    }
    dyadics_total(sent, up, i);
    dyadics_total(received, down, i);
}

/// Some points made one have the mean upload and the mean download: in parts of
/// `1 / 2^i`, each lies between any two numbers of parts that the exact one lies
/// between, and is exact where that is such a number.
pub proof fn buckets_have_their_mean(
    points: Seq<NetPoint>,
    up: Seq<nat>,
    down: Seq<nat>,
    i: nat,
    m: nat,
    j: nat,
)
    requires
        0 < points.len() < 0x1_0000_0000,
        points.len() * pow2(i) < 0x20_0000_0000_0000,
        up.len() == points.len(),
        down.len() == points.len(),
        forall|k: int|
            0 <= k < points.len() ==> (#[trigger] points[k]).up == dyadic(up[k] as int, i)
                && points[k].down == dyadic(down[k] as int, i),
        added(up) < 0x20_0000_0000_0000,
        added(down) < 0x20_0000_0000_0000,
        m < 0x20_0000_0000_0000,
        i <= 1000,
        j <= 1000,
    ensures
        ({
            let got = averaged(points);
            let parts = points.len() * pow2(i);
            &&& m * parts <= added(up) * pow2(j) ==> dyadic(m as int, j).at_most(got.up)
            &&& added(up) * pow2(j) <= m * parts ==> got.up.at_most(dyadic(m as int, j))
            &&& added(up) * pow2(j) == m * parts ==> got.up == dyadic(m as int, j)
            &&& m * parts <= added(down) * pow2(j) ==> dyadic(m as int, j).at_most(got.down)
            &&& added(down) * pow2(j) <= m * parts ==> got.down.at_most(dyadic(m as int, j))
            &&& added(down) * pow2(j) == m * parts ==> got.down == dyadic(m as int, j)
        }),
{
    assert forall|k: int| 0 <= k < points.len() implies #[trigger] ups(points)[k] == dyadic(
        up[k] as int,
        i,
    ) by {
        assert(points[k].up == dyadic(up[k] as int, i));
    }
    assert forall|k: int| 0 <= k < points.len() implies #[trigger] downs(points)[k] == dyadic(
        down[k] as int,
        i,
    ) by {
        assert(points[k].down == dyadic(down[k] as int, i));
    }
    means_are_bracketed(ups(points), up, i, m, j);
    means_are_bracketed(downs(points), down, i, m, j);
}

/// Points made one have the time of the one in the middle, and are online where
/// any was.
pub proof fn buckets_stand_in_their_middle(points: Seq<NetPoint>, k: int)
    requires
        0 <= k < points.len(),
        2 * k <= points.len() < 2 * k + 2,
    ensures
        averaged(points).t == points[k].t,
        averaged(points).online <==> exists|i: int|
            0 <= i < points.len() && (#[trigger] points[i]).online,
{
}

/// A level series stays level, whatever is made of it.
pub proof fn level_buckets_stay_level(points: Seq<NetPoint>, up: nat, down: nat)
    requires
        0 < points.len() < 0x1_0000,
        up < 0x10_0000_0000,
        down < 0x10_0000_0000,
        forall|i: int|
            0 <= i < points.len() ==> (#[trigger] points[i]).up == whole(up) && points[i].down
                == whole(down),
    ensures
        averaged(points).up == whole(up),
        averaged(points).down == whole(down),
{
    let sent = Seq::new(points.len(), |i: int| up);
    let received = Seq::new(points.len(), |i: int| down);
    added_alike(sent, up);
    added_alike(received, down);
    let n = points.len();
    assert(up * n < 0x10_0000_0000 * 0x1_0000 && down * n < 0x10_0000_0000 * 0x1_0000)
        by (nonlinear_arith)
        requires
            0 < n < 0x1_0000,
            up < 0x10_0000_0000,
            down < 0x10_0000_0000,
    ;
    lemma2_to64();
    assert(n * 1 == n && added(sent) * 1 == added(sent) && added(received) * 1 == added(received));
    buckets_have_their_mean(points, sent, received, 0, up, 0);
    buckets_have_their_mean(points, sent, received, 0, down, 0);
}

/// Up to 720 points are drawn as they are. More are made into 720 at most, by
/// the least number of neighbours that does it, in order and without leaving any
/// out.
pub proof fn long_series_are_thinned_evenly(points: Seq<NetPoint>, i: int)
    ensures
        points.len() <= 720 ==> downsampled(points) == points,
        points.len() > 720 ==> {
            let n = points.len() as int;
            let step = bucket_size(n);
            let out = downsampled(points);
            &&& 720 * (step - 1) < n <= 720 * step
            &&& (out.len() - 1) * step < n <= out.len() * step
            &&& out.len() <= 720
            &&& 0 <= i < out.len() && (i + 1) * step <= n ==> out[i] == averaged(
                points.subrange(i * step, (i + 1) * step),
            )
            &&& out[out.len() - 1] == averaged(points.subrange((out.len() - 1) * step, n))
        },
{
    if points.len() > 720 {
        let n = points.len() as int;
        let step = bucket_size(n);
        up_to(n, 720);
        up_to(n, step);
        let len = downsampled(points).len() as int;
        assert(len <= 720) by (nonlinear_arith)
            requires
                (len - 1) * step < n,
                n <= 720 * step,
                step >= 1,
        ;
        assert(len >= 1) by (nonlinear_arith)
            requires
                n <= len * step,
                n > 720,
                step >= 1,
        ;
    }
}

proof fn up_to(n: int, d: int)
    requires
        n > 0,
        d > 0,
    ensures
        d * (div_up(n, d) - 1) < n <= d * div_up(n, d),
        (div_up(n, d) - 1) * d < n <= div_up(n, d) * d,
        div_up(n, d) >= 1,
{
    let q = div_up(n, d);
    vstd::arithmetic::div_mod::lemma_fundamental_div_mod(n + d - 1, d);
    let r = (n + d - 1) % d;
    assert(d * (q - 1) == d * q - d && (q - 1) * d == d * (q - 1) && q * d == d * q)
        by (nonlinear_arith);
    assert(q >= 1) by (nonlinear_arith)
        requires
            d * q + r == n + d - 1,
            0 <= r < d,
            n > 0,
            d > 0,
    ;
}

/// A range of seconds ends now and begins that long ago: a minute at least, six
/// hours at most, and not before all time.
pub proof fn ranges_end_now(secs: u64, now: u64)
    ensures
        60 <= secs <= 21_600 && secs * 1000 <= now ==> range_start(secs, now) + secs * 1000 == now,
        60 <= secs <= 21_600 && now <= secs * 1000 ==> range_start(secs, now) == 0,
        secs < 60 ==> range_start(secs, now) == range_start(60, now),
        secs > 21_600 ==> range_start(secs, now) == range_start(21_600, now),
{
}

/// The curves that are sent: that of all nodes together and one of each node
/// that has points, each thinned by itself.
pub proof fn curves_are_sent_apart(payload: NetHistoryPayload, frames: Seq<FrameFacts>, uuid: Seq<char>)
    requires
        payload_of(payload, frames),
    ensures
        payload.aggregate@.len() <= 720,
        frames.len() <= 720 ==> payload.aggregate@ == frame_totals(frames),
        frames.len() > 720 ==> payload.aggregate@ == downsampled(frame_totals(frames)),
        payload.nodes@.contains_key(uuid) ==> payload.nodes@[uuid]@.len() <= 720 && payload.nodes@[uuid]@
            == downsampled(node_points(frames, uuid)),
        payload.nodes@.contains_key(uuid) <==> node_points(frames, uuid).len() > 0,
        payload.nodes@.contains_key(uuid) && node_points(frames, uuid).len() <= 720
            ==> payload.nodes@[uuid]@ == node_points(frames, uuid),
{
    long_series_are_thinned_evenly(frame_totals(frames), 0);
    long_series_are_thinned_evenly(node_points(frames, uuid), 0);
}

// ---------------------------------------------------------------------------
// Folding pings in, and new settings
// ---------------------------------------------------------------------------

/// A node with a summary shows the summary's latency as its latency and the
/// summary's loss as its loss; the rest of it, and a node without, stay.
pub proof fn pings_are_shown_where_they_belong(
    nodes: Seq<NodeSnapshot>,
    records: Map<Seq<char>, PingData>,
    i: int,
)
    requires
        0 <= i < nodes.len(),
    ensures
        ({
            let got = all_with_ping(nodes, summaries_of(records));
            let uuid = nodes[i].uuid@;
            &&& got.len() == nodes.len()
            &&& records.contains_key(uuid) ==> got[i].latency == records[uuid].summary.latency
            &&& records.contains_key(uuid) ==> got[i].loss == records[uuid].summary.loss
            &&& !records.contains_key(uuid) ==> got[i] == nodes[i]
            &&& got[i] == (NodeSnapshot {
                latency: got[i].latency,
                loss: got[i].loss,
                ..nodes[i]
            })
        }),
{
    let got = all_with_ping(nodes, summaries_of(records));
    assert(got[i] == with_ping(nodes[i], summaries_of(records)));
}

/// The ids of nodes, one for one.
pub proof fn ids_are_those_of_nodes(nodes: Seq<NodeSnapshot>, i: int)
    requires
        0 <= i < nodes.len(),
    ensures
        uuids_of(nodes).len() == nodes.len(),
        uuids_of(nodes)[i] == nodes[i].uuid@,
{
}

/// The tray is drawn anew a second after the last time, and the first time.
pub proof fn the_tray_is_drawn_each_second(last: u64, now: u64)
    ensures
        tray_is_due(None, now),
        tray_is_due(Some(last), now) <==> last + 1_000 <= now,
{
}

/// Settings with the same address, key and certificate rule keep what is shown
/// and its history; with another of these they begin anew, connecting. Nothing
/// else of the state changes but the settings and their count.
pub proof fn new_targets_begin_anew(before: AppState, settings: Settings, now: u64, after: AppState)
    requires
        taken_over(before, settings, now, after),
    ensures
        after.settings == settings,
        after.config_epoch == before.config_epoch + 1,
        after.provider == before.provider,
        after.ping_records == before.ping_records,
        after.loaded_panel_url == before.loaded_panel_url,
        after.chart_hidden_at == before.chart_hidden_at,
        after.chart_pinned == before.chart_pinned,
        after.chart_below == before.chart_below,
        after.panel == before.panel,
        settings.backend_url@ == before.settings.backend_url@ && settings.api_key@
            == before.settings.api_key@ && settings.accept_invalid_certs
            == before.settings.accept_invalid_certs ==> after.net_history == before.net_history
            && after.snapshot == before.snapshot,
        settings.backend_url@ != before.settings.backend_url@ || settings.api_key@
            != before.settings.api_key@ || settings.accept_invalid_certs
            != before.settings.accept_invalid_certs ==> {
            &&& after.net_history@.len() == 0
            &&& !after.snapshot.backend_ok
            &&& after.snapshot.nodes@.len() == 0
            &&& after.snapshot.error is Some
            &&& after.snapshot.error.unwrap()@ == "正在连接后端…"@
            &&& after.snapshot.last_update_ms == now
        },
{
    assert(after.snapshot@.nodes.len() == after.snapshot.nodes@.len());
}

/// After a round of pings each listed node has the records fetched for it, or
/// else those it had; no other node has any.
pub proof fn rounds_replace_what_they_fetched(
    kept: Map<Seq<char>, PingData>,
    nodes: Seq<NodeSnapshot>,
    fresh: Map<Seq<char>, PingData>,
    i: int,
    uuid: Seq<char>,
)
    ensures
        ({
            let now = records_after(kept, nodes, fresh);
            &&& fresh.contains_key(uuid) ==> now.contains_key(uuid) && now[uuid] == fresh[uuid]
            &&& 0 <= i < nodes.len() && nodes[i].uuid@ == uuid && !fresh.contains_key(uuid) ==> {
                &&& now.contains_key(uuid) <==> kept.contains_key(uuid)
                &&& kept.contains_key(uuid) ==> now[uuid] == kept[uuid]
            }
            &&& !fresh.contains_key(uuid) && (forall|k: int|
                0 <= k < nodes.len() ==> (#[trigger] nodes[k]).uuid@ != uuid)
                ==> !now.contains_key(uuid)
        }),
{
    let ids = uuids_of(nodes);
    if 0 <= i < nodes.len() && nodes[i].uuid@ == uuid {
        assert(ids[i] == uuid);
        assert(ids.contains(uuid));
    }
    if ids.contains(uuid) {
        let k = choose|k: int| 0 <= k < ids.len() && ids[k] == uuid;
        assert(nodes[k].uuid@ == uuid);
    }
}

} // verus!
