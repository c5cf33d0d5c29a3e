//! What the windows ask for: settings, node lists, curves, connection tests
//! and updates.

use vstd::prelude::*;

use crate::arithmetic::{divide_figures, quotient, total, total_of, whole, whole_figure};
use crate::decimal::{decimal, digits};
use crate::figure::Figure;
use crate::http::{is_success, success, HttpStatus, NOT_FOUND, UNAUTHORIZED};
use crate::json::{json_get, json_of, json_read, json_text, member_of, read_json, text_in};
use crate::models::Settings;
use crate::order::{sorted_from, views};
use crate::providers::{komari, node_list_url};
use crate::providers::komari::{by_uuid, known_in, record_points, records_in, refusal, refusal_text, split_tags, NO_DATA};
use crate::state::{from_time, same_target, taken_over, AppState, NetFrame, NetHistory, NetPoint, FrameFacts, HISTORY_RETENTION_MS};
use crate::table::Table;
use crate::text::{can_shorten, has_short_form, joined, same, short_form, shortened, split_on, text_if, texts, trim, trimmed, trimmed_pieces};
use crate::urls::{normal_base, normalize_base};
use crate::version::{parse_release_version, tag_version, version_after, version_read, version_text, Release, ReleaseFacts};
use crate::wire::{ClientInfo, Envelope};

pub use crate::calendar::{days_from_civil, parse_rfc3339_ms};

verus! {

pub const GITHUB_REPOSITORY_URL: &'static str = "https://github.com/Gongsc/hotaru";

pub const GITHUB_RELEASES_URL: &'static str = "https://github.com/Gongsc/hotaru/releases/latest";

pub const GITHUB_LATEST_RELEASE_API: &'static str =
    "https://api.github.com/repos/Gongsc/hotaru/releases/latest";

// ---------------------------------------------------------------------------
// About and updates
// ---------------------------------------------------------------------------

#[derive(Debug)]
pub struct AppInfo {
    pub version: String,
    pub repository_url: &'static str,
}

pub fn get_app_info(version: &Release) -> (res: AppInfo)
    ensures
        res.version@ == version_text(version@),
        res.repository_url@ == GITHUB_REPOSITORY_URL@,
{
    AppInfo { version: version.display(), repository_url: GITHUB_REPOSITORY_URL }
}

/// What GitHub says of a release.
#[derive(Debug)]
pub struct GitHubRelease {
    pub tag_name: String,
    pub html_url: String,
    pub name: Option<String>,
    pub published_at: Option<String>,
}

#[derive(Debug)]
pub struct UpdateCheckResult {
    pub current_version: String,
    pub latest_version: String,
    pub update_available: bool,
    pub release_url: String,
    pub release_name: Option<String>,
    pub published_at: Option<String>,
}

/// What came of asking GitHub.
#[derive(Debug)]
pub enum UpdateReply {
    /// No client could be made; why.
    NoClient(String),
    SendFailed(String),
    Answered { status: HttpStatus, body: Result<GitHubRelease, String> },
}

/// Whether there is a newer release, or why nobody knows.
pub fn check_for_updates(current: &Release, reply: UpdateReply) -> (res: Result<
    UpdateCheckResult,
    String,
>)
    ensures
        match reply {
            UpdateReply::NoClient(e) => res is Err && res->Err_0@ == "无法初始化更新检查: "@ + e@,
            UpdateReply::SendFailed(e) => res is Err && res->Err_0@ == "无法连接 GitHub: "@ + e@,
            UpdateReply::Answered { status, body } => if status.code == NOT_FOUND {
                res is Err && res->Err_0@ == "GitHub 仓库尚未发布 Release"@
            } else if !success(status.code) {
                res is Err && res->Err_0@ == "GitHub 返回 HTTP "@ + status.text@
            } else {
                match body {
                    Err(e) => res is Err && res->Err_0@ == "GitHub Release 响应格式无效: "@ + e@,
                    Ok(release) => match version_read(tag_version(release.tag_name@)) {
                        None => res is Err && res->Err_0@ == "无法识别 Release 版本号："@
                            + release.tag_name@,
                        Some(latest) => res is Ok && told_of_update(
                            res->Ok_0,
                            *current,
                            release,
                            latest,
                        ),
                    },
                }
            },
        },
{
    match reply {
        UpdateReply::NoClient(e) => Err(joined("无法初始化更新检查: ", e.as_str())),
        UpdateReply::SendFailed(e) => Err(joined("无法连接 GitHub: ", e.as_str())),
        UpdateReply::Answered { status, body } => if status.code == NOT_FOUND {
            Err("GitHub 仓库尚未发布 Release".to_owned())
        } else if !is_success(status.code) {
            Err(joined("GitHub 返回 HTTP ", status.text.as_str()))
        } else {
            match body {
                Err(e) => Err(joined("GitHub Release 响应格式无效: ", e.as_str())),
                Ok(release) => match parse_release_version(release.tag_name.as_str()) {
                    Err(message) => Err(message),
                    Ok(latest) => Ok(
                        UpdateCheckResult {
                            current_version: current.display(),
                            latest_version: latest.display(),
                            update_available: latest.is_after(current),
                            release_url: release.html_url,
                            release_name: release.name,
                            published_at: release.published_at,
                        },
                    ),
                },
            }
        },
    }
}

/// What is told of a release that was found.
pub open spec fn told_of_update(
    told: UpdateCheckResult,
    current: Release,
    release: GitHubRelease,
    latest: ReleaseFacts,
) -> bool {
    &&& told.current_version@ == version_text(current@)
    &&& told.current_version@ == current.written()
    &&& told.latest_version@ == version_text(latest)
    &&& told.latest_version@ == tag_version(release.tag_name@)
    &&& told.update_available == version_after(
        tag_version(release.tag_name@),
        current.written(),
    )
    &&& crate::version::placed(latest, current@, told.update_available)
    &&& told.release_url@ == release.html_url@
    &&& text_if(told.release_name) == text_if(release.name)
    &&& text_if(told.published_at) == text_if(release.published_at)
}

/// The pages that may be opened.
pub open spec fn page_url(page: Seq<char>) -> Option<Seq<char>> {
    if page == "repository"@ {
        Some(GITHUB_REPOSITORY_URL@)
    } else if page == "releases"@ {
        Some(GITHUB_RELEASES_URL@)
    } else {
        None
    }
}

pub fn github_page_url(page: &str) -> (res: Option<&'static str>)
    ensures
        match res {
            Some(url) => page_url(page@) == Some(url@),
            None => page_url(page@) is None,
        },
{
    if same(page, "repository") {
        Some(GITHUB_REPOSITORY_URL)
    } else if same(page, "releases") {
        Some(GITHUB_RELEASES_URL)
    } else {
        None
    }
}

/// The address to open for a page, or why there is none.
pub fn open_github_page(page: &str) -> (res: Result<&'static str, String>)
    ensures
        match page_url(page@) {
            Some(url) => res is Ok && res->Ok_0@ == url,
            None => res is Err && res->Err_0@ == "不支持的 GitHub 页面"@,
        },
{
    match github_page_url(page) {
        Some(url) => Ok(url),
        None => Err("不支持的 GitHub 页面".to_owned()),
    }
}

/// Only the project's own two pages are ever opened.
pub proof fn only_own_pages_are_opened(page: Seq<char>)
    ensures
        page_url(page) is Some ==> page_url(page) == Some(GITHUB_REPOSITORY_URL@) || page_url(page)
            == Some(GITHUB_RELEASES_URL@),
        page_url(page) is Some <==> page == "repository"@ || page == "releases"@,
{
}

// ---------------------------------------------------------------------------
// Curves
// ---------------------------------------------------------------------------

/// Target point count per series returned by `get_net_history`; larger
/// histories are bucket-averaged so what is sent stays small.
pub const HISTORY_MAX_SERIES_POINTS: usize = 720;

/// A division rounded up.
pub open spec fn div_up(n: int, d: int) -> int {
    (n + d - 1) / d
}

/// How many points go into one bucket.
pub open spec fn bucket_size(n: int) -> int {
    div_up(n, HISTORY_MAX_SERIES_POINTS as int)
}

/// The points of one bucket.
pub open spec fn bucket(points: Seq<NetPoint>, step: int, i: int) -> Seq<NetPoint> {
    let end = (i + 1) * step;
    points.subrange(
        i * step,
        if end < points.len() {
            end
        } else {
            points.len() as int
        },
    )
}

pub open spec fn ups(points: Seq<NetPoint>) -> Seq<Figure> {
    points.map_values(|p: NetPoint| p.up)
}

pub open spec fn downs(points: Seq<NetPoint>) -> Seq<Figure> {
    points.map_values(|p: NetPoint| p.down)
}

/// One point for a bucket: the time of its middle, mean rates, online where any
/// of its points is.
pub open spec fn averaged(points: Seq<NetPoint>) -> NetPoint {
    NetPoint {
        t: points[points.len() as int / 2].t,
        up: quotient(total(ups(points)), whole(points.len())),
        down: quotient(total(downs(points)), whole(points.len())),
        online: exists|i: int| 0 <= i < points.len() && (#[trigger] points[i]).online,
    }
}

/// A series brought down to what is sent.
pub open spec fn downsampled(points: Seq<NetPoint>) -> Seq<NetPoint> {
    if points.len() <= HISTORY_MAX_SERIES_POINTS {
        points
    } else {
        let step = bucket_size(points.len() as int);
        Seq::new(
            div_up(points.len() as int, step) as nat,
            |i: int| averaged(bucket(points, step, i)),
        )
    }
}

fn average(points: &[NetPoint], from: usize, to: usize) -> (res: NetPoint)
    requires
        from < to <= points@.len(),
    ensures
        res == averaged(points@.subrange(from as int, to as int)),
{
    let ghost chunk = points@.subrange(from as int, to as int);
    let mut up: Vec<Figure> = Vec::new();
    let mut down: Vec<Figure> = Vec::new();
    let mut online = false;
    let mut i: usize = from;
    while i < to
        invariant
            from <= i <= to <= points@.len(),
            chunk == points@.subrange(from as int, to as int),
            up@ == ups(chunk.take(i - from)),
            down@ == downs(chunk.take(i - from)),
            online == exists|j: int| 0 <= j < i - from && (#[trigger] chunk[j]).online,
        decreases to - i,
    {
        let p = points[i];
        proof {
            let k = i - from;
            assert(chunk[k] == p);
            assert(chunk.take(k + 1) =~= chunk.take(k).push(p));
            assert(ups(chunk.take(k + 1)) =~= ups(chunk.take(k)).push(p.up));
            assert(downs(chunk.take(k + 1)) =~= downs(chunk.take(k)).push(p.down));
        }
        up.push(p.up);
        down.push(p.down);
        if p.online {
            online = true;
        }
        i = i + 1;
    }
    assert(chunk.take(to - from) =~= chunk);
    let n = whole_figure((to - from) as u64);
    let middle: usize = from + (to - from) / 2;
    assert(chunk[(to - from) as int / 2] == points@[middle as int]);
    NetPoint {
        t: points[middle].t,
        up: divide_figures(total_of(&up), n),
        down: divide_figures(total_of(&down), n),
        online,
    }
}

/// Bucket-average a series down to at most `HISTORY_MAX_SERIES_POINTS` points.
pub fn downsample(points: &[NetPoint]) -> (res: Vec<NetPoint>)
    ensures
        res@ == downsampled(points@),
{
    let mut out: Vec<NetPoint> = Vec::new();
    let n: usize = points.len();
    if n <= HISTORY_MAX_SERIES_POINTS {
        let mut i: usize = 0;
        while i < n
            invariant
                i <= n,
                n == points@.len(),
                out@ == points@.take(i as int),
            decreases n - i,
        {
            out.push(points[i]);
            i = i + 1;
            assert(points@.take(i as int) =~= points@.take(i - 1).push(points@[i - 1]));
        }
        assert(points@.take(i as int) =~= points@);
        return out;
    }
    let step: usize = (n - 1) / HISTORY_MAX_SERIES_POINTS + 1;
    assert(step == bucket_size(n as int)) by {
        rounding_up(n as int, HISTORY_MAX_SERIES_POINTS as int);
    }
    let mut from: usize = 0;
    let ghost mut count: int = 0;
    while from < n
        invariant
            n == points@.len(),
            n > HISTORY_MAX_SERIES_POINTS,
            1 < step <= n,
            step == bucket_size(n as int),
            count >= 0,
            from < n ==> from == count * step,
            from >= n ==> from == n && (count - 1) * step < n && n <= count * step,
            out@.len() == count,
            forall|i: int|
                0 <= i < count ==> #[trigger] out@[i] == averaged(bucket(points@, step as int, i)),
        decreases n - from,
    {
        let to: usize = if n - from > step {
            from + step
        } else {
            n
        };
        assert((count + 1) * step == count * step + step) by (nonlinear_arith);
        assert(bucket(points@, step as int, count) =~= points@.subrange(from as int, to as int));
        out.push(average(points, from, to));
        from = to;
        proof {
            count = count + 1;
        }
    }
    proof {
        assert(count == div_up(n as int, step as int)) by (nonlinear_arith)
            requires
                (count - 1) * step < n,
                n <= count * step,
                step > 0,
                div_up(n as int, step as int) == (n + step - 1) / step as int,
        ;
        assert(out@ =~= downsampled(points@));
    }
    out
}

proof fn rounding_up(n: int, d: int)
    requires
        n > 0,
        d > 0,
    ensures
        div_up(n, d) == (n - 1) / d + 1,
{
    assert((n + d - 1) / d == (n - 1) / d + 1) by (nonlinear_arith)
        requires
            n > 0,
            d > 0,
    ;
}

/// A series is never sent with more points than the target, and every point of
/// it counts in exactly one bucket.
pub proof fn downsampling_covers_the_series(points: Seq<NetPoint>, k: int)
    requires
        points.len() > HISTORY_MAX_SERIES_POINTS,
        0 <= k < points.len(),
    ensures
        downsampled(points).len() <= HISTORY_MAX_SERIES_POINTS,
        ({
            let step = bucket_size(points.len() as int);
            let i = k / step;
            &&& 0 <= i < downsampled(points).len()
            &&& i * step <= k < (i + 1) * step
            &&& bucket(points, step, i)[k - i * step] == points[k]
        }),
{
    let n = points.len() as int;
    let max = HISTORY_MAX_SERIES_POINTS as int;
    let step = bucket_size(n);
    rounding_up(n, max);
    assert(step >= 1);
    assert(n <= step * max) by {
        assert(n - 1 < ((n - 1) / max + 1) * max);
    }
    rounding_up(n, step);
    assert((n - 1) / step < max) by (nonlinear_arith)
        requires
            n <= step * max,
            n > 0,
            step > 0,
    ;
    let i = k / step;
    assert(i * step <= k < (i + 1) * step) by (nonlinear_arith)
        requires
            i == k / step,
            step > 0,
    ;
    assert(i <= (n - 1) / step) by (nonlinear_arith)
        requires
            i == k / step,
            k <= n - 1,
            step > 0,
    ;
    assert(i >= 0) by (nonlinear_arith)
        requires
            i == k / step,
            k >= 0,
            step > 0,
    ;
}

// A node's samples, and those of all nodes together.

/// The points of one node in one frame.
pub open spec fn frame_points(frame: FrameFacts, uuid: Seq<char>) -> Seq<NetPoint> {
    points_among(frame.t, frame.nodes, uuid)
}

pub open spec fn points_among(
    t: u64,
    samples: Seq<(Seq<char>, Figure, Figure, bool)>,
    uuid: Seq<char>,
) -> Seq<NetPoint>
    decreases samples.len(),
{
    if samples.len() == 0 {
        Seq::empty()
    } else {
        let before = points_among(t, samples.drop_last(), uuid);
        let s = samples.last();
        if s.0 == uuid {
            before.push(NetPoint { t, up: s.1, down: s.2, online: s.3 })
        } else {
            before
        }
    }
}

/// The points of one node over some frames.
pub open spec fn node_points(frames: Seq<FrameFacts>, uuid: Seq<char>) -> Seq<NetPoint>
    decreases frames.len(),
{
    if frames.len() == 0 {
        Seq::empty()
    } else {
        node_points(frames.drop_last(), uuid) + frame_points(frames.last(), uuid)
    }
}

/// The point of all nodes together in one frame.
pub open spec fn frame_total(frame: FrameFacts) -> NetPoint {
    NetPoint {
        t: frame.t,
        up: total(frame.nodes.map_values(|s: (Seq<char>, Figure, Figure, bool)| s.1)),
        down: total(frame.nodes.map_values(|s: (Seq<char>, Figure, Figure, bool)| s.2)),
        online: true,
    }
}

pub open spec fn frame_totals(frames: Seq<FrameFacts>) -> Seq<NetPoint> {
    frames.map_values(|f: FrameFacts| frame_total(f))
}

#[derive(Debug)]
pub struct NetHistoryPayload {
    pub aggregate: Vec<NetPoint>,
    pub nodes: Table<Vec<NetPoint>>,
}

/// Whether a table holds the points of every node that some frames speak of,
/// and nothing else.
pub open spec fn holds_points(
    table: Map<Seq<char>, Vec<NetPoint>>,
    frames: Seq<FrameFacts>,
) -> bool {
    forall|uuid: Seq<char>|
        #![trigger table.contains_key(uuid)]
        (table.contains_key(uuid) <==> node_points(frames, uuid).len() > 0) && (
        table.contains_key(uuid) ==> table[uuid]@ == node_points(frames, uuid))
}

/// Whether a table holds the points of some frames and of the first samples of
/// one more.
spec fn holds_so_far(
    table: Map<Seq<char>, Vec<NetPoint>>,
    frames: Seq<FrameFacts>,
    t: u64,
    samples: Seq<(Seq<char>, Figure, Figure, bool)>,
) -> bool {
    forall|uuid: Seq<char>|
        #![trigger table.contains_key(uuid)]
        (table.contains_key(uuid) <==> (node_points(frames, uuid) + points_among(
            t,
            samples,
            uuid,
        )).len() > 0) && (table.contains_key(uuid) ==> table[uuid]@ == node_points(frames, uuid)
            + points_among(t, samples, uuid))
}

fn collect_frame(
    table: &mut Table<Vec<NetPoint>>,
    frame: &NetFrame,
    Ghost(frames): Ghost<Seq<FrameFacts>>,
) -> (res: NetPoint)
    requires
        holds_points(old(table)@, frames),
    ensures
        holds_points(final(table)@, frames.push(frame@)),
        res == frame_total(frame@),
{
    let ghost samples = frame@.nodes;
    let mut up: Vec<Figure> = Vec::new();
    let mut down: Vec<Figure> = Vec::new();
    let mut i: usize = 0;
    proof {
        assert forall|uuid: Seq<char>|
            #![trigger table@.contains_key(uuid)]
            (table@.contains_key(uuid) <==> (node_points(frames, uuid) + points_among(
                frame.t,
                samples.take(0),
                uuid,
            )).len() > 0) && (table@.contains_key(uuid) ==> table@[uuid]@ == node_points(
                frames,
                uuid,
            ) + points_among(frame.t, samples.take(0), uuid)) by {
            assert(node_points(frames, uuid) + points_among(frame.t, samples.take(0), uuid)
                =~= node_points(frames, uuid));
        }
    }
    while i < frame.nodes.len()
        invariant
            i <= frame.nodes@.len(),
            samples == frame@.nodes,
            up@.len() == i,
            down@.len() == i,
            forall|j: int| 0 <= j < i ==> #[trigger] up@[j] == samples[j].1,
            forall|j: int| 0 <= j < i ==> #[trigger] down@[j] == samples[j].2,
            holds_so_far(table@, frames, frame.t, samples.take(i as int)),
        decreases frame.nodes@.len() - i,
    {
        let sample = &frame.nodes[i];
        let point = NetPoint { t: frame.t, up: sample.1, down: sample.2, online: sample.3 };
        let ghost before = table@;
        up.push(sample.1);
        down.push(sample.2);
        table.push_under(sample.0.as_str(), point);
        proof {
            let key = sample.0@;
            let less = samples.take(i as int);
            let more = samples.take(i + 1);
            assert(more.drop_last() =~= less);
            assert(more.last() == (key, sample.1, sample.2, sample.3));
            assert forall|uuid: Seq<char>|
                #![trigger table@.contains_key(uuid)]
                (table@.contains_key(uuid) <==> (node_points(frames, uuid) + points_among(
                    frame.t,
                    more,
                    uuid,
                )).len() > 0) && (table@.contains_key(uuid) ==> table@[uuid]@ == node_points(
                    frames,
                    uuid,
                ) + points_among(frame.t, more, uuid)) by {
                assert(before.contains_key(uuid) <==> (node_points(frames, uuid) + points_among(
                    frame.t,
                    less,
                    uuid,
                )).len() > 0);
                if uuid == key {
                    assert(node_points(frames, uuid) + points_among(frame.t, more, uuid) =~= (
                    node_points(frames, uuid) + points_among(frame.t, less, uuid)).push(point));
                    if !before.contains_key(key) {
                        assert(seq![point] =~= (node_points(frames, uuid) + points_among(
                            frame.t,
                            less,
                            uuid,
                        )).push(point));
                    }
                } else {
                    assert(points_among(frame.t, more, uuid) == points_among(
                        frame.t,
                        less,
                        uuid,
                    ));
                }
            }
        }
        i = i + 1;
    }
    proof {
        assert(samples.take(i as int) =~= samples);
        let all = frames.push(frame@);
        assert(all.drop_last() =~= frames);
        assert(up@ =~= samples.map_values(|s: (Seq<char>, Figure, Figure, bool)| s.1));
        assert(down@ =~= samples.map_values(|s: (Seq<char>, Figure, Figure, bool)| s.2));
        assert forall|uuid: Seq<char>|
            #![trigger table@.contains_key(uuid)]
            (table@.contains_key(uuid) <==> node_points(all, uuid).len() > 0) && (
            table@.contains_key(uuid) ==> table@[uuid]@ == node_points(all, uuid)) by {
            assert(node_points(all, uuid) == node_points(frames, uuid) + frame_points(
                frame@,
                uuid,
            ));
        }
    }
    NetPoint { t: frame.t, up: total_of(&up), down: total_of(&down), online: true }
}

/// The oldest time that a range reaches back to: at least a minute, at most as
/// long as history is kept.
pub open spec fn range_start(range_secs: u64, now: u64) -> int {
    let secs = crate::models::held(
        range_secs as int,
        60,
        HISTORY_RETENTION_MS as int / 1000,
    );
    if now < secs * 1000 {
        0
    } else {
        now - secs * 1000
    }
}

/// Whether a payload is what some frames come to.
pub open spec fn payload_of(payload: NetHistoryPayload, frames: Seq<FrameFacts>) -> bool {
    &&& payload.aggregate@ == downsampled(frame_totals(frames))
    &&& forall|uuid: Seq<char>|
        #![trigger payload.nodes@.contains_key(uuid)]
        (payload.nodes@.contains_key(uuid) <==> node_points(frames, uuid).len() > 0) && (
        payload.nodes@.contains_key(uuid) ==> payload.nodes@[uuid]@ == downsampled(
            node_points(frames, uuid),
        ))
}

/// The curves of all nodes together and of each, over a range that ends now.
pub fn get_net_history(history: &NetHistory, range_secs: u64, now: u64) -> (res: NetHistoryPayload)
    ensures
        payload_of(res, views(from_time(history@, range_start(range_secs, now)))),
{
    let longest: u64 = HISTORY_RETENTION_MS / 1000;
    let secs: u64 = if range_secs < 60 {
        60
    } else if range_secs > longest {
        longest
    } else {
        range_secs
    };
    let since: u64 = now.saturating_sub(secs * 1000);
    let frames = history.since(since);
    let ghost all = views(frames@);
    assert(all == views(from_time(history@, range_start(range_secs, now))));
    let mut totals: Vec<NetPoint> = Vec::new();
    let mut table: Table<Vec<NetPoint>> = Table::new();
    let mut i: usize = 0;
    assert(all.take(0) =~= Seq::<FrameFacts>::empty());
    while i < frames.len()
        invariant
            i <= frames@.len(),
            all == views(frames@),
            totals@ == frame_totals(all.take(i as int)),
            holds_points(table@, all.take(i as int)),
        decreases frames@.len() - i,
    {
        let ghost seen = all.take(i as int);
        let point = collect_frame(&mut table, &frames[i], Ghost(seen));
        totals.push(point);
        i = i + 1;
        proof {
            assert(all.take(i as int) =~= seen.push(frames@[i - 1]@));
            assert(frame_totals(all.take(i as int)) =~= frame_totals(seen).push(point));
        }
    }
    assert(all.take(i as int) =~= all);
    let aggregate = downsample(totals.as_slice());
    let mut nodes: Table<Vec<NetPoint>> = Table::new();
    let count: usize = table.len();
    let ghost rows = table.rows();
    let mut j: usize = 0;
    proof {
        crate::table::map_holds_its_rows(rows);
    }
    while j < count
        invariant
            j <= count,
            count == rows.len(),
            rows == table.rows(),
            crate::table::rising(rows),
            forall|uuid: Seq<char>|
                #![trigger nodes@.contains_key(uuid)]
                nodes@.contains_key(uuid) <==> exists|k: int|
                    0 <= k < j && #[trigger] rows[k].0 == uuid,
            forall|k: int|
                0 <= k < j ==> nodes@[#[trigger] rows[k].0]@ == downsampled(rows[k].1@),
        decreases count - j,
    {
        let points = downsample(table.value(j).as_slice());
        let ghost before = nodes@;
        nodes.insert(table.key(j).clone(), points);
        proof {
            let key = rows[j as int].0;
            assert forall|uuid: Seq<char>|
                #![trigger nodes@.contains_key(uuid)]
                nodes@.contains_key(uuid) <==> exists|k: int|
                    0 <= k < j + 1 && #[trigger] rows[k].0 == uuid by {
                if nodes@.contains_key(uuid) && uuid != key {
                    assert(before.contains_key(uuid));
                    let k = choose|k: int| 0 <= k < j && #[trigger] rows[k].0 == uuid;
                    assert(rows[k].0 == uuid);
                }
                if exists|k: int| 0 <= k < j + 1 && #[trigger] rows[k].0 == uuid {
                    let k = choose|k: int| 0 <= k < j + 1 && #[trigger] rows[k].0 == uuid;
                    if k < j {
                        assert(before.contains_key(uuid));
                    }
                }
            }
            assert forall|k: int| 0 <= k < j + 1 implies nodes@[#[trigger] rows[k].0]@
                == downsampled(rows[k].1@) by {
                if k < j {
                    assert(rows[k].0 != rows[j as int].0);
                }
            }
        }
        j = j + 1;
    }
    let res = NetHistoryPayload { aggregate, nodes };
    proof {
        assert forall|uuid: Seq<char>|
            #![trigger res.nodes@.contains_key(uuid)]
            (res.nodes@.contains_key(uuid) <==> node_points(all, uuid).len() > 0) && (
            res.nodes@.contains_key(uuid) ==> res.nodes@[uuid]@ == downsampled(
                node_points(all, uuid),
            )) by {
            assert(table@.contains_key(uuid) <==> node_points(all, uuid).len() > 0);
            if res.nodes@.contains_key(uuid) {
                let k = choose|k: int| 0 <= k < count && #[trigger] rows[k].0 == uuid;
                assert(rows[k].0 == uuid);
                assert(table@.contains_key(rows[k].0));
                assert(table@[uuid] == rows[k].1);
            }
            if table@.contains_key(uuid) {
                let k = choose|k: int| 0 <= k < rows.len() && #[trigger] rows[k].0 == uuid;
                assert(rows[k].0 == uuid);
            }
        }
    }
    res
}

// ---------------------------------------------------------------------------
// Node lists and connection tests
// ---------------------------------------------------------------------------

/// One row of the settings window's node picker.
#[derive(Debug)]
pub struct NodeOption {
    pub uuid: String,
    pub name: String,
    pub tags: Vec<String>,
}

/// What a row says.
#[verifier::ext_equal]
pub struct OptionFacts {
    pub uuid: Seq<char>,
    pub name: Seq<char>,
    pub tags: Seq<Seq<char>>,
}

impl View for NodeOption {
    type V = OptionFacts;

    open spec fn view(&self) -> OptionFacts {
        OptionFacts { uuid: self.uuid@, name: self.name@, tags: texts(self.tags@) }
    }
}

/// The label of a node: its name, or where that is blank the beginning of its
/// id.
pub open spec fn display_name(name: Seq<char>, uuid: Seq<char>) -> Seq<char> {
    if trim(name).len() == 0 {
        "节点 "@ + short_form(uuid)
    } else {
        name
    }
}

/// Whether a node can be labelled.
pub open spec fn displayable(info: ClientInfo) -> bool {
    trim(info.name@).len() == 0 ==> has_short_form(info.uuid@)
}

/// Whether a node can be labelled.
pub fn is_displayable(info: &ClientInfo) -> (res: bool)
    ensures
        res == displayable(*info),
{
    !trimmed(info.name.as_str()).as_str().is_empty() || can_shorten(info.uuid.as_str())
}

/// What the picker calls a node: one whose name the backend left empty as the
/// popover does, so that the two agree. A name of white space alone counts as
/// left empty here, while the popover shows it as it is.
pub fn node_display_name(info: &ClientInfo) -> (out: String)
    requires
        displayable(*info),
    ensures
        out@ == display_name(info.name@, info.uuid@),
{
    if trimmed(info.name.as_str()).as_str().is_empty() {
        joined("节点 ", shortened(info.uuid.as_str()).as_str())
    } else {
        info.name.clone()
    }
}

/// The picker and the popover agree on the label of every node, but for a name
/// of white space alone, which the popover shows as it is.
pub proof fn labels_agree(name: Seq<char>, uuid: Seq<char>)
    requires
        name.len() == 0 || trim(name).len() > 0,
    ensures
        display_name(name, uuid) == komari::shown_name(name, uuid),
{
    if name.len() == 0 {
        assert(trim(name) =~= Seq::<char>::empty());
    }
}

/// Take over settings once they were written to disk, and say whether what was
/// shown went. Settings that could not be written change nothing.
pub fn save_settings(
    state: &mut AppState,
    settings: Settings,
    written: Result<(), String>,
    now: u64,
) -> (res: Result<bool, String>)
    requires
        written is Ok ==> old(state).config_epoch < u64::MAX,
    ensures
        match written {
            Ok(_) => res == Ok::<bool, String>(!same_target(old(state).settings@, settings@))
                && taken_over(*old(state), settings, now, *final(state)),
            Err(e) => res == Err::<bool, String>(e) && *final(state) == *old(state),
        },
{
    match written {
        Ok(_) => Ok(state.apply_settings(settings, now)),
        Err(e) => Err(e),
    }
}

/// What came of asking a backend for its nodes.
#[derive(Debug)]
pub enum NodesReply {
    SendFailed(String),
    Answered { status: HttpStatus, body: Result<Envelope<Vec<ClientInfo>>, String> },
}

/// The node list of a reply, as far as it holds one, or why it is none.
pub open spec fn listed_nodes(reply: NodesReply) -> Result<Option<Seq<ClientInfo>>, Seq<char>> {
    match reply {
        NodesReply::SendFailed(e) => Err("无法连接后端: "@ + e@),
        NodesReply::Answered { status, body } => if status.code == UNAUTHORIZED {
            Err("HTTP 401：站点为私有模式，需要 API Key（管理后台 → 设置 → API Key）"@)
        } else if !success(status.code) {
            Err("后端返回 HTTP "@ + status.text@)
        } else {
            match body {
                Err(e) => Err("响应不是有效的 Komari API: "@ + e@),
                Ok(env) => if env.status@ != "success"@ {
                    Err(refusal_text(env.status@, text_if(env.message)))
                } else {
                    match env.data {
                        Some(data) => Ok(Some(data@)),
                        None => Ok(None),
                    }
                },
            }
        },
    }
}

fn nodes_of(reply: NodesReply) -> (res: Result<Option<Vec<ClientInfo>>, String>)
    ensures
        match listed_nodes(reply) {
            Ok(Some(nodes)) => res is Ok && res->Ok_0 is Some && res->Ok_0.unwrap()@ == nodes,
            Ok(None) => res is Ok && res->Ok_0 is None,
            Err(message) => res is Err && res->Err_0@ == message,
        },
{
    match reply {
        NodesReply::SendFailed(e) => Err(joined("无法连接后端: ", e.as_str())),
        NodesReply::Answered { status, body } => if status.code == UNAUTHORIZED {
            Err(
                "HTTP 401：站点为私有模式，需要 API Key（管理后台 → 设置 → API Key）".to_owned(),
            )
        } else if !is_success(status.code) {
            Err(joined("后端返回 HTTP ", status.text.as_str()))
        } else {
            match body {
                Err(e) => Err(joined("响应不是有效的 Komari API: ", e.as_str())),
                Ok(env) => if !same(env.status.as_str(), "success") {
                    Err(refusal(env.status.as_str(), env.message))
                } else {
                    Ok(env.data)
                },
            }
        },
    }
}

/// Whether a backend answers as one; only then is it worth asking more.
pub fn lists_nodes(reply: &NodesReply) -> (res: bool)
    ensures
        res == (listed_nodes(*reply) is Ok),
{
    match reply {
        NodesReply::SendFailed(_) => false,
        NodesReply::Answered { status, body } => match body {
            Err(_) => false,
            Ok(env) => is_success(status.code) && same(env.status.as_str(), "success"),
        },
    }
}

/// Whether a node of a list is the one known by its id: it has an id, and none
/// behind it has the same.
pub open spec fn known_by_id(list: Seq<ClientInfo>, at: int) -> bool {
    list[at].uuid@.len() > 0 && forall|j: int|
        at < j < list.len() ==> (#[trigger] list[j]).uuid@ != list[at].uuid@
}

/// Those of the first nodes of a list that are known by their ids, in order.
pub open spec fn picked_to(list: Seq<ClientInfo>, n: int) -> Seq<ClientInfo>
    decreases n,
{
    if n <= 0 {
        Seq::empty()
    } else if known_by_id(list, n - 1) {
        picked_to(list, n - 1).push(list[n - 1])
    } else {
        picked_to(list, n - 1)
    }
}

/// The nodes of a list that are known by their ids, in order.
pub open spec fn picked(list: Seq<ClientInfo>) -> Seq<ClientInfo> {
    picked_to(list, list.len() as int)
}

/// The nodes that a reply offers for picking, or why there are none.
pub open spec fn offered_nodes(reply: NodesReply) -> Result<Seq<ClientInfo>, Seq<char>> {
    match listed_nodes(reply) {
        Ok(Some(list)) => Ok(picked(list)),
        Ok(None) => Err(NO_DATA@),
        Err(message) => Err(message),
    }
}

fn is_known_by_id(list: &Vec<ClientInfo>, at: usize) -> (res: bool)
    requires
        at < list@.len(),
    ensures
        res == known_by_id(list@, at as int),
{
    if list[at].uuid.as_str().is_empty() {
        return false;
    }
    let len: usize = list.len();
    let mut j: usize = at + 1;
    while j < len
        invariant
            at < j <= len,
            len == list@.len(),
            forall|k: int| at < k < j ==> (#[trigger] list@[k]).uuid@ != list@[at as int].uuid@,
        decreases len - j,
    {
        if same(list[j].uuid.as_str(), list[at].uuid.as_str()) {
            return false;
        }
        j = j + 1;
    }
    true
}

proof fn known_under_their_ids(list: Seq<ClientInfo>, uuid: Seq<char>)
    ensures
        by_uuid(list).contains_key(uuid) ==> exists|i: int|
            0 <= i < list.len() && #[trigger] known_by_id(list, i) && list[i].uuid@ == uuid,
        forall|i: int|
            0 <= i < list.len() && #[trigger] known_by_id(list, i) && list[i].uuid@ == uuid
                ==> by_uuid(list).contains_key(uuid) && by_uuid(list)[uuid] == list[i],
    decreases list.len(),
{
    if list.len() > 0 {
        let front = list.drop_last();
        let end = list.len() - 1;
        known_under_their_ids(front, uuid);
        assert(list[end] == list.last());
        assert forall|i: int| 0 <= i < end && list[i].uuid@ == uuid && list[end].uuid@
            != uuid implies #[trigger] known_by_id(list, i) == known_by_id(front, i) by {
            assert(front[i] == list[i]);
            if known_by_id(list, i) {
                assert forall|j: int| i < j < front.len() implies (#[trigger] front[j]).uuid@
                    != front[i].uuid@ by {
                    assert(front[j] == list[j]);
                }
            }
            if known_by_id(front, i) {
                assert forall|j: int| i < j < list.len() implies (#[trigger] list[j]).uuid@
                    != list[i].uuid@ by {
                    if j < end {
                        assert(front[j] == list[j]);
                    }
                }
            }
        }
        if list[end].uuid@ == uuid {
            if uuid.len() > 0 {
                assert(known_by_id(list, end));
            }
            assert forall|i: int|
                0 <= i < list.len() && #[trigger] known_by_id(list, i) && list[i].uuid@
                    == uuid implies i == end by {
                if i < end {
                    assert(list[end].uuid@ != list[i].uuid@);
                }
            }
            if uuid.len() == 0 && by_uuid(list).contains_key(uuid) {
                komari::nodes_are_kept_under_their_ids(list, uuid);
            }
        } else if by_uuid(list).contains_key(uuid) {
            let i = choose|i: int|
                0 <= i < front.len() && #[trigger] known_by_id(front, i) && front[i].uuid@ == uuid;
            assert(front[i] == list[i]);
            assert(known_by_id(list, i));
        }
        assert forall|i: int|
            0 <= i < list.len() && #[trigger] known_by_id(list, i) && list[i].uuid@
                == uuid implies by_uuid(list).contains_key(uuid) && by_uuid(list)[uuid]
            == list[i] by {
            if i < end {
                assert(front[i] == list[i]);
                assert(known_by_id(front, i));
            }
        }
    }
}

/// Whether a node is one of the first of a list, known there by its id.
spec fn known_among(list: Seq<ClientInfo>, n: int, info: ClientInfo) -> bool {
    exists|i: int| 0 <= i < n && #[trigger] known_by_id(list, i) && list[i] == info
}

proof fn picked_are_known(list: Seq<ClientInfo>, n: int)
    requires
        0 <= n <= list.len(),
    ensures
        forall|k: int|
            0 <= k < picked_to(list, n).len() ==> known_among(
                list,
                n,
                #[trigger] picked_to(list, n)[k],
            ),
        forall|i: int|
            0 <= i < n && #[trigger] known_by_id(list, i) ==> picked_to(list, n).contains(list[i]),
        forall|k: int, l: int|
            #![trigger picked_to(list, n)[k], picked_to(list, n)[l]]
            0 <= k < l < picked_to(list, n).len() ==> picked_to(list, n)[k].uuid@ != picked_to(
                list,
                n,
            )[l].uuid@,
    decreases n,
{
    if n > 0 {
        picked_are_known(list, n - 1);
        let before = picked_to(list, n - 1);
        let now = picked_to(list, n);
        let added = known_by_id(list, n - 1);
        assert forall|k: int| 0 <= k < now.len() implies known_among(
            list,
            n,
            #[trigger] now[k],
        ) by {
            if k < before.len() {
                assert(now[k] == before[k]);
                assert(known_among(list, n - 1, before[k]));
            }
        }
        if added {
            assert forall|i: int| 0 <= i < n && #[trigger] known_by_id(list, i) implies now.contains(
                list[i],
            ) by {
                if i < n - 1 {
                    let k = choose|k: int| 0 <= k < before.len() && before[k] == list[i];
                    assert(now[k] == list[i]);
                } else {
                    assert(now[before.len() as int] == list[i]);
                }
            }
            assert forall|k: int, l: int|
                #![trigger now[k], now[l]]
                0 <= k < l < now.len() implies now[k].uuid@ != now[l].uuid@ by {
                assert(now[k] == before[k]);
                if l < before.len() {
                    assert(now[l] == before[l]);
                } else {
                    assert(known_among(list, n - 1, before[k]));
                    let i = choose|i: int|
                        0 <= i < n - 1 && #[trigger] known_by_id(list, i) && list[i] == before[k];
                    assert(list[n - 1].uuid@ != list[i].uuid@);
                }
            }
        }
    }
}

/// The picker reads the list that the engine reads: nodes are offered exactly
/// where the engine knows any list, and then each node it knows once, under the
/// same id.
pub proof fn picker_and_engine_read_one_list(
    status: HttpStatus,
    body: Result<Envelope<Vec<ClientInfo>>, String>,
)
    requires
        success(status.code),
    ensures
        match (known_in(body), offered_nodes(NodesReply::Answered { status, body })) {
            (Some(known), Ok(offered)) => {
                &&& forall|k: int|
                    0 <= k < offered.len() ==> known.contains_key(
                        (#[trigger] offered[k]).uuid@,
                    ) && known[offered[k].uuid@] == offered[k]
                &&& forall|uuid: Seq<char>| #[trigger]
                    known.contains_key(uuid) ==> offered.contains(known[uuid])
                &&& forall|k: int, l: int|
                    #![trigger offered[k], offered[l]]
                    0 <= k < l < offered.len() ==> offered[k].uuid@ != offered[l].uuid@
            },
            (None, Err(_)) => true,
            _ => false,
        },
{
    if known_in(body) is Some {
        let known = known_in(body).unwrap();
        let list = body->Ok_0.data.unwrap()@;
        let offered = picked(list);
        picked_are_known(list, list.len() as int);
        assert forall|k: int| 0 <= k < offered.len() implies known.contains_key(
            (#[trigger] offered[k]).uuid@,
        ) && known[offered[k].uuid@] == offered[k] by {
            assert(known_among(list, list.len() as int, offered[k]));
            let i = choose|i: int|
                0 <= i < list.len() && #[trigger] known_by_id(list, i) && list[i] == offered[k];
            known_under_their_ids(list, list[i].uuid@);
        }
        assert forall|uuid: Seq<char>| #[trigger]
            known.contains_key(uuid) implies offered.contains(known[uuid]) by {
            known_under_their_ids(list, uuid);
            let i = choose|i: int|
                0 <= i < list.len() && #[trigger] known_by_id(list, i) && list[i].uuid@ == uuid;
            assert(list[i] == known[uuid]);
        }
    }
}

/// The rows of the picker for some nodes, in their order.
pub open spec fn options_of(nodes: Seq<ClientInfo>) -> Seq<OptionFacts> {
    nodes.map_values(
        |info: ClientInfo|
            OptionFacts {
                uuid: info.uuid@,
                name: display_name(info.name@, info.uuid@),
                tags: trimmed_pieces(split_on(info.tags@, ';')),
            },
    )
}

/// Whether every one of some nodes can be labelled.
pub open spec fn all_displayable(nodes: Seq<ClientInfo>) -> bool {
    forall|i: int| 0 <= i < nodes.len() ==> displayable(#[trigger] nodes[i])
}

/// Whether every node that a reply offers can be labelled.
pub open spec fn offer_displayable(reply: NodesReply) -> bool {
    offered_nodes(reply) matches Ok(nodes) ==> all_displayable(nodes)
}

/// Whether every node that a reply offers can be labelled.
pub fn is_offer_displayable(reply: &NodesReply) -> (res: bool)
    ensures
        res == offer_displayable(*reply),
{
    if !lists_nodes(reply) {
        return true;
    }
    match reply {
        NodesReply::SendFailed(_) => true,
        NodesReply::Answered { status: _, body } => match body {
            Err(_) => true,
            Ok(env) => match &env.data {
                None => true,
                Some(list) => are_displayable(list),
            },
        },
    }
}

fn are_displayable(list: &Vec<ClientInfo>) -> (res: bool)
    ensures
        res == all_displayable(picked(list@)),
{
    let mut res = true;
    let mut i: usize = 0;
    while i < list.len()
        invariant
            i <= list@.len(),
            res == all_displayable(picked_to(list@, i as int)),
        decreases list@.len() - i,
    {
        let ghost before = picked_to(list@, i as int);
        if is_known_by_id(list, i) {
            res = is_displayable(&list[i]) && res;
            proof {
                let now = before.push(list@[i as int]);
                assert(now[before.len() as int] == list@[i as int]);
                assert forall|k: int| 0 <= k < before.len() implies #[trigger] now[k]
                    == before[k] by {}
                assert(all_displayable(now) ==> all_displayable(before)) by {
                    assert forall|k: int| 0 <= k < before.len() && all_displayable(now) implies
                        displayable(#[trigger] before[k]) by {
                        assert(now[k] == before[k]);
                    }
                }
            }
        }
        i = i + 1;
    }
    res
}

/// The rows of the picker, or why there are none. The list comes straight from
/// the backend, with the settings currently entered in the form rather than
/// the saved ones, so nodes can be picked before the connection is ever saved;
/// it also holds nodes that have never reported. Like the engine's it knows
/// each node by its id: one without is no node, and of two with the same the
/// later counts.
pub fn list_nodes(reply: NodesReply) -> (res: Result<Vec<NodeOption>, String>)
    requires
        offer_displayable(reply),
    ensures
        match offered_nodes(reply) {
            Ok(nodes) => res is Ok && views(res->Ok_0@) == options_of(nodes),
            Err(message) => res is Err && res->Err_0@ == message,
        },
{
    match nodes_of(reply) {
        Err(message) => Err(message),
        Ok(None) => Err(NO_DATA.to_owned()),
        Ok(Some(nodes)) => {
            let mut out: Vec<NodeOption> = Vec::new();
            let mut i: usize = 0;
            assert(views(out@) =~= options_of(picked_to(nodes@, 0)));
            while i < nodes.len()
                invariant
                    i <= nodes@.len(),
                    all_displayable(picked(nodes@)),
                    views(out@) == options_of(picked_to(nodes@, i as int)),
                decreases nodes@.len() - i,
            {
                let ghost kept = picked_to(nodes@, i as int);
                if is_known_by_id(&nodes, i) {
                    let info = &nodes[i];
                    proof {
                        picked_are_known(nodes@, nodes@.len() as int);
                        let k = choose|k: int|
                            0 <= k < picked(nodes@).len() && picked(nodes@)[k] == nodes@[i as int];
                        assert(displayable(picked(nodes@)[k]));
                    }
                    let row = NodeOption {
                        name: node_display_name(info),
                        tags: split_tags(info.tags.as_str()),
                        uuid: info.uuid.clone(),
                    };
                    let ghost before = out@;
                    out.push(row);
                    proof {
                        assert(options_of(kept.push(*info)) =~= options_of(kept).push(row@));
                        assert(views(out@) =~= views(before).push(row@));
                    }
                }
                i = i + 1;
            }
            Ok(out)
        },
    }
}

/// Where a backend lists its nodes, for settings as they stand in a form.
pub fn nodes_url(settings: Settings) -> (res: Result<String, String>)
    ensures
        match normal_base(crate::models::tidied(settings@).backend_url) {
            Ok(base) => res is Ok && res->Ok_0@ == base + "/api/nodes"@,
            Err(message) => res is Err && res->Err_0@ == message,
        },
{
    match normalize_base(settings.sanitized().backend_url.as_str()) {
        Ok(base) => Ok(node_list_url(base.as_str())),
        Err(message) => Err(message),
    }
}

/// Where a backend names its version.
pub fn version_url(base: &str) -> (out: String)
    ensures
        out@ == base@ + "/api/version"@,
{
    joined(base, "/api/version")
}

#[derive(Debug)]
pub struct TestResult {
    pub ok: bool,
    pub node_count: usize,
    pub version: String,
    pub message: String,
}

/// The version that a body of `/api/version` names; nothing where it names none.
pub open spec fn version_named(body: Seq<char>) -> Seq<char> {
    match text_in(member_of(json_read(body), "version"@)) {
        Some(version) => version,
        None => Seq::empty(),
    }
}

/// What came of asking a backend for its version.
#[derive(Debug)]
pub struct VersionReply {
    pub code: u16,
    pub body: String,
}

/// The version that a backend names, where it answers.
pub open spec fn version_told(reply: Option<VersionReply>) -> Seq<char> {
    match reply {
        Some(r) => if success(r.code) {
            version_named(r.body@)
        } else {
            Seq::empty()
        },
        None => Seq::empty(),
    }
}

fn named_version(reply: Option<VersionReply>) -> (out: String)
    ensures
        out@ == version_told(reply),
{
    match reply {
        Some(r) => if is_success(r.code) {
            match read_json(r.body.as_str()) {
                Some(value) => match json_get(&value, "version") {
                    Some(found) => match json_text(found) {
                        Some(text) => text.to_owned(),
                        None => String::new(),
                    },
                    None => String::new(),
                },
                None => String::new(),
            }
        } else {
            String::new()
        },
        None => String::new(),
    }
}

/// How many nodes a list has, where there is one.
pub open spec fn count_in(list: Option<Seq<ClientInfo>>) -> nat {
    match list {
        Some(nodes) => nodes.len(),
        None => 0,
    }
}

/// What is said of a backend that was reached.
pub open spec fn found_text(count: nat) -> Seq<char> {
    "连接成功，发现 "@ + digits(count) + " 个节点"@
}

/// What a test of the connection shows.
pub fn test_connection(reply: NodesReply, version: Option<VersionReply>) -> (res: Result<
    TestResult,
    String,
>)
    ensures
        match listed_nodes(reply) {
            Ok(list) => res is Ok && res->Ok_0.ok && res->Ok_0.node_count == count_in(list)
                && res->Ok_0.version@ == version_told(version) && res->Ok_0.message@
                == found_text(count_in(list)),
            Err(message) => res is Err && res->Err_0@ == message,
        },
{
    match nodes_of(reply) {
        Err(message) => Err(message),
        Ok(list) => {
            let count: usize = match list {
                Some(nodes) => nodes.len(),
                None => 0,
            };
            let mut message = joined("连接成功，发现 ", decimal(count as u64).as_str());
            message.append(" 个节点");
            Ok(TestResult { ok: true, node_count: count, version: named_version(version), message })
        },
    }
}

// ---------------------------------------------------------------------------
// Ping records
// ---------------------------------------------------------------------------

/// One ping record as the webview draws it.
#[derive(Debug, Clone, Copy, PartialEq, Eq, Structural)]
pub struct PingPoint {
    /// Epoch milliseconds.
    pub t: u64,
    /// Latency in ms; negative means the probe was lost.
    pub v: Figure,
    /// Ping task identity, used to average the latest result per target.
    pub task_id: u64,
}

/// Records without what each has lost.
pub open spec fn drawn(points: Seq<crate::ping::PingPoint>) -> Seq<PingPoint> {
    points.map_values(
        |p: crate::ping::PingPoint| PingPoint { t: p.t, v: p.v, task_id: p.task_id },
    )
}

/// The records of a log, in order of time.
pub fn parse_ping_records(body: &serde_json::Value) -> (res: Vec<PingPoint>)
    ensures
        exists|points: Seq<crate::ping::PingPoint>|
            res@ == drawn(points) && sorted_from::<crate::ping::PingPoint>(
                record_points(records_in(json_of(*body))),
                points,
            ),
{
    let points = komari::parse_ping_records(body);
    let mut out: Vec<PingPoint> = Vec::new();
    let mut i: usize = 0;
    while i < points.len()
        invariant
            i <= points@.len(),
            out@ == drawn(points@.take(i as int)),
        decreases points@.len() - i,
    {
        let p = points[i];
        out.push(PingPoint { t: p.t, v: p.v, task_id: p.task_id });
        i = i + 1;
        proof {
            assert(points@.take(i as int) =~= points@.take(i - 1).push(p));
            assert(drawn(points@.take(i as int)) =~= drawn(points@.take(i - 1)).push(
                PingPoint { t: p.t, v: p.v, task_id: p.task_id },
            ));
        }
    }
    assert(points@.take(i as int) =~= points@);
    out
}

/// Where a backend keeps the ping records of a node.
pub open spec fn records_url(base: Seq<char>, uuid: Seq<char>, hours: u64) -> Seq<char> {
    base + "/api/records/ping?uuid="@ + uuid + "&hours="@ + digits(hours as nat)
}

/// Where a Komari backend keeps the ping records of a node.
pub fn ping_records_url(base: &str, uuid: &str, hours: u64) -> (out: String)
    ensures
        out@ == records_url(base@, uuid@, hours),
{
    let mut out = joined(base, "/api/records/ping?uuid=");
    out.append(uuid);
    out.append("&hours=");
    out.append(decimal(hours).as_str());
    out
}

/// The hours of records that are asked for, a day at most.
pub open spec fn hours_asked(hours: u64) -> u64 {
    crate::models::held(hours as int, 1, 24) as u64
}

/// Where to read the records that the webview asks for: from one hour to a day
/// of them.
pub fn requested_records_url(settings: Settings, uuid: &str, hours: u64) -> (res: Result<
    String,
    String,
>)
    ensures
        match normal_base(crate::models::tidied(settings@).backend_url) {
            Ok(base) => res is Ok && res->Ok_0@ == records_url(
                base,
                uuid@,
                hours_asked(hours),
            ),
            Err(message) => res is Err && res->Err_0@ == message,
        },
{
    match normalize_base(settings.sanitized().backend_url.as_str()) {
        Ok(base) => {
            let kept: u64 = if hours < 1 {
                1
            } else if hours > 24 {
                24
            } else {
                hours
            };
            Ok(ping_records_url(base.as_str(), uuid, kept))
        },
        Err(message) => Err(message),
    }
}

/// The records of a reply, or why there are none.
pub fn get_ping_records(status: HttpStatus, body: Result<String, String>) -> (res: Result<
    Vec<PingPoint>,
    String,
>)
    ensures
        !success(status.code) ==> res is Err && res->Err_0@ == "HTTP "@ + status.text@,
        success(status.code) ==> match body {
            Err(e) => res is Err && res->Err_0@ == e@,
            Ok(text) => match json_read(text@) {
                None => res is Err && res->Err_0@ == NOT_JSON@,
                Some(document) => res is Ok && exists|points: Seq<crate::ping::PingPoint>|
                    res->Ok_0@ == drawn(points) && sorted_from::<crate::ping::PingPoint>(
                        record_points(records_in(document)),
                        points,
                    ),
            },
        },
{
    if !is_success(status.code) {
        return Err(joined("HTTP ", status.text.as_str()));
    }
    match body {
        Err(e) => Err(e),
        Ok(text) => match read_json(text.as_str()) {
            Some(value) => Ok(parse_ping_records(&value)),
            None => Err(NOT_JSON.to_owned()),
        },
    }
}

/// Told of a body that is no JSON.
pub const NOT_JSON: &'static str = "error decoding response body";

} // verus!
