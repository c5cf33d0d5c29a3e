//! Sessions, replies, menus and lists.

use vstd::prelude::*;
use vstd::utf8::{encode_utf8, is_ascii_chars};

use crate::calendar::time_in;
use crate::commands::{count_in, found_text, hours_asked, known_by_id, listed_nodes, offered_nodes, options_of, page_url, picked, picked_to, records_url, told_of_update, version_told, GitHubRelease, NodeOption, NodesReply, UpdateCheckResult, VersionReply, NOT_JSON};
use crate::decimal::digits;
use crate::engine::{seconds_between, wait_after, NODES_REFRESH_MS, PING_HOURS, PING_REFRESH_MS, PING_RETRY_MS, RECONNECT_BACKOFF_MS, UNCONFIGURED, WS_READ_TIMEOUT_MS};
use crate::figure::Figure;
use crate::http::{Fetched, HttpStatus};
use crate::json::{json_read, Json};
use crate::laws::nodes::tags_stand_between_semicolons;
use crate::mock::{after_word, answer_to, first_line, path_of, recent_text, report_text, without_prefixes};
use crate::models::{Aggregate, BackendKind, IconState, Settings, ThemeMode};
use crate::providers::{explained, named_provider, requests_at_once, sniffed, sniffed_body, FetchError, Provider, UNAUTHORIZED_UNKNOWN_KIND, UNRECOGNISED_KIND};
use crate::providers::komari::{nodes_body, record_point, NO_DATA, RECENT_CONCURRENCY};
use crate::providers::monitor::{handshake_text, window_url};
use crate::providers::session::{fallback_text, hub_way, komari_way, leads_to, message_leads_to, unread_leads_to, Action, Doing, Event, Phase, Read, Transport};
use crate::text::{plain_texts_shorten, split_on, trim, trim_start, trimmed_pieces, white};
use crate::tray::{action_of, click_leads_to, clicking_does, foreground, mark_of, menu_bar, title_of, MouseEvent, TrayClick};
use crate::version::{tag_version, Release, ReleaseFacts};
use crate::wire::{ClientInfo, Envelope};

verus! {

/// A text that comes over a socket or is fetched is shown as it came.
pub proof fn texts_are_shown_as_they_came(text: String)
    ensures
        leads_to(Transport::PullSocket, Phase::Receiving, Event::Received(Read::Text(text))) == (
            Phase::Waiting,
            Doing::Show(text@),
        ),
        leads_to(Transport::PushSocket, Phase::Waiting, Event::Received(Read::Text(text))) == (
            Phase::Waiting,
            Doing::Show(text@),
        ),
        leads_to(Transport::PollAll, Phase::Fetching, Event::Fetched(Ok(text))) == (
            Phase::Waiting,
            Doing::Show(text@),
        ),
{
}

/// With a tick a node list is read that is a minute old, and else data is asked
/// for: over the socket, from each node or of all at once.
pub proof fn ticks_ask_for_data(age: u64, outcome: Result<(), String>)
    ensures
        age >= 60_000 ==> leads_to(
            Transport::PullSocket,
            Phase::Waiting,
            Event::Tick { nodes_age_ms: age },
        ) == (Phase::ReadingNodes, Doing::ReadNodes),
        age >= 60_000 ==> leads_to(
            Transport::PollEach,
            Phase::Waiting,
            Event::Tick { nodes_age_ms: age },
        ) == (Phase::ReadingNodes, Doing::ReadNodes),
        age < 60_000 ==> leads_to(
            Transport::PullSocket,
            Phase::Waiting,
            Event::Tick { nodes_age_ms: age },
        ) == (Phase::Sending, Doing::SendGet),
        age < 60_000 ==> leads_to(
            Transport::PollEach,
            Phase::Waiting,
            Event::Tick { nodes_age_ms: age },
        ) == (Phase::Polling, Doing::PollNodes),
        leads_to(Transport::PollAll, Phase::Waiting, Event::Tick { nodes_age_ms: age }) == (
            Phase::Fetching,
            Doing::FetchNodes,
        ),
        leads_to(Transport::PullSocket, Phase::ReadingNodes, Event::NodesRead(outcome)) == (
            Phase::Sending,
            Doing::SendGet,
        ),
        leads_to(Transport::PollEach, Phase::Polling, Event::Polled) == (
            Phase::Waiting,
            Doing::ShowPolled,
        ),
        leads_to(Transport::PullSocket, Phase::Sending, Event::Sent(true)) == (
            Phase::Receiving,
            Doing::ReadMessage,
        ),
        leads_to(Transport::PullSocket, Phase::Sending, Event::Sent(false)).0 is Over,
{
}

/// Polling node by node goes on with a list that was read, and ends with why it
/// was not.
pub proof fn polling_needs_its_list(e: String)
    ensures
        leads_to(Transport::PollEach, Phase::ReadingNodes, Event::NodesRead(Ok(()))) == (
            Phase::Polling,
            Doing::PollNodes,
        ),
        leads_to(Transport::PollEach, Phase::ReadingNodes, Event::NodesRead(Err(e))) == (
            Phase::Over,
            Doing::Fail(e@),
        ),
{
}

/// A socket that breaks off ends the session with a word of why; what is no text
/// is passed over.
pub proof fn broken_sockets_end_the_session(e: String)
    ensures
        message_leads_to(Read::Other) == (Phase::Waiting, Doing::Wait),
        message_leads_to(Read::Failed(e)).0 is Over,
        message_leads_to(Read::Failed(e)).1 is Fail,
        e@.is_suffix_of(message_leads_to(Read::Failed(e)).1->Fail_0),
        message_leads_to(Read::Closed).0 is Over,
        message_leads_to(Read::Closed).1 is Fail,
        message_leads_to(Read::TimedOut).0 is Over,
        message_leads_to(Read::TimedOut).1 is Fail,
{
    let head = "读取失败: "@;
    assert((head + e@).skip(head.len() as int) =~= e@);
}

/// What the hub refuses for want of a public page is explained as such, and
/// anything else as it is.
pub proof fn refusals_are_explained(e: String, unauthorized: Seq<char>)
    ensures
        explained(FetchError::Unauthorized, unauthorized) == unauthorized,
        explained(FetchError::Other(e), unauthorized) == e@,
        leads_to(
            Transport::PollAll,
            Phase::Fetching,
            Event::Fetched(Err(FetchError::Other(e))),
        ) == (Phase::Over, Doing::Fail(e@)),
{
}

/// A text that cannot be read ends a session with the hub, and not one with
/// Komari.
pub proof fn unread_texts_end_hub_sessions(why: Seq<char>)
    ensures
        unread_leads_to(Transport::PushSocket, why) == (Phase::Over, Doing::Fail(why)),
        unread_leads_to(Transport::PollAll, why) == (Phase::Over, Doing::Fail(why)),
        unread_leads_to(Transport::PullSocket, why) == (Phase::Waiting, Doing::Wait),
        unread_leads_to(Transport::PollEach, why) == (Phase::Waiting, Doing::Wait),
{
}

/// With a key Komari is polled, and without one its socket is read; the hub's
/// socket is read where every three seconds or less is wanted.
pub proof fn ways_follow_the_settings(s: Settings)
    ensures
        s.api_key@.len() > 0 ==> komari_way(s@) is PollEach,
        s.api_key@.len() == 0 ==> komari_way(s@) is PullSocket,
        s.poll_interval_secs <= 3 ==> hub_way(s@) is PushSocket,
        s.poll_interval_secs > 3 ==> hub_way(s@) is PollAll,
{
}

/// What is told when polling takes over holds why.
pub proof fn fallbacks_tell_why(error: Seq<char>)
    ensures
        exists|a: Seq<char>, b: Seq<char>| fallback_text(error) == #[trigger] (a + error + b),
{
    assert(fallback_text(error) == "实时连接不可用（"@ + error + "），已回退 HTTP 轮询"@);
}

/// How long is waited for, in milliseconds, and how much is asked for.
pub proof fn waits_of_sessions()
    ensures
        NODES_REFRESH_MS == 60_000,
        WS_READ_TIMEOUT_MS == 15_000,
        RECONNECT_BACKOFF_MS == 5_000,
        PING_REFRESH_MS == 60_000,
        PING_RETRY_MS == 2_000,
        PING_HOURS == 1,
        RECENT_CONCURRENCY == 8,
{
}

/// A backend that the settings name is taken for that; else it is asked.
pub proof fn named_backends_are_not_asked()
    ensures
        named_provider(BackendKind::Komari) == Some(Provider::Komari),
        named_provider(BackendKind::Monitor) == Some(Provider::Monitor),
        named_provider(BackendKind::Auto) is None,
{
}

/// A document with a list of nodes is the hub's; without one, a status that is
/// a text and a list of data make it Komari's; any other is neither's.
pub proof fn documents_tell_their_backend(members: Map<Seq<char>, Json>, other: Json)
    ensures
        ({
            let got = sniffed(Json::Object(members));
            let nodes = members.contains_key("nodes"@) && members["nodes"@] is List;
            let status = members.contains_key("status"@) && members["status"@] is Text;
            let data = members.contains_key("data"@) && members["data"@] is List;
            &&& got == Some(Provider::Monitor) <==> nodes
            &&& got == Some(Provider::Komari) <==> !nodes && status && data
            &&& got is None <==> !nodes && !(status && data)
        }),
        !(other is Object) ==> sniffed(other) is None,
{
}

/// A ping record is a point of its own value, task and time; without a value or
/// a time it is none.
pub proof fn records_say_their_value_and_task(
    members: Map<Seq<char>, Json>,
    figure: Figure,
    natural: Option<u64>,
    text: Seq<char>,
)
    ensures
        ({
            let got = record_point(Json::Object(members));
            &&& got is Some && members.contains_key("value"@) && members["value"@] == (
            Json::Number { figure, natural }) ==> got.unwrap().v == figure
            &&& got is Some && members.contains_key("task_id"@) && members["task_id"@] == (
            Json::Number { figure, natural: natural }) && natural is Some
                ==> got.unwrap().task_id == natural.unwrap()
            &&& got is Some && !members.contains_key("task_id"@) ==> got.unwrap().task_id == 0
            &&& got is Some && members.contains_key("time"@) && members["time"@] == Json::Text(text)
                ==> time_in(encode_utf8(text)) == Some(got.unwrap().t)
            &&& !members.contains_key("value"@) ==> got is None
            &&& !members.contains_key("time"@) ==> got is None
        }),
{
}

// ---------------------------------------------------------------------------
// The node picker and the update check
// ---------------------------------------------------------------------------

/// A row of the picker has its node's id, its name or the beginning of its id,
/// and its tags.
pub proof fn options_are_those_of_nodes(nodes: Seq<ClientInfo>, rows: Seq<NodeOption>, i: int)
    requires
        0 <= i < nodes.len(),
        rows.len() == nodes.len(),
        rows[i]@ == options_of(nodes)[i],
    ensures
        options_of(nodes).len() == nodes.len(),
        rows[i].uuid@ == nodes[i].uuid@,
        trim(nodes[i].name@).len() > 0 ==> rows[i].name@ == nodes[i].name@,
        trim(nodes[i].name@).len() == 0 && is_ascii_chars(nodes[i].uuid@) ==> rows[i].name@
            == "节点 "@ + (if nodes[i].uuid@.len() < 8 {
            nodes[i].uuid@
        } else {
            nodes[i].uuid@.take(8)
        }),
        !nodes[i].tags@.contains(';') && trim(nodes[i].tags@).len() > 0 ==> rows[i].tags@.len() == 1
            && rows[i].tags@[0]@ == trim(nodes[i].tags@),
        !nodes[i].tags@.contains(';') && trim(nodes[i].tags@).len() == 0 ==> rows[i].tags@.len()
            == 0,
        rows[i]@.tags == trimmed_pieces(split_on(nodes[i].tags@, ';')),
{
    tags_stand_between_semicolons(nodes[i].tags@, Seq::empty());
    assert(rows[i]@.tags.len() == rows[i].tags@.len());
    if !nodes[i].tags@.contains(';') && trim(nodes[i].tags@).len() > 0 {
        assert(rows[i]@.tags[0] == rows[i].tags@[0]@);
    }
    if is_ascii_chars(nodes[i].uuid@) {
        plain_texts_shorten(nodes[i].uuid@);
    }
}

/// The picker offers each id once, as its last item has it, and none without.
pub proof fn each_id_is_offered_once(list: Seq<ClientInfo>, i: int)
    requires
        0 <= i < list.len(),
        list[i].uuid@.len() > 0,
        forall|j: int| i < j < list.len() ==> (#[trigger] list[j]).uuid@ != list[i].uuid@,
    ensures
        picked(list).contains(list[i]),
{
    offered_by(list, list.len() as int, i);
}

proof fn offered_by(list: Seq<ClientInfo>, n: int, i: int)
    requires
        0 <= i < n <= list.len(),
        known_by_id(list, i),
    ensures
        picked_to(list, n).contains(list[i]),
    decreases n,
{
    let before = picked_to(list, n - 1);
    if i == n - 1 {
        assert(picked_to(list, n)[before.len() as int] == list[i]);
    } else {
        offered_by(list, n - 1, i);
        let k = choose|k: int| 0 <= k < before.len() && before[k] == list[i];
        assert(picked_to(list, n)[k] == list[i]);
    }
}

/// What is offered is from the list, and has an id.
pub proof fn only_listed_nodes_are_offered(list: Seq<ClientInfo>, n: int, k: int)
    requires
        0 <= n <= list.len(),
        0 <= k < picked_to(list, n).len(),
    ensures
        exists|i: int| 0 <= i < n && picked_to(list, n)[k] == #[trigger] list[i] && list[i].uuid@.len()
            > 0,
    decreases n,
{
    let before = picked_to(list, n - 1);
    if n > 0 {
        if k < before.len() {
            only_listed_nodes_are_offered(list, n - 1, k);
            let i = choose|i: int|
                0 <= i < n - 1 && before[k] == #[trigger] list[i] && list[i].uuid@.len() > 0;
            assert(picked_to(list, n)[k] == list[i]);
        } else {
            assert(picked_to(list, n)[k] == list[n - 1]);
        }
    }
}

/// A reply lists nodes where it succeeded, could be read and says so.
pub proof fn replies_list_nodes(
    status: HttpStatus,
    env: Envelope<Vec<ClientInfo>>,
    data: Vec<ClientInfo>,
    e: String,
)
    ensures
        200 <= status.code < 300 && env.status@ == "success"@ && env.data == Some(data)
            ==> listed_nodes(NodesReply::Answered { status, body: Ok(env) }) == Ok::<
            Option<Seq<ClientInfo>>,
            Seq<char>,
        >(Some(data@)),
        200 <= status.code < 300 && env.status@ == "success"@ && env.data is None ==> listed_nodes(
            NodesReply::Answered { status, body: Ok(env) },
        ) == Ok::<Option<Seq<ClientInfo>>, Seq<char>>(None),
        !(200 <= status.code < 300) || env.status@ != "success"@ ==> listed_nodes(
            NodesReply::Answered { status, body: Ok(env) },
        ) is Err,
        listed_nodes(NodesReply::Answered { status, body: Err(e) }) is Err,
        listed_nodes(NodesReply::SendFailed(e)) is Err,
        e@.is_suffix_of(listed_nodes(NodesReply::SendFailed(e))->Err_0),
        env.data == Some(data) && listed_nodes(NodesReply::Answered { status, body: Ok(env) }) is Ok
            ==> offered_nodes(NodesReply::Answered { status, body: Ok(env) }) == Ok::<
            Seq<ClientInfo>,
            Seq<char>,
        >(picked(data@)),
{
    let head = "无法连接后端: "@;
    assert((head + e@).skip(head.len() as int) =~= e@);
}

/// How many nodes a list has; none without one.
pub proof fn lists_are_counted(list: Seq<ClientInfo>)
    ensures
        count_in(Some(list)) == list.len(),
        count_in(None) == 0,
{
}

/// A version is told by a reply that succeeded alone, as it stands there.
pub proof fn versions_are_told_by_success(
    reply: VersionReply,
    members: Map<Seq<char>, Json>,
    text: Seq<char>,
)
    ensures
        200 <= reply.code < 300 && json_read(reply.body@) == Some(Json::Object(members))
            && members.contains_key("version"@) && members["version"@] == Json::Text(text)
            ==> version_told(Some(reply)) == text,
        version_told(None).len() == 0,
        reply.code < 200 || reply.code >= 300 ==> version_told(Some(reply)).len() == 0,
{
}

/// An update check tells of the release what it says of itself.
pub proof fn checks_tell_of_their_release(
    told: UpdateCheckResult,
    current: Release,
    release: GitHubRelease,
    latest: ReleaseFacts,
)
    requires
        told_of_update(told, current, release, latest),
    ensures
        told.release_url@ == release.html_url@,
        told.release_name is Some <==> release.name is Some,
        told.release_name is Some ==> told.release_name.unwrap()@ == release.name.unwrap()@,
        told.published_at is Some <==> release.published_at is Some,
        told.published_at is Some ==> told.published_at.unwrap()@ == release.published_at.unwrap()@,
        told.current_version@ == current.written(),
        told.latest_version@ == tag_version(release.tag_name@),
        latest.major > current@.major ==> told.update_available,
        latest.major < current@.major ==> !told.update_available,
        latest == current@ ==> !told.update_available,
{
}

/// The pages of the project, by their names.
pub proof fn pages_are_named(page: Seq<char>)
    ensures
        page_url("repository"@) == Some("https://github.com/Gongsc/hotaru"@),
        page_url("releases"@) == Some("https://github.com/Gongsc/hotaru/releases/latest"@),
        page != "repository"@ && page != "releases"@ ==> page_url(page) is None,
{
    reveal_strlit("repository");
    reveal_strlit("releases");
    assert("repository"@.len() != "releases"@.len());
}

/// Ping records are asked for of a node and of some hours, below the address.
pub proof fn records_are_asked_for_by_node_and_hours(base: Seq<char>, uuid: Seq<char>, hours: u64)
    ensures
        (base + "/api/records/ping?uuid="@ + uuid).is_prefix_of(records_url(base, uuid, hours)),
        ("&hours="@ + digits(hours as nat)).is_suffix_of(records_url(base, uuid, hours)),
{
    let head = base + "/api/records/ping?uuid="@ + uuid;
    let tail = "&hours="@ + digits(hours as nat);
    let all = records_url(base, uuid, hours);
    assert(all =~= head + tail);
    assert(all.take(head.len() as int) =~= head);
    assert(all.skip(head.len() as int) =~= tail);
}

// ---------------------------------------------------------------------------
// The tray
// ---------------------------------------------------------------------------

/// The icon's marks: a slash where nothing is known or nothing is online, a
/// large dot for an error, a small one for a warning or a missing node, and
/// else none.
pub proof fn marks_go_by_severity(state: IconState)
    ensures
        state.severity is Down ==> mark_of(state) is Slash,
        state.severity is Error && state.gauge is None ==> mark_of(state) is Slash,
        state.severity is Error && state.gauge is Some ==> mark_of(state) is LargeDot,
        state.severity is Warn ==> mark_of(state) is SmallDot,
        state.severity is Normal && state.badge ==> mark_of(state) is SmallDot,
        state.severity is Normal && !state.badge ==> mark_of(state) is Plain,
{
}

/// Each item of the menu does what it is named for.
pub proof fn menu_items_do_what_they_say(id: Seq<char>)
    ensures
        action_of("quit"@) is Quit,
        action_of("open-panel"@) is OpenPanel,
        action_of("reload-panel"@) is ReloadPanel,
        action_of("open-settings"@) is OpenSettings,
        action_of("autostart"@) is ToggleAutostart,
        id != "quit"@ && id != "open-panel"@ && id != "reload-panel"@ && id != "open-settings"@ && id
            != "autostart"@ ==> action_of(id) is Nothing,
{
    reveal_strlit("quit");
    reveal_strlit("open-panel");
    reveal_strlit("reload-panel");
    reveal_strlit("open-settings");
    reveal_strlit("autostart");
    assert("quit"@.len() == 4 && "open-panel"@.len() == 10 && "reload-panel"@.len() == 12
        && "open-settings"@.len() == 13 && "autostart"@.len() == 9);
}

/// A click opens or hides the popover, a second one the panel, and a right one,
/// or one with control held, the menu; pressing does nothing yet.
pub proof fn clicks_count_when_released(count: int)
    ensures
        click_leads_to(MouseEvent::LeftMouseUp, false, 1) is ToggleChart,
        click_leads_to(MouseEvent::LeftMouseUp, false, 2) is OpenPanel,
        count > 2 ==> click_leads_to(MouseEvent::LeftMouseUp, false, count) is Ignore,
        click_leads_to(MouseEvent::LeftMouseUp, true, count) is ContextMenu,
        click_leads_to(MouseEvent::RightMouseUp, false, count) is ContextMenu,
        click_leads_to(MouseEvent::RightMouseUp, true, count) is ContextMenu,
        click_leads_to(MouseEvent::LeftMouseDown, false, count) is Ignore,
        click_leads_to(MouseEvent::RightMouseDown, false, count) is Ignore,
        click_leads_to(MouseEvent::Other, false, count) is Ignore,
{
}

// ---------------------------------------------------------------------------
// The stand-in backend
// ---------------------------------------------------------------------------

/// The path of a request is the second word of its first line, whatever follows.
pub proof fn requests_name_their_path(method: Seq<char>, path: Seq<char>, rest: Seq<char>, more: Seq<char>)
    requires
        method.len() > 0,
        path.len() > 0,
        forall|i: int| 0 <= i < method.len() ==> !white(#[trigger] method[i]),
        forall|i: int| 0 <= i < path.len() ==> !white(#[trigger] path[i]),
        forall|i: int| 0 <= i < rest.len() ==> #[trigger] rest[i] != '\n',
    ensures
        path_of(method + seq![' '] + path + seq![' '] + rest + seq!['\n'] + more) == path,
{
    let line = method + seq![' '] + path + seq![' '] + rest;
    crate::laws::settings::spaces_are_white(' ');
    crate::laws::settings::spaces_are_white('\n');
    assert forall|i: int| 0 <= i < line.len() implies #[trigger] line[i] != '\n' by {
        if i < method.len() {
            assert(line[i] == method[i]);
        } else if i == method.len() {
        } else if i < method.len() + 1 + path.len() {
            assert(line[i] == path[i - method.len() - 1]);
        } else if i == method.len() + 1 + path.len() {
        } else {
            assert(line[i] == rest[i - method.len() - path.len() - 2]);
        }
    }
    let request = method + seq![' '] + path + seq![' '] + rest + seq!['\n'] + more;
    assert(request =~= line + (seq!['\n'] + more));
    line_ends(line, seq!['\n'] + more);
    let after = seq![' '] + path + seq![' '] + rest;
    assert(line =~= method + after);
    assert(white(after[0]));
    assert(line[0] == method[0]);
    word_ends(method, after);
    let then = path + (seq![' '] + rest);
    assert(after.drop_first() =~= then);
    assert(then[0] == path[0]);
    reveal_with_fuel(trim_start, 2);
    assert(trim_start(after) == then);
    word_ends(path, seq![' '] + rest);
    assert(then.take(path.len() as int) =~= path);
}

proof fn line_ends(line: Seq<char>, rest: Seq<char>)
    requires
        forall|i: int| 0 <= i < line.len() ==> #[trigger] line[i] != '\n',
        rest.len() > 0,
        rest[0] == '\n',
    ensures
        first_line(line + rest) == line,
    decreases line.len(),
{
    if line.len() == 0 {
        assert((line + rest)[0] == rest[0]);
        assert(line =~= Seq::empty());
    } else {
        assert(line[0] != '\n');
        assert((line + rest)[0] == line[0]);
        assert((line + rest).drop_first() =~= line.drop_first() + rest);
        assert forall|i: int| 0 <= i < line.drop_first().len() implies #[trigger] line.drop_first()[i]
            != '\n' by {
            assert(line.drop_first()[i] == line[i + 1]);
        }
        line_ends(line.drop_first(), rest);
        assert(seq![line[0]] + line.drop_first() =~= line);
    }
}

proof fn word_ends(word: Seq<char>, rest: Seq<char>)
    requires
        forall|i: int| 0 <= i < word.len() ==> !white(#[trigger] word[i]),
        rest.len() > 0,
        white(rest[0]),
    ensures
        after_word(word + rest) == rest,
    decreases word.len(),
{
    if word.len() == 0 {
        assert(word + rest =~= rest);
    } else {
        assert(!white(word[0]));
        assert((word + rest)[0] == word[0]);
        assert((word + rest).drop_first() =~= word.drop_first() + rest);
        assert forall|i: int| 0 <= i < word.drop_first().len() implies !white(
            #[trigger] word.drop_first()[i],
        ) by {
            assert(word.drop_first()[i] == word[i + 1]);
        }
        word_ends(word.drop_first(), rest);
    }
}

/// Only known paths are answered with success.
pub proof fn unknown_paths_are_not_found(path: Seq<char>, now: u64)
    ensures
        answer_to("/ping"@, now).1 == "pong"@,
        answer_to("/ping"@, now).0 == "200 OK"@,
        answer_to("/api/nodes"@, now).0 == "200 OK"@,
        answer_to("/api/version"@, now).0 == "200 OK"@,
        path != "/ping"@ && path != "/api/version"@ && path != "/api/nodes"@
            && !"/api/recent/"@.is_prefix_of(path) ==> answer_to(path, now).0 == "404 Not Found"@,
        "/api/recent/"@.is_prefix_of(path) ==> answer_to(path, now).0 == "200 OK"@,
{
}

/// A made-up report holds its CPU, its memory and its rates, each in its place,
/// and its time at the end.
pub proof fn made_up_reports_hold_their_figures(
    cpu: Seq<char>,
    used: u64,
    all: u64,
    up: Seq<char>,
    down: Seq<char>,
    now: u64,
)
    ensures
        ("{\"cpu\":{\"usage\":"@ + cpu).is_prefix_of(report_text(cpu, used, all, up, down, now)),
        exists|a: Seq<char>, b: Seq<char>|
            report_text(cpu, used, all, up, down, now) == #[trigger] (a + (digits(all as nat)
                + ",\"used\":"@ + digits(used as nat)) + b),
        exists|a: Seq<char>, b: Seq<char>|
            report_text(cpu, used, all, up, down, now) == #[trigger] (a + (up + ",\"down\":"@ + down)
                + b),
        (digits(now as nat) + "}"@).is_suffix_of(report_text(cpu, used, all, up, down, now)),
{
    let text = report_text(cpu, used, all, up, down, now);
    let one = "{\"cpu\":{\"usage\":"@ + cpu;
    let two = digits(all as nat) + ",\"used\":"@ + digits(used as nat);
    let three = up + ",\"down\":"@ + down;
    let four = digits(now as nat) + "}"@;
    let ab = "},\"ram\":{\"total\":"@;
    let bc =
        "},\"swap\":{\"total\":1073741824,\"used\":0},\"disk\":{\"total\":107374182400,\"used\":53687091200},\"network\":{\"up\":"@;
    let cd =
        ",\"totalUp\":123456789,\"totalDown\":987654321},\"connections\":{\"tcp\":120,\"udp\":8},\"uptime\":98765,\"updated_at\":"@;
    assert(text =~= one + ab + two + bc + three + cd + four);
    assert(text.take(one.len() as int) =~= one);
    assert(text =~= (one + ab) + two + (bc + three + cd + four));
    assert(text =~= (one + ab + two + bc) + three + (cd + four));
    assert(text.skip(text.len() - four.len()) =~= four);
}

/// The first made-up node is at ease and the second is busy.
pub proof fn made_up_nodes_have_their_report(uuid: Seq<char>, now: u64)
    ensures
        exists|a: Seq<char>, b: Seq<char>|
            recent_text("1111"@ + uuid, now) == #[trigger] (a + report_text(
                "32"@,
                4_294_967_296,
                8_589_934_592,
                "2048"@,
                "3355443.2"@,
                now,
            ) + b),
        !"1111"@.is_prefix_of(uuid) ==> exists|a: Seq<char>, b: Seq<char>|
            recent_text(uuid, now) == #[trigger] (a + report_text(
                "88"@,
                2_147_483_648,
                4_294_967_296,
                "8192"@,
                "12582912"@,
                now,
            ) + b),
{
    assert(("1111"@ + uuid).take("1111"@.len() as int) =~= "1111"@);
    assert("1111"@.is_prefix_of("1111"@ + uuid));
    assert(recent_text("1111"@ + uuid, now) == "{\"status\":\"success\",\"data\":["@ + report_text(
        "32"@,
        4_294_967_296,
        8_589_934_592,
        "2048"@,
        "3355443.2"@,
        now,
    ) + "]}"@);
    if !"1111"@.is_prefix_of(uuid) {
        assert(recent_text(uuid, now) == "{\"status\":\"success\",\"data\":["@ + report_text(
            "88"@,
            2_147_483_648,
            4_294_967_296,
            "8192"@,
            "12582912"@,
            now,
        ) + "]}"@);
    }
}

/// A prefix is taken off as often as it stands there.
pub proof fn prefixes_are_taken_off(s: Seq<char>, prefix: Seq<char>)
    requires
        prefix.len() > 0,
    ensures
        without_prefixes(prefix + s, prefix) == without_prefixes(s, prefix),
        !prefix.is_prefix_of(s) ==> without_prefixes(s, prefix) == s,
{
    assert((prefix + s).take(prefix.len() as int) =~= prefix);
    assert(prefix.is_prefix_of(prefix + s));
    assert((prefix + s).skip(prefix.len() as int) =~= s);
}

// ---------------------------------------------------------------------------
// Times, colours and texts
// ---------------------------------------------------------------------------

/// Polls are as far apart as is wanted, a second at least; the ping loop waits
/// a minute after a round and two seconds where it was too early for one.
pub proof fn loops_wait_as_is_wanted(secs: u64, stored: bool)
    ensures
        secs >= 1 ==> seconds_between(secs) == secs,
        seconds_between(0) == 1,
        wait_after(Some(stored)) == 60_000,
        wait_after(None) == 2_000,
        requests_at_once(Provider::Komari) == 8,
        requests_at_once(Provider::Monitor) == 1,
{
}

/// Records are asked for of the hours that are wanted, from one to a day.
pub proof fn hours_are_asked_up_to_a_day(hours: u64)
    ensures
        1 <= hours <= 24 ==> hours_asked(hours) == hours,
        hours_asked(0) == 1,
        hours > 24 ==> hours_asked(hours) == 24,
{
}

/// A hub's window is asked for by the node's number, with sixty points an hour.
pub proof fn windows_have_a_point_each_minute(base: Seq<char>, id: Seq<char>, hours: u64)
    requires
        hours * 60 <= u64::MAX,
    ensures
        (base + "/api/nodes/"@ + id + "/metrics?hours="@ + digits(hours as nat)).is_prefix_of(
            window_url(base, id, hours),
        ),
        ("&points="@ + digits((60 * hours) as nat) + "&series=ping"@).is_suffix_of(
            window_url(base, id, hours),
        ),
{
    let head = base + "/api/nodes/"@ + id + "/metrics?hours="@ + digits(hours as nat);
    let tail = "&points="@ + digits((60 * hours) as nat) + "&series=ping"@;
    assert(window_url(base, id, hours) =~= head + tail);
    assert((head + tail).take(head.len() as int) =~= head);
    assert((head + tail).skip(head.len() as int) =~= tail);
}

/// The icon is light on dark windows and dark on light ones; the windows' own
/// theme goes before the settings'. Off Windows it is black.
pub proof fn icons_stand_out(theme: ThemeMode, shown: Option<bool>)
    ensures
        foreground(false, shown, theme) == (0u8, 0u8, 0u8, 255u8),
        foreground(true, Some(true), theme) == (245u8, 245u8, 247u8, 255u8),
        foreground(true, Some(false), theme) == (29u8, 29u8, 31u8, 255u8),
        theme == ThemeMode::Dark ==> foreground(true, None, theme) == foreground(
            true,
            Some(true),
            theme,
        ),
        theme != ThemeMode::Dark ==> foreground(true, None, theme) == foreground(
            true,
            Some(false),
            theme,
        ),
{
}

/// The text beside the icon is the menu bar's where it is wanted, and else none.
pub proof fn titles_are_shown_where_wanted(s: Settings, agg: Aggregate)
    ensures
        s.show_menu_bar_text ==> title_of(s@, agg) == menu_bar(agg),
        !s.show_menu_bar_text ==> title_of(s@, agg).len() == 0,
{
}

/// A released left click opens or hides the popover and a double one opens the
/// panel; a press does nothing.
pub proof fn presses_do_nothing_yet()
    ensures
        clicking_does(TrayClick::LeftReleased) is ToggleChart,
        clicking_does(TrayClick::LeftDouble) is OpenPanel,
        clicking_does(TrayClick::LeftPressed) is Ignore,
        clicking_does(TrayClick::Other) is Ignore,
{
}

/// A backend that was reached is told with how many nodes it has.
pub proof fn reached_backends_tell_their_nodes(n: nat)
    ensures
        ("连接成功，发现 "@ + digits(n)).is_prefix_of(found_text(n)),
        " 个节点"@.is_suffix_of(found_text(n)),
        found_text(n).len() == "连接成功，发现 "@.len() + digits(n).len() + " 个节点"@.len(),
{
    let head = "连接成功，发现 "@ + digits(n);
    let tail = " 个节点"@;
    assert((head + tail).take(head.len() as int) =~= head);
    assert((head + tail).skip(head.len() as int) =~= tail);
}

/// A hub's socket that is refused for want of a public page is told so, and any
/// other with its error.
pub proof fn refused_sockets_tell_why(code: Option<u16>, error: Seq<char>)
    ensures
        code == Some(401u16) ==> handshake_text(code, error)
            == "站点未开启公开页；Hotaru 仅支持可匿名访问的极简探针站点"@,
        code != Some(401u16) ==> error.is_suffix_of(handshake_text(code, error)) && handshake_text(
            code,
            error,
        ) == "连接失败: "@ + error,
{
    let head = "连接失败: "@;
    assert((head + error).skip(head.len() as int) =~= error);
}

/// The words for a socket that ended, and for a site that is private.
pub proof fn ends_have_their_words(text: String, e: String, t: String)
    ensures
        message_leads_to(Read::Closed).1 == Doing::Fail("连接已被服务端关闭"@),
        message_leads_to(Read::TimedOut).1 == Doing::Fail("读取超时"@),
        message_leads_to(Read::Failed(e)).1 == Doing::Fail("读取失败: "@ + e@),
        leads_to(Transport::PullSocket, Phase::Sending, Event::Sent(false)).1 == Doing::Fail(
            "发送 WS 消息失败"@,
        ),
        nodes_body(Fetched::Text { status: HttpStatus { code: 401, text: t }, text }) == Err::<
            Seq<char>,
            Seq<char>,
        >("后端返回 401：站点为私有模式，请在设置中填写 API Key"@),
        listed_nodes(
            NodesReply::Answered { status: HttpStatus { code: 401, text: t }, body: Err(e) },
        ) == Err::<Option<Seq<ClientInfo>>, Seq<char>>(
            "HTTP 401：站点为私有模式，需要 API Key（管理后台 → 设置 → API Key）"@,
        ),
        "实时连接不可用（"@.is_prefix_of(fallback_text(e@)),
        "），已回退 HTTP 轮询"@.is_suffix_of(fallback_text(e@)),
{
    let head = "实时连接不可用（"@;
    let tail = "），已回退 HTTP 轮询"@;
    let all = fallback_text(e@);
    assert(all.take(head.len() as int) =~= head);
    assert(all.skip(all.len() - tail.len()) =~= tail);
}

/// A refused list is told with the status, and one that cannot be read with why.
pub proof fn refused_lists_tell_why(status: HttpStatus, e: String, env: Envelope<Vec<ClientInfo>>)
    ensures
        status.code != 401 && !(200 <= status.code < 300) ==> status.text@.is_suffix_of(
            listed_nodes(NodesReply::Answered { status, body: Err(e) })->Err_0,
        ),
        200 <= status.code < 300 ==> e@.is_suffix_of(
            listed_nodes(NodesReply::Answered { status, body: Err(e) })->Err_0,
        ),
        200 <= status.code < 300 && env.status@ != "success"@ && env.message is None ==> listed_nodes(
            NodesReply::Answered { status, body: Ok(env) },
        )->Err_0 == "后端返回错误: "@ + env.status@,
{
    let one = "后端返回 HTTP "@;
    assert((one + status.text@).skip(one.len() as int) =~= status.text@);
    let two = "响应不是有效的 Komari API: "@;
    assert((two + e@).skip(two.len() as int) =~= e@);
}

/// What does not belong to a phase leaves it, and nothing is done.
pub proof fn stray_events_are_passed_over(phase: Phase, age: u64, read: Read, done: bool)
    ensures
        leads_to(Transport::PushSocket, Phase::Waiting, Event::Tick { nodes_age_ms: age }) == (
            Phase::Waiting,
            Doing::Wait,
        ),
        leads_to(Transport::PollEach, phase, Event::Received(read)) == (phase, Doing::Wait),
        leads_to(Transport::PollAll, phase, Event::Received(read)) == (phase, Doing::Wait),
        leads_to(Transport::PushSocket, phase, Event::Sent(done)) == (phase, Doing::Wait),
        phase != Phase::Waiting ==> leads_to(Transport::PullSocket, phase, Event::ConfigChanged) == (
            phase,
            Doing::Wait,
        ),
{
}

/// A body is told by the document that it is, and by none where it is none.
pub proof fn bodies_tell_their_backend(body: Seq<char>)
    ensures
        json_read(body) is None ==> sniffed_body(body) is None,
        json_read(body) is Some ==> sniffed_body(body) == sniffed(json_read(body).unwrap()),
{
}

/// A node's reports are answered for the id behind the path.
pub proof fn reports_are_answered_by_id(uuid: Seq<char>, now: u64)
    requires
        !"/api/recent/"@.is_prefix_of(uuid),
    ensures
        answer_to("/api/recent/"@ + uuid, now) == ("200 OK"@, recent_text(uuid, now)),
{
    reveal_strlit("/api/recent/");
    reveal_strlit("/ping");
    reveal_strlit("/api/version");
    reveal_strlit("/api/nodes");
    let path = "/api/recent/"@ + uuid;
    prefixes_are_taken_off(uuid, "/api/recent/"@);
    assert(path.take("/api/recent/"@.len() as int) =~= "/api/recent/"@);
    assert("/api/recent/"@.is_prefix_of(path));
    assert(path.len() >= 12 && path[5] == 'r');
    assert("/ping"@.len() == 5 && "/api/version"@[5] == 'v' && "/api/nodes"@.len() == 10);
}

/// What is offered stands in the order of the list.
pub proof fn offers_keep_the_order(list: Seq<ClientInfo>, i: int, j: int)
    requires
        0 <= i < j < list.len(),
        known_by_id(list, i),
        known_by_id(list, j),
    ensures
        exists|a: int, b: int|
            0 <= a < b < picked(list).len() && #[trigger] picked(list)[a] == list[i]
                && #[trigger] picked(list)[b] == list[j],
{
    let n = list.len() as int;
    stays_in_front(list, i + 1, n);
    stays_in_front(list, j + 1, n);
    stays_in_front(list, i + 1, j);
    let a = picked_to(list, i).len() as int;
    let b = picked_to(list, j).len() as int;
    assert(picked_to(list, i + 1)[a] == list[i]);
    assert(picked_to(list, j + 1)[b] == list[j]);
    assert(picked(list)[a] == list[i]);
    assert(picked(list)[b] == list[j]);
}

proof fn stays_in_front(list: Seq<ClientInfo>, n: int, m: int)
    requires
        0 <= n <= m <= list.len(),
    ensures
        picked_to(list, n).len() <= picked_to(list, m).len(),
        forall|k: int|
            0 <= k < picked_to(list, n).len() ==> #[trigger] picked_to(list, m)[k] == picked_to(
                list,
                n,
            )[k],
    decreases m - n,
{
    if n < m {
        stays_in_front(list, n, m - 1);
        assert forall|k: int| 0 <= k < picked_to(list, n).len() implies #[trigger] picked_to(
            list,
            m,
        )[k] == picked_to(list, n)[k] by {
            assert(picked_to(list, m - 1)[k] == picked_to(list, n)[k]);
        }
    }
}

/// An action says what is done.
pub proof fn actions_say_what_is_done(text: String)
    ensures
        Action::Wait@ is Wait,
        Action::ReadNodes@ is ReadNodes,
        Action::SendGet@ is SendGet,
        Action::ReadMessage@ is ReadMessage,
        Action::PollNodes@ is PollNodes,
        Action::FetchNodes@ is FetchNodes,
        Action::ShowPolled@ is ShowPolled,
        Action::Show(text)@ == Doing::Show(text@),
        Action::Finish@ is Finish,
        Action::Fail(text)@ == Doing::Fail(text@),
{
}

/// What is said where something is missing or cannot be told.
pub proof fn words_for_what_is_missing()
    ensures
        UNCONFIGURED@ == "未配置后端地址，请在设置中填写"@,
        NO_DATA@ == "响应缺少 data 字段"@,
        NOT_JSON@ == "error decoding response body"@,
        UNRECOGNISED_KIND@
            == "无法识别后端类型：/api/nodes 的响应既不是 Komari 也不是极简探针"@,
        UNAUTHORIZED_UNKNOWN_KIND@
            == "后端返回 401：Komari 私有站点需要在设置中填写 API Key；极简探针站点则需要开启公开页"@,
{
}

} // verus!
