//! Sessions as state machines: what has happened decides what is done next.
//! Waiting, sending, reading and fetching are left to whoever runs them.

use vstd::prelude::*;

use crate::engine::NODES_REFRESH_MS;
use crate::models::{Settings, SettingsFacts};
use crate::providers::monitor::{NEEDS_PUBLIC_PAGE, WS_MAX_INTERVAL_SECS};
use crate::providers::{explained, FetchError};
use crate::table::Table;
use crate::text::joined;
use crate::wire::ClientInfo;

verus! {

/// What came of reading a socket.
#[derive(Debug)]
pub enum Read {
    Text(String),
    /// A message that is no text.
    Other,
    Failed(String),
    Closed,
    TimedOut,
}

/// What happened in a session.
#[derive(Debug)]
pub enum Event {
    /// The settings changed.
    ConfigChanged,
    /// It is time for the next poll; so long ago the node list was read.
    Tick { nodes_age_ms: u64 },
    /// The node list was read again, or why it was not.
    NodesRead(Result<(), String>),
    /// A request for data was sent, or could not be.
    Sent(bool),
    /// A message came, or did not.
    Received(Read),
    /// Every node was asked for its latest report.
    Polled,
    /// The text of all nodes came, or why it did not.
    Fetched(Result<String, FetchError>),
}

/// What to do next.
#[derive(Debug)]
pub enum Action {
    /// Wait for the next tick or message.
    Wait,
    ReadNodes,
    /// Send `get`.
    SendGet,
    ReadMessage,
    /// Ask every node for its latest report.
    PollNodes,
    FetchNodes,
    /// Show what was polled.
    ShowPolled,
    /// Show what a text says.
    Show(String),
    /// The session is over; the settings changed.
    Finish,
    /// The session is over; why.
    Fail(String),
}

/// What an action is, by what it holds.
pub enum Doing {
    Wait,
    ReadNodes,
    SendGet,
    ReadMessage,
    PollNodes,
    FetchNodes,
    ShowPolled,
    Show(Seq<char>),
    Finish,
    Fail(Seq<char>),
}

impl View for Action {
    type V = Doing;

    open spec fn view(&self) -> Doing {
        match *self {
            Action::Wait => Doing::Wait,
            Action::ReadNodes => Doing::ReadNodes,
            Action::SendGet => Doing::SendGet,
            Action::ReadMessage => Doing::ReadMessage,
            Action::PollNodes => Doing::PollNodes,
            Action::FetchNodes => Doing::FetchNodes,
            Action::ShowPolled => Doing::ShowPolled,
            Action::Show(text) => Doing::Show(text@),
            Action::Finish => Doing::Finish,
            Action::Fail(why) => Doing::Fail(why@),
        }
    }
}

/// Where a session stands.
#[derive(Debug, Clone, Copy, PartialEq, Eq, Structural)]
pub enum Phase {
    Waiting,
    ReadingNodes,
    Sending,
    Receiving,
    Polling,
    Fetching,
    Over,
}

/// How a session gets its data.
#[derive(Debug, Clone, Copy, PartialEq, Eq, Structural)]
pub enum Transport {
    /// Komari's socket: ask, then read one answer.
    PullSocket,
    /// Komari over HTTP: one request for each node.
    PollEach,
    /// The hub's socket: read what comes.
    PushSocket,
    /// The hub over HTTP: one request for all nodes.
    PollAll,
}

/// What a message from a socket leads to.
pub open spec fn message_leads_to(read: Read) -> (Phase, Doing) {
    match read {
        Read::Text(text) => (Phase::Waiting, Doing::Show(text@)),
        Read::Other => (Phase::Waiting, Doing::Wait),
        Read::Failed(e) => (Phase::Over, Doing::Fail("读取失败: "@ + e@)),
        Read::Closed => (Phase::Over, Doing::Fail("连接已被服务端关闭"@)),
        Read::TimedOut => (Phase::Over, Doing::Fail("读取超时"@)),
    }
}

/// What an event leads to in a phase of a session. Whatever does not belong to
/// the phase changes nothing.
pub open spec fn leads_to(transport: Transport, phase: Phase, event: Event) -> (Phase, Doing) {
    match (transport, phase, event) {
        (_, Phase::Waiting, Event::ConfigChanged) => (Phase::Over, Doing::Finish),
        (Transport::PullSocket, Phase::Waiting, Event::Tick { nodes_age_ms }) => if nodes_age_ms
            >= NODES_REFRESH_MS {
            (Phase::ReadingNodes, Doing::ReadNodes)
        } else {
            (Phase::Sending, Doing::SendGet)
        },
        // A list that could not be read again stays in use.
        (Transport::PullSocket, Phase::ReadingNodes, Event::NodesRead(_)) => (
            Phase::Sending,
            Doing::SendGet,
        ),
        (Transport::PullSocket, Phase::Sending, Event::Sent(done)) => if done {
            (Phase::Receiving, Doing::ReadMessage)
        } else {
            (Phase::Over, Doing::Fail("发送 WS 消息失败"@))
        },
        (Transport::PullSocket, Phase::Receiving, Event::Received(read)) => message_leads_to(read),
        (Transport::PollEach, Phase::Waiting, Event::Tick { nodes_age_ms }) => if nodes_age_ms
            >= NODES_REFRESH_MS {
            (Phase::ReadingNodes, Doing::ReadNodes)
        } else {
            (Phase::Polling, Doing::PollNodes)
        },
        (Transport::PollEach, Phase::ReadingNodes, Event::NodesRead(outcome)) => match outcome {
            Ok(_) => (Phase::Polling, Doing::PollNodes),
            Err(e) => (Phase::Over, Doing::Fail(e@)),
        },
        (Transport::PollEach, Phase::Polling, Event::Polled) => (
            Phase::Waiting,
            Doing::ShowPolled,
        ),
        (Transport::PushSocket, Phase::Waiting, Event::Received(read)) => message_leads_to(read),
        (Transport::PollAll, Phase::Waiting, Event::Tick { nodes_age_ms }) => (
            Phase::Fetching,
            Doing::FetchNodes,
        ),
        (Transport::PollAll, Phase::Fetching, Event::Fetched(outcome)) => match outcome {
            Ok(text) => (Phase::Waiting, Doing::Show(text@)),
            Err(e) => (Phase::Over, Doing::Fail(explained(e, NEEDS_PUBLIC_PAGE@))),
        },
        _ => (phase, Doing::Wait),
    }
}

fn on_message(read: Read) -> (res: (Phase, Action))
    ensures
        (res.0, res.1@) == message_leads_to(read),
{
    match read {
        Read::Text(text) => (Phase::Waiting, Action::Show(text)),
        Read::Other => (Phase::Waiting, Action::Wait),
        Read::Failed(e) => (Phase::Over, Action::Fail(joined("读取失败: ", e.as_str()))),
        Read::Closed => (Phase::Over, Action::Fail("连接已被服务端关闭".to_owned())),
        Read::TimedOut => (Phase::Over, Action::Fail("读取超时".to_owned())),
    }
}

/// The next phase of a session and what to do in it.
pub fn step(transport: Transport, phase: Phase, event: Event) -> (res: (Phase, Action))
    ensures
        (res.0, res.1@) == leads_to(transport, phase, event),
{
    match (transport, phase, event) {
        (_, Phase::Waiting, Event::ConfigChanged) => (Phase::Over, Action::Finish),
        (Transport::PullSocket, Phase::Waiting, Event::Tick { nodes_age_ms }) => if nodes_age_ms
            >= NODES_REFRESH_MS {
            (Phase::ReadingNodes, Action::ReadNodes)
        } else {
            (Phase::Sending, Action::SendGet)
        },
        (Transport::PullSocket, Phase::ReadingNodes, Event::NodesRead(_)) => (
            Phase::Sending,
            Action::SendGet,
        ),
        (Transport::PullSocket, Phase::Sending, Event::Sent(done)) => if done {
            (Phase::Receiving, Action::ReadMessage)
        } else {
            (Phase::Over, Action::Fail("发送 WS 消息失败".to_owned()))
        },
        (Transport::PullSocket, Phase::Receiving, Event::Received(read)) => on_message(read),
        (Transport::PollEach, Phase::Waiting, Event::Tick { nodes_age_ms }) => if nodes_age_ms
            >= NODES_REFRESH_MS {
            (Phase::ReadingNodes, Action::ReadNodes)
        } else {
            (Phase::Polling, Action::PollNodes)
        },
        (Transport::PollEach, Phase::ReadingNodes, Event::NodesRead(outcome)) => match outcome {
            Ok(_) => (Phase::Polling, Action::PollNodes),
            Err(e) => (Phase::Over, Action::Fail(e)),
        },
        (Transport::PollEach, Phase::Polling, Event::Polled) => (
            Phase::Waiting,
            Action::ShowPolled,
        ),
        (Transport::PushSocket, Phase::Waiting, Event::Received(read)) => on_message(read),
        (Transport::PollAll, Phase::Waiting, Event::Tick { nodes_age_ms: _ }) => (
            Phase::Fetching,
            Action::FetchNodes,
        ),
        (Transport::PollAll, Phase::Fetching, Event::Fetched(outcome)) => match outcome {
            Ok(text) => (Phase::Waiting, Action::Show(text)),
            Err(e) => (Phase::Over, Action::Fail(e.explain(NEEDS_PUBLIC_PAGE))),
        },
        (_, phase, _) => (phase, Action::Wait),
    }
}

/// Other settings end a session wherever it waits, without an error; nothing
/// else ends it without one.
pub proof fn only_new_settings_finish_a_session(transport: Transport, phase: Phase, event: Event)
    ensures
        leads_to(transport, Phase::Waiting, Event::ConfigChanged) == (Phase::Over, Doing::Finish),
        leads_to(transport, phase, event).1 is Finish ==> event is ConfigChanged,
        phase != Phase::Over && leads_to(transport, phase, event).0 is Over ==> leads_to(
            transport,
            phase,
            event,
        ).1 is Finish || leads_to(transport, phase, event).1 is Fail,
        leads_to(transport, Phase::Over, event) == (Phase::Over, Doing::Wait),
{
}

/// How a session with Komari begins.
pub open spec fn komari_way(settings: SettingsFacts) -> Transport {
    if settings.api_key.len() > 0 {
        Transport::PollEach
    } else {
        Transport::PullSocket
    }
}

/// How to begin with Komari: with a key the authenticated requests, else the
/// socket.
pub fn komari_transport(settings: &Settings) -> (res: Transport)
    ensures
        res == komari_way(settings@),
{
    if crate::providers::komari::requires_authenticated_http(settings) {
        Transport::PollEach
    } else {
        Transport::PullSocket
    }
}

/// Told when Komari's socket has failed and polling takes over.
pub open spec fn fallback_text(error: Seq<char>) -> Seq<char> {
    "实时连接不可用（"@ + error + "），已回退 HTTP 轮询"@
}

/// Told when Komari's socket has failed and polling takes over.
pub fn fallback_notice(error: &str) -> (out: String)
    ensures
        out@ == fallback_text(error@),
{
    let mut out = joined("实时连接不可用（", error);
    out.append("），已回退 HTTP 轮询");
    out
}

/// What follows the end of a transport.
#[derive(Debug)]
pub enum Following {
    /// The session is over.
    Over(Result<(), String>),
    /// Tell why, and poll every node instead.
    Poll { notice: String },
}

/// What follows the end of a transport: a socket of Komari's that failed, or
/// never opened, gives way to polling; anything else ends the session.
pub fn after_transport(transport: Transport, outcome: Result<(), String>) -> (res: Following)
    ensures
        match (transport, outcome) {
            (Transport::PullSocket, Err(e)) => res is Poll && res->notice@ == fallback_text(e@),
            _ => res == Following::Over(outcome),
        },
{
    match (transport, outcome) {
        (Transport::PullSocket, Err(e)) => Following::Poll { notice: fallback_notice(e.as_str()) },
        (_, outcome) => Following::Over(outcome),
    }
}

/// What a text that says nothing leads to.
pub open spec fn unread_leads_to(transport: Transport, why: Seq<char>) -> (Phase, Doing) {
    match transport {
        Transport::PushSocket | Transport::PollAll => (Phase::Over, Doing::Fail(why)),
        _ => (Phase::Waiting, Doing::Wait),
    }
}

/// What a text that was to be shown but could not be read leads to: the hub's
/// ends the session, a message of Komari's is passed over.
pub fn after_unread(transport: Transport, why: String) -> (res: (Phase, Action))
    ensures
        (res.0, res.1@) == unread_leads_to(transport, why@),
{
    match transport {
        Transport::PushSocket | Transport::PollAll => (Phase::Over, Action::Fail(why)),
        _ => (Phase::Waiting, Action::Wait),
    }
}

/// The node list to begin with: Komari's socket begins without one where it
/// could not be read, anything else needs it.
pub fn after_first_nodes(transport: Transport, outcome: Result<Table<ClientInfo>, String>) -> (res:
    Result<Table<ClientInfo>, String>)
    ensures
        match (transport, outcome) {
            (Transport::PullSocket, Err(_)) => res is Ok && res->Ok_0@ == Map::<
                Seq<char>,
                ClientInfo,
            >::empty(),
            _ => res == outcome,
        },
{
    match (transport, outcome) {
        (Transport::PullSocket, Err(_)) => Ok(Table::new()),
        (_, outcome) => outcome,
    }
}

/// How a session with the hub runs.
pub open spec fn hub_way(settings: SettingsFacts) -> Transport {
    if settings.poll_interval_secs <= WS_MAX_INTERVAL_SECS {
        Transport::PushSocket
    } else {
        Transport::PollAll
    }
}

/// How to run a session with the hub: its socket where it is slow enough for
/// the settings.
pub fn monitor_transport(settings: &Settings) -> (res: Transport)
    ensures
        res == hub_way(settings@),
{
    if settings.poll_interval_secs <= WS_MAX_INTERVAL_SECS {
        Transport::PushSocket
    } else {
        Transport::PollAll
    }
}

} // verus!
