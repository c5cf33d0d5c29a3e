//! What a Komari backend sends.

use vstd::prelude::*;

use crate::figure::{figure_of, Figure, ZERO_BITS};
use crate::table::Table;
use crate::text::text_if;

verus! {

#[derive(Debug)]
pub struct Envelope<T> {
    pub status: String,
    pub data: Option<T>,
    pub message: Option<String>,
}

/// `GET /api/nodes` list item: only the fields that are shown.
#[derive(Debug, Clone)]
pub struct ClientInfo {
    pub uuid: String,
    pub name: String,
    pub region: String,
    pub mem_total: u64,
    pub os: String,
    /// A node's group, unlike its tags, is a single plain name.
    pub group: String,
    /// `;`-separated.
    pub tags: String,
    pub traffic_limit: u64,
    pub traffic_limit_type: String,
    pub expired_at: Option<String>,
}

/// What a list item says.
#[verifier::ext_equal]
pub struct ClientFacts {
    pub uuid: Seq<char>,
    pub name: Seq<char>,
    pub region: Seq<char>,
    pub mem_total: u64,
    pub os: Seq<char>,
    pub group: Seq<char>,
    pub tags: Seq<char>,
    pub traffic_limit: u64,
    pub traffic_limit_type: Seq<char>,
    pub expired_at: Option<Seq<char>>,
}

impl View for ClientInfo {
    type V = ClientFacts;

    open spec fn view(&self) -> ClientFacts {
        ClientFacts {
            uuid: self.uuid@,
            name: self.name@,
            region: self.region@,
            mem_total: self.mem_total,
            os: self.os@,
            group: self.group@,
            tags: self.tags@,
            traffic_limit: self.traffic_limit,
            traffic_limit_type: self.traffic_limit_type@,
            expired_at: text_if(self.expired_at),
        }
    }
}

/// An item that says nothing.
pub open spec fn blank_client() -> ClientFacts {
    ClientFacts {
        uuid: Seq::empty(),
        name: Seq::empty(),
        region: Seq::empty(),
        mem_total: 0,
        os: Seq::empty(),
        group: Seq::empty(),
        tags: Seq::empty(),
        traffic_limit: 0,
        traffic_limit_type: Seq::empty(),
        expired_at: None,
    }
}

impl Default for ClientInfo {
    fn default() -> (info: Self)
        ensures
            info@ == blank_client(),
    {
        ClientInfo {
            uuid: String::new(),
            name: String::new(),
            region: String::new(),
            mem_total: 0,
            os: String::new(),
            group: String::new(),
            tags: String::new(),
            traffic_limit: 0,
            traffic_limit_type: String::new(),
            expired_at: None,
        }
    }
}

/// WebSocket `{"status":"success","data":{"online":[...],"data":{...}}}`.
#[derive(Debug)]
pub struct WsPayload {
    pub online: Vec<String>,
    pub data: Table<Report>,
}

impl Default for WsPayload {
    fn default() -> (payload: Self)
        ensures
            payload.online@ == Seq::<String>::empty(),
            payload.data@ == Map::<Seq<char>, Report>::empty(),
    {
        WsPayload { online: Vec::new(), data: Table::new() }
    }
}

/// Live report (`/api/recent/{uuid}` item and `/api/clients` WS value).
#[derive(Debug, Clone, Copy)]
pub struct Report {
    pub cpu: Option<Usage>,
    pub ram: Option<Mem>,
    pub swap: Option<Mem>,
    pub disk: Option<Mem>,
    pub network: Option<NetStat>,
    pub connections: Option<Conns>,
    pub uptime: Option<u64>,
}

#[derive(Debug, Clone, Copy)]
pub struct Usage {
    pub usage: Option<Figure>,
}

#[derive(Debug, Clone, Copy)]
pub struct Mem {
    pub total: Option<u64>,
    pub used: Option<u64>,
}

#[derive(Debug, Clone, Copy)]
pub struct NetStat {
    pub up: Option<Figure>,
    pub down: Option<Figure>,
    pub total_up: Option<u64>,
    pub total_down: Option<u64>,
}

#[derive(Debug, Clone, Copy)]
pub struct Conns {
    pub tcp: Option<u64>,
    pub udp: Option<u64>,
}

/// A report of nothing.
pub open spec fn blank_report() -> Report {
    Report {
        cpu: None,
        ram: None,
        swap: None,
        disk: None,
        network: None,
        connections: None,
        uptime: None,
    }
}

impl Default for Report {
    fn default() -> (report: Self)
        ensures
            report == blank_report(),
    {
        Report {
            cpu: None,
            ram: None,
            swap: None,
            disk: None,
            network: None,
            connections: None,
            uptime: None,
        }
    }
}

impl Default for Usage {
    fn default() -> (usage: Self)
        ensures
            usage == (Usage { usage: None }),
    {
        Usage { usage: None }
    }
}

impl Default for Mem {
    fn default() -> (mem: Self)
        ensures
            mem == (Mem { total: None, used: None }),
    {
        Mem { total: None, used: None }
    }
}

impl Default for NetStat {
    fn default() -> (net: Self)
        ensures
            net == (NetStat { up: None, down: None, total_up: None, total_down: None }),
    {
        NetStat { up: None, down: None, total_up: None, total_down: None }
    }
}

impl Default for Conns {
    fn default() -> (conns: Self)
        ensures
            conns == (Conns { tcp: None, udp: None }),
    {
        Conns { tcp: None, udp: None }
    }
}

// ---------------------------------------------------------------------------
// What a report says, zero where it says nothing
// ---------------------------------------------------------------------------

pub open spec fn count_or_zero(count: Option<u64>) -> u64 {
    match count {
        Some(n) => n,
        None => 0,
    }
}

pub open spec fn figure_or_zero(figure: Option<Figure>) -> Figure {
    match figure {
        Some(f) => f,
        None => figure_of(ZERO_BITS),
    }
}

pub open spec fn used_in(mem: Option<Mem>) -> u64 {
    match mem {
        Some(m) => count_or_zero(m.used),
        None => 0,
    }
}

pub open spec fn total_in(mem: Option<Mem>) -> u64 {
    match mem {
        Some(m) => count_or_zero(m.total),
        None => 0,
    }
}

impl Report {
    pub open spec fn cpu_usage(self) -> Figure {
        match self.cpu {
            Some(c) => figure_or_zero(c.usage),
            None => figure_of(ZERO_BITS),
        }
    }

    pub open spec fn rate_up(self) -> Figure {
        match self.network {
            Some(n) => figure_or_zero(n.up),
            None => figure_of(ZERO_BITS),
        }
    }

    pub open spec fn rate_down(self) -> Figure {
        match self.network {
            Some(n) => figure_or_zero(n.down),
            None => figure_of(ZERO_BITS),
        }
    }

    pub open spec fn sent(self) -> u64 {
        match self.network {
            Some(n) => count_or_zero(n.total_up),
            None => 0,
        }
    }

    pub open spec fn received(self) -> u64 {
        match self.network {
            Some(n) => count_or_zero(n.total_down),
            None => 0,
        }
    }

    pub open spec fn tcp_count(self) -> u64 {
        match self.connections {
            Some(c) => count_or_zero(c.tcp),
            None => 0,
        }
    }

    pub open spec fn udp_count(self) -> u64 {
        match self.connections {
            Some(c) => count_or_zero(c.udp),
            None => 0,
        }
    }
}

pub(crate) fn count(value: Option<u64>) -> (res: u64)
    ensures
        res == count_or_zero(value),
{
    match value {
        Some(n) => n,
        None => 0,
    }
}

pub(crate) fn figure(value: Option<Figure>) -> (res: Figure)
    ensures
        res == figure_or_zero(value),
{
    match value {
        Some(f) => f,
        None => Figure { bits: ZERO_BITS },
    }
}

pub(crate) fn used(mem: Option<Mem>) -> (res: u64)
    ensures
        res == used_in(mem),
{
    match mem {
        Some(m) => count(m.used),
        None => 0,
    }
}

pub(crate) fn total(mem: Option<Mem>) -> (res: u64)
    ensures
        res == total_in(mem),
{
    match mem {
        Some(m) => count(m.total),
        None => 0,
    }
}

} // verus!
