//! Backend providers.
//!
//! Both supported backends expose a node list, live metrics and ping records,
//! but the shape of the wire differs enough that one function cannot serve
//! both: Komari's live socket is a pull (`send "get"`, read one reply) and its
//! HTTP path needs a request per node, while 极简探针 pushes on its own timer
//! and answers the whole fleet in one request.

use vstd::prelude::*;

use crate::json::{json_get, json_list, json_read, json_text, list_in, member, read_json, text_in, Json};
use crate::models::{BackendKind, Settings};
use crate::text::joined;

pub mod komari;
pub mod monitor;
pub mod session;

verus! {

/// A `/api/nodes` fetch that failed.
///
/// A 401 is kept apart from everything else because what to tell the user
/// about it depends on which backend answered (a Komari site wants an API
/// Key, a 极简探针 site wants its public page switched on) and the fetch
/// itself runs before that is known.
#[derive(Debug)]
pub enum FetchError {
    Unauthorized,
    Other(String),
}

impl FetchError {
    /// Resolve into a message, given what the caller knows about the backend.
    pub fn explain(self, unauthorized: &str) -> (out: String)
        ensures
            out@ == explained(self, unauthorized@),
    {
        match self {
            FetchError::Unauthorized => unauthorized.to_owned(),
            FetchError::Other(e) => e,
        }
    }
}

/// What is said of a failed fetch.
pub open spec fn explained(e: FetchError, unauthorized: Seq<char>) -> Seq<char> {
    match e {
        FetchError::Unauthorized => unauthorized,
        FetchError::Other(text) => text@,
    }
}

/// A backend, once decided. [`BackendKind`] is what settings persist and may
/// still be `Auto`; this is what the engine actually runs.
#[derive(Debug, Clone, Copy, PartialEq, Eq, Structural)]
pub enum Provider {
    Komari,
    /// 极简探针 (`monitor-probe/monitor`).
    Monitor,
}

/// How many requests for ping records are in flight at once.
pub open spec fn requests_at_once(provider: Provider) -> usize {
    match provider {
        Provider::Komari => 8,
        Provider::Monitor => 1,
    }
}

/// The backend that settings name outright.
pub open spec fn named_provider(kind: BackendKind) -> Option<Provider> {
    match kind {
        BackendKind::Komari => Some(Provider::Komari),
        BackendKind::Monitor => Some(Provider::Monitor),
        BackendKind::Auto => None,
    }
}

/// Which backend a document of `/api/nodes` is from: one with a node list is
/// the hub's, one with a status and a list of data is Komari's.
pub open spec fn sniffed(document: Json) -> Option<Provider> {
    if list_in(member(document, "nodes"@)) is Some {
        Some(Provider::Monitor)
    } else if text_in(member(document, "status"@)) is Some && list_in(
        member(document, "data"@),
    ) is Some {
        Some(Provider::Komari)
    } else {
        None
    }
}

/// Which backend a body of `/api/nodes` is from.
pub open spec fn sniffed_body(body: Seq<char>) -> Option<Provider> {
    match json_read(body) {
        Some(document) => sniffed(document),
        None => None,
    }
}

impl Provider {
    pub fn label(self) -> (res: &'static str)
        ensures
            res@ == match self {
                Provider::Komari => "Komari"@,
                Provider::Monitor => "极简探针"@,
            },
    {
        match self {
            Provider::Komari => "Komari",
            Provider::Monitor => "极简探针",
        }
    }

    /// How many ping requests this backend tolerates in flight.
    ///
    /// Komari serves one uuid per request and has no documented gate, so the
    /// fan-out is what keeps a refresh inside its interval. 极简探针 answers
    /// history behind a semaphore of four **shared with every other visitor**,
    /// refusing rather than queueing beyond it, and each request holds the one
    /// connection its agents report through. One at a time costs about a
    /// second a minute for a small fleet and never takes a slot from the web
    /// UI.
    pub fn ping_concurrency(self) -> (res: usize)
        ensures
            res == requests_at_once(self),
    {
        match self {
            Provider::Komari => 8,
            Provider::Monitor => 1,
        }
    }

    /// The backend that settings name outright; none where the site is to be
    /// asked.
    pub fn named(kind: BackendKind) -> (res: Option<Provider>)
        ensures
            res == named_provider(kind),
    {
        match kind {
            BackendKind::Komari => Some(Provider::Komari),
            BackendKind::Monitor => Some(Provider::Monitor),
            BackendKind::Auto => None,
        }
    }

    /// Resolve the configured kind. Both backends answer `/api/nodes`, and
    /// their envelopes are distinct enough to tell apart, so where the kind is
    /// `Auto` what was fetched there decides. The two explicit kinds are taken
    /// at their word.
    pub fn resolve(settings: &Settings, fetched: Option<Result<String, FetchError>>) -> (res: Result<
        Provider,
        String,
    >)
        requires
            settings.backend_kind is Auto ==> fetched is Some,
        ensures
            match named_provider(settings.backend_kind) {
                Some(provider) => res == Ok::<Provider, String>(provider),
                None => match fetched.unwrap() {
                    Err(e) => res is Err && res->Err_0@ == explained(e, UNAUTHORIZED_UNKNOWN_KIND@),
                    Ok(body) => match sniffed_body(body@) {
                        Some(provider) => res == Ok::<Provider, String>(provider),
                        None => res is Err && res->Err_0@ == UNRECOGNISED_KIND@,
                    },
                },
            },
    {
        match Provider::named(settings.backend_kind) {
            Some(provider) => Ok(provider),
            None => match fetched.unwrap() {
                Err(e) => Err(e.explain(UNAUTHORIZED_UNKNOWN_KIND)),
                Ok(body) => match sniff(body.as_str()) {
                    Some(provider) => Ok(provider),
                    None => Err(UNRECOGNISED_KIND.to_owned()),
                },
            },
        }
    }
}

/// Where both backends list their nodes.
pub fn node_list_url(base: &str) -> (out: String)
    ensures
        out@ == base@ + "/api/nodes"@,
{
    joined(base, "/api/nodes")
}

/// A 401 from a site whose backend is still unknown: either reading needs a
/// credential this app has not been given, or it is a 极简探针 site with its
/// public page closed. Both are named, since nothing in the response says
/// which.
pub const UNAUTHORIZED_UNKNOWN_KIND: &'static str =
    "后端返回 401：Komari 私有站点需要在设置中填写 API Key；极简探针站点则需要开启公开页";

/// An answer that is neither backend's.
pub const UNRECOGNISED_KIND: &'static str =
    "无法识别后端类型：/api/nodes 的响应既不是 Komari 也不是极简探针";

/// Which backend produced this document.
pub fn sniff_document(document: &serde_json::Value) -> (res: Option<Provider>)
    ensures
        res == sniffed(crate::json::json_of(*document)),
{
    match json_get(document, "nodes") {
        Some(nodes) => if json_list(nodes).is_some() {
            return Some(Provider::Monitor);
        },
        None => {},
    }
    match json_get(document, "status") {
        Some(status) => if json_text(status).is_none() {
            return None;
        },
        None => {
            return None;
        },
    }
    match json_get(document, "data") {
        Some(data) => if json_list(data).is_some() {
            Some(Provider::Komari)
        } else {
            None
        },
        None => None,
    }
}

/// Which backend produced this `/api/nodes` body.
///
/// Komari wraps everything in `{"status":…,"data":[…]}`; 极简探针 answers
/// `{"admin":…,"nodes":[…]}`. Checking for the list rather than only the
/// marker key keeps an unrelated service that happens to return `{"status":…}`
/// from being mistaken for a backend.
pub fn sniff(body: &str) -> (res: Option<Provider>)
    ensures
        res == sniffed_body(body@),
{
    match read_json(body) {
        Some(document) => sniff_document(&document),
        None => None,
    }
}

/// A document with a node list is the hub's, whatever else it holds; and one
/// without a list under either key is nobody's, whatever it says of its status.
pub proof fn envelopes_are_told_apart(document: Json)
    ensures
        list_in(member(document, "nodes"@)) is Some ==> sniffed(document) == Some(
            Provider::Monitor,
        ),
        list_in(member(document, "nodes"@)) is None && list_in(member(document, "data"@)) is None
            ==> sniffed(document) is None,
        list_in(member(document, "nodes"@)) is None && member(document, "status"@) is None
            ==> sniffed(document) is None,
{
}

} // verus!
