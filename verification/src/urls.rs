//! Backend addresses: normal form, origin and live socket.

use vstd::prelude::*;

use crate::decimal::{decimal, digits};
use crate::models::{bare_url, bare_url_is_stable};
use crate::text::{contains, find_from, holds_part, joined, occurs_at, replace_first, same, stripped_end, strip_end_is_a_prefix, text_if, trim, trim_leaves_no_white_ends, trimmed, white, with_first_replaced};

verus! {

/// The parts of an address that matter here.
#[derive(Debug, Clone)]
pub struct UrlParts {
    pub scheme: String,
    pub host: Option<String>,
    /// The port, where the address names one other than its scheme's own.
    pub port: Option<u16>,
}

/// What the parts of an address say.
#[verifier::ext_equal]
pub struct UrlFacts {
    pub scheme: Seq<char>,
    pub host: Option<Seq<char>>,
    pub port: Option<u16>,
}

impl View for UrlParts {
    type V = UrlFacts;

    open spec fn view(&self) -> UrlFacts {
        UrlFacts { scheme: self.scheme@, host: text_if(self.host), port: self.port }
    }
}

/// The parts that the `url` crate finds in a text; nothing where the text is
/// no address.
pub uninterp spec fn url_parts(text: Seq<char>) -> Option<UrlFacts>;

/// What optional parts say.
pub open spec fn parts_if(parts: Option<UrlParts>) -> Option<UrlFacts> {
    match parts {
        Some(p) => Some(p@),
        None => None,
    }
}

/// `url::Url::parse`, with the scheme, host and port of the address it finds.
/// They follow from the text alone.
#[verifier::external_body]
fn split_url(text: &str) -> (res: Option<UrlParts>)
    ensures
        parts_if(res) == url_parts(text@),
{
    url::Url::parse(text).ok().map(
        |u|
            UrlParts {
                scheme: u.scheme().to_string(),
                host: u.host_str().map(|host| host.to_string()),
                port: u.port(),
            },
    )
}

/// What a result says.
pub open spec fn outcome(res: Result<String, String>) -> Result<Seq<char>, Seq<char>> {
    match res {
        Ok(text) => Ok(text@),
        Err(message) => Err(message@),
    }
}

/// A bare address with a scheme: `https` where it names none.
pub open spec fn with_scheme(bare: Seq<char>) -> Seq<char> {
    if holds_part(bare, "://"@) {
        bare
    } else {
        "https://"@ + bare
    }
}

/// The normal form of an address, given the parts found in it.
pub open spec fn base_of(raw: Seq<char>, parts: Option<UrlFacts>) -> Result<Seq<char>, Seq<char>> {
    let bare = bare_url(raw);
    if bare.len() == 0 {
        Err("后端地址为空"@)
    } else {
        match parts {
            None => Err("无法解析后端地址: "@ + bare),
            Some(p) => if p.scheme == "http"@ || p.scheme == "https"@ {
                Ok(with_scheme(bare))
            } else {
                Err("不支持的协议: "@ + p.scheme)
            },
        }
    }
}

/// The normal form of an address, or why there is none.
pub open spec fn normal_base(raw: Seq<char>) -> Result<Seq<char>, Seq<char>> {
    base_of(raw, url_parts(with_scheme(bare_url(raw))))
}

/// The normal form of an address, given the parts found in it.
pub fn accept_base(raw: &str, parts: Option<UrlParts>) -> (res: Result<String, String>)
    ensures
        outcome(res) == base_of(raw@, parts_if(parts)),
{
    let bare = stripped_end(trimmed(raw).as_str(), '/');
    if bare.as_str().is_empty() {
        return Err("后端地址为空".to_owned());
    }
    match parts {
        None => Err(joined("无法解析后端地址: ", bare.as_str())),
        Some(p) => if same(p.scheme.as_str(), "http") || same(p.scheme.as_str(), "https") {
            Ok(schemed(bare))
        } else {
            Err(joined("不支持的协议: ", p.scheme.as_str()))
        },
    }
}

fn schemed(bare: String) -> (out: String)
    ensures
        out@ == with_scheme(bare@),
{
    if contains(bare.as_str(), "://") {
        bare
    } else {
        joined("https://", bare.as_str())
    }
}

/// Normalize a backend base URL: trim, strip trailing slashes, default scheme.
pub fn normalize_base(raw: &str) -> (res: Result<String, String>)
    ensures
        outcome(res) == normal_base(raw@),
{
    let bare = stripped_end(trimmed(raw).as_str(), '/');
    accept_base(raw, split_url(schemed(bare).as_str()))
}

/// An address in its normal form is its own normal form. Left out are those
/// with white space in front of the slashes at their end, which taking the
/// slashes off lays bare.
pub proof fn normal_form_is_stable(raw: Seq<char>)
    requires
        normal_base(raw) is Ok,
        !white(bare_url(raw).last()),
    ensures
        normal_base(normal_base(raw)->Ok_0) == normal_base(raw),
{
    let bare = bare_url(raw);
    let base = with_scheme(bare);
    reveal_strlit("://");
    reveal_strlit("https://");
    strip_end_is_a_prefix(trim(raw), '/');
    trim_leaves_no_white_ends(raw);
    bare_url_is_stable(raw);
    if !holds_part(bare, "://"@) {
        assert(base.subrange(5, 8) =~= "://"@);
        assert(occurs_at(base, "://"@, 5));
        assert(base.last() == bare.last());
        assert(crate::text::trim_start(base) == base);
        assert(crate::text::trim_end(base) == base);
        assert(crate::text::strip_end(base, '/') == base);
    }
}

/// A normal form names `http` or `https`, and does not end in a slash.
pub proof fn normal_form_is_plain(raw: Seq<char>)
    requires
        normal_base(raw) is Ok,
    ensures
        ({
            let base = normal_base(raw)->Ok_0;
            &&& base.len() > 0
            &&& base.last() != '/'
            &&& holds_part(base, "://"@)
            &&& url_parts(base) is Some
            &&& url_parts(base).unwrap().scheme == "http"@ || url_parts(base).unwrap().scheme
                == "https"@
        }),
{
    let bare = bare_url(raw);
    let base = with_scheme(bare);
    reveal_strlit("://");
    reveal_strlit("https://");
    strip_end_is_a_prefix(trim(raw), '/');
    if !holds_part(bare, "://"@) {
        assert(base.subrange(5, 8) =~= "://"@);
        assert(occurs_at(base, "://"@, 5));
        assert(base.last() == bare.last());
    }
}

/// The origin of an address, given the parts found in it.
pub open spec fn origin_from(base: Seq<char>, parts: Option<UrlFacts>) -> Seq<char> {
    match parts {
        None => base,
        Some(p) => {
            let host = match p.host {
                Some(h) => h,
                None => Seq::empty(),
            };
            let start = p.scheme + "://"@ + host;
            if p.port is Some {
                start + ":"@ + digits(p.port.unwrap() as nat)
            } else if p.scheme == "http"@ {
                start + ":"@ + digits(80)
            } else if p.scheme == "https"@ {
                start + ":"@ + digits(443)
            } else {
                start
            }
        },
    }
}

/// The origin of an address, given the parts found in it.
pub fn origin_with(base: &str, parts: Option<UrlParts>) -> (out: String)
    ensures
        out@ == origin_from(base@, parts_if(parts)),
{
    match parts {
        None => base.to_owned(),
        Some(p) => {
            let port: Option<u64> = match p.port {
                Some(number) => Some(number as u64),
                None => if same(p.scheme.as_str(), "http") {
                    Some(80)
                } else if same(p.scheme.as_str(), "https") {
                    Some(443)
                } else {
                    None
                },
            };
            let host = match p.host {
                Some(h) => h,
                None => String::new(),
            };
            let mut out = joined(p.scheme.as_str(), "://");
            out.append(host.as_str());
            match port {
                Some(number) => {
                    out.append(":");
                    out.append(decimal(number).as_str());
                },
                None => {},
            }
            out
        },
    }
}

/// `https://a.b:8080/x` -> `https://a.b:8080` (used for the WS Origin header).
pub fn origin_of(base: &str) -> (out: String)
    ensures
        out@ == origin_from(base@, url_parts(base@)),
{
    origin_with(base, split_url(base))
}

/// A base address as that of a socket: `wss` for `https`, `ws` for `http`.
pub open spec fn socket_base(base: Seq<char>) -> Seq<char> {
    replace_first(
        replace_first(base, "https://"@, "wss://"@),
        "http://"@,
        "ws://"@,
    )
}

/// The socket at `path` of a base address.
pub fn socket_url(base: &str, path: &str) -> (out: String)
    ensures
        out@ == socket_base(base@) + path@,
{
    let secure = with_first_replaced(base, "https://", "wss://");
    let mut out = with_first_replaced(secure.as_str(), "http://", "ws://");
    out.append(path);
    out
}

/// The live socket of a backend, or why its address has none.
pub open spec fn live_socket(raw: Seq<char>, path: Seq<char>) -> Result<Seq<char>, Seq<char>> {
    match normal_base(raw) {
        Ok(base) => Ok(socket_base(base) + path),
        Err(message) => Err(message),
    }
}

pub fn ws_url_of(base: &str) -> (res: Result<String, String>)
    ensures
        outcome(res) == live_socket(base@, "/api/clients"@),
{
    match normalize_base(base) {
        Ok(normal) => Ok(socket_url(normal.as_str(), "/api/clients")),
        Err(message) => Err(message),
    }
}

/// A secure address has a secure socket and a plain one a plain socket, at the
/// same host and path.
pub proof fn socket_keeps_the_address(rest: Seq<char>)
    requires
        !holds_part("wss://"@ + rest, "http://"@),
        !holds_part("http://"@ + rest, "https://"@),
    ensures
        socket_base("https://"@ + rest) == "wss://"@ + rest,
        socket_base("http://"@ + rest) == "ws://"@ + rest,
{
    reveal_strlit("https://");
    reveal_strlit("http://");
    let secure = "https://"@ + rest;
    let plain = "http://"@ + rest;
    assert(secure.subrange(0, 8) =~= "https://"@);
    assert(occurs_at(secure, "https://"@, 0));
    assert(secure.take(0) + "wss://"@ + secure.skip(8) =~= "wss://"@ + rest);
    nothing_found("wss://"@ + rest, "http://"@, 0);
    nothing_found(plain, "https://"@, 0);
    assert(plain.subrange(0, 7) =~= "http://"@);
    assert(occurs_at(plain, "http://"@, 0));
    assert(plain.take(0) + "ws://"@ + plain.skip(7) =~= "ws://"@ + rest);
}

proof fn nothing_found(s: Seq<char>, part: Seq<char>, from: int)
    requires
        !holds_part(s, part),
        from >= 0,
    ensures
        find_from(s, part, from) is None,
    decreases s.len() + 1 - from,
{
    if from + part.len() <= s.len() {
        assert(!occurs_at(s, part, from));
        nothing_found(s, part, from + 1);
    }
}

} // verus!
