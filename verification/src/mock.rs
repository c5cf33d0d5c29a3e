//! A small stand-in for a Komari backend, for end-to-end tests (HTTP only: the
//! app falls back from WebSocket to HTTP polling, which is what it exercises).

use vstd::prelude::*;

use crate::decimal::{decimal, digits};
use crate::text::{after_prefix, chars_of, contains, holds_part, is_white, joined, same, text_of, trim_start, white};
use vstd::utf8::encode_utf8;

verus! {

/// The node list.
pub const NODES_JSON: &'static str = r#"{"status":"success","data":[
            {"uuid":"11111111-1111-1111-1111-111111111111","name":"测试节点A","region":"CN","mem_total":8589934592,"os":"Debian 12"},
            {"uuid":"22222222-2222-2222-2222-222222222222","name":"测试节点B","region":"US","mem_total":4294967296,"os":"Ubuntu 24.04"}
        ]}"#;

pub fn nodes_json() -> (out: String)
    ensures
        out@ == NODES_JSON@,
{
    NODES_JSON.to_owned()
}

/// A report; the figures are given as they are written.
pub open spec fn report_text(
    cpu: Seq<char>,
    ram_used: u64,
    ram_total: u64,
    up: Seq<char>,
    down: Seq<char>,
    now: u64,
) -> Seq<char> {
    "{\"cpu\":{\"usage\":"@ + cpu + "},\"ram\":{\"total\":"@ + digits(ram_total as nat)
        + ",\"used\":"@ + digits(ram_used as nat)
        + "},\"swap\":{\"total\":1073741824,\"used\":0},\"disk\":{\"total\":107374182400,\"used\":53687091200},\"network\":{\"up\":"@
        + up + ",\"down\":"@ + down
        + ",\"totalUp\":123456789,\"totalDown\":987654321},\"connections\":{\"tcp\":120,\"udp\":8},\"uptime\":98765,\"updated_at\":"@
        + digits(now as nat) + "}"@
}

pub fn report(cpu: &str, ram_used: u64, ram_total: u64, up: &str, down: &str, now: u64) -> (out:
    String)
    ensures
        out@ == report_text(cpu@, ram_used, ram_total, up@, down@, now),
{
    let mut out = joined("{\"cpu\":{\"usage\":", cpu);
    out.append("},\"ram\":{\"total\":");
    out.append(decimal(ram_total).as_str());
    out.append(",\"used\":");
    out.append(decimal(ram_used).as_str());
    out.append(
        "},\"swap\":{\"total\":1073741824,\"used\":0},\"disk\":{\"total\":107374182400,\"used\":53687091200},\"network\":{\"up\":",
    );
    out.append(up);
    out.append(",\"down\":");
    out.append(down);
    out.append(
        ",\"totalUp\":123456789,\"totalDown\":987654321},\"connections\":{\"tcp\":120,\"udp\":8},\"uptime\":98765,\"updated_at\":",
    );
    out.append(decimal(now).as_str());
    out.append("}");
    out
}

/// The latest report of a node: the first is healthy (cpu 32%, mem 50%), any
/// other hot (cpu 88%, which warns at the default 80%).
pub open spec fn recent_text(uuid: Seq<char>, now: u64) -> Seq<char> {
    let body = if "1111"@.is_prefix_of(uuid) {
        report_text("32"@, 4294967296, 8589934592, "2048"@, "3355443.2"@, now)
    } else {
        report_text("88"@, 2147483648, 4294967296, "8192"@, "12582912"@, now)
    };
    "{\"status\":\"success\",\"data\":["@ + body + "]}"@
}

pub fn recent_json(uuid: &str, now: u64) -> (out: String)
    ensures
        out@ == recent_text(uuid@, now),
{
    let body = match after_prefix(uuid, "1111") {
        Some(rest) => {
            assert("1111"@ =~= uuid@.take("1111"@.len() as int));
            report("32", 4294967296, 8589934592, "2048", "3355443.2", now)
        },
        None => report("88", 2147483648, 4294967296, "8192", "12582912", now),
    };
    let mut out = joined("{\"status\":\"success\",\"data\":[", body.as_str());
    out.append("]}");
    out
}

// ---------------------------------------------------------------------------
// Requests
// ---------------------------------------------------------------------------

/// `s` from its first white space on.
pub open spec fn after_word(s: Seq<char>) -> Seq<char>
    decreases s.len(),
{
    if s.len() > 0 && !white(s[0]) {
        after_word(s.drop_first())
    } else {
        s
    }
}

/// `s` up to its first white space.
pub open spec fn first_word(s: Seq<char>) -> Seq<char> {
    s.take(s.len() - after_word(s).len())
}

/// `s` up to its first line end.
pub open spec fn first_line(s: Seq<char>) -> Seq<char>
    decreases s.len(),
{
    if s.len() == 0 || s[0] == '\n' {
        Seq::empty()
    } else {
        seq![s[0]] + first_line(s.drop_first())
    }
}

/// The second word of the first line of a request; a slash where there is none.
pub open spec fn path_of(request: Seq<char>) -> Seq<char> {
    let word = first_word(trim_start(after_word(trim_start(first_line(request)))));
    if word.len() == 0 {
        "/"@
    } else {
        word
    }
}

fn skip_word(chars: &Vec<char>, from: usize, to: usize) -> (res: usize)
    requires
        from <= to <= chars@.len(),
    ensures
        from <= res <= to,
        after_word(chars@.subrange(from as int, to as int)) == chars@.subrange(
            res as int,
            to as int,
        ),
{
    let mut i: usize = from;
    while i < to && !is_white(chars[i])
        invariant
            from <= i <= to <= chars@.len(),
            after_word(chars@.subrange(from as int, to as int)) == after_word(
                chars@.subrange(i as int, to as int),
            ),
        decreases to - i,
    {
        assert(chars@.subrange(i as int, to as int).drop_first() =~= chars@.subrange(
            i + 1,
            to as int,
        ));
        i = i + 1;
    }
    i
}

fn skip_white(chars: &Vec<char>, from: usize, to: usize) -> (res: usize)
    requires
        from <= to <= chars@.len(),
    ensures
        from <= res <= to,
        trim_start(chars@.subrange(from as int, to as int)) == chars@.subrange(
            res as int,
            to as int,
        ),
{
    let mut i: usize = from;
    while i < to && is_white(chars[i])
        invariant
            from <= i <= to <= chars@.len(),
            trim_start(chars@.subrange(from as int, to as int)) == trim_start(
                chars@.subrange(i as int, to as int),
            ),
        decreases to - i,
    {
        assert(chars@.subrange(i as int, to as int).drop_first() =~= chars@.subrange(
            i + 1,
            to as int,
        ));
        i = i + 1;
    }
    i
}

proof fn line_ends(s: Seq<char>, n: int)
    requires
        0 <= n <= s.len(),
        forall|i: int| 0 <= i < n ==> s[i] != '\n',
        n < s.len() ==> s[n] == '\n',
    ensures
        first_line(s) == s.take(n),
    decreases n,
{
    if n > 0 {
        let rest = s.drop_first();
        assert(s[0] != '\n');
        assert forall|i: int| 0 <= i < n - 1 implies rest[i] != '\n' by {
            assert(rest[i] == s[i + 1]);
        }
        line_ends(rest, n - 1);
        assert(s.take(n) =~= seq![s[0]] + rest.take(n - 1));
    } else {
        assert(s.take(0) =~= Seq::<char>::empty());
    }
}

/// The path that a request asks for.
pub fn request_path(request: &str) -> (out: String)
    ensures
        out@ == path_of(request@),
{
    let chars = chars_of(request);
    let mut end: usize = 0;
    while end < chars.len() && chars[end] != '\n'
        invariant
            end <= chars@.len(),
            forall|i: int| 0 <= i < end ==> chars@[i] != '\n',
        decreases chars@.len() - end,
    {
        end = end + 1;
    }
    proof {
        line_ends(chars@, end as int);
        assert(chars@.take(end as int) =~= chars@.subrange(0, end as int));
    }
    let a = skip_white(&chars, 0, end);
    let b = skip_word(&chars, a, end);
    let c = skip_white(&chars, b, end);
    let d = skip_word(&chars, c, end);
    assert(chars@.subrange(c as int, end as int).take(d - c) =~= chars@.subrange(
        c as int,
        d as int,
    ));
    if c == d {
        "/".to_owned()
    } else {
        text_of(&chars, c, d)
    }
}

/// Whether a request has been read as far as it is looked at.
pub fn request_complete(request: &str) -> (res: bool)
    ensures
        res == (holds_part(request@, "\r\n\r\n"@) || encode_utf8(request@).len() > 16384),
{
    contains(request, "\r\n\r\n") || request.as_bytes().len() > 16384
}

/// `s` without a prefix, however often it stands in front.
pub open spec fn without_prefixes(s: Seq<char>, prefix: Seq<char>) -> Seq<char>
    decreases s.len(),
{
    if prefix.len() > 0 && prefix.is_prefix_of(s) {
        without_prefixes(s.skip(prefix.len() as int), prefix)
    } else {
        s
    }
}

fn strip_prefixes(text: String, prefix: &str) -> (out: String)
    requires
        prefix@.len() > 0,
    ensures
        out@ == without_prefixes(text@, prefix@),
    decreases text@.len(),
{
    match after_prefix(text.as_str(), prefix) {
        Some(rest) => {
            proof {
                assert(text@.skip(prefix@.len() as int) =~= rest@);
                assert(prefix@ =~= text@.take(prefix@.len() as int));
            }
            strip_prefixes(rest, prefix)
        },
        None => text,
    }
}

/// What a path is answered with.
pub open spec fn answer_to(path: Seq<char>, now: u64) -> (Seq<char>, Seq<char>) {
    if path == "/ping"@ {
        ("200 OK"@, "pong"@)
    } else if path == "/api/version"@ {
        ("200 OK"@, "{\"version\":\"0.0.0-mock\",\"hash\":\"deadbeef\"}"@)
    } else if path == "/api/nodes"@ {
        ("200 OK"@, NODES_JSON@)
    } else if "/api/recent/"@.is_prefix_of(path) {
        ("200 OK"@, recent_text(without_prefixes(path, "/api/recent/"@), now))
    } else {
        ("404 Not Found"@, "{\"status\":\"error\",\"message\":\"not found\"}"@)
    }
}

/// The status and body for a path.
pub fn answer(path: &str, now: u64) -> (res: (String, String))
    ensures
        (res.0@, res.1@) == answer_to(path@, now),
{
    if same(path, "/ping") {
        ("200 OK".to_owned(), "pong".to_owned())
    } else if same(path, "/api/version") {
        (
            "200 OK".to_owned(),
            "{\"version\":\"0.0.0-mock\",\"hash\":\"deadbeef\"}".to_owned(),
        )
    } else if same(path, "/api/nodes") {
        ("200 OK".to_owned(), nodes_json())
    } else {
        match after_prefix(path, "/api/recent/") {
            Some(_) => {
                proof {
                    reveal_strlit("/api/recent/");
                    assert("/api/recent/"@ =~= path@.take("/api/recent/"@.len() as int));
                }
                let uuid = strip_prefixes(path.to_owned(), "/api/recent/");
                ("200 OK".to_owned(), recent_json(uuid.as_str(), now))
            },
            None => (
                "404 Not Found".to_owned(),
                "{\"status\":\"error\",\"message\":\"not found\"}".to_owned(),
            ),
        }
    }
}

/// A whole response.
pub fn response(status: &str, body: &str) -> (out: String)
    ensures
        out@ == "HTTP/1.1 "@ + status@ + "\r\nContent-Type: application/json\r\nContent-Length: "@
            + digits(encode_utf8(body@).len()) + "\r\nConnection: close\r\n\r\n"@ + body@,
{
    let mut out = joined("HTTP/1.1 ", status);
    out.append("\r\nContent-Type: application/json\r\nContent-Length: ");
    out.append(decimal(body.as_bytes().len() as u64).as_str());
    out.append("\r\nConnection: close\r\n\r\n");
    out.append(body);
    out
}

} // verus!
