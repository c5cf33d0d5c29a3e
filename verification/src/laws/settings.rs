//! Settings as they are kept, and the addresses made of them.

use vstd::arithmetic::power2::pow2;
use vstd::prelude::*;

use crate::arithmetic::whole;
use crate::decimal::digits;
use crate::exact::{dyadic, dyadics_order, held_in, short};
use crate::laws::sums::{icon_marks, in_parts};
use crate::models::{bare_url, default_settings, held, tidied, BackendKind, Settings, ThemeMode, TrayMode};
use crate::text::{find_from, holds_part, occurs_at, replace_first, strip_end, text_le, trim, trim_end, trim_start, white};
use crate::urls::{base_of, live_socket, normal_base, origin_from, socket_base, with_scheme, UrlFacts};
use crate::version::{placed, tag_version, version_text, without_v, ReleaseFacts};

verus! {

/// Settings say what they hold.
pub proof fn settings_say_what_they_hold(s: Settings)
    ensures
        s@.backend_url == s.backend_url@,
        s@.api_key == s.api_key@,
        s@.backend_kind == s.backend_kind,
        s@.poll_interval_secs == s.poll_interval_secs,
        s@.tray_mode == s.tray_mode,
        s@.pinned_uuid == s.pinned_uuid@,
        s@.show_menu_bar_text == s.show_menu_bar_text,
        s@.cpu_warn_pct == s.cpu_warn_pct,
        s@.mem_warn_pct == s.mem_warn_pct,
        s@.accept_invalid_certs == s.accept_invalid_certs,
        s@.theme == s.theme,
        s@.silent_start == s.silent_start,
        s@.chart_keep_open == s.chart_keep_open,
{
}

/// What is set where nothing was: no backend, found out by asking, polled every
/// three seconds, all nodes shown with their rates, warnings at 80 and 85, and
/// nothing out of the ordinary.
pub proof fn nothing_is_set_at_first(s: Settings)
    requires
        s@ == default_settings(),
    ensures
        s.backend_url@.len() == 0,
        s.api_key@.len() == 0,
        s.backend_kind == BackendKind::Auto,
        s.poll_interval_secs == 3,
        s.tray_mode == TrayMode::Aggregate,
        s.pinned_uuid@.len() == 0,
        s.show_menu_bar_text,
        s.cpu_warn_pct == whole(80),
        s.mem_warn_pct == whole(85),
        !s.accept_invalid_certs,
        s.theme == ThemeMode::System,
        !s.silent_start,
        !s.chart_keep_open,
{
    icon_marks();
}

/// Tidying holds the interval from a second to a minute and either level, here
/// of `1 / 2^j` parts, from 1 to 100, each to its own value; it takes a choice of node back that names
/// none; and leaves the rest.
pub proof fn tidying_keeps_what_is_in_range(
    before: Settings,
    after: Settings,
    cpu: int,
    mem: int,
    j: nat,
)
    requires
        after@ == tidied(before@),
        short(cpu),
        short(mem),
        j <= 16,
        before.cpu_warn_pct == dyadic(cpu, j),
        before.mem_warn_pct == dyadic(mem, j),
    ensures
        after.poll_interval_secs == held_in(before.poll_interval_secs as int, 1, 60),
        after.cpu_warn_pct == dyadic(held_in(cpu, pow2(j) as int, 100 * pow2(j) as int), j),
        after.mem_warn_pct == dyadic(held_in(mem, pow2(j) as int, 100 * pow2(j) as int), j),
        trim(before.pinned_uuid@).len() > 0 ==> after.tray_mode == before.tray_mode,
        trim(before.pinned_uuid@).len() == 0 ==> after.tray_mode == TrayMode::Aggregate,
        after.api_key@ == trim(before.api_key@),
        after.backend_url@ == strip_end(trim(before.backend_url@), '/'),
        after.backend_kind == before.backend_kind,
        after.pinned_uuid@ == before.pinned_uuid@,
        after.show_menu_bar_text == before.show_menu_bar_text,
        after.accept_invalid_certs == before.accept_invalid_certs,
        after.theme == before.theme,
        after.silent_start == before.silent_start,
        after.chart_keep_open == before.chart_keep_open,
{
    icon_marks();
    let d = pow2(j) as int;
    in_parts(1, j);
    in_parts(100, j);
    assert(1 * d == d);
    dyadics_order(cpu, d, j);
    dyadics_order(100 * d, cpu, j);
    dyadics_order(mem, d, j);
    dyadics_order(100 * d, mem, j);
}

/// A text of white space.
pub open spec fn all_white(s: Seq<char>) -> bool {
    forall|i: int| 0 <= i < s.len() ==> white(#[trigger] s[i])
}

/// Trimming takes off the white space before and after a text, and nothing of
/// one that neither begins nor ends with any.
pub proof fn trimming_takes_off_padding(a: Seq<char>, s: Seq<char>, b: Seq<char>)
    requires
        all_white(a),
        all_white(b),
        s.len() > 0 ==> !white(s[0]) && !white(s[s.len() - 1]),
    ensures
        trim(a + s + b) == s,
{
    if s.len() == 0 {
        let all = a + s + b;
        assert(all_white(all)) by {
            assert forall|i: int| 0 <= i < all.len() implies white(#[trigger] all[i]) by {
                if i < a.len() {
                    assert(all[i] == a[i]);
                } else {
                    assert(all[i] == b[i - a.len()]);
                }
            }
        }
        starts_white(all, Seq::empty());
        assert(all + Seq::<char>::empty() =~= all);
        assert(trim_start(all) =~= Seq::empty());
        assert(s =~= Seq::empty());
    } else {
        assert(a + s + b =~= a + (s + b));
        assert((s + b)[0] == s[0]);
        starts_white(a, s + b);
        ends_white(s, b);
    }
}

proof fn starts_white(a: Seq<char>, s: Seq<char>)
    requires
        all_white(a),
        s.len() > 0 ==> !white(s[0]),
    ensures
        trim_start(a + s) == s,
    decreases a.len(),
{
    if a.len() == 0 {
        assert(a + s =~= s);
    } else {
        assert(white(a[0]));
        assert((a + s)[0] == a[0]);
        assert((a + s).drop_first() =~= a.drop_first() + s);
        assert forall|i: int| 0 <= i < a.drop_first().len() implies white(
            #[trigger] a.drop_first()[i],
        ) by {
            assert(a.drop_first()[i] == a[i + 1]);
        }
        starts_white(a.drop_first(), s);
    }
}

proof fn ends_white(s: Seq<char>, b: Seq<char>)
    requires
        all_white(b),
        s.len() > 0 ==> !white(s[s.len() - 1]),
    ensures
        trim_end(s + b) == s,
    decreases b.len(),
{
    if b.len() == 0 {
        assert(s + b =~= s);
        if s.len() > 0 {
            assert(s.last() == s[s.len() - 1]);
        }
    } else {
        assert(white(b[b.len() - 1]));
        assert((s + b).last() == b[b.len() - 1]);
        assert((s + b).drop_last() =~= s + b.drop_last());
        assert forall|i: int| 0 <= i < b.drop_last().len() implies white(
            #[trigger] b.drop_last()[i],
        ) by {
            assert(b.drop_last()[i] == b[i]);
        }
        ends_white(s, b.drop_last());
    }
}

/// White space is what Unicode counts as such: a space, a tab and the ends of
/// lines among it, and no letter, digit or sign of ASCII.
pub proof fn spaces_are_white(c: char)
    ensures
        c == ' ' || c == '\t' || c == '\n' || c == '\r' || c == '\u{a0}' || c == '\u{3000}'
            ==> white(c),
        0x21 <= c as u32 <= 0x7E ==> !white(c),
        0x4E00 <= c as u32 <= 0x9FFF ==> !white(c),
{
    assert(' ' as u32 == 0x20 && '\t' as u32 == 0x09 && '\n' as u32 == 0x0A && '\r' as u32 == 0x0D
        && '\u{a0}' as u32 == 0xA0 && '\u{3000}' as u32 == 0x3000);
}

/// An address is kept without the slashes at its end, and none but those.
pub proof fn slashes_are_taken_off(s: Seq<char>, b: Seq<char>, c: char)
    requires
        forall|i: int| 0 <= i < b.len() ==> #[trigger] b[i] == c,
        s.len() > 0 ==> s[s.len() - 1] != c,
    ensures
        strip_end(s + b, c) == s,
    decreases b.len(),
{
    if b.len() == 0 {
        assert(s + b =~= s);
        if s.len() > 0 {
            assert(s.last() == s[s.len() - 1]);
        }
    } else {
        assert(b[b.len() - 1] == c);
        assert((s + b).last() == c);
        assert((s + b).drop_last() =~= s + b.drop_last());
        assert forall|i: int| 0 <= i < b.drop_last().len() implies #[trigger] b.drop_last()[i] == c by {
            assert(b.drop_last()[i] == b[i]);
        }
        slashes_are_taken_off(s, b.drop_last(), c);
    }
}

/// An address in white space with slashes at its end is kept bare.
pub proof fn addresses_are_kept_bare(a: Seq<char>, s: Seq<char>, slashes: Seq<char>, b: Seq<char>)
    requires
        all_white(a),
        all_white(b),
        s.len() > 0,
        !white(s[0]),
        !white(s[s.len() - 1]),
        s[s.len() - 1] != '/',
        forall|i: int| 0 <= i < slashes.len() ==> #[trigger] slashes[i] == '/',
    ensures
        bare_url(a + (s + slashes) + b) == s,
{
    let middle = s + slashes;
    assert(middle[0] == s[0]);
    spaces_are_white('/');
    if slashes.len() > 0 {
        assert(slashes[slashes.len() - 1] == '/');
        assert(middle[middle.len() - 1] == '/');
        assert('/' as u32 == 0x2F);
    } else {
        assert(middle =~= s);
    }
    trimming_takes_off_padding(a, middle, b);
    slashes_are_taken_off(s, slashes, '/');
}

/// An address that names no scheme is asked over HTTPS; one that does stays.
pub proof fn addresses_get_a_scheme(s: Seq<char>, at: int)
    ensures
        occurs_at(s, "://"@, at) ==> with_scheme(s) == s,
        !holds_part(s, "://"@) ==> "https://"@.is_prefix_of(with_scheme(s)) && with_scheme(s).skip(
            8,
        ) == s,
{
    if occurs_at(s, "://"@, at) {
        assert(holds_part(s, "://"@));
    }
    reveal_strlit("https://");
    if !holds_part(s, "://"@) {
        assert(with_scheme(s).take(8) =~= "https://"@);
        assert(with_scheme(s).skip(8) =~= s);
    }
}

/// A part occurs where a text holds its characters one by one.
pub proof fn parts_occur_by_their_characters(s: Seq<char>, part: Seq<char>, at: int)
    ensures
        occurs_at(s, part, at) <==> {
            &&& 0 <= at
            &&& at + part.len() <= s.len()
            &&& forall|i: int| 0 <= i < part.len() ==> s[at + i] == #[trigger] part[i]
        },
{
    if 0 <= at && at + part.len() <= s.len() {
        let there = s.subrange(at, at + part.len());
        if there == part {
            assert forall|i: int| 0 <= i < part.len() implies s[at + i] == #[trigger] part[i] by {
                assert(there[i] == s[at + i]);
            }
        }
        if forall|i: int| 0 <= i < part.len() ==> s[at + i] == #[trigger] part[i] {
            assert(there =~= part);
        }
    }
}

/// A base is only made of an address over HTTP or HTTPS; one that is empty,
/// cannot be read or is of another scheme is refused.
pub proof fn bases_are_http(raw: Seq<char>, parts: Option<UrlFacts>)
    ensures
        base_of(raw, parts) is Ok <==> bare_url(raw).len() > 0 && parts is Some && (
        parts.unwrap().scheme == "http"@ || parts.unwrap().scheme == "https"@),
        base_of(raw, parts) is Ok ==> base_of(raw, parts)->Ok_0 == with_scheme(bare_url(raw)),
{
}

/// The origin of an address: its scheme, its host and its port, which is 80 for
/// HTTP and 443 for HTTPS where it names none.
pub proof fn origins_have_a_port(base: Seq<char>, scheme: Seq<char>, host: Seq<char>, port: u16)
    ensures
        origin_from(base, None) == base,
        origin_from(base, Some(UrlFacts { scheme, host: Some(host), port: Some(port) })) == scheme
            + "://"@ + host + ":"@ + digits(port as nat),
        origin_from(base, Some(UrlFacts { scheme: "http"@, host: Some(host), port: None }))
            == "http://"@ + host + ":"@ + digits(80),
        origin_from(base, Some(UrlFacts { scheme: "https"@, host: Some(host), port: None }))
            == "https://"@ + host + ":"@ + digits(443),
{
    reveal_strlit("http");
    reveal_strlit("https");
    reveal_strlit("://");
    reveal_strlit("http://");
    reveal_strlit("https://");
    assert("http"@.len() != "https"@.len());
    assert("http"@ + "://"@ + host =~= "http://"@ + host);
    assert("https"@ + "://"@ + host =~= "https://"@ + host);
}

proof fn found_first(s: Seq<char>, part: Seq<char>, from: int, at: int)
    requires
        0 <= from <= at,
        occurs_at(s, part, at),
        forall|k: int| from <= k < at ==> !#[trigger] occurs_at(s, part, k),
    ensures
        find_from(s, part, from) == Some(at),
    decreases at - from,
{
    if from < at {
        assert(!occurs_at(s, part, from));
        found_first(s, part, from + 1, at);
    }
}

/// The first place where a part stands is replaced, and nothing else.
pub proof fn the_first_part_is_replaced(a: Seq<char>, part: Seq<char>, b: Seq<char>, by: Seq<char>)
    requires
        forall|k: int| 0 <= k < a.len() ==> !#[trigger] occurs_at(a + part + b, part, k),
    ensures
        replace_first(a + part + b, part, by) == a + by + b,
{
    let s = a + part + b;
    let at = a.len() as int;
    assert(s.subrange(at, at + part.len()) =~= part);
    found_first(s, part, 0, at);
    assert(s.take(at) =~= a);
    assert(s.skip(at + part.len()) =~= b);
}

// ---------------------------------------------------------------------------
// Versions and names
// ---------------------------------------------------------------------------

/// A tag names its version behind any number of `v`, in either case, and in any
/// white space.
pub proof fn tags_name_their_version(a: Seq<char>, vs: Seq<char>, s: Seq<char>, b: Seq<char>)
    requires
        all_white(a),
        all_white(b),
        forall|i: int| 0 <= i < vs.len() ==> #[trigger] vs[i] == 'v' || vs[i] == 'V',
        s.len() > 0,
        s[0] != 'v',
        s[0] != 'V',
        !white(s[0]),
        !white(s[s.len() - 1]),
    ensures
        tag_version(a + (vs + s) + b) == s,
{
    let all = vs + s;
    assert(all[all.len() - 1] == s[s.len() - 1]);
    assert('v' as u32 == 0x76 && 'V' as u32 == 0x56);
    spaces_are_white('v');
    spaces_are_white('V');
    if vs.len() > 0 {
        assert(vs[0] == 'v' || vs[0] == 'V');
        assert(all[0] == vs[0]);
    } else {
        assert(all[0] == s[0]);
    }
    trimming_takes_off_padding(a, all, b);
    no_v(vs, s);
}

proof fn no_v(vs: Seq<char>, s: Seq<char>)
    requires
        forall|i: int| 0 <= i < vs.len() ==> #[trigger] vs[i] == 'v' || vs[i] == 'V',
        s.len() > 0,
        s[0] != 'v',
        s[0] != 'V',
    ensures
        without_v(vs + s) == s,
    decreases vs.len(),
{
    if vs.len() == 0 {
        assert(vs + s =~= s);
    } else {
        assert(vs[0] == 'v' || vs[0] == 'V');
        assert((vs + s)[0] == vs[0]);
        assert((vs + s).drop_first() =~= vs.drop_first() + s);
        assert forall|i: int| 0 <= i < vs.drop_first().len() implies #[trigger] vs.drop_first()[i]
            == 'v' || vs.drop_first()[i] == 'V' by {
            assert(vs.drop_first()[i] == vs[i + 1]);
        }
        no_v(vs.drop_first(), s);
    }
}

/// Versions go by their major number, then by their minor one, then by their
/// patch; a release goes after what led to it.
pub proof fn versions_go_by_their_numbers(a: ReleaseFacts, b: ReleaseFacts, after: bool)
    requires
        placed(a, b, after),
    ensures
        a.major > b.major ==> after,
        a.major < b.major ==> !after,
        a.major == b.major && a.minor > b.minor ==> after,
        a.major == b.major && a.minor < b.minor ==> !after,
        a.major == b.major && a.minor == b.minor && a.patch > b.patch ==> after,
        a.major == b.major && a.minor == b.minor && a.patch < b.patch ==> !after,
        a.major == b.major && a.minor == b.minor && a.patch == b.patch && a.pre.len() == 0
            && b.pre.len() > 0 ==> after,
        a.major == b.major && a.minor == b.minor && a.patch == b.patch && a.pre.len() > 0
            && b.pre.len() == 0 ==> !after,
        a == b ==> !after,
{
}

/// A version is written by its numbers, with a point between them, and its
/// labels behind `-` and `+`.
pub proof fn versions_are_written_by_their_numbers(v: ReleaseFacts)
    ensures
        ({
            let numbers = digits(v.major as nat) + "."@ + digits(v.minor as nat) + "."@ + digits(
                v.patch as nat,
            );
            &&& numbers.is_prefix_of(version_text(v))
            &&& v.pre.len() == 0 && v.build.len() == 0 ==> version_text(v) == numbers
            &&& v.pre.len() > 0 && v.build.len() == 0 ==> version_text(v) == numbers + "-"@ + v.pre
            &&& v.pre.len() == 0 && v.build.len() > 0 ==> version_text(v) == numbers + "+"@ + v.build
            &&& v.pre.len() > 0 && v.build.len() > 0 ==> (numbers + "-"@ + v.pre).is_prefix_of(
                version_text(v),
            ) && v.build.is_suffix_of(version_text(v))
        }),
{
    let numbers = digits(v.major as nat) + "."@ + digits(v.minor as nat) + "."@ + digits(
        v.patch as nat,
    );
    let text = version_text(v);
    assert(text.take(numbers.len() as int) =~= numbers);
    if v.pre.len() > 0 && v.build.len() > 0 {
        let labelled = numbers + "-"@ + v.pre;
        assert(text.take(labelled.len() as int) =~= labelled);
        assert(text.skip(text.len() - v.build.len()) =~= v.build);
    }
}

/// Texts are in order by the first character in which they differ, and a text
/// goes before those that go on from it.
pub proof fn texts_go_by_their_first_difference(p: Seq<char>, a: Seq<char>, b: Seq<char>)
    ensures
        a.len() > 0 && b.len() > 0 && (a[0] as u32) < (b[0] as u32) ==> text_le(p + a, p + b)
            && !text_le(p + b, p + a),
        text_le(p, p + a),
        a.len() > 0 ==> !text_le(p + a, p),
    decreases p.len(),
{
    if p.len() == 0 {
        assert(p + a =~= a);
        assert(p + b =~= b);
    } else {
        let q = p.drop_first();
        texts_go_by_their_first_difference(q, a, b);
        assert((p + a).drop_first() =~= q + a);
        assert((p + b).drop_first() =~= q + b);
        assert((p + a)[0] == p[0] && (p + b)[0] == p[0]);
    }
}

/// A number in a range is held as it is, and one outside of it at its nearer end.
pub proof fn numbers_are_held_to_their_range(n: int, low: int, high: int)
    requires
        low <= high,
    ensures
        low <= n <= high ==> held(n, low, high) == n,
        n < low ==> held(n, low, high) == low,
        n > high ==> held(n, low, high) == high,
{
}

/// Why an address is refused is told with what is wrong of it.
pub proof fn refused_addresses_are_named(raw: Seq<char>, p: UrlFacts)
    ensures
        bare_url(raw).len() > 0 ==> base_of(raw, None) is Err && bare_url(raw).is_suffix_of(
            base_of(raw, None)->Err_0,
        ),
        bare_url(raw).len() > 0 && p.scheme != "http"@ && p.scheme != "https"@ ==> base_of(
            raw,
            Some(p),
        ) is Err && p.scheme.is_suffix_of(base_of(raw, Some(p))->Err_0),
        bare_url(raw).len() == 0 ==> base_of(raw, Some(p)) == Err::<Seq<char>, Seq<char>>(
            "后端地址为空"@,
        ),
{
    let one = "无法解析后端地址: "@;
    assert((one + bare_url(raw)).skip(one.len() as int) =~= bare_url(raw));
    let two = "不支持的协议: "@;
    assert((two + p.scheme).skip(two.len() as int) =~= p.scheme);
}

/// The live socket is at a path below the address of the socket, and there where
/// the address has a normal form.
pub proof fn sockets_are_below_their_address(raw: Seq<char>, path: Seq<char>)
    ensures
        live_socket(raw, path) is Ok <==> normal_base(raw) is Ok,
        normal_base(raw) is Ok ==> socket_base(normal_base(raw)->Ok_0).is_prefix_of(
            live_socket(raw, path)->Ok_0,
        ) && path.is_suffix_of(live_socket(raw, path)->Ok_0) && live_socket(raw, path)->Ok_0.len()
            == socket_base(normal_base(raw)->Ok_0).len() + path.len(),
        normal_base(raw) is Err ==> live_socket(raw, path)->Err_0 == normal_base(raw)->Err_0,
{
    if normal_base(raw) is Ok {
        let base = socket_base(normal_base(raw)->Ok_0);
        assert((base + path).take(base.len() as int) =~= base);
        assert((base + path).skip(base.len() as int) =~= path);
    }
}

} // verus!
