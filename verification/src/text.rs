//! Text as sequences of characters: building, trimming, searching and ordering.

use vstd::prelude::*;
use vstd::utf8::{decode_utf8, encode_utf8, is_ascii_chars, is_ascii_chars_encode_utf8, is_char_boundary};

verus! {

/// `String::push` appends one character.
pub assume_specification[ String::push ](text: &mut String, c: char)
    ensures
        final(text)@ == old(text)@.push(c),
;

/// The characters of a text.
pub fn chars_of(text: &str) -> (out: Vec<char>)
    ensures
        out@ == text@,
{
    let mut out: Vec<char> = Vec::new();
    for c in it: text.chars()
        invariant
            out@ == text@.take(it.index() as int),
            it.seq() == text@,
    {
        proof {
            assert(text@.take(it.index() + 1) == text@.take(it.index() as int).push(c));
        }
        out.push(c);
    }
    assert(text@.take(text@.len() as int) == text@);
    out
}

/// A text made of the characters from `from` up to `to`.
pub fn text_of(chars: &Vec<char>, from: usize, to: usize) -> (out: String)
    requires
        from <= to <= chars@.len(),
    ensures
        out@ == chars@.subrange(from as int, to as int),
{
    let mut out = String::new();
    let mut i: usize = from;
    while i < to
        invariant
            from <= i <= to <= chars@.len(),
            out@ == chars@.subrange(from as int, i as int),
        decreases to - i,
    {
        out.push(chars[i]);
        i = i + 1;
        assert(chars@.subrange(from as int, i as int) == chars@.subrange(from as int, i - 1).push(chars@[i - 1]));
    }
    out
}

/// `first` followed by `second`.
pub fn joined(first: &str, second: &str) -> (out: String)
    ensures
        out@ == first@ + second@,
{
    let mut out = first.to_owned();
    out.append(second);
    out
}

/// Whether two texts hold the same characters.
pub fn same(first: &str, second: &str) -> (res: bool)
    ensures
        res == (first@ == second@),
{
    let a = chars_of(first);
    let b = chars_of(second);
    if a.len() != b.len() {
        return false;
    }
    let mut i: usize = 0;
    while i < a.len()
        invariant
            a@ == first@,
            b@ == second@,
            a@.len() == b@.len(),
            i <= a@.len(),
            forall|j: int| 0 <= j < i ==> a@[j] == b@[j],
        decreases a@.len() - i,
    {
        if a[i] != b[i] {
            assert(first@[i as int] != second@[i as int]);
            return false;
        }
        i = i + 1;
    }
    assert(first@ =~= second@);
    true
}

/// The texts that a list of strings holds.
pub open spec fn texts(list: Seq<String>) -> Seq<Seq<char>> {
    list.map_values(|s: String| s@)
}

/// Whether a list holds a text.
pub fn holds_text(list: &Vec<String>, text: &str) -> (res: bool)
    ensures
        res == texts(list@).contains(text@),
{
    let mut i: usize = 0;
    while i < list.len()
        invariant
            i <= list@.len(),
            forall|j: int| 0 <= j < i ==> (#[trigger] texts(list@)[j]) != text@,
        decreases list@.len() - i,
    {
        if same(list[i].as_str(), text) {
            assert(texts(list@)[i as int] == text@);
            return true;
        }
        i = i + 1;
    }
    false
}

/// The text of an optional string.
pub open spec fn text_if(value: Option<String>) -> Option<Seq<char>> {
    match value {
        Some(s) => Some(s@),
        None => None,
    }
}

// ---------------------------------------------------------------------------
// Trimming
// ---------------------------------------------------------------------------

/// The characters with the Unicode property `White_Space`.
pub open spec fn white(c: char) -> bool {
    ||| 0x09 <= c as u32 <= 0x0D
    ||| c as u32 == 0x20
    ||| c as u32 == 0x85
    ||| c as u32 == 0xA0
    ||| c as u32 == 0x1680
    ||| 0x2000 <= c as u32 <= 0x200A
    ||| c as u32 == 0x2028
    ||| c as u32 == 0x2029
    ||| c as u32 == 0x202F
    ||| c as u32 == 0x205F
    ||| c as u32 == 0x3000
}

pub fn is_white(c: char) -> (res: bool)
    ensures
        res == white(c),
{
    let u: u32 = c as u32;
    (0x09 <= u && u <= 0x0D) || u == 0x20 || u == 0x85 || u == 0xA0 || u == 0x1680 || (0x2000 <= u
        && u <= 0x200A) || u == 0x2028 || u == 0x2029 || u == 0x202F || u == 0x205F || u == 0x3000
}

/// `s` without its leading white space.
pub open spec fn trim_start(s: Seq<char>) -> Seq<char>
    decreases s.len(),
{
    if s.len() > 0 && white(s[0]) {
        trim_start(s.drop_first())
    } else {
        s
    }
}

/// `s` without its trailing white space.
pub open spec fn trim_end(s: Seq<char>) -> Seq<char>
    decreases s.len(),
{
    if s.len() > 0 && white(s.last()) {
        trim_end(s.drop_last())
    } else {
        s
    }
}

/// `s` without white space at either end.
pub open spec fn trim(s: Seq<char>) -> Seq<char> {
    trim_end(trim_start(s))
}

/// `s` without the run of `c` at its end.
pub open spec fn strip_end(s: Seq<char>, c: char) -> Seq<char>
    decreases s.len(),
{
    if s.len() > 0 && s.last() == c {
        strip_end(s.drop_last(), c)
    } else {
        s
    }
}

/// The text without white space at either end.
pub fn trimmed(text: &str) -> (out: String)
    ensures
        out@ == trim(text@),
{
    let chars = chars_of(text);
    let mut i: usize = 0;
    assert(chars@.skip(0) == chars@);
    while i < chars.len() && is_white(chars[i])
        invariant
            i <= chars@.len(),
            trim_start(chars@) == trim_start(chars@.skip(i as int)),
        decreases chars@.len() - i,
    {
        assert(chars@.skip(i as int).drop_first() == chars@.skip(i + 1));
        i = i + 1;
    }
    assert(trim_start(chars@) == chars@.skip(i as int));
    let mut j: usize = chars.len();
    assert(chars@.skip(i as int) == chars@.subrange(i as int, j as int));
    while i < j && is_white(chars[j - 1])
        invariant
            i <= j <= chars@.len(),
            trim_end(chars@.skip(i as int)) == trim_end(chars@.subrange(i as int, j as int)),
        decreases j,
    {
        assert(chars@.subrange(i as int, j as int).drop_last() == chars@.subrange(i as int, j - 1));
        j = j - 1;
    }
    text_of(&chars, i, j)
}

/// The text without the run of `c` at its end.
pub fn stripped_end(text: &str, c: char) -> (out: String)
    ensures
        out@ == strip_end(text@, c),
{
    let chars = chars_of(text);
    let mut j: usize = chars.len();
    assert(chars@.subrange(0, j as int) == chars@);
    while 0 < j && chars[j - 1] == c
        invariant
            j <= chars@.len(),
            strip_end(chars@, c) == strip_end(chars@.subrange(0, j as int), c),
        decreases j,
    {
        assert(chars@.subrange(0, j as int).drop_last() == chars@.subrange(0, j - 1));
        j = j - 1;
    }
    text_of(&chars, 0, j)
}

/// What trimming leaves is a part of the text, without white space at its ends.
pub proof fn trim_leaves_no_white_ends(s: Seq<char>)
    ensures
        trim(s).len() > 0 ==> !white(trim(s)[0]) && !white(trim(s).last()),
        trim(trim(s)) == trim(s),
{
    trim_start_drops_leading(s);
    trim_end_keeps_start(trim_start(s));
}

proof fn trim_start_drops_leading(s: Seq<char>)
    ensures
        trim_start(s).len() > 0 ==> !white(trim_start(s)[0]),
    decreases s.len(),
{
    if s.len() > 0 && white(s[0]) {
        trim_start_drops_leading(s.drop_first());
    }
}

pub(crate) proof fn trim_end_keeps_start(s: Seq<char>)
    ensures
        trim_end(s).len() <= s.len(),
        trim_end(s) == s.take(trim_end(s).len() as int),
        trim_end(s).len() > 0 ==> !white(trim_end(s).last()) && trim_end(s)[0] == s[0],
        trim_end(trim_end(s)) == trim_end(s),
    decreases s.len(),
{
    if s.len() > 0 && white(s.last()) {
        trim_end_keeps_start(s.drop_last());
        assert(trim_end(s) == s.take(trim_end(s).len() as int));
    } else {
        assert(s.take(s.len() as int) == s);
    }
}

/// Stripping leaves a prefix that does not end in the stripped character.
pub proof fn strip_end_is_a_prefix(s: Seq<char>, c: char)
    ensures
        strip_end(s, c).len() <= s.len(),
        strip_end(s, c) == s.take(strip_end(s, c).len() as int),
        strip_end(s, c).len() > 0 ==> strip_end(s, c).last() != c,
        strip_end(strip_end(s, c), c) == strip_end(s, c),
    decreases s.len(),
{
    if s.len() > 0 && s.last() == c {
        strip_end_is_a_prefix(s.drop_last(), c);
        assert(strip_end(s, c) == s.take(strip_end(s, c).len() as int));
    } else {
        assert(s.take(s.len() as int) == s);
    }
}

// ---------------------------------------------------------------------------
// Searching
// ---------------------------------------------------------------------------

/// Whether `part` stands in `s` at `at`.
pub open spec fn occurs_at(s: Seq<char>, part: Seq<char>, at: int) -> bool {
    0 <= at && at + part.len() <= s.len() && s.subrange(at, at + part.len()) == part
}

/// Whether `part` stands anywhere in `s`.
pub open spec fn holds_part(s: Seq<char>, part: Seq<char>) -> bool {
    exists|at: int| occurs_at(s, part, at)
}

/// The first place of `part` in `s`, looking from `from`.
pub open spec fn find_from(s: Seq<char>, part: Seq<char>, from: int) -> Option<int>
    decreases s.len() + 1 - from,
{
    if from < 0 || from + part.len() > s.len() {
        None
    } else if occurs_at(s, part, from) {
        Some(from)
    } else {
        find_from(s, part, from + 1)
    }
}

/// `s` with the first `part` in it replaced by `by`.
pub open spec fn replace_first(s: Seq<char>, part: Seq<char>, by: Seq<char>) -> Seq<char> {
    match find_from(s, part, 0) {
        Some(at) => s.take(at) + by + s.skip(at + part.len()),
        None => s,
    }
}

fn matches_at(chars: &Vec<char>, part: &Vec<char>, at: usize) -> (res: bool)
    requires
        at + part.len() <= chars.len(),
    ensures
        res == occurs_at(chars@, part@, at as int),
{
    let mut i: usize = 0;
    while i < part.len()
        invariant
            at + part.len() <= chars.len(),
            i <= part@.len(),
            forall|j: int| 0 <= j < i ==> chars@[at + j] == part@[j],
        decreases part@.len() - i,
    {
        if chars[at + i] != part[i] {
            assert(chars@.subrange(at as int, at + part@.len())[i as int] != part@[i as int]);
            return false;
        }
        i = i + 1;
    }
    assert(chars@.subrange(at as int, at + part@.len()) =~= part@);
    true
}

/// The first place of `part`, counted in characters.
pub fn find(chars: &Vec<char>, part: &Vec<char>) -> (res: Option<usize>)
    ensures
        match res {
            Some(at) => find_from(chars@, part@, 0) == Some(at as int) && occurs_at(
                chars@,
                part@,
                at as int,
            ),
            None => find_from(chars@, part@, 0) is None && !holds_part(chars@, part@),
        },
{
    let mut at: usize = 0;
    while part.len() <= chars.len() && at <= chars.len() - part.len()
        invariant
            at <= chars@.len(),
            part@.len() <= chars@.len() ==> at <= chars@.len() - part@.len() + 1,
            part@.len() <= chars@.len() ==> find_from(chars@, part@, 0) == find_from(
                chars@,
                part@,
                at as int,
            ),
            forall|j: int| 0 <= j < at ==> !occurs_at(chars@, part@, j),
        decreases chars@.len() - at,
    {
        if matches_at(chars, part, at) {
            return Some(at);
        }
        if at == chars.len() {
            assert(find_from(chars@, part@, at + 1) is None);
            return None;
        }
        at = at + 1;
    }
    None
}

/// Whether `part` stands anywhere in the text.
pub fn contains(text: &str, part: &str) -> (res: bool)
    ensures
        res == holds_part(text@, part@),
{
    find(&chars_of(text), &chars_of(part)).is_some()
}

/// The text with the first `part` in it replaced by `by`.
pub fn with_first_replaced(text: &str, part: &str, by: &str) -> (out: String)
    ensures
        out@ == replace_first(text@, part@, by@),
{
    let chars = chars_of(text);
    let pattern = chars_of(part);
    match find(&chars, &pattern) {
        Some(at) => {
            let mut out = text_of(&chars, 0, at);
            out.append(by);
            assert(at + pattern.len() <= chars.len());
            out.append(text_of(&chars, at + pattern.len(), chars.len()).as_str());
            proof {
                assert(chars@.subrange(0, at as int) == text@.take(at as int));
                assert(chars@.subrange(at + pattern@.len(), chars@.len() as int) == text@.skip(
                    at + part@.len(),
                ));
            }
            out
        },
        None => text.to_owned(),
    }
}

/// What follows `prefix`, where the text begins with it.
pub fn after_prefix(text: &str, prefix: &str) -> (res: Option<String>)
    ensures
        match res {
            Some(rest) => text@ == prefix@ + rest@,
            None => !prefix@.is_prefix_of(text@),
        },
{
    let chars = chars_of(text);
    let head = chars_of(prefix);
    if head.len() <= chars.len() && matches_at(&chars, &head, 0) {
        let rest = text_of(&chars, head.len(), chars.len());
        assert(text@ == prefix@ + rest@) by {
            assert(chars@.subrange(0, head@.len() as int) == head@);
        }
        Some(rest)
    } else {
        assert(!prefix@.is_prefix_of(text@)) by {
            if prefix@.is_prefix_of(text@) {
                assert(chars@.subrange(0, head@.len() as int) == head@);
            }
        }
        None
    }
}

// ---------------------------------------------------------------------------
// Splitting
// ---------------------------------------------------------------------------

/// The pieces of `s` between separators: one more than there are separators.
pub open spec fn split_on(s: Seq<char>, sep: char) -> Seq<Seq<char>>
    decreases s.len(),
{
    if s.len() == 0 {
        seq![Seq::empty()]
    } else {
        let before = split_on(s.drop_last(), sep);
        if s.last() == sep {
            before.push(Seq::empty())
        } else {
            before.drop_last().push(before.last().push(s.last()))
        }
    }
}

/// The pieces, trimmed, without those that hold nothing.
pub open spec fn trimmed_pieces(pieces: Seq<Seq<char>>) -> Seq<Seq<char>>
    decreases pieces.len(),
{
    if pieces.len() == 0 {
        Seq::empty()
    } else {
        let before = trimmed_pieces(pieces.drop_last());
        let piece = trim(pieces.last());
        if piece.len() > 0 {
            before.push(piece)
        } else {
            before
        }
    }
}

/// Every piece between separators, trimmed, without those that hold nothing.
pub fn split_trimmed(text: &str, sep: char) -> (out: Vec<String>)
    ensures
        texts(out@) == trimmed_pieces(split_on(text@, sep)),
{
    let chars = chars_of(text);
    let mut out: Vec<String> = Vec::new();
    let mut piece = String::new();
    let mut i: usize = 0;
    proof {
        assert(chars@.take(0) == Seq::<char>::empty());
        assert(split_on(chars@.take(0), sep).drop_last() == Seq::<Seq<char>>::empty());
        assert(texts(out@) == trimmed_pieces(Seq::<Seq<char>>::empty()));
    }
    while i < chars.len()
        invariant
            i <= chars@.len(),
            split_on(chars@.take(i as int), sep).len() > 0,
            piece@ == split_on(chars@.take(i as int), sep).last(),
            texts(out@) == trimmed_pieces(split_on(chars@.take(i as int), sep).drop_last()),
        decreases chars@.len() - i,
    {
        let c = chars[i];
        let ghost before = split_on(chars@.take(i as int), sep);
        let ghost held = out@;
        assert(chars@.take(i + 1).drop_last() == chars@.take(i as int));
        assert(chars@.take(i + 1).last() == c);
        if c == sep {
            let cut = trimmed(piece.as_str());
            if !cut.as_str().is_empty() {
                out.push(cut);
                assert(texts(out@) == texts(held).push(cut@));
            }
            piece = String::new();
            assert(split_on(chars@.take(i + 1), sep).drop_last() == before);
        } else {
            piece.push(c);
            assert(split_on(chars@.take(i + 1), sep).drop_last() == before.drop_last());
        }
        i = i + 1;
    }
    let cut = trimmed(piece.as_str());
    let ghost held = out@;
    assert(chars@.take(i as int) == chars@);
    if !cut.as_str().is_empty() {
        out.push(cut);
        assert(texts(out@) == texts(held).push(cut@));
    }
    out
}

/// No piece is empty, and none has white space at an end.
pub proof fn trimmed_pieces_are_tidy(pieces: Seq<Seq<char>>)
    ensures
        forall|i: int|
            #![trigger trimmed_pieces(pieces)[i]]
            0 <= i < trimmed_pieces(pieces).len() ==> trimmed_pieces(pieces)[i].len() > 0 && trim(
                trimmed_pieces(pieces)[i],
            ) == trimmed_pieces(pieces)[i],
    decreases pieces.len(),
{
    if pieces.len() > 0 {
        let before = trimmed_pieces(pieces.drop_last());
        trimmed_pieces_are_tidy(pieces.drop_last());
        trim_leaves_no_white_ends(pieces.last());
        assert forall|i: int|
            #![trigger trimmed_pieces(pieces)[i]]
            0 <= i < trimmed_pieces(pieces).len() implies trimmed_pieces(pieces)[i].len() > 0
            && trim(trimmed_pieces(pieces)[i]) == trimmed_pieces(pieces)[i] by {
            if i < before.len() {
                assert(before[i] == trimmed_pieces(pieces)[i]);
            }
        }
    }
}

// ---------------------------------------------------------------------------
// Letter case
// ---------------------------------------------------------------------------

/// An ASCII capital as its small letter; any other character as it is.
pub open spec fn lower_char(c: char) -> char {
    if 'A' as u32 <= c as u32 <= 'Z' as u32 {
        (c as u32 + 32) as char
    } else {
        c
    }
}

/// `s` with its ASCII capitals made small.
pub open spec fn lower(s: Seq<char>) -> Seq<char> {
    s.map_values(|c: char| lower_char(c))
}

fn lower_of(c: char) -> (res: char)
    ensures
        res == lower_char(c),
{
    let u: u32 = c as u32;
    if 0x41 <= u && u <= 0x5A {
        let small: u8 = u as u8 + 32;
        small as char
    } else {
        c
    }
}

/// The text with its ASCII capitals made small.
pub fn lowered(text: &str) -> (out: String)
    ensures
        out@ == lower(text@),
{
    let chars = chars_of(text);
    let mut out = String::new();
    let mut i: usize = 0;
    while i < chars.len()
        invariant
            chars@ == text@,
            i <= chars@.len(),
            out@ == lower(text@.take(i as int)),
        decreases chars@.len() - i,
    {
        out.push(lower_of(chars[i]));
        i = i + 1;
        assert(text@.take(i as int) == text@.take(i - 1).push(text@[i - 1]));
        assert(lower(text@.take(i as int)) == lower(text@.take(i - 1)).push(
            lower_char(text@[i - 1]),
        ));
    }
    assert(text@.take(i as int) == text@);
    out
}

// ---------------------------------------------------------------------------
// Order
// ---------------------------------------------------------------------------

/// `a` comes before `b` or equals it, character by character.
pub open spec fn text_le(a: Seq<char>, b: Seq<char>) -> bool
    decreases a.len(),
{
    if a.len() == 0 {
        true
    } else if b.len() == 0 {
        false
    } else if a[0] != b[0] {
        (a[0] as u32) < (b[0] as u32)
    } else {
        text_le(a.drop_first(), b.drop_first())
    }
}

/// Whether `a` comes before `b` or equals it.
pub fn not_after(a: &str, b: &str) -> (res: bool)
    ensures
        res == text_le(a@, b@),
{
    let first = chars_of(a);
    let second = chars_of(b);
    let mut i: usize = 0;
    assert(first@.skip(0) == first@ && second@.skip(0) == second@);
    while i < first.len() && i < second.len() && first[i] == second[i]
        invariant
            i <= first@.len(),
            i <= second@.len(),
            text_le(first@, second@) == text_le(first@.skip(i as int), second@.skip(i as int)),
        decreases first@.len() - i,
    {
        assert(first@.skip(i as int).drop_first() == first@.skip(i + 1));
        assert(second@.skip(i as int).drop_first() == second@.skip(i + 1));
        i = i + 1;
    }
    if i >= first.len() {
        true
    } else if i >= second.len() {
        false
    } else {
        let x: u32 = first[i] as u32;
        let y: u32 = second[i] as u32;
        x < y
    }
}

proof fn codes_differ(c: char, d: char)
    ensures
        c != d ==> c as u32 != d as u32,
{
}

/// The order of texts is total, transitive and tells different texts apart.
pub proof fn text_order(a: Seq<char>, b: Seq<char>, c: Seq<char>)
    ensures
        text_le(a, b) || text_le(b, a),
        text_le(a, b) && text_le(b, c) ==> text_le(a, c),
        text_le(a, b) && text_le(b, a) ==> a == b,
    decreases a.len(),
{
    if a.len() > 0 && b.len() > 0 && c.len() > 0 {
        text_order(a.drop_first(), b.drop_first(), c.drop_first());
    } else if a.len() > 0 && b.len() > 0 {
        text_order(a.drop_first(), b.drop_first(), c);
    }
    if a.len() > 0 && b.len() > 0 && a[0] == b[0] && a.drop_first() == b.drop_first() {
        assert(a =~= seq![a[0]] + a.drop_first());
        assert(b =~= seq![b[0]] + b.drop_first());
    }
    if a.len() == 0 && b.len() == 0 {
        assert(a =~= b);
    }
    if a.len() > 0 && b.len() > 0 {
        codes_differ(a[0], b[0]);
    }
}

// ---------------------------------------------------------------------------
// Cutting
// ---------------------------------------------------------------------------

/// `s`, or where it is longer than `max` its first `max - 1` characters and an
/// ellipsis.
pub open spec fn cut_to(s: Seq<char>, max: nat) -> Seq<char> {
    if s.len() <= max {
        s
    } else if max == 0 {
        seq!['\u{2026}']
    } else {
        s.take(max - 1).push('\u{2026}')
    }
}

/// The text, or where it is longer than `max_chars` its beginning and an
/// ellipsis.
pub fn truncate(text: &str, max_chars: usize) -> (out: String)
    ensures
        out@ == cut_to(text@, max_chars as nat),
        max_chars > 0 ==> out@.len() <= max_chars,
{
    let chars = chars_of(text);
    if chars.len() <= max_chars {
        text.to_owned()
    } else {
        let keep: usize = if max_chars == 0 {
            0
        } else {
            max_chars - 1
        };
        let mut out = text_of(&chars, 0, keep);
        out.push('\u{2026}');
        assert(chars@.subrange(0, keep as int) == text@.take(keep as int));
        out
    }
}

/// How many bytes of a text its short form keeps.
pub open spec fn short_bytes(s: Seq<char>) -> int {
    if encode_utf8(s).len() < 8 {
        encode_utf8(s).len() as int
    } else {
        8
    }
}

/// Whether the first eight bytes of a text end between two characters.
pub open spec fn has_short_form(s: Seq<char>) -> bool {
    is_char_boundary(encode_utf8(s), short_bytes(s))
}

/// The text that the first eight bytes of `s` spell.
pub open spec fn short_form(s: Seq<char>) -> Seq<char> {
    decode_utf8(encode_utf8(s).take(short_bytes(s)))
}

/// Whether the first eight bytes of a text end between two characters.
pub fn can_shorten(text: &str) -> (res: bool)
    ensures
        res == has_short_form(text@),
{
    let len: usize = text.as_bytes().len();
    text.is_char_boundary(if len < 8 {
        len
    } else {
        8
    })
}

/// The text that the first eight bytes spell.
pub fn shortened(text: &str) -> (out: String)
    requires
        has_short_form(text@),
    ensures
        out@ == short_form(text@),
{
    let len: usize = text.as_bytes().len();
    let cut: usize = if len < 8 {
        len
    } else {
        8
    };
    let (head, _) = text.split_at(cut);
    proof {
        assert(encode_utf8(text@).take(cut as int) =~= encode_utf8(text@).subrange(0, cut as int));
        vstd::utf8::encode_utf8_decode_utf8(head@);
    }
    head.to_owned()
}

/// A text of ASCII characters has a short form: its first eight characters.
pub proof fn plain_texts_shorten(s: Seq<char>)
    requires
        is_ascii_chars(s),
    ensures
        has_short_form(s),
        short_form(s) == if s.len() < 8 {
            s
        } else {
            s.take(8)
        },
{
    let bytes = encode_utf8(s);
    is_ascii_chars_encode_utf8(s);
    let cut = short_bytes(s);
    let head = s.take(cut);
    assert(is_ascii_chars(head));
    is_ascii_chars_encode_utf8(head);
    assert(encode_utf8(head) =~= bytes.take(cut));
    vstd::utf8::encode_utf8_decode_utf8(head);
    vstd::utf8::encode_utf8_valid_utf8(s);
    if cut == bytes.len() {
        vstd::utf8::is_char_boundary_start_end_of_seq(bytes);
        assert(head =~= s);
    } else {
        vstd::utf8::is_char_boundary_iff_is_leading_byte(bytes, cut);
    }
}

} // verus!
