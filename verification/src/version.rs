//! Releases and their order, by `semver`.

use vstd::prelude::*;

use crate::decimal::{decimal, digits};
use crate::text::{chars_of, joined, text_of, trim, trimmed};

verus! {

/// What a version text says.
#[verifier::ext_equal]
pub struct ReleaseFacts {
    pub major: u64,
    pub minor: u64,
    pub patch: u64,
    /// Empty for a release proper.
    pub pre: Seq<char>,
    pub build: Seq<char>,
}

/// The numbers and labels that `semver` reads in a version text; nothing where
/// the text is no version.
pub uninterp spec fn version_read(text: Seq<char>) -> Option<ReleaseFacts>;

/// Whether `semver` orders the version read in one text after that in another.
pub uninterp spec fn version_after(one: Seq<char>, other: Seq<char>) -> bool;

/// The numbers and labels of a version, as plain values.
pub struct VersionParts {
    pub major: u64,
    pub minor: u64,
    pub patch: u64,
    pub pre: String,
    pub build: String,
}

impl View for VersionParts {
    type V = ReleaseFacts;

    open spec fn view(&self) -> ReleaseFacts {
        ReleaseFacts {
            major: self.major,
            minor: self.minor,
            patch: self.patch,
            pre: self.pre@,
            build: self.build@,
        }
    }
}

/// `semver::Version::parse`: the numbers and labels of a version, and nothing
/// for a text that is none. They follow from the text alone, and written out
/// again they are the text: leading zeros and anything around the version are
/// refused.
#[verifier::external_body]
fn read_version(text: &str) -> (res: Option<VersionParts>)
    ensures
        match res {
            Some(parts) => version_read(text@) == Some(parts@) && version_text(parts@) == text@,
            None => version_read(text@) is None,
        },
{
    semver::Version::parse(text).ok().map(
        |v|
            VersionParts {
                major: v.major,
                minor: v.minor,
                patch: v.patch,
                pre: v.pre.as_str().to_string(),
                build: v.build.as_str().to_string(),
            },
    )
}

/// Whether the numbers of `a` come after those of `b`.
pub open spec fn numbers_after(a: ReleaseFacts, b: ReleaseFacts) -> bool {
    ||| a.major > b.major
    ||| a.major == b.major && a.minor > b.minor
    ||| a.major == b.major && a.minor == b.minor && a.patch > b.patch
}

/// What the numbers and labels of two versions decide of their order.
pub open spec fn placed(a: ReleaseFacts, b: ReleaseFacts, after: bool) -> bool {
    let tied = !numbers_after(a, b) && !numbers_after(b, a);
    &&& numbers_after(a, b) ==> after
    &&& numbers_after(b, a) ==> !after
    &&& tied && a.pre.len() == 0 && b.pre.len() > 0 ==> after
    &&& tied && a.pre.len() > 0 && b.pre.len() == 0 ==> !after
    &&& a == b ==> !after
}

/// The order of `semver::Version`: by the three numbers, and with the same
/// numbers a release proper after its candidates. Of two candidates, and of
/// two builds, only that the texts decide is said.
#[verifier::external_body]
fn compare_versions(one: &str, other: &str) -> (res: Option<bool>)
    ensures
        match res {
            Some(after) => version_read(one@) is Some && version_read(other@) is Some && after
                == version_after(one@, other@) && placed(
                version_read(one@).unwrap(),
                version_read(other@).unwrap(),
                after,
            ),
            None => version_read(one@) is None || version_read(other@) is None,
        },
{
    match (semver::Version::parse(one), semver::Version::parse(other)) {
        (Ok(a), Ok(b)) => Some(a > b),
        _ => None,
    }
}

/// A version as it is written.
pub open spec fn version_text(v: ReleaseFacts) -> Seq<char> {
    let numbers = digits(v.major as nat) + "."@ + digits(v.minor as nat) + "."@ + digits(
        v.patch as nat,
    );
    let labelled = if v.pre.len() > 0 {
        numbers + "-"@ + v.pre
    } else {
        numbers
    };
    if v.build.len() > 0 {
        labelled + "+"@ + v.build
    } else {
        labelled
    }
}

/// A release: a text that is a version, and what it says.
#[derive(Debug)]
pub struct Release {
    source: String,
    major: u64,
    minor: u64,
    patch: u64,
    pre: String,
    build: String,
}

impl View for Release {
    type V = ReleaseFacts;

    closed spec fn view(&self) -> ReleaseFacts {
        ReleaseFacts {
            major: self.major,
            minor: self.minor,
            patch: self.patch,
            pre: self.pre@,
            build: self.build@,
        }
    }
}

impl Release {
    /// The text that the release was read from.
    pub closed spec fn written(self) -> Seq<char> {
        self.source@
    }

    #[verifier::type_invariant]
    spec fn sound(self) -> bool {
        version_read(self.source@) == Some(self@) && version_text(self@) == self.source@
    }

    /// Read a version; nothing for a text that is none.
    pub fn parse(text: &str) -> (res: Option<Release>)
        ensures
            match res {
                Some(release) => version_read(text@) == Some(release@) && release.written() == text@
                    && version_text(release@) == text@,
                None => version_read(text@) is None,
            },
    {
        match read_version(text) {
            Some(parts) => Some(
                Release {
                    source: text.to_owned(),
                    major: parts.major,
                    minor: parts.minor,
                    patch: parts.patch,
                    pre: parts.pre,
                    build: parts.build,
                },
            ),
            None => None,
        }
    }

    /// Whether this release comes after another.
    pub fn is_after(&self, other: &Release) -> (res: bool)
        ensures
            res == version_after(self.written(), other.written()),
            placed(self@, other@, res),
    {
        proof {
            use_type_invariant(self);
            use_type_invariant(other);
        }
        compare_versions(self.source.as_str(), other.source.as_str()).unwrap()
    }

    /// The release as it is written.
    pub fn display(&self) -> (out: String)
        ensures
            out@ == version_text(self@),
            out@ == self.written(),
    {
        proof {
            use_type_invariant(self);
        }
        let mut out = joined(decimal(self.major).as_str(), ".");
        out.append(decimal(self.minor).as_str());
        out.append(".");
        out.append(decimal(self.patch).as_str());
        if !self.pre.as_str().is_empty() {
            out.append("-");
            out.append(self.pre.as_str());
        }
        if !self.build.as_str().is_empty() {
            out.append("+");
            out.append(self.build.as_str());
        }
        out
    }
}

/// A tag without the letters `v` in front.
pub open spec fn without_v(tag: Seq<char>) -> Seq<char>
    decreases tag.len(),
{
    if tag.len() > 0 && (tag[0] == 'v' || tag[0] == 'V') {
        without_v(tag.drop_first())
    } else {
        tag
    }
}

fn dropped_v(tag: &str) -> (out: String)
    ensures
        out@ == without_v(tag@),
{
    let chars = chars_of(tag);
    let mut i: usize = 0;
    assert(chars@.skip(0) =~= chars@);
    while i < chars.len() && (chars[i] == 'v' || chars[i] == 'V')
        invariant
            i <= chars@.len(),
            without_v(chars@) == without_v(chars@.skip(i as int)),
        decreases chars@.len() - i,
    {
        assert(chars@.skip(i as int).drop_first() =~= chars@.skip(i + 1));
        i = i + 1;
    }
    assert(chars@.skip(i as int) =~= chars@.subrange(i as int, chars@.len() as int));
    text_of(&chars, i, chars.len())
}

/// The version text of a release tag.
pub open spec fn tag_version(tag: Seq<char>) -> Seq<char> {
    without_v(trim(tag))
}

pub fn parse_release_version(tag: &str) -> (res: Result<Release, String>)
    ensures
        match res {
            Ok(release) => version_read(tag_version(tag@)) == Some(release@) && release.written()
                == tag_version(tag@) && version_text(release@) == tag_version(tag@),
            Err(message) => version_read(tag_version(tag@)) is None && message@
                == "无法识别 Release 版本号："@ + tag@,
        },
{
    match Release::parse(dropped_v(trimmed(tag).as_str()).as_str()) {
        Some(release) => Ok(release),
        None => Err(joined("无法识别 Release 版本号：", tag)),
    }
}

} // verus!
