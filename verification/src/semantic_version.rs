//! Semantic versions: their precedence, their maximum, and the standard bumps.

use crate::prerelease::{
    compare_prerelease, counts_up, extends, is_prerelease, is_prerelease_text, is_tag,
    lemma_next_prerelease_follows, lemma_next_prerelease_valid, lemma_prerelease_is_ascii,
    next_prerelease,
    next_prerelease_text, prerelease_order, Precedence, MAX_TEXT_LENGTH,
};
use vstd::prelude::*;
use vstd::std_specs::cmp::PartialEqSpecImpl;
use vstd::string::*;

verus! {

/// A semantic version: three release numbers and a pre-release tag, which is
/// empty for a release.
#[derive(Debug)]
pub struct SemVer {
    major: u64,
    minor: u64,
    patch: u64,
    pre: String,
}

/// What a semantic version stands for.
pub struct VersionView {
    pub major: nat,
    pub minor: nat,
    pub patch: nat,
    pub pre: Seq<char>,
}

/// The kinds of bump that are computed from the current version.
#[derive(Clone, Copy, PartialEq, Eq, Structural, Debug)]
pub enum BumpKind {
    Patch,
    Minor,
    Major,
    Prerelease,
}

/// The order of two numbers.
pub open spec fn number_order(a: nat, b: nat) -> Precedence {
    if a < b {
        Precedence::Lower
    } else if a == b {
        Precedence::Same
    } else {
        Precedence::Higher
    }
}

/// Semantic-version precedence: the release numbers from left to right, then
/// the pre-release tags.
pub open spec fn precedence(a: VersionView, b: VersionView) -> Precedence {
    if a.major != b.major {
        number_order(a.major, b.major)
    } else if a.minor != b.minor {
        number_order(a.minor, b.minor)
    } else if a.patch != b.patch {
        number_order(a.patch, b.patch)
    } else if a.pre == b.pre {
        Precedence::Same
    } else {
        prerelease_order(a.pre, b.pre)
    }
}

/// `a` and `b` have the same release numbers.
pub open spec fn same_release(a: VersionView, b: VersionView) -> bool {
    a.major == b.major && a.minor == b.minor && a.patch == b.patch
}

/// `b` is of the release of `a` and plainly after it: `a` has a tag, and `b`
/// has that tag with more identifiers after it, or with its last number counted
/// up.
pub open spec fn follows(a: VersionView, b: VersionView) -> bool {
    same_release(a, b) && (extends(a.pre, b.pre) || counts_up(a.pre, b.pre))
}

/// `b` is a pre-release of the release `a`.
pub open spec fn leads_to(b: VersionView, a: VersionView) -> bool {
    same_release(a, b) && a.pre.len() == 0 && b.pre.len() > 0
}

/// `a` is strictly below `b`.
pub open spec fn precedes(a: VersionView, b: VersionView) -> bool {
    precedence(a, b) is Lower
}

/// The version that a bump of the given kind makes of `v`.
pub open spec fn bumped(v: VersionView, kind: BumpKind) -> VersionView {
    match kind {
        BumpKind::Patch => VersionView {
            major: v.major,
            minor: v.minor,
            patch: v.patch + 1,
            pre: Seq::empty(),
        },
        BumpKind::Minor => VersionView {
            major: v.major,
            minor: v.minor + 1,
            patch: 0,
            pre: Seq::empty(),
        },
        BumpKind::Major => VersionView {
            major: v.major + 1,
            minor: 0,
            patch: 0,
            pre: Seq::empty(),
        },
        BumpKind::Prerelease => VersionView {
            major: v.major,
            minor: v.minor,
            patch: v.patch,
            pre: next_prerelease(v.pre),
        },
    }
}

/// The bump of the given kind can be stored: the number that it counts up has
/// a successor in 64 bits, or the tag has room for a counter.
pub open spec fn bump_fits(v: VersionView, kind: BumpKind) -> bool {
    match kind {
        BumpKind::Patch => v.patch < u64::MAX,
        BumpKind::Minor => v.minor < u64::MAX,
        BumpKind::Major => v.major < u64::MAX,
        BumpKind::Prerelease => v.pre.len() + 2 <= MAX_TEXT_LENGTH,
    }
}

/// A text that is short enough, in bytes, to be read as a version.
pub open spec fn is_readable(text: Seq<char>) -> bool {
    vstd::utf8::encode_utf8(text).len() <= MAX_TEXT_LENGTH
}

/// What the `semver` crate reads from a text: the version it stands for, or
/// nothing where the text is not a version.
pub uninterp spec fn parsed_version(text: Seq<char>) -> Option<VersionView>;

/// Reads a version from its text.
///
/// Calls `semver::Version::parse`, and keeps the release numbers and the
/// pre-release tag of what it returns; build metadata is dropped. The contract
/// names the result, and claims that the tag of a parsed version has the syntax
/// of a pre-release tag and is no longer than the text, and that the crate reads
/// a text of up to `MAX_TEXT_LENGTH` bytes without a panic.
#[verifier::external_body]
fn parse_version(text: &str) -> (v: Option<SemVer>)
    requires
        is_readable(text@),
    ensures
        v is Some <==> parsed_version(text@) is Some,
        v is Some ==> v->0@ == parsed_version(text@)->0,
        v is Some ==> is_prerelease(v->0@.pre) && v->0@.pre.len() <= vstd::utf8::encode_utf8(
            text@,
        ).len(),
{
    match semver::Version::parse(text) {
        Ok(v) => Some(
            SemVer { major: v.major, minor: v.minor, patch: v.patch, pre: v.pre.as_str().to_string() },
        ),
        Err(_) => None,
    }
}

impl View for SemVer {
    type V = VersionView;

    closed spec fn view(&self) -> VersionView {
        VersionView {
            major: self.major as nat,
            minor: self.minor as nat,
            patch: self.patch as nat,
            pre: self.pre@,
        }
    }
}

impl SemVer {
    #[verifier::type_invariant]
    spec fn tag_is_valid(self) -> bool {
        is_tag(self.pre@)
    }

    /// The release `major.minor.patch`.
    pub fn new(major: u64, minor: u64, patch: u64) -> (v: SemVer)
        ensures
            v@ == (VersionView {
                major: major as nat,
                minor: minor as nat,
                patch: patch as nat,
                pre: Seq::empty(),
            }),
    {
        SemVer { major, minor, patch, pre: String::new() }
    }

    /// The version `major.minor.patch-pre`, where `pre` is a pre-release tag of
    /// no more than `MAX_TEXT_LENGTH` characters.
    pub fn with_prerelease(major: u64, minor: u64, patch: u64, pre: &str) -> (v: Option<SemVer>)
        ensures
            v is Some <==> is_tag(pre@),
            v is Some ==> v->0@ == (VersionView {
                major: major as nat,
                minor: minor as nat,
                patch: patch as nat,
                pre: pre@,
            }),
    {
        if is_prerelease_text(pre) {
            proof {
                lemma_prerelease_is_ascii(pre@);
                vstd::utf8::is_ascii_chars_encode_utf8(pre@);
            }
            if pre.as_bytes().len() <= MAX_TEXT_LENGTH {
                return Some(SemVer { major, minor, patch, pre: String::from_str(pre) });
            }
        }
        None
    }

    /// The version that `text` writes down, if it is one. A text of more than
    /// `MAX_TEXT_LENGTH` bytes is not read.
    pub fn parse(text: &str) -> (v: Option<SemVer>)
        ensures
            v is Some <==> is_readable(text@) && parsed_version(text@) is Some,
            v is Some ==> v->0@ == parsed_version(text@)->0,
    {
        if text.as_bytes().len() <= MAX_TEXT_LENGTH {
            parse_version(text)
        } else {
            None
        }
    }

    /// The major number.
    pub fn major(&self) -> (n: u64)
        ensures
            n == self@.major,
    {
        self.major
    }

    /// The minor number.
    pub fn minor(&self) -> (n: u64)
        ensures
            n == self@.minor,
    {
        self.minor
    }

    /// The patch number.
    pub fn patch(&self) -> (n: u64)
        ensures
            n == self@.patch,
    {
        self.patch
    }

    /// The pre-release tag, empty for a release.
    pub fn prerelease(&self) -> (tag: &str)
        ensures
            tag@ == self@.pre,
            is_tag(tag@),
    {
        proof {
            use_type_invariant(self);
        }
        self.pre.as_str()
    }

    /// A copy of this version.
    pub fn duplicate(&self) -> (copy: SemVer)
        ensures
            copy@ == self@,
    {
        proof {
            use_type_invariant(self);
        }
        SemVer { major: self.major, minor: self.minor, patch: self.patch, pre: self.pre.clone() }
    }

    /// Compares two versions by semantic-version precedence.
    ///
    /// Besides the result, the contract says what follows for this pair from the
    /// order of the tags being total: the comparison from the other side, and that
    /// a version not above `self` is below whatever `self` is below. It also says
    /// how a release stands to its pre-releases, and a tag to the tags that
    /// plainly follow it.
    pub fn compare(&self, other: &SemVer) -> (r: Precedence)
        ensures
            r == precedence(self@, other@),
            r.reversed() == precedence(other@, self@),
            is_prerelease(self@.pre),
            is_prerelease(other@.pre),
            r is Lower ==> forall|c: VersionView|
                is_prerelease(c.pre) && !(#[trigger] precedence(c, self@) is Higher) ==> precedes(
                    c,
                    other@,
                ),
            leads_to(other@, self@) ==> r is Higher,
            follows(self@, other@) ==> r is Lower,
    {
        proof {
            use_type_invariant(self);
            use_type_invariant(other);
        }
        if self.major != other.major {
            if self.major < other.major {
                Precedence::Lower
            } else {
                Precedence::Higher
            }
        } else if self.minor != other.minor {
            if self.minor < other.minor {
                Precedence::Lower
            } else {
                Precedence::Higher
            }
        } else if self.patch != other.patch {
            if self.patch < other.patch {
                Precedence::Lower
            } else {
                Precedence::Higher
            }
        } else {
            compare_prerelease(self.pre.as_str(), other.pre.as_str())
        }
    }

    /// Whether the bump of this kind can be stored: the number that it counts up
    /// can still grow, or the tag has room for a counter.
    pub fn can_bump(&self, kind: BumpKind) -> (ok: bool)
        ensures
            ok == bump_fits(self@, kind),
    {
        match kind {
            BumpKind::Patch => self.patch < u64::MAX,
            BumpKind::Minor => self.minor < u64::MAX,
            BumpKind::Major => self.major < u64::MAX,
            BumpKind::Prerelease => {
                proof {
                    use_type_invariant(self);
                    lemma_prerelease_is_ascii(self.pre@);
                    vstd::utf8::is_ascii_chars_encode_utf8(self.pre@);
                }
                self.pre.as_str().as_bytes().len() <= MAX_TEXT_LENGTH - 2
            },
        }
    }

    /// The version that a bump of the given kind makes of this one.
    ///
    /// A patch bump counts the patch number up, a minor bump the minor number
    /// and a major bump the major number; each sets the numbers to its right to
    /// zero and drops the pre-release tag. A pre-release bump keeps the numbers and
    /// moves to the next tag, which plainly follows the tag that there was; of a
    /// release it makes the first pre-release. The bumped number, or the longer
    /// tag, has to fit.
    pub fn bump(&self, kind: BumpKind) -> (next: SemVer)
        requires
            bump_fits(self@, kind),
        ensures
            next@ == bumped(self@, kind),
            kind == BumpKind::Prerelease ==> if self@.pre.len() > 0 {
                follows(self@, next@)
            } else {
                leads_to(next@, self@)
            },
    {
        proof {
            use_type_invariant(self);
            lemma_next_prerelease_valid(self.pre@);
            if self.pre@.len() > 0 {
                lemma_next_prerelease_follows(self.pre@);
            }
        }
        match kind {
            BumpKind::Patch => SemVer::new(self.major, self.minor, self.patch + 1),
            BumpKind::Minor => SemVer::new(self.major, self.minor + 1, 0),
            BumpKind::Major => SemVer::new(self.major + 1, 0, 0),
            BumpKind::Prerelease => SemVer {
                major: self.major,
                minor: self.minor,
                patch: self.patch,
                pre: next_prerelease_text(self.pre.as_str()),
            },
        }
    }
}

impl PartialEq for SemVer {
    fn eq(&self, other: &SemVer) -> (same: bool) {
        self.major == other.major && self.minor == other.minor && self.patch == other.patch
            && self.pre == other.pre
    }
}

impl PartialEqSpecImpl for SemVer {
    open spec fn obeys_eq_spec() -> bool {
        true
    }

    open spec fn eq_spec(&self, other: &SemVer) -> bool {
        self@ == other@
    }
}

/// What a list of versions stands for.
pub open spec fn version_views(versions: Seq<SemVer>) -> Seq<VersionView> {
    versions.map_values(|v: SemVer| v@)
}

/// The index of the first of the highest versions of `versions`: a later
/// version takes the place of an earlier one only where it is strictly above it.
pub open spec fn highest_index(versions: Seq<VersionView>) -> int
    decreases versions.len(),
{
    if versions.len() <= 1 {
        0
    } else {
        let before = highest_index(versions.drop_last());
        if precedes(versions[before], versions.last()) {
            versions.len() - 1
        } else {
            before
        }
    }
}

/// The first of the highest versions among `versions`, by its index: every
/// version before it is strictly below it, and none after it is above it.
pub fn max_version(versions: &Vec<SemVer>) -> (best: usize)
    requires
        versions.len() > 0,
    ensures
        best == highest_index(version_views(versions@)),
        best < versions.len(),
        forall|i: int| 0 <= i < best ==> precedes(#[trigger] versions[i]@, versions[best as int]@),
        forall|i: int|
            best <= i < versions.len() ==> !(precedence(
                #[trigger] versions[i]@,
                versions[best as int]@,
            ) is Higher),
{
    let ghost views = version_views(versions@);
    let mut best: usize = 0;
    let first = &versions[0];
    proof {
        use_type_invariant(first);
    }
    let mut i: usize = 1;
    assert(highest_index(views.take(1)) == 0);
    while i < versions.len()
        invariant
            best < i <= versions.len(),
            views == version_views(versions@),
            best == highest_index(views.take(i as int)),
            forall|j: int| 0 <= j < i ==> is_prerelease(#[trigger] versions[j]@.pre),
            forall|j: int| 0 <= j < best ==> precedes(#[trigger] versions[j]@, versions[best as int]@),
            forall|j: int|
                best <= j < i ==> !(precedence(#[trigger] versions[j]@, versions[best as int]@)
                    is Higher),
        decreases versions.len() - i,
    {
        let r = versions[best].compare(&versions[i]);
        proof {
            let longer = views.take(i + 1);
            assert(longer.drop_last() =~= views.take(i as int));
            assert(longer.last() == versions[i as int]@);
            assert(longer[best as int] == versions[best as int]@);
        }
        if r == Precedence::Lower {
            best = i;
        }
        i += 1;
    }
    assert(views.take(i as int) =~= views);
    best
}

/// A patch, minor or major bump gives a version above the current one.
pub proof fn lemma_release_bump_is_higher(v: VersionView, kind: BumpKind)
    requires
        kind != BumpKind::Prerelease,
    ensures
        precedes(v, bumped(v, kind)),
{
}

} // verus!
