//! Semantic versions as plain values, read and ordered by the `semver` crate.

use vstd::prelude::*;
use std::cmp::Ordering;
use cargo_metadata::semver;
use cargo_metadata::semver::{BuildMetadata, Prerelease};
use crate::text::{decimal, decimal_string, lemma_lex_antisymmetric, lemma_lex_total, lex_le};

verus! {

/// A semantic version. `pre` and `build` hold the pre-release and build
/// texts without their leading `-` and `+`, and are empty where the version
/// has none.
#[derive(Debug, Clone)]
pub struct Version {
    pub major: u64,
    pub minor: u64,
    pub patch: u64,
    pub pre: String,
    pub build: String,
}

/// A [`Version`] with the texts of its strings.
pub struct VersionView {
    pub major: u64,
    pub minor: u64,
    pub patch: u64,
    pub pre: Seq<char>,
    pub build: Seq<char>,
}

impl View for Version {
    type V = VersionView;

    open spec fn view(&self) -> VersionView {
        VersionView {
            major: self.major,
            minor: self.minor,
            patch: self.patch,
            pre: self.pre@,
            build: self.build@,
        }
    }
}

/// How one version stands to another.
#[derive(Debug, Clone, Copy, PartialEq, Eq, Structural)]
pub enum Precedence {
    Lower,
    Same,
    Higher,
}

/// What `semver` reads from a text: the version, or nothing where the text
/// is no semantic version.
pub uninterp spec fn semver_parsed(text: Seq<char>) -> Option<VersionView>;

/// Whether `semver` accepts a text as the pre-release of a version.
pub uninterp spec fn semver_takes_pre(text: Seq<char>) -> bool;

/// Whether `semver` accepts a text as the build of a version.
pub uninterp spec fn semver_takes_build(text: Seq<char>) -> bool;

/// Whether `semver` accepts the pre-release and the build text of a
/// version, so that it can hold the version as one of its own.
pub open spec fn semver_valid(v: VersionView) -> bool {
    semver_takes_pre(v.pre) && semver_takes_build(v.build)
}

impl Precedence {
    /// How the other stands to the one: higher for lower and lower for
    /// higher.
    pub open spec fn mirror(self) -> Precedence {
        match self {
            Precedence::Lower => Precedence::Higher,
            Precedence::Same => Precedence::Same,
            Precedence::Higher => Precedence::Lower,
        }
    }
}

/// How `semver` orders two versions that it accepts.
pub uninterp spec fn semver_order(a: VersionView, b: VersionView) -> Precedence;

impl VersionView {
    /// The three numbers differ from those of `other`.
    pub open spec fn numbers_differ(self, other: VersionView) -> bool {
        self.major != other.major || self.minor != other.minor || self.patch != other.patch
    }

    /// How the three numbers stand to those of `other`, compared from left
    /// to right.
    pub open spec fn numbers_order(self, other: VersionView) -> Precedence {
        if self.major != other.major {
            if self.major < other.major {
                Precedence::Lower
            } else {
                Precedence::Higher
            }
        } else if self.minor != other.minor {
            if self.minor < other.minor {
                Precedence::Lower
            } else {
                Precedence::Higher
            }
        } else if self.patch != other.patch {
            if self.patch < other.patch {
                Precedence::Lower
            } else {
                Precedence::Higher
            }
        } else {
            Precedence::Same
        }
    }

    /// The version has no pre-release and no build.
    pub open spec fn is_release(self) -> bool {
        self.pre.len() == 0 && self.build.len() == 0
    }

    /// Whether this version is the one of the two with which `semver` is
    /// asked first: the one whose pre-release comes first in the
    /// dictionary, or, with the same pre-release, whose build does.
    pub open spec fn asked_first(self, other: VersionView) -> bool {
        if self.pre != other.pre {
            lex_le(self.pre, other.pre)
        } else {
            lex_le(self.build, other.build)
        }
    }

    /// How this version stands to `other`. Where the three numbers differ,
    /// they decide. Two versions that are the same in every field stand
    /// the same. Else it is as `semver` orders the two. The answer of
    /// `semver` is taken for one of the two orders and turned round for the
    /// other, so that `other` stands to this version as the mirror of how
    /// this version stands to `other`.
    pub open spec fn order(self, other: VersionView) -> Precedence {
        if self.numbers_differ(other) {
            self.numbers_order(other)
        } else if self.pre == other.pre && self.build == other.build {
            Precedence::Same
        } else if self.asked_first(other) {
            semver_order(self, other)
        } else {
            semver_order(other, self).mirror()
        }
    }

    /// The version as text: the three numbers with dots between them, then
    /// `-` and the pre-release where there is one, then `+` and the build
    /// where there is one.
    pub open spec fn text(self) -> Seq<char> {
        decimal(self.major as nat) + seq!['.'] + decimal(self.minor as nat) + seq!['.'] + decimal(self.patch as nat)
            + (if self.pre.len() > 0 { seq!['-'] + self.pre } else { Seq::<char>::empty() })
            + (if self.build.len() > 0 { seq!['+'] + self.build } else { Seq::<char>::empty() })
    }
}

/// Calls `semver::Version::parse` and copies the fields of what it returns.
/// The contract names the result. Of it the contract claims what the
/// crate's source shows: the pre-release and the build of a version that
/// was read are texts that `semver` accepts as such.
#[verifier::external_body]
fn semver_parse(text: &str) -> (r: Option<Version>)
    ensures
        r is Some == semver_parsed(text@) is Some,
        r is Some ==> semver_parsed(text@) == Some(r->0@),
        r is Some ==> semver_valid(r->0@),
{
    match semver::Version::parse(text) {
        Ok(v) => Some(Version {
            major: v.major,
            minor: v.minor,
            patch: v.patch,
            pre: v.pre.as_str().to_string(),
            build: v.build.as_str().to_string(),
        }),
        Err(_) => None,
    }
}

/// Calls `Prerelease::new` and says whether `semver` took the text. The
/// result is named; the empty text is taken, as the crate's source shows.
#[verifier::external_body]
fn semver_accepts_pre(text: &str) -> (r: bool)
    ensures
        r == semver_takes_pre(text@),
        text@.len() == 0 ==> r,
{
    Prerelease::new(text).is_ok()
}

/// Calls `BuildMetadata::new` and says whether `semver` took the text. The
/// result is named; the empty text is taken, as the crate's source shows.
#[verifier::external_body]
fn semver_accepts_build(text: &str) -> (r: bool)
    ensures
        r == semver_takes_build(text@),
        text@.len() == 0 ==> r,
{
    BuildMetadata::new(text).is_ok()
}

/// Calls the comparison of `semver::Version` on the two versions, each built
/// from its fields. The result is named. Of it the contract claims what the
/// crate documents and what its source shows of a total order: where the
/// numbers differ, they decide, compared from left to right; and asked the
/// other way round, the answer is the mirror of this one.
#[verifier::external_body]
fn semver_compare(a: &Version, b: &Version) -> (r: Precedence)
    requires
        semver_valid(a@),
        semver_valid(b@),
    ensures
        r == semver_order(a@, b@),
        r.mirror() == semver_order(b@, a@),
        a@.numbers_differ(b@) ==> r == a@.numbers_order(b@),
{
    let (pre_a, pre_b) = (Prerelease::new(&a.pre).unwrap(), Prerelease::new(&b.pre).unwrap());
    let (build_a, build_b) = (BuildMetadata::new(&a.build).unwrap(), BuildMetadata::new(&b.build).unwrap());
    let x = semver::Version { major: a.major, minor: a.minor, patch: a.patch, pre: pre_a, build: build_a };
    let y = semver::Version { major: b.major, minor: b.minor, patch: b.patch, pre: pre_b, build: build_b };
    match x.cmp(&y) {
        Ordering::Less => Precedence::Lower,
        Ordering::Equal => Precedence::Same,
        Ordering::Greater => Precedence::Higher,
    }
}

/// The order of two versions turns round with them.
pub proof fn lemma_order_mirror(a: VersionView, b: VersionView)
    ensures
        b.order(a) == a.order(b).mirror(),
{
    if a.numbers_differ(b) {
    } else if a.pre == b.pre && a.build == b.build {
    } else if a.pre != b.pre {
        lemma_lex_total(a.pre, b.pre);
        if lex_le(a.pre, b.pre) && lex_le(b.pre, a.pre) {
            lemma_lex_antisymmetric(a.pre, b.pre);
        }
    } else {
        lemma_lex_total(a.build, b.build);
        if lex_le(a.build, b.build) && lex_le(b.build, a.build) {
            lemma_lex_antisymmetric(a.build, b.build);
        }
    }
}

impl Version {
    /// A version of three numbers, with no pre-release and no build.
    pub fn new(major: u64, minor: u64, patch: u64) -> (r: Version)
        ensures
            r@ == (VersionView { major, minor, patch, pre: Seq::<char>::empty(), build: Seq::<char>::empty() }),
    {
        Version { major, minor, patch, pre: String::new(), build: String::new() }
    }

    /// Reads a version from its text. A version that was read can be
    /// ordered.
    pub fn parse(text: &str) -> (r: Option<Version>)
        ensures
            r is Some == semver_parsed(text@) is Some,
            r is Some ==> semver_parsed(text@) == Some(r->0@),
            r is Some ==> semver_valid(r->0@),
    {
        semver_parse(text)
    }

    /// Whether the pre-release and build texts are such that the version
    /// can be ordered. A version without the two always can.
    pub fn is_valid(&self) -> (r: bool)
        ensures
            r == semver_valid(self@),
            self@.is_release() ==> r,
    {
        semver_accepts_pre(self.pre.as_str()) && semver_accepts_build(self.build.as_str())
    }

    /// How this version stands to `other`, where both can be ordered.
    pub fn compare(&self, other: &Version) -> (r: Precedence)
        requires
            semver_valid(self@),
            semver_valid(other@),
        ensures
            r == self@.order(other@),
    {
        let r = semver_compare(self, other);
        proof {
            if !self@.numbers_differ(other@) && self@.pre == other@.pre && self@.build == other@.build {
                assert(self@ == other@);
            }
        }
        r
    }

    /// How this version stands to `other`; nothing where one of them cannot
    /// be ordered.
    pub fn precedence(&self, other: &Version) -> (r: Option<Precedence>)
        ensures
            r is Some == (semver_valid(self@) && semver_valid(other@)),
            r is Some ==> r == Some(self@.order(other@)),
            self@.is_release() && other@.is_release() ==> r is Some,
    {
        if self.is_valid() && other.is_valid() {
            Some(self.compare(other))
        } else {
            None
        }
    }

    /// Whether the two versions are the same in every field.
    pub fn same(&self, other: &Version) -> (r: bool)
        ensures
            r == (self@ == other@),
    {
        self.major == other.major && self.minor == other.minor && self.patch == other.patch
            && self.pre == other.pre && self.build == other.build
    }

    /// A copy of the version.
    pub fn duplicate(&self) -> (r: Version)
        ensures
            r@ == self@,
    {
        Version {
            major: self.major,
            minor: self.minor,
            patch: self.patch,
            pre: self.pre.clone(),
            build: self.build.clone(),
        }
    }

    /// The version as text.
    pub fn to_text(&self) -> (r: String)
        ensures
            r@ == self@.text(),
    {
        proof {
            reveal_strlit(".");
            reveal_strlit("-");
            reveal_strlit("+");
        }
        let mut out = decimal_string(self.major);
        out.append(".");
        out.append(decimal_string(self.minor).as_str());
        out.append(".");
        out.append(decimal_string(self.patch).as_str());
        assert("."@ =~= seq!['.']);
        assert("-"@ =~= seq!['-']);
        assert("+"@ =~= seq!['+']);
        let ghost numbers = out@;
        if self.pre.as_str().unicode_len() > 0 {
            out.append("-");
            out.append(self.pre.as_str());
        }
        let ghost with_pre = out@;
        if self.build.as_str().unicode_len() > 0 {
            out.append("+");
            out.append(self.build.as_str());
        }
        proof {
            assert(out@ =~= self@.text());
        }
        out
    }
}

} // verus!
