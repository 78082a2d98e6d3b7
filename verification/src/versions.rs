//! Semantic versions and version requirements, held as the texts that
//! spell them.
//!
//! What a version and a requirement mean is decided by the `semver` crate:
//! which texts spell one, which versions a requirement admits, and which of
//! two versions is the newer. Each of its answers has a name here, and the
//! contracts of this module speak of those names.

use vstd::prelude::*;
use vstd::string::*;
use crate::errors::{ValidationError, ValidationErrorModel};
use crate::newtypes::{spec_trim, trim};

verus! {

/// The message with which a text is refused as a version; none for a text
/// that is one.
pub uninterp spec fn spec_version_error(version: Seq<char>) -> Option<Seq<char>>;

/// The message with which a text is refused as a version requirement; none
/// for a text that is one.
pub uninterp spec fn spec_requirement_error(constraint: Seq<char>) -> Option<Seq<char>>;

/// Whether the version that `version` spells meets the requirement that
/// `constraint` spells; false where either text spells none.
pub uninterp spec fn spec_satisfies(constraint: Seq<char>, version: Seq<char>) -> bool;

/// Whether the version that `a` spells comes after the version that `b`
/// spells in the order of versions; false where either text spells none.
pub uninterp spec fn spec_newer(a: Seq<char>, b: Seq<char>) -> bool;

/// `semver::Version::parse`: for a text that it refuses, the error as its
/// `Display` writes it; none for a text that it accepts.
#[verifier::external_body]
pub(crate) fn version_error(version: &str) -> (r: Option<String>)
    ensures
        r.deep_view() == spec_version_error(version@),
{
    semver::Version::parse(version).err().map(|e| e.to_string())
}

/// `semver::VersionReq::parse`: for a text that it refuses, the error as
/// its `Display` writes it; none for a text that it accepts. The parser
/// reads the text once, front to back, and gives up after 32 comparators.
#[verifier::external_body]
pub(crate) fn requirement_error(constraint: &str) -> (r: Option<String>)
    ensures
        r.deep_view() == spec_requirement_error(constraint@),
{
    semver::VersionReq::parse(constraint).err().map(|e| e.to_string())
}

/// `semver::VersionReq::matches`, asked of the requirement and the version
/// that `semver::VersionReq::parse` and `semver::Version::parse` make of the
/// two texts; false where either refuses its text.
#[verifier::external_body]
pub(crate) fn satisfies(constraint: &str, version: &str) -> (r: bool)
    ensures
        r == spec_satisfies(constraint@, version@),
{
    match (semver::VersionReq::parse(constraint), semver::Version::parse(version)) {
        (Ok(requirement), Ok(version)) => requirement.matches(&version),
        _ => false,
    }
}

/// The order of `semver::Version`, asked of the versions that
/// `semver::Version::parse` makes of the two texts: whether the first is
/// greater than the second; false where a text is refused.
#[verifier::external_body]
pub(crate) fn newer(a: &str, b: &str) -> (r: bool)
    ensures
        r == spec_newer(a@, b@),
{
    match (semver::Version::parse(a), semver::Version::parse(b)) {
        (Ok(a), Ok(b)) => a > b,
        _ => false,
    }
}

/// `s` without every `c` at its start.
pub open spec fn spec_strip_leading(s: Seq<char>, c: char) -> Seq<char>
    decreases s.len(),
{
    if s.len() > 0 && s[0] == c {
        spec_strip_leading(s.drop_first(), c)
    } else {
        s
    }
}

/// `s` without every `c` at its start.
pub fn strip_leading(s: &str, c: char) -> (r: &str)
    ensures
        r@ == spec_strip_leading(s@, c),
{
    let n = s.unicode_len();
    let mut start: usize = 0;
    assert(s@.subrange(0, n as int) =~= s@);
    while start < n && s.get_char(start) == c
        invariant
            n == s@.len(),
            start <= n,
            spec_strip_leading(s@, c) == spec_strip_leading(s@.subrange(start as int, n as int), c),
        decreases n - start,
    {
        assert(s@.subrange(start as int, n as int).drop_first() =~= s@.subrange(
            start + 1,
            n as int,
        ));
        start = start + 1;
    }
    s.substring_char(start, n)
}

/// A semantic version: a text that spells one.
#[derive(Debug, Clone, PartialEq, Eq)]
pub struct Version(String);

impl View for Version {
    type V = Seq<char>;

    closed spec fn view(&self) -> Seq<char> {
        self.0@
    }
}

impl Version {
    /// The text that is read as a version: the string trimmed, without the
    /// `v`s in front.
    pub open spec fn spec_text(s: Seq<char>) -> Seq<char> {
        spec_strip_leading(spec_trim(s), 'v')
    }

    /// Takes a text of which it is known with which message it is refused
    /// as a version, if it is: it is kept where it is not refused, and is an
    /// invalid version with that message where it is.
    pub fn checked(text: &str, error: Option<String>) -> (r: Result<Version, ValidationError>)
        ensures
            match r {
                Ok(v) => error is None && v@ == text@,
                Err(e) => error matches Some(m) && e@ == ValidationErrorModel::InvalidVersion(m@),
            },
    {
        match error {
            None => Ok(Version(text.to_owned())),
            Some(message) => Err(ValidationError::InvalidVersion(message)),
        }
    }

    /// Takes a version from a string: the string is trimmed and the `v`s in
    /// front are dropped, and what is left must spell a version.
    pub fn parse(s: &str) -> (r: Result<Version, ValidationError>)
        ensures
            match r {
                Ok(v) => spec_version_error(Version::spec_text(s@)) is None && v@
                    == Version::spec_text(s@),
                Err(e) => spec_version_error(Version::spec_text(s@)) matches Some(m) && e@
                    == ValidationErrorModel::InvalidVersion(m),
            },
    {
        let text = strip_leading(trim(s), 'v');
        Version::checked(text, version_error(text))
    }

    pub fn as_str(&self) -> (r: &str)
        ensures
            r@ == self@,
    {
        self.0.as_str()
    }

    /// Whether the requirement admits this version.
    pub fn matches(&self, req: &VersionReq) -> (r: bool)
        ensures
            r == spec_satisfies(req@, self@),
    {
        satisfies(req.as_str(), self.as_str())
    }

    /// Whether this version comes after `other` in the order of versions.
    pub fn newer_than(&self, other: &Version) -> (r: bool)
        ensures
            r == spec_newer(self@, other@),
    {
        newer(self.as_str(), other.as_str())
    }
}

/// A version requirement, such as `^1.0.0`, `>=2.0` or `~1.2`: a text that
/// spells one.
#[derive(Debug, Clone)]
pub struct VersionReq(String);

impl View for VersionReq {
    type V = Seq<char>;

    closed spec fn view(&self) -> Seq<char> {
        self.0@
    }
}

impl VersionReq {
    /// Takes a text of which it is known with which message it is refused
    /// as a requirement, if it is: it is kept where it is not refused, and is
    /// an invalid version with that message where it is.
    pub fn checked(text: &str, error: Option<String>) -> (r: Result<VersionReq, ValidationError>)
        ensures
            match r {
                Ok(q) => error is None && q@ == text@,
                Err(e) => error matches Some(m) && e@ == ValidationErrorModel::InvalidVersion(m@),
            },
    {
        match error {
            None => Ok(VersionReq(text.to_owned())),
            Some(message) => Err(ValidationError::InvalidVersion(message)),
        }
    }

    /// Takes a requirement from a string, which must spell one as it
    /// stands.
    pub fn parse(s: &str) -> (r: Result<VersionReq, ValidationError>)
        ensures
            match r {
                Ok(q) => spec_requirement_error(s@) is None && q@ == s@,
                Err(e) => spec_requirement_error(s@) matches Some(m) && e@
                    == ValidationErrorModel::InvalidVersion(m),
            },
    {
        VersionReq::checked(s, requirement_error(s))
    }

    pub fn as_str(&self) -> (r: &str)
        ensures
            r@ == self@,
    {
        self.0.as_str()
    }

    /// Whether the requirement admits the version.
    pub fn matches(&self, version: &Version) -> (r: bool)
        ensures
            r == spec_satisfies(self@, version@),
    {
        satisfies(self.as_str(), version.as_str())
    }
}

} // verus!
