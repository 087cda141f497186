//! npm version ranges and versions, parsed and matched by the `node-semver`
//! crate. A parsed value keeps the text it was read from, and what the crate
//! computes is named as a function of those texts.

use vstd::prelude::*;

verus! {

#[verifier::external_type_specification]
#[verifier::external_body]
pub struct ExSemverVersion(node_semver::Version);

#[verifier::external_type_specification]
#[verifier::external_body]
pub struct ExSemverRange(node_semver::Range);

/// Whether `node-semver` reads `s` as a version.
pub uninterp spec fn semver_version_valid(s: Seq<char>) -> bool;

/// Whether `node-semver` reads `s` as a version range.
pub uninterp spec fn semver_range_valid(s: Seq<char>) -> bool;

/// Whether the version written `v` lies in the range written `range`.
pub uninterp spec fn semver_satisfies(range: Seq<char>, v: Seq<char>) -> bool;

/// The order of two version texts under semver: -1, 0 or 1.
pub uninterp spec fn semver_order(a: Seq<char>, b: Seq<char>) -> int;

/// An npm version together with its text.
pub struct SemverVersion {
    text: String,
    parsed: node_semver::Version,
}

impl View for SemverVersion {
    type V = Seq<char>;

    closed spec fn view(&self) -> Seq<char> {
        self.text@
    }
}

/// An npm version range together with its text.
pub struct SemverRange {
    text: String,
    parsed: node_semver::Range,
}

impl View for SemverRange {
    type V = Seq<char>;

    closed spec fn view(&self) -> Seq<char> {
        self.text@
    }
}

/// `node_semver::Version::parse`: a version exactly when the crate accepts
/// the text.
#[verifier::external_body]
pub fn parse_version(s: &str) -> (r: Option<SemverVersion>)
    ensures
        r is Some <==> semver_version_valid(s@),
        r is Some ==> r->0@ == s@,
{
    match node_semver::Version::parse(s) {
        Ok(parsed) => Some(SemverVersion { text: s.to_string(), parsed }),
        Err(_) => None,
    }
}

/// `node_semver::Range::parse`: a range exactly when the crate accepts the
/// text.
#[verifier::external_body]
pub fn parse_range(s: &str) -> (r: Option<SemverRange>)
    ensures
        r is Some <==> semver_range_valid(s@),
        r is Some ==> r->0@ == s@,
{
    match node_semver::Range::parse(s) {
        Ok(parsed) => Some(SemverRange { text: s.to_string(), parsed }),
        Err(_) => None,
    }
}

/// `node_semver::Range::satisfies`: whether the version lies in the range.
#[verifier::external_body]
pub fn satisfies(range: &SemverRange, v: &SemverVersion) -> (b: bool)
    ensures
        b == semver_satisfies(range@, v@),
{
    range.parsed.satisfies(&v.parsed)
}

/// `node_semver::Version::cmp`: the order of two versions, as -1, 0 or 1.
/// `Version` implements `Ord`, whose contract makes the order antisymmetric:
/// the reverse comparison gives the opposite result.
#[verifier::external_body]
pub fn compare(a: &SemverVersion, b: &SemverVersion) -> (r: i8)
    ensures
        r == semver_order(a@, b@),
        semver_order(b@, a@) == -r,
        -1 <= r <= 1,
{
    match a.parsed.cmp(&b.parsed) {
        std::cmp::Ordering::Less => -1,
        std::cmp::Ordering::Equal => 0,
        std::cmp::Ordering::Greater => 1,
    }
}

} // verus!
