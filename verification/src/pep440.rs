//! PEP 440 versions and version specifiers, parsed and compared by the
//! `pep440_rs` crate. A parsed value keeps the text it was read from, and
//! what the crate computes is named as a function of those texts.

use vstd::prelude::*;

verus! {

#[verifier::external_type_specification]
#[verifier::external_body]
pub struct ExPep440Version(pep440_rs::Version);

#[verifier::external_type_specification]
#[verifier::external_body]
pub struct ExPep440Specifiers(pep440_rs::VersionSpecifiers);

#[verifier::external_type_specification]
#[verifier::external_body]
pub struct ExPep440Specifier(pep440_rs::VersionSpecifier);

/// Whether `pep440_rs` reads `s` as a PEP 440 version.
pub uninterp spec fn pep440_version_valid(s: Seq<char>) -> bool;

/// Whether the version written `s` is an alpha, beta or release candidate.
pub uninterp spec fn pep440_version_is_pre(s: Seq<char>) -> bool;

/// Whether `pep440_rs` reads `s` as a list of PEP 440 version specifiers.
pub uninterp spec fn pep440_specifiers_valid(s: Seq<char>) -> bool;

/// Whether the version written `v` meets every specifier written in `spec`.
pub uninterp spec fn pep440_contains(spec: Seq<char>, v: Seq<char>) -> bool;

/// The order of two version texts under PEP 440: -1, 0 or 1.
pub uninterp spec fn pep440_order(a: Seq<char>, b: Seq<char>) -> int;

/// A PEP 440 version together with its text.
pub struct Pep440Version {
    text: String,
    parsed: pep440_rs::Version,
}

impl View for Pep440Version {
    type V = Seq<char>;

    closed spec fn view(&self) -> Seq<char> {
        self.text@
    }
}

/// A list of PEP 440 version specifiers together with its text.
pub struct Pep440Specifiers {
    text: String,
    parsed: pep440_rs::VersionSpecifiers,
}

impl View for Pep440Specifiers {
    type V = Seq<char>;

    closed spec fn view(&self) -> Seq<char> {
        self.text@
    }
}

/// `Version::from_str`: a version exactly when `pep440_rs` accepts the text.
#[verifier::external_body]
pub fn parse_version(s: &str) -> (r: Option<Pep440Version>)
    ensures
        r is Some <==> pep440_version_valid(s@),
        r is Some ==> r->0@ == s@,
{
    match <pep440_rs::Version as std::str::FromStr>::from_str(s) {
        Ok(parsed) => Some(Pep440Version { text: s.to_string(), parsed }),
        Err(_) => None,
    }
}

/// `VersionSpecifiers::from_str`: specifiers exactly when `pep440_rs` accepts
/// the text.
#[verifier::external_body]
pub fn parse_specifiers(s: &str) -> (r: Option<Pep440Specifiers>)
    ensures
        r is Some <==> pep440_specifiers_valid(s@),
        r is Some ==> r->0@ == s@,
{
    match <pep440_rs::VersionSpecifiers as std::str::FromStr>::from_str(s) {
        Ok(parsed) => Some(Pep440Specifiers { text: s.to_string(), parsed }),
        Err(_) => None,
    }
}

/// `Version::is_pre`: whether the version has an alpha, beta or rc part.
#[verifier::external_body]
pub fn is_pre(v: &Pep440Version) -> (b: bool)
    ensures
        b == pep440_version_is_pre(v@),
{
    v.parsed.is_pre()
}

/// `VersionSpecifiers::contains`: whether the version meets all specifiers.
#[verifier::external_body]
pub fn contains(specs: &Pep440Specifiers, v: &Pep440Version) -> (b: bool)
    ensures
        b == pep440_contains(specs@, v@),
{
    specs.parsed.contains(&v.parsed)
}

/// `Version::cmp`: the order of two versions, as -1, 0 or 1. `Version`
/// implements `Ord`, whose contract makes the order antisymmetric: the
/// reverse comparison gives the opposite result.
#[verifier::external_body]
pub fn compare(a: &Pep440Version, b: &Pep440Version) -> (r: i8)
    ensures
        r == pep440_order(a@, b@),
        pep440_order(b@, a@) == -r,
        -1 <= r <= 1,
{
    match a.parsed.cmp(&b.parsed) {
        std::cmp::Ordering::Less => -1,
        std::cmp::Ordering::Equal => 0,
        std::cmp::Ordering::Greater => 1,
    }
}

} // verus!
