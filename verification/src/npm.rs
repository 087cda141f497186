//! The npm ecosystem: dependency and registry types of `package.json`
//! projects, the code-action and hover formatting, and the choice of the
//! newest matching release among what the registry returns.

use vstd::prelude::*;
use crate::types::TextRange;
use crate::text::{chars_of, find_char, first_index_of, starts_with, str_eq, string_of_range, range_starts_with};
use crate::semver::{semver_version_valid, semver_range_valid, semver_satisfies, parse_version, parse_range, satisfies};
use crate::urlenc::{url_encode, url_encoded};
use crate::numfmt::{decimal, u64_to_string};

verus! {

/// Section of `package.json` in which a dependency is declared.
#[derive(Debug, Clone, Copy, PartialEq, Eq, Structural)]
pub enum NpmDependencySection {
    Dependencies,
    DevDependencies,
    PeerDependencies,
    OptionalDependencies,
}

/// A dependency of `package.json` with the ranges of its name and version.
#[derive(Debug)]
pub struct NpmDependency {
    pub name: String,
    pub name_range: TextRange,
    pub version_req: Option<String>,
    pub version_range: Option<TextRange>,
    pub section: NpmDependencySection,
}

impl Clone for NpmDependency {
    fn clone(&self) -> (r: NpmDependency)
        ensures
            r.name == self.name,
            r.name_range == self.name_range,
            r.version_req == self.version_req,
            r.version_range == self.version_range,
            r.section == self.section,
    {
        NpmDependency {
            name: self.name.clone(),
            name_range: self.name_range,
            version_req: match &self.version_req {
                Some(v) => Some(v.clone()),
                None => None,
            },
            version_range: self.version_range,
            section: self.section,
        }
    }
}

/// One published version of a package.
#[derive(Debug)]
pub struct NpmVersion {
    pub version: String,
    pub deprecated: bool,
}

impl Clone for NpmVersion {
    fn clone(&self) -> (r: NpmVersion)
        ensures
            r.version@ == self.version@,
            r.deprecated == self.deprecated,
    {
        NpmVersion { version: self.version.clone(), deprecated: self.deprecated }
    }
}

impl NpmVersion {
    pub fn version_string(&self) -> (r: &str)
        ensures
            r@ == self.version@,
    {
        self.version.as_str()
    }

    /// A deprecated npm version plays the part of a yanked one.
    pub fn is_yanked(&self) -> (r: bool)
        ensures
            r == self.deprecated,
    {
        self.deprecated
    }
}

/// A package as the registry search describes it.
#[derive(Debug, Clone)]
pub struct NpmPackage {
    pub name: String,
    pub description: Option<String>,
    pub homepage: Option<String>,
    pub repository: Option<String>,
    pub latest_version: String,
}

/// What a version is, as the contracts see it.
pub open spec fn npm_version_view(v: NpmVersion) -> (Seq<char>, bool) {
    (v.version@, v.deprecated)
}

pub open spec fn npm_versions_view(vs: Seq<NpmVersion>) -> Seq<(Seq<char>, bool)> {
    vs.map_values(|v: NpmVersion| npm_version_view(v))
}

/// The part of a version text before its first `.`.
pub open spec fn major_part(s: Seq<char>) -> Seq<char> {
    s.take(first_index_of(s, '.'))
}

/// The part of a version text after its first `.`, if it has one.
pub open spec fn after_major(s: Seq<char>) -> Option<Seq<char>> {
    let k = first_index_of(s, '.');
    if k < s.len() {
        Some(s.skip(k + 1))
    } else {
        None
    }
}

/// Two version texts agree on their major part and, where both have one, on
/// their minor part.
pub open spec fn spec_same_major_minor(a: Seq<char>, b: Seq<char>) -> bool {
    major_part(a) == major_part(b) && match (after_major(a), after_major(b)) {
        (Some(x), Some(y)) => major_part(x) == major_part(y),
        _ => true,
    }
}

/// A requirement without one leading `^` or, failing that, `~`.
pub open spec fn strip_caret_tilde(r: Seq<char>) -> Seq<char> {
    if r.len() > 0 && (r[0] == '^' || r[0] == '~') {
        r.drop_first()
    } else {
        r
    }
}

/// A requirement of at most two parts, such as `1` or `1.2`.
pub open spec fn is_partial_version(r: Seq<char>) -> bool {
    match after_major(r) {
        Some(rest) => first_index_of(rest, '.') == rest.len(),
        None => true,
    }
}

/// When the formatter takes a version to meet a requirement: they are equal,
/// or the requirement (without `^` or `~`) is partial and agrees with the
/// version on major and minor, or the version starts with it.
pub open spec fn spec_npm_satisfies(version: Seq<char>, requirement: Seq<char>) -> bool {
    let req = strip_caret_tilde(requirement);
    version == requirement || (is_partial_version(req) && (spec_same_major_minor(req, version)
        || starts_with(version, req)))
}

/// The major and minor part of `s[..]` as found by scanning: the index of
/// the first `.` and, after it, of the next one.
fn dot_positions(s: &Vec<char>) -> (r: (usize, Option<usize>))
    ensures
        r.0 == first_index_of(s@, '.'),
        match after_major(s@) {
            Some(rest) => r.1 is Some && r.0 < s@.len() && r.1->0 == first_index_of(rest, '.') && r.1->0
                <= rest.len(),
            None => r.1 is None && r.0 == s@.len(),
        },
{
    let k = find_char(s, '.');
    if k < s.len() {
        let rest = string_of_range(s, k + 1, s.len());
        let rc = chars_of(rest.as_str());
        let m = find_char(&rc, '.');
        proof {
            assert(rc@ =~= s@.skip(k + 1));
        }
        (k, Some(m))
    } else {
        (k, None)
    }
}

/// Whether two version texts agree on major and (where both have one)
/// minor part.
pub fn is_same_major_minor(a: &str, b: &str) -> (r: bool)
    ensures
        r == spec_same_major_minor(a@, b@),
{
    let ac = chars_of(a);
    let bc = chars_of(b);
    let (ka, ma) = dot_positions(&ac);
    let (kb, mb) = dot_positions(&bc);
    let a_major = string_of_range(&ac, 0, ka);
    let b_major = string_of_range(&bc, 0, kb);
    if !str_eq(a_major.as_str(), b_major.as_str()) {
        return false;
    }
    match (ma, mb) {
        (Some(x), Some(y)) => {
            proof {
                assert(after_major(ac@) is Some);
                assert(after_major(bc@) is Some);
                assert(after_major(ac@)->0.len() == ac@.len() - ka - 1);
                assert(after_major(bc@)->0.len() == bc@.len() - kb - 1);
                assert(ka < ac@.len() && x <= ac@.len() - ka - 1);
                assert(kb < bc@.len() && y <= bc@.len() - kb - 1);
            }
            let alen = ac.len();
            let blen = bc.len();
            let a_minor = string_of_range(&ac, ka + 1, ka + 1 + x);
            let b_minor = string_of_range(&bc, kb + 1, kb + 1 + y);
            proof {
                assert(a_minor@ =~= major_part(ac@.skip(ka + 1)));
                assert(b_minor@ =~= major_part(bc@.skip(kb + 1)));
            }
            str_eq(a_minor.as_str(), b_minor.as_str())
        },
        _ => true,
    }
}

/// Code-action, hover and naming rules of the npm ecosystem.
pub struct NpmFormatter;

impl NpmFormatter {
    /// The version as it is: the parser's version range holds no quotes.
    pub fn format_version_for_code_action(&self, version: &str) -> (r: String)
        ensures
            r@ == version@,
    {
        version.to_string()
    }

    /// `https://www.npmjs.com/package/{name}`.
    pub fn package_url(&self, name: &str) -> (r: String)
        ensures
            r@ == "https://www.npmjs.com/package/"@ + name@,
    {
        let mut r = String::from_str("https://www.npmjs.com/package/");
        r.append(name);
        r
    }

    /// npm names are compared as they are written.
    pub fn normalize_package_name(&self, name: &str) -> (r: String)
        ensures
            r@ == name@,
    {
        name.to_string()
    }

    pub fn yanked_message(&self) -> (r: &'static str)
        ensures
            r@ == "This version is deprecated"@,
    {
        "This version is deprecated"
    }

    pub fn yanked_label(&self) -> (r: &'static str)
        ensures
            r@ == "*(deprecated)*"@,
    {
        "*(deprecated)*"
    }

    /// Whether the version meets the requirement in the loose sense of
    /// `spec_npm_satisfies`.
    pub fn version_satisfies_requirement(&self, version: &str, requirement: &str) -> (r: bool)
        ensures
            r == spec_npm_satisfies(version@, requirement@),
    {
        let rc = chars_of(requirement);
        let req: Vec<char> = if rc.len() > 0 && (rc[0] == '^' || rc[0] == '~') {
            let s = string_of_range(&rc, 1, rc.len());
            chars_of(s.as_str())
        } else {
            rc
        };
        assert(req@ =~= strip_caret_tilde(requirement@));
        let (_k, m) = dot_positions(&req);
        let partial = match m {
            Some(x) => {
                proof {
                    let rest = after_major(req@)->0;
                    assert(x <= rest.len());
                }
                _k + 1 + x == req.len()
            },
            None => true,
        };
        assert(partial == is_partial_version(req@));
        if str_eq(version, requirement) {
            return true;
        }
        if !partial {
            return false;
        }
        let req_s = string_of_range(&req, 0, req.len());
        assert(req_s@ =~= req@);
        if is_same_major_minor(req_s.as_str(), version) {
            return true;
        }
        let vc = chars_of(version);
        let r = range_starts_with(&vc, 0, vc.len(), &req);
        assert(vc@.subrange(0, vc@.len() as int) =~= vc@);
        r
    }
}

/// The address of a package's page on npmjs.com: the name, percent-encoded,
/// after `https://www.npmjs.com/package/`.
pub fn package_url(name: &str) -> (r: String)
    ensures
        r@ == "https://www.npmjs.com/package/"@ + url_encoded(vstd::utf8::encode_utf8(name@)),
{
    let encoded = url_encode(name);
    let mut r = String::from_str("https://www.npmjs.com/package/");
    r.append(encoded.as_str());
    r
}

/// The address of an npm registry search for `query`, percent-encoded,
/// asking for `limit` results.
pub fn search_url(query: &str, limit: usize) -> (r: String)
    ensures
        r@ == "https://registry.npmjs.org/-/v1/search?text="@ + url_encoded(
            vstd::utf8::encode_utf8(query@),
        ) + "&size="@ + decimal(limit as nat),
{
    let encoded = url_encode(query);
    let mut r = String::from_str("https://registry.npmjs.org/-/v1/search?text=");
    r.append(encoded.as_str());
    r.append("&size=");
    let n = u64_to_string(limit as u64);
    r.append(n.as_str());
    r
}

/// Errors of npm dependency handling.
#[derive(Debug)]
pub enum NpmError {
    /// A document does not parse as JSON of its kind: `source` is the JSON
    /// parser's error where it is not JSON, none where it is JSON of another
    /// shape.
    JsonParseError { source: Option<serde_json::Error> },
    /// A requirement that does not read as an npm version range.
    InvalidVersionSpecifier { specifier: String, message: String },
    /// The registry does not know the package.
    PackageNotFound { package: String },
    /// A registry request failed.
    RegistryError { package: String, message: String },
    /// A registry response is not JSON.
    ApiResponseError { package: String, source: serde_json::Error },
    /// A document does not have the expected shape.
    InvalidStructure { message: String },
    /// A required field is absent.
    MissingField { section: String, field: String },
    /// The cache failed.
    CacheError(String),
}

impl NpmError {
    /// A failed registry request for `package`.
    pub fn registry_error(package: String, message: String) -> (r: NpmError)
        ensures
            r matches NpmError::RegistryError { package: p, message: m } && p == package && m
                == message,
    {
        NpmError::RegistryError { package, message }
    }

    /// A registry response for `package` that is not JSON.
    pub fn api_response_error(package: String, error: serde_json::Error) -> (r: NpmError)
        ensures
            r matches NpmError::ApiResponseError { package: p, source: e } && p == package && e
                == error,
    {
        NpmError::ApiResponseError { package, source: error }
    }

    /// A document of the wrong shape.
    pub fn invalid_structure(message: String) -> (r: NpmError)
        ensures
            r matches NpmError::InvalidStructure { message: m } && m == message,
    {
        NpmError::InvalidStructure { message }
    }

    /// A required field that is absent.
    pub fn missing_field(section: String, field: String) -> (r: NpmError)
        ensures
            r matches NpmError::MissingField { section: s, field: f } && s == section && f == field,
    {
        NpmError::MissingField { section, field }
    }

    /// A version specifier that does not read.
    pub fn invalid_version_specifier(specifier: String, message: String) -> (r: NpmError)
        ensures
            r matches NpmError::InvalidVersionSpecifier { specifier: s, message: m } && s
                == specifier && m == message,
    {
        NpmError::InvalidVersionSpecifier { specifier, message }
    }
}

/// A version that the newest matching one may be: not deprecated, and it
/// reads as a version within the range.
pub open spec fn npm_eligible(v: (Seq<char>, bool), range: Seq<char>) -> bool {
    !v.1 && semver_version_valid(v.0) && semver_satisfies(range, v.0)
}

/// Given for each version whether it lies in the range, the first version
/// that does and is not deprecated.
pub fn first_in_range(versions: &Vec<NpmVersion>, in_range: &Vec<bool>) -> (r: Option<NpmVersion>)
    requires
        in_range@.len() == versions@.len(),
    ensures
        match r {
            Some(v) => exists|i: int|
                0 <= i < versions@.len() && in_range@[i] && !versions@[i].deprecated
                    && npm_version_view(v) == npm_version_view(versions@[i]) && forall|j: int|
                    0 <= j < i ==> !(in_range@[j] && !versions@[j].deprecated),
            None => forall|i: int|
                0 <= i < versions@.len() ==> !(in_range@[i] && !versions@[i].deprecated),
        },
{
    let mut i: usize = 0;
    while i < versions.len()
        invariant
            i <= versions@.len(),
            in_range@.len() == versions@.len(),
            forall|j: int| 0 <= j < i ==> !(in_range@[j] && !versions@[j].deprecated),
        decreases versions@.len() - i,
    {
        if in_range[i] && !versions[i].deprecated {
            return Some(versions[i].clone());
        }
        i = i + 1;
    }
    None
}

pub open spec fn opt_npm_version_view(r: Option<NpmVersion>) -> Option<(Seq<char>, bool)> {
    match r {
        Some(v) => Some(npm_version_view(v)),
        None => None,
    }
}

/// The newest version (the first of `versions`, which come newest first)
/// that lies in the range and is not deprecated; an error where the range
/// does not read.
pub fn latest_matching(versions: &Vec<NpmVersion>, req_str: &str) -> (r: Result<
    Option<NpmVersion>,
    NpmError,
>)
    ensures
        !semver_range_valid(req_str@) <==> r is Err,
        r is Err ==> (r matches Err(NpmError::InvalidVersionSpecifier { specifier, message })
            && specifier@ == req_str@ && message@ == "not an npm version range"@),
        r is Ok ==> crate::pypi::is_first_where(
            npm_versions_view(versions@),
            |v: (Seq<char>, bool)| npm_eligible(v, req_str@),
            opt_npm_version_view(r->Ok_0),
        ),
{
    let range = match parse_range(req_str) {
        Some(r) => r,
        None => {
            return Err(
                NpmError::invalid_version_specifier(
                    req_str.to_string(),
                    "not an npm version range".to_string(),
                ),
            )
        },
    };
    let mut in_range: Vec<bool> = Vec::new();
    let mut i: usize = 0;
    while i < versions.len()
        invariant
            i <= versions@.len(),
            in_range@.len() == i,
            range@ == req_str@,
            forall|j: int|
                0 <= j < i ==> in_range@[j] == (semver_version_valid(versions@[j].version@)
                    && semver_satisfies(req_str@, versions@[j].version@)),
        decreases versions@.len() - i,
    {
        let m = match parse_version(versions[i].version.as_str()) {
            Some(v) => satisfies(&range, &v),
            None => false,
        };
        in_range.push(m);
        i = i + 1;
    }
    let r = first_in_range(versions, &in_range);
    proof {
        let vv = npm_versions_view(versions@);
        let ok = |v: (Seq<char>, bool)| npm_eligible(v, req_str@);
        assert forall|j: int| 0 <= j < versions@.len() implies #[trigger] ok(vv[j]) == (
        in_range@[j] && !versions@[j].deprecated) by {
            assert(vv[j] == npm_version_view(versions@[j]));
        }
        match &r {
            Some(v) => {
                let i = choose|i: int|
                    0 <= i < versions@.len() && in_range@[i] && !versions@[i].deprecated
                        && npm_version_view(*v) == npm_version_view(versions@[i]) && forall|j: int|
                        0 <= j < i ==> !(in_range@[j] && !versions@[j].deprecated);
                assert(ok(vv[i]));
                assert(opt_npm_version_view(r) == Some(vv[i]));
                assert forall|j: int| 0 <= j < i implies !ok(#[trigger] vv[j]) by {
                    assert(ok(vv[j]) == (in_range@[j] && !versions@[j].deprecated));
                }
            },
            None => {
                assert forall|j: int| 0 <= j < vv.len() implies !ok(#[trigger] vv[j]) by {
                    assert(ok(vv[j]) == (in_range@[j] && !versions@[j].deprecated));
                }
            },
        }
    }
    Ok(r)
}


/// The npm ecosystem: `package.json` manifests, read with `package-lock.json`.
#[derive(Debug)]
pub struct NpmEcosystem;

impl NpmEcosystem {
    pub fn new() -> (r: NpmEcosystem) {
        NpmEcosystem
    }

    /// The ecosystem's identifier.
    pub fn id(&self) -> (r: &'static str)
        ensures
            r@ == "npm"@,
    {
        "npm"
    }

    /// The name shown to users.
    pub fn display_name(&self) -> (r: &'static str)
        ensures
            r@ == "npm (JavaScript)"@,
    {
        "npm (JavaScript)"
    }

    /// The file names of the manifests of the ecosystem.
    pub fn manifest_filenames(&self) -> (r: Vec<&'static str>)
        ensures
            r@.len() == 1,
            r@[0]@ == "package.json"@,
    {
        let mut r: Vec<&'static str> = Vec::new();
        r.push("package.json");
        r
    }
}

} // verus!

verus! {

/// The version of the newest release that is not deprecated (the first of
/// `versions`, which come newest first).
pub fn latest_stable(versions: &Vec<NpmVersion>) -> (r: Option<String>)
    ensures
        match r {
            Some(v) => exists|i: int|
                0 <= i < versions@.len() && !versions@[i].deprecated && v@ == versions@[i].version@
                    && forall|j: int| 0 <= j < i ==> #[trigger] versions@[j].deprecated,
            None => forall|i: int| 0 <= i < versions@.len() ==> #[trigger] versions@[i].deprecated,
        },
{
    let mut i: usize = 0;
    while i < versions.len()
        invariant
            i <= versions@.len(),
            forall|j: int| 0 <= j < i ==> #[trigger] versions@[j].deprecated,
        decreases versions@.len() - i,
    {
        if !versions[i].deprecated {
            return Some(versions[i].version.clone());
        }
        i = i + 1;
    }
    None
}

} // verus!
