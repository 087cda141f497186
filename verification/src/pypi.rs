//! The Python ecosystem: dependency and registry types of `pyproject.toml`
//! projects, package-name rules (PEP 503), the code-action and hover
//! formatting, and the choices made on what the PyPI registry returns.

use vstd::prelude::*;
use crate::types::{Position, TextRange, Dependency};
use crate::text::{rfind, chars_of, push_char, find_char, first_index_of, eq_ignore_ascii_case, str_eq_ignore_ascii_case, string_of_range, starts_with, trim, is_ws, trim_bounds};
use crate::numfmt::{parse_u32, spec_parse_u32, u64_to_string, decimal};
use crate::unicode::{char_is_uppercase, str_to_lowercase, is_uppercase, to_lowercase};
use crate::pep440::{pep440_version_valid, pep440_version_is_pre, pep440_specifiers_valid, pep440_contains, parse_version, parse_specifiers, is_pre, contains};
use crate::urlenc::{url_encode, url_encoded};

verus! {

/// Section of `pyproject.toml` in which a dependency is declared.
#[derive(Debug, Clone, PartialEq)]
#[non_exhaustive]
pub enum PypiDependencySection {
    /// `[project.dependencies]` (PEP 621)
    Dependencies,
    /// `[project.optional-dependencies.{group}]` (PEP 621)
    OptionalDependencies { group: String },
    /// `[dependency-groups.{group}]` (PEP 735)
    DependencyGroup { group: String },
    /// `[tool.poetry.dependencies]`
    PoetryDependencies,
    /// `[tool.poetry.group.{group}.dependencies]`
    PoetryGroup { group: String },
}

/// Where a Python dependency comes from.
#[derive(Debug, PartialEq)]
pub enum PypiDependencySource {
    /// The PyPI registry
    PyPI,
    /// A Git repository
    Git { url: String, rev: Option<String> },
    /// A local path
    Path { path: String },
    /// A direct URL to a wheel or source archive
    Url { url: String },
}

impl Clone for PypiDependencySource {
    fn clone(&self) -> (r: PypiDependencySource)
        ensures
            r == *self,
    {
        match self {
            PypiDependencySource::PyPI => PypiDependencySource::PyPI,
            PypiDependencySource::Git { url, rev } => PypiDependencySource::Git {
                url: url.clone(),
                rev: match rev {
                    Some(x) => Some(x.clone()),
                    None => None,
                },
            },
            PypiDependencySource::Path { path } => PypiDependencySource::Path { path: path.clone() },
            PypiDependencySource::Url { url } => PypiDependencySource::Url { url: url.clone() },
        }
    }
}

/// A dependency of `pyproject.toml` with the ranges of its parts.
#[derive(Debug)]
pub struct PypiDependency {
    pub name: String,
    pub name_range: TextRange,
    pub version_req: Option<String>,
    pub version_range: Option<TextRange>,
    pub extras: Vec<String>,
    pub extras_range: Option<TextRange>,
    pub markers: Option<String>,
    pub markers_range: Option<TextRange>,
    pub section: PypiDependencySection,
    pub source: PypiDependencySource,
}

impl Clone for PypiDependency {
    fn clone(&self) -> (r: PypiDependency)
        ensures
            r.name == self.name,
            r.name_range == self.name_range,
            r.version_req == self.version_req,
            r.version_range == self.version_range,
            r.extras_range == self.extras_range,
            r.markers == self.markers,
            r.markers_range == self.markers_range,
            r.source == self.source,
    {
        PypiDependency {
            name: self.name.clone(),
            name_range: self.name_range,
            version_req: match &self.version_req {
                Some(v) => Some(v.clone()),
                None => None,
            },
            version_range: self.version_range,
            extras: self.extras.clone(),
            extras_range: self.extras_range,
            markers: match &self.markers {
                Some(m) => Some(m.clone()),
                None => None,
            },
            markers_range: self.markers_range,
            section: self.section.clone(),
            source: self.source.clone(),
        }
    }
}

/// One release of a package on PyPI.
#[derive(Debug)]
pub struct PypiVersion {
    pub version: String,
    pub yanked: bool,
}

/// A version text is a pre-release: it reads as a PEP 440 version with an
/// alpha, beta or rc part.
pub open spec fn spec_is_prerelease(v: Seq<char>) -> bool {
    pep440_version_valid(v) && pep440_version_is_pre(v)
}

impl Clone for PypiVersion {
    fn clone(&self) -> (r: PypiVersion)
        ensures
            r.version@ == self.version@,
            r.yanked == self.yanked,
    {
        PypiVersion { version: self.version.clone(), yanked: self.yanked }
    }
}

/// What a release is, as the contracts see it: its version text and whether
/// it was yanked.
pub open spec fn version_view(v: PypiVersion) -> (Seq<char>, bool) {
    (v.version@, v.yanked)
}

pub open spec fn versions_view(vs: Seq<PypiVersion>) -> Seq<(Seq<char>, bool)> {
    vs.map_values(|v: PypiVersion| version_view(v))
}

impl PypiVersion {
    /// Whether this version is an alpha, beta or release candidate; a text
    /// that is no PEP 440 version is not.
    pub fn is_prerelease(&self) -> (r: bool)
        ensures
            r == spec_is_prerelease(self.version@),
    {
        match parse_version(self.version.as_str()) {
            Some(v) => is_pre(&v),
            None => false,
        }
    }

    pub fn version_string(&self) -> (r: &str)
        ensures
            r@ == self.version@,
    {
        self.version.as_str()
    }

    pub fn is_yanked(&self) -> (r: bool)
        ensures
            r == self.yanked,
    {
        self.yanked
    }
}

/// Package metadata from PyPI.
#[derive(Debug, Clone)]
pub struct PypiPackage {
    pub name: String,
    pub summary: Option<String>,
    /// Project URLs by label, in the order the registry gave them.
    pub project_urls: Vec<(String, String)>,
    pub latest_version: String,
}

/// Labels under which a project URL points to the source repository.
pub open spec fn is_repository_label(k: Seq<char>) -> bool {
    eq_ignore_ascii_case(k, "repository"@) || eq_ignore_ascii_case(k, "source"@)
        || eq_ignore_ascii_case(k, "code"@)
}

/// Labels under which a project URL points to documentation.
pub open spec fn is_documentation_label(k: Seq<char>) -> bool {
    eq_ignore_ascii_case(k, "documentation"@) || eq_ignore_ascii_case(k, "docs"@)
        || eq_ignore_ascii_case(k, "homepage"@)
}

/// `r` is the URL of the first entry of `urls` whose label `label` accepts,
/// or none where no label is accepted.
pub open spec fn first_url_where(
    urls: Seq<(String, String)>,
    label: spec_fn(Seq<char>) -> bool,
    r: Option<Seq<char>>,
) -> bool {
    match r {
        Some(u) => exists|i: int|
            0 <= i < urls.len() && label(#[trigger] urls[i].0@) && u == urls[i].1@ && forall|
                j: int,
            | 0 <= j < i ==> !label(#[trigger] urls[j].0@),
        None => forall|i: int| 0 <= i < urls.len() ==> !label(#[trigger] urls[i].0@),
    }
}

fn repository_label(k: &str) -> (b: bool)
    ensures
        b == is_repository_label(k@),
{
    str_eq_ignore_ascii_case(k, "repository") || str_eq_ignore_ascii_case(k, "source")
        || str_eq_ignore_ascii_case(k, "code")
}

fn documentation_label(k: &str) -> (b: bool)
    ensures
        b == is_documentation_label(k@),
{
    str_eq_ignore_ascii_case(k, "documentation") || str_eq_ignore_ascii_case(k, "docs")
        || str_eq_ignore_ascii_case(k, "homepage")
}

impl PypiPackage {
    pub fn name(&self) -> (r: &str)
        ensures
            r@ == self.name@,
    {
        self.name.as_str()
    }

    pub fn description(&self) -> (r: Option<&str>)
        ensures
            match self.summary {
                Some(s) => r is Some && r->0@ == s@,
                None => r is None,
            },
    {
        match &self.summary {
            Some(s) => Some(s.as_str()),
            None => None,
        }
    }

    /// The URL of the first project URL labelled, in any ASCII case,
    /// `repository`, `source` or `code`.
    pub fn repository(&self) -> (r: Option<&str>)
        ensures
            first_url_where(
                self.project_urls@,
                |k: Seq<char>| is_repository_label(k),
                match r {
                    Some(u) => Some(u@),
                    None => None,
                },
            ),
    {
        let mut i: usize = 0;
        while i < self.project_urls.len()
            invariant
                i <= self.project_urls@.len(),
                forall|j: int| 0 <= j < i ==> !is_repository_label(#[trigger] self.project_urls@[j].0@),
            decreases self.project_urls@.len() - i,
        {
            if repository_label(self.project_urls[i].0.as_str()) {
                return Some(self.project_urls[i].1.as_str());
            }
            i = i + 1;
        }
        None
    }

    /// The URL of the first project URL labelled, in any ASCII case,
    /// `documentation`, `docs` or `homepage`.
    pub fn documentation(&self) -> (r: Option<&str>)
        ensures
            first_url_where(
                self.project_urls@,
                |k: Seq<char>| is_documentation_label(k),
                match r {
                    Some(u) => Some(u@),
                    None => None,
                },
            ),
    {
        let mut i: usize = 0;
        while i < self.project_urls.len()
            invariant
                i <= self.project_urls@.len(),
                forall|j: int|
                    0 <= j < i ==> !is_documentation_label(#[trigger] self.project_urls@[j].0@),
            decreases self.project_urls@.len() - i,
        {
            if documentation_label(self.project_urls[i].0.as_str()) {
                return Some(self.project_urls[i].1.as_str());
            }
            i = i + 1;
        }
        None
    }

    pub fn latest_version(&self) -> (r: &str)
        ensures
            r@ == self.latest_version@,
    {
        self.latest_version.as_str()
    }
}

/// A name that the formatter rewrites: one with an upper-case letter or a
/// hyphen.
pub open spec fn needs_rename(s: Seq<char>) -> bool {
    exists|i: int| 0 <= i < s.len() && (char_is_uppercase(#[trigger] s[i]) || s[i] == '-')
}

/// `s` with every `-` replaced by `_`.
pub open spec fn hyphens_to_underscores(s: Seq<char>) -> Seq<char> {
    s.map_values(|c: char| if c == '-' { '_' } else { c })
}

/// The major version after the one that `version` starts with: one more
/// than the number before its first `.`, or 1 where that is no `u32` or is
/// the largest one.
pub open spec fn next_major(version: Seq<char>) -> nat {
    match spec_parse_u32(version.take(first_index_of(version, '.'))) {
        Some(v) => if v < u32::MAX {
            (v + 1) as nat
        } else {
            1
        },
        None => 1,
    }
}

/// The requirement a code action writes for `version`: at least it, below
/// the next major version.
pub open spec fn spec_code_action_requirement(version: Seq<char>) -> Seq<char> {
    ">="@ + version + ",<"@ + decimal(next_major(version))
}

/// The version text meets the requirement text under PEP 440; a text that
/// reads as neither meets nothing.
pub open spec fn spec_satisfies(version: Seq<char>, requirement: Seq<char>) -> bool {
    pep440_version_valid(version) && pep440_specifiers_valid(requirement) && pep440_contains(
        requirement,
        version,
    )
}

/// `n - k` stopping at zero, `n + k` stopping at `u32::MAX`.
pub open spec fn sat_sub(n: u32, k: u32) -> u32 {
    if n >= k {
        (n - k) as u32
    } else {
        0
    }
}

pub open spec fn sat_add(n: u32, k: u32) -> u32 {
    if n + k <= u32::MAX {
        (n + k) as u32
    } else {
        u32::MAX
    }
}

/// The position lies on the dependency's line, from two characters before
/// its name to two characters after its version (or its name, where it has
/// no version range).
pub open spec fn spec_position_on_dependency(
    name_range: TextRange,
    version_range: Option<TextRange>,
    position: Position,
) -> bool {
    let end_char = match version_range {
        Some(r) => r.end.character,
        None => name_range.end.character,
    };
    position.line == name_range.start.line && sat_sub(name_range.start.character, 2)
        <= position.character <= sat_add(end_char, 2)
}

/// Code-action, hover and naming rules of the Python ecosystem.
pub struct PypiFormatter;

impl PypiFormatter {
    /// A name without upper-case letters and hyphens as it is; any other in
    /// lower case with `_` for `-`.
    pub fn normalize_package_name(&self, name: &str) -> (r: String)
        ensures
            r@ == (if needs_rename(name@) {
                hyphens_to_underscores(str_to_lowercase(name@))
            } else {
                name@
            }),
    {
        let cs = chars_of(name);
        let mut i: usize = 0;
        while i < cs.len() && !(is_uppercase(cs[i]) || cs[i] == '-')
            invariant
                i <= cs@.len(),
                cs@ == name@,
                forall|j: int| 0 <= j < i ==> !(char_is_uppercase(#[trigger] cs@[j]) || cs@[j] == '-'),
            decreases cs@.len() - i,
        {
            i = i + 1;
        }
        if i == cs.len() {
            assert(!needs_rename(name@));
            return name.to_string();
        }
        assert(char_is_uppercase(cs@[i as int]) || cs@[i as int] == '-');
        let lowered = to_lowercase(name);
        underscore_hyphens(lowered.as_str())
    }

    /// `>={version},<{next major}`.
    pub fn format_version_for_code_action(&self, version: &str) -> (r: String)
        ensures
            r@ == spec_code_action_requirement(version@),
    {
        let cs = chars_of(version);
        let k = find_char(&cs, '.');
        let head = string_of_range(&cs, 0, k);
        assert(head@ =~= version@.take(first_index_of(version@, '.')));
        let next: u32 = match parse_u32(head.as_str()) {
            Some(v) => if v < 4294967295 {
                v + 1
            } else {
                1
            },
            None => 1,
        };
        let digits = u64_to_string(next as u64);
        let mut r = String::from_str(">=");
        r.append(version);
        r.append(",<");
        r.append(digits.as_str());
        proof {
            reveal_strlit(">=");
            reveal_strlit(",<");
        }
        r
    }

    /// Whether the version meets the PEP 440 requirement; false where either
    /// text does not read.
    pub fn version_satisfies_requirement(&self, version: &str, requirement: &str) -> (r: bool)
        ensures
            r == spec_satisfies(version@, requirement@),
    {
        let ver = match parse_version(version) {
            Some(v) => v,
            None => return false,
        };
        let specs = match parse_specifiers(requirement) {
            Some(s) => s,
            None => return false,
        };
        contains(&specs, &ver)
    }

    /// `https://pypi.org/project/{name}`.
    pub fn package_url(&self, name: &str) -> (r: String)
        ensures
            r@ == "https://pypi.org/project/"@ + name@,
    {
        let mut r = String::from_str("https://pypi.org/project/");
        r.append(name);
        r
    }

    /// Whether `position` is on the dependency, with two characters of
    /// slack on either side.
    pub fn is_position_on_dependency(&self, dep: &Dependency, position: Position) -> (r: bool)
        ensures
            r == spec_position_on_dependency(dep.name_range, dep.version_range, position),
    {
        let name_range = dep.name_range;
        if position.line != name_range.start.line {
            return false;
        }
        let end_char = match dep.version_range {
            Some(r) => r.end.character,
            None => name_range.end.character,
        };
        let start_char = name_range.start.character.saturating_sub(2);
        let end_char = end_char.saturating_add(2);
        position.character >= start_char && position.character <= end_char
    }

    pub fn yanked_message(&self) -> (r: &'static str)
        ensures
            r@ == "This version has been yanked"@,
    {
        "This version has been yanked"
    }

    pub fn yanked_label(&self) -> (r: &'static str)
        ensures
            r@ == "*(yanked)*"@,
    {
        "*(yanked)*"
    }
}

/// Replaces every `-` by `_`.
pub fn underscore_hyphens(s: &str) -> (r: String)
    ensures
        r@ == hyphens_to_underscores(s@),
{
    let cs = chars_of(s);
    let mut r = String::new();
    let mut i: usize = 0;
    while i < cs.len()
        invariant
            i <= cs@.len(),
            r@ == hyphens_to_underscores(cs@.take(i as int)),
        decreases cs@.len() - i,
    {
        let c = cs[i];
        push_char(&mut r, if c == '-' { '_' } else { c });
        assert(hyphens_to_underscores(cs@.take(i + 1)) =~= hyphens_to_underscores(
            cs@.take(i as int),
        ).push(if c == '-' { '_' } else { c }));
        i = i + 1;
    }
    assert(cs@.take(cs@.len() as int) =~= cs@);
    r
}

/// The separators of PEP 503 names.
pub open spec fn is_name_separator(c: char) -> bool {
    c == '-' || c == '_' || c == '.'
}

/// `s` with every run of `-`, `_` and `.` written as one `-`, at its ends
/// too.
pub open spec fn join_name_runs(s: Seq<char>) -> Seq<char>
    decreases s.len(),
{
    if s.len() == 0 {
        seq![]
    } else {
        let r = join_name_runs(s.drop_last());
        let c = s.last();
        if is_name_separator(c) {
            if s.len() >= 2 && is_name_separator(s[s.len() - 2]) {
                r
            } else {
                r.push('-')
            }
        } else {
            r.push(c)
        }
    }
}

/// The PEP 503 form of a name that is already in lower case: every run of
/// `-`, `_` and `.` becomes one hyphen.
pub fn join_name_segments(lowered: &str) -> (r: String)
    ensures
        r@ == join_name_runs(lowered@),
{
    let cs = chars_of(lowered);
    let mut r = String::new();
    let mut i: usize = 0;
    while i < cs.len()
        invariant
            i <= cs@.len(),
            r@ == join_name_runs(cs@.take(i as int)),
        decreases cs@.len() - i,
    {
        let c = cs[i];
        assert(cs@.take(i + 1).drop_last() =~= cs@.take(i as int));
        assert(cs@.take(i + 1).last() == c);
        if c == '-' || c == '_' || c == '.' {
            if i >= 1 && (cs[i - 1] == '-' || cs[i - 1] == '_' || cs[i - 1] == '.') {
                assert(cs@.take(i + 1)[i - 1] == cs@[i - 1]);
            } else {
                if i >= 1 {
                    assert(cs@.take(i + 1)[i - 1] == cs@[i - 1]);
                }
                push_char(&mut r, '-');
            }
        } else {
            push_char(&mut r, c);
        }
        i = i + 1;
    }
    assert(cs@.take(cs@.len() as int) =~= cs@);
    r
}

/// Normalizes a package name as PEP 503 asks: lower case, with every run of
/// `-`, `_` and `.` a single hyphen, at the ends too.
pub fn normalize_package_name(name: &str) -> (r: String)
    ensures
        r@ == join_name_runs(str_to_lowercase(name@)),
{
    let lowered = to_lowercase(name);
    join_name_segments(lowered.as_str())
}

/// The address of a package's page on pypi.org: the normalized name,
/// percent-encoded, after `https://pypi.org/project/`.
pub fn package_url(name: &str) -> (r: String)
    ensures
        r@ == "https://pypi.org/project/"@ + url_encoded(
            vstd::utf8::encode_utf8(join_name_runs(str_to_lowercase(name@))),
        ),
{
    let normalized = normalize_package_name(name);
    let encoded = url_encode(normalized.as_str());
    let mut r = String::from_str("https://pypi.org/project/");
    r.append(encoded.as_str());
    r
}

/// Errors that the PyPI logic of the library reports.
#[derive(Debug)]
pub enum PypiError {
    /// A requirement that does not read as PEP 440 version specifiers.
    InvalidVersionSpecifier { specifier: String },
    /// A registry response for `package` that does not parse: `source` is
    /// the JSON parser's error where it is not JSON, none where it is JSON of
    /// another shape.
    ApiResponseError { package: String, source: Option<serde_json::Error> },
    /// A registry response that does not have the expected shape.
    InvalidResponse,
    /// The registry does not know the package.
    PackageNotFound { package: String },
    /// A registry request failed.
    RegistryError { package: String, message: String },
}

impl PypiError {
    /// A registry response for `package` that is not JSON.
    pub fn api_response_error(package: &str, error: serde_json::Error) -> (r: PypiError)
        ensures
            r matches PypiError::ApiResponseError { package: p, source: Some(e) } && p@ == package@
                && e == error,
    {
        PypiError::ApiResponseError { package: package.to_string(), source: Some(error) }
    }

    /// A failed registry request for `package`: a package the registry does
    /// not know where the failure reports HTTP status 404, the failure as
    /// it is otherwise.
    pub fn registry_failure(package: &str, message: &str) -> (r: PypiError)
        ensures
            crate::text::contains(message@, "404"@) ==> (r matches PypiError::PackageNotFound {
                package: p,
            } && p@ == package@),
            !crate::text::contains(message@, "404"@) ==> (r matches PypiError::RegistryError {
                package: p,
                message: m,
            } && p@ == package@ && m@ == message@),
    {
        if rfind(&chars_of(message), &chars_of("404")).is_some() {
            PypiError::PackageNotFound { package: package.to_string() }
        } else {
            PypiError::RegistryError { package: package.to_string(), message: message.to_string() }
        }
    }
}

/// A release that the newest matching version may be: it is not yanked and
/// not a pre-release, and its version meets the requirement.
pub open spec fn eligible_release(v: (Seq<char>, bool), requirement: Seq<char>) -> bool {
    &&& !v.1
    &&& pep440_version_valid(v.0)
    &&& pep440_contains(requirement, v.0)
    &&& !spec_is_prerelease(v.0)
}

/// `r` is the first entry of `vs` that `ok` accepts, or none.
pub open spec fn is_first_where<A>(vs: Seq<A>, ok: spec_fn(A) -> bool, r: Option<A>) -> bool {
    match r {
        Some(v) => exists|i: int|
            0 <= i < vs.len() && #[trigger] ok(vs[i]) && v == vs[i] && forall|j: int|
                0 <= j < i ==> !ok(#[trigger] vs[j]),
        None => forall|i: int| 0 <= i < vs.len() ==> !ok(#[trigger] vs[i]),
    }
}

pub open spec fn opt_version_view(r: Option<PypiVersion>) -> Option<(Seq<char>, bool)> {
    match r {
        Some(v) => Some(version_view(v)),
        None => None,
    }
}

/// Given for each release whether its version meets the requirement and
/// whether it is a pre-release, the first release that does, is not a
/// pre-release and is not yanked.
pub fn first_eligible(versions: &Vec<PypiVersion>, meets: &Vec<bool>, pre: &Vec<bool>) -> (r:
    Option<PypiVersion>)
    requires
        meets@.len() == versions@.len(),
        pre@.len() == versions@.len(),
    ensures
        match r {
            Some(v) => exists|i: int|
                0 <= i < versions@.len() && meets@[i] && !pre@[i] && !versions@[i].yanked
                    && version_view(v) == version_view(versions@[i]) && forall|j: int|
                    0 <= j < i ==> !(meets@[j] && !pre@[j] && !versions@[j].yanked),
            None => forall|i: int|
                0 <= i < versions@.len() ==> !(meets@[i] && !pre@[i] && !versions@[i].yanked),
        },
{
    let mut i: usize = 0;
    while i < versions.len()
        invariant
            i <= versions@.len(),
            meets@.len() == versions@.len(),
            pre@.len() == versions@.len(),
            forall|j: int| 0 <= j < i ==> !(meets@[j] && !pre@[j] && !versions@[j].yanked),
        decreases versions@.len() - i,
    {
        if meets[i] && !pre[i] && !versions[i].yanked {
            return Some(versions[i].clone());
        }
        i = i + 1;
    }
    None
}

/// The newest release (the first of `versions`, which come newest first)
/// that meets the PEP 440 requirement and is neither yanked nor a
/// pre-release; an error where the requirement does not read.
pub fn latest_matching(versions: &Vec<PypiVersion>, req_str: &str) -> (r: Result<
    Option<PypiVersion>,
    PypiError,
>)
    ensures
        !pep440_specifiers_valid(req_str@) <==> r is Err,
        r is Err ==> (r matches Err(PypiError::InvalidVersionSpecifier { specifier }) && specifier@
            == req_str@),
        r is Ok ==> is_first_where(
            versions_view(versions@),
            |v: (Seq<char>, bool)| eligible_release(v, req_str@),
            opt_version_view(r->Ok_0),
        ),
{
    let specs = match parse_specifiers(req_str) {
        Some(s) => s,
        None => return Err(PypiError::InvalidVersionSpecifier { specifier: req_str.to_string() }),
    };
    let mut meets: Vec<bool> = Vec::new();
    let mut pre: Vec<bool> = Vec::new();
    let mut i: usize = 0;
    while i < versions.len()
        invariant
            i <= versions@.len(),
            meets@.len() == i,
            pre@.len() == i,
            specs@ == req_str@,
            forall|j: int|
                0 <= j < i ==> meets@[j] == (pep440_version_valid(versions@[j].version@)
                    && pep440_contains(req_str@, versions@[j].version@)),
            forall|j: int| 0 <= j < i ==> pre@[j] == spec_is_prerelease(versions@[j].version@),
        decreases versions@.len() - i,
    {
        let m = match parse_version(versions[i].version.as_str()) {
            Some(v) => contains(&specs, &v),
            None => false,
        };
        meets.push(m);
        pre.push(versions[i].is_prerelease());
        i = i + 1;
    }
    let r = first_eligible(versions, &meets, &pre);
    proof {
        let vv = versions_view(versions@);
        let ok = |v: (Seq<char>, bool)| eligible_release(v, req_str@);
        assert forall|j: int| 0 <= j < versions@.len() implies #[trigger] ok(vv[j]) == (meets@[j]
            && !pre@[j] && !versions@[j].yanked) by {
            assert(vv[j] == version_view(versions@[j]));
        }
        match &r {
            Some(v) => {
                let i = choose|i: int|
                    0 <= i < versions@.len() && meets@[i] && !pre@[i] && !versions@[i].yanked
                        && version_view(*v) == version_view(versions@[i]) && forall|j: int|
                        0 <= j < i ==> !(meets@[j] && !pre@[j] && !versions@[j].yanked);
                assert(ok(vv[i]));
                assert(opt_version_view(r) == Some(vv[i]));
                assert forall|j: int| 0 <= j < i implies !ok(#[trigger] vv[j]) by {
                    assert(ok(vv[j]) == (meets@[j] && !pre@[j] && !versions@[j].yanked));
                }
            },
            None => {
                assert forall|j: int| 0 <= j < vv.len() implies !ok(#[trigger] vv[j]) by {
                    assert(ok(vv[j]) == (meets@[j] && !pre@[j] && !versions@[j].yanked));
                }
            },
        }
    }
    Ok(r)
}

/// The characters that may lead a version prefix as a PEP 440 operator.
pub open spec fn is_operator_char(c: char) -> bool {
    c == '>' || c == '<' || c == '=' || c == '~' || c == '!'
}

/// `s` without its leading operator characters.
pub open spec fn skip_operators(s: Seq<char>) -> Seq<char>
    decreases s.len(),
{
    if s.len() > 0 && is_operator_char(s[0]) {
        skip_operators(s.drop_first())
    } else {
        s
    }
}

/// The version prefix a completion request filters by: without leading
/// operators and surrounding whitespace.
pub open spec fn completion_prefix(prefix: Seq<char>) -> Seq<char> {
    trim(skip_operators(prefix))
}

/// At most the first `n` entries of `s`.
pub open spec fn first_n<A>(s: Seq<A>, n: int) -> Seq<A> {
    if s.len() <= n {
        s
    } else {
        s.take(n)
    }
}

/// The releases a completion may offer: not yanked and, where a prefix is
/// given, starting with it.
pub open spec fn completion_filter(prefix: Option<Seq<char>>) -> spec_fn((Seq<char>, bool)) -> bool {
    |v: (Seq<char>, bool)|
        !v.1 && match prefix {
            Some(p) => starts_with(v.0, p),
            None => true,
        }
}

/// The releases a version completion offers: the first twenty releases
/// that are not yanked and whose version starts with the prefix; where there
/// are none, the first twenty that are not yanked.
pub open spec fn spec_version_completions(vs: Seq<(Seq<char>, bool)>, prefix: Seq<char>) -> Seq<
    (Seq<char>, bool),
> {
    let matching = vs.filter(completion_filter(Some(completion_prefix(prefix))));
    if matching.len() > 0 {
        first_n(matching, 20)
    } else {
        first_n(vs.filter(completion_filter(None)), 20)
    }
}

pub proof fn lemma_filter_push<A>(s: Seq<A>, pred: spec_fn(A) -> bool, x: A)
    ensures
        s.push(x).filter(pred) == (if pred(x) {
            s.filter(pred).push(x)
        } else {
            s.filter(pred)
        }),
{
    reveal(Seq::filter);
    assert(s.push(x).drop_last() =~= s);
}

/// The first (at most) twenty entries of `vs` that `completion_filter`
/// accepts.
fn first_twenty(vs: &Vec<PypiVersion>, clean: Option<&Vec<char>>) -> (r: Vec<PypiVersion>)
    ensures
        versions_view(r@) == first_n(
            versions_view(vs@).filter(
                completion_filter(
                    match clean {
                        Some(c) => Some(c@),
                        None => None,
                    },
                ),
            ),
            20,
        ),
{
    let ghost pred = completion_filter(
        match clean {
            Some(c) => Some(c@),
            None => None,
        },
    );
    let ghost all = versions_view(vs@);
    let mut r: Vec<PypiVersion> = Vec::new();
    let mut i: usize = 0;
    while i < vs.len() && r.len() < 20
        invariant
            i <= vs@.len(),
            all == versions_view(vs@),
            pred == completion_filter(
                match clean {
                    Some(c) => Some(c@),
                    None => None,
                },
            ),
            versions_view(r@) == first_n(all.take(i as int).filter(pred), 20),
            r@.len() <= 20,
        decreases vs@.len() - i,
    {
        let v = &vs[i];
        let keep = !v.yanked && match clean {
            Some(c) => {
                let vc = chars_of(v.version.as_str());
                crate::text::range_starts_with(&vc, 0, vc.len(), c)
            },
            None => true,
        };
        proof {
            let vc = v.version@;
            assert(vc.subrange(0, vc.len() as int) =~= vc);
            assert(all[i as int] == version_view(vs@[i as int]));
            assert(all.take(i + 1) =~= all.take(i as int).push(all[i as int]));
            lemma_filter_push(all.take(i as int), pred, all[i as int]);
            assert(keep == pred(all[i as int]));
        }
        let ghost before = r@;
        if keep {
            r.push(v.clone());
            proof {
                assert(versions_view(r@) =~= versions_view(before).push(version_view(vs@[i as int])));
                let f = all.take(i as int).filter(pred);
                if f.len() > 20 {
                    assert(first_n(f, 20).len() == 20);
                }
                assert(first_n(f, 20) == f);
                assert(first_n(f.push(all[i as int]), 20) == f.push(all[i as int]));
            }
        }
        i = i + 1;
    }
    proof {
        if i < vs@.len() {
            let f = all.take(i as int).filter(pred);
            if f.len() < 20 {
                assert(first_n(f, 20) == f);
            }
            lemma_first_n_stable(all, pred, i as int);
        } else {
            assert(all.take(i as int) =~= all);
        }
    }
    r
}

/// Once the first twenty matches are found, later entries change nothing.
proof fn lemma_first_n_stable<A>(all: Seq<A>, pred: spec_fn(A) -> bool, i: int)
    requires
        0 <= i <= all.len(),
        all.take(i).filter(pred).len() >= 20,
    ensures
        first_n(all.take(i).filter(pred), 20) == first_n(all.filter(pred), 20),
    decreases all.len() - i,
{
    if i < all.len() {
        let f = all.take(i).filter(pred);
        assert(all.take(i + 1) =~= all.take(i).push(all[i]));
        lemma_filter_push(all.take(i), pred, all[i]);
        if pred(all[i]) {
            assert(f.push(all[i]).take(20) =~= f.take(20));
        }
        assert(first_n(all.take(i + 1).filter(pred), 20) == first_n(f, 20));
        lemma_first_n_stable(all, pred, i + 1);
    } else {
        assert(all.take(i) =~= all);
    }
}

/// The releases to offer as version completions for `prefix` (see
/// `spec_version_completions`).
pub fn select_version_completions(versions: &Vec<PypiVersion>, prefix: &str) -> (r: Vec<PypiVersion>)
    ensures
        versions_view(r@) == spec_version_completions(versions_view(versions@), prefix@),
{
    let cs = chars_of(prefix);
    let mut a: usize = 0;
    proof {
        assert(cs@.subrange(0, cs@.len() as int) =~= cs@);
    }
    while a < cs.len() && (cs[a] == '>' || cs[a] == '<' || cs[a] == '=' || cs[a] == '~' || cs[a]
        == '!')
        invariant
            a <= cs@.len(),
            skip_operators(prefix@) == skip_operators(cs@.subrange(a as int, cs@.len() as int)),
            cs@ == prefix@,
        decreases cs@.len() - a,
    {
        assert(cs@.subrange(a as int, cs@.len() as int).drop_first() =~= cs@.subrange(
            a + 1,
            cs@.len() as int,
        ));
        a = a + 1;
    }
    let (lo, hi) = trim_bounds(&cs, a, cs.len());
    let mut clean: Vec<char> = Vec::new();
    let mut k = lo;
    while k < hi
        invariant
            lo <= k <= hi <= cs@.len(),
            clean@ == cs@.subrange(lo as int, k as int),
        decreases hi - k,
    {
        clean.push(cs[k]);
        assert(cs@.subrange(lo as int, k + 1) =~= cs@.subrange(lo as int, k as int).push(cs@[k as int]));
        k = k + 1;
    }
    assert(clean@ == completion_prefix(prefix@));
    let matching = first_twenty(versions, Some(&clean));
    if matching.len() > 0 {
        matching
    } else {
        proof {
            let m = versions_view(versions@).filter(completion_filter(Some(clean@)));
            if m.len() > 0 {
                assert(first_n(m, 20).len() > 0);
            }
        }
        first_twenty(versions, None)
    }
}

/// A package-name search runs only for a prefix of 2 to 100 bytes.
pub fn search_prefix_accepted(prefix: &str) -> (r: bool)
    requires
        vstd::utf8::encode_utf8(prefix@).len() <= usize::MAX,
    ensures
        r == (2 <= vstd::utf8::encode_utf8(prefix@).len() <= 100),
{
    let n = prefix.len();
    n >= 2 && n <= 100
}


/// The Python ecosystem: `pyproject.toml` manifests and the PyPI registry.
#[derive(Debug)]
pub struct PypiEcosystem;

impl PypiEcosystem {
    pub fn new() -> (r: PypiEcosystem) {
        PypiEcosystem
    }

    /// The ecosystem's identifier.
    pub fn id(&self) -> (r: &'static str)
        ensures
            r@ == "pypi"@,
    {
        "pypi"
    }

    /// The name shown to users.
    pub fn display_name(&self) -> (r: &'static str)
        ensures
            r@ == "PyPI (Python)"@,
    {
        "PyPI (Python)"
    }

    /// The file names of the manifests of the ecosystem.
    pub fn manifest_filenames(&self) -> (r: Vec<&'static str>)
        ensures
            r@.len() == 1,
            r@[0]@ == "pyproject.toml"@,
    {
        let mut r: Vec<&'static str> = Vec::new();
        r.push("pyproject.toml");
        r
    }
}

} // verus!

verus! {

/// A name in the form `join_name_runs` gives: its only separator is `-`,
/// and no two separators stand in a row.
pub open spec fn joined_shape(r: Seq<char>) -> bool {
    &&& forall|i: int| 0 <= i < r.len() && is_name_separator(#[trigger] r[i]) ==> r[i] == '-'
    &&& forall|i: int|
        0 <= i < r.len() - 1 && is_name_separator(#[trigger] r[i]) ==> !is_name_separator(r[i + 1])
}

proof fn lemma_join_shape(s: Seq<char>)
    ensures
        joined_shape(join_name_runs(s)),
        join_name_runs(s).len() > 0 <==> s.len() > 0,
        join_name_runs(s).len() > 0 ==> (is_name_separator(join_name_runs(s).last())
            <==> is_name_separator(s.last())),
    decreases s.len(),
{
    if s.len() > 0 {
        lemma_join_shape(s.drop_last());
        let d = s.drop_last();
        let r = join_name_runs(d);
        let c = s.last();
        let out = join_name_runs(s);
        if d.len() > 0 {
            assert(d.last() == s[s.len() - 2]);
        }
        if is_name_separator(c) && s.len() >= 2 && is_name_separator(s[s.len() - 2]) {
        } else {
            let x = if is_name_separator(c) {
                '-'
            } else {
                c
            };
            assert(out == r.push(x));
            assert forall|i: int| 0 <= i < out.len() - 1 && is_name_separator(#[trigger] out[i])
                implies !is_name_separator(out[i + 1]) by {
                if i < r.len() - 1 {
                    assert(out[i] == r[i] && out[i + 1] == r[i + 1]);
                } else {
                    assert(out[i] == r.last());
                }
            }
            assert forall|i: int| 0 <= i < out.len() && is_name_separator(#[trigger] out[i])
                implies out[i] == '-' by {
                if i < r.len() {
                    assert(out[i] == r[i]);
                }
            }
        }
    }
}

/// A name of that shape is its own normal form.
proof fn lemma_join_fixed(r: Seq<char>)
    requires
        joined_shape(r),
    ensures
        join_name_runs(r) == r,
    decreases r.len(),
{
    if r.len() > 0 {
        let d = r.drop_last();
        assert(joined_shape(d)) by {
            assert forall|i: int| 0 <= i < d.len() && is_name_separator(#[trigger] d[i]) implies d[i]
                == '-' by {
                assert(d[i] == r[i]);
            }
            assert forall|i: int|
                0 <= i < d.len() - 1 && is_name_separator(#[trigger] d[i]) implies !is_name_separator(
                d[i + 1],
            ) by {
                assert(d[i] == r[i] && d[i + 1] == r[i + 1]);
            }
        }
        lemma_join_fixed(d);
        let c = r.last();
        assert(c == r[r.len() - 1]);
        if r.len() >= 2 {
            assert(is_name_separator(r[r.len() - 2]) ==> !is_name_separator(r[r.len() - 1]));
        }
        assert(d.push(c) =~= r);
    }
}

/// Normalizing a normalized name changes nothing, and a normalized name has
/// `-` as its only separator, never two in a row.
pub proof fn law_join_name_runs_idempotent(s: Seq<char>)
    ensures
        join_name_runs(join_name_runs(s)) == join_name_runs(s),
        forall|i: int|
            0 <= i < join_name_runs(s).len() ==> #[trigger] join_name_runs(s)[i] != '_'
                && join_name_runs(s)[i] != '.',
        forall|i: int|
            0 <= i < join_name_runs(s).len() - 1 && #[trigger] join_name_runs(s)[i] == '-'
                ==> join_name_runs(s)[i + 1] != '-',
{
    lemma_join_shape(s);
    lemma_join_fixed(join_name_runs(s));
    let r = join_name_runs(s);
    assert forall|i: int| 0 <= i < r.len() implies #[trigger] r[i] != '_' && r[i] != '.' by {
        if is_name_separator(r[i]) {
        }
    }
}

/// A version completion offers at most twenty releases, none of them yanked.
pub proof fn law_version_completions_shape(vs: Seq<(Seq<char>, bool)>, prefix: Seq<char>)
    ensures
        spec_version_completions(vs, prefix).len() <= 20,
        forall|i: int|
            0 <= i < spec_version_completions(vs, prefix).len() ==> !(#[trigger] spec_version_completions(
                vs,
                prefix,
            )[i]).1,
{
    let clean = completion_prefix(prefix);
    let f1 = completion_filter(Some(clean));
    let f0 = completion_filter(None);
    let m1 = vs.filter(f1);
    let m0 = vs.filter(f0);
    vs.filter_lemma(f1);
    vs.filter_lemma(f0);
    let r = spec_version_completions(vs, prefix);
    assert forall|i: int| 0 <= i < r.len() implies !(#[trigger] r[i]).1 by {
        if m1.len() > 0 {
            assert(r[i] == m1[i]);
            assert(f1(m1[i]));
        } else {
            assert(r[i] == m0[i]);
            assert(f0(m0[i]));
        }
    }
}

} // verus!

verus! {

/// The releases that are not yanked, in their order (the version list that
/// the PyPI registry hands out).
pub fn without_yanked(versions: Vec<PypiVersion>) -> (r: Vec<PypiVersion>)
    ensures
        versions_view(r@) == versions_view(versions@).filter(|v: (Seq<char>, bool)| !v.1),
{
    let ghost keep = |v: (Seq<char>, bool)| !v.1;
    let ghost e = versions_view(versions@);
    let mut r: Vec<PypiVersion> = Vec::new();
    let mut i: usize = 0;
    while i < versions.len()
        invariant
            i <= versions@.len(),
            e == versions_view(versions@),
            keep == (|v: (Seq<char>, bool)| !v.1),
            versions_view(r@) == e.take(i as int).filter(keep),
        decreases versions@.len() - i,
    {
        proof {
            assert(e.take(i + 1) =~= e.take(i as int).push(e[i as int]));
            lemma_filter_push(e.take(i as int), keep, e[i as int]);
        }
        if !versions[i].yanked {
            let v = versions[i].clone();
            let ghost before = r@;
            r.push(v);
            assert(versions_view(r@) =~= versions_view(before).push(e[i as int]));
        }
        i = i + 1;
    }
    proof {
        assert(e.take(i as int) =~= e);
    }
    r
}

/// The version of the newest stable release (the first of `versions`,
/// which come newest first, that is neither yanked nor a pre-release).
pub fn latest_stable(versions: &Vec<PypiVersion>) -> (r: Option<String>)
    ensures
        match r {
            Some(v) => exists|i: int|
                0 <= i < versions@.len() && !versions@[i].yanked && !spec_is_prerelease(
                    versions@[i].version@,
                ) && v@ == versions@[i].version@ && forall|j: int|
                    0 <= j < i ==> versions@[j].yanked || spec_is_prerelease(#[trigger] versions@[j].version@),
            None => forall|i: int|
                0 <= i < versions@.len() ==> versions@[i].yanked || spec_is_prerelease(
                    #[trigger] versions@[i].version@,
                ),
        },
{
    let mut i: usize = 0;
    while i < versions.len()
        invariant
            i <= versions@.len(),
            forall|j: int|
                0 <= j < i ==> versions@[j].yanked || spec_is_prerelease(#[trigger] versions@[j].version@),
        decreases versions@.len() - i,
    {
        if !versions[i].yanked && !versions[i].is_prerelease() {
            return Some(versions[i].version.clone());
        }
        i = i + 1;
    }
    None
}

} // verus!

verus! {

/// The ecosystem-independent view of a Python dependency: it comes from the
/// registry when its source is PyPI.
pub fn to_dependency(d: &PypiDependency) -> (r: crate::types::Dependency)
    ensures
        r.name@ == d.name@,
        r.name_range == d.name_range,
        r.version_range == d.version_range,
        match d.version_req {
            Some(v) => r.version_req is Some && r.version_req->0@ == v@,
            None => r.version_req is None,
        },
        r.is_registry == (d.source is PyPI),
{
    crate::types::Dependency {
        name: d.name.clone(),
        name_range: d.name_range,
        version_req: match &d.version_req {
            Some(v) => Some(v.clone()),
            None => None,
        },
        version_range: d.version_range,
        is_registry: match d.source {
            PypiDependencySource::PyPI => true,
            _ => false,
        },
    }
}

} // verus!
