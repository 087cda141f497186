//! `package-lock.json` (versions 2 and 3): the resolved version, source and
//! dependencies of each installed package, and when a lock file is stale.

use vstd::prelude::*;
use crate::text::{chars_of, contains, starts_with, occurs_at, first_index_of, find_char, last_occurrence, rfind, string_of_range, range_starts_with, range_contains, str_eq, push_char};
use crate::json::{JsonValue, json_from_str, parse_json_str, member, get_member, decode_opt_string, decode_opt_bool, decode_string_map_keys, opt_string, opt_bool, string_map_keys, copy_string};
use crate::strmap::{StringMap, entries_map, distinct_keys, lemma_entries_map, lemma_entries_map_update, lemma_distinct_push};

verus! {

/// Where a locked package comes from.
#[derive(Debug)]
pub enum ResolvedSource {
    Registry { url: String, checksum: String },
    Git { url: String, rev: String },
    Path { path: String },
}

/// A source as the contracts see it: a tag (0 registry, 1 git, 2 path) and
/// its two texts (url and checksum, url and revision, path and nothing).
pub open spec fn source_view(s: ResolvedSource) -> (int, Seq<char>, Seq<char>) {
    match s {
        ResolvedSource::Registry { url, checksum } => (0, url@, checksum@),
        ResolvedSource::Git { url, rev } => (1, url@, rev@),
        ResolvedSource::Path { path } => (2, path@, seq![]),
    }
}

/// One entry of the `packages` object.
#[derive(Debug)]
pub struct PackageEntry {
    pub version: Option<String>,
    /// Where the package was downloaded from
    pub resolved: Option<String>,
    /// Integrity hash (`sha512-...`)
    pub integrity: Option<String>,
    /// True for local packages
    pub link: Option<bool>,
    /// The names of the package's own dependencies
    pub dependencies: Vec<String>,
}

pub open spec fn opt_view(o: Option<String>) -> Option<Seq<char>> {
    match o {
        Some(s) => Some(s@),
        None => None,
    }
}

/// An entry as the contracts see it.
#[verifier::ext_equal]
pub struct LockEntry {
    pub version: Option<Seq<char>>,
    pub resolved: Option<Seq<char>>,
    pub integrity: Option<Seq<char>>,
    pub link: Option<bool>,
    pub dependencies: Seq<Seq<char>>,
}

pub open spec fn entry_view(e: PackageEntry) -> LockEntry {
    LockEntry {
        version: opt_view(e.version),
        resolved: opt_view(e.resolved),
        integrity: opt_view(e.integrity),
        link: e.link,
        dependencies: e.dependencies@.map_values(|s: String| s@),
    }
}

/// The package name of a key of `packages`: what follows the last
/// `node_modules/`, or the whole key where there is none.
pub open spec fn spec_package_name(key: Seq<char>) -> Seq<char> {
    if contains(key, "node_modules/"@) {
        key.skip(last_occurrence(key, "node_modules/"@) + 13)
    } else {
        key
    }
}

/// The package name of a key of `packages` (`node_modules/@babel/core`
/// names `@babel/core`).
pub fn extract_package_name(key: &str) -> (r: String)
    ensures
        r@ == spec_package_name(key@),
{
    let k = chars_of(key);
    let pat = chars_of("node_modules/");
    proof {
        reveal_strlit("node_modules/");
        assert(pat@.len() == 13);
    }
    let n = k.len();
    match rfind(&k, &pat) {
        Some(i) => string_of_range(&k, i + 13, n),
        None => key.to_string(),
    }
}

/// A resolved URL that points at a git repository.
pub open spec fn is_git_url(u: Seq<char>) -> bool {
    starts_with(u, "git+"@) || starts_with(u, "git://"@) || (contains(u, "github.com"@) && (
    contains(u, ".git"@) || contains(u, "/tarball/"@)))
}

/// The repository URL and revision of a git URL: split at the first `#`,
/// else at the last `/tarball/`, else no revision; a leading `git+` is
/// dropped from the URL.
pub open spec fn spec_git_parts(url: Seq<char>) -> (Seq<char>, Seq<char>) {
    let k = first_index_of(url, '#');
    let (base, rev) = if k < url.len() {
        (url.take(k), url.skip(k + 1))
    } else if contains(url, "/tarball/"@) {
        let t = last_occurrence(url, "/tarball/"@);
        (url.take(t), url.skip(t + 9))
    } else {
        (url, seq![])
    };
    let clean = if starts_with(base, "git+"@) {
        base.skip(4)
    } else {
        base
    };
    (clean, rev)
}

/// A git source for the URL.
pub fn parse_git_source(url: &str) -> (r: ResolvedSource)
    ensures
        source_view(r) == (1int, spec_git_parts(url@).0, spec_git_parts(url@).1),
{
    let u = chars_of(url);
    let k = find_char(&u, '#');
    let tarball = chars_of("/tarball/");
    proof {
        reveal_strlit("/tarball/");
        reveal_strlit("git+");
        assert(tarball@.len() == 9);
    }
    let (base, rev) = if k < u.len() {
        (string_of_range(&u, 0, k), string_of_range(&u, k + 1, u.len()))
    } else {
        match rfind(&u, &tarball) {
            Some(t) => (string_of_range(&u, 0, t), string_of_range(&u, t + 9, u.len())),
            None => (url.to_string(), String::new()),
        }
    };
    proof {
        if k >= u@.len() && !contains(u@, "/tarball/"@) {
            assert(base@ == u@);
        }
        assert(rev@ == spec_git_parts(url@).1);
    }
    let b = chars_of(base.as_str());
    let gp = chars_of("git+");
    let clean = if range_starts_with(&b, 0, b.len(), &gp) {
        string_of_range(&b, 4, b.len())
    } else {
        base
    };
    proof {
        assert(b@.subrange(0, b@.len() as int) =~= b@);
    }
    ResolvedSource::Git { url: clean, rev }
}

/// The source an entry describes: a path for a link or where nothing was
/// resolved; git for a git URL; the registry otherwise, with the integrity
/// hash as checksum (empty where there is none).
pub open spec fn spec_npm_source(e: LockEntry) -> (int, Seq<char>, Seq<char>) {
    if e.link == Some(true) {
        (2, seq![], seq![])
    } else {
        match e.resolved {
            Some(u) => if is_git_url(u) {
                (1, spec_git_parts(u).0, spec_git_parts(u).1)
            } else {
                match e.integrity {
                    Some(i) => (0, u, i),
                    None => (0, u, seq![]),
                }
            },
            None => (2, seq![], seq![]),
        }
    }
}

fn has_text(s: &Vec<char>, p: &str) -> (b: bool)
    ensures
        b == contains(s@, p@),
{
    let pc = chars_of(p);
    let r = range_contains(s, 0, s.len(), &pc);
    assert(s@.subrange(0, s@.len() as int) =~= s@);
    r
}

fn begins_with(s: &Vec<char>, p: &str) -> (b: bool)
    ensures
        b == starts_with(s@, p@),
{
    let pc = chars_of(p);
    let r = range_starts_with(s, 0, s.len(), &pc);
    assert(s@.subrange(0, s@.len() as int) =~= s@);
    r
}

/// The source an entry describes (see `spec_npm_source`).
pub fn parse_npm_source(entry: &PackageEntry) -> (r: ResolvedSource)
    ensures
        source_view(r) == spec_npm_source(entry_view(*entry)),
{
    if entry.link == Some(true) {
        return ResolvedSource::Path { path: String::new() };
    }
    match &entry.resolved {
        Some(resolved_url) => {
            let u = chars_of(resolved_url.as_str());
            let git = begins_with(&u, "git+") || begins_with(&u, "git://") || (has_text(
                &u,
                "github.com",
            ) && (has_text(&u, ".git") || has_text(&u, "/tarball/")));
            if git {
                return parse_git_source(resolved_url.as_str());
            }
            match &entry.integrity {
                Some(integrity) => ResolvedSource::Registry {
                    url: copy_string(resolved_url),
                    checksum: copy_string(integrity),
                },
                None => ResolvedSource::Registry {
                    url: copy_string(resolved_url),
                    checksum: String::new(),
                },
            }
        },
        None => ResolvedSource::Path { path: String::new() },
    }
}

/// A package that the lock file pins.
#[derive(Debug)]
pub struct ResolvedPackage {
    pub name: String,
    pub version: String,
    pub source: ResolvedSource,
    pub dependencies: Vec<String>,
}

/// A pinned package as the contracts see it.
#[verifier::ext_equal]
pub struct PackageSpec {
    pub version: Seq<char>,
    pub source: (int, Seq<char>, Seq<char>),
    pub dependencies: Seq<Seq<char>>,
}

pub open spec fn package_view(p: ResolvedPackage) -> (Seq<char>, PackageSpec) {
    (
        p.name@,
        PackageSpec {
            version: p.version@,
            source: source_view(p.source),
            dependencies: p.dependencies@.map_values(|s: String| s@),
        },
    )
}

pub open spec fn packages_view(ps: Seq<ResolvedPackage>) -> Seq<(Seq<char>, PackageSpec)> {
    ps.map_values(|p: ResolvedPackage| package_view(p))
}

/// The packages of a lock file, by name.
#[derive(Debug)]
pub struct ResolvedPackages {
    packages: Vec<ResolvedPackage>,
}

impl View for ResolvedPackages {
    type V = Map<Seq<char>, PackageSpec>;

    closed spec fn view(&self) -> Map<Seq<char>, PackageSpec> {
        entries_map(packages_view(self.packages@))
    }
}

impl ResolvedPackages {
    /// No name occurs twice.
    pub closed spec fn wf(&self) -> bool {
        distinct_keys(packages_view(self.packages@))
    }

    pub fn new() -> (r: ResolvedPackages)
        ensures
            r.wf(),
            r@ == Map::<Seq<char>, PackageSpec>::empty(),
    {
        let r = ResolvedPackages { packages: Vec::new() };
        assert(packages_view(r.packages@) =~= Seq::<(Seq<char>, PackageSpec)>::empty());
        r
    }

    fn find(&self, name: &str) -> (r: Option<usize>)
        requires
            self.wf(),
        ensures
            match r {
                Some(i) => i < self.packages@.len() && self.packages@[i as int].name@ == name@
                    && self@.dom().contains(name@) && self@[name@] == package_view(
                    self.packages@[i as int],
                ).1,
                None => !self@.dom().contains(name@),
            },
    {
        let ghost e = packages_view(self.packages@);
        proof {
            lemma_entries_map(e);
        }
        let mut i: usize = 0;
        while i < self.packages.len()
            invariant
                i <= self.packages@.len(),
                e == packages_view(self.packages@),
                distinct_keys(e),
                forall|j: int| 0 <= j < i ==> self.packages@[j].name@ != name@,
            decreases self.packages@.len() - i,
        {
            if str_eq(self.packages[i].name.as_str(), name) {
                proof {
                    lemma_entries_map(e);
                    assert(e[i as int].0 == name@);
                    assert(entries_map(e)[e[i as int].0] == e[i as int].1);
                }
                return Some(i);
            }
            i = i + 1;
        }
        proof {
            lemma_entries_map(e);
            if self@.dom().contains(name@) {
                let j = choose|j: int| 0 <= j < e.len() && e[j].0 == name@;
                assert(self.packages@[j].name@ == name@);
            }
        }
        None
    }

    /// Records a package, replacing one of the same name.
    pub fn insert(&mut self, pkg: ResolvedPackage)
        requires
            old(self).wf(),
        ensures
            final(self).wf(),
            final(self)@ == old(self)@.insert(package_view(pkg).0, package_view(pkg).1),
    {
        let ghost pv = package_view(pkg);
        match self.find(pkg.name.as_str()) {
            Some(i) => {
                self.packages.set(i, pkg);
                proof {
                    let e = packages_view(old(self).packages@);
                    assert(packages_view(self.packages@) =~= e.update(i as int, (e[i as int].0, pv.1)));
                    lemma_entries_map_update(e, i as int, pv.1);
                    assert(e[i as int].0 == pv.0);
                }
            },
            None => {
                self.packages.push(pkg);
                proof {
                    let e = packages_view(old(self).packages@);
                    assert(packages_view(self.packages@) =~= e.push(pv));
                    assert(e.push(pv).drop_last() =~= e);
                    lemma_distinct_push(e, pv);
                }
            },
        }
    }

    /// The package of that name.
    pub fn get(&self, name: &str) -> (r: Option<&ResolvedPackage>)
        requires
            self.wf(),
        ensures
            match r {
                Some(p) => self@.dom().contains(name@) && package_view(*p) == (name@, self@[name@]),
                None => !self@.dom().contains(name@),
            },
    {
        match self.find(name) {
            Some(i) => Some(&self.packages[i]),
            None => None,
        }
    }

    /// The version of the package of that name.
    pub fn get_version(&self, name: &str) -> (r: Option<&str>)
        requires
            self.wf(),
        ensures
            match r {
                Some(v) => self@.dom().contains(name@) && v@ == self@[name@].version,
                None => !self@.dom().contains(name@),
            },
    {
        match self.find(name) {
            Some(i) => Some(self.packages[i].version.as_str()),
            None => None,
        }
    }

    /// The number of packages.
    pub fn len(&self) -> (r: usize)
        requires
            self.wf(),
        ensures
            r == self@.dom().len(),
    {
        proof {
            lemma_entries_map(packages_view(self.packages@));
        }
        self.packages.len()
    }

    pub fn is_empty(&self) -> (r: bool)
        requires
            self.wf(),
        ensures
            r == (self@.dom().len() == 0),
    {
        self.len() == 0
    }

    /// The version of every package, by name.
    pub fn versions(&self) -> (r: StringMap)
        requires
            self.wf(),
        ensures
            r.wf(),
            r@ == self@.map_values(|p: PackageSpec| p.version),
    {
        let mut r = StringMap::new();
        let mut i: usize = 0;
        while i < self.packages.len()
            invariant
                i <= self.packages@.len(),
                r.wf(),
                r@ == entries_map(packages_view(self.packages@.take(i as int))).map_values(
                    |p: PackageSpec| p.version,
                ),
            decreases self.packages@.len() - i,
        {
            let p = &self.packages[i];
            let ghost before = entries_map(packages_view(self.packages@.take(i as int)));
            r.insert(p.name.clone(), p.version.clone());
            proof {
                let t = packages_view(self.packages@.take(i + 1));
                assert(t.drop_last() =~= packages_view(self.packages@.take(i as int)));
                assert(t.last() == package_view(*p));
                assert(before.insert(p.name@, package_view(*p).1).map_values(
                    |q: PackageSpec| q.version,
                ) =~= before.map_values(|q: PackageSpec| q.version).insert(p.name@, p.version@));
            }
            i = i + 1;
        }
        proof {
            assert(self.packages@.take(self.packages@.len() as int) =~= self.packages@);
        }
        r
    }
}

/// What one entry of `packages` decodes to: from an object, its fields by
/// name; from an array of four or five values, its fields in order (the
/// dependencies may be left out); anything else is an error.
pub open spec fn decode_entry(v: JsonValue) -> Option<LockEntry> {
    let (ver, res, integ, link, deps) = match v {
        JsonValue::Object(m) => (
            decode_opt_string(member(m@, "version"@)),
            decode_opt_string(member(m@, "resolved"@)),
            decode_opt_string(member(m@, "integrity"@)),
            decode_opt_bool(member(m@, "link"@)),
            decode_string_map_keys(member(m@, "dependencies"@)),
        ),
        JsonValue::Array(items) => if 4 <= items@.len() <= 5 {
            (
                decode_opt_string(Some(items@[0])),
                decode_opt_string(Some(items@[1])),
                decode_opt_string(Some(items@[2])),
                decode_opt_bool(Some(items@[3])),
                if items@.len() == 5 {
                    decode_string_map_keys(Some(items@[4]))
                } else {
                    Some(seq![])
                },
            )
        } else {
            (None, None, None, None, None)
        },
        _ => (None, None, None, None, None),
    };
    match (ver, res, integ, link, deps) {
        (Some(ver), Some(res), Some(integ), Some(link), Some(deps)) => Some(
            LockEntry { version: ver, resolved: res, integrity: integ, link, dependencies: deps },
        ),
        _ => None,
    }
}

/// What the members of `packages` decode to, in order.
pub open spec fn decode_packages(m: Seq<(String, JsonValue)>) -> Option<Seq<(Seq<char>, LockEntry)>>
    decreases m.len(),
{
    if m.len() == 0 {
        Some(seq![])
    } else {
        match (decode_packages(m.drop_last()), decode_entry(m.last().1)) {
            (Some(p), Some(e)) => Some(p.push((m.last().0@, e))),
            _ => None,
        }
    }
}

/// What a whole lock file decodes to: the entries of its `packages` object
/// (none where it has no such member); an error where the document is not an
/// object (or an array of at most one value) or an entry does not decode.
pub open spec fn decode_lock(root: JsonValue) -> Option<Seq<(Seq<char>, LockEntry)>> {
    let packages = match root {
        JsonValue::Object(m) => match member(m@, "packages"@) {
            None => Some(None),
            Some(p) => Some(Some(p)),
        },
        JsonValue::Array(items) => if items@.len() == 0 {
            Some(None)
        } else if items@.len() == 1 {
            Some(Some(items@[0]))
        } else {
            None
        },
        _ => None,
    };
    match packages {
        Some(None) => Some(seq![]),
        Some(Some(JsonValue::Object(pm))) => decode_packages(pm@),
        _ => None,
    }
}

/// The packages a decoded lock file pins: every entry but the root (empty
/// key) that has a version, by package name, a later entry for a name
/// replacing an earlier one.
pub open spec fn lock_packages(entries: Seq<(Seq<char>, LockEntry)>) -> Map<Seq<char>, PackageSpec>
    decreases entries.len(),
{
    if entries.len() == 0 {
        Map::empty()
    } else {
        let m = lock_packages(entries.drop_last());
        let (key, e) = entries.last();
        if key.len() == 0 || e.version is None {
            m
        } else {
            m.insert(
                spec_package_name(key),
                PackageSpec {
                    version: e.version->0,
                    source: spec_npm_source(e),
                    dependencies: e.dependencies,
                },
            )
        }
    }
}

/// Decodes one entry of `packages`.
pub fn decode_package_entry(v: &JsonValue) -> (r: Option<PackageEntry>)
    ensures
        match decode_entry(*v) {
            Some(e) => r is Some && entry_view(r->0) == e,
            None => r is None,
        },
{
    proof {
        reveal_strlit("version");
        reveal_strlit("resolved");
        reveal_strlit("integrity");
        reveal_strlit("link");
        reveal_strlit("dependencies");
    }
    let (ver, res, integ, link, deps) = match v {
        JsonValue::Object(m) => (
            opt_string(get_member(m, "version")),
            opt_string(get_member(m, "resolved")),
            opt_string(get_member(m, "integrity")),
            opt_bool(get_member(m, "link")),
            string_map_keys(get_member(m, "dependencies")),
        ),
        JsonValue::Array(items) => {
            if items.len() < 4 || items.len() > 5 {
                return None;
            }
            (
                opt_string(Some(&items[0])),
                opt_string(Some(&items[1])),
                opt_string(Some(&items[2])),
                opt_bool(Some(&items[3])),
                if items.len() == 5 {
                    string_map_keys(Some(&items[4]))
                } else {
                    string_map_keys(None)
                },
            )
        },
        _ => return None,
    };
    match (ver, res, integ, link, deps) {
        (Ok(version), Ok(resolved), Ok(integrity), Ok(link), Ok(dependencies)) => {
            let e = PackageEntry { version, resolved, integrity, link, dependencies };
            assert(entry_view(e) =~= decode_entry(*v)->0);
            Some(e)
        },
        _ => None,
    }
}

/// Errors of reading `package-lock.json`.
#[derive(Debug)]
pub enum LockfileError {
    /// The text does not parse as the file: `source` is the JSON parser's
    /// error where the text is not JSON, none where it is JSON of another
    /// shape.
    ParseError { file_type: String, source: Option<serde_json::Error> },
}

/// The error for a lock file whose JSON does not have its shape.
fn shape_error() -> (r: LockfileError)
    ensures
        r matches LockfileError::ParseError { file_type, source: None } && file_type@
            == "package-lock.json"@,
{
    LockfileError::ParseError { file_type: "package-lock.json".to_string(), source: None }
}

/// The parser of `package-lock.json`.
pub struct NpmLockParser;

impl NpmLockParser {
    /// The packages that the text of `package-lock.json` pins (see
    /// `parse_lockfile_json`); a parse error where the text is not JSON or
    /// not of the file's shape.
    pub fn parse_lockfile_content(&self, content: &str) -> (r: Result<ResolvedPackages, LockfileError>)
        ensures
            match json_from_str(content@) {
                None => r matches Err(LockfileError::ParseError { file_type, source: Some(_) })
                    && file_type@ == "package-lock.json"@,
                Some(root) => match decode_lock(root) {
                    Some(entries) => r is Ok && r->Ok_0.wf() && r->Ok_0@ == lock_packages(entries),
                    None => r matches Err(LockfileError::ParseError { file_type, source: None })
                        && file_type@ == "package-lock.json"@,
                },
            },
    {
        match parse_json_str(content) {
            Err(e) => Err(
                LockfileError::ParseError {
                    file_type: "package-lock.json".to_string(),
                    source: Some(e),
                },
            ),
            Ok(root) => self.parse_lockfile_json(&root),
        }
    }

    /// The packages that a parsed `package-lock.json` pins (see
    /// `lock_packages`); an error where its contents do not decode.
    pub fn parse_lockfile_json(&self, root: &JsonValue) -> (r: Result<ResolvedPackages, LockfileError>)
        ensures
            match decode_lock(*root) {
                Some(entries) => r is Ok && r->Ok_0.wf() && r->Ok_0@ == lock_packages(entries),
                None => r matches Err(LockfileError::ParseError { file_type, source: None })
                    && file_type@ == "package-lock.json"@,
            },
    {
        proof {
            reveal_strlit("packages");
        }
        let pm = match root {
            JsonValue::Object(m) => match get_member(m, "packages") {
                None => return Ok(ResolvedPackages::new()),
                Some(JsonValue::Object(pm)) => pm,
                Some(_) => return Err(shape_error()),
            },
            JsonValue::Array(items) => {
                if items.len() == 0 {
                    return Ok(ResolvedPackages::new());
                } else if items.len() == 1 {
                    match &items[0] {
                        JsonValue::Object(pm) => pm,
                        _ => return Err(shape_error()),
                    }
                } else {
                    return Err(shape_error());
                }
            },
            _ => return Err(shape_error()),
        };
        assert(decode_lock(*root) == decode_packages(pm@));
        // every entry must decode before any package is recorded
        let mut entries: Vec<(String, PackageEntry)> = Vec::new();
        let mut i: usize = 0;
        while i < pm.len()
            invariant
                i <= pm@.len(),
                entries@.len() == i,
                decode_lock(*root) == decode_packages(pm@),
                decode_packages(pm@.take(i as int)) is Some,
                decode_packages(pm@.take(i as int))->0 == entries@.map_values(
                    |x: (String, PackageEntry)| (x.0@, entry_view(x.1)),
                ),
            decreases pm@.len() - i,
        {
            assert(pm@.take(i + 1).drop_last() =~= pm@.take(i as int));
            match decode_package_entry(&pm[i].1) {
                Some(e) => {
                    entries.push((copy_string(&pm[i].0), e));
                    assert(entries@.map_values(|x: (String, PackageEntry)| (x.0@, entry_view(x.1)))
                        =~= decode_packages(pm@.take(i as int))->0.push(
                        (pm@[i as int].0@, entry_view(e)),
                    ));
                },
                None => {
                    proof {
                        assert(pm@.take(i + 1).last() == pm@[i as int]);
                        lemma_decode_prefix(pm@, i as int + 1);
                    }
                    return Err(shape_error());
                },
            }
            i = i + 1;
        }
        assert(pm@.take(pm@.len() as int) =~= pm@);
        let ghost decoded = entries@.map_values(|x: (String, PackageEntry)| (x.0@, entry_view(x.1)));
        let mut packages = ResolvedPackages::new();
        let mut j: usize = 0;
        while j < entries.len()
            invariant
                j <= entries@.len(),
                decoded == entries@.map_values(|x: (String, PackageEntry)| (x.0@, entry_view(x.1))),
                packages.wf(),
                packages@ == lock_packages(decoded.take(j as int)),
            decreases entries@.len() - j,
        {
            let (key, entry) = (&entries[j].0, &entries[j].1);
            assert(decoded.take(j + 1).drop_last() =~= decoded.take(j as int));
            if key.as_str().is_empty() {
                assert(decoded[j as int].0.len() == 0);
            } else {
                match &entry.version {
                    None => {},
                    Some(version) => {
                        let name = extract_package_name(key.as_str());
                        let source = parse_npm_source(entry);
                        let mut deps: Vec<String> = Vec::new();
                        let mut k: usize = 0;
                        while k < entry.dependencies.len()
                            invariant
                                k <= entry.dependencies@.len(),
                                deps@.map_values(|s: String| s@) == entry.dependencies@.take(
                                    k as int,
                                ).map_values(|s: String| s@),
                            decreases entry.dependencies@.len() - k,
                        {
                            deps.push(copy_string(&entry.dependencies[k]));
                            assert(entry.dependencies@.take(k + 1).map_values(|s: String| s@)
                                =~= entry.dependencies@.take(k as int).map_values(
                                |s: String| s@,
                            ).push(entry.dependencies@[k as int]@));
                            assert(deps@.map_values(|s: String| s@) =~= deps@.drop_last().map_values(
                                |s: String| s@,
                            ).push(entry.dependencies@[k as int]@));
                            k = k + 1;
                        }
                        assert(entry.dependencies@.take(entry.dependencies@.len() as int)
                            =~= entry.dependencies@);
                        let pkg = ResolvedPackage {
                            name,
                            version: copy_string(version),
                            source,
                            dependencies: deps,
                        };
                        proof {
                            assert(decoded[j as int] == (key@, entry_view(*entry)));
                            assert(package_view(pkg).1 =~= PackageSpec {
                                version: version@,
                                source: spec_npm_source(entry_view(*entry)),
                                dependencies: entry_view(*entry).dependencies,
                            });
                        }
                        packages.insert(pkg);
                    },
                }
            }
            j = j + 1;
        }
        assert(decoded.take(decoded.len() as int) =~= decoded);
        Ok(packages)
    }

    /// A lock file is stale when it can no longer be read or was modified
    /// after the time given (times in any one unit since a fixed epoch).
    pub fn is_lockfile_stale(&self, current_mtime: Option<u64>, last_modified: u64) -> (r: bool)
        ensures
            r == match current_mtime {
                Some(t) => t > last_modified,
                None => true,
            },
    {
        match current_mtime {
            Some(t) => t > last_modified,
            None => true,
        }
    }
}

/// Once a prefix of the members fails to decode, the whole does.
proof fn lemma_decode_prefix(m: Seq<(String, JsonValue)>, k: int)
    requires
        0 <= k <= m.len(),
        decode_packages(m.take(k)) is None,
    ensures
        decode_packages(m) is None,
    decreases m.len() - k,
{
    if k < m.len() {
        assert(m.take(k + 1).drop_last() =~= m.take(k));
        lemma_decode_prefix(m, k + 1);
    } else {
        assert(m.take(k) =~= m);
    }
}

} // verus!

verus! {

/// How many directories above a manifest's own a workspace lock file is
/// looked for.
pub const MAX_WORKSPACE_DEPTH: usize = 5;

/// The position of the last `/` in `p`, or -1 where it has none.
pub open spec fn last_slash(p: Seq<char>) -> int
    decreases p.len(),
{
    if p.len() == 0 {
        -1
    } else if p.last() == '/' {
        p.len() - 1
    } else {
        last_slash(p.drop_last())
    }
}

/// The directory that holds the file or directory at `p`, for a
/// `/`-separated path without a trailing `/`: what precedes its last `/`,
/// the root `/` where that is the first character and more follows; none
/// for a path without `/` and for the root itself.
pub open spec fn parent_dir(p: Seq<char>) -> Option<Seq<char>> {
    let k = last_slash(p);
    if k < 0 {
        None
    } else if k == 0 {
        if p.len() > 1 {
            Some(seq!['/'])
        } else {
            None
        }
    } else {
        Some(p.take(k))
    }
}

/// The path of `name` in the directory `dir`.
pub open spec fn in_dir(dir: Seq<char>, name: Seq<char>) -> Seq<char> {
    if dir.len() > 0 && dir.last() == '/' {
        dir + name
    } else {
        dir.push('/') + name
    }
}

/// `name` in `dir`, then in each of up to `n` directories above it, nearest
/// first.
pub open spec fn candidates_from(dir: Seq<char>, name: Seq<char>, n: nat) -> Seq<Seq<char>>
    decreases n,
{
    let here = seq![in_dir(dir, name)];
    if n == 0 {
        here
    } else {
        match parent_dir(dir) {
            Some(p) => here + candidates_from(p, name, (n - 1) as nat),
            None => here,
        }
    }
}

/// Where the lock file `name` of the manifest at `manifest` may lie, in the
/// order to try: beside the manifest, then in each of up to
/// `MAX_WORKSPACE_DEPTH` directories above it (a workspace root).
pub open spec fn lockfile_candidates(manifest: Seq<char>, name: Seq<char>) -> Seq<Seq<char>> {
    match parent_dir(manifest) {
        Some(d) => candidates_from(d, name, MAX_WORKSPACE_DEPTH as nat),
        None => seq![],
    }
}

/// The length of the prefix of `cs[..len]` that is its parent directory.
fn parent_len(cs: &Vec<char>, len: usize) -> (r: Option<usize>)
    requires
        len <= cs@.len(),
    ensures
        match parent_dir(cs@.take(len as int)) {
            Some(p) => r matches Some(l) && 0 < l < len && p == cs@.take(l as int),
            None => r is None,
        },
{
    let mut i: usize = len;
    loop
        invariant
            i <= len <= cs@.len(),
            last_slash(cs@.take(len as int)) == last_slash(cs@.take(i as int)),
        decreases i,
    {
        if i == 0 {
            assert(cs@.take(0) =~= Seq::<char>::empty());
            return None;
        }
        if cs[i - 1] == '/' {
            assert(cs@.take(i as int).last() == cs@[i - 1]);
            if i == 1 {
                if len > 1 {
                    assert(cs@.take(1) =~= seq!['/']);
                    return Some(1);
                }
                return None;
            }
            assert(cs@.take(len as int).take(i - 1) =~= cs@.take(i - 1));
            return Some(i - 1);
        }
        assert(cs@.take(i as int).drop_last() =~= cs@.take(i - 1));
        i = i - 1;
    }
}

/// The path of `name` in the directory `cs[..len]`.
fn in_dir_of(cs: &Vec<char>, len: usize, name: &str) -> (r: String)
    requires
        len <= cs@.len(),
    ensures
        r@ == in_dir(cs@.take(len as int), name@),
{
    let mut r = string_of_range(cs, 0, len);
    assert(cs@.subrange(0, len as int) =~= cs@.take(len as int));
    if len == 0 || cs[len - 1] != '/' {
        push_char(&mut r, '/');
    }
    r.append(name);
    r
}

/// Where the lock file `lockfile_name` of the manifest at `manifest_path`
/// may lie, in the order to try: beside the manifest, then in each of up to
/// `MAX_WORKSPACE_DEPTH` directories above it.
pub fn candidate_lockfile_paths(manifest_path: &str, lockfile_name: &str) -> (r: Vec<String>)
    ensures
        r@.map_values(|s: String| s@) == lockfile_candidates(manifest_path@, lockfile_name@),
{
    let cs = chars_of(manifest_path);
    let mut r: Vec<String> = Vec::new();
    assert(cs@.take(cs@.len() as int) =~= cs@);
    let mut cur = match parent_len(&cs, cs.len()) {
        Some(l) => l,
        None => {
            assert(r@.map_values(|s: String| s@) =~= Seq::<Seq<char>>::empty());
            return r;
        },
    };
    let mut depth: usize = 0;
    loop
        invariant
            0 < cur <= cs@.len(),
            depth <= MAX_WORKSPACE_DEPTH,
            cs@ == manifest_path@,
            r@.map_values(|s: String| s@) + candidates_from(
                cs@.take(cur as int),
                lockfile_name@,
                (MAX_WORKSPACE_DEPTH - depth) as nat,
            ) == lockfile_candidates(manifest_path@, lockfile_name@),
        decreases MAX_WORKSPACE_DEPTH - depth,
    {
        let ghost before = r@.map_values(|s: String| s@);
        let ghost dir = cs@.take(cur as int);
        let ghost rest = candidates_from(dir, lockfile_name@, (MAX_WORKSPACE_DEPTH - depth) as nat);
        let path = in_dir_of(&cs, cur, lockfile_name);
        r.push(path);
        assert(r@.map_values(|s: String| s@) =~= before.push(in_dir(dir, lockfile_name@)));
        if depth == MAX_WORKSPACE_DEPTH {
            assert(rest =~= seq![in_dir(dir, lockfile_name@)]);
            assert(before + rest =~= before.push(in_dir(dir, lockfile_name@)));
            return r;
        }
        match parent_len(&cs, cur) {
            Some(l) => {
                assert(cs@.take(cur as int).take(l as int) =~= cs@.take(l as int));
                assert(before + rest =~= before.push(in_dir(dir, lockfile_name@)) + candidates_from(
                    cs@.take(l as int),
                    lockfile_name@,
                    (MAX_WORKSPACE_DEPTH - depth - 1) as nat,
                ));
                cur = l;
                depth = depth + 1;
            },
            None => {
                assert(before + rest =~= before.push(in_dir(dir, lockfile_name@)));
                return r;
            },
        }
    }
}

} // verus!
