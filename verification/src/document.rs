//! The state kept for each open document, and the decisions taken when a
//! document is opened or changed: which cached versions survive, which
//! dependencies need a registry fetch, and how the loading state moves.
//!
//! Times are milliseconds of a monotonic clock, supplied by the caller.

use vstd::prelude::*;
use crate::ecosystem::{spec_ecosystem_id, ecosystem_of_id, Ecosystem};
use crate::strmap::StringMap;
use crate::keymap::KeyMap;
use crate::handlers::ColdStartLimiter;
use crate::text::str_eq;
use crate::types::{Dependency, TextRange};
use crate::npm::{NpmDependency, NpmVersion};
use crate::pypi::{PypiDependency, PypiDependencySource, PypiVersion};

verus! {

/// Whether registry data for a document is being fetched.
#[derive(Debug, Clone, Copy, PartialEq, Eq, Structural)]
pub enum LoadingState {
    Idle,
    Loading,
    Loaded,
    Failed,
}

impl Default for LoadingState {
    fn default() -> (r: Self)
        ensures
            r == LoadingState::Idle,
    {
        LoadingState::Idle
    }
}

/// The names of a list of strings, by their characters.
pub open spec fn str_views(v: Seq<String>) -> Seq<Seq<char>> {
    v.map_values(|s: String| s@)
}

/// The names of a list of dependencies.
pub open spec fn dep_names(d: Seq<Dependency>) -> Seq<Seq<char>> {
    d.map_values(|x: Dependency| x.name@)
}

/// The names of `a` that do not occur in `b`, each once, in the order of
/// their first occurrence in `a`.
pub open spec fn names_missing(a: Seq<Seq<char>>, b: Seq<Seq<char>>) -> Seq<Seq<char>>
    decreases a.len(),
{
    if a.len() == 0 {
        seq![]
    } else {
        let m = names_missing(a.drop_last(), b);
        if b.contains(a.last()) || m.contains(a.last()) {
            m
        } else {
            m.push(a.last())
        }
    }
}

/// A parsed dependency of one of the ecosystems whose manifests the library
/// parses.
#[derive(Debug)]
pub enum UnifiedDependency {
    Npm(NpmDependency),
    Pypi(PypiDependency),
}

/// Whether a Python dependency comes from the PyPI registry.
pub open spec fn from_pypi(s: PypiDependencySource) -> bool {
    s is PyPI
}

impl UnifiedDependency {
    pub open spec fn spec_name(&self) -> Seq<char> {
        match self {
            UnifiedDependency::Npm(d) => d.name@,
            UnifiedDependency::Pypi(d) => d.name@,
        }
    }

    pub open spec fn spec_name_range(&self) -> TextRange {
        match self {
            UnifiedDependency::Npm(d) => d.name_range,
            UnifiedDependency::Pypi(d) => d.name_range,
        }
    }

    pub open spec fn spec_version_req(&self) -> Option<Seq<char>> {
        match self {
            UnifiedDependency::Npm(d) => match d.version_req {
                Some(v) => Some(v@),
                None => None,
            },
            UnifiedDependency::Pypi(d) => match d.version_req {
                Some(v) => Some(v@),
                None => None,
            },
        }
    }

    pub open spec fn spec_version_range(&self) -> Option<TextRange> {
        match self {
            UnifiedDependency::Npm(d) => d.version_range,
            UnifiedDependency::Pypi(d) => d.version_range,
        }
    }

    /// npm dependencies all come from the registry; Python ones where their
    /// source is PyPI.
    pub open spec fn spec_is_registry(&self) -> bool {
        match self {
            UnifiedDependency::Npm(_) => true,
            UnifiedDependency::Pypi(d) => from_pypi(d.source),
        }
    }

    pub open spec fn unified_view(&self) -> (
        Seq<char>,
        TextRange,
        Option<Seq<char>>,
        Option<TextRange>,
        bool,
    ) {
        (
            self.spec_name(),
            self.spec_name_range(),
            self.spec_version_req(),
            self.spec_version_range(),
            self.spec_is_registry(),
        )
    }

    pub fn name(&self) -> (r: &str)
        ensures
            r@ == self.spec_name(),
    {
        match self {
            UnifiedDependency::Npm(d) => d.name.as_str(),
            UnifiedDependency::Pypi(d) => d.name.as_str(),
        }
    }

    pub fn name_range(&self) -> (r: TextRange)
        ensures
            r == self.spec_name_range(),
    {
        match self {
            UnifiedDependency::Npm(d) => d.name_range,
            UnifiedDependency::Pypi(d) => d.name_range,
        }
    }

    pub fn version_req(&self) -> (r: Option<&str>)
        ensures
            match r {
                Some(v) => self.spec_version_req() == Some(v@),
                None => self.spec_version_req() is None,
            },
    {
        let v = match self {
            UnifiedDependency::Npm(d) => &d.version_req,
            UnifiedDependency::Pypi(d) => &d.version_req,
        };
        match v {
            Some(x) => Some(x.as_str()),
            None => None,
        }
    }

    pub fn version_range(&self) -> (r: Option<TextRange>)
        ensures
            r == self.spec_version_range(),
    {
        match self {
            UnifiedDependency::Npm(d) => d.version_range,
            UnifiedDependency::Pypi(d) => d.version_range,
        }
    }

    pub fn is_registry(&self) -> (r: bool)
        ensures
            r == self.spec_is_registry(),
    {
        match self {
            UnifiedDependency::Npm(_) => true,
            UnifiedDependency::Pypi(d) => match d.source {
                PypiDependencySource::PyPI => true,
                _ => false,
            },
        }
    }
}

impl Clone for UnifiedDependency {
    fn clone(&self) -> (r: UnifiedDependency)
        ensures
            r.unified_view() == self.unified_view(),
    {
        match self {
            UnifiedDependency::Npm(d) => UnifiedDependency::Npm(d.clone()),
            UnifiedDependency::Pypi(d) => UnifiedDependency::Pypi(d.clone()),
        }
    }
}

/// A published version of a package of one of the supported ecosystems.
#[derive(Debug)]
pub enum UnifiedVersion {
    Npm(NpmVersion),
    Pypi(PypiVersion),
}

impl UnifiedVersion {
    pub open spec fn spec_version(&self) -> Seq<char> {
        match self {
            UnifiedVersion::Npm(v) => v.version@,
            UnifiedVersion::Pypi(v) => v.version@,
        }
    }

    /// A deprecated npm version counts as yanked.
    pub open spec fn spec_is_yanked(&self) -> bool {
        match self {
            UnifiedVersion::Npm(v) => v.deprecated,
            UnifiedVersion::Pypi(v) => v.yanked,
        }
    }

    pub fn version_string(&self) -> (r: &str)
        ensures
            r@ == self.spec_version(),
    {
        match self {
            UnifiedVersion::Npm(v) => v.version.as_str(),
            UnifiedVersion::Pypi(v) => v.version.as_str(),
        }
    }

    pub fn is_yanked(&self) -> (r: bool)
        ensures
            r == self.spec_is_yanked(),
    {
        match self {
            UnifiedVersion::Npm(v) => v.deprecated,
            UnifiedVersion::Pypi(v) => v.yanked,
        }
    }
}

impl Clone for UnifiedVersion {
    fn clone(&self) -> (r: UnifiedVersion)
        ensures
            r.spec_version() == self.spec_version(),
            r.spec_is_yanked() == self.spec_is_yanked(),
    {
        match self {
            UnifiedVersion::Npm(v) => UnifiedVersion::Npm(v.clone()),
            UnifiedVersion::Pypi(v) => UnifiedVersion::Pypi(v.clone()),
        }
    }
}

/// State for a single open document.
#[derive(Debug)]
pub struct DocumentState {
    /// Package ecosystem.
    pub ecosystem: Ecosystem,
    /// Ecosystem identifier (`"cargo"`, `"npm"`, `"pypi"`, `"go"`).
    pub ecosystem_id: String,
    /// Document content.
    pub content: String,
    /// Dependencies given with the document (older constructor).
    pub dependencies: Vec<UnifiedDependency>,
    /// Dependencies of the last successful parse; `None` when the content did
    /// not parse.
    pub parse_result: Option<Vec<Dependency>>,
    /// Registry versions given with the document (older constructor), by
    /// package name.
    pub versions: KeyMap<UnifiedVersion>,
    /// Latest versions known from the registry, by package name.
    pub cached_versions: StringMap,
    /// Versions resolved by the lock file, by package name.
    pub resolved_versions: StringMap,
    /// When the content was last parsed.
    pub parsed_at: u64,
    pub loading_state: LoadingState,
    /// When the current loading operation started.
    pub loading_started_at: Option<u64>,
}

impl DocumentState {
    pub open spec fn wf(&self) -> bool {
        self.cached_versions.wf() && self.resolved_versions.wf() && self.versions.wf()
    }

    pub open spec fn spec_parse_result(&self) -> Option<Seq<Dependency>> {
        match self.parse_result {
            Some(v) => Some(v@),
            None => None,
        }
    }

    /// Names of the parsed dependencies; none when the content did not parse.
    pub open spec fn spec_dependency_names(&self) -> Seq<Seq<char>> {
        match self.spec_parse_result() {
            Some(d) => dep_names(d),
            None => seq![],
        }
    }

    /// The loading timer runs exactly while the document is loading.
    pub open spec fn loading_timer_consistent(&self) -> bool {
        self.loading_started_at.is_some() <==> self.loading_state == LoadingState::Loading
    }

    /// A fresh state: no versions, idle.
    pub open spec fn is_fresh(&self, content: Seq<char>, now: u64) -> bool {
        &&& self.wf()
        &&& self.content@ == content
        &&& self.versions@ == Map::<Seq<char>, UnifiedVersion>::empty()
        &&& self.cached_versions@ == Map::<Seq<char>, Seq<char>>::empty()
        &&& self.resolved_versions@ == Map::<Seq<char>, Seq<char>>::empty()
        &&& self.parsed_at == now
        &&& self.loading_state == LoadingState::Idle
        &&& self.loading_started_at.is_none()
    }

    /// Creates a state from an ecosystem and its dependencies.
    pub fn new(
        ecosystem: Ecosystem,
        content: String,
        dependencies: Vec<UnifiedDependency>,
        now: u64,
    ) -> (r: DocumentState)
        ensures
            r.is_fresh(content@, now),
            r.loading_timer_consistent(),
            r.ecosystem == ecosystem,
            r.ecosystem_id@ == spec_ecosystem_id(ecosystem),
            r.dependencies@ == dependencies@,
            r.spec_parse_result().is_none(),
    {
        DocumentState {
            ecosystem,
            ecosystem_id: ecosystem.id().to_owned(),
            content,
            dependencies,
            parse_result: None,
            versions: KeyMap::new(),
            cached_versions: StringMap::new(),
            resolved_versions: StringMap::new(),
            parsed_at: now,
            loading_state: LoadingState::Idle,
            loading_started_at: None,
        }
    }

    /// Creates a state for content that parsed into `parse_result`.
    pub fn new_from_parse_result(
        ecosystem_id: &str,
        content: String,
        parse_result: Vec<Dependency>,
        now: u64,
    ) -> (r: DocumentState)
        ensures
            r.is_fresh(content@, now),
            r.loading_timer_consistent(),
            r.ecosystem == ecosystem_of_id(ecosystem_id@),
            r.ecosystem_id@ == ecosystem_id@,
            r.dependencies@.len() == 0,
            r.spec_parse_result() == Some(parse_result@),
    {
        DocumentState {
            ecosystem: Ecosystem::from_id(ecosystem_id),
            ecosystem_id: ecosystem_id.to_owned(),
            content,
            dependencies: Vec::new(),
            parse_result: Some(parse_result),
            versions: KeyMap::new(),
            cached_versions: StringMap::new(),
            resolved_versions: StringMap::new(),
            parsed_at: now,
            loading_state: LoadingState::Idle,
            loading_started_at: None,
        }
    }

    /// Creates a state for content that did not parse; it is kept for the
    /// text-based features.
    pub fn new_without_parse_result(ecosystem_id: &str, content: String, now: u64) -> (r:
        DocumentState)
        ensures
            r.is_fresh(content@, now),
            r.loading_timer_consistent(),
            r.ecosystem == ecosystem_of_id(ecosystem_id@),
            r.ecosystem_id@ == ecosystem_id@,
            r.dependencies@.len() == 0,
            r.spec_parse_result().is_none(),
    {
        DocumentState {
            ecosystem: Ecosystem::from_id(ecosystem_id),
            ecosystem_id: ecosystem_id.to_owned(),
            content,
            dependencies: Vec::new(),
            parse_result: None,
            versions: KeyMap::new(),
            cached_versions: StringMap::new(),
            resolved_versions: StringMap::new(),
            parsed_at: now,
            loading_state: LoadingState::Idle,
            loading_started_at: None,
        }
    }

    /// The dependencies of the last successful parse.
    pub fn parse_result(&self) -> (r: Option<&Vec<Dependency>>)
        ensures
            match r {
                Some(v) => self.spec_parse_result() == Some(v@),
                None => self.spec_parse_result().is_none(),
            },
    {
        match &self.parse_result {
            Some(v) => Some(v),
            None => None,
        }
    }

    /// Names of the parsed dependencies, in order.
    pub fn dependency_names(&self) -> (r: Vec<String>)
        ensures
            str_views(r@) == self.spec_dependency_names(),
    {
        let mut r: Vec<String> = Vec::new();
        match &self.parse_result {
            Some(deps) => {
                let mut i: usize = 0;
                while i < deps.len()
                    invariant
                        i <= deps@.len(),
                        r@.len() == i,
                        self.parse_result == Some(*deps),
                        str_views(r@) == dep_names(deps@).take(i as int),
                    decreases deps@.len() - i,
                {
                    let ghost before = r@;
                    r.push(deps[i].name.clone());
                    proof {
                        assert forall|j: int| 0 <= j < i + 1 implies #[trigger] str_views(r@)[j]
                            == dep_names(deps@).take(i + 1)[j] by {
                            if j < i {
                                assert(r@[j] == before[j]);
                                assert(str_views(before)[j] == dep_names(deps@).take(i as int)[j]);
                            }
                        }
                        assert(str_views(r@) =~= dep_names(deps@).take(i + 1));
                    }
                    i = i + 1;
                }
                proof {
                    assert(dep_names(deps@).take(i as int) =~= dep_names(deps@));
                }
                r
            },
            None => {
                proof {
                    assert(str_views(r@) =~= Seq::<Seq<char>>::empty());
                }
                r
            },
        }
    }

    /// Replaces the registry versions given with the document.
    pub fn update_versions(&mut self, versions: KeyMap<UnifiedVersion>)
        requires
            old(self).wf(),
            versions.wf(),
        ensures
            final(self).wf(),
            final(self).versions@ == versions@,
            final(self).cached_versions@ == old(self).cached_versions@,
            final(self).resolved_versions@ == old(self).resolved_versions@,
            final(self).loading_state == old(self).loading_state,
            final(self).loading_started_at == old(self).loading_started_at,
            final(self).spec_parse_result() == old(self).spec_parse_result(),
            final(self).content == old(self).content,
            final(self).ecosystem_id == old(self).ecosystem_id,
            final(self).parsed_at == old(self).parsed_at,
    {
        self.versions = versions;
    }

    /// Replaces the registry versions.
    pub fn update_cached_versions(&mut self, versions: StringMap)
        requires
            old(self).wf(),
            versions.wf(),
        ensures
            final(self).wf(),
            final(self).cached_versions@ == versions@,
            final(self).resolved_versions@ == old(self).resolved_versions@,
            final(self).loading_state == old(self).loading_state,
            final(self).loading_started_at == old(self).loading_started_at,
            final(self).spec_parse_result() == old(self).spec_parse_result(),
            final(self).content == old(self).content,
            final(self).ecosystem_id == old(self).ecosystem_id,
            final(self).parsed_at == old(self).parsed_at,
    {
        self.cached_versions = versions;
    }

    /// Replaces the lock-file versions.
    pub fn update_resolved_versions(&mut self, versions: StringMap)
        requires
            old(self).wf(),
            versions.wf(),
        ensures
            final(self).wf(),
            final(self).resolved_versions@ == versions@,
            final(self).cached_versions@ == old(self).cached_versions@,
            final(self).loading_state == old(self).loading_state,
            final(self).loading_started_at == old(self).loading_started_at,
            final(self).spec_parse_result() == old(self).spec_parse_result(),
            final(self).content == old(self).content,
            final(self).ecosystem_id == old(self).ecosystem_id,
            final(self).parsed_at == old(self).parsed_at,
    {
        self.resolved_versions = versions;
    }

    /// Marks the document as loading registry data; calling it again
    /// restarts the timer.
    pub fn set_loading(&mut self, now: u64)
        ensures
            final(self).loading_state == LoadingState::Loading,
            final(self).loading_started_at == Some(now),
            final(self).loading_timer_consistent(),
            final(self).versions == old(self).versions,
            final(self).cached_versions == old(self).cached_versions,
            final(self).resolved_versions == old(self).resolved_versions,
            final(self).spec_parse_result() == old(self).spec_parse_result(),
            final(self).content == old(self).content,
            final(self).ecosystem == old(self).ecosystem,
            final(self).ecosystem_id == old(self).ecosystem_id,
            final(self).dependencies == old(self).dependencies,
            final(self).parse_result == old(self).parse_result,
            final(self).parsed_at == old(self).parsed_at,
    {
        self.loading_state = LoadingState::Loading;
        self.loading_started_at = Some(now);
    }

    /// Marks the document as loaded with fresh data.
    pub fn set_loaded(&mut self)
        ensures
            final(self).loading_state == LoadingState::Loaded,
            final(self).loading_started_at.is_none(),
            final(self).loading_timer_consistent(),
            final(self).versions == old(self).versions,
            final(self).cached_versions == old(self).cached_versions,
            final(self).resolved_versions == old(self).resolved_versions,
            final(self).spec_parse_result() == old(self).spec_parse_result(),
            final(self).content == old(self).content,
            final(self).ecosystem == old(self).ecosystem,
            final(self).ecosystem_id == old(self).ecosystem_id,
            final(self).dependencies == old(self).dependencies,
            final(self).parse_result == old(self).parse_result,
            final(self).parsed_at == old(self).parsed_at,
    {
        self.loading_state = LoadingState::Loaded;
        self.loading_started_at = None;
    }

    /// Marks the document as failed to load; cached data is kept.
    pub fn set_failed(&mut self)
        ensures
            final(self).loading_state == LoadingState::Failed,
            final(self).loading_started_at.is_none(),
            final(self).loading_timer_consistent(),
            final(self).versions == old(self).versions,
            final(self).cached_versions == old(self).cached_versions,
            final(self).resolved_versions == old(self).resolved_versions,
            final(self).spec_parse_result() == old(self).spec_parse_result(),
            final(self).content == old(self).content,
            final(self).ecosystem == old(self).ecosystem,
            final(self).ecosystem_id == old(self).ecosystem_id,
            final(self).dependencies == old(self).dependencies,
            final(self).parse_result == old(self).parse_result,
            final(self).parsed_at == old(self).parsed_at,
    {
        self.loading_state = LoadingState::Failed;
        self.loading_started_at = None;
    }

    /// How long the current loading operation has run (zero when the clock
    /// reads earlier than its start); `None` when not loading.
    pub fn loading_duration(&self, now: u64) -> (r: Option<u64>)
        ensures
            match self.loading_started_at {
                Some(start) => r == Some(if now >= start {
                    (now - start) as u64
                } else {
                    0u64
                }),
                None => r.is_none(),
            },
    {
        match self.loading_started_at {
            Some(start) => Some(
                if now >= start {
                    now - start
                } else {
                    0
                },
            ),
            None => None,
        }
    }
}

/// `r` is a copy of `d`: the same state, without the parse result.
pub open spec fn is_copy_of(r: DocumentState, d: DocumentState) -> bool {
    &&& r.ecosystem == d.ecosystem
    &&& r.ecosystem_id@ == d.ecosystem_id@
    &&& r.content@ == d.content@
    &&& r.spec_parse_result().is_none()
    &&& r.dependencies@.len() == d.dependencies@.len()
    &&& forall|i: int|
        0 <= i < d.dependencies@.len() ==> (#[trigger] r.dependencies@[i]).unified_view()
            == d.dependencies@[i].unified_view()
    &&& r.versions@.dom() == d.versions@.dom()
    &&& r.versions.wf() == d.versions.wf()
    &&& d.versions.wf() ==> forall|k: Seq<char>| #[trigger]
        r.versions@.dom().contains(k) ==> r.versions@[k].spec_version()
            == d.versions@[k].spec_version() && r.versions@[k].spec_is_yanked()
            == d.versions@[k].spec_is_yanked()
    &&& r.cached_versions@ == d.cached_versions@
    &&& r.cached_versions.wf() == d.cached_versions.wf()
    &&& r.resolved_versions@ == d.resolved_versions@
    &&& r.resolved_versions.wf() == d.resolved_versions.wf()
    &&& r.parsed_at == d.parsed_at
    &&& r.loading_state == d.loading_state
    &&& r.loading_started_at == d.loading_started_at
}

impl Clone for DocumentState {
    /// A copy of the state without its parse result, which is not carried
    /// over.
    fn clone(&self) -> (r: DocumentState)
        ensures
            is_copy_of(r, *self),
    {
        let mut deps: Vec<UnifiedDependency> = Vec::new();
        let mut i: usize = 0;
        while i < self.dependencies.len()
            invariant
                i <= self.dependencies@.len(),
                deps@.len() == i,
                forall|j: int|
                    0 <= j < i ==> (#[trigger] deps@[j]).unified_view()
                        == self.dependencies@[j].unified_view(),
            decreases self.dependencies@.len() - i,
        {
            deps.push(self.dependencies[i].clone());
            i = i + 1;
        }
        let versions = self.versions.clone();
        proof {
            if self.versions.wf() {
                assert forall|k: Seq<char>| #[trigger] versions@.dom().contains(k) implies versions@[
                    k].spec_version() == self.versions@[k].spec_version()
                    && versions@[k].spec_is_yanked() == self.versions@[k].spec_is_yanked() by {
                    assert(cloned::<UnifiedVersion>(self.versions@[k], versions@[k]));
                }
            }
        }
        DocumentState {
            ecosystem: self.ecosystem,
            ecosystem_id: self.ecosystem_id.clone(),
            content: self.content.clone(),
            dependencies: deps,
            parse_result: None,
            versions,
            cached_versions: self.cached_versions.clone(),
            resolved_versions: self.resolved_versions.clone(),
            parsed_at: self.parsed_at,
            loading_state: self.loading_state,
            loading_started_at: self.loading_started_at,
        }
    }
}

/// The documents the server holds open, by URI, and the limiter of the
/// cold starts that load a document the client never opened.
#[derive(Debug)]
pub struct ServerState {
    pub documents: KeyMap<DocumentState>,
    pub cold_start_limiter: ColdStartLimiter,
}

impl ServerState {
    pub open spec fn wf(&self) -> bool {
        self.documents.wf() && self.cold_start_limiter.wf()
    }

    /// No documents; one cold start per document every 100 ms.
    pub fn new() -> (r: ServerState)
        ensures
            r.wf(),
            r.documents@ == Map::<Seq<char>, DocumentState>::empty(),
            r.cold_start_limiter@ == Map::<Seq<char>, u64>::empty(),
            r.cold_start_limiter.spec_min_interval() == 100,
    {
        ServerState { documents: KeyMap::new(), cold_start_limiter: ColdStartLimiter::new(100) }
    }

    /// The state of the document at `uri`.
    pub fn get_document(&self, uri: &str) -> (r: Option<&DocumentState>)
        requires
            self.wf(),
        ensures
            match r {
                Some(d) => self.documents@.dom().contains(uri@) && *d == self.documents@[uri@],
                None => !self.documents@.dom().contains(uri@),
            },
    {
        self.documents.get(uri)
    }

    /// A copy of the state of the document at `uri`.
    pub fn get_document_clone(&self, uri: &str) -> (r: Option<DocumentState>)
        requires
            self.wf(),
        ensures
            match r {
                Some(d) => self.documents@.dom().contains(uri@) && is_copy_of(
                    d,
                    self.documents@[uri@],
                ),
                None => !self.documents@.dom().contains(uri@),
            },
    {
        match self.documents.get(uri) {
            Some(d) => Some(d.clone()),
            None => None,
        }
    }

    /// Stores the state of the document at `uri`, replacing any earlier one.
    pub fn update_document(&mut self, uri: String, state: DocumentState)
        requires
            old(self).wf(),
        ensures
            final(self).wf(),
            final(self).documents@ == old(self).documents@.insert(uri@, state),
            final(self).cold_start_limiter == old(self).cold_start_limiter,
    {
        self.documents.insert(uri, state);
    }

    /// Takes the document at `uri` out of the server's keeping.
    pub fn remove_document(&mut self, uri: &str) -> (r: Option<(String, DocumentState)>)
        requires
            old(self).wf(),
        ensures
            final(self).wf(),
            final(self).documents@ == old(self).documents@.remove(uri@),
            final(self).cold_start_limiter == old(self).cold_start_limiter,
            match r {
                Some(kv) => kv.0@ == uri@ && old(self).documents@.dom().contains(uri@) && kv.1
                    == old(self).documents@[uri@],
                None => !old(self).documents@.dom().contains(uri@),
            },
    {
        self.documents.remove(uri)
    }

    /// How many documents the server holds.
    pub fn document_count(&self) -> (r: usize)
        requires
            self.wf(),
        ensures
            r == self.documents@.dom().len(),
    {
        self.documents.len()
    }
}

impl Default for ServerState {
    fn default() -> (r: ServerState)
        ensures
            r.wf(),
            r.documents@ == Map::<Seq<char>, DocumentState>::empty(),
            r.cold_start_limiter@ == Map::<Seq<char>, u64>::empty(),
            r.cold_start_limiter.spec_min_interval() == 100,
    {
        ServerState::new()
    }
}

/// `name` is one of `names`.
pub fn contains_name(names: &Vec<String>, name: &str) -> (r: bool)
    ensures
        r == str_views(names@).contains(name@),
{
    let mut i: usize = 0;
    while i < names.len()
        invariant
            i <= names@.len(),
            forall|j: int| 0 <= j < i ==> names@[j]@ != name@,
        decreases names@.len() - i,
    {
        if str_eq(names[i].as_str(), name) {
            assert(str_views(names@)[i as int] == name@);
            return true;
        }
        i = i + 1;
    }
    proof {
        if str_views(names@).contains(name@) {
            let j = choose|j: int| 0 <= j < str_views(names@).len() && str_views(names@)[j]
                == name@;
            assert(names@[j]@ == name@);
        }
    }
    false
}

/// The names of `a` that are not in `b`, each once, in order.
pub fn missing_names(a: &Vec<String>, b: &Vec<String>) -> (r: Vec<String>)
    ensures
        str_views(r@) == names_missing(str_views(a@), str_views(b@)),
{
    let mut r: Vec<String> = Vec::new();
    let mut i: usize = 0;
    while i < a.len()
        invariant
            i <= a@.len(),
            str_views(r@) == names_missing(str_views(a@).take(i as int), str_views(b@)),
        decreases a@.len() - i,
    {
        let ghost before = r@;
        proof {
            assert(str_views(a@).take(i + 1).drop_last() =~= str_views(a@).take(i as int));
            assert(str_views(a@).take(i + 1).last() == a@[i as int]@);
        }
        if !contains_name(b, a[i].as_str()) && !contains_name(&r, a[i].as_str()) {
            r.push(a[i].clone());
            proof {
                assert(str_views(r@) =~= str_views(before).push(a@[i as int]@));
            }
        }
        i = i + 1;
    }
    proof {
        assert(str_views(a@).take(i as int) =~= str_views(a@));
    }
    r
}

/// Which dependency names appeared and which disappeared between two
/// versions of a manifest.
#[derive(Debug)]
pub struct DependencyDiff {
    /// In the new names and not in the old ones.
    pub added: Vec<String>,
    /// In the old names and not in the new ones.
    pub removed: Vec<String>,
}

impl DependencyDiff {
    pub fn compute(old_deps: &Vec<String>, new_deps: &Vec<String>) -> (r: DependencyDiff)
        ensures
            str_views(r.added@) == names_missing(str_views(new_deps@), str_views(old_deps@)),
            str_views(r.removed@) == names_missing(str_views(old_deps@), str_views(new_deps@)),
    {
        DependencyDiff {
            added: missing_names(new_deps, old_deps),
            removed: missing_names(old_deps, new_deps),
        }
    }

    /// New dependencies need their versions fetched.
    pub fn needs_fetch(&self) -> (r: bool)
        ensures
            r == (self.added@.len() > 0),
    {
        self.added.len() > 0
    }
}

/// Carries the version caches of the previous state over to a new state.
pub fn preserve_cache(new_state: &mut DocumentState, old_state: &DocumentState)
    requires
        old(new_state).wf(),
        old_state.wf(),
    ensures
        final(new_state).wf(),
        final(new_state).cached_versions@ == old_state.cached_versions@,
        final(new_state).resolved_versions@ == old_state.resolved_versions@,
        final(new_state).spec_parse_result() == old(new_state).spec_parse_result(),
        final(new_state).content == old(new_state).content,
        final(new_state).loading_state == old(new_state).loading_state,
        final(new_state).loading_started_at == old(new_state).loading_started_at,
        final(new_state).ecosystem_id == old(new_state).ecosystem_id,
        final(new_state).parsed_at == old(new_state).parsed_at,
{
    new_state.update_cached_versions(old_state.cached_versions.clone_map());
    new_state.update_resolved_versions(old_state.resolved_versions.clone_map());
}

/// `m` without the keys in `names`.
pub open spec fn map_without(m: Map<Seq<char>, Seq<char>>, names: Seq<Seq<char>>) -> Map<
    Seq<char>,
    Seq<char>,
> {
    m.restrict(m.dom().filter(|k: Seq<char>| !names.contains(k)))
}

/// Removes every name in `names` from both version caches of `doc`.
pub fn prune_versions(doc: &mut DocumentState, names: &Vec<String>)
    requires
        old(doc).wf(),
    ensures
        final(doc).wf(),
        final(doc).cached_versions@ == map_without(old(doc).cached_versions@, str_views(names@)),
        final(doc).resolved_versions@ == map_without(
            old(doc).resolved_versions@,
            str_views(names@),
        ),
        final(doc).spec_parse_result() == old(doc).spec_parse_result(),
        final(doc).content == old(doc).content,
        final(doc).loading_state == old(doc).loading_state,
        final(doc).loading_started_at == old(doc).loading_started_at,
        final(doc).ecosystem_id == old(doc).ecosystem_id,
        final(doc).parsed_at == old(doc).parsed_at,
{
    let mut i: usize = 0;
    while i < names.len()
        invariant
            i <= names@.len(),
            doc.wf(),
            doc.cached_versions@ == map_without(
                old(doc).cached_versions@,
                str_views(names@).take(i as int),
            ),
            doc.resolved_versions@ == map_without(
                old(doc).resolved_versions@,
                str_views(names@).take(i as int),
            ),
            doc.spec_parse_result() == old(doc).spec_parse_result(),
            doc.content == old(doc).content,
            doc.loading_state == old(doc).loading_state,
            doc.loading_started_at == old(doc).loading_started_at,
            doc.ecosystem_id == old(doc).ecosystem_id,
            doc.parsed_at == old(doc).parsed_at,
        decreases names@.len() - i,
    {
        let ghost c0 = doc.cached_versions@;
        let ghost r0 = doc.resolved_versions@;
        doc.cached_versions.remove(names[i].as_str());
        doc.resolved_versions.remove(names[i].as_str());
        proof {
            let t0 = str_views(names@).take(i as int);
            let t1 = str_views(names@).take(i + 1);
            assert(t1 =~= t0.push(names@[i as int]@));
            assert forall|k: Seq<char>| t1.contains(k) <==> t0.contains(k) || k == names@[i as int]@ by {
                if t1.contains(k) {
                    let j = choose|j: int| 0 <= j < t1.len() && t1[j] == k;
                    if j < i {
                        assert(t0[j] == k);
                    }
                }
                if t0.contains(k) {
                    let j = choose|j: int| 0 <= j < t0.len() && t0[j] == k;
                    assert(t1[j] == k);
                }
                if k == names@[i as int]@ {
                    assert(t1[i as int] == k);
                }
            }
            assert(doc.cached_versions@ =~= map_without(old(doc).cached_versions@, t1));
            assert(doc.resolved_versions@ =~= map_without(old(doc).resolved_versions@, t1));
        }
        i = i + 1;
    }
    proof {
        assert(str_views(names@).take(i as int) =~= str_views(names@));
    }
}

/// The parsed dependencies carried by an optional parse result.
pub open spec fn opt_deps(p: Option<Vec<Dependency>>) -> Option<Seq<Dependency>> {
    match p {
        Some(v) => Some(v@),
        None => None,
    }
}

/// Dependency names of an optional previous state.
pub open spec fn previous_names(previous: Option<&DocumentState>) -> Seq<Seq<char>> {
    match previous {
        Some(p) => p.spec_dependency_names(),
        None => seq![],
    }
}

/// What a changed document becomes: the new content and parse result, the
/// caches of the previous state without the dependencies that disappeared,
/// and the dependencies that appeared (to be fetched). Content that does not
/// parse keeps the previous caches whole.
pub fn prepare_document_change(
    previous: Option<&DocumentState>,
    ecosystem_id: &str,
    content: String,
    parse_result: Option<Vec<Dependency>>,
    now: u64,
) -> (r: (DocumentState, Vec<String>))
    requires
        previous.is_some() ==> previous.unwrap().wf(),
    ensures
        r.0.wf(),
        r.0.content@ == content@,
        r.0.ecosystem_id@ == ecosystem_id@,
        r.0.loading_state == LoadingState::Idle,
        r.0.loading_started_at.is_none(),
        r.0.parsed_at == now,
        r.0.spec_parse_result() == opt_deps(parse_result),
        str_views(r.1@) == names_missing(r.0.spec_dependency_names(), previous_names(previous)),
        previous.is_some() && parse_result.is_some() ==> r.0.cached_versions@ == map_without(
            previous.unwrap().cached_versions@,
            names_missing(previous_names(previous), r.0.spec_dependency_names()),
        ),
        previous.is_some() && parse_result.is_some() ==> r.0.resolved_versions@ == map_without(
            previous.unwrap().resolved_versions@,
            names_missing(previous_names(previous), r.0.spec_dependency_names()),
        ),
        previous.is_some() && parse_result.is_none() ==> r.0.cached_versions@
            == previous.unwrap().cached_versions@,
        previous.is_some() && parse_result.is_none() ==> r.0.resolved_versions@
            == previous.unwrap().resolved_versions@,
        previous.is_none() ==> r.0.cached_versions@ == Map::<Seq<char>, Seq<char>>::empty(),
        previous.is_none() ==> r.0.resolved_versions@ == Map::<Seq<char>, Seq<char>>::empty(),
{
    let old_names = match previous {
        Some(p) => p.dependency_names(),
        None => Vec::new(),
    };
    let parsed = parse_result.is_some();
    let mut doc = match parse_result {
        Some(pr) => DocumentState::new_from_parse_result(ecosystem_id, content, pr, now),
        None => DocumentState::new_without_parse_result(ecosystem_id, content, now),
    };
    let new_names = doc.dependency_names();
    let diff = DependencyDiff::compute(&old_names, &new_names);
    proof {
        assert(str_views(old_names@) == match previous {
            Some(p) => p.spec_dependency_names(),
            None => seq![],
        }) by {
            if previous.is_none() {
                assert(str_views(old_names@) =~= Seq::<Seq<char>>::empty());
            }
        }
    }
    match previous {
        Some(p) => {
            preserve_cache(&mut doc, p);
        },
        None => {},
    }
    if parsed {
        prune_versions(&mut doc, &diff.removed);
    }
    proof {
        if previous.is_none() {
            assert(doc.cached_versions@ =~= Map::<Seq<char>, Seq<char>>::empty());
            assert(doc.resolved_versions@ =~= Map::<Seq<char>, Seq<char>>::empty());
        }
    }
    (doc, diff.added)
}

/// Lock-file versions found when a document is opened: they become both the
/// resolved versions and the first cached versions. An empty set changes
/// nothing.
pub fn apply_resolved_on_open(doc: &mut DocumentState, resolved: StringMap)
    requires
        old(doc).wf(),
        resolved.wf(),
    ensures
        final(doc).wf(),
        resolved@.dom().len() == 0 ==> final(doc).cached_versions@ == old(doc).cached_versions@
            && final(doc).resolved_versions@ == old(doc).resolved_versions@,
        resolved@.dom().len() > 0 ==> final(doc).cached_versions@ == resolved@
            && final(doc).resolved_versions@ == resolved@,
        final(doc).loading_state == old(doc).loading_state,
        final(doc).loading_started_at == old(doc).loading_started_at,
        final(doc).spec_parse_result() == old(doc).spec_parse_result(),
{
    if !resolved.is_empty() {
        doc.update_resolved_versions(resolved.clone_map());
        doc.update_cached_versions(resolved);
    }
}

/// Lock-file versions found after a change: they become the resolved
/// versions and are merged into the cache over what it held. An empty set
/// changes nothing.
pub fn apply_resolved_on_change(doc: &mut DocumentState, resolved: StringMap)
    requires
        old(doc).wf(),
        resolved.wf(),
    ensures
        final(doc).wf(),
        resolved@.dom().len() == 0 ==> final(doc).cached_versions@ == old(doc).cached_versions@
            && final(doc).resolved_versions@ == old(doc).resolved_versions@,
        resolved@.dom().len() > 0 ==> final(doc).cached_versions@
            == old(doc).cached_versions@.union_prefer_right(resolved@)
            && final(doc).resolved_versions@ == resolved@,
        final(doc).loading_state == old(doc).loading_state,
        final(doc).loading_started_at == old(doc).loading_started_at,
        final(doc).spec_parse_result() == old(doc).spec_parse_result(),
{
    if !resolved.is_empty() {
        doc.cached_versions.extend_from(&resolved);
        doc.update_resolved_versions(resolved);
    }
}

/// After the registry fetch for a newly opened document: the fetched
/// versions replace the cache, and the document is loaded when any version
/// came back, failed otherwise. Returns whether any came back.
pub fn finish_open_fetch(doc: &mut DocumentState, fetched: StringMap) -> (success: bool)
    requires
        old(doc).wf(),
        fetched.wf(),
    ensures
        final(doc).wf(),
        success == (fetched@.dom().len() > 0),
        final(doc).cached_versions@ == fetched@,
        final(doc).resolved_versions@ == old(doc).resolved_versions@,
        final(doc).loading_state == if success {
            LoadingState::Loaded
        } else {
            LoadingState::Failed
        },
        final(doc).loading_started_at.is_none(),
{
    let success = !fetched.is_empty();
    doc.update_cached_versions(fetched);
    if success {
        doc.set_loaded();
    } else {
        doc.set_failed();
    }
    success
}

/// After the registry fetch for the dependencies a change added: the
/// fetched versions are merged into the cache, and the document is loaded
/// when any version came back, failed otherwise. Returns whether any came
/// back.
pub fn finish_change_fetch(doc: &mut DocumentState, fetched: StringMap) -> (success: bool)
    requires
        old(doc).wf(),
        fetched.wf(),
    ensures
        final(doc).wf(),
        success == (fetched@.dom().len() > 0),
        final(doc).cached_versions@ == old(doc).cached_versions@.union_prefer_right(fetched@),
        final(doc).resolved_versions@ == old(doc).resolved_versions@,
        final(doc).loading_state == if success {
            LoadingState::Loaded
        } else {
            LoadingState::Failed
        },
        final(doc).loading_started_at.is_none(),
{
    let success = !fetched.is_empty();
    doc.cached_versions.extend_from(&fetched);
    if success {
        doc.set_loaded();
    } else {
        doc.set_failed();
    }
    success
}

/// The step of a newly opened document between the lock-file lookup and the
/// registry fetch: the lock-file versions are applied as on open; where the
/// content parsed, the document starts loading and the names of its
/// dependencies, in order, are what to fetch; where it did not, nothing is
/// fetched and the loading state stays as it was.
pub fn begin_open_fetch(doc: &mut DocumentState, resolved: StringMap, now: u64) -> (names: Option<
    Vec<String>,
>)
    requires
        old(doc).wf(),
        resolved.wf(),
    ensures
        final(doc).wf(),
        resolved@.dom().len() == 0 ==> final(doc).cached_versions@ == old(doc).cached_versions@
            && final(doc).resolved_versions@ == old(doc).resolved_versions@,
        resolved@.dom().len() > 0 ==> final(doc).cached_versions@ == resolved@
            && final(doc).resolved_versions@ == resolved@,
        final(doc).spec_parse_result() == old(doc).spec_parse_result(),
        match old(doc).spec_parse_result() {
            None => names is None && final(doc).loading_state == old(doc).loading_state
                && final(doc).loading_started_at == old(doc).loading_started_at,
            Some(_) => names matches Some(n) && str_views(n@) == old(
                doc,
            ).spec_dependency_names() && final(doc).loading_state == LoadingState::Loading
                && final(doc).loading_started_at == Some(now),
        },
{
    apply_resolved_on_open(doc, resolved);
    if doc.parse_result().is_none() {
        return None;
    }
    let names = doc.dependency_names();
    doc.set_loading(now);
    Some(names)
}

/// The step of a changed document between the lock-file lookup and the
/// registry fetch: the lock-file versions are applied as on change; where
/// the change added no dependency the document is loaded and nothing is
/// fetched (false), else it starts loading and the added names are fetched
/// (true).
pub fn begin_change_fetch(
    doc: &mut DocumentState,
    resolved: StringMap,
    added: &Vec<String>,
    now: u64,
) -> (fetch: bool)
    requires
        old(doc).wf(),
        resolved.wf(),
    ensures
        final(doc).wf(),
        resolved@.dom().len() == 0 ==> final(doc).cached_versions@ == old(doc).cached_versions@
            && final(doc).resolved_versions@ == old(doc).resolved_versions@,
        resolved@.dom().len() > 0 ==> final(doc).cached_versions@
            == old(doc).cached_versions@.union_prefer_right(resolved@)
            && final(doc).resolved_versions@ == resolved@,
        final(doc).spec_parse_result() == old(doc).spec_parse_result(),
        fetch == (added@.len() > 0),
        !fetch ==> final(doc).loading_state == LoadingState::Loaded
            && final(doc).loading_started_at.is_none(),
        fetch ==> final(doc).loading_state == LoadingState::Loading
            && final(doc).loading_started_at == Some(now),
{
    apply_resolved_on_change(doc, resolved);
    if added.len() == 0 {
        doc.set_loaded();
        false
    } else {
        doc.set_loading(now);
        true
    }
}

/// The fetch results by their characters.
pub open spec fn fetch_views(results: Seq<(String, Option<String>)>) -> Seq<
    (Seq<char>, Option<Seq<char>>),
> {
    results.map_values(
        |p: (String, Option<String>)|
            (
                p.0@,
                match p.1 {
                    Some(v) => Some(v@),
                    None => None,
                },
            ),
    )
}

/// The versions a round of fetches gives: each name with the version of
/// its last result that has one.
pub open spec fn fetched_versions(results: Seq<(Seq<char>, Option<Seq<char>>)>) -> Map<
    Seq<char>,
    Seq<char>,
>
    decreases results.len(),
{
    if results.len() == 0 {
        Map::empty()
    } else {
        let m = fetched_versions(results.drop_last());
        match results.last().1 {
            Some(v) => m.insert(results.last().0, v),
            None => m,
        }
    }
}

/// The versions that came back from a round of registry fetches: each name
/// with a version, a later result for a name winning.
pub fn collect_fetched(results: Vec<(String, Option<String>)>) -> (r: StringMap)
    ensures
        r.wf(),
        r@ == fetched_versions(fetch_views(results@)),
{
    let ghost e = fetch_views(results@);
    let mut r = StringMap::new();
    let mut i: usize = 0;
    while i < results.len()
        invariant
            i <= results@.len(),
            e == fetch_views(results@),
            r.wf(),
            r@ == fetched_versions(e.take(i as int)),
        decreases results@.len() - i,
    {
        proof {
            assert(e.take(i + 1).drop_last() =~= e.take(i as int));
            assert(e.take(i + 1).last() == e[i as int]);
        }
        match &results[i].1 {
            Some(v) => {
                r.insert(results[i].0.clone(), v.clone());
            },
            None => {},
        }
        i = i + 1;
    }
    proof {
        assert(e.take(i as int) =~= e);
    }
    r
}

} // verus!

verus! {

/// A name is missing from `b` exactly when it occurs in `a` and not in `b`,
/// and no name is listed twice.
pub proof fn lemma_names_missing(a: Seq<Seq<char>>, b: Seq<Seq<char>>)
    ensures
        forall|x: Seq<char>| #[trigger] names_missing(a, b).contains(x) <==> (a.contains(x) && !b.contains(x)),
        names_missing(a, b).no_duplicates(),
    decreases a.len(),
{
    if a.len() > 0 {
        let d = a.drop_last();
        lemma_names_missing(d, b);
        let m = names_missing(d, b);
        assert(a.last() == a[a.len() - 1]);
        assert forall|x: Seq<char>| #[trigger] names_missing(a, b).contains(x) <==> (a.contains(x)
            && !b.contains(x)) by {
            if a.contains(x) {
                let i = choose|i: int| 0 <= i < a.len() && a[i] == x;
                if i < a.len() - 1 {
                    assert(d[i] == x);
                }
            }
            if d.contains(x) {
                let i = choose|i: int| 0 <= i < d.len() && d[i] == x;
                assert(a[i] == x);
            }
            if !(b.contains(a.last()) || m.contains(a.last())) {
                assert(m.push(a.last())[m.len() as int] == a.last());
                if m.push(a.last()).contains(x) {
                    let i = choose|i: int| 0 <= i < m.push(a.last()).len() && m.push(a.last())[i] == x;
                    if i < m.len() {
                        assert(m[i] == x);
                    }
                }
                if m.contains(x) {
                    let i = choose|i: int| 0 <= i < m.len() && m[i] == x;
                    assert(m.push(a.last())[i] == x);
                }
            }
        }
        if !(b.contains(a.last()) || m.contains(a.last())) {
            let n = m.push(a.last());
            assert forall|i: int, j: int| 0 <= i < n.len() && 0 <= j < n.len() && i != j implies n[i]
                != n[j] by {
                if i < m.len() && j < m.len() {
                } else if i == m.len() {
                    assert(m[j] == n[j]);
                } else {
                    assert(m[i] == n[i]);
                }
            }
        }
    }
}

/// The names a change adds are those of the new manifest that the old one
/// lacked, the names it removes those of the old one that the new one lacks;
/// no name is both added and removed, and none is listed twice.
pub proof fn law_diff_partition(old_names: Seq<Seq<char>>, new_names: Seq<Seq<char>>)
    ensures
        forall|x: Seq<char>| #[trigger] names_missing(new_names, old_names).contains(x) <==> (
        new_names.contains(x) && !old_names.contains(x)),
        forall|x: Seq<char>| #[trigger] names_missing(old_names, new_names).contains(x) <==> (
        old_names.contains(x) && !new_names.contains(x)),
        forall|x: Seq<char>|
            !(#[trigger] names_missing(new_names, old_names).contains(x) && names_missing(
                old_names,
                new_names,
            ).contains(x)),
        names_missing(new_names, old_names).no_duplicates(),
        names_missing(old_names, new_names).no_duplicates(),
{
    lemma_names_missing(new_names, old_names);
    lemma_names_missing(old_names, new_names);
}

/// An unchanged list of names adds and removes nothing.
pub proof fn law_diff_unchanged(names: Seq<Seq<char>>)
    ensures
        names_missing(names, names) == Seq::<Seq<char>>::empty(),
{
    lemma_names_missing(names, names);
    let m = names_missing(names, names);
    if m.len() > 0 {
        assert(m.contains(m[0]));
    }
    assert(m =~= Seq::<Seq<char>>::empty());
}

/// Starting from no names, every new name is added, in order (names that
/// are listed twice are added once).
pub proof fn law_diff_from_nothing(names: Seq<Seq<char>>)
    requires
        names.no_duplicates(),
    ensures
        names_missing(names, Seq::<Seq<char>>::empty()) == names,
    decreases names.len(),
{
    if names.len() > 0 {
        let d = names.drop_last();
        assert(d.no_duplicates()) by {
            assert forall|i: int, j: int| 0 <= i < d.len() && 0 <= j < d.len() && i != j implies d[i]
                != d[j] by {
                assert(d[i] == names[i] && d[j] == names[j]);
            }
        }
        law_diff_from_nothing(d);
        assert(!d.contains(names.last())) by {
            if d.contains(names.last()) {
                let i = choose|i: int| 0 <= i < d.len() && d[i] == names.last();
                assert(names[i] == names[names.len() - 1]);
            }
        }
        assert(d.push(names.last()) =~= names);
    }
}

} // verus!
