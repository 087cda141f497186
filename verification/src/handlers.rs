//! What the request handlers decide, apart from the work they hand to the
//! editor, the registries and the file system: which dependency a hover is
//! about, how inlay hints are configured, when a document may be loaded from
//! disk on a cold start, which open manifests a lock-file change touches,
//! and what a package completion inserts.

use vstd::prelude::*;
use crate::types::{Position, spec_position_in_range, position_in_range, Dependency};
use crate::config::{InlayHintsConfig, LoadingIndicatorConfig};
use crate::strmap::{StringMap, entries_map, distinct_keys, lemma_entries_map, lemma_entries_map_update, lemma_distinct_push};
use crate::text::{str_eq, chars_of, push_char};
use crate::document::UnifiedDependency;
use crate::npm::{NpmDependency, NpmVersion};
use crate::urlenc::url_encoded;
use crate::numfmt::{decimal, u64_to_string};

verus! {

/// The position lies on the dependency's name or on its version.
pub open spec fn on_dependency(d: Dependency, position: Position) -> bool {
    spec_position_in_range(position, d.name_range) || match d.version_range {
        Some(r) => spec_position_in_range(position, r),
        None => false,
    }
}

/// What a hover shows: the first dependency under the cursor, where it comes
/// from the registry, with the version the lock file resolved for it.
pub fn hover_target(deps: &Vec<Dependency>, position: Position, resolved: &StringMap) -> (r: Option<
    (usize, Option<String>),
>)
    requires
        resolved.wf(),
    ensures
        match r {
            Some((i, v)) => {
                &&& i < deps@.len()
                &&& on_dependency(deps@[i as int], position)
                &&& deps@[i as int].is_registry
                &&& forall|j: int| 0 <= j < i ==> !on_dependency(#[trigger] deps@[j], position)
                &&& match v {
                    Some(s) => resolved@.dom().contains(deps@[i as int].name@) && s@
                        == resolved@[deps@[i as int].name@],
                    None => !resolved@.dom().contains(deps@[i as int].name@),
                }
            },
            None => forall|j: int|
                0 <= j < deps@.len() ==> !(on_dependency(#[trigger] deps@[j], position) && forall|
                    k: int,
                | 0 <= k < j ==> !on_dependency(#[trigger] deps@[k], position)) || !deps@[j].is_registry,
        },
{
    let mut i: usize = 0;
    while i < deps.len()
        invariant
            i <= deps@.len(),
            resolved.wf(),
            forall|j: int| 0 <= j < i ==> !on_dependency(#[trigger] deps@[j], position),
        decreases deps@.len() - i,
    {
        let d = &deps[i];
        let hit = position_in_range(position, d.name_range) || match d.version_range {
            Some(r) => position_in_range(position, r),
            None => false,
        };
        if hit {
            if !d.is_registry {
                return None;
            }
            let v = resolved.get(d.name.as_str());
            return Some((i, v));
        }
        i = i + 1;
    }
    None
}

/// How an ecosystem draws its inlay hints.
#[derive(Debug)]
pub struct EcosystemHintConfig {
    pub show_up_to_date_hints: bool,
    pub up_to_date_text: String,
    pub needs_update_text: String,
    pub loading_text: String,
    /// Loading hints are drawn where loading is shown and the client falls
    /// back to hints.
    pub show_loading_hints: bool,
}

/// Inlay hints are produced only where they are enabled.
pub fn inlay_hints_enabled(config: &InlayHintsConfig) -> (r: bool)
    ensures
        r == config.enabled,
{
    config.enabled
}

/// The hint configuration handed to an ecosystem.
pub fn hint_config(hints: &InlayHintsConfig, loading: &LoadingIndicatorConfig) -> (r:
    EcosystemHintConfig)
    ensures
        r.show_up_to_date_hints,
        r.up_to_date_text@ == hints.up_to_date_text@,
        r.needs_update_text@ == hints.needs_update_text@,
        r.loading_text@ == loading.loading_text@,
        r.show_loading_hints == (loading.enabled && loading.fallback_to_hints),
{
    EcosystemHintConfig {
        show_up_to_date_hints: true,
        up_to_date_text: hints.up_to_date_text.clone(),
        needs_update_text: hints.needs_update_text.clone(),
        loading_text: loading.loading_text.clone(),
        show_loading_hints: loading.enabled && loading.fallback_to_hints,
    }
}

/// The largest document that is read from disk, in bytes.
pub const MAX_FILE_SIZE: u64 = 10_000_000;

/// Documents above this size are read with a warning.
pub const LARGE_FILE_THRESHOLD: u64 = 1_000_000;

/// What the size of a file on disk allows.
#[derive(Debug, Clone, Copy, PartialEq, Eq, Structural)]
pub enum SizeVerdict {
    /// Read it.
    Accept,
    /// Read it, with a warning.
    AcceptLarge,
    /// Refuse it.
    TooLarge,
}

/// Files above `MAX_FILE_SIZE` are refused, files above
/// `LARGE_FILE_THRESHOLD` are read with a warning.
pub fn size_verdict(size: u64) -> (r: SizeVerdict)
    ensures
        r == (if size > MAX_FILE_SIZE {
            SizeVerdict::TooLarge
        } else if size > LARGE_FILE_THRESHOLD {
            SizeVerdict::AcceptLarge
        } else {
            SizeVerdict::Accept
        }),
{
    if size > MAX_FILE_SIZE {
        SizeVerdict::TooLarge
    } else if size > LARGE_FILE_THRESHOLD {
        SizeVerdict::AcceptLarge
    } else {
        SizeVerdict::Accept
    }
}

/// `file too large: {size} bytes (max: 10000000 bytes)`.
pub fn too_large_message(size: u64) -> (r: String)
    ensures
        r@ == "file too large: "@ + decimal(size as nat) + " bytes (max: "@ + decimal(
            MAX_FILE_SIZE as nat,
        ) + " bytes)"@,
{
    let mut r = String::from_str("file too large: ");
    r.append(u64_to_string(size).as_str());
    r.append(" bytes (max: ");
    r.append(u64_to_string(MAX_FILE_SIZE).as_str());
    r.append(" bytes)");
    r
}

/// What a handler does with a document it has no state for.
#[derive(Debug, Clone, Copy, PartialEq, Eq, Structural)]
pub enum ColdStartAction {
    /// It is already open: go on.
    AlreadyLoaded,
    /// Read it from disk and open it.
    Load,
    /// Give up on it.
    Refuse,
}

/// A document already open is used; otherwise it is loaded only where cold
/// starts are enabled, the rate limiter lets it through and its file type is
/// supported.
pub open spec fn spec_cold_start_action(
    loaded: bool,
    enabled: bool,
    allowed: bool,
    supported: bool,
) -> ColdStartAction {
    if loaded {
        ColdStartAction::AlreadyLoaded
    } else if enabled && allowed && supported {
        ColdStartAction::Load
    } else {
        ColdStartAction::Refuse
    }
}

/// Decides on a cold start. The limiter is consulted only for a document
/// that is not loaded while cold starts are enabled, as the server does.
pub fn cold_start_action(
    limiter: &mut ColdStartLimiter,
    uri: &str,
    now: u64,
    loaded: bool,
    enabled: bool,
    supported: bool,
) -> (r: ColdStartAction)
    requires
        old(limiter).wf(),
    ensures
        final(limiter).wf(),
        final(limiter).spec_min_interval() == old(limiter).spec_min_interval(),
        (loaded || !enabled) ==> final(limiter)@ == old(limiter)@ && r == spec_cold_start_action(
            loaded,
            enabled,
            true,
            supported,
        ),
        (!loaded && enabled) ==> {
            let (allowed, m) = allow_step(
                old(limiter)@,
                uri@,
                now,
                old(limiter).spec_min_interval(),
            );
            final(limiter)@ == m && r == spec_cold_start_action(loaded, enabled, allowed, supported)
        },
{
    if loaded {
        return ColdStartAction::AlreadyLoaded;
    }
    if !enabled {
        return ColdStartAction::Refuse;
    }
    if !limiter.allow_cold_start(uri, now) {
        return ColdStartAction::Refuse;
    }
    if !supported {
        return ColdStartAction::Refuse;
    }
    ColdStartAction::Load
}

/// What one request to the limiter does, on its map from documents to the
/// time of their last admitted cold start: a document seen less than
/// `min_interval` ago is refused and the map is kept; any other is admitted
/// and its time becomes `now`. Times only go forward; an earlier `now`
/// counts as no time elapsed.
pub open spec fn allow_step(m: Map<Seq<char>, u64>, uri: Seq<char>, now: u64, min_interval: u64) -> (
    bool,
    Map<Seq<char>, u64>,
) {
    if m.dom().contains(uri) && (if now >= m[uri] {
        now - m[uri]
    } else {
        0
    }) < min_interval {
        (false, m)
    } else {
        (true, m.insert(uri, now))
    }
}

/// An entry whose time lies less than `max_age` before `now`.
pub open spec fn is_recent(now: u64, max_age: u64) -> spec_fn((Seq<char>, u64)) -> bool {
    |p: (Seq<char>, u64)|
        (if now >= p.1 {
            now - p.1
        } else {
            0
        }) < max_age
}

/// Limits how often each document is loaded from disk on a cold start.
#[derive(Debug)]
pub struct ColdStartLimiter {
    last_attempts: Vec<(String, u64)>,
    min_interval: u64,
}

pub open spec fn attempt_views(e: Seq<(String, u64)>) -> Seq<(Seq<char>, u64)> {
    e.map_values(|p: (String, u64)| (p.0@, p.1))
}

impl View for ColdStartLimiter {
    type V = Map<Seq<char>, u64>;

    closed spec fn view(&self) -> Map<Seq<char>, u64> {
        entries_map(attempt_views(self.last_attempts@))
    }
}

impl ColdStartLimiter {
    pub closed spec fn wf(&self) -> bool {
        distinct_keys(attempt_views(self.last_attempts@))
    }

    pub closed spec fn spec_min_interval(&self) -> u64 {
        self.min_interval
    }

    /// A limiter that admits one cold start per document every
    /// `min_interval` time units.
    pub fn new(min_interval: u64) -> (r: ColdStartLimiter)
        ensures
            r.wf(),
            r@ == Map::<Seq<char>, u64>::empty(),
            r.spec_min_interval() == min_interval,
    {
        let r = ColdStartLimiter { last_attempts: Vec::new(), min_interval };
        assert(attempt_views(r.last_attempts@) =~= Seq::<(Seq<char>, u64)>::empty());
        r
    }

    fn find(&self, uri: &str) -> (r: Option<usize>)
        requires
            self.wf(),
        ensures
            match r {
                Some(i) => i < self.last_attempts@.len() && self.last_attempts@[i as int].0@ == uri@
                    && self@.dom().contains(uri@) && self@[uri@] == self.last_attempts@[i as int].1,
                None => !self@.dom().contains(uri@),
            },
    {
        let ghost e = attempt_views(self.last_attempts@);
        let mut i: usize = 0;
        while i < self.last_attempts.len()
            invariant
                i <= self.last_attempts@.len(),
                e == attempt_views(self.last_attempts@),
                distinct_keys(e),
                forall|j: int| 0 <= j < i ==> self.last_attempts@[j].0@ != uri@,
            decreases self.last_attempts@.len() - i,
        {
            if str_eq(self.last_attempts[i].0.as_str(), uri) {
                proof {
                    lemma_entries_map(e);
                    assert(e[i as int].0 == uri@);
                    assert(entries_map(e)[e[i as int].0] == e[i as int].1);
                }
                return Some(i);
            }
            i = i + 1;
        }
        proof {
            lemma_entries_map(e);
            if self@.dom().contains(uri@) {
                let j = choose|j: int| 0 <= j < e.len() && e[j].0 == uri@;
                assert(self.last_attempts@[j].0@ == uri@);
            }
        }
        None
    }

    /// Whether a cold start of the document may happen at `now` (see
    /// `allow_step`).
    pub fn allow_cold_start(&mut self, uri: &str, now: u64) -> (r: bool)
        requires
            old(self).wf(),
        ensures
            final(self).wf(),
            final(self).spec_min_interval() == old(self).spec_min_interval(),
            (r, final(self)@) == allow_step(old(self)@, uri@, now, old(self).spec_min_interval()),
    {
        let ghost e = attempt_views(self.last_attempts@);
        match self.find(uri) {
            Some(i) => {
                let last = self.last_attempts[i].1;
                let elapsed = if now >= last {
                    now - last
                } else {
                    0
                };
                if elapsed < self.min_interval {
                    return false;
                }
                let key = self.last_attempts[i].0.clone();
                self.last_attempts.set(i, (key, now));
                proof {
                    assert(attempt_views(self.last_attempts@) =~= e.update(i as int, (e[i as int].0, now)));
                    lemma_entries_map_update(e, i as int, now);
                }
                true
            },
            None => {
                self.last_attempts.push((uri.to_string(), now));
                proof {
                    assert(attempt_views(self.last_attempts@) =~= e.push((uri@, now)));
                    assert(e.push((uri@, now)).drop_last() =~= e);
                    lemma_distinct_push(e, (uri@, now));
                }
                true
            },
        }
    }

    /// Forgets the documents whose last cold start is `max_age` or more
    /// before `now`.
    pub fn cleanup_old_entries(&mut self, now: u64, max_age: u64)
        requires
            old(self).wf(),
        ensures
            final(self).wf(),
            final(self).spec_min_interval() == old(self).spec_min_interval(),
            final(self)@ == old(self)@.restrict(
                old(self)@.dom().filter(
                    |k: Seq<char>|
                        (if now >= old(self)@[k] {
                            now - old(self)@[k]
                        } else {
                            0
                        }) < max_age,
                ),
            ),
    {
        let ghost e = attempt_views(self.last_attempts@);
        let ghost keep = is_recent(now, max_age);
        let mut kept: Vec<(String, u64)> = Vec::new();
        let mut i: usize = 0;
        while i < self.last_attempts.len()
            invariant
                i <= self.last_attempts@.len(),
                e == attempt_views(self.last_attempts@),
                distinct_keys(e),
                keep == is_recent(now, max_age),
                attempt_views(kept@) == e.take(i as int).filter(keep),
            decreases self.last_attempts@.len() - i,
        {
            let t = self.last_attempts[i].1;
            let age = if now >= t {
                now - t
            } else {
                0
            };
            proof {
                assert(e[i as int] == (self.last_attempts@[i as int].0@, t));
                assert(keep(e[i as int]) == (age < max_age));
                assert(e.take(i + 1) =~= e.take(i as int).push(e[i as int]));
                crate::pypi::lemma_filter_push(e.take(i as int), keep, e[i as int]);
            }
            let ghost before = kept@;
            if age < max_age {
                let key = self.last_attempts[i].0.clone();
                kept.push((key, t));
                assert(attempt_views(kept@) =~= attempt_views(before).push(e[i as int]));
            }
            i = i + 1;
        }
        proof {
            assert(e.take(e.len() as int) =~= e);
            lemma_filter_entries(e, keep);
        }
        self.last_attempts = kept;
    }

    /// The number of documents the limiter remembers.
    pub fn tracked_count(&self) -> (r: usize)
        requires
            self.wf(),
        ensures
            r == self@.dom().len(),
    {
        proof {
            lemma_entries_map(attempt_views(self.last_attempts@));
        }
        self.last_attempts.len()
    }
}

/// Keeping the entries that a predicate of key and value accepts keeps the
/// keys distinct and restricts the map to those keys.
proof fn lemma_filter_entries(e: Seq<(Seq<char>, u64)>, keep: spec_fn((Seq<char>, u64)) -> bool)
    requires
        distinct_keys(e),
    ensures
        distinct_keys(e.filter(keep)),
        entries_map(e.filter(keep)) == entries_map(e).restrict(
            entries_map(e).dom().filter(|k: Seq<char>| keep((k, entries_map(e)[k]))),
        ),
    decreases e.len(),
{
    reveal(Seq::filter);
    if e.len() > 0 {
        let d = e.drop_last();
        assert(distinct_keys(d));
        lemma_filter_entries(d, keep);
        lemma_entries_map(e);
        lemma_entries_map(d);
        let x = e.last();
        assert(!entries_map(d).dom().contains(x.0)) by {
            if entries_map(d).dom().contains(x.0) {
                let j = choose|j: int| 0 <= j < d.len() && d[j].0 == x.0;
                assert(e[j].0 == e[e.len() - 1].0);
            }
        }
        let fd = d.filter(keep);
        lemma_entries_map(fd);
        if keep(x) {
            assert(e.filter(keep) == fd.push(x));
            assert(!entries_map(fd).dom().contains(x.0));
            lemma_distinct_push(fd, x);
            assert(fd.push(x).drop_last() =~= fd);
        } else {
            assert(e.filter(keep) == fd);
        }
        let lhs = entries_map(e.filter(keep));
        let rhs = entries_map(e).restrict(
            entries_map(e).dom().filter(|k: Seq<char>| keep((k, entries_map(e)[k]))),
        );
        assert(entries_map(e) == entries_map(d).insert(x.0, x.1));
        assert(lhs =~= rhs);
    } else {
        assert(e.filter(keep) =~= e);
        assert(entries_map(e) =~= Map::<Seq<char>, u64>::empty());
    }
}

/// Cold starts are rate limited: once a document has been admitted at
/// `t1`, a request for it at a `t2` less than `min_interval` later is
/// refused, and the limiter is left as it was.
pub proof fn law_cold_start_rate_limit(
    m: Map<Seq<char>, u64>,
    uri: Seq<char>,
    t1: u64,
    t2: u64,
    min_interval: u64,
)
    requires
        allow_step(m, uri, t1, min_interval).0,
        t1 <= t2,
        t2 - t1 < min_interval,
    ensures
        !allow_step(allow_step(m, uri, t1, min_interval).1, uri, t2, min_interval).0,
        allow_step(allow_step(m, uri, t1, min_interval).1, uri, t2, min_interval).1 == allow_step(
            m,
            uri,
            t1,
            min_interval,
        ).1,
{
}

/// A document that was never admitted, or was admitted `min_interval` or
/// more ago, is admitted.
pub proof fn law_cold_start_admits_after_interval(
    m: Map<Seq<char>, u64>,
    uri: Seq<char>,
    now: u64,
    min_interval: u64,
)
    requires
        !m.dom().contains(uri) || (now >= m[uri] && now - m[uri] >= min_interval),
    ensures
        allow_step(m, uri, now, min_interval).0,
        allow_step(m, uri, now, min_interval).1[uri] == now,
{
}

/// One request to the limiter while the clock does not go back (the
/// document's recorded time is no later than `now`): it is admitted exactly
/// when the document has no recorded time or `min_interval` or more has
/// passed since it; an admitted request records `now` for the document, a
/// refused one leaves the limiter as it was, and no other document's entry
/// changes either way.
pub proof fn law_cold_start_step(
    m: Map<Seq<char>, u64>,
    uri: Seq<char>,
    now: u64,
    min_interval: u64,
)
    requires
        m.dom().contains(uri) ==> m[uri] <= now,
    ensures
        allow_step(m, uri, now, min_interval).0 <==> (!m.dom().contains(uri) || now - m[uri]
            >= min_interval),
        allow_step(m, uri, now, min_interval).0 ==> allow_step(m, uri, now, min_interval).1
            == m.insert(uri, now),
        !allow_step(m, uri, now, min_interval).0 ==> allow_step(m, uri, now, min_interval).1 == m,
        forall|u: Seq<char>|
            u != uri ==> (#[trigger] allow_step(m, uri, now, min_interval).1.dom().contains(u)
                <==> m.dom().contains(u)) && (m.dom().contains(u) ==> allow_step(
                m,
                uri,
                now,
                min_interval,
            ).1[u] == m[u]),
{
}

/// The limiter after a run of requests, each a document and the time of
/// the request, taken in order.
pub open spec fn run_limiter(
    m: Map<Seq<char>, u64>,
    reqs: Seq<(Seq<char>, u64)>,
    min_interval: u64,
) -> Map<Seq<char>, u64>
    decreases reqs.len(),
{
    if reqs.len() == 0 {
        m
    } else {
        allow_step(
            run_limiter(m, reqs.drop_last(), min_interval),
            reqs.last().0,
            reqs.last().1,
            min_interval,
        ).1
    }
}

/// Whether request `i` of a run is admitted.
pub open spec fn run_admits(
    m: Map<Seq<char>, u64>,
    reqs: Seq<(Seq<char>, u64)>,
    min_interval: u64,
    i: int,
) -> bool {
    allow_step(run_limiter(m, reqs.take(i), min_interval), reqs[i].0, reqs[i].1, min_interval).0
}

/// The clock of a run does not go back, and the limiter it starts from
/// holds no time later than its first request.
pub open spec fn run_is_monotone(m: Map<Seq<char>, u64>, reqs: Seq<(Seq<char>, u64)>) -> bool {
    &&& forall|a: int, b: int| 0 <= a <= b < reqs.len() ==> #[trigger] reqs[a].1 <= #[trigger] reqs[b].1
    &&& reqs.len() > 0 ==> forall|u: Seq<char>| #[trigger] m.dom().contains(u) ==> m[u] <= reqs[0].1
}

proof fn lemma_run_step(
    m: Map<Seq<char>, u64>,
    reqs: Seq<(Seq<char>, u64)>,
    min_interval: u64,
    k: int,
)
    requires
        0 <= k < reqs.len(),
    ensures
        run_limiter(m, reqs.take(k + 1), min_interval) == allow_step(
            run_limiter(m, reqs.take(k), min_interval),
            reqs[k].0,
            reqs[k].1,
            min_interval,
        ).1,
{
    assert(reqs.take(k + 1).drop_last() =~= reqs.take(k));
    assert(reqs.take(k + 1).last() == reqs[k]);
}

/// After the first `k` requests of a monotone run, each recorded time is
/// no later than any request still to come, and each document admitted so
/// far has a recorded time no earlier than its admission.
proof fn lemma_run_invariant(
    m: Map<Seq<char>, u64>,
    reqs: Seq<(Seq<char>, u64)>,
    min_interval: u64,
    k: int,
)
    requires
        run_is_monotone(m, reqs),
        0 <= k <= reqs.len(),
    ensures
        forall|u: Seq<char>, j: int|
            #![trigger run_limiter(m, reqs.take(k), min_interval)[u], reqs[j]]
            run_limiter(m, reqs.take(k), min_interval).dom().contains(u) && k <= j < reqs.len()
                ==> run_limiter(m, reqs.take(k), min_interval)[u] <= reqs[j].1,
        forall|i: int|
            0 <= i < k && #[trigger] run_admits(m, reqs, min_interval, i) ==> run_limiter(
                m,
                reqs.take(k),
                min_interval,
            ).dom().contains(reqs[i].0) && run_limiter(m, reqs.take(k), min_interval)[reqs[i].0]
                >= reqs[i].1,
    decreases k,
{
    if k == 0 {
        assert(reqs.take(0) =~= Seq::<(Seq<char>, u64)>::empty());
        assert forall|u: Seq<char>, j: int|
            run_limiter(m, reqs.take(k), min_interval).dom().contains(u) && k <= j < reqs.len()
                implies run_limiter(m, reqs.take(k), min_interval)[u] <= reqs[j].1 by {
            assert(m.dom().contains(u));
            assert(reqs[0].1 <= reqs[j].1);
        }
    } else {
        lemma_run_invariant(m, reqs, min_interval, k - 1);
        lemma_run_step(m, reqs, min_interval, k - 1);
        let before = run_limiter(m, reqs.take(k - 1), min_interval);
        let after = run_limiter(m, reqs.take(k), min_interval);
        let (uk, tk) = reqs[k - 1];
        assert forall|u: Seq<char>, j: int|
            after.dom().contains(u) && k <= j < reqs.len() implies after[u] <= reqs[j].1 by {
            assert(reqs[k - 1].1 <= reqs[j].1);
            if u != uk || !run_admits(m, reqs, min_interval, k - 1) {
                assert(before.dom().contains(u));
                assert(before[u] <= reqs[j].1);
            }
        }
        assert forall|i: int| 0 <= i < k && #[trigger] run_admits(m, reqs, min_interval, i)
            implies after.dom().contains(reqs[i].0) && after[reqs[i].0] >= reqs[i].1 by {
            if i < k - 1 {
                assert(before.dom().contains(reqs[i].0));
                assert(reqs[i].1 <= reqs[k - 1].1);
            }
        }
    }
}

/// Over a run of requests whose clock does not go back, started from a
/// limiter that holds no time later than the first request, two admitted
/// requests for the same document lie at least `min_interval` apart,
/// whatever requests for other documents come between them.
pub proof fn law_cold_start_spacing(
    m: Map<Seq<char>, u64>,
    reqs: Seq<(Seq<char>, u64)>,
    min_interval: u64,
    i: int,
    j: int,
)
    requires
        run_is_monotone(m, reqs),
        0 <= i < j < reqs.len(),
        reqs[i].0 == reqs[j].0,
        run_admits(m, reqs, min_interval, i),
        run_admits(m, reqs, min_interval, j),
    ensures
        reqs[j].1 - reqs[i].1 >= min_interval,
{
    lemma_run_invariant(m, reqs, min_interval, j);
    let st = run_limiter(m, reqs.take(j), min_interval);
    assert(st.dom().contains(reqs[i].0));
    assert(st[reqs[j].0] <= reqs[j].1);
}

/// The open manifests a lock-file change touches: those of the same
/// ecosystem whose lock file is the changed one.
pub open spec fn is_affected(doc: (String, String, Option<String>), ecosystem_id: Seq<char>, lockfile: Seq<char>) -> bool {
    doc.1@ == ecosystem_id && match doc.2 {
        Some(l) => l@ == lockfile,
        None => false,
    }
}

/// The URIs of the documents that `is_affected` accepts, in order.
pub open spec fn affected_uris(docs: Seq<(String, String, Option<String>)>, ecosystem_id: Seq<char>, lockfile: Seq<char>) -> Seq<Seq<char>>
    decreases docs.len(),
{
    if docs.len() == 0 {
        seq![]
    } else {
        let r = affected_uris(docs.drop_last(), ecosystem_id, lockfile);
        if is_affected(docs.last(), ecosystem_id, lockfile) {
            r.push(docs.last().0@)
        } else {
            r
        }
    }
}

/// Given each open document's URI, ecosystem and located lock file, the
/// URIs of those that a change of `lockfile_path` affects, in order.
pub fn affected_documents(
    docs: &Vec<(String, String, Option<String>)>,
    ecosystem_id: &str,
    lockfile_path: &str,
) -> (r: Vec<String>)
    ensures
        r@.map_values(|u: String| u@) == affected_uris(docs@, ecosystem_id@, lockfile_path@),
{
    let mut r: Vec<String> = Vec::new();
    let mut i: usize = 0;
    while i < docs.len()
        invariant
            i <= docs@.len(),
            r@.map_values(|u: String| u@) == affected_uris(docs@.take(i as int), ecosystem_id@, lockfile_path@),
        decreases docs@.len() - i,
    {
        let d = &docs[i];
        let hit = str_eq(d.1.as_str(), ecosystem_id) && match &d.2 {
            Some(l) => str_eq(l.as_str(), lockfile_path),
            None => false,
        };
        proof {
            assert(docs@.take(i + 1).drop_last() =~= docs@.take(i as int));
            assert(docs@.take(i + 1).last() == docs@[i as int]);
            assert(hit == is_affected(docs@[i as int], ecosystem_id@, lockfile_path@));
        }
        let ghost before = r@;
        if hit {
            r.push(d.0.clone());
            assert(r@.map_values(|u: String| u@) =~= before.map_values(|u: String| u@).push(d.0@));
        }
        i = i + 1;
    }
    assert(docs@.take(docs@.len() as int) =~= docs@);
    r
}

/// The text a package completion inserts: `"name": "^latest"` in
/// `package.json`, `name = "latest"` elsewhere.
pub open spec fn spec_insert_text(ecosystem_id: Seq<char>, name: Seq<char>, latest: Seq<char>) -> Seq<
    char,
> {
    if ecosystem_id == "npm"@ {
        "\""@ + name + "\": \"^"@ + latest + "\""@
    } else {
        name + " = \""@ + latest + "\""@
    }
}

/// The text a package completion inserts (see `spec_insert_text`).
pub fn package_insert_text(ecosystem_id: &str, name: &str, latest: &str) -> (r: String)
    ensures
        r@ == spec_insert_text(ecosystem_id@, name@, latest@),
{
    if str_eq(ecosystem_id, "npm") {
        let mut r = String::from_str("\"");
        r.append(name);
        r.append("\": \"^");
        r.append(latest);
        r.append("\"");
        r
    } else {
        let mut r = name.to_string();
        r.append(" = \"");
        r.append(latest);
        r.append("\"");
        r
    }
}

/// `Latest: {latest}`, the detail of a package completion.
pub fn package_detail(latest: &str) -> (r: String)
    ensures
        r@ == "Latest: "@ + latest@,
{
    let mut r = String::from_str("Latest: ");
    r.append(latest);
    r
}

/// `t` with every `{}`, read from the left, replaced by `v`.
pub open spec fn replace_placeholder(t: Seq<char>, v: Seq<char>) -> Seq<char>
    decreases t.len(),
{
    if t.len() < 2 {
        t
    } else if t[0] == '{' && t[1] == '}' {
        v + replace_placeholder(t.skip(2), v)
    } else {
        seq![t[0]] + replace_placeholder(t.drop_first(), v)
    }
}

/// `template` with every `{}` replaced by `value`.
pub fn fill_placeholder(template: &str, value: &str) -> (r: String)
    ensures
        r@ == replace_placeholder(template@, value@),
{
    let t = chars_of(template);
    let mut r = String::new();
    let mut i: usize = 0;
    proof {
        assert(t@.skip(0) =~= t@);
        assert(r@ + replace_placeholder(t@.skip(0), value@) =~= replace_placeholder(t@.skip(0), value@));
    }
    while i < t.len()
        invariant
            i <= t@.len(),
            t@ == template@,
            r@ + replace_placeholder(t@.skip(i as int), value@) == replace_placeholder(template@, value@),
        decreases t@.len() - i,
    {
        let ghost rest = t@.skip(i as int);
        if i + 1 < t.len() && t[i] == '{' && t[i + 1] == '}' {
            proof {
                assert(rest.skip(2) =~= t@.skip(i + 2));
                assert(replace_placeholder(rest, value@) == value@ + replace_placeholder(rest.skip(2), value@));
            }
            let ghost before = r@;
            r.append(value);
            assert(r@ + replace_placeholder(t@.skip(i + 2), value@) =~= before + (value@ + replace_placeholder(t@.skip(i + 2), value@)));
            i = i + 2;
        } else {
            proof {
                assert(rest.drop_first() =~= t@.skip(i + 1));
                if rest.len() >= 2 {
                    assert(replace_placeholder(rest, value@) == seq![rest[0]] + replace_placeholder(rest.drop_first(), value@));
                } else {
                    assert(rest.len() == 1);
                    assert(rest.drop_first().len() == 0);
                    assert(replace_placeholder(rest, value@) == rest);
                    assert(rest =~= seq![rest[0]] + rest.drop_first());
                }
            }
            let ghost before = r@;
            crate::text::push_char(&mut r, t[i]);
            assert(r@ + replace_placeholder(t@.skip(i + 1), value@) =~= before + (seq![t@[i as int]] + replace_placeholder(t@.skip(i + 1), value@)));
            i = i + 1;
        }
    }
    proof {
        assert(t@.skip(i as int).len() == 0);
        assert(r@ + Seq::<char>::empty() =~= r@);
    }
    r
}

/// The label of a version hint: the up-to-date text where the version in
/// use is the latest, otherwise the needs-update text with the latest
/// version in place of `{}`.
pub open spec fn spec_hint_text(config: InlayHintsConfig, latest: Seq<char>, current: Seq<char>) -> Seq<char> {
    if current == latest {
        config.up_to_date_text@
    } else {
        replace_placeholder(config.needs_update_text@, latest)
    }
}

/// The label of a version hint (see `spec_hint_text`).
pub fn hint_text(config: &InlayHintsConfig, latest: &str, current: &str) -> (r: String)
    ensures
        r@ == spec_hint_text(*config, latest@, current@),
{
    if str_eq(current, latest) {
        config.up_to_date_text.clone()
    } else {
        fill_placeholder(config.needs_update_text.as_str(), latest)
    }
}


/// The version a hint compares with the latest one: the lock file's, else
/// the manifest's requirement, else nothing.
pub open spec fn spec_current_version(
    dep: Dependency,
    resolved: Map<Seq<char>, Seq<char>>,
) -> Seq<char> {
    if resolved.dom().contains(dep.name@) {
        resolved[dep.name@]
    } else {
        match dep.version_req {
            Some(v) => v@,
            None => seq![],
        }
    }
}

/// The inlay hint of a dependency: none where it has no version in the
/// text; the version hint where the latest version is known; the loading
/// text while versions load and loading hints are shown; none otherwise.
pub open spec fn spec_dependency_hint(
    dep: Dependency,
    cached: Map<Seq<char>, Seq<char>>,
    resolved: Map<Seq<char>, Seq<char>>,
    loading: bool,
    settings: EcosystemHintConfig,
    config: InlayHintsConfig,
) -> Option<Seq<char>> {
    if dep.version_range is None {
        None
    } else if cached.dom().contains(dep.name@) {
        Some(spec_hint_text(config, cached[dep.name@], spec_current_version(dep, resolved)))
    } else if loading && settings.show_loading_hints {
        Some(settings.loading_text@)
    } else {
        None
    }
}

/// The label of the inlay hint of a dependency (see `spec_dependency_hint`).
pub fn dependency_hint(
    dep: &Dependency,
    cached: &StringMap,
    resolved: &StringMap,
    loading: bool,
    settings: &EcosystemHintConfig,
    config: &InlayHintsConfig,
) -> (r: Option<String>)
    requires
        cached.wf(),
        resolved.wf(),
    ensures
        match spec_dependency_hint(*dep, cached@, resolved@, loading, *settings, *config) {
            Some(t) => r is Some && r->0@ == t,
            None => r is None,
        },
{
    if dep.version_range.is_none() {
        return None;
    }
    match cached.get(dep.name.as_str()) {
        Some(latest) => {
            let current = match resolved.get(dep.name.as_str()) {
                Some(v) => v,
                None => match &dep.version_req {
                    Some(v) => v.clone(),
                    None => String::new(),
                },
            };
            Some(hint_text(config, latest.as_str(), current.as_str()))
        },
        None => {
            if loading && settings.show_loading_hints {
                Some(settings.loading_text.clone())
            } else {
                None
            }
        },
    }
}

/// A labelled line of the hover text, after a blank line: `label`,
/// then the value in backquotes.
pub open spec fn hover_line(label: Seq<char>, value: Option<Seq<char>>) -> Seq<char> {
    match value {
        Some(v) => "\n\n"@ + label + "`"@ + v + "`"@,
        None => seq![],
    }
}

/// The hover text of a dependency in Markdown: its name in bold, then the
/// required, resolved and latest versions that are known, then the page
/// of the package, each in a paragraph of its own.
pub open spec fn spec_hover_text(
    name: Seq<char>,
    required: Option<Seq<char>>,
    resolved: Option<Seq<char>>,
    latest: Option<Seq<char>>,
    url: Seq<char>,
) -> Seq<char> {
    "**"@ + name + "**"@ + hover_line("Required: "@, required) + hover_line("Resolved: "@, resolved)
        + hover_line("Latest: "@, latest) + "\n\n"@ + url
}

pub open spec fn opt_str_view(v: Option<&str>) -> Option<Seq<char>> {
    match v {
        Some(s) => Some(s@),
        None => None,
    }
}

fn append_hover_line(out: &mut String, label: &str, value: Option<&str>)
    ensures
        final(out)@ == old(out)@ + hover_line(label@, opt_str_view(value)),
{
    match value {
        Some(v) => {
            out.append("\n\n");
            out.append(label);
            out.append("`");
            out.append(v);
            out.append("`");
            proof {
                assert(out@ =~= old(out)@ + hover_line(label@, opt_str_view(value)));
            }
        },
        None => {
            assert(old(out)@ + hover_line(label@, opt_str_view(value)) =~= old(out)@);
        },
    }
}

/// The hover text of a dependency (see `spec_hover_text`).
pub fn hover_text(
    name: &str,
    required: Option<&str>,
    resolved: Option<&str>,
    latest: Option<&str>,
    url: &str,
) -> (r: String)
    ensures
        r@ == spec_hover_text(
            name@,
            opt_str_view(required),
            opt_str_view(resolved),
            opt_str_view(latest),
            url@,
        ),
{
    let mut out = String::new();
    out.append("**");
    out.append(name);
    out.append("**");
    append_hover_line(&mut out, "Required: ", required);
    append_hover_line(&mut out, "Resolved: ", resolved);
    append_hover_line(&mut out, "Latest: ", latest);
    out.append("\n\n");
    out.append(url);
    proof {
        assert(out@ =~= spec_hover_text(
            name@,
            opt_str_view(required),
            opt_str_view(resolved),
            opt_str_view(latest),
            url@,
        ));
    }
    out
}

/// The text that replaces a version when the client asks for an update: the
/// version in double quotes.
pub fn quoted_version(version: &str) -> (r: String)
    ensures
        r@ == seq!['"'] + version@ + seq!['"'],
{
    let mut r = String::new();
    push_char(&mut r, '"');
    r.append(version);
    push_char(&mut r, '"');
    r
}

/// The npm side of the request handlers: which dependencies are npm's and
/// how npm versions are written and judged.
#[derive(Debug)]
pub struct NpmHandlerImpl;

impl NpmHandlerImpl {
    /// The npm dependency inside a dependency of any ecosystem.
    pub fn extract_dependency(dep: &UnifiedDependency) -> (r: Option<&NpmDependency>)
        ensures
            match dep {
                UnifiedDependency::Npm(d) => r == Some(d),
                _ => r is None,
            },
    {
        match dep {
            UnifiedDependency::Npm(d) => Some(d),
            _ => None,
        }
    }

    /// The package's page on npmjs.com.
    pub fn package_url(name: &str) -> (r: String)
        ensures
            r@ == "https://www.npmjs.com/package/"@ + url_encoded(vstd::utf8::encode_utf8(name@)),
    {
        crate::npm::package_url(name)
    }

    /// The registry's name as users see it.
    pub fn ecosystem_display_name() -> (r: &'static str)
        ensures
            r@ == "npmjs.com"@,
    {
        "npmjs.com"
    }

    /// A version written into `package.json`: in double quotes.
    pub fn format_version_for_edit(_dep: &NpmDependency, version: &str) -> (r: String)
        ensures
            r@ == seq!['"'] + version@ + seq!['"'],
    {
        quoted_version(version)
    }

    /// A deprecated version plays the part of a yanked one.
    pub fn is_deprecated(version: &NpmVersion) -> (r: bool)
        ensures
            r == version.deprecated,
    {
        version.deprecated
    }

    /// Every requirement is taken as written; npm accepts many forms.
    pub fn is_valid_version_syntax(version_req: &str) -> (r: bool)
        ensures
            r,
    {
        true
    }
}

} // verus!

verus! {

/// A hint compares the latest version with the version in use: where the
/// lock file has no entry for the dependency, that is the manifest's
/// requirement, so a requirement equal to the latest version is up to date.
pub proof fn law_hint_without_lock_entry_uses_requirement(
    dep: Dependency,
    cached: Map<Seq<char>, Seq<char>>,
    resolved: Map<Seq<char>, Seq<char>>,
    loading: bool,
    settings: EcosystemHintConfig,
    config: InlayHintsConfig,
)
    requires
        dep.version_range is Some,
        cached.dom().contains(dep.name@),
        !resolved.dom().contains(dep.name@),
        dep.version_req is Some,
    ensures
        dep.version_req->0@ == cached[dep.name@] ==> spec_dependency_hint(
            dep,
            cached,
            resolved,
            loading,
            settings,
            config,
        ) == Some(config.up_to_date_text@),
        dep.version_req->0@ != cached[dep.name@] ==> spec_dependency_hint(
            dep,
            cached,
            resolved,
            loading,
            settings,
            config,
        ) == Some(replace_placeholder(config.needs_update_text@, cached[dep.name@])),
{
}

/// Where the lock file resolved a version of the dependency, the hint
/// compares that version with the latest one, whatever the manifest
/// requires: up to date when they are equal, the needs-update text with the
/// latest version otherwise.
pub proof fn law_hint_with_lock_entry_uses_resolved(
    dep: Dependency,
    cached: Map<Seq<char>, Seq<char>>,
    resolved: Map<Seq<char>, Seq<char>>,
    loading: bool,
    settings: EcosystemHintConfig,
    config: InlayHintsConfig,
)
    requires
        dep.version_range is Some,
        cached.dom().contains(dep.name@),
        resolved.dom().contains(dep.name@),
    ensures
        resolved[dep.name@] == cached[dep.name@] ==> spec_dependency_hint(
            dep,
            cached,
            resolved,
            loading,
            settings,
            config,
        ) == Some(config.up_to_date_text@),
        resolved[dep.name@] != cached[dep.name@] ==> spec_dependency_hint(
            dep,
            cached,
            resolved,
            loading,
            settings,
            config,
        ) == Some(replace_placeholder(config.needs_update_text@, cached[dep.name@])),
{
}

/// Whenever the latest version is known, the hover text ends with its
/// `Latest:` line and the package page, whatever else is known of the
/// dependency; and it always begins with the name in bold.
pub proof fn law_hover_shows_latest(
    name: Seq<char>,
    required: Option<Seq<char>>,
    resolved: Option<Seq<char>>,
    latest: Seq<char>,
    url: Seq<char>,
)
    ensures
        crate::text::ends_with(
            spec_hover_text(name, required, resolved, Some(latest), url),
            "\n\n"@ + "Latest: "@ + "`"@ + latest + "`"@ + "\n\n"@ + url,
        ),
        crate::text::starts_with(
            spec_hover_text(name, required, resolved, Some(latest), url),
            "**"@ + name + "**"@,
        ),
{
    let head = "**"@ + name + "**"@;
    let a = head + hover_line("Required: "@, required) + hover_line("Resolved: "@, resolved);
    let suffix = "\n\n"@ + "Latest: "@ + "`"@ + latest + "`"@ + "\n\n"@ + url;
    let s = spec_hover_text(name, required, resolved, Some(latest), url);
    assert(s =~= a + suffix);
    assert(s.subrange(s.len() - suffix.len(), s.len() as int) =~= suffix);
    assert(s =~= head + (hover_line("Required: "@, required) + hover_line("Resolved: "@, resolved)
        + suffix));
    assert(s.subrange(0, head.len() as int) =~= head);
}

/// A resolved version, when there is one, is shown in the hover text with
/// its `Resolved:` line, whether or not the latest version is known.
pub proof fn law_hover_shows_resolved(
    name: Seq<char>,
    required: Option<Seq<char>>,
    resolved: Seq<char>,
    latest: Option<Seq<char>>,
    url: Seq<char>,
)
    ensures
        crate::text::contains(
            spec_hover_text(name, required, Some(resolved), latest, url),
            "\n\n"@ + "Resolved: "@ + "`"@ + resolved + "`"@,
        ),
{
    let a = "**"@ + name + "**"@ + hover_line("Required: "@, required);
    let p = "\n\n"@ + "Resolved: "@ + "`"@ + resolved + "`"@;
    let b = hover_line("Latest: "@, latest) + "\n\n"@ + url;
    let s = spec_hover_text(name, required, Some(resolved), latest, url);
    assert(s =~= a + p + b);
    assert(s.subrange(a.len() as int, (a.len() + p.len()) as int) =~= p);
    assert(crate::text::occurs_at(s, p, a.len() as int));
}

} // verus!
