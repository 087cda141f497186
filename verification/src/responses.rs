//! Registry responses: the version lists and package descriptions that the
//! PyPI and npm registries return, decoded from their JSON with the rules of
//! the response types (a struct may come as an object or, by position, as an
//! array; an optional field may be absent or `null`), and the version lists
//! put newest first.

use vstd::prelude::*;
use crate::json::{JsonValue, json_from_slice, parse_json_slice, member, get_member, decode_opt_string, decode_opt_bool, all_string_values, copy_string, opt_string, opt_bool};
use crate::pypi::{PypiVersion, PypiPackage, PypiError, version_view, versions_view};
use crate::npm::{NpmVersion, NpmPackage, NpmError, npm_version_view, npm_versions_view};
use crate::pep440::{Pep440Version, pep440_version_valid, pep440_order, parse_version, compare};
use crate::semver::{SemverVersion, semver_version_valid, semver_order};

verus! {

/// A field of a struct: from an object, the member of that name; from an
/// array of at most `count` values, the value at `index` (absent past the
/// end). The flag tells which form it came from. None for any other value
/// or a longer array.
pub open spec fn field_of(v: JsonValue, name: Seq<char>, index: int, count: int) -> Option<
    (Option<JsonValue>, bool),
> {
    match v {
        JsonValue::Object(m) => Some((member(m@, name), false)),
        JsonValue::Array(items) => if items@.len() <= count {
            Some(
                (
                    if index < items@.len() {
                        Some(items@[index])
                    } else {
                        None
                    },
                    true,
                ),
            )
        } else {
            None
        },
        _ => None,
    }
}

/// A field of a struct (see `field_of`).
pub fn get_field<'a>(v: &'a JsonValue, name: &str, index: usize, count: usize) -> (r: Option<
    (Option<&'a JsonValue>, bool),
>)
    ensures
        match field_of(*v, name@, index as int, count as int) {
            None => r is None,
            Some(f) => r is Some && r.unwrap().1 == f.1 && match f.0 {
                None => r.unwrap().0 is None,
                Some(x) => r.unwrap().0 is Some && *r.unwrap().0.unwrap() == x,
            },
        },
{
    match v {
        JsonValue::Object(m) => Some((get_member(m, name), false)),
        JsonValue::Array(items) => {
            if items.len() <= count {
                if index < items.len() {
                    Some((Some(&items[index]), true))
                } else {
                    Some((None, true))
                }
            } else {
                None
            }
        },
        _ => None,
    }
}

/// A required string field.
pub open spec fn string_field(f: Option<JsonValue>) -> Option<Seq<char>> {
    match f {
        Some(JsonValue::Str(s)) => Some(s@),
        _ => None,
    }
}

/// An optional field: absent is none, except where a struct came as an
/// array and the field has no default.
pub open spec fn absent_ok(f: (Option<JsonValue>, bool), has_default: bool) -> bool {
    !f.1 || has_default
}

/// An optional string field.
pub open spec fn opt_string_field(f: (Option<JsonValue>, bool), has_default: bool) -> Option<
    Option<Seq<char>>,
> {
    match f.0 {
        None => if absent_ok(f, has_default) {
            Some(None)
        } else {
            None
        },
        Some(x) => decode_opt_string(Some(x)),
    }
}

/// An optional boolean field without default.
pub open spec fn opt_bool_field(f: (Option<JsonValue>, bool)) -> Option<Option<bool>> {
    match f.0 {
        None => if absent_ok(f, false) {
            Some(None)
        } else {
            None
        },
        Some(x) => decode_opt_bool(Some(x)),
    }
}

fn required_string(f: Option<&JsonValue>) -> (r: Option<String>)
    ensures
        match string_field(
            match f {
                Some(x) => Some(*x),
                None => None,
            },
        ) {
            Some(s) => r is Some && r->0@ == s,
            None => r is None,
        },
{
    match f {
        Some(JsonValue::Str(s)) => Some(copy_string(s)),
        _ => None,
    }
}

fn optional_string(f: (Option<&JsonValue>, bool), has_default: bool) -> (r: Result<Option<String>, ()>)
    ensures
        match opt_string_field(
            (
                match f.0 {
                    Some(x) => Some(*x),
                    None => None,
                },
                f.1,
            ),
            has_default,
        ) {
            Some(Some(s)) => r matches Ok(Some(t)) && t@ == s,
            Some(None) => r matches Ok(None),
            None => r is Err,
        },
{
    match f.0 {
        None => if !f.1 || has_default {
            Ok(None)
        } else {
            Err(())
        },
        Some(x) => opt_string(Some(x)),
    }
}

fn optional_bool(f: (Option<&JsonValue>, bool)) -> (r: Result<Option<bool>, ()>)
    ensures
        match opt_bool_field(
            (
                match f.0 {
                    Some(x) => Some(*x),
                    None => None,
                },
                f.1,
            ),
        ) {
            Some(b) => r == Ok::<Option<bool>, ()>(b),
            None => r is Err,
        },
{
    match f.0 {
        None => if !f.1 {
            Ok(None)
        } else {
            Err(())
        },
        Some(x) => opt_bool(Some(x)),
    }
}

/// The text of a string value (empty for any other).
pub open spec fn text_of(v: JsonValue) -> Seq<char> {
    match v {
        JsonValue::Str(s) => s@,
        _ => seq![],
    }
}

/// The pairs of an object whose values are strings.
pub open spec fn string_pairs(m: Seq<(String, JsonValue)>) -> Seq<(Seq<char>, Seq<char>)> {
    m.map_values(|x: (String, JsonValue)| (x.0@, text_of(x.1)))
}

/// An optional string-to-string map field without default.
pub open spec fn opt_string_map_field(f: (Option<JsonValue>, bool)) -> Option<
    Option<Seq<(Seq<char>, Seq<char>)>>,
> {
    match f.0 {
        None => if absent_ok(f, false) {
            Some(None)
        } else {
            None
        },
        Some(JsonValue::Null) => Some(None),
        Some(JsonValue::Object(m)) => if all_string_values(m@) {
            Some(Some(string_pairs(m@)))
        } else {
            None
        },
        _ => None,
    }
}

pub open spec fn pairs_view(v: Seq<(String, String)>) -> Seq<(Seq<char>, Seq<char>)> {
    v.map_values(|p: (String, String)| (p.0@, p.1@))
}

fn optional_string_map(f: (Option<&JsonValue>, bool)) -> (r: Result<Option<Vec<(String, String)>>, ()>)
    ensures
        match opt_string_map_field(
            (
                match f.0 {
                    Some(x) => Some(*x),
                    None => None,
                },
                f.1,
            ),
        ) {
            Some(Some(p)) => r matches Ok(Some(v)) && pairs_view(v@) == p,
            Some(None) => r matches Ok(None),
            None => r is Err,
        },
{
    match f.0 {
        None => if !f.1 {
            Ok(None)
        } else {
            Err(())
        },
        Some(JsonValue::Null) => Ok(None),
        Some(JsonValue::Object(m)) => {
            let mut out: Vec<(String, String)> = Vec::new();
            let mut i: usize = 0;
            while i < m.len()
                invariant
                    i <= m@.len(),
                    f.0 is Some && *f.0.unwrap() == JsonValue::Object(*m),
                    pairs_view(out@) == string_pairs(m@.take(i as int)),
                    forall|j: int| 0 <= j < i ==> (#[trigger] m@[j]).1 is Str,
                decreases m@.len() - i,
            {
                match &m[i].1 {
                    JsonValue::Str(s) => {
                        out.push((copy_string(&m[i].0), copy_string(s)));
                        assert(string_pairs(m@.take(i + 1)) =~= string_pairs(m@.take(i as int)).push(
                            (m@[i as int].0@, s@),
                        ));
                        assert(pairs_view(out@) =~= pairs_view(out@.drop_last()).push(
                            (m@[i as int].0@, s@),
                        ));
                    },
                    _ => {
                        assert(!all_string_values(m@));
                        return Err(());
                    },
                }
                i = i + 1;
            }
            assert(m@.take(m@.len() as int) =~= m@);
            Ok(Some(out))
        },
        _ => Err(()),
    }
}

/// The description part of a PyPI response: name, summary, project URLs
/// and latest version.
pub open spec fn decode_pypi_info(v: JsonValue) -> Option<
    (Seq<char>, Option<Seq<char>>, Option<Seq<(Seq<char>, Seq<char>)>>, Seq<char>),
> {
    match (
        field_of(v, "name"@, 0, 4),
        field_of(v, "summary"@, 1, 4),
        field_of(v, "project_urls"@, 2, 4),
        field_of(v, "version"@, 3, 4),
    ) {
        (Some(n), Some(s), Some(u), Some(ver)) => match (
            string_field(n.0),
            opt_string_field(s, false),
            opt_string_map_field(u),
            string_field(ver.0),
        ) {
            (Some(a), Some(b), Some(c), Some(d)) => Some((a, b, c, d)),
            _ => None,
        },
        _ => None,
    }
}

/// Whether one release file was yanked (`yanked` is an optional boolean).
pub open spec fn release_yanked(v: JsonValue) -> Option<bool> {
    match field_of(v, "yanked"@, 0, 1) {
        None => None,
        Some(f) => match opt_bool_field(f) {
            None => None,
            Some(y) => Some(y == Some(true)),
        },
    }
}

/// Whether any of a list of release files was yanked.
pub open spec fn any_yanked(items: Seq<JsonValue>) -> Option<bool>
    decreases items.len(),
{
    if items.len() == 0 {
        Some(false)
    } else {
        match (any_yanked(items.drop_last()), release_yanked(items.last())) {
            (Some(a), Some(b)) => Some(a || b),
            _ => None,
        }
    }
}

/// Each release of the `releases` object with whether one of its files was
/// yanked.
pub open spec fn release_entries(m: Seq<(String, JsonValue)>) -> Option<Seq<(Seq<char>, bool)>>
    decreases m.len(),
{
    if m.len() == 0 {
        Some(seq![])
    } else {
        match (
            release_entries(m.drop_last()),
            match m.last().1 {
                JsonValue::Array(items) => any_yanked(items@),
                _ => None,
            },
        ) {
            (Some(p), Some(y)) => Some(p.push((m.last().0@, y))),
            _ => None,
        }
    }
}

/// A PyPI package response: its description and its releases.
pub open spec fn decode_pypi_response(root: JsonValue) -> Option<
    (
        (Seq<char>, Option<Seq<char>>, Option<Seq<(Seq<char>, Seq<char>)>>, Seq<char>),
        Seq<(Seq<char>, bool)>,
    ),
> {
    match (field_of(root, "info"@, 0, 2), field_of(root, "releases"@, 1, 2)) {
        (Some((Some(i), _)), Some((Some(JsonValue::Object(rm)), _))) => match (
            decode_pypi_info(i),
            release_entries(rm@),
        ) {
            (Some(a), Some(b)) => Some((a, b)),
            _ => None,
        },
        _ => None,
    }
}

fn decode_info_value(v: &JsonValue) -> (r: Option<(String, Option<String>, Option<Vec<(String, String)>>, String)>)
    ensures
        match decode_pypi_info(*v) {
            None => r is None,
            Some(i) => r is Some && r.unwrap().0@ == i.0 && match i.1 {
                Some(x) => r.unwrap().1 is Some && r.unwrap().1.unwrap()@ == x,
                None => r.unwrap().1 is None,
            } && match i.2 {
                Some(x) => r.unwrap().2 is Some && pairs_view(r.unwrap().2.unwrap()@) == x,
                None => r.unwrap().2 is None,
            } && r.unwrap().3@ == i.3,
        },
{
    proof {
        reveal_strlit("name");
        reveal_strlit("summary");
        reveal_strlit("project_urls");
        reveal_strlit("version");
    }
    let n = match get_field(v, "name", 0, 4) {
        Some(f) => f,
        None => return None,
    };
    let s = match get_field(v, "summary", 1, 4) {
        Some(f) => f,
        None => return None,
    };
    let u = match get_field(v, "project_urls", 2, 4) {
        Some(f) => f,
        None => return None,
    };
    let ver = match get_field(v, "version", 3, 4) {
        Some(f) => f,
        None => return None,
    };
    let name = match required_string(n.0) {
        Some(x) => x,
        None => return None,
    };
    let summary = match optional_string(s, false) {
        Ok(x) => x,
        Err(_) => return None,
    };
    let urls = match optional_string_map(u) {
        Ok(x) => x,
        Err(_) => return None,
    };
    let version = match required_string(ver.0) {
        Some(x) => x,
        None => return None,
    };
    Some((name, summary, urls, version))
}

fn release_yanked_value(v: &JsonValue) -> (r: Option<bool>)
    ensures
        r == release_yanked(*v),
{
    proof {
        reveal_strlit("yanked");
    }
    match get_field(v, "yanked", 0, 1) {
        None => None,
        Some(f) => match optional_bool(f) {
            Err(_) => None,
            Ok(y) => Some(y == Some(true)),
        },
    }
}

fn any_yanked_value(items: &Vec<JsonValue>) -> (r: Option<bool>)
    ensures
        r == any_yanked(items@),
{
    let mut acc = false;
    let mut i: usize = 0;
    while i < items.len()
        invariant
            i <= items@.len(),
            any_yanked(items@.take(i as int)) == Some(acc),
        decreases items@.len() - i,
    {
        assert(items@.take(i + 1).drop_last() =~= items@.take(i as int));
        assert(items@.take(i + 1).last() == items@[i as int]);
        match release_yanked_value(&items[i]) {
            None => {
                proof {
                    lemma_any_yanked_prefix(items@, i + 1);
                }
                return None;
            },
            Some(y) => {
                acc = acc || y;
            },
        }
        i = i + 1;
    }
    assert(items@.take(items@.len() as int) =~= items@);
    Some(acc)
}

proof fn lemma_any_yanked_prefix(items: Seq<JsonValue>, k: int)
    requires
        0 <= k <= items.len(),
        any_yanked(items.take(k)) is None,
    ensures
        any_yanked(items) is None,
    decreases items.len() - k,
{
    if k < items.len() {
        assert(items.take(k + 1).drop_last() =~= items.take(k));
        lemma_any_yanked_prefix(items, k + 1);
    } else {
        assert(items.take(k) =~= items);
    }
}

proof fn lemma_release_entries_prefix(m: Seq<(String, JsonValue)>, k: int)
    requires
        0 <= k <= m.len(),
        release_entries(m.take(k)) is None,
    ensures
        release_entries(m) is None,
    decreases m.len() - k,
{
    if k < m.len() {
        assert(m.take(k + 1).drop_last() =~= m.take(k));
        lemma_release_entries_prefix(m, k + 1);
    } else {
        assert(m.take(k) =~= m);
    }
}

pub open spec fn entries_view(v: Seq<(String, bool)>) -> Seq<(Seq<char>, bool)> {
    v.map_values(|p: (String, bool)| (p.0@, p.1))
}

fn release_entries_value(m: &Vec<(String, JsonValue)>) -> (r: Option<Vec<(String, bool)>>)
    ensures
        match release_entries(m@) {
            None => r is None,
            Some(e) => r is Some && entries_view(r.unwrap()@) == e,
        },
{
    let mut out: Vec<(String, bool)> = Vec::new();
    let mut i: usize = 0;
    while i < m.len()
        invariant
            i <= m@.len(),
            release_entries(m@.take(i as int)) is Some,
            entries_view(out@) == release_entries(m@.take(i as int))->0,
        decreases m@.len() - i,
    {
        assert(m@.take(i + 1).drop_last() =~= m@.take(i as int));
        assert(m@.take(i + 1).last() == m@[i as int]);
        let y = match &m[i].1 {
            JsonValue::Array(items) => any_yanked_value(items),
            _ => None,
        };
        match y {
            None => {
                proof {
                    lemma_release_entries_prefix(m@, i + 1);
                }
                return None;
            },
            Some(y) => {
                out.push((copy_string(&m[i].0), y));
                assert(entries_view(out@) =~= entries_view(out@.drop_last()).push((m@[i as int].0@, y)));
            },
        }
        i = i + 1;
    }
    assert(m@.take(m@.len() as int) =~= m@);
    Some(out)
}

/// The description and releases of a PyPI response.
fn decode_response_value(root: &JsonValue) -> (r: Option<(
    (String, Option<String>, Option<Vec<(String, String)>>, String),
    Vec<(String, bool)>,
)>)
    ensures
        match decode_pypi_response(*root) {
            None => r is None,
            Some(d) => r is Some && {
                let (info, rel) = r.unwrap();
                &&& info.0@ == d.0.0
                &&& match d.0.1 {
                    Some(x) => info.1 is Some && info.1.unwrap()@ == x,
                    None => info.1 is None,
                }
                &&& match d.0.2 {
                    Some(x) => info.2 is Some && pairs_view(info.2.unwrap()@) == x,
                    None => info.2 is None,
                }
                &&& info.3@ == d.0.3
                &&& entries_view(rel@) == d.1
            },
        },
{
    proof {
        reveal_strlit("info");
        reveal_strlit("releases");
    }
    let i = match get_field(root, "info", 0, 2) {
        Some((Some(i), _)) => i,
        _ => return None,
    };
    let rm = match get_field(root, "releases", 1, 2) {
        Some((Some(JsonValue::Object(rm)), _)) => rm,
        _ => return None,
    };
    let info = match decode_info_value(i) {
        Some(x) => x,
        None => return None,
    };
    let rel = match release_entries_value(rm) {
        Some(x) => x,
        None => return None,
    };
    Some((info, rel))
}

/// `p` is the package a decoded `info` object describes (its project URLs
/// none where the response has none).
pub open spec fn package_of_info(
    p: PypiPackage,
    info: (Seq<char>, Option<Seq<char>>, Option<Seq<(Seq<char>, Seq<char>)>>, Seq<char>),
) -> bool {
    &&& p.name@ == info.0
    &&& match info.1 {
        Some(x) => p.summary is Some && p.summary->0@ == x,
        None => p.summary is None,
    }
    &&& pairs_view(p.project_urls@) == match info.2 {
        Some(x) => x,
        None => seq![],
    }
    &&& p.latest_version@ == info.3
}

/// The package a PyPI response describes (its project URLs in the order the
/// response gives them, none where it has none); an error where the response
/// does not decode.
pub fn package_info_from_json(root: &JsonValue) -> (r: Result<PypiPackage, PypiError>)
    ensures
        match decode_pypi_response(*root) {
            None => r matches Err(PypiError::InvalidResponse),
            Some(d) => r is Ok && package_of_info(r->Ok_0, d.0),
        },
{
    match decode_response_value(root) {
        None => Err(PypiError::InvalidResponse),
        Some((info, _)) => {
            let (name, summary, urls, version) = info;
            let project_urls = match urls {
                Some(u) => u,
                None => {
                    let e: Vec<(String, String)> = Vec::new();
                    assert(pairs_view(e@) =~= Seq::<(Seq<char>, Seq<char>)>::empty());
                    e
                },
            };
            Ok(PypiPackage { name, summary, project_urls, latest_version: version })
        },
    }
}

/// Releases whose version reads under PEP 440.
pub open spec fn valid_releases(rs: Seq<(Seq<char>, bool)>) -> Seq<(Seq<char>, bool)> {
    rs.filter(|r: (Seq<char>, bool)| pep440_version_valid(r.0))
}

/// Each release is at least as new as the next.
pub open spec fn newest_first(s: Seq<(Seq<char>, bool)>) -> bool {
    forall|k: int| 0 <= k < s.len() - 1 ==> pep440_order(#[trigger] s[k].0, s[k + 1].0) >= 0
}

pub open spec fn sort_view(out: Seq<(PypiVersion, Pep440Version)>) -> Seq<(Seq<char>, bool)> {
    out.map_values(|p: (PypiVersion, Pep440Version)| version_view(p.0))
}

/// Inserts a release among releases ordered newest first, after those at
/// least as new.
fn insert_newest_first(out: &mut Vec<(PypiVersion, Pep440Version)>, x: (PypiVersion, Pep440Version))
    requires
        x.1@ == x.0.version@,
        forall|k: int| 0 <= k < old(out)@.len() ==> (#[trigger] old(out)@[k]).1@ == old(out)@[k].0.version@,
        newest_first(sort_view(old(out)@)),
    ensures
        forall|k: int| 0 <= k < final(out)@.len() ==> (#[trigger] final(out)@[k]).1@ == final(out)@[k].0.version@,
        newest_first(sort_view(final(out)@)),
        sort_view(final(out)@).to_multiset() == sort_view(old(out)@).to_multiset().insert(version_view(x.0)),
{
    let mut j = out.len();
    while j > 0 && compare(&out[j - 1].1, &x.1) < 0
        invariant
            j <= out@.len(),
            out@ == old(out)@,
            x.1@ == x.0.version@,
            forall|k: int| 0 <= k < out@.len() ==> (#[trigger] out@[k]).1@ == out@[k].0.version@,
            j < out@.len() ==> pep440_order(x.0.version@, out@[j as int].0.version@) > 0,
        decreases j,
    {
        j = j - 1;
    }
    proof {
        if j > 0 {
            assert(pep440_order(out@[j - 1].0.version@, x.0.version@) >= 0);
        }
    }
    let ghost before = out@;
    let ghost xv = version_view(x.0);
    out.insert(j, x);
    proof {
        let sv = sort_view(before);
        assert(sort_view(out@) =~= sv.insert(j as int, xv));
        vstd::seq_lib::to_multiset_insert(sv, j as int, xv);
        let s = sort_view(out@);
        assert forall|k: int| 0 <= k < s.len() - 1 implies pep440_order(#[trigger] s[k].0, s[k + 1].0) >= 0 by {
            if k < j - 1 {
                assert(s[k] == sv[k] && s[k + 1] == sv[k + 1]);
            } else if k == j - 1 {
                assert(s[k] == sv[k] && s[k + 1] == xv);
            } else if k == j {
                assert(s[k] == xv && s[k + 1] == sv[k]);
            } else {
                assert(s[k] == sv[k - 1] && s[k + 1] == sv[k]);
            }
        }
        assert forall|k: int| 0 <= k < out@.len() implies (#[trigger] out@[k]).1@ == out@[k].0.version@ by {
            if k < j {
                assert(out@[k] == before[k]);
            } else if k > j {
                assert(out@[k] == before[k - 1]);
            }
        }
    }
}

/// The releases of a PyPI response whose version reads under PEP 440,
/// newest first, each marked yanked where one of its files was; an error
/// where the response does not decode.
pub fn package_metadata_from_json(root: &JsonValue) -> (r: Result<Vec<PypiVersion>, PypiError>)
    ensures
        match decode_pypi_response(*root) {
            None => r matches Err(PypiError::InvalidResponse),
            Some(d) => r is Ok && versions_view(r->Ok_0@).to_multiset() == valid_releases(
                d.1,
            ).to_multiset() && newest_first(versions_view(r->Ok_0@)),
        },
{
    let rel = match decode_response_value(root) {
        None => return Err(PypiError::InvalidResponse),
        Some((_, rel)) => rel,
    };
    let ghost e = entries_view(rel@);
    let ghost pred = |r: (Seq<char>, bool)| pep440_version_valid(r.0);
    let mut out: Vec<(PypiVersion, Pep440Version)> = Vec::new();
    let mut i: usize = 0;
    proof {
        assert(sort_view(out@) =~= Seq::<(Seq<char>, bool)>::empty());
        assert(e.take(0).filter(pred) =~= Seq::<(Seq<char>, bool)>::empty()) by {
            reveal(Seq::filter);
        }
    }
    while i < rel.len()
        invariant
            i <= rel@.len(),
            e == entries_view(rel@),
            pred == (|r: (Seq<char>, bool)| pep440_version_valid(r.0)),
            forall|k: int| 0 <= k < out@.len() ==> (#[trigger] out@[k]).1@ == out@[k].0.version@,
            newest_first(sort_view(out@)),
            sort_view(out@).to_multiset() == e.take(i as int).filter(pred).to_multiset(),
        decreases rel@.len() - i,
    {
        proof {
            assert(e.take(i + 1) =~= e.take(i as int).push(e[i as int]));
            crate::pypi::lemma_filter_push(e.take(i as int), pred, e[i as int]);
            assert(e[i as int] == (rel@[i as int].0@, rel@[i as int].1));
        }
        match parse_version(rel[i].0.as_str()) {
            None => {},
            Some(pv) => {
                let v = PypiVersion { version: copy_string(&rel[i].0), yanked: rel[i].1 };
                proof {
                    vstd::seq_lib::to_multiset_build(e.take(i as int).filter(pred), e[i as int]);
                }
                insert_newest_first(&mut out, (v, pv));
            },
        }
        i = i + 1;
    }
    assert(e.take(rel@.len() as int) =~= e);
    let mut r: Vec<PypiVersion> = Vec::new();
    let mut k: usize = 0;
    while k < out.len()
        invariant
            k <= out@.len(),
            versions_view(r@) == sort_view(out@).take(k as int),
        decreases out@.len() - k,
    {
        r.push(out[k].0.clone());
        assert(versions_view(r@) =~= versions_view(r@.drop_last()).push(version_view(out@[k as int].0)));
        assert(sort_view(out@).take(k + 1) =~= sort_view(out@).take(k as int).push(version_view(out@[k as int].0)));
        k = k + 1;
    }
    assert(sort_view(out@).take(out@.len() as int) =~= sort_view(out@));
    Ok(r)
}

/// Whether one version of an npm package response is deprecated: it has a
/// `deprecated` message (an optional string with a default).
pub open spec fn version_deprecated(v: JsonValue) -> Option<bool> {
    match field_of(v, "deprecated"@, 0, 1) {
        None => None,
        Some(f) => match opt_string_field(f, true) {
            None => None,
            Some(d) => Some(d is Some),
        },
    }
}

/// Each version of the `versions` object with whether it is deprecated.
pub open spec fn npm_version_entries(m: Seq<(String, JsonValue)>) -> Option<Seq<(Seq<char>, bool)>>
    decreases m.len(),
{
    if m.len() == 0 {
        Some(seq![])
    } else {
        match (npm_version_entries(m.drop_last()), version_deprecated(m.last().1)) {
            (Some(p), Some(d)) => Some(p.push((m.last().0@, d))),
            _ => None,
        }
    }
}

/// The versions of an npm package response.
pub open spec fn decode_npm_metadata(root: JsonValue) -> Option<Seq<(Seq<char>, bool)>> {
    match field_of(root, "versions"@, 0, 1) {
        Some((Some(JsonValue::Object(m)), _)) => npm_version_entries(m@),
        _ => None,
    }
}

/// `a` reads as a newer version than `b`; versions that do not read are
/// never newer nor older.
pub open spec fn npm_newer(a: Seq<char>, b: Seq<char>) -> bool {
    semver_version_valid(a) && semver_version_valid(b) && semver_order(a, b) > 0
}

/// No version is newer than the one before it.
pub open spec fn npm_newest_first(s: Seq<(Seq<char>, bool)>) -> bool {
    forall|k: int| 0 <= k < s.len() - 1 ==> !npm_newer(s[k + 1].0, #[trigger] s[k].0)
}

pub open spec fn npm_sort_view(out: Seq<(NpmVersion, Option<SemverVersion>)>) -> Seq<(Seq<char>, bool)> {
    out.map_values(|p: (NpmVersion, Option<SemverVersion>)| npm_version_view(p.0))
}

/// The parse of an entry matches its text.
pub open spec fn parsed_matches(p: (NpmVersion, Option<SemverVersion>)) -> bool {
    match p.1 {
        Some(v) => v@ == p.0.version@ && semver_version_valid(p.0.version@),
        None => !semver_version_valid(p.0.version@),
    }
}

fn npm_newer_exec(a: &Option<SemverVersion>, b: &Option<SemverVersion>) -> (r: bool)
    ensures
        r == match (a, b) {
            (Some(x), Some(y)) => semver_order(x@, y@) > 0,
            _ => false,
        },
        match (a, b) {
            (Some(x), Some(y)) => semver_order(y@, x@) == -semver_order(x@, y@),
            _ => true,
        },
{
    match (a, b) {
        (Some(x), Some(y)) => crate::semver::compare(x, y) > 0,
        _ => false,
    }
}

/// Inserts a version among versions ordered newest first, before the
/// first one it is newer than from the end.
fn insert_npm_newest_first(
    out: &mut Vec<(NpmVersion, Option<SemverVersion>)>,
    x: (NpmVersion, Option<SemverVersion>),
)
    requires
        parsed_matches(x),
        forall|k: int| 0 <= k < old(out)@.len() ==> parsed_matches(#[trigger] old(out)@[k]),
        npm_newest_first(npm_sort_view(old(out)@)),
    ensures
        forall|k: int| 0 <= k < final(out)@.len() ==> parsed_matches(#[trigger] final(out)@[k]),
        npm_newest_first(npm_sort_view(final(out)@)),
        npm_sort_view(final(out)@).to_multiset() == npm_sort_view(old(out)@).to_multiset().insert(
            npm_version_view(x.0),
        ),
{
    let mut j = out.len();
    while j > 0 && npm_newer_exec(&x.1, &out[j - 1].1)
        invariant
            j <= out@.len(),
            out@ == old(out)@,
            parsed_matches(x),
            forall|k: int| 0 <= k < out@.len() ==> parsed_matches(#[trigger] out@[k]),
            j < out@.len() ==> !npm_newer(out@[j as int].0.version@, x.0.version@),
        decreases j,
    {
        j = j - 1;
    }
    proof {
        if j > 0 {
            assert(!npm_newer(x.0.version@, out@[j - 1].0.version@));
        }
    }
    let ghost before = out@;
    let ghost xv = npm_version_view(x.0);
    out.insert(j, x);
    proof {
        let sv = npm_sort_view(before);
        assert(npm_sort_view(out@) =~= sv.insert(j as int, xv));
        vstd::seq_lib::to_multiset_insert(sv, j as int, xv);
        let s = npm_sort_view(out@);
        assert forall|k: int| 0 <= k < s.len() - 1 implies !npm_newer(s[k + 1].0, #[trigger] s[k].0) by {
            if k < j - 1 {
                assert(s[k] == sv[k] && s[k + 1] == sv[k + 1]);
            } else if k == j - 1 {
                assert(s[k] == sv[k] && s[k + 1] == xv);
            } else if k == j {
                assert(s[k] == xv && s[k + 1] == sv[k]);
            } else {
                assert(s[k] == sv[k - 1] && s[k + 1] == sv[k]);
            }
        }
        assert forall|k: int| 0 <= k < out@.len() implies parsed_matches(#[trigger] out@[k]) by {
            if k < j {
                assert(out@[k] == before[k]);
            } else if k > j {
                assert(out@[k] == before[k - 1]);
            }
        }
    }
}

proof fn lemma_npm_entries_prefix(m: Seq<(String, JsonValue)>, k: int)
    requires
        0 <= k <= m.len(),
        npm_version_entries(m.take(k)) is None,
    ensures
        npm_version_entries(m) is None,
    decreases m.len() - k,
{
    if k < m.len() {
        assert(m.take(k + 1).drop_last() =~= m.take(k));
        lemma_npm_entries_prefix(m, k + 1);
    } else {
        assert(m.take(k) =~= m);
    }
}

/// The versions of an npm package response, newest first, each marked
/// deprecated where it has a deprecation message; an error where the
/// response does not decode.
pub fn npm_metadata_from_json(root: &JsonValue) -> (r: Result<Vec<NpmVersion>, NpmError>)
    ensures
        match decode_npm_metadata(*root) {
            None => r matches Err(NpmError::InvalidStructure { .. }),
            Some(d) => r is Ok && npm_versions_view(r->Ok_0@).to_multiset() == d.to_multiset()
                && npm_newest_first(npm_versions_view(r->Ok_0@)),
        },
{
    proof {
        reveal_strlit("versions");
        reveal_strlit("deprecated");
    }
    let m = match get_field(root, "versions", 0, 1) {
        Some((Some(JsonValue::Object(m)), _)) => m,
        _ => return Err(NpmError::invalid_structure("package response without versions".to_string())),
    };
    let mut out: Vec<(NpmVersion, Option<SemverVersion>)> = Vec::new();
    let mut i: usize = 0;
    proof {
        assert(npm_sort_view(out@) =~= Seq::<(Seq<char>, bool)>::empty());
    }
    while i < m.len()
        invariant
            i <= m@.len(),
            decode_npm_metadata(*root) == npm_version_entries(m@),
            npm_version_entries(m@.take(i as int)) is Some,
            forall|k: int| 0 <= k < out@.len() ==> parsed_matches(#[trigger] out@[k]),
            npm_newest_first(npm_sort_view(out@)),
            npm_sort_view(out@).to_multiset() == npm_version_entries(m@.take(i as int))->0.to_multiset(),
        decreases m@.len() - i,
    {
        assert(m@.take(i + 1).drop_last() =~= m@.take(i as int));
        assert(m@.take(i + 1).last() == m@[i as int]);
        let deprecated = match get_field(&m[i].1, "deprecated", 0, 1) {
            None => None,
            Some(f) => match optional_string(f, true) {
                Err(_) => None,
                Ok(d) => Some(d.is_some()),
            },
        };
        match deprecated {
            None => {
                proof {
                    lemma_npm_entries_prefix(m@, i + 1);
                }
                return Err(NpmError::invalid_structure("malformed version entry".to_string()));
            },
            Some(d) => {
                let v = NpmVersion { version: copy_string(&m[i].0), deprecated: d };
                let parsed = crate::semver::parse_version(m[i].0.as_str());
                proof {
                    vstd::seq_lib::to_multiset_build(
                        npm_version_entries(m@.take(i as int))->0,
                        (m@[i as int].0@, d),
                    );
                }
                insert_npm_newest_first(&mut out, (v, parsed));
            },
        }
        i = i + 1;
    }
    assert(m@.take(m@.len() as int) =~= m@);
    let mut r: Vec<NpmVersion> = Vec::new();
    let mut k: usize = 0;
    while k < out.len()
        invariant
            k <= out@.len(),
            npm_versions_view(r@) == npm_sort_view(out@).take(k as int),
        decreases out@.len() - k,
    {
        r.push(out[k].0.clone());
        assert(npm_versions_view(r@) =~= npm_versions_view(r@.drop_last()).push(
            npm_version_view(out@[k as int].0),
        ));
        assert(npm_sort_view(out@).take(k + 1) =~= npm_sort_view(out@).take(k as int).push(
            npm_version_view(out@[k as int].0),
        ));
        k = k + 1;
    }
    assert(npm_sort_view(out@).take(out@.len() as int) =~= npm_sort_view(out@));
    Ok(r)
}

/// The links of a search result: homepage and repository, each optional;
/// none at all where they are absent or `null`.
pub open spec fn decode_links(f: Option<JsonValue>) -> Option<(Option<Seq<char>>, Option<Seq<char>>)> {
    match f {
        None => Some((None, None)),
        Some(JsonValue::Null) => Some((None, None)),
        Some(v) => match (field_of(v, "homepage"@, 0, 2), field_of(v, "repository"@, 1, 2)) {
            (Some(h), Some(r)) => match (opt_string_field(h, true), opt_string_field(r, true)) {
                (Some(a), Some(b)) => Some((a, b)),
                _ => None,
            },
            _ => None,
        },
    }
}

/// One package of a search response: name, description, links, version.
pub open spec fn decode_search_package(v: JsonValue) -> Option<
    (Seq<char>, Option<Seq<char>>, Option<Seq<char>>, Option<Seq<char>>, Seq<char>),
> {
    match (
        field_of(v, "name"@, 0, 4),
        field_of(v, "description"@, 1, 4),
        field_of(v, "links"@, 2, 4),
        field_of(v, "version"@, 3, 4),
    ) {
        (Some(n), Some(d), Some(l), Some(ver)) => match (
            string_field(n.0),
            opt_string_field(d, true),
            decode_links(l.0),
            string_field(ver.0),
        ) {
            (Some(a), Some(b), Some(c), Some(e)) => Some((a, b, c.0, c.1, e)),
            _ => None,
        },
        _ => None,
    }
}

/// The packages of a list of search results.
pub open spec fn search_objects(items: Seq<JsonValue>) -> Option<
    Seq<(Seq<char>, Option<Seq<char>>, Option<Seq<char>>, Option<Seq<char>>, Seq<char>)>,
>
    decreases items.len(),
{
    if items.len() == 0 {
        Some(seq![])
    } else {
        match (
            search_objects(items.drop_last()),
            match field_of(items.last(), "package"@, 0, 1) {
                Some((Some(p), _)) => decode_search_package(p),
                _ => None,
            },
        ) {
            (Some(a), Some(p)) => Some(a.push(p)),
            _ => None,
        }
    }
}

/// The packages of an npm search response.
pub open spec fn decode_search_response(root: JsonValue) -> Option<
    Seq<(Seq<char>, Option<Seq<char>>, Option<Seq<char>>, Option<Seq<char>>, Seq<char>)>,
> {
    match field_of(root, "objects"@, 0, 1) {
        Some((Some(JsonValue::Array(items)), _)) => search_objects(items@),
        _ => None,
    }
}

pub open spec fn opt_str_view(o: Option<String>) -> Option<Seq<char>> {
    match o {
        Some(s) => Some(s@),
        None => None,
    }
}

pub open spec fn package_view(p: NpmPackage) -> (
    Seq<char>,
    Option<Seq<char>>,
    Option<Seq<char>>,
    Option<Seq<char>>,
    Seq<char>,
) {
    (p.name@, opt_str_view(p.description), opt_str_view(p.homepage), opt_str_view(p.repository), p.latest_version@)
}

fn decode_links_value(f: Option<&JsonValue>) -> (r: Result<(Option<String>, Option<String>), ()>)
    ensures
        match decode_links(
            match f {
                Some(x) => Some(*x),
                None => None,
            },
        ) {
            Some(l) => r is Ok && opt_str_view(r->Ok_0.0) == l.0 && opt_str_view(r->Ok_0.1) == l.1,
            None => r is Err,
        },
{
    proof {
        reveal_strlit("homepage");
        reveal_strlit("repository");
    }
    match f {
        None => Ok((None, None)),
        Some(JsonValue::Null) => Ok((None, None)),
        Some(v) => {
            let h = match get_field(v, "homepage", 0, 2) {
                Some(h) => h,
                None => return Err(()),
            };
            let r = match get_field(v, "repository", 1, 2) {
                Some(r) => r,
                None => return Err(()),
            };
            let a = match optional_string(h, true) {
                Ok(a) => a,
                Err(_) => return Err(()),
            };
            let b = match optional_string(r, true) {
                Ok(b) => b,
                Err(_) => return Err(()),
            };
            Ok((a, b))
        },
    }
}

fn decode_search_package_value(v: &JsonValue) -> (r: Option<NpmPackage>)
    ensures
        match decode_search_package(*v) {
            Some(p) => r is Some && package_view(r->0) == p,
            None => r is None,
        },
{
    proof {
        reveal_strlit("name");
        reveal_strlit("description");
        reveal_strlit("links");
        reveal_strlit("version");
    }
    let n = match get_field(v, "name", 0, 4) {
        Some(f) => f,
        None => return None,
    };
    let d = match get_field(v, "description", 1, 4) {
        Some(f) => f,
        None => return None,
    };
    let l = match get_field(v, "links", 2, 4) {
        Some(f) => f,
        None => return None,
    };
    let ver = match get_field(v, "version", 3, 4) {
        Some(f) => f,
        None => return None,
    };
    let name = match required_string(n.0) {
        Some(x) => x,
        None => return None,
    };
    let description = match optional_string(d, true) {
        Ok(x) => x,
        Err(_) => return None,
    };
    let (homepage, repository) = match decode_links_value(l.0) {
        Ok(x) => x,
        Err(_) => return None,
    };
    let version = match required_string(ver.0) {
        Some(x) => x,
        None => return None,
    };
    Some(NpmPackage { name, description, homepage, repository, latest_version: version })
}

proof fn lemma_search_prefix(items: Seq<JsonValue>, k: int)
    requires
        0 <= k <= items.len(),
        search_objects(items.take(k)) is None,
    ensures
        search_objects(items) is None,
    decreases items.len() - k,
{
    if k < items.len() {
        assert(items.take(k + 1).drop_last() =~= items.take(k));
        lemma_search_prefix(items, k + 1);
    } else {
        assert(items.take(k) =~= items);
    }
}

/// The packages of an npm search response, in order; an error where the
/// response does not decode.
pub fn search_response_from_json(root: &JsonValue) -> (r: Result<Vec<NpmPackage>, NpmError>)
    ensures
        match decode_search_response(*root) {
            None => r matches Err(NpmError::InvalidStructure { .. }),
            Some(ps) => r is Ok && r->Ok_0@.map_values(|p: NpmPackage| package_view(p)) == ps,
        },
{
    proof {
        reveal_strlit("objects");
        reveal_strlit("package");
    }
    let items = match get_field(root, "objects", 0, 1) {
        Some((Some(JsonValue::Array(items)), _)) => items,
        _ => return Err(NpmError::invalid_structure("search response without objects".to_string())),
    };
    let mut out: Vec<NpmPackage> = Vec::new();
    let mut i: usize = 0;
    while i < items.len()
        invariant
            i <= items@.len(),
            decode_search_response(*root) == search_objects(items@),
            search_objects(items@.take(i as int)) is Some,
            out@.map_values(|p: NpmPackage| package_view(p)) == search_objects(items@.take(i as int))->0,
        decreases items@.len() - i,
    {
        assert(items@.take(i + 1).drop_last() =~= items@.take(i as int));
        assert(items@.take(i + 1).last() == items@[i as int]);
        let p = match get_field(&items[i], "package", 0, 1) {
            Some((Some(p), _)) => decode_search_package_value(p),
            _ => None,
        };
        match p {
            None => {
                proof {
                    lemma_search_prefix(items@, i + 1);
                }
                return Err(NpmError::invalid_structure("malformed search result".to_string()));
            },
            Some(p) => {
                let ghost pv = package_view(p);
                out.push(p);
                assert(out@.map_values(|p: NpmPackage| package_view(p)) =~= out@.drop_last().map_values(
                    |p: NpmPackage| package_view(p),
                ).push(pv));
            },
        }
        i = i + 1;
    }
    assert(items@.take(items@.len() as int) =~= items@);
    Ok(out)
}

/// The package a PyPI JSON response for `package_name` describes (see
/// `package_info_from_json`); an error naming the package where the bytes
/// are not JSON or not of the response's shape.
pub fn parse_package_info(package_name: &str, data: &[u8]) -> (r: Result<PypiPackage, PypiError>)
    ensures
        match json_from_slice(data@) {
            None => r matches Err(PypiError::ApiResponseError { package, source: Some(_) })
                && package@ == package_name@,
            Some(root) => match decode_pypi_response(root) {
                None => r matches Err(PypiError::ApiResponseError { package, source: None })
                    && package@ == package_name@,
                Some(d) => r is Ok && package_of_info(r->Ok_0, d.0),
            },
        },
{
    match parse_json_slice(data) {
        Err(e) => Err(PypiError::api_response_error(package_name, e)),
        Ok(root) => match package_info_from_json(&root) {
            Ok(p) => Ok(p),
            Err(_) => Err(
                PypiError::ApiResponseError { package: package_name.to_string(), source: None },
            ),
        },
    }
}

/// The releases of a PyPI JSON response for `package_name` (see
/// `package_metadata_from_json`); an error naming the package where the
/// bytes are not JSON or not of the response's shape.
pub fn parse_package_metadata(package_name: &str, data: &[u8]) -> (r: Result<
    Vec<PypiVersion>,
    PypiError,
>)
    ensures
        match json_from_slice(data@) {
            None => r matches Err(PypiError::ApiResponseError { package, source: Some(_) })
                && package@ == package_name@,
            Some(root) => match decode_pypi_response(root) {
                None => r matches Err(PypiError::ApiResponseError { package, source: None })
                    && package@ == package_name@,
                Some(d) => r is Ok && versions_view(r->Ok_0@).to_multiset() == valid_releases(
                    d.1,
                ).to_multiset() && newest_first(versions_view(r->Ok_0@)),
            },
        },
{
    match parse_json_slice(data) {
        Err(e) => Err(PypiError::api_response_error(package_name, e)),
        Ok(root) => match package_metadata_from_json(&root) {
            Ok(v) => Ok(v),
            Err(_) => Err(
                PypiError::ApiResponseError { package: package_name.to_string(), source: None },
            ),
        },
    }
}

/// The versions of an npm JSON package response (see
/// `npm_metadata_from_json`); a JSON error where the bytes are not JSON or
/// not of the response's shape.
pub fn parse_npm_package_metadata(data: &[u8]) -> (r: Result<Vec<NpmVersion>, NpmError>)
    ensures
        match json_from_slice(data@) {
            None => r matches Err(NpmError::JsonParseError { source: Some(_) }),
            Some(root) => match decode_npm_metadata(root) {
                None => r matches Err(NpmError::JsonParseError { source: None }),
                Some(d) => r is Ok && npm_versions_view(r->Ok_0@).to_multiset() == d.to_multiset()
                    && npm_newest_first(npm_versions_view(r->Ok_0@)),
            },
        },
{
    match parse_json_slice(data) {
        Err(e) => Err(NpmError::JsonParseError { source: Some(e) }),
        Ok(root) => match npm_metadata_from_json(&root) {
            Ok(v) => Ok(v),
            Err(_) => Err(NpmError::JsonParseError { source: None }),
        },
    }
}

/// The packages of an npm JSON search response (see
/// `search_response_from_json`); a JSON error where the bytes are not JSON
/// or not of the response's shape.
pub fn parse_search_response(data: &[u8]) -> (r: Result<Vec<NpmPackage>, NpmError>)
    ensures
        match json_from_slice(data@) {
            None => r matches Err(NpmError::JsonParseError { source: Some(_) }),
            Some(root) => match decode_search_response(root) {
                None => r matches Err(NpmError::JsonParseError { source: None }),
                Some(ps) => r is Ok && r->Ok_0@.map_values(|p: NpmPackage| package_view(p)) == ps,
            },
        },
{
    match parse_json_slice(data) {
        Err(e) => Err(NpmError::JsonParseError { source: Some(e) }),
        Ok(root) => match search_response_from_json(&root) {
            Ok(v) => Ok(v),
            Err(_) => Err(NpmError::JsonParseError { source: None }),
        },
    }
}

} // verus!

verus! {

/// The package of one search result: its `package` member, decoded.
pub open spec fn search_result_package(v: JsonValue) -> Option<
    (Seq<char>, Option<Seq<char>>, Option<Seq<char>>, Option<Seq<char>>, Seq<char>),
> {
    match field_of(v, "package"@, 0, 1) {
        Some((Some(p), _)) => decode_search_package(p),
        _ => None,
    }
}

/// A list of search results decodes exactly when each of them does, and
/// then into one package per result, in the order of the results.
pub proof fn law_search_one_package_per_object(items: Seq<JsonValue>)
    ensures
        search_objects(items) is Some <==> forall|i: int|
            0 <= i < items.len() ==> #[trigger] search_result_package(items[i]) is Some,
        search_objects(items) is Some ==> search_objects(items)->0.len() == items.len(),
        search_objects(items) is Some ==> forall|i: int|
            0 <= i < items.len() ==> Some(search_objects(items)->0[i]) == #[trigger] search_result_package(
                items[i],
            ),
    decreases items.len(),
{
    if items.len() > 0 {
        let init = items.drop_last();
        law_search_one_package_per_object(init);
        assert forall|i: int| 0 <= i < init.len() implies init[i] == items[i] by {}
        if search_objects(items) is Some {
            let ps = search_objects(items)->0;
            assert forall|i: int| 0 <= i < items.len() implies Some(ps[i])
                == #[trigger] search_result_package(items[i]) by {
                if i < init.len() {
                    assert(init[i] == items[i]);
                }
            }
        }
        if forall|i: int| 0 <= i < items.len() ==> #[trigger] search_result_package(items[i]) is Some {
            assert forall|i: int| 0 <= i < init.len() implies #[trigger] search_result_package(
                init[i],
            ) is Some by {
                assert(init[i] == items[i]);
                assert(search_result_package(items[i]) is Some);
            }
            assert(search_result_package(items[items.len() - 1]) is Some);
        }
        if search_objects(items) is Some {
            assert forall|i: int| 0 <= i < items.len() implies #[trigger] search_result_package(
                items[i],
            ) is Some by {
                if i < init.len() {
                    assert(init[i] == items[i]);
                    assert(search_result_package(init[i]) is Some);
                }
            }
        }
    }
}

/// A search response with an `objects` array decodes into exactly one
/// package per object, in order, where every object decodes, and does not
/// decode otherwise.
pub proof fn law_search_response_one_package_per_object(root: JsonValue, items: Vec<JsonValue>)
    requires
        field_of(root, "objects"@, 0, 1) matches Some((Some(JsonValue::Array(a)), _)) && a == items,
    ensures
        decode_search_response(root) is Some <==> forall|i: int|
            0 <= i < items@.len() ==> #[trigger] search_result_package(items@[i]) is Some,
        decode_search_response(root) is Some ==> decode_search_response(root)->0.len()
            == items@.len() && forall|i: int|
            0 <= i < items@.len() ==> Some(decode_search_response(root)->0[i])
                == #[trigger] search_result_package(items@[i]),
{
    law_search_one_package_per_object(items@);
}

} // verus!
