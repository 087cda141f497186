//! `package.json`: the dependencies of its four dependency sections with
//! the positions of their names and versions in the text.
//!
//! Positions are LSP positions: a line number and a column counted in
//! UTF-16 code units.

use vstd::prelude::*;
use crate::types::{Position, TextRange};
use crate::npm::{NpmDependency, NpmDependencySection, NpmError};
use crate::json::{JsonValue, json_from_str, parse_json_str, member, get_member, copy_string};
use crate::text::{
    chars_of, occurs_at, trim_start, is_ws, is_whitespace, utf8_len, char_utf8_len, len_utf8,
    lemma_utf8_len_push, lemma_utf8_len_strict, lemma_boundary_unique, is_utf8_boundary,
    chars_in_bytes, occurs_in_range_at, find_in_range,
};

verus! {

/// The number of UTF-16 code units of `c`.
pub open spec fn utf16_width(c: char) -> nat {
    if (c as u32) >= 0x10000 {
        2
    } else {
        1
    }
}

/// The LSP position of character index `k` of `c`: the number of line
/// breaks before it, and the UTF-16 length of its line up to it.
pub open spec fn spec_position(c: Seq<char>, k: int) -> (nat, nat)
    decreases k,
{
    if k <= 0 {
        (0, 0)
    } else {
        let (line, col) = spec_position(c, k - 1);
        if c[k - 1] == '\n' {
            (line + 1, 0)
        } else {
            (line, col + utf16_width(c[k - 1]))
        }
    }
}

proof fn lemma_position_bound(c: Seq<char>, k: int)
    requires
        0 <= k,
    ensures
        spec_position(c, k).0 <= k,
        spec_position(c, k).1 <= 2 * k,
    decreases k,
{
    if k > 0 {
        lemma_position_bound(c, k - 1);
    }
}

pub open spec fn as_position(p: (nat, nat)) -> Position {
    Position { line: p.0 as u32, character: p.1 as u32 }
}

/// The position of character index `k` of `c`.
pub fn position_of(c: &Vec<char>, k: usize) -> (r: Position)
    requires
        k <= c@.len(),
        2 * c@.len() <= u32::MAX,
    ensures
        r == as_position(spec_position(c@, k as int)),
        r.line == spec_position(c@, k as int).0,
        r.character == spec_position(c@, k as int).1,
{
    let mut line: u32 = 0;
    let mut col: u32 = 0;
    let mut i: usize = 0;
    while i < k
        invariant
            i <= k <= c@.len(),
            2 * c@.len() <= u32::MAX,
            line == spec_position(c@, i as int).0,
            col == spec_position(c@, i as int).1,
        decreases k - i,
    {
        proof {
            lemma_position_bound(c@, i as int);
        }
        if c[i] == '\n' {
            line = line + 1;
            col = 0;
        } else {
            let w: u32 = if (c[i] as u32) >= 0x10000 {
                2
            } else {
                1
            };
            col = col + w;
        }
        i = i + 1;
    }
    Position { line, character: col }
}

/// The range at the start of the document, where a dependency whose name
/// is not found as a key is placed.
pub open spec fn zero_range() -> TextRange {
    TextRange { start: Position { line: 0, character: 0 }, end: Position { line: 0, character: 0 } }
}

/// `"` + `s` + `"`.
pub open spec fn quoted(s: Seq<char>) -> Seq<char> {
    seq!['"'] + s + seq!['"']
}

/// What follows index `k` of `c`, past white space, is a `:`.
pub open spec fn colon_follows(c: Seq<char>, k: int) -> bool {
    let t = trim_start(c.subrange(k, c.len() as int));
    t.len() > 0 && t[0] == ':'
}

/// The index of the `:` that follows index `k`.
pub open spec fn colon_index(c: Seq<char>, k: int) -> int {
    c.len() - trim_start(c.subrange(k, c.len() as int)).len()
}

/// Where the quoted name `p` first occurs as a key, looking from `j` on and
/// skipping any occurrence that begins inside an occurrence already rejected
/// (`allowed` is where the search may resume).
pub open spec fn scan_key(c: Seq<char>, p: Seq<char>, j: int, allowed: int) -> Option<int>
    decreases c.len() + 1 - j,
{
    if j < 0 || j + p.len() > c.len() {
        None
    } else if j >= allowed && occurs_at(c, p, j) {
        if colon_follows(c, j + p.len()) {
            Some(j)
        } else {
            scan_key(c, p, j + 1, j + p.len())
        }
    } else {
        scan_key(c, p, j + 1, allowed)
    }
}

/// The byte window after the colon in which a version is looked for: the
/// rest of the text, at most 100 bytes more than the version's length.
pub open spec fn version_window(c: Seq<char>, q: int, version: Seq<char>) -> int {
    let rest = utf8_len(c.subrange(q, c.len() as int));
    if rest < 100 + utf8_len(version) {
        rest
    } else {
        100 + utf8_len(version)
    }
}

/// The first occurrence of `p` in `s`, if any.
pub open spec fn first_occurrence(s: Seq<char>, p: Seq<char>) -> Option<int> {
    if exists|i: int| occurs_at(s, p, i) {
        Some(choose|i: int| occurs_at(s, p, i) && forall|j: int| 0 <= j < i ==> !occurs_at(s, p, j))
    } else {
        None
    }
}

/// Where the name and version of a dependency stand: the name is the first
/// quoted occurrence that is a key; the version the first quoted occurrence
/// of its text within the window after that key's colon. Default ranges
/// where the name is not found as a key. None where the window would end
/// inside a character.
#[verifier::opaque]
pub open spec fn spec_dependency_positions(c: Seq<char>, name: Seq<char>, version: Option<Seq<char>>) -> Option<
    (TextRange, Option<TextRange>),
> {
    match scan_key(c, quoted(name), 0, 0) {
        None => Some((zero_range(), None)),
        Some(i) => {
            let name_range = TextRange {
                start: as_position(spec_position(c, i + 1)),
                end: as_position(spec_position(c, i + 1 + name.len())),
            };
            match version {
                None => Some((name_range, None)),
                Some(v) => {
                    let q = colon_index(c, i + quoted(name).len());
                    let after = c.subrange(q, c.len() as int);
                    let limit = version_window(c, q, v);
                    if !is_utf8_boundary(after, limit) {
                        None
                    } else {
                        let area = after.take(chars_in_bytes(after, limit));
                        match first_occurrence(area, quoted(v)) {
                            None => Some((name_range, None)),
                            Some(r) => Some(
                                (
                                    name_range,
                                    Some(
                                        TextRange {
                                            start: as_position(spec_position(c, q + r + 1)),
                                            end: as_position(spec_position(c, q + r + 1 + v.len())),
                                        },
                                    ),
                                ),
                            ),
                        }
                    }
                },
            }
        },
    }
}

fn quote(s: &Vec<char>) -> (r: Vec<char>)
    ensures
        r@ == quoted(s@),
{
    let mut r: Vec<char> = Vec::new();
    r.push('"');
    let mut i: usize = 0;
    while i < s.len()
        invariant
            i <= s@.len(),
            r@ == seq!['"'] + s@.take(i as int),
        decreases s@.len() - i,
    {
        r.push(s[i]);
        assert(s@.take(i + 1) =~= s@.take(i as int).push(s@[i as int]));
        assert(r@ =~= seq!['"'] + s@.take(i + 1));
        i = i + 1;
    }
    r.push('"');
    assert(s@.take(s@.len() as int) =~= s@);
    assert(r@ =~= quoted(s@));
    r
}

/// The number of UTF-8 bytes of `s`.
fn utf8_length(s: &Vec<char>) -> (n: u128)
    ensures
        n == utf8_len(s@),
        n <= 4 * s@.len(),
{
    let mut n: u128 = 0;
    let mut i: usize = 0;
    assert(vstd::utf8::encode_utf8(s@.take(0)) =~= Seq::<u8>::empty());
    while i < s.len()
        invariant
            i <= s@.len(),
            n == utf8_len(s@.take(i as int)),
            n <= 4 * i,
        decreases s@.len() - i,
    {
        proof {
            assert(s@.take(i + 1) =~= s@.take(i as int).push(s@[i as int]));
            lemma_utf8_len_push(s@.take(i as int), s@[i as int]);
        }
        n = n + len_utf8(s[i]) as u128;
        i = i + 1;
    }
    assert(s@.take(s@.len() as int) =~= s@);
    n
}

proof fn lemma_first_occurrence(s: Seq<char>, p: Seq<char>, i: int)
    requires
        occurs_at(s, p, i),
        forall|j: int| 0 <= j < i ==> !occurs_at(s, p, j),
    ensures
        first_occurrence(s, p) == Some(i),
{
    let k = choose|k: int| occurs_at(s, p, k) && forall|j: int| 0 <= j < k ==> !occurs_at(s, p, j);
    assert(occurs_at(s, p, k));
    if k < i {
        assert(!occurs_at(s, p, k));
    } else if i < k {
        assert(!occurs_at(s, p, i));
    }
}

/// Where the quoted name `p` first stands as a key (see `scan_key`), with
/// the index of the colon after it.
fn find_key(c: &Vec<char>, p: &Vec<char>) -> (r: Option<(usize, usize)>)
    requires
        p@.len() >= 1,
    ensures
        match scan_key(c@, p@, 0, 0) {
            None => r is None,
            Some(i) => r is Some && r.unwrap().0 == i && r.unwrap().1 == colon_index(c@, i + p@.len()) && i
                + p@.len() <= r.unwrap().1 < c@.len() && c@[r.unwrap().1 as int] == ':',
        },
{
    let plen = p.len();
    let len = c.len();
    let mut j: usize = 0;
    let mut allowed: usize = 0;
    assert(c@.subrange(0, c@.len() as int) =~= c@);
    while j <= len && len - j >= plen
        invariant
            len == c@.len(),
            plen == p@.len(),
            plen >= 1,
            c@.subrange(0, c@.len() as int) == c@,
            scan_key(c@, p@, 0, 0) == scan_key(c@, p@, j as int, allowed as int),
        decreases len + 1 - j,
    {
        if j >= allowed && occurs_in_range_at(c, 0, len, p, j) {
            let mut t = j + plen;
            while t < len && is_whitespace(c[t])
                invariant
                    j + plen <= t <= len,
                    len == c@.len(),
                    trim_start(c@.subrange(j + plen, len as int)) == trim_start(
                        c@.subrange(t as int, len as int),
                    ),
                decreases len - t,
            {
                assert(c@.subrange(t as int, len as int).drop_first() =~= c@.subrange(
                    t + 1,
                    len as int,
                ));
                t = t + 1;
            }
            proof {
                if t < len {
                    assert(trim_start(c@.subrange(t as int, len as int)) == c@.subrange(
                        t as int,
                        len as int,
                    ));
                } else {
                    assert(c@.subrange(t as int, len as int).len() == 0);
                }
            }
            if t < len && c[t] == ':' {
                proof {
                    assert(trim_start(c@.subrange(j + plen, len as int)) == c@.subrange(
                        t as int,
                        len as int,
                    ));
                    assert(colon_follows(c@, j + plen));
                    assert(colon_index(c@, j + plen) == t);
                    assert(occurs_at(c@, p@, j as int));
                    assert(scan_key(c@, p@, j as int, allowed as int) == Some(j as int));
                }
                return Some((j, t));
            }
            allowed = j + plen;
        }
        j = j + 1;
    }
    None
}

/// The number of characters after index `q` that the version window holds,
/// where the window ends between two characters.
fn window_chars(c: &Vec<char>, q: usize, v: &Vec<char>) -> (r: Option<usize>)
    requires
        q < c@.len(),
    ensures
        match r {
            Some(m) => is_utf8_boundary(c@.subrange(q as int, c@.len() as int), version_window(c@, q as int, v@))
                && m == chars_in_bytes(c@.subrange(q as int, c@.len() as int), version_window(c@, q as int, v@))
                && q + m <= c@.len(),
            None => !is_utf8_boundary(c@.subrange(q as int, c@.len() as int), version_window(c@, q as int, v@)),
        },
{
    let len = c.len();
    let vlen = v.len();
    let vb = utf8_length(v);
    assert(vb <= 4 * vlen);
    let cap: u128 = 100 + vb;
    let ghost after = c@.subrange(q as int, len as int);
    let mut m: usize = 0;
    let mut acc: u128 = 0;
    assert(vstd::utf8::encode_utf8(after.take(0)) =~= Seq::<u8>::empty());
    while q + m < len && acc + (len_utf8(c[q + m]) as u128) <= cap
        invariant
            q < len == c@.len(),
            q + m <= len,
            cap <= 100 + 4 * vlen,
            after == c@.subrange(q as int, len as int),
            acc == utf8_len(after.take(m as int)),
            acc <= cap,
        decreases len - q - m,
    {
        proof {
            assert(after.take(m + 1) =~= after.take(m as int).push(after[m as int]));
            lemma_utf8_len_push(after.take(m as int), after[m as int]);
        }
        acc = acc + len_utf8(c[q + m]) as u128;
        m = m + 1;
    }
    let ghost limit = version_window(c@, q as int, v@);
    proof {
        let alen = after.len();
        if q + m == len {
            assert(after.take(m as int) =~= after);
            assert(limit == acc);
        } else {
            assert(after.take(m + 1) =~= after.take(m as int).push(after[m as int]));
            lemma_utf8_len_push(after.take(m as int), after[m as int]);
            if m + 1 < alen {
                lemma_utf8_len_strict(after, m + 1, alen as int);
            }
            assert(after.take(alen as int) =~= after);
            assert(limit == cap);
        }
        lemma_boundary_unique(after, m as int);
    }
    if q + m < len && acc != cap {
        proof {
            assert(!is_utf8_boundary(after, limit)) by {
                if is_utf8_boundary(after, limit) {
                    let k = choose|k: int|
                        0 <= k <= after.len() && utf8_len(#[trigger] after.take(k)) == limit;
                    if k > m + 1 {
                        lemma_utf8_len_strict(after, m + 1, k);
                    } else if k < m {
                        lemma_utf8_len_strict(after, k, m as int);
                    }
                }
            }
        }
        return None;
    }
    proof {
        assert(utf8_len(after.take(m as int)) == limit);
        assert(is_utf8_boundary(after, limit));
    }
    Some(m)
}

/// Where the name and version of a dependency stand (see
/// `spec_dependency_positions`).
pub fn dependency_positions(c: &Vec<char>, name: &str, version: Option<&str>) -> (r: Option<
    (TextRange, Option<TextRange>),
>)
    requires
        2 * c@.len() <= u32::MAX,
    ensures
        r == spec_dependency_positions(
            c@,
            name@,
            match version {
                Some(v) => Some(v@),
                None => None,
            },
        ),
{
    reveal(spec_dependency_positions);
    let nc = chars_of(name);
    let p = quote(&nc);
    let len = c.len();
    let (i, q) = match find_key(c, &p) {
        None => {
            let zero = Position { line: 0, character: 0 };
            return Some((TextRange { start: zero, end: zero }, None));
        },
        Some(x) => x,
    };
    assert(p@.len() == name@.len() + 2);
    let name_range = TextRange {
        start: position_of(c, i + 1),
        end: position_of(c, i + 1 + nc.len()),
    };
    let v = match version {
        None => return Some((name_range, None)),
        Some(v) => v,
    };
    let vc = chars_of(v);
    let vp = quote(&vc);
    let m = match window_chars(c, q, &vc) {
        None => return None,
        Some(m) => m,
    };
    let ghost after = c@.subrange(q as int, len as int);
    let ghost area = after.take(m as int);
    proof {
        assert(c@.subrange(q as int, q + m) =~= area);
    }
    match find_in_range(c, q, q + m, &vp, 0) {
        None => {
            proof {
                assert(forall|k: int| !occurs_at(area, quoted(v@), k));
                assert(first_occurrence(area, quoted(v@)) is None);
            }
            Some((name_range, None))
        },
        Some(r) => {
            proof {
                lemma_first_occurrence(area, quoted(v@), r as int);
                assert(vp@.len() == v@.len() + 2);
            }
            let vs = q + r + 1;
            let version_range = TextRange {
                start: position_of(c, vs),
                end: position_of(c, vs + vc.len()),
            };
            Some((name_range, Some(version_range)))
        },
    }
}

/// The members of the object under `key` of the document, where there is
/// one.
pub open spec fn section_members(root: JsonValue, key: Seq<char>) -> Seq<(String, JsonValue)> {
    match root {
        JsonValue::Object(m) => match member(m@, key) {
            Some(JsonValue::Object(d)) => d@,
            _ => seq![],
        },
        _ => seq![],
    }
}

/// The version requirement of a member: its value where that is a string.
pub open spec fn string_value(v: JsonValue) -> Option<Seq<char>> {
    match v {
        JsonValue::Str(s) => Some(s@),
        _ => None,
    }
}

/// A dependency as the contracts see it.
pub open spec fn dependency_view(d: NpmDependency) -> (
    Seq<char>,
    TextRange,
    Option<Seq<char>>,
    Option<TextRange>,
    NpmDependencySection,
) {
    (
        d.name@,
        d.name_range,
        match d.version_req {
            Some(v) => Some(v@),
            None => None,
        },
        d.version_range,
        d.section,
    )
}

/// The dependencies of one section, in order; none where a version window
/// would end inside a character.
pub open spec fn section_dependencies(
    c: Seq<char>,
    members: Seq<(String, JsonValue)>,
    section: NpmDependencySection,
) -> Option<Seq<(Seq<char>, TextRange, Option<Seq<char>>, Option<TextRange>, NpmDependencySection)>>
    decreases members.len(),
{
    if members.len() == 0 {
        Some(seq![])
    } else {
        let (name, value) = members.last();
        match (
            section_dependencies(c, members.drop_last(), section),
            spec_dependency_positions(c, name@, string_value(value)),
        ) {
            (Some(ds), Some((nr, vr))) => Some(ds.push((name@, nr, string_value(value), vr, section))),
            _ => None,
        }
    }
}

/// The dependencies of `package.json`: those of `dependencies`,
/// `devDependencies`, `peerDependencies` and `optionalDependencies`, in that
/// order; none where a version window would end inside a character.
pub open spec fn spec_package_dependencies(c: Seq<char>, root: JsonValue) -> Option<
    Seq<(Seq<char>, TextRange, Option<Seq<char>>, Option<TextRange>, NpmDependencySection)>,
> {
    match (
        section_dependencies(
            c,
            section_members(root, "dependencies"@),
            NpmDependencySection::Dependencies,
        ),
        section_dependencies(
            c,
            section_members(root, "devDependencies"@),
            NpmDependencySection::DevDependencies,
        ),
        section_dependencies(
            c,
            section_members(root, "peerDependencies"@),
            NpmDependencySection::PeerDependencies,
        ),
        section_dependencies(
            c,
            section_members(root, "optionalDependencies"@),
            NpmDependencySection::OptionalDependencies,
        ),
    ) {
        (Some(a), Some(b), Some(d), Some(e)) => Some(a + b + d + e),
        _ => None,
    }
}

/// The dependencies of a parsed `package.json`, with the document they come
/// from.
#[derive(Debug)]
pub struct NpmParseResult {
    pub dependencies: Vec<NpmDependency>,
    pub uri: String,
}

fn section_of<'a>(root: &'a JsonValue, key: &str) -> (r: Option<&'a Vec<(String, JsonValue)>>)
    ensures
        match r {
            Some(m) => m@ == section_members(*root, key@),
            None => section_members(*root, key@) == Seq::<(String, JsonValue)>::empty(),
        },
{
    match root {
        JsonValue::Object(m) => match get_member(m, key) {
            Some(JsonValue::Object(d)) => Some(d),
            _ => None,
        },
        _ => None,
    }
}

/// Appends the dependencies of one section to `out`.
fn push_section(
    c: &Vec<char>,
    members: &Vec<(String, JsonValue)>,
    section: NpmDependencySection,
    out: &mut Vec<NpmDependency>,
) -> (ok: bool)
    requires
        2 * c@.len() <= u32::MAX,
    ensures
        match section_dependencies(c@, members@, section) {
            Some(ds) => ok && final(out)@.map_values(|d: NpmDependency| dependency_view(d))
                == old(out)@.map_values(|d: NpmDependency| dependency_view(d)) + ds,
            None => !ok,
        },
{
    let ghost start = old(out)@.map_values(|d: NpmDependency| dependency_view(d));
    let mut i: usize = 0;
    while i < members.len()
        invariant
            i <= members@.len(),
            2 * c@.len() <= u32::MAX,
            section_dependencies(c@, members@.take(i as int), section) is Some,
            out@.map_values(|d: NpmDependency| dependency_view(d)) == start + section_dependencies(
                c@,
                members@.take(i as int),
                section,
            )->0,
        decreases members@.len() - i,
    {
        let (name, value) = (&members[i].0, &members[i].1);
        assert(members@.take(i + 1).drop_last() =~= members@.take(i as int));
        assert(members@.take(i + 1).last() == members@[i as int]);
        let version: Option<&str> = match value {
            JsonValue::Str(s) => Some(s.as_str()),
            _ => None,
        };
        match dependency_positions(c, name.as_str(), version) {
            None => {
                proof {
                    lemma_section_prefix(c@, members@, section, i + 1);
                }
                return false;
            },
            Some((name_range, version_range)) => {
                let ghost before = out@.map_values(|d: NpmDependency| dependency_view(d));
                let d = NpmDependency {
                    name: copy_string(name),
                    name_range,
                    version_req: match value {
                        JsonValue::Str(s) => Some(copy_string(s)),
                        _ => None,
                    },
                    version_range,
                    section,
                };
                out.push(d);
                assert(out@.map_values(|d: NpmDependency| dependency_view(d)) =~= before.push(
                    dependency_view(d),
                ));
            },
        }
        i = i + 1;
    }
    assert(members@.take(members@.len() as int) =~= members@);
    true
}

/// Once a prefix of a section fails, the whole section does.
proof fn lemma_section_prefix(
    c: Seq<char>,
    members: Seq<(String, JsonValue)>,
    section: NpmDependencySection,
    k: int,
)
    requires
        0 <= k <= members.len(),
        section_dependencies(c, members.take(k), section) is None,
    ensures
        section_dependencies(c, members, section) is None,
    decreases members.len() - k,
{
    if k < members.len() {
        assert(members.take(k + 1).drop_last() =~= members.take(k));
        lemma_section_prefix(c, members, section, k + 1);
    } else {
        assert(members.take(k) =~= members);
    }
}

/// The dependencies of `package.json`, parsed as `root`, with the positions
/// of their names and versions in `content` (see
/// `spec_package_dependencies`). None where a version window would end
/// inside a character, on which the text search cannot proceed.
pub fn parse_package_json_value(content: &str, root: &JsonValue, uri: &str) -> (r: Option<
    NpmParseResult,
>)
    requires
        2 * content@.len() <= u32::MAX,
    ensures
        match spec_package_dependencies(content@, *root) {
            Some(ds) => r is Some && r->0.dependencies@.map_values(
                |d: NpmDependency| dependency_view(d),
            ) == ds && r->0.uri@ == uri@,
            None => r is None,
        },
{
    proof {
        reveal_strlit("dependencies");
        reveal_strlit("devDependencies");
        reveal_strlit("peerDependencies");
        reveal_strlit("optionalDependencies");
    }
    let c = chars_of(content);
    let mut out: Vec<NpmDependency> = Vec::new();
    let empty: Vec<(String, JsonValue)> = Vec::new();
    let a = match section_of(root, "dependencies") {
        Some(m) => m,
        None => &empty,
    };
    if !push_section(&c, a, NpmDependencySection::Dependencies, &mut out) {
        return None;
    }
    let b = match section_of(root, "devDependencies") {
        Some(m) => m,
        None => &empty,
    };
    if !push_section(&c, b, NpmDependencySection::DevDependencies, &mut out) {
        return None;
    }
    let d = match section_of(root, "peerDependencies") {
        Some(m) => m,
        None => &empty,
    };
    if !push_section(&c, d, NpmDependencySection::PeerDependencies, &mut out) {
        return None;
    }
    let e = match section_of(root, "optionalDependencies") {
        Some(m) => m,
        None => &empty,
    };
    if !push_section(&c, e, NpmDependencySection::OptionalDependencies, &mut out) {
        return None;
    }
    proof {
        assert(Seq::<NpmDependency>::empty().map_values(|d: NpmDependency| dependency_view(d))
            =~= Seq::<(Seq<char>, TextRange, Option<Seq<char>>, Option<TextRange>, NpmDependencySection)>::empty());
    }
    Some(NpmParseResult { dependencies: out, uri: uri.to_string() })
}

/// Parses `package.json` text: its dependencies with the positions of
/// their names and versions (see `spec_package_dependencies`); an error
/// where the text is not JSON, or is JSON whose root is not an object. The
/// text must be one whose version windows all end on character boundaries
/// (see `try_parse_package_json`).
pub fn parse_package_json(content: &str, uri: &str) -> (r: Result<NpmParseResult, NpmError>)
    requires
        2 * content@.len() <= u32::MAX,
        json_from_str(content@) matches Some(root) ==> spec_package_dependencies(content@, root)
            is Some,
    ensures
        match json_from_str(content@) {
            None => r matches Err(NpmError::JsonParseError { source: Some(_) }),
            Some(root) => if root is Object {
                r is Ok && r->Ok_0.dependencies@.map_values(|d: NpmDependency| dependency_view(d))
                    == spec_package_dependencies(content@, root)->0 && r->Ok_0.uri@ == uri@
            } else {
                r matches Err(NpmError::InvalidStructure { .. })
            },
        },
{
    match parse_json_str(content) {
        Err(e) => Err(NpmError::JsonParseError { source: Some(e) }),
        Ok(root) => {
            match &root {
                JsonValue::Object(_) => {},
                _ => {
                    return Err(
                        NpmError::invalid_structure("package.json is not an object".to_string()),
                    );
                },
            }
            match parse_package_json_value(content, &root, uri) {
                Some(p) => Ok(p),
                None => {
                    // excluded by the precondition
                    proof {
                        assert(false);
                    }
                    Err(
                        NpmError::invalid_structure(
                            "version window inside a character".to_string(),
                        ),
                    )
                },
            }
        },
    }
}

/// Parses `package.json` text where the version search can read it: none
/// where a version window would end inside a character, the text on which
/// `parse_package_json` may not be called.
pub fn try_parse_package_json(content: &str, uri: &str) -> (r: Option<
    Result<NpmParseResult, NpmError>,
>)
    requires
        2 * content@.len() <= u32::MAX,
    ensures
        match json_from_str(content@) {
            None => r matches Some(Err(NpmError::JsonParseError { source: Some(_) })),
            Some(root) => if !(root is Object) {
                r matches Some(Err(NpmError::InvalidStructure { .. }))
            } else {
                match spec_package_dependencies(content@, root) {
                    None => r is None,
                    Some(ds) => r matches Some(Ok(p)) && p.dependencies@.map_values(
                        |d: NpmDependency| dependency_view(d),
                    ) == ds && p.uri@ == uri@,
                }
            },
        },
{
    match parse_json_str(content) {
        Err(e) => Some(Err(NpmError::JsonParseError { source: Some(e) })),
        Ok(root) => {
            if parse_package_json_value(content, &root, uri).is_none() {
                return None;
            }
            Some(parse_package_json(content, uri))
        },
    }
}

} // verus!

verus! {

/// The ecosystem-independent view of an npm dependency: npm dependencies
/// are all resolved from the registry.
pub fn to_dependency(d: &NpmDependency) -> (r: crate::types::Dependency)
    ensures
        r.name@ == d.name@,
        r.name_range == d.name_range,
        r.version_range == d.version_range,
        match d.version_req {
            Some(v) => r.version_req is Some && r.version_req->0@ == v@,
            None => r.version_req is None,
        },
        r.is_registry,
{
    crate::types::Dependency {
        name: copy_string(&d.name),
        name_range: d.name_range,
        version_req: match &d.version_req {
            Some(v) => Some(copy_string(v)),
            None => None,
        },
        version_range: d.version_range,
        is_registry: true,
    }
}

/// The ecosystem-independent views of the dependencies of a parse.
pub fn to_dependencies(ds: &Vec<NpmDependency>) -> (r: Vec<crate::types::Dependency>)
    ensures
        r@.len() == ds@.len(),
        forall|i: int|
            0 <= i < ds@.len() ==> (#[trigger] r@[i]).name@ == ds@[i].name@ && r@[i].name_range
                == ds@[i].name_range && r@[i].version_range == ds@[i].version_range
                && r@[i].is_registry,
{
    let mut r: Vec<crate::types::Dependency> = Vec::new();
    let mut i: usize = 0;
    while i < ds.len()
        invariant
            i <= ds@.len(),
            r@.len() == i,
            forall|j: int|
                0 <= j < i ==> (#[trigger] r@[j]).name@ == ds@[j].name@ && r@[j].name_range
                    == ds@[j].name_range && r@[j].version_range == ds@[j].version_range
                    && r@[j].is_registry,
        decreases ds@.len() - i,
    {
        r.push(to_dependency(&ds[i]));
        i = i + 1;
    }
    r
}

} // verus!
