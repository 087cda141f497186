//! Text-based detection of dependency sections, used for completion when a
//! manifest does not parse.

use vstd::prelude::*;
use crate::text::{
    chars_of, contains, ends_with, line_spans, line_spans_of, lines, range_contains, range_ends_with,
    range_eq, range_starts_with, starts_with, trim, trim_bounds, utf8_len, char_utf8_len,
    is_utf8_boundary, chars_in_bytes, has_char, len_utf8, lemma_utf8_len_push, string_of_range,
    lemma_utf8_len_at_least, lemma_boundary_unique, lemma_utf8_len_strict,
};

verus! {

/// A TOML table header: `[` ... `]`.
pub open spec fn is_section_header(t: Seq<char>) -> bool {
    starts_with(t, "["@) && ends_with(t, "]"@)
}

/// The table headers under which dependencies are declared.
pub open spec fn is_dependency_header(t: Seq<char>) -> bool {
    ||| t == "[dependencies]"@
    ||| t == "[dev-dependencies]"@
    ||| t == "[build-dependencies]"@
    ||| t == "[workspace.dependencies]"@
    ||| t == "[project.dependencies]"@
    ||| t == "[project.optional-dependencies]"@
    ||| starts_with(t, "[target."@) && (contains(t, ".dependencies]"@) || contains(
        t,
        ".dev-dependencies]"@,
    ) || contains(t, ".build-dependencies]"@))
}

/// Looking back from the first `k` lines: the nearest table header is a
/// dependency header.
pub open spec fn toml_section_is_deps(ls: Seq<Seq<char>>, k: int) -> bool
    decreases k,
{
    if k <= 0 {
        false
    } else if is_section_header(trim(ls[k - 1])) {
        is_dependency_header(trim(ls[k - 1]))
    } else {
        toml_section_is_deps(ls, k - 1)
    }
}

/// Line `n` of `s` lies under a TOML dependency table: the nearest table
/// header at or above it (lines past the end count as the last line).
pub open spec fn in_toml_dependencies(s: Seq<char>, n: int) -> bool {
    let ls = lines(s);
    toml_section_is_deps(ls, if n + 1 < ls.len() { n + 1 } else { ls.len() as int })
}

/// A JSON line that opens one of the dependency objects of package.json.
pub open spec fn is_json_dependency_key(t: Seq<char>) -> bool {
    &&& starts_with(t, "\""@)
    &&& {
        ||| contains(t, "\"dependencies\":"@)
        ||| contains(t, "\"devDependencies\":"@)
        ||| contains(t, "\"peerDependencies\":"@)
        ||| contains(t, "\"optionalDependencies\":"@)
    }
}

/// One character of brace tracking: `(inside, depth)`.
pub open spec fn brace_step(st: (bool, int), c: char) -> (bool, int) {
    if c == '{' {
        (st.0, st.1 + 1)
    } else if c == '}' {
        (if st.1 - 1 <= 0 {
            false
        } else {
            st.0
        }, st.1 - 1)
    } else {
        st
    }
}

/// Brace tracking over all characters of `t`, left to right.
pub open spec fn brace_scan(st: (bool, int), t: Seq<char>) -> (bool, int)
    decreases t.len(),
{
    if t.len() == 0 {
        st
    } else {
        brace_step(brace_scan(st, t.drop_last()), t.last())
    }
}

/// The tracking state after one (trimmed) line.
pub open spec fn json_line_step(st: (bool, int), t: Seq<char>) -> (bool, int) {
    let st1 = if is_json_dependency_key(t) {
        (true, 0int)
    } else {
        st
    };
    if st1.0 {
        brace_scan(st1, t)
    } else {
        st1
    }
}

/// The tracking state after the first `k` lines.
pub open spec fn json_state(ls: Seq<Seq<char>>, k: int) -> (bool, int)
    decreases k,
{
    if k <= 0 {
        (false, 0)
    } else {
        json_line_step(json_state(ls, k - 1), trim(ls[k - 1]))
    }
}

/// Line `n` of `s` lies inside one of the dependency objects of a
/// package.json, by line-based brace tracking.
pub open spec fn in_json_dependencies(s: Seq<char>, n: int) -> bool {
    let ls = lines(s);
    0 <= n < ls.len() && json_state(ls, n + 1).0 && json_state(ls, n + 1).1 > 0
}

/// The section test that applies to an ecosystem's manifest format.
pub open spec fn in_dependencies_section(s: Seq<char>, n: int, ecosystem_id: Seq<char>) -> bool {
    if ecosystem_id == "cargo"@ || ecosystem_id == "pypi"@ {
        in_toml_dependencies(s, n)
    } else if ecosystem_id == "npm"@ {
        in_json_dependencies(s, n)
    } else {
        false
    }
}

fn header_is_dependency(s: &Vec<char>, a: usize, b: usize) -> (r: bool)
    requires
        a <= b <= s@.len(),
    ensures
        r == is_dependency_header(s@.subrange(a as int, b as int)),
{
    range_eq(s, a, b, &chars_of("[dependencies]")) || range_eq(
        s,
        a,
        b,
        &chars_of("[dev-dependencies]"),
    ) || range_eq(s, a, b, &chars_of("[build-dependencies]")) || range_eq(
        s,
        a,
        b,
        &chars_of("[workspace.dependencies]"),
    ) || range_eq(s, a, b, &chars_of("[project.dependencies]")) || range_eq(
        s,
        a,
        b,
        &chars_of("[project.optional-dependencies]"),
    ) || range_starts_with(s, a, b, &chars_of("[target.")) && (range_contains(
        s,
        a,
        b,
        &chars_of(".dependencies]"),
    ) || range_contains(s, a, b, &chars_of(".dev-dependencies]")) || range_contains(
        s,
        a,
        b,
        &chars_of(".build-dependencies]"),
    ))
}

/// Line `line_number` of a TOML manifest lies under a dependency table.
pub fn is_in_toml_dependencies(content: &str, line_number: usize) -> (r: bool)
    ensures
        r == in_toml_dependencies(content@, line_number as int),
{
    let s = chars_of(content);
    let spans = line_spans_of(&s);
    let ghost ls = lines(s@);
    let mut k = if line_number < spans.len() {
        line_number + 1
    } else {
        spans.len()
    };
    let open = chars_of("[");
    let close = chars_of("]");
    while k > 0
        invariant
            k <= spans@.len(),
            s@ == content@,
            ls == lines(s@),
            spans@.len() == line_spans(s@).len(),
            forall|j: int|
                0 <= j < spans@.len() ==> spans@[j].0 == line_spans(s@)[j].0 && spans@[j].1
                    == line_spans(s@)[j].1 && spans@[j].0 <= spans@[j].1 <= s@.len(),
            toml_section_is_deps(ls, k as int) == in_toml_dependencies(
                s@,
                line_number as int,
            ),
            open@ == "["@,
            close@ == "]"@,
        decreases k,
    {
        let (lo, hi) = spans[k - 1];
        let (a, b) = trim_bounds(&s, lo, hi);
        assert(ls[k - 1] == s@.subrange(lo as int, hi as int));
        if range_starts_with(&s, a, b, &open) && range_ends_with(&s, a, b, &close) {
            assert(toml_section_is_deps(ls, k as int) == is_dependency_header(trim(ls[k - 1])));
            return header_is_dependency(&s, a, b);
        }
        k = k - 1;
    }
    false
}

/// Line `line_number` of a package.json lies inside a dependency object.
pub fn is_in_json_dependencies(content: &str, line_number: usize) -> (r: bool)
    ensures
        r == in_json_dependencies(content@, line_number as int),
{
    let s = chars_of(content);
    let spans = line_spans_of(&s);
    let ghost ls = lines(s@);
    if line_number >= spans.len() {
        return false;
    }
    let quote = chars_of("\"");
    let k1 = chars_of("\"dependencies\":");
    let k2 = chars_of("\"devDependencies\":");
    let k3 = chars_of("\"peerDependencies\":");
    let k4 = chars_of("\"optionalDependencies\":");
    let mut inside = false;
    let mut depth: i128 = 0;
    let mut i: usize = 0;
    while i <= line_number
        invariant
            line_number < spans@.len(),
            i <= line_number,
            s@ == content@,
            ls == lines(s@),
            spans@.len() == line_spans(s@).len(),
            forall|j: int|
                0 <= j < spans@.len() ==> spans@[j].0 == line_spans(s@)[j].0 && spans@[j].1
                    == line_spans(s@)[j].1 && spans@[j].0 <= spans@[j].1 <= s@.len(),
            forall|j: int| 0 <= j < spans@.len() - 1 ==> spans@[j].1 < spans@[j + 1].0,
            (inside, depth as int) == json_state(ls, i as int),
            i < spans@.len() ==> -(spans@[i as int].0 as int) <= depth <= spans@[i as int].0,
            i == spans@.len() ==> -(s@.len() as int) <= depth <= s@.len(),
            quote@ == "\""@,
            k1@ == "\"dependencies\":"@,
            k2@ == "\"devDependencies\":"@,
            k3@ == "\"peerDependencies\":"@,
            k4@ == "\"optionalDependencies\":"@,
        decreases line_number + 1 - i,
    {
        let (lo, hi) = spans[i];
        let (a, b) = trim_bounds(&s, lo, hi);
        let ghost t = s@.subrange(a as int, b as int);
        let ghost st0 = (inside, depth as int);
        assert(ls[i as int] == s@.subrange(lo as int, hi as int));
        assert(t == trim(ls[i as int]));
        if range_starts_with(&s, a, b, &quote) && (range_contains(&s, a, b, &k1) || range_contains(
            &s,
            a,
            b,
            &k2,
        ) || range_contains(&s, a, b, &k3) || range_contains(&s, a, b, &k4)) {
            inside = true;
            depth = 0;
        }
        if inside {
            let ghost st1 = (inside, depth as int);
            let mut j = a;
            while j < b
                invariant
                    a <= j <= b <= s@.len(),
                    lo <= a,
                    -(j as int) <= depth <= j,
                    st1.0,
                    (inside, depth as int) == brace_scan(st1, s@.subrange(a as int, j as int)),
                decreases b - j,
            {
                let c = s[j];
                assert(s@.subrange(a as int, j + 1).drop_last() =~= s@.subrange(a as int, j as int));
                if c == '{' {
                    depth = depth + 1;
                } else if c == '}' {
                    depth = depth - 1;
                    if depth <= 0 {
                        inside = false;
                    }
                }
                j = j + 1;
            }
            assert(t == s@.subrange(a as int, b as int));
        }
        assert((inside, depth as int) == json_line_step(st0, t));
        assert(json_state(ls, i + 1) == json_line_step(json_state(ls, i as int), t));
        if i == line_number {
            return inside && depth > 0;
        }
        i = i + 1;
    }
    false
}

/// Line `line_number` lies in a dependency section of the manifest format
/// of `ecosystem_id` (`cargo` and `pypi`: TOML, `npm`: JSON).
pub fn is_in_dependencies_section(content: &str, line_number: usize, ecosystem_id: &str) -> (r:
    bool)
    ensures
        r == in_dependencies_section(content@, line_number as int, ecosystem_id@),
{
    let id = chars_of(ecosystem_id);
    let n = id.len();
    if range_eq(&id, 0, n, &chars_of("cargo")) || range_eq(&id, 0, n, &chars_of("pypi")) {
        proof { assert(id@.subrange(0, n as int) =~= id@); }
        is_in_toml_dependencies(content, line_number)
    } else if range_eq(&id, 0, n, &chars_of("npm")) {
        proof { assert(id@.subrange(0, n as int) =~= id@); }
        is_in_json_dependencies(content, line_number)
    } else {
        proof { assert(id@.subrange(0, n as int) =~= id@); }
        false
    }
}

/// The byte offset at which the fallback completion cuts a line: the
/// cursor's character, clamped to the line's length in bytes.
pub open spec fn prefix_end(line: Seq<char>, character: int) -> int {
    if character < utf8_len(line) {
        character
    } else {
        utf8_len(line)
    }
}

/// The prefix a fallback completion searches the registry for: the line up
/// to the cursor, trimmed. None where the line does not exist or lies
/// outside a dependencies section, where the cursor falls inside a
/// character, or where the prefix is empty, holds `=`, or is shorter than
/// two bytes.
pub open spec fn spec_fallback_prefix(
    content: Seq<char>,
    line: int,
    character: int,
    ecosystem_id: Seq<char>,
) -> Option<Seq<char>> {
    let ls = lines(content);
    if line >= ls.len() || !in_dependencies_section(content, line, ecosystem_id) {
        None
    } else if !is_utf8_boundary(ls[line], prefix_end(ls[line], character)) {
        None
    } else {
        let l = ls[line];
        let p = trim(l.take(chars_in_bytes(l, prefix_end(l, character))));
        if p.len() == 0 || has_char(p, '=') || utf8_len(p) < 2 {
            None
        } else {
            Some(p)
        }
    }
}

/// The prefix a fallback completion searches the registry for (see
/// `spec_fallback_prefix`).
pub fn fallback_prefix(content: &str, line: u32, character: u32, ecosystem_id: &str) -> (r: Option<
    String,
>)
    ensures
        match spec_fallback_prefix(content@, line as int, character as int, ecosystem_id@) {
            Some(p) => r is Some && r->0@ == p,
            None => r is None,
        },
{
    let cs = chars_of(content);
    let spans = line_spans_of(&cs);
    let ln = line as usize;
    if ln >= spans.len() {
        return None;
    }
    if !is_in_dependencies_section(content, ln, ecosystem_id) {
        return None;
    }
    let (s0, s1) = spans[ln];
    let ghost l = lines(content@)[ln as int];
    assert(l =~= cs@.subrange(s0 as int, s1 as int));
    // walk the characters of the line while they fit before the cursor
    let mut k: usize = 0;
    let mut acc: u64 = 0;
    while s0 + k < s1 && acc + (len_utf8(cs[s0 + k]) as u64) <= character as u64
        invariant
            s0 <= s1 <= cs@.len(),
            s0 + k <= s1,
            l == cs@.subrange(s0 as int, s1 as int),
            acc == utf8_len(l.take(k as int)),
            acc <= character,
        decreases s1 - s0 - k,
    {
        proof {
            assert(l.take(k + 1) =~= l.take(k as int).push(l[k as int]));
            lemma_utf8_len_push(l.take(k as int), l[k as int]);
        }
        acc = acc + len_utf8(cs[s0 + k]) as u64;
        k = k + 1;
    }
    if s0 + k < s1 && acc < character as u64 {
        // the cursor falls inside the character at `k`
        proof {
            let pe = prefix_end(l, character as int);
            let len = s1 - s0;
            assert(l.take(k + 1) =~= l.take(k as int).push(l[k as int]));
            lemma_utf8_len_push(l.take(k as int), l[k as int]);
            if (k + 1) < len {
                lemma_utf8_len_strict(l, k + 1, len as int);
            }
            assert(l.take(len as int) =~= l);
            assert(pe == character);
            if is_utf8_boundary(l, pe) {
                let j = choose|j: int| 0 <= j <= l.len() && utf8_len(#[trigger] l.take(j)) == pe;
                if j > k + 1 {
                    lemma_utf8_len_strict(l, k + 1, j);
                } else if j < k {
                    lemma_utf8_len_strict(l, j, k as int);
                }
            }
        }
        return None;
    }
    proof {
        let len = s1 - s0;
        let pe = prefix_end(l, character as int);
        if s0 + k == s1 {
            assert(l.take(k as int) =~= l);
            assert(pe == utf8_len(l));
        } else {
            assert(l.take(k + 1) =~= l.take(k as int).push(l[k as int]));
            lemma_utf8_len_push(l.take(k as int), l[k as int]);
            // the line is longer than the cursor, so the cut is the cursor
            if (k + 1) < len {
                lemma_utf8_len_strict(l, k + 1, len as int);
            }
            assert(l.take(len as int) =~= l);
            assert(utf8_len(l) > character);
            assert(pe == character);
            assert(utf8_len(l.take(k as int)) == pe);
        }
        assert(is_utf8_boundary(l, pe));
        lemma_boundary_unique(l, k as int);
        assert(utf8_len(l.take(k as int)) == pe);
        assert(chars_in_bytes(l, pe) == k);
    }
    let (a, b) = trim_bounds(&cs, s0, s0 + k);
    proof {
        assert(cs@.subrange(s0 as int, s0 + k) =~= l.take(k as int));
    }
    let ghost p = cs@.subrange(a as int, b as int);
    if a == b {
        return None;
    }
    assert(has_char(p, '=') ==> spec_fallback_prefix(
        content@,
        line as int,
        character as int,
        ecosystem_id@,
    ) is None);
    let mut i = a;
    while i < b
        invariant
            a <= i <= b <= cs@.len(),
            p == cs@.subrange(a as int, b as int),
            has_char(p, '=') ==> spec_fallback_prefix(
                content@,
                line as int,
                character as int,
                ecosystem_id@,
            ) is None,
            forall|j: int| a <= j < i ==> cs@[j] != '=',
        decreases b - i,
    {
        if cs[i] == '=' {
            proof {
                assert(p[i - a] == '=');
            }
            return None;
        }
        i = i + 1;
    }
    proof {
        assert(!has_char(p, '=')) by {
            if has_char(p, '=') {
                let j = choose|j: int| 0 <= j < p.len() && p[j] == '=';
                assert(cs@[a + j] == '=');
            }
        }
        if b - a >= 2 {
            lemma_utf8_len_at_least(p);
        } else {
            assert(p =~= Seq::<char>::empty().push(p[0]));
            lemma_utf8_len_push(Seq::<char>::empty(), p[0]);
            assert(vstd::utf8::encode_utf8(Seq::<char>::empty()) =~= Seq::<u8>::empty());
        }
    }
    if b - a == 1 && len_utf8(cs[a]) == 1 {
        return None;
    }
    Some(string_of_range(&cs, a, b))
}

} // verus!
