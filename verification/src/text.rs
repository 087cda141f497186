//! Character-level text primitives shared by the manifest logic.
//!
//! Text is handled as sequences of `char`; the spec functions here state the
//! meaning of `str::lines`, `str::trim`, `starts_with`, `ends_with` and
//! `contains` over `Seq<char>`, and the executable functions compute them on
//! index ranges of a `Vec<char>`.

use vstd::prelude::*;

verus! {

/// The `White_Space` characters, as `char::is_whitespace` recognises them.
pub open spec fn is_ws(c: char) -> bool {
    ||| c == ' '
    ||| ('\t' <= c && c <= '\r')
    ||| c == '\u{85}'
    ||| c == '\u{a0}'
    ||| c == '\u{1680}'
    ||| ('\u{2000}' <= c && c <= '\u{200a}')
    ||| c == '\u{2028}'
    ||| c == '\u{2029}'
    ||| c == '\u{202f}'
    ||| c == '\u{205f}'
    ||| c == '\u{3000}'
}

/// `s` without its leading white space.
pub open spec fn trim_start(s: Seq<char>) -> Seq<char>
    decreases s.len(),
{
    if s.len() > 0 && is_ws(s[0]) {
        trim_start(s.drop_first())
    } else {
        s
    }
}

/// `s` without its trailing white space.
pub open spec fn trim_end(s: Seq<char>) -> Seq<char>
    decreases s.len(),
{
    if s.len() > 0 && is_ws(s.last()) {
        trim_end(s.drop_last())
    } else {
        s
    }
}

/// `s` without leading and trailing white space (`str::trim`).
pub open spec fn trim(s: Seq<char>) -> Seq<char> {
    trim_end(trim_start(s))
}

pub open spec fn starts_with(s: Seq<char>, p: Seq<char>) -> bool {
    p.len() <= s.len() && s.subrange(0, p.len() as int) == p
}

pub open spec fn ends_with(s: Seq<char>, p: Seq<char>) -> bool {
    p.len() <= s.len() && s.subrange(s.len() - p.len(), s.len() as int) == p
}

/// `p` occurs in `s` starting at position `i`.
pub open spec fn occurs_at(s: Seq<char>, p: Seq<char>, i: int) -> bool {
    0 <= i && i + p.len() <= s.len() && s.subrange(i, i + p.len()) == p
}

pub open spec fn contains(s: Seq<char>, p: Seq<char>) -> bool {
    exists|i: int| occurs_at(s, p, i)
}

/// `c` occurs in `s`.
pub open spec fn has_char(s: Seq<char>, c: char) -> bool {
    exists|i: int| 0 <= i < s.len() && s[i] == c
}

/// Index of the first `'\n'` at or after `i`, or the length of `s`.
pub open spec fn line_end(s: Seq<char>, i: int) -> int
    decreases s.len() - i,
{
    if i < 0 || i >= s.len() || s[i] == '\n' {
        i
    } else {
        line_end(s, i + 1)
    }
}

pub proof fn lemma_line_end(s: Seq<char>, i: int)
    requires
        0 <= i <= s.len(),
    ensures
        i <= line_end(s, i) <= s.len(),
        line_end(s, i) < s.len() ==> s[line_end(s, i)] == '\n',
        forall|j: int| i <= j < line_end(s, i) ==> s[j] != '\n',
    decreases s.len() - i,
{
    if i < s.len() && s[i] != '\n' {
        lemma_line_end(s, i + 1);
    }
}

/// End of the text of the line that starts at `i` and is ended at `e`: a
/// `'\r'` before the `'\n'` is not part of the line.
pub open spec fn line_text_end(s: Seq<char>, i: int, e: int) -> int {
    if e < s.len() && e > i && s[e - 1] == '\r' {
        e - 1
    } else {
        e
    }
}

/// Start and end indices of the lines of `s` from index `i` on, as
/// `str::lines` splits them.
pub open spec fn line_spans_from(s: Seq<char>, i: int) -> Seq<(int, int)>
    decreases s.len() - i,
{
    if i < 0 || i >= s.len() {
        seq![]
    } else {
        let e = line_end(s, i);
        let here = seq![(i, line_text_end(s, i, e))];
        if i <= e < s.len() {
            here + line_spans_from(s, e + 1)
        } else {
            here
        }
    }
}

pub open spec fn line_spans(s: Seq<char>) -> Seq<(int, int)> {
    line_spans_from(s, 0)
}

/// The lines of `s` (`str::lines`).
pub open spec fn lines(s: Seq<char>) -> Seq<Seq<char>> {
    line_spans(s).map_values(|p: (int, int)| s.subrange(p.0, p.1))
}

/// Copies the characters of `s` into a vector.
pub fn chars_of(s: &str) -> (r: Vec<char>)
    ensures
        r@ == s@,
{
    let mut r: Vec<char> = Vec::new();
    for c in it: s.chars()
        invariant
            r@ == it.seq().take(it.index() as int),
    {
        r.push(c);
    }
    r
}

/// `char::is_whitespace`.
pub fn is_whitespace(c: char) -> (b: bool)
    ensures
        b == is_ws(c),
{
    c == ' ' || ('\t' <= c && c <= '\r') || c == '\u{85}' || c == '\u{a0}' || c == '\u{1680}' || (
    '\u{2000}' <= c && c <= '\u{200a}') || c == '\u{2028}' || c == '\u{2029}' || c == '\u{202f}'
        || c == '\u{205f}' || c == '\u{3000}'
}

/// Bounds of `trim(s[lo..hi])` inside `s`.
pub fn trim_bounds(s: &Vec<char>, lo: usize, hi: usize) -> (r: (usize, usize))
    requires
        lo <= hi <= s@.len(),
    ensures
        lo <= r.0 <= r.1 <= hi,
        s@.subrange(r.0 as int, r.1 as int) == trim(s@.subrange(lo as int, hi as int)),
{
    let mut a = lo;
    while a < hi && is_whitespace(s[a])
        invariant
            lo <= a <= hi <= s@.len(),
            trim_start(s@.subrange(lo as int, hi as int)) == trim_start(
                s@.subrange(a as int, hi as int),
            ),
        decreases hi - a,
    {
        assert(s@.subrange(a as int, hi as int).drop_first() =~= s@.subrange(
            a + 1,
            hi as int,
        ));
        a = a + 1;
    }
    let mut b = hi;
    while b > a && is_whitespace(s[b - 1])
        invariant
            lo <= a <= b <= hi <= s@.len(),
            trim_end(s@.subrange(a as int, hi as int)) == trim_end(s@.subrange(a as int, b as int)),
        decreases b - a,
    {
        assert(s@.subrange(a as int, b as int).drop_last() =~= s@.subrange(
            a as int,
            b - 1,
        ));
        b = b - 1;
    }
    (a, b)
}

/// `s[lo..hi] == p`.
pub fn range_eq(s: &Vec<char>, lo: usize, hi: usize, p: &Vec<char>) -> (b: bool)
    requires
        lo <= hi <= s@.len(),
    ensures
        b == (s@.subrange(lo as int, hi as int) == p@),
{
    if hi - lo != p.len() {
        return false;
    }
    let mut k: usize = 0;
    while k < p.len()
        invariant
            lo <= hi <= s@.len(),
            hi - lo == p@.len(),
            k <= p@.len(),
            forall|j: int| 0 <= j < k ==> s@[lo + j] == p@[j],
        decreases p@.len() - k,
    {
        if s[lo + k] != p[k] {
            assert(s@.subrange(lo as int, hi as int)[k as int] != p@[k as int]);
            return false;
        }
        k = k + 1;
    }
    assert(s@.subrange(lo as int, hi as int) =~= p@);
    true
}

/// `p` occurs in `s` at `lo + i`, within `s[lo..hi]`.
pub fn occurs_in_range_at(s: &Vec<char>, lo: usize, hi: usize, p: &Vec<char>, i: usize) -> (b: bool)
    requires
        lo <= hi <= s@.len(),
    ensures
        b == occurs_at(s@.subrange(lo as int, hi as int), p@, i as int),
{
    if i > hi - lo || p.len() > hi - lo - i {
        return false;
    }
    let r = range_eq(s, lo + i, lo + i + p.len(), p);
    assert(s@.subrange(lo as int, hi as int).subrange(i as int, i + p@.len()) =~= s@.subrange(
        lo + i,
        lo + i + p@.len(),
    ));
    r
}

/// `s[lo..hi]` starts with `p`.
pub fn range_starts_with(s: &Vec<char>, lo: usize, hi: usize, p: &Vec<char>) -> (b: bool)
    requires
        lo <= hi <= s@.len(),
    ensures
        b == starts_with(s@.subrange(lo as int, hi as int), p@),
{
    let r = occurs_in_range_at(s, lo, hi, p, 0);
    r
}

/// `s[lo..hi]` ends with `p`.
pub fn range_ends_with(s: &Vec<char>, lo: usize, hi: usize, p: &Vec<char>) -> (b: bool)
    requires
        lo <= hi <= s@.len(),
    ensures
        b == ends_with(s@.subrange(lo as int, hi as int), p@),
{
    if p.len() > hi - lo {
        return false;
    }
    let r = range_eq(s, hi - p.len(), hi, p);
    assert(s@.subrange(lo as int, hi as int).subrange(
        (hi - lo) - p@.len(),
        (hi - lo) as int,
    ) =~= s@.subrange(hi - p@.len(), hi as int));
    r
}

/// First position at or after `from` where `p` occurs in `s[lo..hi]`,
/// relative to `lo`.
pub fn find_in_range(s: &Vec<char>, lo: usize, hi: usize, p: &Vec<char>, from: usize) -> (r:
    Option<usize>)
    requires
        lo <= hi <= s@.len(),
    ensures
        match r {
            Some(i) => from <= i && occurs_at(s@.subrange(lo as int, hi as int), p@, i as int)
                && forall|j: int|
                from <= j < i ==> !occurs_at(s@.subrange(lo as int, hi as int), p@, j),
            None => forall|j: int|
                from <= j ==> !occurs_at(s@.subrange(lo as int, hi as int), p@, j),
        },
{
    if p.len() > hi - lo {
        return None;
    }
    let last = hi - lo - p.len();
    let mut i = from;
    loop
        invariant
            lo <= hi <= s@.len(),
            p@.len() <= hi - lo,
            last == hi - lo - p@.len(),
            from <= i,
            forall|j: int| from <= j < i ==> !occurs_at(s@.subrange(lo as int, hi as int), p@, j),
        decreases last + 1 - i,
    {
        if i > last {
            return None;
        }
        if occurs_in_range_at(s, lo, hi, p, i) {
            return Some(i);
        }
        if i == last {
            return None;
        }
        i = i + 1;
    }
}

/// `p` occurs somewhere in `s[lo..hi]`.
pub fn range_contains(s: &Vec<char>, lo: usize, hi: usize, p: &Vec<char>) -> (b: bool)
    requires
        lo <= hi <= s@.len(),
    ensures
        b == contains(s@.subrange(lo as int, hi as int), p@),
{
    let r = find_in_range(s, lo, hi, p, 0);
    match r {
        Some(i) => true,
        None => {
            assert forall|j: int| !occurs_at(s@.subrange(lo as int, hi as int), p@, j) by {
                if j >= 0 {
                }
            }
            false
        },
    }
}

/// Start and end indices of the lines of `s`, as `str::lines` splits them.
pub fn line_spans_of(s: &Vec<char>) -> (r: Vec<(usize, usize)>)
    ensures
        r@.len() == line_spans(s@).len(),
        forall|k: int|
            0 <= k < r@.len() ==> r@[k].0 == line_spans(s@)[k].0 && r@[k].1 == line_spans(
                s@,
            )[k].1 && r@[k].0 <= r@[k].1 <= s@.len(),
        forall|k: int| 0 <= k < r@.len() - 1 ==> r@[k].1 < r@[k + 1].0,
{
    let mut r: Vec<(usize, usize)> = Vec::new();
    let mut i: usize = 0;
    let ghost mut done: Seq<(int, int)> = seq![];
    while i < s.len()
        invariant
            i <= s@.len(),
            done + line_spans_from(s@, i as int) == line_spans(s@),
            r@.len() == done.len(),
            forall|k: int|
                0 <= k < r@.len() ==> r@[k].0 == done[k].0 && r@[k].1 == done[k].1 && r@[k].0
                    <= r@[k].1 <= s@.len(),
            forall|k: int| 0 <= k < r@.len() - 1 ==> r@[k].1 < r@[k + 1].0,
            r@.len() > 0 ==> (r@.last().1 < i || i == s@.len()),
            r@.len() > 0 ==> r@.last().1 <= i,
        decreases s@.len() - i,
    {
        let mut e = i;
        proof {
            lemma_line_end(s@, i as int);
        }
        while e < s.len() && s[e] != '\n'
            invariant
                i <= e <= s@.len(),
                line_end(s@, i as int) == line_end(s@, e as int),
            decreases s@.len() - e,
        {
            e = e + 1;
        }
        let te = if e < s.len() && e > i && s[e - 1] == '\r' {
            e - 1
        } else {
            e
        };
        proof {
            let next: int = if e < s@.len() { e + 1 } else { e as int };
            assert(line_spans_from(s@, i as int) == seq![(i as int, te as int)]
                + line_spans_from(s@, next));
            done = done.push((i as int, te as int));
            assert(done + line_spans_from(s@, next) =~= line_spans(s@));
        }
        r.push((i, te));
        if e < s.len() {
            i = e + 1;
        } else {
            i = e;
        }
    }
    proof {
        assert(line_spans_from(s@, i as int) =~= seq![]);
        assert(done =~= line_spans(s@));
    }
    r
}

} // verus!

verus! {

/// Equality of two strings by their characters.
pub fn str_eq(a: &str, b: &str) -> (r: bool)
    ensures
        r == (a@ == b@),
{
    let x = chars_of(a);
    let y = chars_of(b);
    let r = range_eq(&x, 0, x.len(), &y);
    proof {
        assert(x@.subrange(0, x@.len() as int) =~= x@);
    }
    r
}

/// `k` is the index of the first `c` in `s`, or the length of `s` where
/// there is none.
pub open spec fn is_first_index_of(s: Seq<char>, c: char, k: int) -> bool {
    &&& 0 <= k <= s.len()
    &&& forall|j: int| 0 <= j < k ==> s[j] != c
    &&& k < s.len() ==> s[k] == c
}

/// The index of the first `c` in `s`, or the length of `s`.
pub open spec fn first_index_of(s: Seq<char>, c: char) -> int {
    choose|k: int| is_first_index_of(s, c, k)
}

pub proof fn lemma_first_index_of(s: Seq<char>, c: char, k: int)
    requires
        is_first_index_of(s, c, k),
    ensures
        first_index_of(s, c) == k,
{
    let f = first_index_of(s, c);
    assert(is_first_index_of(s, c, f));
    if f < k {
        assert(s[f] == c);
    } else if k < f {
        assert(s[k] == c);
    }
}

/// The index of the first `c` in `s`, or the length of `s`.
pub fn find_char(s: &Vec<char>, c: char) -> (k: usize)
    ensures
        k == first_index_of(s@, c),
        k <= s@.len(),
{
    let mut k: usize = 0;
    while k < s.len() && s[k] != c
        invariant
            k <= s@.len(),
            forall|j: int| 0 <= j < k ==> s@[j] != c,
        decreases s@.len() - k,
    {
        k = k + 1;
    }
    proof {
        lemma_first_index_of(s@, c, k as int);
    }
    k
}

/// ASCII lower case of one character.
pub open spec fn ascii_lower(c: char) -> char {
    if 'A' <= c && c <= 'Z' {
        ((c as u32) + 32) as char
    } else {
        c
    }
}

/// `str::eq_ignore_ascii_case`.
pub open spec fn eq_ignore_ascii_case(a: Seq<char>, b: Seq<char>) -> bool {
    a.len() == b.len() && forall|i: int| 0 <= i < a.len() ==> ascii_lower(a[i]) == ascii_lower(
        b[i],
    )
}

fn to_ascii_lower(c: char) -> (r: char)
    ensures
        r == ascii_lower(c),
{
    if 'A' <= c && c <= 'Z' {
        ((c as u8) + 32) as char
    } else {
        c
    }
}

/// Whether two strings are equal ignoring ASCII case.
pub fn str_eq_ignore_ascii_case(a: &str, b: &str) -> (r: bool)
    ensures
        r == eq_ignore_ascii_case(a@, b@),
{
    let x = chars_of(a);
    let y = chars_of(b);
    if x.len() != y.len() {
        return false;
    }
    let mut i: usize = 0;
    while i < x.len()
        invariant
            x@ == a@,
            y@ == b@,
            x@.len() == y@.len(),
            i <= x@.len(),
            forall|j: int| 0 <= j < i ==> ascii_lower(x@[j]) == ascii_lower(y@[j]),
        decreases x@.len() - i,
    {
        if to_ascii_lower(x[i]) != to_ascii_lower(y[i]) {
            return false;
        }
        i = i + 1;
    }
    true
}

/// `i` is the last position at which `p` occurs in `s`.
pub open spec fn is_last_occurrence(s: Seq<char>, p: Seq<char>, i: int) -> bool {
    occurs_at(s, p, i) && forall|j: int| i < j ==> !occurs_at(s, p, j)
}

/// The last position at which `p` occurs in `s` (meaningful where it does).
pub open spec fn last_occurrence(s: Seq<char>, p: Seq<char>) -> int {
    choose|i: int| is_last_occurrence(s, p, i)
}

pub proof fn lemma_last_occurrence(s: Seq<char>, p: Seq<char>, i: int)
    requires
        is_last_occurrence(s, p, i),
    ensures
        last_occurrence(s, p) == i,
        contains(s, p),
{
    let l = last_occurrence(s, p);
    assert(is_last_occurrence(s, p, l));
    if l < i {
        assert(occurs_at(s, p, i));
    } else if i < l {
        assert(occurs_at(s, p, l));
    }
}

/// The last position at which `p` occurs in `s`, if it does.
pub fn rfind(s: &Vec<char>, p: &Vec<char>) -> (r: Option<usize>)
    ensures
        match r {
            Some(i) => contains(s@, p@) && i == last_occurrence(s@, p@) && occurs_at(s@, p@, i as int),
            None => !contains(s@, p@),
        },
{
    if p.len() > s.len() {
        assert forall|j: int| !occurs_at(s@, p@, j) by {}
        return None;
    }
    let mut i: usize = s.len() - p.len();
    assert(s@.subrange(0, s@.len() as int) =~= s@);
    loop
        invariant
            i + p@.len() <= s@.len(),
            s@.subrange(0, s@.len() as int) == s@,
            forall|j: int| i < j ==> !occurs_at(s@, p@, j),
        decreases i,
    {
        if occurs_in_range_at(s, 0, s.len(), p, i) {
            proof {
                lemma_last_occurrence(s@, p@, i as int);
            }
            return Some(i);
        }
        if i == 0 {
            assert forall|j: int| !occurs_at(s@, p@, j) by {
                if j == 0 {
                    assert(!occurs_at(s@.subrange(0, s@.len() as int), p@, 0));
                }
            }
            return None;
        }
        i = i - 1;
    }
}

/// The characters `s[lo..hi]` as a string.
pub fn string_of_range(s: &Vec<char>, lo: usize, hi: usize) -> (r: String)
    requires
        lo <= hi <= s@.len(),
    ensures
        r@ == s@.subrange(lo as int, hi as int),
{
    let mut r = String::new();
    let mut i = lo;
    while i < hi
        invariant
            lo <= i <= hi <= s@.len(),
            r@ == s@.subrange(lo as int, i as int),
        decreases hi - i,
    {
        push_char(&mut r, s[i]);
        proof {
            assert(s@.subrange(lo as int, i + 1) =~= s@.subrange(lo as int, i as int).push(s@[i as int]));
        }
        i = i + 1;
    }
    r
}

/// Appends one character to a string (`String::push`).
#[verifier::external_body]
pub(crate) fn push_char(s: &mut String, c: char)
    ensures
        final(s)@ == old(s)@.push(c),
{
    s.push(c);
}

} // verus!

verus! {

/// The number of bytes of the UTF-8 form of `c`.
pub open spec fn char_utf8_len(c: char) -> int {
    let v = c as u32;
    if v <= 0x7F {
        1
    } else if v <= 0x7FF {
        2
    } else if v <= 0xFFFF {
        3
    } else {
        4
    }
}

/// The number of bytes of the UTF-8 form of `s`.
pub open spec fn utf8_len(s: Seq<char>) -> int {
    vstd::utf8::encode_utf8(s).len() as int
}

pub proof fn lemma_encode_concat(a: Seq<char>, b: Seq<char>)
    ensures
        vstd::utf8::encode_utf8(a + b) == vstd::utf8::encode_utf8(a) + vstd::utf8::encode_utf8(b),
    decreases a.len(),
{
    if a.len() == 0 {
        assert(a + b =~= b);
        assert(vstd::utf8::encode_utf8(a) =~= Seq::<u8>::empty());
        assert(vstd::utf8::encode_utf8(a) + vstd::utf8::encode_utf8(b) =~= vstd::utf8::encode_utf8(
            b,
        ));
    } else {
        assert((a + b).drop_first() =~= a.drop_first() + b);
        assert((a + b)[0] == a[0]);
        lemma_encode_concat(a.drop_first(), b);
        assert(vstd::utf8::encode_utf8(a + b) =~= vstd::utf8::encode_scalar(a[0] as u32) + (
        vstd::utf8::encode_utf8(a.drop_first()) + vstd::utf8::encode_utf8(b)));
    }
}

pub proof fn lemma_utf8_len_push(s: Seq<char>, c: char)
    ensures
        utf8_len(s.push(c)) == utf8_len(s) + char_utf8_len(c),
{
    lemma_encode_concat(s, seq![c]);
    assert(s.push(c) =~= s + seq![c]);
    let t = seq![c];
    assert(t[0] == c);
    assert(t.drop_first() =~= Seq::<char>::empty());
    assert(vstd::utf8::encode_utf8(t.drop_first()) =~= Seq::<u8>::empty());
    assert(vstd::utf8::encode_utf8(t) == vstd::utf8::encode_scalar(c as u32)
        + vstd::utf8::encode_utf8(t.drop_first()));
    assert(vstd::utf8::encode_utf8(t) =~= vstd::utf8::encode_scalar(c as u32));
    let v = c as u32;
    assert(vstd::utf8::is_scalar(v)) by {
        vstd::utf8::char_is_scalar(c);
    }
}

/// The number of bytes of the UTF-8 form of `c`.
pub fn len_utf8(c: char) -> (n: usize)
    ensures
        n == char_utf8_len(c),
{
    let v = c as u32;
    if v <= 0x7F {
        1
    } else if v <= 0x7FF {
        2
    } else if v <= 0xFFFF {
        3
    } else {
        4
    }
}

/// `b` is a character boundary of the UTF-8 form of `s`: some prefix of `s`
/// has exactly `b` bytes.
pub open spec fn is_utf8_boundary(s: Seq<char>, b: int) -> bool {
    exists|k: int| 0 <= k <= s.len() && utf8_len(#[trigger] s.take(k)) == b
}

/// The number of characters of `s` whose UTF-8 form has `b` bytes.
pub open spec fn chars_in_bytes(s: Seq<char>, b: int) -> int {
    choose|k: int| 0 <= k <= s.len() && utf8_len(#[trigger] s.take(k)) == b
}

pub proof fn lemma_utf8_len_at_least(s: Seq<char>)
    ensures
        utf8_len(s) >= s.len(),
    decreases s.len(),
{
    if s.len() > 0 {
        lemma_utf8_len_at_least(s.drop_last());
        lemma_utf8_len_push(s.drop_last(), s.last());
        assert(s.drop_last().push(s.last()) =~= s);
    } else {
        assert(vstd::utf8::encode_utf8(s) =~= Seq::<u8>::empty());
    }
}

pub proof fn lemma_boundary_unique(s: Seq<char>, k: int)
    requires
        0 <= k <= s.len(),
    ensures
        forall|j: int| 0 <= j <= s.len() && utf8_len(#[trigger] s.take(j)) == utf8_len(s.take(k)) ==> j == k,
{
    assert forall|j: int| 0 <= j <= s.len() && utf8_len(#[trigger] s.take(j)) == utf8_len(s.take(k)) implies j == k by {
        if j < k {
            lemma_utf8_len_strict(s, j, k);
        } else if k < j {
            lemma_utf8_len_strict(s, k, j);
        }
    }
}

pub proof fn lemma_utf8_len_strict(s: Seq<char>, a: int, b: int)
    requires
        0 <= a < b <= s.len(),
    ensures
        utf8_len(s.take(a)) < utf8_len(s.take(b)),
    decreases b - a,
{
    assert(s.take(a + 1) =~= s.take(a).push(s[a]));
    lemma_utf8_len_push(s.take(a), s[a]);
    if a + 1 < b {
        lemma_utf8_len_strict(s, a + 1, b);
    }
}

} // verus!
