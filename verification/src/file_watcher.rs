//! The file name of a lock-file path, as `Path::file_name` reads it on a
//! Unix-style path: the last component that is not empty and not `.`, unless
//! that component is `..`.

use vstd::prelude::*;
use crate::text::{chars_of, string_of_range};

verus! {

/// The index at which the path segment ending at `end` begins: just after the
/// last `/` before `end`, or 0.
pub open spec fn segment_start(s: Seq<char>, end: int) -> int
    decreases end,
{
    if end <= 0 {
        0
    } else if s[end - 1] == '/' {
        end
    } else {
        segment_start(s, end - 1)
    }
}

pub proof fn lemma_segment_start(s: Seq<char>, end: int)
    requires
        0 <= end <= s.len(),
    ensures
        0 <= segment_start(s, end) <= end,
        forall|k: int| segment_start(s, end) <= k < end ==> s[k] != '/',
        segment_start(s, end) > 0 ==> s[segment_start(s, end) - 1] == '/',
    decreases end,
{
    if end > 0 && s[end - 1] != '/' {
        lemma_segment_start(s, end - 1);
    }
}

/// The file name of the path `s[..end]`: its last segment, skipping empty
/// segments and `.`; none where that segment is `..` or there is none.
pub open spec fn file_name_upto(s: Seq<char>, end: int) -> Option<Seq<char>>
    decreases end,
{
    if end <= 0 {
        None
    } else {
        let start = segment_start(s, end);
        let seg = s.subrange(start, end);
        if seg.len() == 0 || seg == seq!['.'] {
            if start <= 0 || start >= end + 1 {
                None
            } else {
                file_name_upto(s, start - 1)
            }
        } else if seg == seq!['.', '.'] {
            None
        } else {
            Some(seg)
        }
    }
}

/// The file name of a whole path.
pub open spec fn file_name(s: Seq<char>) -> Option<Seq<char>> {
    file_name_upto(s, s.len() as int)
}

/// The file name of a lock-file path: `Some` of the last path component, and
/// `None` where the path has no file name (`/`, the empty path, a path that
/// ends in `..`).
pub fn extract_lockfile_name(lockfile_path: &str) -> (r: Option<String>)
    ensures
        match file_name(lockfile_path@) {
            Some(n) => r is Some && r->0@ == n,
            None => r is None,
        },
{
    let cs = chars_of(lockfile_path);
    let mut end: usize = cs.len();
    loop
        invariant
            end <= cs@.len(),
            cs@ == lockfile_path@,
            file_name(lockfile_path@) == file_name_upto(cs@, end as int),
        decreases end,
    {
        if end == 0 {
            return None;
        }
        let mut start: usize = end;
        while start > 0 && cs[start - 1] != '/'
            invariant
                start <= end <= cs@.len(),
                segment_start(cs@, end as int) == segment_start(cs@, start as int),
            decreases start,
        {
            start = start - 1;
        }
        proof {
            lemma_segment_start(cs@, end as int);
        }
        assert(segment_start(cs@, end as int) == start);
        let len = end - start;
        if len == 0 || (len == 1 && cs[start] == '.') {
            proof {
                if len == 1 {
                    assert(cs@.subrange(start as int, end as int) =~= seq!['.']);
                } else {
                    assert(cs@.subrange(start as int, end as int).len() == 0);
                }
            }
            if start == 0 {
                return None;
            }
            end = start - 1;
        } else if len == 2 && cs[start] == '.' && cs[start + 1] == '.' {
            proof {
                assert(cs@.subrange(start as int, end as int) =~= seq!['.', '.']);
            }
            return None;
        } else {
            proof {
                let seg = cs@.subrange(start as int, end as int);
                if len == 1 {
                    assert(seg[0] != '.');
                    assert(seg != seq!['.']);
                }
                if len == 2 {
                    assert(seg[0] != '.' || seg[1] != '.');
                    assert(seg != seq!['.', '.']);
                }
                assert(seg.len() != 1 || seg != seq!['.']);
                assert(seg.len() != 2 || seg != seq!['.', '.']);
            }
            return Some(string_of_range(&cs, start, end));
        }
    }
}

} // verus!
