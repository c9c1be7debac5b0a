//! Character-level scanning of paths and patterns.
//!
//! Both route patterns and request paths are sequences of segments delimited
//! by `/`. The spec functions here define where a segment ends and how runs
//! of slashes are skipped; the exec functions compute the same positions on
//! `&str` values.

use vstd::prelude::*;

verus! {

/// Index of the first `/` in `s`, or `s.len()` if `s` contains none.
pub open spec fn first_slash(s: Seq<char>) -> int
    decreases s.len(),
{
    if s.len() == 0 {
        0
    } else if s[0] == '/' {
        0
    } else {
        1 + first_slash(s.drop_first())
    }
}

/// `s` without its leading run of `/` characters.
pub open spec fn skip_slashes(s: Seq<char>) -> Seq<char>
    decreases s.len(),
{
    if s.len() > 0 && s[0] == '/' {
        skip_slashes(s.drop_first())
    } else {
        s
    }
}

pub proof fn lemma_first_slash_bounds(s: Seq<char>)
    ensures
        0 <= first_slash(s) <= s.len(),
        first_slash(s) < s.len() ==> s[first_slash(s)] == '/',
        forall|i: int| 0 <= i < first_slash(s) ==> s[i] != '/',
        s.len() > 0 && s[0] != '/' ==> first_slash(s) >= 1,
    decreases s.len(),
{
    if s.len() > 0 && s[0] != '/' {
        lemma_first_slash_bounds(s.drop_first());
        assert forall|i: int| 0 <= i < first_slash(s) implies s[i] != '/' by {
            if i > 0 {
                assert(s.drop_first()[i - 1] == s[i]);
            }
        }
    }
}

pub proof fn lemma_skip_slashes(s: Seq<char>)
    ensures
        skip_slashes(s).len() <= s.len(),
        skip_slashes(s).len() > 0 ==> skip_slashes(s)[0] != '/',
    decreases s.len(),
{
    if s.len() > 0 && s[0] == '/' {
        lemma_skip_slashes(s.drop_first());
    }
}

/// Smallest position `r >= pos` such that the suffix of `path` at `r` starts
/// with a character other than `/`, or the end of `path`.
pub(crate) fn skip_slashes_exec(path: &str, pos: usize) -> (r: usize)
    requires
        pos <= path@.len(),
    ensures
        pos <= r <= path@.len(),
        path@.skip(r as int) == skip_slashes(path@.skip(pos as int)),
{
    let len = path.unicode_len();
    let mut i = pos;
    while i < len && path.get_char(i) == '/'
        invariant
            pos <= i <= len,
            len == path@.len(),
            skip_slashes(path@.skip(pos as int)) == skip_slashes(path@.skip(i as int)),
        decreases len - i,
    {
        proof {
            assert(path@.skip(i as int).drop_first() =~= path@.skip(i + 1 as int));
        }
        i = i + 1;
    }
    proof {
        if i == len {
            assert(path@.skip(i as int) =~= Seq::<char>::empty());
        }
        assert(skip_slashes(path@.skip(i as int)) == path@.skip(i as int));
    }
    i
}

/// End position of the segment of `path` that starts at `pos`: the position
/// of the next `/` at or after `pos`, or the end of `path`.
pub(crate) fn seg_end(path: &str, pos: usize) -> (r: usize)
    requires
        pos <= path@.len(),
    ensures
        pos <= r <= path@.len(),
        r - pos == first_slash(path@.skip(pos as int)),
{
    let len = path.unicode_len();
    let mut i = pos;
    while i < len && path.get_char(i) != '/'
        invariant
            pos <= i <= len,
            len == path@.len(),
            first_slash(path@.skip(pos as int)) == i - pos + first_slash(path@.skip(i as int)),
        decreases len - i,
    {
        proof {
            assert(path@.skip(i as int).drop_first() =~= path@.skip(i + 1 as int));
        }
        i = i + 1;
    }
    proof {
        if i == len {
            assert(path@.skip(i as int) =~= Seq::<char>::empty());
        }
        assert(first_slash(path@.skip(i as int)) == 0);
    }
    i
}

/// Whether two strings hold the same characters.
pub fn str_eq(a: &str, b: &str) -> (r: bool)
    ensures
        r == (a@ == b@),
{
    let a_len = a.unicode_len();
    let b_len = b.unicode_len();
    if a_len != b_len {
        return false;
    }
    let mut k: usize = 0;
    while k < a_len
        invariant
            0 <= k <= a_len,
            a_len == a@.len(),
            a_len == b@.len(),
            forall|j: int| 0 <= j < k ==> a@[j] == b@[j],
        decreases a_len - k,
    {
        if a.get_char(k) != b.get_char(k) {
            return false;
        }
        k = k + 1;
    }
    proof {
        assert(a@ =~= b@);
    }
    true
}

/// Whether the characters of `path` from `start` (inclusive) to `end`
/// (exclusive) are exactly the characters of `text`.
pub(crate) fn str_range_matches(path: &str, start: usize, end: usize, text: &String) -> (b: bool)
    requires
        start <= end <= path@.len(),
    ensures
        b == (path@.subrange(start as int, end as int) == text@),
{
    let text_len = text.as_str().unicode_len();
    if text_len != end - start {
        proof {
            assert(path@.subrange(start as int, end as int).len() == end - start);
        }
        return false;
    }
    let mut k: usize = 0;
    while k < text_len
        invariant
            0 <= k <= text_len,
            text_len == text@.len(),
            start <= end <= path@.len(),
            text_len == end - start,
            forall|j: int| 0 <= j < k ==> path@.subrange(start as int, end as int)[j] == text@[j],
        decreases text_len - k,
    {
        if path.get_char(start + k) != text.as_str().get_char(k) {
            proof {
                assert(path@.subrange(start as int, end as int)[k as int] != text@[k as int]);
            }
            return false;
        }
        proof {
            assert(path@.subrange(start as int, end as int)[k as int] == path@[start + k as int]);
        }
        k = k + 1;
    }
    proof {
        assert(path@.subrange(start as int, end as int) =~= text@);
    }
    true
}

} // verus!
