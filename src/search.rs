//! Searching for a sub-sequence: first occurrence and non-overlapping count,
//! over the whole sequence or over a normalised sub-range.
use vstd::prelude::*;
use crate::element::AnyChar;
use crate::index::StringRange;

verus! {

/// An offset moved by `d`, as a machine index.
pub open spec fn offset_by(o: Option<int>, d: int) -> Option<usize> {
    match o {
        Some(j) => Some((j + d) as usize),
        None => None,
    }
}

/// `sub` occurs in `s` at offset `i`.
pub open spec fn matches_at<E>(s: Seq<E>, sub: Seq<E>, i: int) -> bool {
    0 <= i && i + sub.len() <= s.len() && s.subrange(i, i + sub.len()) == sub
}

/// First offset at or after `i` where `sub` occurs in `s`.
pub open spec fn find_from<E>(s: Seq<E>, sub: Seq<E>, i: int) -> Option<int>
    decreases s.len() + 1 - i,
{
    if i < 0 || i + sub.len() > s.len() {
        None
    } else if matches_at(s, sub, i) {
        Some(i)
    } else {
        find_from(s, sub, i + 1)
    }
}

/// Number of non-overlapping occurrences of `sub` in `s` from offset `i` on,
/// taken left to right; an empty `sub` occurs at every offset up to the end.
pub open spec fn count_from<E>(s: Seq<E>, sub: Seq<E>, i: int) -> nat
    decreases s.len() + 1 - i,
{
    match find_from(s, sub, i) {
        Some(j) => {
            let next = j + if sub.len() == 0 {
                1
            } else {
                sub.len() as int
            };
            if i < next <= s.len() + 1 {
                1 + count_from(s, sub, next)
            } else {
                0
            }
        },
        None => 0,
    }
}

/// What `find_from` returns is a real occurrence, the first one.
pub proof fn lemma_find_from<E>(s: Seq<E>, sub: Seq<E>, i: int)
    requires
        0 <= i,
    ensures
        match find_from(s, sub, i) {
            Some(j) => i <= j && matches_at(s, sub, j) && forall|k: int|
                i <= k < j ==> !matches_at(s, sub, k),
            None => forall|k: int| i <= k ==> !matches_at(s, sub, k),
        },
    decreases s.len() + 1 - i,
{
    if i + sub.len() > s.len() {
    } else if !matches_at(s, sub, i) {
        lemma_find_from(s, sub, i + 1);
    }
}

/// Last offset at or below `i` where `sub` occurs in `s`.
pub open spec fn rfind_from<E>(s: Seq<E>, sub: Seq<E>, i: int) -> Option<int>
    decreases i + 1,
{
    if i < 0 {
        None
    } else if matches_at(s, sub, i) {
        Some(i)
    } else {
        rfind_from(s, sub, i - 1)
    }
}

/// What `rfind_from` returns is a real occurrence, the last one.
pub proof fn lemma_rfind_from<E>(s: Seq<E>, sub: Seq<E>, i: int)
    ensures
        match rfind_from(s, sub, i) {
            Some(j) => 0 <= j <= i && matches_at(s, sub, j) && forall|k: int|
                j < k <= i ==> !matches_at(s, sub, k),
            None => forall|k: int| k <= i ==> !matches_at(s, sub, k),
        },
    decreases i + 1,
{
    if i >= 0 && !matches_at(s, sub, i) {
        lemma_rfind_from(s, sub, i - 1);
    }
}

/// Last offset `i` with `i + sub.len() <= end` where `sub` occurs in `s`.
pub fn rfind_in<E: AnyChar>(s: &[E], sub: &[E], end: usize) -> (r: Option<usize>)
    requires
        end <= s@.len(),
    ensures
        r == offset_by(rfind_from(s@, sub@, end - sub@.len()), 0),
        r is Some ==> r->0 + sub@.len() <= end,
{
    proof {
        lemma_rfind_from(s@, sub@, end - sub@.len());
    }
    if sub.len() > end {
        return None;
    }
    let mut i: usize = end - sub.len();
    loop
        invariant
            i + sub@.len() <= end <= s@.len(),
            rfind_from(s@, sub@, end - sub@.len()) == rfind_from(s@, sub@, i as int),
        decreases i,
    {
        if match_at(s, sub, i) {
            return Some(i);
        }
        if i == 0 {
            assert(rfind_from(s@, sub@, -1) is None);
            return None;
        }
        i = i - 1;
    }
}

/// `sub` occurs in `s` at offset `i`.
pub fn match_at<E: AnyChar>(s: &[E], sub: &[E], i: usize) -> (r: bool)
    requires
        i + sub@.len() <= s@.len(),
    ensures
        r == matches_at(s@, sub@, i as int),
{
    let n = s.len();
    let mut k: usize = 0;
    while k < sub.len()
        invariant
            n == s@.len(),
            i + sub@.len() <= s@.len(),
            k <= sub@.len(),
            forall|j: int| 0 <= j < k ==> s@[i + j] == sub@[j],
        decreases sub@.len() - k,
    {
        if !s[i + k].same(sub[k]) {
            assert(s@.subrange(i as int, i + sub@.len())[k as int] != sub@[k as int]);
            return false;
        }
        k = k + 1;
    }
    assert(s@.subrange(i as int, i + sub@.len()) =~= sub@);
    true
}

/// First offset at or after `from` where `sub` occurs in `s`.
pub fn find_in<E: AnyChar>(s: &[E], sub: &[E], from: usize) -> (r: Option<usize>)
    ensures
        r == offset_by(find_from(s@, sub@, from as int), 0),
        r is Some ==> r->0 >= from && r->0 + sub@.len() <= s@.len(),
{
    proof {
        lemma_find_from(s@, sub@, from as int);
    }
    if sub.len() > s.len() {
        return None;
    }
    let last = s.len() - sub.len();
    let mut i: usize = from;
    while i <= last
        invariant
            last + sub@.len() == s@.len(),
            from <= i,
            find_from(s@, sub@, from as int) == find_from(s@, sub@, i as int),
        decreases last + 1 - i,
    {
        if match_at(s, sub, i) {
            return Some(i);
        }
        if i == last {
            return None;
        }
        i = i + 1;
    }
    None
}

/// Number of non-overlapping occurrences of `sub` in `s`.
pub fn count_in<E: AnyChar>(s: &[E], sub: &[E]) -> (r: usize)
    requires
        s@.len() < usize::MAX,
    ensures
        r == count_from(s@, sub@, 0),
{
    let step: usize = if sub.len() == 0 {
        1
    } else {
        sub.len()
    };
    let mut pos: usize = 0;
    let mut count: usize = 0;
    while pos <= s.len()
        invariant
            s@.len() < usize::MAX,
            step == (if sub@.len() == 0 {
                1
            } else {
                sub@.len()
            }),
            count <= pos,
            count + count_from(s@, sub@, pos as int) == count_from(s@, sub@, 0),
        decreases s@.len() + 1 - pos,
    {
        match find_in(s, sub, pos) {
            Some(j) => {
                proof {
                    lemma_find_from(s@, sub@, pos as int);
                    assert(count_from(s@, sub@, pos as int) == 1 + count_from(
                        s@,
                        sub@,
                        j + step,
                    ));
                }
                count = count + 1;
                pos = j + step;
            },
            None => {
                return count;
            },
        }
    }
    assert(count_from(s@, sub@, pos as int) == 0);
    count
}

/// First occurrence of `needle` inside `range` of `s`, as an offset into `s`;
/// `None` for an inverted range.
pub fn py_find<E: AnyChar>(s: &[E], needle: &[E], range: std::ops::Range<usize>) -> (r: Option<
    usize,
>)
    requires
        range.end <= s@.len(),
    ensures
        r == if range.start <= range.end {
            offset_by(
                find_from(s@.subrange(range.start as int, range.end as int), needle@, 0),
                range.start as int,
            )
        } else {
            None
        },
{
    if range.is_normal() {
        let start = range.start;
        let sub = vstd::slice::slice_subrange(s, start, range.end);
        proof {
            lemma_find_from(sub@, needle@, 0);
        }
        match find_in(sub, needle, 0) {
            Some(index) => Some(start + index),
            None => None,
        }
    } else {
        None
    }
}

/// Number of non-overlapping occurrences of `needle` inside `range` of `s`;
/// 0 for an inverted range.
pub fn py_count<E: AnyChar>(s: &[E], needle: &[E], range: std::ops::Range<usize>) -> (r: usize)
    requires
        range.end <= s@.len(),
        s@.len() < usize::MAX,
    ensures
        r == if range.start <= range.end {
            count_from(s@.subrange(range.start as int, range.end as int), needle@, 0)
        } else {
            0
        },
{
    if range.is_normal() {
        count_in(vstd::slice::slice_subrange(s, range.start, range.end), needle)
    } else {
        0
    }
}

} // verus!
