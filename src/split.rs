//! Splitting on a separator or on runs of whitespace, and joining pieces
//! back with a separator.
use vstd::prelude::*;
use crate::element::AnyChar;
use crate::args::{AnyStrWrapper, SplitArgs};
use crate::matcher::PyError;
use crate::search::{find_from, find_in, lemma_find_from, matches_at, rfind_from, rfind_in, lemma_rfind_from};

verus! {

/// The contents of each piece.
pub open spec fn pieces_view<E>(v: Seq<Vec<E>>) -> Seq<Seq<E>> {
    v.map_values(|p: Vec<E>| p@)
}

/// Pieces of `s[pos..]` cut at each occurrence of `sep`, left to right, with
/// at most `maxsplit` cuts (no limit when `maxsplit` is negative).
pub open spec fn split_from<E>(s: Seq<E>, sep: Seq<E>, pos: int, maxsplit: int) -> Seq<Seq<E>>
    decreases s.len() + 1 - pos,
{
    if sep.len() == 0 || maxsplit == 0 {
        seq![s.subrange(pos, s.len() as int)]
    } else {
        match find_from(s, sep, pos) {
            Some(i) => if pos <= i && i + sep.len() <= s.len() {
                seq![s.subrange(pos, i)] + split_from(
                    s,
                    sep,
                    i + sep.len(),
                    if maxsplit > 0 {
                        maxsplit - 1
                    } else {
                        maxsplit
                    },
                )
            } else {
                seq![]
            },
            None => seq![s.subrange(pos, s.len() as int)],
        }
    }
}

/// First offset at or after `pos` that is not whitespace, or the length.
pub open spec fn skip_ws<E: AnyChar>(s: Seq<E>, pos: int) -> int
    decreases s.len() - pos,
{
    if pos < 0 || pos >= s.len() {
        pos
    } else if s[pos].spec_is_whitespace() {
        skip_ws(s, pos + 1)
    } else {
        pos
    }
}

/// First offset at or after `pos` that is whitespace, or the length.
pub open spec fn word_end<E: AnyChar>(s: Seq<E>, pos: int) -> int
    decreases s.len() - pos,
{
    if pos < 0 || pos >= s.len() {
        pos
    } else if s[pos].spec_is_whitespace() {
        pos
    } else {
        word_end(s, pos + 1)
    }
}

/// Words of `s[pos..]` separated by runs of whitespace, with at most
/// `maxsplit` cuts (no limit when negative); once the cuts are used up, the
/// rest after leading whitespace is one last piece.
pub open spec fn split_ws_from<E: AnyChar>(s: Seq<E>, pos: int, maxsplit: int) -> Seq<Seq<E>>
    decreases s.len() - pos,
{
    let p = skip_ws(s, pos);
    if pos < 0 || p >= s.len() || p < pos {
        seq![]
    } else if maxsplit == 0 {
        seq![s.subrange(p, s.len() as int)]
    } else {
        let e = word_end(s, p);
        if p < e <= s.len() {
            seq![s.subrange(p, e)] + split_ws_from(
                s,
                e,
                if maxsplit > 0 {
                    maxsplit - 1
                } else {
                    maxsplit
                },
            )
        } else {
            seq![]
        }
    }
}

/// `sep` between consecutive pieces.
pub open spec fn join_spec<E>(sep: Seq<E>, pieces: Seq<Seq<E>>) -> Seq<E>
    decreases pieces.len(),
{
    if pieces.len() == 0 {
        seq![]
    } else if pieces.len() == 1 {
        pieces[0]
    } else {
        join_spec(sep, pieces.drop_last()) + sep + pieces.last()
    }
}

proof fn lemma_skip_ws<E: AnyChar>(s: Seq<E>, pos: int)
    requires
        0 <= pos <= s.len(),
    ensures
        pos <= skip_ws(s, pos) <= s.len(),
        forall|k: int| pos <= k < skip_ws(s, pos) ==> s[k].spec_is_whitespace(),
        skip_ws(s, pos) < s.len() ==> !s[skip_ws(s, pos)].spec_is_whitespace(),
    decreases s.len() - pos,
{
    if pos < s.len() && s[pos].spec_is_whitespace() {
        lemma_skip_ws(s, pos + 1);
    }
}

proof fn lemma_word_end<E: AnyChar>(s: Seq<E>, pos: int)
    requires
        0 <= pos <= s.len(),
    ensures
        pos <= word_end(s, pos) <= s.len(),
        forall|k: int| pos <= k < word_end(s, pos) ==> !s[k].spec_is_whitespace(),
        word_end(s, pos) < s.len() ==> s[word_end(s, pos)].spec_is_whitespace(),
    decreases s.len() - pos,
{
    if pos < s.len() && !s[pos].spec_is_whitespace() {
        lemma_word_end(s, pos + 1);
    }
}

/// Appends the elements of `s`.
pub fn push_all<E: AnyChar>(v: &mut Vec<E>, s: &[E])
    ensures
        final(v)@ == old(v)@ + s@,
{
    let mut i: usize = 0;
    while i < s.len()
        invariant
            i <= s@.len(),
            v@ == old(v)@ + s@.subrange(0, i as int),
        decreases s@.len() - i,
    {
        v.push(s[i]);
        i = i + 1;
        assert(s@.subrange(0, i as int) == s@.subrange(0, i - 1) + seq![s@[i - 1]]);
    }
    assert(s@.subrange(0, i as int) == s@);
}

/// A fresh copy of `s[lo..hi]`.
pub fn copy_range<E: AnyChar>(s: &[E], lo: usize, hi: usize) -> (r: Vec<E>)
    requires
        lo <= hi <= s@.len(),
    ensures
        r@ == s@.subrange(lo as int, hi as int),
{
    let mut r: Vec<E> = Vec::new();
    push_all(&mut r, vstd::slice::slice_subrange(s, lo, hi));
    r
}

/// Pieces of `s` cut at each occurrence of the non-empty `sep`, with at most
/// `maxsplit` cuts (no limit when negative).
pub fn split_on<E: AnyChar>(s: &[E], sep: &[E], maxsplit: isize) -> (r: Vec<Vec<E>>)
    requires
        sep@.len() > 0,
    ensures
        pieces_view(r@) == split_from(s@, sep@, 0, maxsplit as int),
{
    let n = s.len();
    let mut pieces: Vec<Vec<E>> = Vec::new();
    let mut pos: usize = 0;
    let mut left: isize = maxsplit;
    while left != 0
        invariant
            n == s@.len(),
            sep@.len() > 0,
            pos <= s@.len(),
            maxsplit < 0 ==> left < 0,
            pieces_view(pieces@) + split_from(s@, sep@, pos as int, left as int) == split_from(
                s@,
                sep@,
                0,
                maxsplit as int,
            ),
        decreases s@.len() + 1 - pos,
    {
        match find_in(s, sep, pos) {
            Some(i) => {
                proof {
                    lemma_find_from(s@, sep@, pos as int);
                    assert(find_from(s@, sep@, pos as int) == Some(i as int));
                }
                let piece = copy_range(s, pos, i);
                let ghost before = pieces_view(pieces@);
                pieces.push(piece);
                let ghost next: int = if left > 0 {
                    left - 1
                } else {
                    left as int
                };
                assert(split_from(s@, sep@, pos as int, left as int) == seq![piece@]
                    + split_from(s@, sep@, i + sep@.len(), next));
                assert(pieces_view(pieces@) == before + seq![piece@]);
                pos = i + sep.len();
                if left > 0 {
                    left = left - 1;
                }
            },
            None => {
                let last = copy_range(s, pos, s.len());
                let ghost before = pieces_view(pieces@);
                pieces.push(last);
                assert(pieces_view(pieces@) == before + seq![last@]);
                return pieces;
            },
        }
    }
    let last = copy_range(s, pos, s.len());
    let ghost before = pieces_view(pieces@);
    pieces.push(last);
    assert(pieces_view(pieces@) == before + seq![last@]);
    pieces
}

/// Words of `s` separated by runs of whitespace, with at most `maxsplit`
/// cuts (no limit when negative).
pub fn split_whitespace<E: AnyChar>(s: &[E], maxsplit: isize) -> (r: Vec<Vec<E>>)
    ensures
        pieces_view(r@) == split_ws_from(s@, 0, maxsplit as int),
{
    let mut pieces: Vec<Vec<E>> = Vec::new();
    let mut pos: usize = 0;
    let mut left: isize = maxsplit;
    loop
        invariant
            pos <= s@.len(),
            maxsplit < 0 ==> left < 0,
            pieces_view(pieces@) + split_ws_from(s@, pos as int, left as int) == split_ws_from(
                s@,
                0,
                maxsplit as int,
            ),
        decreases s@.len() - pos,
    {
        proof {
            lemma_skip_ws(s@, pos as int);
        }
        let mut p: usize = pos;
        while p < s.len() && s[p].is_whitespace()
            invariant
                pos <= p <= s@.len(),
                skip_ws(s@, pos as int) == skip_ws(s@, p as int),
            decreases s@.len() - p,
        {
            p = p + 1;
        }
        if p >= s.len() {
            return pieces;
        }
        let ghost before = pieces_view(pieces@);
        if left == 0 {
            let last = copy_range(s, p, s.len());
            pieces.push(last);
            assert(pieces_view(pieces@) == before + seq![last@]);
            return pieces;
        }
        proof {
            lemma_word_end(s@, p as int);
        }
        let mut e: usize = p;
        while e < s.len() && !s[e].is_whitespace()
            invariant
                p <= e <= s@.len(),
                word_end(s@, p as int) == word_end(s@, e as int),
            decreases s@.len() - e,
        {
            e = e + 1;
        }
        let word = copy_range(s, p, e);
        pieces.push(word);
        assert(pieces_view(pieces@) == before + seq![word@]);
        pos = e;
        if left > 0 {
            left = left - 1;
        }
    }
}


/// Splits `s` as the options say: on the separator when one is given (an
/// empty one is a value error, a sentinel gives `s` whole), else on runs of
/// whitespace.
pub fn py_split<E: AnyChar, T: AnyStrWrapper<E>>(s: &[E], args: SplitArgs<T>) -> (r: Result<
    Vec<Vec<E>>,
    PyError,
>)
    ensures
        match args.sep {
            Some(w) => match w.wrapped() {
                Some(sep) => if sep.len() == 0 {
                    r is Err && r->Err_0 is ValueError
                } else {
                    r is Ok && pieces_view(r->Ok_0@) == split_from(
                        s@,
                        sep,
                        0,
                        args.maxsplit as int,
                    )
                },
                None => r is Ok && pieces_view(r->Ok_0@) == seq![s@],
            },
            None => r is Ok && pieces_view(r->Ok_0@) == split_ws_from(
                s@,
                0,
                args.maxsplit as int,
            ),
        },
{
    match args.sep {
        Some(w) => {
            if w.is_empty() {
                return Err(PyError::ValueError("empty separator".to_owned()));
            }
            match w.as_ref() {
                Some(sep) => Ok(split_on(s, sep, args.maxsplit)),
                None => {
                    let mut whole: Vec<Vec<E>> = Vec::new();
                    let piece = copy_range(s, 0, s.len());
                    whole.push(piece);
                    assert(s@.subrange(0, s@.len() as int) =~= s@);
                    assert(pieces_view(whole@) =~= seq![s@]);
                    Ok(whole)
                },
            }
        },
        None => Ok(split_whitespace(s, args.maxsplit)),
    }
}

/// Pieces of `s[..end]` cut at each occurrence of `sep`, right to left, with
/// at most `maxsplit` cuts (no limit when `maxsplit` is negative).
pub open spec fn rsplit_to<E>(s: Seq<E>, sep: Seq<E>, end: int, maxsplit: int) -> Seq<Seq<E>>
    decreases end,
{
    if sep.len() == 0 || maxsplit == 0 || end < 0 {
        seq![s.subrange(0, end)]
    } else {
        match rfind_from(s, sep, end - sep.len()) {
            Some(i) => if 0 <= i && i + sep.len() <= end {
                rsplit_to(
                    s,
                    sep,
                    i,
                    if maxsplit > 0 {
                        maxsplit - 1
                    } else {
                        maxsplit
                    },
                ) + seq![s.subrange(i + sep.len(), end)]
            } else {
                seq![]
            },
            None => seq![s.subrange(0, end)],
        }
    }
}

/// Start of the trailing run of whitespace of `s[..end]`.
pub open spec fn skip_ws_back<E: AnyChar>(s: Seq<E>, end: int) -> int
    decreases end,
{
    if end <= 0 || end > s.len() {
        end
    } else if s[end - 1].spec_is_whitespace() {
        skip_ws_back(s, end - 1)
    } else {
        end
    }
}

/// Start of the trailing run of non-whitespace of `s[..end]`.
pub open spec fn word_start<E: AnyChar>(s: Seq<E>, end: int) -> int
    decreases end,
{
    if end <= 0 || end > s.len() {
        end
    } else if s[end - 1].spec_is_whitespace() {
        end
    } else {
        word_start(s, end - 1)
    }
}

/// Words of `s[..end]` separated by runs of whitespace, taken right to left
/// with at most `maxsplit` cuts (no limit when negative); once the cuts are
/// used up, the rest before trailing whitespace is one first piece.
pub open spec fn rsplit_ws_to<E: AnyChar>(s: Seq<E>, end: int, maxsplit: int) -> Seq<Seq<E>>
    decreases end,
{
    let p = skip_ws_back(s, end);
    if end > s.len() || p <= 0 || p > end {
        seq![]
    } else if maxsplit == 0 {
        seq![s.subrange(0, p)]
    } else {
        let b = word_start(s, p);
        if 0 <= b < p {
            rsplit_ws_to(
                s,
                b,
                if maxsplit > 0 {
                    maxsplit - 1
                } else {
                    maxsplit
                },
            ) + seq![s.subrange(b, p)]
        } else {
            seq![]
        }
    }
}

/// Puts `p` in front of the pieces.
fn push_front<E>(acc: &mut Vec<Vec<E>>, p: Vec<E>)
    ensures
        pieces_view(final(acc)@) == seq![p@] + pieces_view(old(acc)@),
{
    let ghost pv = p@;
    acc.insert(0, p);
    assert(pieces_view(acc@) =~= seq![pv] + pieces_view(old(acc)@));
}

/// Pieces of `s` cut at each occurrence of the non-empty `sep`, taken right
/// to left with at most `maxsplit` cuts (no limit when negative).
pub fn rsplit_on<E: AnyChar>(s: &[E], sep: &[E], maxsplit: isize) -> (r: Vec<Vec<E>>)
    requires
        sep@.len() > 0,
    ensures
        pieces_view(r@) == rsplit_to(s@, sep@, s@.len() as int, maxsplit as int),
{
    let n = s.len();
    let mut acc: Vec<Vec<E>> = Vec::new();
    let mut end: usize = n;
    let mut left: isize = maxsplit;
    while left != 0
        invariant
            n == s@.len(),
            sep@.len() > 0,
            end <= n,
            maxsplit < 0 ==> left < 0,
            rsplit_to(s@, sep@, end as int, left as int) + pieces_view(acc@) == rsplit_to(
                s@,
                sep@,
                n as int,
                maxsplit as int,
            ),
        decreases end,
    {
        match rfind_in(s, sep, end) {
            Some(i) => {
                proof {
                    lemma_rfind_from(s@, sep@, end - sep@.len());
                    assert(rfind_from(s@, sep@, end - sep@.len()) == Some(i as int));
                }
                let piece = copy_range(s, i + sep.len(), end);
                let ghost next: int = if left > 0 {
                    left - 1
                } else {
                    left as int
                };
                assert(rsplit_to(s@, sep@, end as int, left as int) == rsplit_to(
                    s@,
                    sep@,
                    i as int,
                    next,
                ) + seq![piece@]);
                push_front(&mut acc, piece);
                end = i;
                if left > 0 {
                    left = left - 1;
                }
            },
            None => {
                push_front(&mut acc, copy_range(s, 0, end));
                return acc;
            },
        }
    }
    push_front(&mut acc, copy_range(s, 0, end));
    acc
}

/// Words of `s` separated by runs of whitespace, taken right to left with at
/// most `maxsplit` cuts (no limit when negative).
pub fn rsplit_whitespace<E: AnyChar>(s: &[E], maxsplit: isize) -> (r: Vec<Vec<E>>)
    ensures
        pieces_view(r@) == rsplit_ws_to(s@, s@.len() as int, maxsplit as int),
{
    let n = s.len();
    let mut acc: Vec<Vec<E>> = Vec::new();
    let mut end: usize = n;
    let mut left: isize = maxsplit;
    loop
        invariant
            n == s@.len(),
            end <= n,
            maxsplit < 0 ==> left < 0,
            rsplit_ws_to(s@, end as int, left as int) + pieces_view(acc@) == rsplit_ws_to(
                s@,
                n as int,
                maxsplit as int,
            ),
        decreases end,
    {
        let mut p: usize = end;
        while p > 0 && s[p - 1].is_whitespace()
            invariant
                n == s@.len(),
                p <= end <= n,
                skip_ws_back(s@, end as int) == skip_ws_back(s@, p as int),
            decreases p,
        {
            p = p - 1;
        }
        if p == 0 {
            assert(rsplit_ws_to(s@, end as int, left as int) =~= seq![]);
            assert(pieces_view(acc@) =~= seq![] + pieces_view(acc@));
            return acc;
        }
        if left == 0 {
            push_front(&mut acc, copy_range(s, 0, p));
            return acc;
        }
        let mut b: usize = p - 1;
        while b > 0 && !s[b - 1].is_whitespace()
            invariant
                n == s@.len(),
                b < p <= n,
                word_start(s@, p as int) == word_start(s@, b as int),
            decreases b,
        {
            b = b - 1;
        }
        let word = copy_range(s, b, p);
        let ghost next: int = if left > 0 {
            left - 1
        } else {
            left as int
        };
        assert(rsplit_ws_to(s@, end as int, left as int) == rsplit_ws_to(s@, b as int, next)
            + seq![word@]);
        push_front(&mut acc, word);
        end = b;
        if left > 0 {
            left = left - 1;
        }
    }
}

/// Splits `s` from the right as the options say: on the separator when one
/// is given (an empty one is a value error, a sentinel gives `s` whole), else
/// on runs of whitespace.
pub fn py_rsplit<E: AnyChar, T: AnyStrWrapper<E>>(s: &[E], args: SplitArgs<T>) -> (r: Result<
    Vec<Vec<E>>,
    PyError,
>)
    ensures
        match args.sep {
            Some(w) => match w.wrapped() {
                Some(sep) => if sep.len() == 0 {
                    r is Err && r->Err_0 is ValueError
                } else {
                    r is Ok && pieces_view(r->Ok_0@) == rsplit_to(
                        s@,
                        sep,
                        s@.len() as int,
                        args.maxsplit as int,
                    )
                },
                None => r is Ok && pieces_view(r->Ok_0@) == seq![s@],
            },
            None => r is Ok && pieces_view(r->Ok_0@) == rsplit_ws_to(
                s@,
                s@.len() as int,
                args.maxsplit as int,
            ),
        },
{
    match args.sep {
        Some(w) => {
            if w.is_empty() {
                return Err(PyError::ValueError("empty separator".to_owned()));
            }
            match w.as_ref() {
                Some(sep) => Ok(rsplit_on(s, sep, args.maxsplit)),
                None => {
                    let mut whole: Vec<Vec<E>> = Vec::new();
                    let piece = copy_range(s, 0, s.len());
                    whole.push(piece);
                    assert(s@.subrange(0, s@.len() as int) =~= s@);
                    assert(pieces_view(whole@) =~= seq![s@]);
                    Ok(whole)
                },
            }
        },
        None => Ok(rsplit_whitespace(s, args.maxsplit)),
    }
}

/// The contents of the items, all of which are taken to be `Ok`.
pub open spec fn ok_views<E>(items: Seq<Result<Vec<E>, PyError>>) -> Seq<Seq<E>> {
    items.map_values(|x: Result<Vec<E>, PyError>| x->Ok_0@)
}

/// Joins the items with `sep` between consecutive ones; the first item that
/// is an error is returned instead. No items give an empty result.
pub fn py_join<E: AnyChar>(sep: &[E], items: Vec<Result<Vec<E>, PyError>>) -> (r: Result<
    Vec<E>,
    PyError,
>)
    ensures
        (forall|i: int| 0 <= i < items@.len() ==> items@[i] is Ok) ==> r is Ok && r->Ok_0@
            == join_spec(sep@, ok_views(items@)),
        (exists|i: int| 0 <= i < items@.len() && items@[i] is Err) ==> exists|i: int|
            0 <= i < items@.len() && items@[i] is Err && r == items@[i] && forall|j: int|
                0 <= j < i ==> items@[j] is Ok,
{
    let ghost all = items@;
    let mut work = items;
    let mut joined: Vec<E> = Vec::new();
    let mut i: usize = 0;
    while i < work.len()
        invariant
            work@ == all,
            all == items@,
            i <= all.len(),
            forall|j: int| 0 <= j < i ==> all[j] is Ok,
            joined@ == join_spec(sep@, ok_views(all.subrange(0, i as int))),
        decreases all.len() - i,
    {
        match &work[i] {
            Ok(item) => {
                let ghost before = joined@;
                if i > 0 {
                    push_all(&mut joined, sep);
                }
                push_all(&mut joined, item.as_slice());
                proof {
                    let p = ok_views(all.subrange(0, i + 1));
                    assert(p.drop_last() =~= ok_views(all.subrange(0, i as int)));
                    assert(p.last() == item@);
                    if i == 0 {
                        assert(p.len() == 1);
                    }
                }
            },
            Err(_) => {
                assert(all[i as int] is Err);
                let e = work.remove(i);
                assert(e == all[i as int]);
                assert(!(forall|k: int| 0 <= k < all.len() ==> all[k] is Ok));
                return e;
            },
        }
        i = i + 1;
    }
    assert(all.subrange(0, i as int) =~= all);
    Ok(joined)
}

/// Joining a sequence of at least two pieces puts the first piece, then
/// the separator, before the join of the rest.
pub proof fn lemma_join_front<E>(sep: Seq<E>, pieces: Seq<Seq<E>>)
    requires
        pieces.len() >= 2,
    ensures
        join_spec(sep, pieces) == pieces[0] + sep + join_spec(sep, pieces.drop_first()),
    decreases pieces.len(),
{
    if pieces.len() == 2 {
        assert(pieces.drop_last().len() == 1);
        assert(pieces.drop_first().len() == 1);
        assert(join_spec(sep, pieces.drop_last()) == pieces[0]);
        assert(join_spec(sep, pieces.drop_first()) == pieces[1]);
    } else {
        lemma_join_front(sep, pieces.drop_last());
        assert(pieces.drop_last().drop_first() =~= pieces.drop_first().drop_last());
        assert(pieces.drop_first().last() == pieces.last());
        assert(join_spec(sep, pieces) == join_spec(sep, pieces.drop_last()) + sep + pieces.last());
        assert(join_spec(sep, pieces.drop_first()) == join_spec(
            sep,
            pieces.drop_first().drop_last(),
        ) + sep + pieces.last());
        assert(join_spec(sep, pieces) =~= pieces[0] + sep + join_spec(sep, pieces.drop_first()));
    }
}

/// Splitting `s[pos..]` on a non-empty separator gives at least one piece,
/// and joining the pieces with the same separator gives `s[pos..]` back.
pub proof fn lemma_split_join_from<E>(s: Seq<E>, sep: Seq<E>, pos: int, maxsplit: int)
    requires
        sep.len() > 0,
        0 <= pos <= s.len(),
    ensures
        split_from(s, sep, pos, maxsplit).len() >= 1,
        join_spec(sep, split_from(s, sep, pos, maxsplit)) == s.subrange(pos, s.len() as int),
    decreases s.len() + 1 - pos,
{
    lemma_find_from(s, sep, pos);
    if maxsplit != 0 {
        match find_from(s, sep, pos) {
            Some(i) => {
                let next = if maxsplit > 0 {
                    maxsplit - 1
                } else {
                    maxsplit
                };
                lemma_split_join_from(s, sep, i + sep.len(), next);
                let rest = split_from(s, sep, i + sep.len(), next);
                let all = seq![s.subrange(pos, i)] + rest;
                assert(all.drop_first() =~= rest);
                lemma_join_front(sep, all);
                assert(s.subrange(i, i + sep.len()) == sep);
                assert(s.subrange(pos, i) + sep + s.subrange(i + sep.len(), s.len() as int)
                    =~= s.subrange(pos, s.len() as int));
            },
            None => {},
        }
    }
}

/// Splitting a text on a non-empty separator with no limit on the cuts and
/// joining the pieces with that separator gives the text back.
pub proof fn lemma_split_join_round_trip<E>(text: Seq<E>, sep: Seq<E>, maxsplit: int)
    requires
        sep.len() > 0,
        maxsplit < 0,
    ensures
        join_spec(sep, split_from(text, sep, 0, maxsplit)) == text,
{
    lemma_split_join_from(text, sep, 0, maxsplit);
    assert(text.subrange(0, text.len() as int) =~= text);
}

} // verus!
