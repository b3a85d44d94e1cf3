//! The sequence algorithms, written once over any element kind: concatenation,
//! padding, case classification, prefix/suffix removal, partition, zero fill,
//! line splitting, stripping and prefix/suffix tests.
use vstd::prelude::*;
use vstd::string::StringExecFns;
use crate::args::{isize_to_usize, SplitLinesArgs, StartsEndsWithArgs};
use crate::index::{norm_end, norm_start, opt_value};
use crate::element::AnyChar;
use crate::matcher::{affix_any, decided_by, lemma_offender_is_other, offender, single_or_tuple_any, AffixArg, PyError};
use crate::search::{find_from, find_in, lemma_find_from, lemma_rfind_from, match_at, rfind_from, rfind_in};
use crate::split::{copy_range, pieces_view, push_all};

verus! {

/// `s` followed by `other`.
pub fn py_add<E: AnyChar>(s: &[E], other: &[E]) -> (r: Vec<E>)
    ensures
        r@ == s@ + other@,
{
    let mut r: Vec<E> = Vec::new();
    push_all(&mut r, s);
    push_all(&mut r, other);
    r
}

/// `n` copies of `fill`.
pub open spec fn fill_seq<E>(fill: E, n: nat) -> Seq<E> {
    Seq::new(n, |_i: int| fill)
}

/// Appends `n` copies of `fill`.
fn push_fill<E: AnyChar>(v: &mut Vec<E>, fill: E, n: usize)
    ensures
        final(v)@ == old(v)@ + fill_seq(fill, n as nat),
{
    let mut i: usize = 0;
    while i < n
        invariant
            i <= n,
            v@ == old(v)@ + fill_seq(fill, i as nat),
        decreases n - i,
    {
        v.push(fill);
        i = i + 1;
        assert(fill_seq(fill, i as nat) =~= fill_seq(fill, (i - 1) as nat) + seq![fill]);
    }
}

/// `left` fill elements, `s`, then `right` fill elements.
pub fn py_pad<E: AnyChar>(s: &[E], left: usize, right: usize, fillchar: E) -> (r: Vec<E>)
    ensures
        r@ == fill_seq(fillchar, left as nat) + s@ + fill_seq(fillchar, right as nat),
{
    let mut u: Vec<E> = Vec::new();
    push_fill(&mut u, fillchar, left);
    push_all(&mut u, s);
    push_fill(&mut u, fillchar, right);
    u
}

/// Left margin of a centred text: half the margin, plus one when the margin
/// and the width are both odd.
pub open spec fn center_left(marg: usize, width: usize) -> usize {
    (marg / 2 + (marg & width & 1)) as usize
}

/// `s` centred in `width` elements; unchanged when it is not shorter.
pub fn py_center<E: AnyChar>(s: &[E], width: usize, fillchar: E) -> (r: Vec<E>)
    ensures
        width <= s@.len() ==> r@ == s@,
        width > s@.len() ==> ({
            let marg = (width - s@.len()) as usize;
            let left = center_left(marg, width);
            r@ == fill_seq(fillchar, left as nat) + s@ + fill_seq(fillchar, (marg - left) as nat)
        }),
        width > s@.len() ==> r@.len() == width,
{
    let len = s.len();
    if width <= len {
        return copy_range(s, 0, len);
    }
    let marg = width - len;
    let bit = marg & width & 1;
    assert(bit == 1 ==> marg % 2 == 1) by (bit_vector)
        requires
            bit == marg & width & 1,
    ;
    assert(bit <= 1) by (bit_vector)
        requires
            bit == marg & width & 1,
    ;
    let left = marg / 2 + bit;
    py_pad(s, left, marg - left, fillchar)
}

/// `s` followed by fill up to `width` elements; unchanged when not shorter.
pub fn py_ljust<E: AnyChar>(s: &[E], width: usize, fillchar: E) -> (r: Vec<E>)
    ensures
        width <= s@.len() ==> r@ == s@,
        width > s@.len() ==> r@ == s@ + fill_seq(fillchar, (width - s@.len()) as nat),
        width > s@.len() ==> r@.len() == width,
{
    let len = s.len();
    if width <= len {
        return copy_range(s, 0, len);
    }
    let r = py_pad(s, 0, width - len, fillchar);
    assert(fill_seq(fillchar, 0) + s@ =~= s@);
    r
}

/// Fill up to `width` elements followed by `s`; unchanged when not shorter.
pub fn py_rjust<E: AnyChar>(s: &[E], width: usize, fillchar: E) -> (r: Vec<E>)
    ensures
        width <= s@.len() ==> r@ == s@,
        width > s@.len() ==> r@ == fill_seq(fillchar, (width - s@.len()) as nat) + s@,
        width > s@.len() ==> r@.len() == width,
{
    let len = s.len();
    if width <= len {
        return copy_range(s, 0, len);
    }
    let r = py_pad(s, width - len, 0, fillchar);
    assert(fill_seq(fillchar, (width - len) as nat) + s@ + fill_seq(fillchar, 0) =~= fill_seq(
        fillchar,
        (width - len) as nat,
    ) + s@);
    r
}

/// At least one element is lowercase and none is uppercase.
pub open spec fn is_lower_seq<E: AnyChar>(s: Seq<E>) -> bool {
    (exists|i: int| 0 <= i < s.len() && s[i].spec_is_lowercase()) && (forall|i: int|
        0 <= i < s.len() ==> !s[i].spec_is_uppercase())
}

/// At least one element is uppercase and none is lowercase.
pub open spec fn is_upper_seq<E: AnyChar>(s: Seq<E>) -> bool {
    (exists|i: int| 0 <= i < s.len() && s[i].spec_is_uppercase()) && (forall|i: int|
        0 <= i < s.len() ==> !s[i].spec_is_lowercase())
}

/// Whether `s` has a lowercase element and no uppercase one.
pub fn py_islower<E: AnyChar>(s: &[E]) -> (r: bool)
    ensures
        r == is_lower_seq(s@),
{
    let mut lower = false;
    let mut i: usize = 0;
    while i < s.len()
        invariant
            i <= s@.len(),
            lower == exists|j: int| 0 <= j < i && s@[j].spec_is_lowercase(),
            forall|j: int| 0 <= j < i ==> !s@[j].spec_is_uppercase(),
        decreases s@.len() - i,
    {
        let c = s[i];
        if c.is_uppercase() {
            return false;
        } else if !lower && c.is_lowercase() {
            lower = true;
        }
        i = i + 1;
    }
    lower
}

/// Whether `s` has an uppercase element and no lowercase one.
pub fn py_isupper<E: AnyChar>(s: &[E]) -> (r: bool)
    ensures
        r == is_upper_seq(s@),
{
    let mut upper = false;
    let mut i: usize = 0;
    while i < s.len()
        invariant
            i <= s@.len(),
            upper == exists|j: int| 0 <= j < i && s@[j].spec_is_uppercase(),
            forall|j: int| 0 <= j < i ==> !s@[j].spec_is_lowercase(),
        decreases s@.len() - i,
    {
        let c = s[i];
        if c.is_lowercase() {
            return false;
        } else if !upper && c.is_uppercase() {
            upper = true;
        }
        i = i + 1;
    }
    upper
}

/// No sequence is both lowercase and uppercase, and one without cased
/// elements is neither.
pub proof fn lemma_case_exclusive<E: AnyChar>(s: Seq<E>)
    ensures
        !(is_lower_seq(s) && is_upper_seq(s)),
        (forall|i: int| 0 <= i < s.len() ==> !s[i].spec_is_lowercase() && !s[i].spec_is_uppercase())
            ==> !is_lower_seq(s) && !is_upper_seq(s),
{
}

/// `s` begins with `p`.
pub open spec fn starts_with<E>(s: Seq<E>, p: Seq<E>) -> bool {
    p.len() <= s.len() && s.subrange(0, p.len() as int) == p
}

/// `s` ends with `p`.
pub open spec fn ends_with<E>(s: Seq<E>, p: Seq<E>) -> bool {
    p.len() <= s.len() && s.subrange(s.len() - p.len(), s.len() as int) == p
}

/// `s` without the prefix `p`, or `s` itself when it does not begin with `p`.
pub open spec fn remove_prefix<E>(s: Seq<E>, p: Seq<E>) -> Seq<E> {
    if starts_with(s, p) {
        s.subrange(p.len() as int, s.len() as int)
    } else {
        s
    }
}

/// `s` without the suffix `p`, or `s` itself when it does not end with `p`.
pub open spec fn remove_suffix<E>(s: Seq<E>, p: Seq<E>) -> Seq<E> {
    if ends_with(s, p) {
        s.subrange(0, s.len() - p.len())
    } else {
        s
    }
}

/// Whether `s` begins with `prefix`.
pub fn py_startswith<E: AnyChar>(s: &[E], prefix: &[E]) -> (r: bool)
    ensures
        r == starts_with(s@, prefix@),
{
    prefix.len() <= s.len() && match_at(s, prefix, 0)
}

/// Whether `s` ends with `suffix`.
pub fn py_endswith<E: AnyChar>(s: &[E], suffix: &[E]) -> (r: bool)
    ensures
        r == ends_with(s@, suffix@),
{
    suffix.len() <= s.len() && match_at(s, suffix, s.len() - suffix.len())
}

/// The part of `s` after `prefix` when `s` begins with it, else all of `s`.
pub fn py_removeprefix<'a, E: AnyChar>(s: &'a [E], prefix: &[E]) -> (r: &'a [E])
    ensures
        r@ == remove_prefix(s@, prefix@),
{
    if py_startswith(s, prefix) {
        vstd::slice::slice_subrange(s, prefix.len(), s.len())
    } else {
        s
    }
}

/// The part of `s` before `suffix` when `s` ends with it, else all of `s`.
pub fn py_removesuffix<'a, E: AnyChar>(s: &'a [E], suffix: &[E]) -> (r: &'a [E])
    ensures
        r@ == remove_suffix(s@, suffix@),
{
    if py_endswith(s, suffix) {
        vstd::slice::slice_subrange(s, 0, s.len() - suffix.len())
    } else {
        s
    }
}

/// Removing a non-empty prefix a second time changes nothing, unless the
/// text begins with two copies of it.
pub proof fn lemma_removeprefix_idempotent<E>(x: Seq<E>, p: Seq<E>)
    requires
        p.len() > 0,
        !starts_with(x, p + p),
    ensures
        remove_prefix(remove_prefix(x, p), p) == remove_prefix(x, p),
{
    if starts_with(x, p) {
        let y = x.subrange(p.len() as int, x.len() as int);
        if starts_with(y, p) {
            assert(x.subrange(0, (p + p).len() as int) =~= p + p);
        }
    }
}

/// The text before the first occurrence of `sub`, whether there is one, and
/// the text after it; without one, all of `s` and nothing. An empty `sub`
/// is a value error.
pub fn py_partition<E: AnyChar>(s: &[E], sub: &[E]) -> (r: Result<(Vec<E>, bool, Vec<E>), PyError>)
    ensures
        sub@.len() == 0 <==> r is Err,
        r is Err ==> r->Err_0 is ValueError,
        r is Ok ==> ({
            let (front, matched, back) = r->Ok_0;
            match find_from(s@, sub@, 0) {
                Some(i) => matched && front@ == s@.subrange(0, i) && back@ == s@.subrange(
                    i + sub@.len(),
                    s@.len() as int,
                ),
                None => !matched && front@ == s@ && back@.len() == 0,
            }
        }),
        r is Ok && (r->Ok_0).1 ==> (r->Ok_0).0@ + sub@ + (r->Ok_0).2@ == s@,
        r is Ok && !(r->Ok_0).1 ==> (r->Ok_0).0@ == s@ && (r->Ok_0).2@.len() == 0,
{
    if sub.len() == 0 {
        return Err(PyError::ValueError("empty separator".to_owned()));
    }
    let n = s.len();
    proof {
        lemma_find_from(s@, sub@, 0);
    }
    match find_in(s, sub, 0) {
        Some(i) => {
            assert(find_from(s@, sub@, 0) == Some(i as int));
            let front = copy_range(s, 0, i);
            let back = copy_range(s, i + sub.len(), n);
            assert(s@.subrange(i as int, i + sub@.len()) == sub@);
            assert(front@ + sub@ + back@ =~= s@);
            Ok((front, true, back))
        },
        None => Ok((copy_range(s, 0, s.len()), false, Vec::new())),
    }
}

/// The text before the last occurrence of `sub`, whether there is one, and
/// the text after it; without one, nothing and all of `s`. An empty `sub` is
/// a value error.
pub fn py_rpartition<E: AnyChar>(s: &[E], sub: &[E]) -> (r: Result<
    (Vec<E>, bool, Vec<E>),
    PyError,
>)
    ensures
        sub@.len() == 0 <==> r is Err,
        r is Err ==> r->Err_0 is ValueError,
        r is Ok ==> ({
            let (front, matched, back) = r->Ok_0;
            match rfind_from(s@, sub@, s@.len() - sub@.len()) {
                Some(i) => matched && front@ == s@.subrange(0, i) && back@ == s@.subrange(
                    i + sub@.len(),
                    s@.len() as int,
                ),
                None => !matched && front@.len() == 0 && back@ == s@,
            }
        }),
        r is Ok && (r->Ok_0).1 ==> (r->Ok_0).0@ + sub@ + (r->Ok_0).2@ == s@,
        r is Ok && !(r->Ok_0).1 ==> (r->Ok_0).0@.len() == 0 && (r->Ok_0).2@ == s@,
{
    if sub.len() == 0 {
        return Err(PyError::ValueError("empty separator".to_owned()));
    }
    let n = s.len();
    proof {
        lemma_rfind_from(s@, sub@, n - sub@.len());
    }
    match rfind_in(s, sub, n) {
        Some(i) => {
            assert(rfind_from(s@, sub@, n - sub@.len()) == Some(i as int));
            let front = copy_range(s, 0, i);
            let back = copy_range(s, i + sub.len(), n);
            assert(s@.subrange(i as int, i + sub@.len()) == sub@);
            assert(front@ + sub@ + back@ =~= s@);
            Ok((front, true, back))
        },
        None => Ok((Vec::new(), false, copy_range(s, 0, n))),
    }
}

/// `s` padded with `0` bytes on the left up to `width` bytes, the zeros
/// going after a leading sign; unchanged when `width` is not above the length.
pub open spec fn zfill_spec(s: Seq<u8>, width: int) -> Seq<u8> {
    if width <= s.len() {
        s
    } else if s.len() > 0 && (s[0] == 0x2b || s[0] == 0x2d) {
        seq![s[0]] + fill_seq(0x30u8, (width - s.len()) as nat) + s.drop_first()
    } else {
        fill_seq(0x30u8, (width - s.len()) as nat) + s
    }
}

/// `s` zero-filled to `width`; a negative width counts as 0.
pub fn py_zfill(s: &[u8], width: isize) -> (r: Vec<u8>)
    ensures
        r@ == zfill_spec(s@, if width >= 0 {
            width as int
        } else {
            0
        }),
{
    let width = match isize_to_usize(width) {
        Some(w) => w,
        None => 0,
    };
    let len = s.len();
    if width <= len {
        return copy_range(s, 0, len);
    }
    let mut filled: Vec<u8> = Vec::new();
    if len > 0 && (s[0] == 0x2b || s[0] == 0x2d) {
        filled.push(s[0]);
        push_fill(&mut filled, 0x30u8, width - len);
        push_all(&mut filled, vstd::slice::slice_subrange(s, 1, len));
        assert(s@.subrange(1, len as int) =~= s@.drop_first());
    } else {
        push_fill(&mut filled, 0x30u8, width - len);
        push_all(&mut filled, s);
    }
    filled
}


/// A byte that ends a line.
pub open spec fn is_line_end(b: u8) -> bool {
    b == 0x0a || b == 0x0d
}

/// First offset at or after `k` that holds a line end, or the length.
pub open spec fn next_line_end(s: Seq<u8>, k: int) -> int
    decreases s.len() - k,
{
    if k < 0 || k >= s.len() {
        s.len() as int
    } else if is_line_end(s[k]) {
        k
    } else {
        next_line_end(s, k + 1)
    }
}

/// Length of the terminator at `j`: `\r\n` counts as one terminator.
pub open spec fn terminator_len(s: Seq<u8>, j: int) -> int {
    if s[j] == 0x0d && j + 1 < s.len() && s[j + 1] == 0x0a {
        2
    } else {
        1
    }
}

/// Lines of `s[pos..]`, with or without their terminators; a last line
/// without a terminator is kept.
pub open spec fn lines_from(s: Seq<u8>, pos: int, keep: bool) -> Seq<Seq<u8>>
    decreases s.len() - pos,
{
    if pos < 0 || pos >= s.len() {
        seq![]
    } else {
        let j = next_line_end(s, pos);
        if j >= s.len() || j < pos {
            seq![s.subrange(pos, s.len() as int)]
        } else {
            let t = terminator_len(s, j);
            let end = if keep {
                j + t
            } else {
                j
            };
            seq![s.subrange(pos, end)] + lines_from(s, j + t, keep)
        }
    }
}

/// The lines of a byte sequence: `\n`, `\r` and `\r\n` end a line, and
/// `keepends` keeps them in the pieces.
pub fn py_bytes_splitlines(s: &[u8], options: SplitLinesArgs) -> (r: Vec<Vec<u8>>)
    ensures
        pieces_view(r@) == lines_from(s@, 0, options.keepends),
{
    let keep = options.keepends;
    let n = s.len();
    let mut elements: Vec<Vec<u8>> = Vec::new();
    let mut last_i: usize = 0;
    let mut i: usize = 0;
    while i < n
        invariant
            n == s@.len(),
            keep == options.keepends,
            last_i <= i <= n,
            next_line_end(s@, last_i as int) == next_line_end(s@, i as int),
            pieces_view(elements@) + lines_from(s@, last_i as int, keep) == lines_from(s@, 0, keep),
        decreases n - i,
    {
        let ch = s[i];
        if ch == 0x0a || ch == 0x0d {
            let t: usize = if ch == 0x0d && i + 1 < n && s[i + 1] == 0x0a {
                2
            } else {
                1
            };
            let end = if keep {
                i + t
            } else {
                i
            };
            let piece = copy_range(s, last_i, end);
            let ghost before = pieces_view(elements@);
            elements.push(piece);
            assert(pieces_view(elements@) == before + seq![piece@]);
            assert(lines_from(s@, last_i as int, keep) == seq![piece@] + lines_from(
                s@,
                i + t,
                keep,
            ));
            last_i = i + t;
            i = i + t;
        } else {
            i = i + 1;
        }
    }
    if last_i != n {
        let piece = copy_range(s, last_i, n);
        let ghost before = pieces_view(elements@);
        elements.push(piece);
        assert(pieces_view(elements@) == before + seq![piece@]);
    }
    elements
}

/// What a strip removes: elements of the given set, or whitespace when no
/// set is given.
pub open spec fn strip_pred<E: AnyChar>(chars: Option<Seq<E>>) -> spec_fn(E) -> bool {
    match chars {
        Some(c) => |e: E| c.contains(e),
        None => |e: E| e.spec_is_whitespace(),
    }
}

/// First offset at or after `i` whose element `p` keeps, or the length.
pub open spec fn strip_lo<E>(s: Seq<E>, p: spec_fn(E) -> bool, i: int) -> int
    decreases s.len() - i,
{
    if i < 0 || i >= s.len() {
        s.len() as int
    } else if p(s[i]) {
        strip_lo(s, p, i + 1)
    } else {
        i
    }
}

/// End of the part of `s[floor..j]` that is left once trailing elements that
/// `p` matches are dropped.
pub open spec fn strip_hi<E>(s: Seq<E>, p: spec_fn(E) -> bool, floor: int, j: int) -> int
    decreases j - floor,
{
    if j <= floor || j > s.len() {
        floor
    } else if p(s[j - 1]) {
        strip_hi(s, p, floor, j - 1)
    } else {
        j
    }
}

/// `s` without its leading and trailing elements that `p` matches.
pub open spec fn strip_spec<E>(s: Seq<E>, p: spec_fn(E) -> bool) -> Seq<E> {
    let lo = strip_lo(s, p, 0);
    s.subrange(lo, strip_hi(s, p, lo, s.len() as int))
}

proof fn lemma_strip_bounds<E>(s: Seq<E>, p: spec_fn(E) -> bool, i: int)
    requires
        0 <= i <= s.len(),
    ensures
        i <= strip_lo(s, p, i) <= s.len(),
    decreases s.len() - i,
{
    if i < s.len() && p(s[i]) {
        lemma_strip_bounds(s, p, i + 1);
    }
}

/// The contents of an optional set of elements.
pub open spec fn chars_view<E>(chars: Option<&[E]>) -> Option<Seq<E>> {
    match chars {
        Some(c) => Some(c@),
        None => None,
    }
}

/// Whether `strip_pred(chars)` holds of `e`.
fn strip_matches<E: AnyChar>(chars: Option<&[E]>, e: E) -> (r: bool)
    ensures
        r == (strip_pred(chars_view(chars)))(e),
{
    match chars {
        Some(c) => {
            let mut k: usize = 0;
            while k < c.len()
                invariant
                    k <= c@.len(),
                    chars_view(chars) == Some(c@),
                    forall|j: int| 0 <= j < k ==> c@[j] != e,
                decreases c@.len() - k,
            {
                if c[k].same(e) {
                    assert(c@[k as int] == e);
                    assert(c@.contains(e));
                    return true;
                }
                k = k + 1;
            }
            false
        },
        None => e.is_whitespace(),
    }
}

/// `s` without leading and trailing elements of `chars`, or of whitespace
/// when `chars` is absent; an empty set leaves `s` unchanged.
pub fn py_strip<'a, E: AnyChar>(s: &'a [E], chars: Option<&[E]>) -> (r: &'a [E])
    ensures
        r@ == strip_spec(
            s@,
            strip_pred(
                chars_view(chars),
            ),
        ),
        (chars is Some && chars->0@.len() == 0) ==> r@ == s@,
{
    let ghost p = strip_pred(
        chars_view(chars),
    );
    let n = s.len();
    let mut lo: usize = 0;
    while lo < n && strip_matches(chars, s[lo])
        invariant
            n == s@.len(),
            lo <= n,
            p == strip_pred(
                chars_view(chars),
            ),
            strip_lo(s@, p, 0) == strip_lo(s@, p, lo as int),
        decreases n - lo,
    {
        lo = lo + 1;
    }
    let mut hi: usize = n;
    while hi > lo && strip_matches(chars, s[hi - 1])
        invariant
            n == s@.len(),
            lo <= hi <= n,
            p == strip_pred(
                chars_view(chars),
            ),
            strip_hi(s@, p, lo as int, n as int) == strip_hi(s@, p, lo as int, hi as int),
        decreases hi,
    {
        hi = hi - 1;
    }
    proof {
        if chars is Some && chars->0@.len() == 0 {
            lemma_strip_bounds(s@, p, 0);
            if n > 0 {
                assert(!p(s@[0]));
                assert(!p(s@[n - 1]));
            }
            assert(s@.subrange(0, n as int) =~= s@);
        }
    }
    vstd::slice::slice_subrange(s, lo, hi)
}

/// The part of `s` an affix test looks at, if any: all of `s` without a
/// start or end, else its normalised range, or nothing when inverted.
pub open spec fn affix_window<E, T>(s: Seq<E>, args: StartsEndsWithArgs<T>) -> Option<Seq<E>> {
    let lo = norm_start(opt_value(args.start), s.len() as int);
    let hi = norm_end(opt_value(args.end), s.len() as int);
    if args.start is None && args.end is None {
        Some(s)
    } else if lo <= hi {
        Some(s.subrange(lo, hi))
    } else {
        None
    }
}

/// Whether `w` begins (or, for `endswith`, ends) with `a`.
pub open spec fn affix_test<E>(w: Seq<E>, a: Seq<E>, endswith: bool) -> bool {
    if endswith {
        ends_with(w, a)
    } else {
        starts_with(w, a)
    }
}

/// The type name carried by a value of the wrong type.
fn affix_type_name<T>(o: &AffixArg<T>) -> (r: String)
    ensures
        o is Other ==> r@ == o->Other_0@,
{
    match o {
        AffixArg::Other(name) => name.clone(),
        _ => String::new(),
    }
}

/// Text of the type error of a prefix/suffix test whose affix has the type
/// named `actual`.
pub open spec fn affix_type_message(func: Seq<char>, expected: Seq<char>, actual: Seq<char>) -> Seq<
    char,
> {
    func + " first arg must be "@ + expected + " or a tuple of "@ + expected + ", not "@ + actual
}

/// Whether the part of `s` that the arguments select begins (or ends, for
/// `endswith`) with the affix or with any member of a tuple of affixes. An
/// inverted range is no match; an affix of another type is a type error that
/// names the operation `func_name`, the expected type and the actual type.
pub fn py_starts_ends_with<E: AnyChar>(
    s: &[E],
    args: StartsEndsWithArgs<Vec<E>>,
    func_name: &str,
    py_type_name: &str,
    endswith: bool,
) -> (r: Result<bool, PyError>)
    requires
        s@.len() <= isize::MAX,
    ensures
        match affix_window(s@, args) {
            None => r == Ok::<bool, PyError>(false),
            Some(w) => match affix_any(args.affix, |a: Vec<E>| affix_test(w, a@, endswith)) {
                Some(b) => r == Ok::<bool, PyError>(b),
                None => r is Err && r->Err_0 is TypeError && (r->Err_0->TypeError_0)@
                    == affix_type_message(
                    func_name@,
                    py_type_name@,
                    offender(args.affix, |a: Vec<E>| affix_test(w, a@, endswith))->Other_0@,
                ),
            },
        },
{
    match args.prepare(s) {
        None => Ok(false),
        Some((affix, sub)) => {
            let pred = |a: &Vec<E>| -> (b: bool)
                ensures
                    b == affix_test(sub@, a@, endswith),
                {
                    if endswith {
                        py_endswith(sub, a.as_slice())
                    } else {
                        py_startswith(sub, a.as_slice())
                    }
                };
            let message = |o: &AffixArg<Vec<E>>| -> (m: String)
                ensures
                    o is Other ==> m@ == affix_type_message(
                        func_name@,
                        py_type_name@,
                        o->Other_0@,
                    ),
                {
                    let mut m = String::from_str(func_name);
                    m.append(" first arg must be ");
                    m.append(py_type_name);
                    m.append(" or a tuple of ");
                    m.append(py_type_name);
                    m.append(", not ");
                    let actual = affix_type_name(o);
                    m.append(actual.as_str());
                    m
                };
            let r = single_or_tuple_any(&affix, &pred, &message);
            proof {
                let ghost q = |a: Vec<E>| affix_test(sub@, a@, endswith);
                assert(decided_by(pred, q));
                lemma_offender_is_other(affix, 0, q);
            }
            r
        },
    }
}

} // verus!
