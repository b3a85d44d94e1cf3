//! Option structs that the algorithms receive, already bound from the
//! caller's arguments.
use vstd::prelude::*;
use num_traits::ToPrimitive;
use crate::index::{adjust_indices, norm_end, norm_start, opt_value, BigIndex};
use crate::matcher::AffixArg;

verus! {

/// A separator argument as the runtime hands it over: it either holds a
/// sequence of elements or is a sentinel that can match nothing.
pub trait AnyStrWrapper<E> {
    /// The sequence held, or `None` for the sentinel.
    spec fn wrapped(&self) -> Option<Seq<E>>;

    fn as_ref(&self) -> (r: Option<&[E]>)
        ensures
            match self.wrapped() {
                Some(v) => r is Some && r->0@ == v,
                None => r is None,
            },
    ;

    fn is_empty(&self) -> (r: bool)
        ensures
            r == (self.wrapped() is Some && self.wrapped()->0.len() == 0),
    ;
}

/// A plain sequence always holds itself.
impl<E> AnyStrWrapper<E> for Vec<E> {
    open spec fn wrapped(&self) -> Option<Seq<E>> {
        Some(self@)
    }

    fn as_ref(&self) -> (r: Option<&[E]>) {
        Some(self.as_slice())
    }

    fn is_empty(&self) -> (r: bool) {
        self.len() == 0
    }
}

/// `None` is the sentinel that matches nothing.
impl<E> AnyStrWrapper<E> for Option<Vec<E>> {
    open spec fn wrapped(&self) -> Option<Seq<E>> {
        match self {
            Some(v) => Some(v@),
            None => None,
        }
    }

    fn as_ref(&self) -> (r: Option<&[E]>) {
        match self {
            Some(v) => Some(v.as_slice()),
            None => None,
        }
    }

    fn is_empty(&self) -> (r: bool) {
        match self {
            Some(v) => v.len() == 0,
            None => false,
        }
    }
}

/// Options of a split: an optional separator (absent splits on whitespace)
/// and the most cuts to make (negative for no limit).
pub struct SplitArgs<T> {
    pub sep: Option<T>,
    pub maxsplit: isize,
}

/// Options of a line split: whether the line terminators are kept.
pub struct SplitLinesArgs {
    pub keepends: bool,
}

/// Options of a tab expansion: the tab stop width as given.
pub struct ExpandTabsArgs {
    pub tabsize: isize,
}

/// `v` as an unsigned size, if it is not negative.
pub open spec fn nonneg_usize(v: isize) -> Option<usize> {
    if v >= 0 {
        Some(v as usize)
    } else {
        None
    }
}

/// Relies on `num_traits::ToPrimitive::to_usize` for `isize`: `Some` of the
/// same value when it is not negative, `None` otherwise.
#[verifier::external_body]
pub(crate) fn isize_to_usize(v: isize) -> (r: Option<usize>)
    ensures
        r == nonneg_usize(v),
{
    v.to_usize()
}

impl ExpandTabsArgs {
    /// The tab stop width; a negative width counts as 0.
    pub fn tabsize(&self) -> (r: usize)
        ensures
            r == if self.tabsize >= 0 {
                self.tabsize as usize
            } else {
                0
            },
    {
        match isize_to_usize(self.tabsize) {
            Some(v) => v,
            None => 0,
        }
    }
}

/// Options of a prefix/suffix test: the affix (one value or a tuple of
/// alternatives) and an optional start and end.
pub struct StartsEndsWithArgs<T> {
    pub affix: AffixArg<T>,
    pub start: Option<BigIndex>,
    pub end: Option<BigIndex>,
}

impl<T> StartsEndsWithArgs<T> {
    /// The affix, and the normalised range when a start or an end was given.
    pub fn get_value(self, len: usize) -> (r: (AffixArg<T>, Option<std::ops::Range<usize>>))
        requires
            len <= isize::MAX,
        ensures
            r.0 == self.affix,
            (self.start is None && self.end is None) <==> r.1 is None,
            r.1 is Some ==> r.1->0.start == norm_start(opt_value(self.start), len as int)
                && r.1->0.end == norm_end(opt_value(self.end), len as int),
    {
        let range = if self.start.is_some() || self.end.is_some() {
            Some(adjust_indices(self.start, self.end, len))
        } else {
            None
        };
        (self.affix, range)
    }

    /// The affix and the part of `s` that it is tested against: all of `s`
    /// without a start or end, else the normalised range of it; `None` when
    /// that range is inverted.
    pub fn prepare<'a, E>(self, s: &'a [E]) -> (r: Option<(AffixArg<T>, &'a [E])>)
        requires
            s@.len() <= isize::MAX,
        ensures
            ({
                let lo = norm_start(opt_value(self.start), s@.len() as int);
                let hi = norm_end(opt_value(self.end), s@.len() as int);
                if self.start is None && self.end is None {
                    r == Some((self.affix, s))
                } else if lo <= hi {
                    r is Some && (r->0).0 == self.affix && (r->0).1@ == s@.subrange(lo, hi)
                } else {
                    r is None
                }
            }),
    {
        let ghost lo = norm_start(opt_value(self.start), s@.len() as int);
        let ghost hi = norm_end(opt_value(self.end), s@.len() as int);
        let (affix, range) = self.get_value(s.len());
        match range {
            Some(range) => {
                if range.start <= range.end {
                    Some((affix, vstd::slice::slice_subrange(s, range.start, range.end)))
                } else {
                    None
                }
            },
            None => Some((affix, s)),
        }
    }
}

} // verus!
