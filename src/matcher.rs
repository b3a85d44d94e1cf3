//! Matching a predicate against one value or a (nested) tuple of values.
use vstd::prelude::*;

verus! {

/// The kinds of failure that the algorithms report.
pub enum PyError {
    /// A separator or sub-pattern that must not be empty was empty.
    ValueError(String),
    /// An argument had the wrong type; the message names it.
    TypeError(String),
}

/// A runtime value handed in as an affix argument: a value of the expected
/// kind, a tuple of further values, or a value of another type (by type name).
pub enum AffixArg<T> {
    Value(T),
    Tuple(Vec<AffixArg<T>>),
    Other(String),
}

/// Outcome of matching `p` against `obj`, scanning tuple members from index
/// `i` on and stopping at the first member that holds; `None` is a type error.
pub open spec fn affix_any_from<T>(obj: AffixArg<T>, i: int, p: spec_fn(T) -> bool) -> Option<bool>
    decreases obj, (match obj {
        AffixArg::Tuple(items) => items@.len() - i,
        _ => 0,
    }),
{
    match obj {
        AffixArg::Value(v) => Some(p(v)),
        AffixArg::Other(_) => None,
        AffixArg::Tuple(items) => if i < 0 || i >= items@.len() {
            Some(false)
        } else {
            match affix_any_from(items@[i], 0, p) {
                Some(true) => Some(true),
                Some(false) => affix_any_from(obj, i + 1, p),
                None => None,
            }
        },
    }
}

/// Outcome of matching `p` against `obj`: `Some(b)` for a result, `None` for a
/// value that is neither the expected kind nor a tuple of such.
pub open spec fn affix_any<T>(obj: AffixArg<T>, p: spec_fn(T) -> bool) -> Option<bool> {
    affix_any_from(obj, 0, p)
}

/// The value of the wrong type that makes the match of `p` against `obj`
/// fail, scanning tuple members from index `i` on: the first one met in
/// member order, nested tuples searched first. Meaningful where
/// `affix_any_from(obj, i, p)` is `None`.
pub open spec fn offender_from<T>(obj: AffixArg<T>, i: int, p: spec_fn(T) -> bool) -> AffixArg<T>
    decreases obj, (match obj {
        AffixArg::Tuple(items) => items@.len() - i,
        _ => 0,
    }),
{
    match obj {
        AffixArg::Tuple(items) => if i < 0 || i >= items@.len() {
            obj
        } else {
            match affix_any_from(items@[i], 0, p) {
                Some(true) => obj,
                Some(false) => offender_from(obj, i + 1, p),
                None => offender_from(items@[i], 0, p),
            }
        },
        _ => obj,
    }
}

/// The value of the wrong type that makes the match of `p` against `obj`
/// fail.
pub open spec fn offender<T>(obj: AffixArg<T>, p: spec_fn(T) -> bool) -> AffixArg<T> {
    offender_from(obj, 0, p)
}

/// A failed match is always caused by a value of the wrong type.
pub proof fn lemma_offender_is_other<T>(obj: AffixArg<T>, i: int, p: spec_fn(T) -> bool)
    ensures
        affix_any_from(obj, i, p) is None ==> offender_from(obj, i, p) is Other,
    decreases obj, (match obj {
        AffixArg::Tuple(items) => items@.len() - i,
        _ => 0,
    }),
{
    match obj {
        AffixArg::Tuple(items) => {
            if 0 <= i < items@.len() {
                lemma_member_decreases(obj, items, i);
                lemma_offender_is_other(items@[i], 0, p);
                lemma_offender_is_other(obj, i + 1, p);
            }
        },
        _ => {},
    }
}

proof fn lemma_member_decreases<T>(obj: AffixArg<T>, items: Vec<AffixArg<T>>, i: int)
    requires
        obj == AffixArg::<T>::Tuple(items),
        0 <= i < items@.len(),
    ensures
        decreases_to!(obj => items@[i]),
{
    assert(decreases_to!(obj => obj->Tuple_0));
    assert(decreases_to!(obj->Tuple_0 => (obj->Tuple_0)@));
    assert(decreases_to!((obj->Tuple_0)@ => (obj->Tuple_0)@[i]));
}

/// Every answer of the executable predicate `f` agrees with `q`.
pub open spec fn decided_by<T, F: Fn(&T) -> bool>(f: F, q: spec_fn(T) -> bool) -> bool {
    forall|x: &T, b: bool| f.ensures((x,), b) ==> b == q(*x)
}

/// `r` is the result that `o` describes: `Ok(b)` for `Some(b)`, an error for
/// `None`.
pub open spec fn outcome_is(r: Result<bool, PyError>, o: Option<bool>) -> bool {
    match o {
        Some(b) => r == Ok::<bool, PyError>(b),
        None => r is Err,
    }
}

/// Tests `predicate` on a single value, or on the members of a tuple (nested
/// tuples are searched too), stopping at the first member that satisfies it.
/// A value of another type fails with a type error whose text `message`
/// builds. The result is the one `affix_any` gives for whatever `predicate`
/// computes.
pub fn single_or_tuple_any<T, F, M>(obj: &AffixArg<T>, predicate: &F, message: &M) -> (r: Result<
    bool,
    PyError,
>) where F: Fn(&T) -> bool, M: Fn(&AffixArg<T>) -> String
    requires
        forall|x: &T| predicate.requires((x,)),
        forall|o: &AffixArg<T>| message.requires((o,)),
    ensures
        forall|q: spec_fn(T) -> bool| #[trigger]
            decided_by(*predicate, q) ==> outcome_is(r, affix_any(*obj, q)),
        forall|q: spec_fn(T) -> bool| #[trigger]
            decided_by(*predicate, q) && affix_any(*obj, q) is None ==> message.ensures(
                (&offender(*obj, q),),
                r->Err_0->TypeError_0,
            ),
        obj is Other ==> r is Err && message.ensures((obj,), r->Err_0->TypeError_0),
        r is Err ==> r->Err_0 is TypeError,
    decreases obj,
{
    match obj {
        AffixArg::Value(v) => {
            let b = predicate(v);
            assert forall|q: spec_fn(T) -> bool| #[trigger]
                decided_by(*predicate, q) implies outcome_is(Ok(b), affix_any(*obj, q)) by {
                assert(b == q(*v));
            }
            Ok(b)
        },
        AffixArg::Other(_) => {
            let m = message(obj);
            Err(PyError::TypeError(m))
        },
        AffixArg::Tuple(items) => {
            let mut i: usize = 0;
            while i < items.len()
                invariant
                    0 <= i <= items@.len(),
                    *obj == AffixArg::<T>::Tuple(*items),
                    forall|x: &T| predicate.requires((x,)),
                    forall|o: &AffixArg<T>| message.requires((o,)),
                    forall|q: spec_fn(T) -> bool| #[trigger]
                        decided_by(*predicate, q) ==> affix_any_from(*obj, 0, q) == affix_any_from(
                            *obj,
                            i as int,
                            q,
                        ) && offender_from(*obj, 0, q) == offender_from(*obj, i as int, q),
                decreases items@.len() - i,
            {
                let member = &items[i];
                proof {
                    lemma_member_decreases(*obj, *items, i as int);
                }
                let m = single_or_tuple_any(member, predicate, message);
                assert forall|q: spec_fn(T) -> bool| #[trigger]
                    decided_by(*predicate, q) implies affix_any_from(*obj, i as int, q) == match affix_any_from(
                        items@[i as int],
                        0,
                        q,
                    ) {
                        Some(true) => Some(true),
                        Some(false) => affix_any_from(*obj, i + 1, q),
                        None => None,
                    } && offender_from(*obj, i as int, q) == match affix_any_from(
                        items@[i as int],
                        0,
                        q,
                    ) {
                        Some(true) => *obj,
                        Some(false) => offender_from(*obj, i + 1, q),
                        None => offender_from(items@[i as int], 0, q),
                    } by {}
                match m {
                    Ok(true) => {
                        return Ok(true);
                    },
                    Ok(false) => {},
                    Err(e) => {
                        return Err(e);
                    },
                }
                i = i + 1;
            }
            Ok(false)
        },
    }
}

} // verus!
