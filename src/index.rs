//! Normalisation of optional, arbitrary-precision start/end arguments into
//! offsets over a sequence of known length.
use vstd::prelude::*;

verus! {

/// Weight of one limb of a magnitude.
pub open spec fn limb_base() -> int {
    0x1_0000_0000_0000_0000
}

/// Value of a little-endian sequence of 64-bit limbs.
pub open spec fn limbs_value(s: Seq<u64>) -> int
    decreases s.len(),
{
    if s.len() == 0 {
        0
    } else {
        s[0] as int + limb_base() * limbs_value(s.drop_first())
    }
}

/// An arbitrary-precision integer argument: a sign and a little-endian
/// magnitude in 64-bit limbs.
pub struct BigIndex {
    pub negative: bool,
    pub magnitude: Vec<u64>,
}

impl BigIndex {
    /// The mathematical value of the integer.
    pub open spec fn value(&self) -> int {
        if self.negative {
            -limbs_value(self.magnitude@)
        } else {
            limbs_value(self.magnitude@)
        }
    }

    /// An integer that fits in one limb.
    pub fn from_i64(v: i64) -> (r: BigIndex)
        ensures
            r.value() == v as int,
    {
        let negative = v < 0;
        let mag: u64 = if negative {
            if v == i64::MIN {
                0x8000_0000_0000_0000u64
            } else {
                (-v) as u64
            }
        } else {
            v as u64
        };
        let magnitude = vec![mag];
        proof {
            assert(magnitude@[0] == mag);
            assert(magnitude@.drop_first().len() == 0);
            assert(limbs_value(magnitude@.drop_first()) == 0);
            assert(limbs_value(magnitude@) == mag as int);
        }
        BigIndex { negative, magnitude }
    }
}

/// `v` saturated into the range of `isize`.
pub open spec fn saturate(v: int) -> int {
    if v > isize::MAX as int {
        isize::MAX as int
    } else if v < isize::MIN as int {
        isize::MIN as int
    } else {
        v
    }
}

proof fn lemma_limbs_nonneg(s: Seq<u64>)
    ensures
        limbs_value(s) >= 0,
    decreases s.len(),
{
    if s.len() > 0 {
        lemma_limbs_nonneg(s.drop_first());
        let t = limbs_value(s.drop_first());
        assert(limb_base() * t >= 0) by (nonlinear_arith)
            requires
                t >= 0,
        ;
    }
}

proof fn lemma_limbs_nonzero(s: Seq<u64>, k: int)
    requires
        0 <= k < s.len(),
        s[k] != 0,
    ensures
        limbs_value(s) >= 1,
    decreases s.len(),
{
    lemma_limbs_nonneg(s.drop_first());
    let t = limbs_value(s.drop_first());
    if k == 0 {
        assert(limb_base() * t >= 0) by (nonlinear_arith)
            requires
                t >= 0,
        ;
    } else {
        assert(s.drop_first()[k - 1] == s[k]);
        lemma_limbs_nonzero(s.drop_first(), k - 1);
        assert(limb_base() * t >= 1) by (nonlinear_arith)
            requires
                t >= 1,
        ;
    }
}

/// A nonzero limb above the lowest puts the value past one limb.
proof fn lemma_limbs_high(s: Seq<u64>, k: int)
    requires
        1 <= k < s.len(),
        s[k] != 0,
    ensures
        limbs_value(s) >= limb_base(),
{
    assert(s.drop_first()[k - 1] == s[k]);
    lemma_limbs_nonzero(s.drop_first(), k - 1);
    let t = limbs_value(s.drop_first());
    assert(limb_base() * t >= limb_base()) by (nonlinear_arith)
        requires
            t >= 1,
    ;
}

/// Zero limbs contribute nothing.
proof fn lemma_limbs_zero(s: Seq<u64>)
    requires
        forall|k: int| 0 <= k < s.len() ==> s[k] == 0,
    ensures
        limbs_value(s) == 0,
    decreases s.len(),
{
    if s.len() > 0 {
        lemma_limbs_zero(s.drop_first());
    }
}

/// Only the lowest limb is nonzero.
proof fn lemma_limbs_low(s: Seq<u64>)
    requires
        s.len() > 0,
        forall|k: int| 1 <= k < s.len() ==> s[k] == 0,
    ensures
        limbs_value(s) == s[0] as int,
{
    assert forall|k: int| 0 <= k < s.drop_first().len() implies s.drop_first()[k] == 0 by {
        assert(s.drop_first()[k] == s[k + 1]);
    }
    lemma_limbs_zero(s.drop_first());
}

/// The integer saturated into `isize`: never wraps, never panics.
pub fn saturate_to_isize(n: &BigIndex) -> (r: isize)
    ensures
        r as int == saturate(n.value()),
{
    let len = n.magnitude.len();
    let mut i: usize = 1;
    while i < len
        invariant
            1 <= i,
            len == n.magnitude@.len(),
            forall|k: int| 1 <= k < i && k < len ==> n.magnitude@[k] == 0,
        decreases len - i,
    {
        if n.magnitude[i] != 0 {
            proof {
                lemma_limbs_high(n.magnitude@, i as int);
            }
            if n.negative {
                return isize::MIN;
            } else {
                return isize::MAX;
            }
        }
        i = i + 1;
    }
    let low: u64 = if len == 0 {
        0
    } else {
        n.magnitude[0]
    };
    proof {
        if len == 0 {
            assert(limbs_value(n.magnitude@) == 0);
        } else {
            lemma_limbs_low(n.magnitude@);
        }
    }
    if n.negative {
        if low <= isize::MAX as u64 {
            -(low as isize)
        } else {
            isize::MIN
        }
    } else {
        if low <= isize::MAX as u64 {
            low as isize
        } else {
            isize::MAX
        }
    }
}


/// Value of an optional argument, if present.
pub open spec fn opt_value(o: Option<BigIndex>) -> Option<int> {
    match o {
        Some(b) => Some(b.value()),
        None => None,
    }
}

/// Normalised start offset: absent is 0, negative counts from the end and
/// clamps at 0. A start past the end is kept as it is.
pub open spec fn norm_start(start: Option<int>, len: int) -> int {
    let s = match start {
        Some(v) => saturate(v),
        None => 0,
    };
    if s < 0 {
        if s + len < 0 {
            0
        } else {
            s + len
        }
    } else {
        s
    }
}

/// Normalised end offset: absent is `len`, past the end clamps to `len`,
/// negative counts from the end and clamps at 0.
pub open spec fn norm_end(end: Option<int>, len: int) -> int {
    let e = match end {
        Some(v) => saturate(v),
        None => len,
    };
    if e > len {
        len
    } else if e < 0 {
        if e + len < 0 {
            0
        } else {
            e + len
        }
    } else {
        e
    }
}

/// Turns optional start/end arguments into a range over a sequence of length
/// `len`, with slice-style negative indices and silent clamping. The range may
/// come out inverted.
pub fn adjust_indices(start: Option<BigIndex>, end: Option<BigIndex>, len: usize) -> (r:
    std::ops::Range<usize>)
    requires
        len <= isize::MAX,
    ensures
        r.start == norm_start(opt_value(start), len as int),
        r.end == norm_end(opt_value(end), len as int),
{
    let mut start: isize = match &start {
        Some(b) => saturate_to_isize(b),
        None => 0,
    };
    let mut end: isize = match &end {
        Some(b) => saturate_to_isize(b),
        None => len as isize,
    };
    if end > len as isize {
        end = len as isize;
    } else if end < 0 {
        end = end + len as isize;
        if end < 0 {
            end = 0;
        }
    }
    if start < 0 {
        start = start + len as isize;
        if start < 0 {
            start = 0;
        }
    }
    std::ops::Range { start: start as usize, end: end as usize }
}

/// Normalised offsets stay within `[0, len]`, an absent start is 0 and an
/// absent end is `len`. A start given past `len` is kept as given, so the
/// upper bound on the start needs that start to be at most `len`.
pub proof fn lemma_adjusted_in_bounds(start: Option<BigIndex>, end: Option<BigIndex>, len: usize)
    requires
        len <= isize::MAX,
        start is Some ==> start->0.value() <= len,
    ensures
        0 <= norm_start(opt_value(start), len as int) <= len,
        0 <= norm_end(opt_value(end), len as int) <= len,
        start is None ==> norm_start(opt_value(start), len as int) == 0,
        end is None ==> norm_end(opt_value(end), len as int) == len,
{
}

/// Whether a range is well-formed, that is not inverted.
pub trait StringRange {
    spec fn spec_is_normal(&self) -> bool;

    fn is_normal(&self) -> (r: bool)
        ensures
            r == self.spec_is_normal(),
    ;
}

impl StringRange for std::ops::Range<usize> {
    open spec fn spec_is_normal(&self) -> bool {
        self.start <= self.end
    }

    fn is_normal(&self) -> (r: bool) {
        self.start <= self.end
    }
}

} // verus!
