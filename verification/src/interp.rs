//! Lookup of query years in a strictly sorted key sequence.
//!
//! A curve is tabulated at sorted, distinct integer years. To read it at a
//! year `q`, one needs the tabulated year that equals `q`, or the two
//! neighbouring years that enclose it together with the share of the way from
//! the first to the second at which `q` lies. This module finds exactly that,
//! by bisection, for keys sorted in either direction. The arithmetic on the
//! tabulated values is left to the caller, who holds them.

use vstd::prelude::*;
use crate::error::CalibrationError;

verus! {

/// The keys strictly increase.
pub open spec fn ascending(x: Seq<i32>) -> bool {
    forall|i: int, j: int| 0 <= i < j < x.len() ==> x[i] < x[j]
}

/// The keys strictly decrease.
pub open spec fn descending(x: Seq<i32>) -> bool {
    forall|i: int, j: int| 0 <= i < j < x.len() ==> x[i] > x[j]
}

/// The keys are strictly sorted in one direction, so no key occurs twice.
pub open spec fn strictly_sorted(x: Seq<i32>) -> bool {
    ascending(x) || descending(x)
}

/// What a key sequence must be to be interpolated in: at least two keys,
/// strictly sorted in one direction.
pub open spec fn monotonic(x: Seq<i32>) -> bool {
    x.len() >= 2 && strictly_sorted(x)
}

/// `q` lies between the first and the last key, ends included.
pub open spec fn in_domain(x: Seq<i32>, q: int) -> bool {
    x.len() > 0 && (x.first() <= q <= x.last() || x.last() <= q <= x.first())
}

/// The distance between two integers.
pub open spec fn distance(a: int, b: int) -> int {
    if a <= b {
        b - a
    } else {
        a - b
    }
}

/// `q` lies between `a` and `b` and equals neither.
pub open spec fn strictly_between(a: int, q: int, b: int) -> bool {
    a < q < b || b < q < a
}

/// The direction in which a key sequence is sorted.
#[derive(Debug, Clone, Copy, PartialEq, Eq, Structural)]
pub enum Direction {
    Ascending,
    Descending,
}

/// Where a query lies among the keys.
#[derive(Debug, Clone, Copy, PartialEq, Eq, Structural)]
pub enum Lookup {
    /// The query equals the key at `index`: the value there is the answer,
    /// untouched by arithmetic.
    Exact { index: usize },
    /// The query lies strictly between the keys at `lower` and `lower + 1`,
    /// at `numer / denom` of the way from the first to the second.
    Between { lower: usize, numer: u32, denom: u32 },
}

impl Lookup {
    /// This lookup is the right one for the query `q` among the keys `x`.
    pub open spec fn answers(self, x: Seq<i32>, q: int) -> bool {
        match self {
            Lookup::Exact { index } => index < x.len() && x[index as int] == q,
            Lookup::Between { lower, numer, denom } => {
                &&& lower + 1 < x.len()
                &&& strictly_between(x[lower as int] as int, q, x[lower + 1] as int)
                &&& numer == distance(x[lower as int] as int, q)
                &&& denom == distance(x[lower as int] as int, x[lower + 1] as int)
            },
        }
    }
}

/// Which error `interpolate` returns, if any: a length mismatch is reported
/// before an unusable key sequence, and that before a query out of range.
pub open spec fn interpolate_error(x: Seq<i32>, values: int, xout: Seq<i32>) -> Option<
    CalibrationError,
> {
    if values != x.len() {
        Some(CalibrationError::DimensionMismatch)
    } else if !monotonic(x) {
        Some(CalibrationError::InvalidCurve)
    } else if exists|k: int| 0 <= k < xout.len() && !in_domain(x, #[trigger] xout[k] as int) {
        Some(CalibrationError::OutOfRangeQuery)
    } else {
        None
    }
}

/// Tells in which direction `x` is sorted, or that it is not usable.
pub fn direction(x: &Vec<i32>) -> (r: Result<Direction, CalibrationError>)
    ensures
        match r {
            Ok(Direction::Ascending) => monotonic(x@) && ascending(x@),
            Ok(Direction::Descending) => monotonic(x@) && descending(x@),
            Err(e) => e == CalibrationError::InvalidCurve && !monotonic(x@),
        },
{
    let n: usize = x.len();
    if n < 2 {
        return Err(CalibrationError::InvalidCurve);
    }
    let up: bool = x[0] < x[1];
    let mut i: usize = 1;
    while i < n
        invariant
            n == x.len(),
            1 <= i <= n,
            n >= 2,
            up == (x[0] < x[1]),
            up ==> forall|a: int| 0 <= a < i - 1 ==> x[a] < #[trigger] x[a + 1],
            !up ==> forall|a: int| 0 <= a < i - 1 ==> x[a] > #[trigger] x[a + 1],
        decreases n - i,
    {
        let rising: bool = x[i - 1] < x[i];
        let falling: bool = x[i - 1] > x[i];
        if (up && !rising) || (!up && !falling) {
            // The neighbours at i - 1 and i contradict the direction that the
            // first two keys would give.
            return Err(CalibrationError::InvalidCurve);
        }
        i = i + 1;
    }
    proof {
        lemma_steps_sorted(x@, up);
    }
    if up {
        Ok(Direction::Ascending)
    } else {
        Ok(Direction::Descending)
    }
}

/// `a` comes no later than `b` when walking in the direction `up`.
pub open spec fn not_after(up: bool, a: int, b: int) -> bool {
    if up {
        a <= b
    } else {
        a >= b
    }
}

fn comes_not_after(up: bool, a: i32, b: i32) -> (r: bool)
    ensures
        r == not_after(up, a as int, b as int),
{
    if up {
        a <= b
    } else {
        a >= b
    }
}

pub(crate) fn gap(a: i32, b: i32) -> (r: u32)
    ensures
        r == distance(a as int, b as int),
{
    let wide: i64 = a as i64 - b as i64;
    if wide < 0 {
        (-wide) as u32
    } else {
        wide as u32
    }
}

/// Finds `q` among keys sorted in the direction `dir`, by bisection.
///
/// Returns `None` exactly when `q` lies outside the keys' range.
pub fn locate(x: &Vec<i32>, dir: Direction, q: i32) -> (r: Option<Lookup>)
    requires
        monotonic(x@),
        dir == Direction::Ascending ==> ascending(x@),
        dir == Direction::Descending ==> descending(x@),
    ensures
        r is Some <==> in_domain(x@, q as int),
        r matches Some(l) ==> l.answers(x@, q as int),
{
    let n: usize = x.len();
    let up: bool = match dir {
        Direction::Ascending => true,
        Direction::Descending => false,
    };
    if !comes_not_after(up, x[0], q) || !comes_not_after(up, q, x[n - 1]) {
        return None;
    }
    let mut lo: usize = 0;
    let mut hi: usize = n - 1;
    while hi - lo > 1
        invariant
            n == x.len(),
            0 <= lo < hi < n,
            up ==> ascending(x@),
            !up ==> descending(x@),
            not_after(up, x[lo as int] as int, q as int),
            not_after(up, q as int, x[hi as int] as int),
        decreases hi - lo,
    {
        let mid: usize = lo + (hi - lo) / 2;
        if comes_not_after(up, x[mid], q) {
            lo = mid;
        } else {
            hi = mid;
        }
    }
    if x[lo] == q {
        Some(Lookup::Exact { index: lo })
    } else if x[hi] == q {
        Some(Lookup::Exact { index: hi })
    } else {
        Some(Lookup::Between { lower: lo, numer: gap(x[lo], q), denom: gap(x[lo], x[lo + 1]) })
    }
}

/// Looks up every query of `xout` among the keys `x`, which come with
/// `values` tabulated values.
///
/// The result has one lookup per query, in the order of the queries.
pub fn interpolate(x: &Vec<i32>, values: usize, xout: &Vec<i32>) -> (r: Result<
    Vec<Lookup>,
    CalibrationError,
>)
    ensures
        match r {
            Ok(plan) => {
                &&& interpolate_error(x@, values as int, xout@) is None
                &&& plan.len() == xout.len()
                &&& forall|k: int|
                    0 <= k < plan.len() ==> (#[trigger] plan[k]).answers(x@, xout[k] as int)
            },
            Err(e) => interpolate_error(x@, values as int, xout@) == Some(e),
        },
{
    if values != x.len() {
        return Err(CalibrationError::DimensionMismatch);
    }
    let dir: Direction = match direction(x) {
        Ok(d) => d,
        Err(e) => {
            return Err(e);
        },
    };
    let mut plan: Vec<Lookup> = Vec::new();
    let mut k: usize = 0;
    while k < xout.len()
        invariant
            0 <= k <= xout.len(),
            values == x.len(),
            monotonic(x@),
            dir == Direction::Ascending ==> ascending(x@),
            dir == Direction::Descending ==> descending(x@),
            plan.len() == k,
            forall|j: int| 0 <= j < k ==> in_domain(x@, #[trigger] xout[j] as int),
            forall|j: int| 0 <= j < k ==> (#[trigger] plan[j]).answers(x@, xout[j] as int),
        decreases xout.len() - k,
    {
        match locate(x, dir, xout[k]) {
            Some(l) => {
                plan.push(l);
            },
            None => {
                return Err(CalibrationError::OutOfRangeQuery);
            },
        }
        k = k + 1;
    }
    Ok(plan)
}

/// The value, multiplied by `denom`, that linear interpolation gives at
/// `numer / denom` of the way from a key with value `y0` to a key with value
/// `y1`, in exact arithmetic: `denom * (y0 + (y1 - y0) * numer / denom)`.
pub open spec fn blend_scaled(y0: int, y1: int, numer: int, denom: int) -> int {
    y0 * denom + (y1 - y0) * numer
}

/// A query has one lookup only: two lookups that answer the same query among
/// the same strictly sorted keys are equal.
pub proof fn lemma_lookup_unique(x: Seq<i32>, q: int, a: Lookup, b: Lookup)
    requires
        strictly_sorted(x),
        a.answers(x, q),
        b.answers(x, q),
    ensures
        a == b,
{
    // Two lookups at different positions would put the query on both sides of
    // a key, which the order of the keys rules out.
}

/// Interpolation is exact at the keys: a query that equals the key at `i` is
/// answered by `Exact { index: i }`, so the value tabulated there is returned
/// as it stands.
pub proof fn lemma_exact_at_keys(x: Seq<i32>, i: int, l: Lookup)
    requires
        strictly_sorted(x),
        0 <= i < x.len(),
        l.answers(x, x[i] as int),
    ensures
        l == (Lookup::Exact { index: i as usize }),
{
    let e = Lookup::Exact { index: i as usize };
    lemma_lookup_unique(x, x[i] as int, l, e);
}

/// Between two keys the interpolated value stays between the two tabulated
/// values: the share `numer / denom` lies strictly between 0 and 1, it is the
/// ratio `(q - x[lower]) / (x[lower + 1] - x[lower])`, and in exact
/// arithmetic the blend of any two values `y0` and `y1` at that share is
/// neither below the smaller nor above the larger of them.
pub proof fn lemma_between_is_bracketed(x: Seq<i32>, q: int, l: Lookup, y0: int, y1: int)
    requires
        l.answers(x, q),
        l is Between,
    ensures
        0 < l->numer < l->denom,
        l->numer * (x[l->lower + 1] - x[l->lower as int]) == l->denom * (q - x[l->lower as int]),
        y0 <= y1 ==> y0 * l->denom <= blend_scaled(y0, y1, l->numer as int, l->denom as int) <= y1
            * l->denom,
        y1 <= y0 ==> y1 * l->denom <= blend_scaled(y0, y1, l->numer as int, l->denom as int) <= y0
            * l->denom,
{
    let n: int = l->numer as int;
    let d: int = l->denom as int;
    let a: int = x[l->lower as int] as int;
    let b: int = x[l->lower + 1] as int;
    assert(n * (b - a) == d * (q - a)) by (nonlinear_arith)
        requires
            (a < q < b && n == q - a && d == b - a) || (b < q < a && n == a - q && d == a - b),
    ;
    assert(y0 <= y1 ==> y0 * d <= y0 * d + (y1 - y0) * n <= y1 * d) by (nonlinear_arith)
        requires
            0 < n < d,
    ;
    assert(y1 <= y0 ==> y1 * d <= y0 * d + (y1 - y0) * n <= y0 * d) by (nonlinear_arith)
        requires
            0 < n < d,
    ;
}

/// Keys whose neighbours all rise (or all fall) are strictly sorted.
proof fn lemma_steps_sorted(x: Seq<i32>, up: bool)
    requires
        up ==> forall|a: int| 0 <= a < x.len() - 1 ==> x[a] < #[trigger] x[a + 1],
        !up ==> forall|a: int| 0 <= a < x.len() - 1 ==> x[a] > #[trigger] x[a + 1],
    ensures
        up ==> ascending(x),
        !up ==> descending(x),
{
    if up {
        assert forall|i: int, j: int| 0 <= i < j < x.len() implies x[i] < x[j] by {
            lemma_rising_pair(x, i, j);
        }
    } else {
        assert forall|i: int, j: int| 0 <= i < j < x.len() implies x[i] > x[j] by {
            lemma_falling_pair(x, i, j);
        }
    }
}

proof fn lemma_rising_pair(x: Seq<i32>, i: int, j: int)
    requires
        forall|a: int| 0 <= a < x.len() - 1 ==> x[a] < #[trigger] x[a + 1],
        0 <= i < j < x.len(),
    ensures
        x[i] < x[j],
    decreases j - i,
{
    assert(x[j - 1] < x[j - 1 + 1]);
    if i < j - 1 {
        lemma_rising_pair(x, i, j - 1);
    }
}

proof fn lemma_falling_pair(x: Seq<i32>, i: int, j: int)
    requires
        forall|a: int| 0 <= a < x.len() - 1 ==> x[a] > #[trigger] x[a + 1],
        0 <= i < j < x.len(),
    ensures
        x[i] > x[j],
    decreases j - i,
{
    assert(x[j - 1] > x[j - 1 + 1]);
    if i < j - 1 {
        lemma_falling_pair(x, i, j - 1);
    }
}

} // verus!
