//! The calendar axis of a calibration curve.
//!
//! A calibration curve maps calendar years to an expected measured age and its
//! uncertainty. This type owns the curve's name and its calendar years; the
//! two columns of measured values stay with the caller, aligned with `age`
//! position by position. What is decided here is which years the curve has
//! and where each of them is read in the table.

use vstd::prelude::*;
use crate::error::CalibrationError;
use crate::interp::{
    ascending, descending, direction, distance, gap, locate, monotonic, Direction, Lookup,
};

verus! {

/// The year at position `k` of the annual axis that runs from `first` to
/// `last`.
pub open spec fn annual_year(first: int, last: int, k: int) -> int {
    if first <= last {
        first + k
    } else {
        first - k
    }
}

/// `axis` holds every year from `first` to `last`, ends included, one per
/// position, walking from `first` towards `last`.
pub open spec fn is_annual(axis: Seq<i32>, first: int, last: int) -> bool {
    &&& axis.len() == distance(first, last) + 1
    &&& forall|k: int| 0 <= k < axis.len() ==> #[trigger] axis[k] == annual_year(first, last, k)
}

/// Which error `Calibration::validate` returns, if any: unequal lengths are
/// reported before an unusable axis.
pub open spec fn validate_error(age: Seq<i32>, estimates: int, errors: int) -> Option<
    CalibrationError,
> {
    if estimates != age.len() || errors != age.len() {
        Some(CalibrationError::DimensionMismatch)
    } else if !monotonic(age) {
        Some(CalibrationError::InvalidCurve)
    } else {
        None
    }
}

/// A named calibration curve, as far as its calendar years go.
#[derive(Debug)]
pub struct Calibration {
    /// The identifier of the curve.
    pub name: String,
    /// The calendar years at which the curve is tabulated.
    pub age: Vec<i32>,
}

impl Calibration {
    /// The curve called `name` that is tabulated at the years `age`. The axis
    /// is taken as it is: `validate` tells whether it is usable.
    pub fn new(name: String, age: Vec<i32>) -> (r: Self)
        ensures
            r.name == name,
            r.age == age,
    {
        Calibration { name, age }
    }

    /// Checks the curve before any date is calibrated against it: the two
    /// value columns, of `estimates` and `errors` entries, must be as long as
    /// the axis, and the axis must have two years at least, strictly sorted.
    pub fn validate(&self, estimates: usize, errors: usize) -> (r: Result<
        Direction,
        CalibrationError,
    >)
        ensures
            match r {
                Ok(Direction::Ascending) => {
                    validate_error(self.age@, estimates as int, errors as int) is None
                        && ascending(self.age@)
                },
                Ok(Direction::Descending) => {
                    validate_error(self.age@, estimates as int, errors as int) is None
                        && descending(self.age@)
                },
                Err(e) => validate_error(self.age@, estimates as int, errors as int) == Some(e),
            },
    {
        if estimates != self.age.len() || errors != self.age.len() {
            return Err(CalibrationError::DimensionMismatch);
        }
        direction(&self.age)
    }

    /// Resamples the axis to one point per calendar year, from its first year
    /// to its last, keeping its direction.
    ///
    /// On success the axis is annual, and the result tells for each of its
    /// years, in order, where that year is read in the table as it was before
    /// the call. An axis that is not usable is left as it is.
    pub fn interpolate(&mut self) -> (r: Result<Vec<Lookup>, CalibrationError>)
        ensures
            final(self).name == old(self).name,
            match r {
                Ok(plan) => {
                    &&& monotonic(old(self).age@)
                    &&& monotonic(final(self).age@)
                    &&& ascending(old(self).age@) ==> ascending(final(self).age@)
                    &&& descending(old(self).age@) ==> descending(final(self).age@)
                    &&& is_annual(
                        final(self).age@,
                        old(self).age@.first() as int,
                        old(self).age@.last() as int,
                    )
                    &&& plan.len() == final(self).age@.len()
                    &&& forall|k: int|
                        0 <= k < plan.len() ==> (#[trigger] plan[k]).answers(
                            old(self).age@,
                            final(self).age@[k] as int,
                        )
                },
                Err(e) => {
                    &&& e == CalibrationError::InvalidCurve
                    &&& !monotonic(old(self).age@)
                    &&& final(self).age == old(self).age
                },
            },
    {
        let dir: Direction = match direction(&self.age) {
            Ok(d) => d,
            Err(e) => {
                return Err(e);
            },
        };
        let up: bool = match dir {
            Direction::Ascending => true,
            Direction::Descending => false,
        };
        let n: usize = self.age.len();
        let first: i32 = self.age[0];
        let last: i32 = self.age[n - 1];
        assert(up <==> first <= last);
        let span: u64 = gap(first, last) as u64;
        let mut years: Vec<i32> = Vec::new();
        let mut plan: Vec<Lookup> = Vec::new();
        let mut k: u64 = 0;
        while k <= span
            invariant
                k <= span + 1,
                span == distance(first as int, last as int),
                up <==> first <= last,
                monotonic(self.age@),
                dir == Direction::Ascending ==> ascending(self.age@),
                dir == Direction::Descending ==> descending(self.age@),
                first == self.age@.first(),
                last == self.age@.last(),
                years.len() == k,
                plan.len() == k,
                forall|j: int|
                    0 <= j < k ==> #[trigger] years[j] == annual_year(first as int, last as int, j),
                forall|j: int|
                    0 <= j < k ==> (#[trigger] plan[j]).answers(self.age@, years[j] as int),
            decreases span + 1 - k,
        {
            let year: i32 = if up {
                (first as i64 + k as i64) as i32
            } else {
                (first as i64 - k as i64) as i32
            };
            // A year between the first and the last lies inside the curve.
            let found: Option<Lookup> = locate(&self.age, dir, year);
            assert(found is Some);
            plan.push(found.unwrap());
            years.push(year);
            k = k + 1;
        }
        proof {
            lemma_annual_sorted(years@, first as int, last as int);
        }
        self.age = years;
        Ok(plan)
    }
}

/// An annual axis is strictly sorted, in the direction from `first` to `last`.
pub proof fn lemma_annual_sorted(axis: Seq<i32>, first: int, last: int)
    requires
        is_annual(axis, first, last),
    ensures
        first <= last ==> ascending(axis),
        first >= last ==> descending(axis),
        first != last ==> monotonic(axis),
{
}

} // verus!
