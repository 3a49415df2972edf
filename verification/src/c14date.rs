//! Measured dates, and their calibration against a curve.
//!
//! To calibrate a date, the caller evaluates the density of the measured age
//! at every point of the curve. This module decides what becomes of those
//! densities: which years are kept, in which window they lie, and when there
//! is no posterior to speak of.

use vstd::prelude::*;
use crate::caldate::{is_posterior, paired, CalDate, CalGrid};
use crate::calibration::Calibration;
use crate::error::CalibrationError;
use crate::interp::{ascending, direction, monotonic, strictly_sorted};

verus! {

/// A measured age with its one-sigma measurement error.
#[derive(Debug, Clone, Copy, PartialEq, Eq, Structural)]
pub struct C14Date {
    pub age: i32,
    pub error: i32,
}

/// A batch of measured dates.
#[derive(Debug)]
pub struct C14List {
    pub dates: Vec<C14Date>,
}

/// The (year, density) pairs among the first `n` points of a curve whose
/// density is `precision` at least, in the order of the curve.
pub open spec fn retained(age: Seq<i32>, density: Seq<u64>, precision: u64, n: nat) -> Seq<
    (i32, u64),
>
    decreases n,
{
    if n == 0 {
        Seq::empty()
    } else {
        let rest = retained(age, density, precision, (n - 1) as nat);
        if density[n - 1] >= precision {
            rest.push((age[n - 1], density[n - 1]))
        } else {
            rest
        }
    }
}

/// The posterior of a date: what is retained of the whole curve.
pub open spec fn posterior(age: Seq<i32>, density: Seq<u64>, precision: u64) -> Seq<(i32, u64)> {
    retained(age, density, precision, age.len())
}

/// Which error the calibration of `date` ends in, if any: an unusable curve is
/// reported first, then densities that are not aligned with the curve, then
/// a posterior without a single year.
pub open spec fn calibrate_error(
    date: C14Date,
    age: Seq<i32>,
    density: Seq<u64>,
    precision: u64,
) -> Option<CalibrationError> {
    if !monotonic(age) {
        Some(CalibrationError::InvalidCurve)
    } else if density.len() != age.len() {
        Some(CalibrationError::DimensionMismatch)
    } else if posterior(age, density, precision).len() == 0 {
        Some(CalibrationError::EmptyPosterior { age: date.age, error: date.error, precision })
    } else {
        None
    }
}

/// `outcome` is what the calibration of `date` gives.
pub open spec fn is_outcome(
    outcome: Result<CalDate, CalibrationError>,
    date: C14Date,
    age: Seq<i32>,
    density: Seq<u64>,
    precision: u64,
) -> bool {
    match outcome {
        Ok(cal) => {
            &&& calibrate_error(date, age, density, precision) is None
            &&& cal@ == posterior(age, density, precision)
            &&& is_posterior(cal@)
        },
        Err(e) => calibrate_error(date, age, density, precision) == Some(e),
    }
}

/// Which error stops a batch before any date is calibrated, if any.
pub open spec fn batch_error(dates: int, age: Seq<i32>, densities: int) -> Option<
    CalibrationError,
> {
    if !monotonic(age) {
        Some(CalibrationError::InvalidCurve)
    } else if densities != dates {
        Some(CalibrationError::DimensionMismatch)
    } else {
        None
    }
}

/// The error of the first among the first `n` dates of a batch whose
/// calibration fails, if there is one.
pub open spec fn first_failure(
    dates: Seq<C14Date>,
    age: Seq<i32>,
    densities: Seq<Vec<u64>>,
    precision: u64,
    n: nat,
) -> Option<CalibrationError>
    decreases n,
{
    if n == 0 {
        None
    } else {
        match first_failure(dates, age, densities, precision, (n - 1) as nat) {
            Some(e) => Some(e),
            None => calibrate_error(dates[n - 1], age, densities[n - 1]@, precision),
        }
    }
}

/// Which error keeps a batch from becoming a grid, if any: what stops the
/// batch as a whole, else the first failure of a date, else that there is no
/// date at all.
pub open spec fn grid_error(
    dates: Seq<C14Date>,
    age: Seq<i32>,
    densities: Seq<Vec<u64>>,
    precision: u64,
) -> Option<CalibrationError> {
    if batch_error(dates.len() as int, age, densities.len() as int) is Some {
        batch_error(dates.len() as int, age, densities.len() as int)
    } else if first_failure(dates, age, densities, precision, dates.len()) is Some {
        first_failure(dates, age, densities, precision, dates.len())
    } else if dates.len() == 0 {
        Some(CalibrationError::DimensionMismatch)
    } else {
        None
    }
}

impl C14Date {
    /// A date of the measured `age`, with the measurement error `error`.
    pub fn new(age: i32, error: i32) -> (r: Self)
        ensures
            r.age == age,
            r.error == error,
    {
        C14Date { age, error }
    }

    /// Turns the densities of this date, one for each point of the curve, into
    /// its calibrated date: the years whose density is `precision` at least,
    /// each with that density, in the order of the curve.
    pub fn calibrate(&self, calibration: &Calibration, density: &Vec<u64>, precision: u64) -> (r:
        Result<CalDate, CalibrationError>)
        ensures
            is_outcome(r, *self, calibration.age@, density@, precision),
    {
        match direction(&calibration.age) {
            Ok(_) => {},
            Err(e) => {
                return Err(e);
            },
        }
        self.calibrate_sorted(&calibration.age, density, precision)
    }

    /// `calibrate` against an axis that is known to be usable.
    fn calibrate_sorted(&self, age: &Vec<i32>, density: &Vec<u64>, precision: u64) -> (r: Result<
        CalDate,
        CalibrationError,
    >)
        requires
            monotonic(age@),
        ensures
            is_outcome(r, *self, age@, density@, precision),
    {
        let n: usize = age.len();
        if density.len() != n {
            return Err(CalibrationError::DimensionMismatch);
        }
        let mut years: Vec<i32> = Vec::new();
        let mut kept: Vec<u64> = Vec::new();
        // For each pair that was kept, the point of the curve it came from.
        let ghost mut source: Seq<int> = Seq::empty();
        let mut i: usize = 0;
        while i < n
            invariant
                0 <= i <= n,
                n == age@.len(),
                n == density@.len(),
                years@.len() == kept@.len(),
                paired(years@, kept@) == retained(age@, density@, precision, i as nat),
                source.len() == years@.len(),
                forall|k: int|
                    0 <= k < source.len() ==> 0 <= #[trigger] source[k] < i && years@[k]
                        == age@[source[k]],
                forall|k: int, l: int| 0 <= k < l < source.len() ==> source[k] < source[l],
            decreases n - i,
        {
            if density[i] >= precision {
                proof {
                    source = source.push(i as int);
                }
                years.push(age[i]);
                kept.push(density[i]);
            }
            i = i + 1;
        }
        if years.len() == 0 {
            return Err(
                CalibrationError::EmptyPosterior { age: self.age, error: self.error, precision },
            );
        }
        proof {
            if ascending(age@) {
                assert forall|k: int, l: int| 0 <= k < l < years@.len() implies years@[k]
                    < years@[l] by {
                    assert(source[k] < source[l]);
                }
            } else {
                assert forall|k: int, l: int| 0 <= k < l < years@.len() implies years@[k]
                    > years@[l] by {
                    assert(source[k] < source[l]);
                }
            }
        }
        Ok(CalDate::from_columns(years, kept))
    }
}

impl C14List {
    /// A batch of the given dates, in their order.
    pub fn new(dates: Vec<C14Date>) -> (r: Self)
        ensures
            r.dates == dates,
    {
        C14List { dates }
    }

    /// Calibrates every date of the batch; `densities[i]` holds the densities
    /// of date `i`.
    ///
    /// A curve that is not usable, and a batch with another number of density
    /// columns than dates, are refused before any date is looked at. After
    /// that each date has its own outcome, at its own position: a date without
    /// a posterior does not stop the others.
    pub fn calibrate(
        &self,
        calibration: &Calibration,
        densities: &Vec<Vec<u64>>,
        precision: u64,
    ) -> (r: Result<Vec<Result<CalDate, CalibrationError>>, CalibrationError>)
        ensures
            match r {
                Ok(outcomes) => {
                    &&& batch_error(
                        self.dates@.len() as int,
                        calibration.age@,
                        densities@.len() as int,
                    ) is None
                    &&& outcomes@.len() == self.dates@.len()
                    &&& forall|i: int|
                        0 <= i < outcomes@.len() ==> is_outcome(
                            #[trigger] outcomes@[i],
                            self.dates@[i],
                            calibration.age@,
                            densities@[i]@,
                            precision,
                        )
                },
                Err(e) => batch_error(
                    self.dates@.len() as int,
                    calibration.age@,
                    densities@.len() as int,
                ) == Some(e),
            },
    {
        match direction(&calibration.age) {
            Ok(_) => {},
            Err(e) => {
                return Err(e);
            },
        }
        let n: usize = self.dates.len();
        if densities.len() != n {
            return Err(CalibrationError::DimensionMismatch);
        }
        let mut outcomes: Vec<Result<CalDate, CalibrationError>> = Vec::new();
        let mut i: usize = 0;
        while i < n
            invariant
                0 <= i <= n,
                n == self.dates@.len(),
                n == densities@.len(),
                monotonic(calibration.age@),
                outcomes@.len() == i,
                forall|k: int|
                    0 <= k < i ==> is_outcome(
                        #[trigger] outcomes@[k],
                        self.dates@[k],
                        calibration.age@,
                        densities@[k]@,
                        precision,
                    ),
            decreases n - i,
        {
            let outcome = self.dates[i].calibrate_sorted(
                &calibration.age,
                &densities[i],
                precision,
            );
            outcomes.push(outcome);
            i = i + 1;
        }
        Ok(outcomes)
    }

    /// Calibrates every date of the batch into one grid, or not at all: the
    /// first date that has no posterior fails the batch with its error.
    pub fn calibrate_all(
        &self,
        calibration: &Calibration,
        densities: &Vec<Vec<u64>>,
        precision: u64,
    ) -> (r: Result<CalGrid, CalibrationError>)
        ensures
            match r {
                Ok(grid) => {
                    &&& grid_error(self.dates@, calibration.age@, densities@, precision) is None
                    &&& grid@.len() == self.dates@.len()
                    &&& forall|i: int|
                        0 <= i < grid@.len() ==> #[trigger] grid@[i] == posterior(
                            calibration.age@,
                            densities@[i]@,
                            precision,
                        ) && is_posterior(grid@[i])
                },
                Err(e) => grid_error(self.dates@, calibration.age@, densities@, precision)
                    == Some(e),
            },
    {
        match direction(&calibration.age) {
            Ok(_) => {},
            Err(e) => {
                return Err(e);
            },
        }
        let n: usize = self.dates.len();
        if densities.len() != n {
            return Err(CalibrationError::DimensionMismatch);
        }
        let mut grid: Vec<CalDate> = Vec::new();
        let mut i: usize = 0;
        while i < n
            invariant
                0 <= i <= n,
                n == self.dates@.len(),
                n == densities@.len(),
                monotonic(calibration.age@),
                grid@.len() == i,
                first_failure(self.dates@, calibration.age@, densities@, precision, i as nat)
                    is None,
                forall|k: int|
                    0 <= k < i ==> (#[trigger] grid@[k])@ == posterior(
                        calibration.age@,
                        densities@[k]@,
                        precision,
                    ),
            decreases n - i,
        {
            match self.dates[i].calibrate_sorted(&calibration.age, &densities[i], precision) {
                Ok(date) => {
                    grid.push(date);
                },
                Err(e) => {
                    proof {
                        lemma_failure_stays(
                            self.dates@,
                            calibration.age@,
                            densities@,
                            precision,
                            (i + 1) as nat,
                            n as nat,
                        );
                    }
                    return Err(e);
                },
            }
            i = i + 1;
        }
        CalGrid::from(grid)
    }

    /// The window of the measured ages: the largest and the smallest of them,
    /// in this order, or `None` for a batch without dates.
    pub fn window(&self) -> (r: Option<(i32, i32)>)
        ensures
            r is None <==> self.dates@.len() == 0,
            r matches Some((start, end)) ==> {
                &&& exists|i: int| 0 <= i < self.dates@.len() && (#[trigger] self.dates@[i]).age == start
                &&& exists|i: int| 0 <= i < self.dates@.len() && (#[trigger] self.dates@[i]).age == end
                &&& forall|i: int|
                    0 <= i < self.dates@.len() ==> end <= (#[trigger] self.dates@[i]).age <= start
            },
    {
        if self.dates.len() == 0 {
            return None;
        }
        let mut start: i32 = self.dates[0].age;
        let mut end: i32 = self.dates[0].age;
        let mut i: usize = 1;
        while i < self.dates.len()
            invariant
                1 <= i <= self.dates@.len(),
                exists|k: int| 0 <= k < i && (#[trigger] self.dates@[k]).age == start,
                exists|k: int| 0 <= k < i && (#[trigger] self.dates@[k]).age == end,
                forall|k: int| 0 <= k < i ==> end <= (#[trigger] self.dates@[k]).age <= start,
            decreases self.dates@.len() - i,
        {
            let age: i32 = self.dates[i].age;
            if age > start {
                start = age;
            }
            if age < end {
                end = age;
            }
            i = i + 1;
        }
        Some((start, end))
    }
}

/// What the threshold keeps: the point `j` of the curve, with its density, is
/// among the pairs retained of the first `n` points exactly when it is one of
/// these points and its density is `precision` at least.
pub proof fn lemma_retained_holds(
    age: Seq<i32>,
    density: Seq<u64>,
    precision: u64,
    n: nat,
    j: int,
)
    requires
        strictly_sorted(age),
        n <= age.len(),
        0 <= j < age.len(),
    ensures
        retained(age, density, precision, n).contains((age[j], density[j])) <==> (j < n
            && density[j] >= precision),
    decreases n,
{
    if n > 0 {
        let rest = retained(age, density, precision, (n - 1) as nat);
        let last = (age[n - 1], density[n - 1]);
        let wanted = (age[j], density[j]);
        lemma_retained_holds(age, density, precision, (n - 1) as nat, j);
        // No other point of the curve has the year of point `j`, so the pair
        // of point `n - 1` is the wanted one for `j == n - 1` only.
        if density[n - 1] >= precision {
            let all = rest.push(last);
            if rest.contains(wanted) {
                let t = choose|t: int| 0 <= t < rest.len() && rest[t] == wanted;
                assert(all[t] == wanted);
            }
            if wanted == last {
                assert(all[rest.len() as int] == wanted);
            }
        }
    }
}

/// A failure among the first `n` dates is the first failure of any longer
/// prefix too.
proof fn lemma_failure_stays(
    dates: Seq<C14Date>,
    age: Seq<i32>,
    densities: Seq<Vec<u64>>,
    precision: u64,
    n: nat,
    m: nat,
)
    requires
        n <= m,
        first_failure(dates, age, densities, precision, n) is Some,
    ensures
        first_failure(dates, age, densities, precision, m) == first_failure(
            dates,
            age,
            densities,
            precision,
            n,
        ),
    decreases m - n,
{
    if n < m {
        lemma_failure_stays(dates, age, densities, precision, n, (m - 1) as nat);
    }
}

} // verus!
