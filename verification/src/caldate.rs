//! Calibrated dates and batches of them.
//!
//! A calibrated date is the part of a posterior that reached the precision
//! threshold: a list of calendar years, each with its density. The years are
//! kept explicitly, in the order of the curve they were read from, so that a
//! posterior with gaps is still aligned with its years.
//!
//! Densities are held as `u64` keys. A key stands for one non-negative real
//! number; a smaller key stands for a smaller number, and key 0 for zero.
//! Keys are compared here and never added or scaled: the arithmetic on the
//! numbers they stand for belongs to the caller.

use vstd::prelude::*;
use crate::error::CalibrationError;
use crate::interp::{ascending, direction, strictly_sorted};
use crate::spd::{spd_row, Spd};

verus! {

/// The largest year among the pairs, or `i32::MIN` if there is none.
pub open spec fn max_year(v: Seq<(i32, u64)>) -> int
    decreases v.len(),
{
    if v.len() == 0 {
        i32::MIN as int
    } else {
        let rest: int = max_year(v.drop_last());
        if v.last().0 > rest {
            v.last().0 as int
        } else {
            rest
        }
    }
}

/// The smallest year among the pairs, or `i32::MAX` if there is none.
pub open spec fn min_year(v: Seq<(i32, u64)>) -> int
    decreases v.len(),
{
    if v.len() == 0 {
        i32::MAX as int
    } else {
        let rest: int = min_year(v.drop_last());
        if v.last().0 < rest {
            v.last().0 as int
        } else {
            rest
        }
    }
}

/// The years of the pairs, in order.
pub open spec fn years_of(v: Seq<(i32, u64)>) -> Seq<i32> {
    Seq::new(v.len(), |i: int| v[i].0)
}

/// The densities of the pairs, in order.
pub open spec fn densities_of(v: Seq<(i32, u64)>) -> Seq<u64> {
    Seq::new(v.len(), |i: int| v[i].1)
}

/// The pairs made of two aligned columns.
pub open spec fn paired(years: Seq<i32>, density: Seq<u64>) -> Seq<(i32, u64)> {
    Seq::new(years.len(), |i: int| (years[i], density[i]))
}

/// What the pairs of a calibrated date always are: at least one pair, the
/// years strictly sorted in one direction.
pub open spec fn is_posterior(v: Seq<(i32, u64)>) -> bool {
    v.len() > 0 && strictly_sorted(years_of(v))
}

/// Every density is zero, so the densities cannot be rescaled to sum to one.
pub open spec fn all_zero(v: Seq<(i32, u64)>) -> bool {
    forall|i: int| 0 <= i < v.len() ==> (#[trigger] v[i]).1 == 0
}

/// Position `i` holds the largest density, and no earlier position does.
pub open spec fn is_mode_index(v: Seq<(i32, u64)>, i: int) -> bool {
    &&& 0 <= i < v.len()
    &&& forall|j: int| 0 <= j < v.len() ==> (#[trigger] v[j]).1 <= v[i].1
    &&& forall|j: int| 0 <= j < i ==> (#[trigger] v[j]).1 < v[i].1
}

/// `year` is the mode of the pairs: the year at the first position of the
/// largest density.
pub open spec fn is_mode_of(v: Seq<(i32, u64)>, year: int) -> bool {
    exists|i: int| is_mode_index(v, i) && (#[trigger] v[i]).0 == year
}

/// A date has one mode: it is a year of the date, no entry of the date has a
/// larger density than the mode has, and every year with this property is
/// that same year.
pub proof fn lemma_mode_is_unique(v: Seq<(i32, u64)>, a: int, b: int)
    requires
        is_mode_of(v, a),
        is_mode_of(v, b),
    ensures
        a == b,
        exists|i: int|
            0 <= i < v.len() && (#[trigger] v[i]).0 == a && forall|j: int|
                0 <= j < v.len() ==> (#[trigger] v[j]).1 <= v[i].1,
{
    // Of two positions that both hold the largest density first, neither
    // comes before the other.
    let i = choose|i: int| is_mode_index(v, i) && (#[trigger] v[i]).0 == a;
    let j = choose|j: int| is_mode_index(v, j) && (#[trigger] v[j]).0 == b;
    assert(i == j);
}

/// The pairs among the first `n` whose year lies in the window from `end` to
/// `start`, ends included, in order.
pub open spec fn within(v: Seq<(i32, u64)>, start: int, end: int, n: nat) -> Seq<(i32, u64)>
    decreases n,
{
    if n == 0 {
        Seq::empty()
    } else {
        let rest = within(v, start, end, (n - 1) as nat);
        if end <= v[n - 1].0 <= start {
            rest.push(v[n - 1])
        } else {
            rest
        }
    }
}

/// Which error `CalDate::new` returns, if any.
pub open spec fn new_error(years: Seq<i32>, density: Seq<u64>) -> Option<CalibrationError> {
    if years.len() != density.len() || years.len() == 0 {
        Some(CalibrationError::DimensionMismatch)
    } else if !strictly_sorted(years) {
        Some(CalibrationError::InvalidCurve)
    } else {
        None
    }
}

/// The largest year is one of the years and none is larger; likewise the
/// smallest.
pub proof fn lemma_extreme_years(v: Seq<(i32, u64)>)
    requires
        v.len() > 0,
    ensures
        exists|i: int| 0 <= i < v.len() && (#[trigger] v[i]).0 == max_year(v),
        exists|i: int| 0 <= i < v.len() && (#[trigger] v[i]).0 == min_year(v),
        forall|i: int| 0 <= i < v.len() ==> min_year(v) <= (#[trigger] v[i]).0 <= max_year(v),
    decreases v.len(),
{
    let rest = v.drop_last();
    let last_index: int = v.len() - 1;
    if rest.len() > 0 {
        lemma_extreme_years(rest);
        assert forall|k: int| 0 <= k < v.len() implies min_year(v) <= (#[trigger] v[k]).0
            <= max_year(v) by {
            if k < rest.len() {
                assert(v[k] == rest[k]);
            }
        }
    } else {
        assert(max_year(rest) == i32::MIN && min_year(rest) == i32::MAX);
        assert(v[last_index].0 == min_year(v));
    }
}

/// One calibrated date: the years that reached the threshold, with their
/// densities.
#[derive(Debug)]
pub struct CalDate {
    start: i32,
    end: i32,
    years: Vec<i32>,
    density: Vec<u64>,
}

impl View for CalDate {
    type V = Seq<(i32, u64)>;

    /// The (year, density) pairs, in the order of the curve.
    closed spec fn view(&self) -> Seq<(i32, u64)> {
        paired(self.years@, self.density@)
    }
}

impl CalDate {
    #[verifier::type_invariant]
    closed spec fn inv(&self) -> bool {
        &&& self.years@.len() == self.density@.len()
        &&& is_posterior(self@)
        &&& self.start == max_year(self@)
        &&& self.end == min_year(self@)
    }

    /// Makes a date of two aligned columns.
    pub fn new(years: Vec<i32>, density: Vec<u64>) -> (r: Result<CalDate, CalibrationError>)
        ensures
            match r {
                Ok(date) => {
                    &&& new_error(years@, density@) is None
                    &&& date@ == paired(years@, density@)
                    &&& is_posterior(date@)
                },
                Err(e) => new_error(years@, density@) == Some(e),
            },
    {
        if years.len() != density.len() || years.len() == 0 {
            return Err(CalibrationError::DimensionMismatch);
        }
        if years.len() >= 2 {
            match direction(&years) {
                Ok(_) => {},
                Err(e) => {
                    return Err(e);
                },
            }
        }
        Ok(CalDate::from_columns(years, density))
    }

    /// Makes a date of two aligned columns that are known to be in order.
    pub(crate) fn from_columns(years: Vec<i32>, density: Vec<u64>) -> (r: CalDate)
        requires
            years@.len() == density@.len(),
            is_posterior(paired(years@, density@)),
        ensures
            r@ == paired(years@, density@),
    {
        let ghost v = paired(years@, density@);
        let mut start: i32 = years[0];
        let mut end: i32 = years[0];
        proof {
            let none = v.take(1).drop_last();
            assert(max_year(none) == i32::MIN && min_year(none) == i32::MAX);
        }
        let mut i: usize = 1;
        while i < years.len()
            invariant
                1 <= i <= years.len(),
                years@.len() == density@.len(),
                v == paired(years@, density@),
                start == max_year(v.take(i as int)),
                end == min_year(v.take(i as int)),
            decreases years.len() - i,
        {
            assert(v.take(i + 1).drop_last() =~= v.take(i as int));
            if years[i] > start {
                start = years[i];
            }
            if years[i] < end {
                end = years[i];
            }
            i = i + 1;
        }
        assert(v.take(i as int) =~= v);
        CalDate { start, end, years, density }
    }

    /// The most recent year of the date: the largest of its years.
    pub fn start(&self) -> (r: i32)
        ensures
            r == max_year(self@),
            is_posterior(self@),
    {
        proof {
            use_type_invariant(self);
        }
        self.start
    }

    /// The oldest year of the date: the smallest of its years.
    pub fn end(&self) -> (r: i32)
        ensures
            r == min_year(self@),
            is_posterior(self@),
    {
        proof {
            use_type_invariant(self);
        }
        self.end
    }

    /// The years of the date, in the order of the curve.
    pub fn years(&self) -> (r: &Vec<i32>)
        ensures
            r@ == years_of(self@),
            is_posterior(self@),
    {
        proof {
            use_type_invariant(self);
        }
        &self.years
    }

    /// The density keys of the date, aligned with its years.
    pub fn density(&self) -> (r: &Vec<u64>)
        ensures
            r@ == densities_of(self@),
            is_posterior(self@),
    {
        proof {
            use_type_invariant(self);
        }
        &self.density
    }

    /// The calendar year of largest density; among several such years, the one
    /// that comes first in the date.
    pub fn mode(&self) -> (r: i32)
        ensures
            is_mode_of(self@, r as int),
    {
        proof {
            use_type_invariant(self);
        }
        let mut best: usize = 0;
        let mut i: usize = 1;
        while i < self.density.len()
            invariant
                1 <= i <= self.density.len(),
                self.years@.len() == self.density@.len(),
                is_mode_index(self@.take(i as int), best as int),
            decreases self.density.len() - i,
        {
            if self.density[i] > self.density[best] {
                best = i;
            }
            i = i + 1;
        }
        assert(self@.take(i as int) =~= self@);
        self.years[best]
    }

    /// Every year from `start` down to `end`, whether the date holds it or
    /// not.
    pub fn expand_ages(&self) -> (r: Vec<i32>)
        ensures
            r@.len() == max_year(self@) - min_year(self@) + 1,
            forall|k: int| 0 <= k < r@.len() ==> #[trigger] r@[k] == max_year(self@) - k,
    {
        proof {
            use_type_invariant(self);
            lemma_extreme_years(self@);
        }
        descending_years(self.start, self.end)
    }

    /// The part of the date that lies in the window from `end` to `start`,
    /// ends included, or `None` if no year of the date lies there.
    pub fn windowed(&self, start: i32, end: i32) -> (r: Option<CalDate>)
        ensures
            match r {
                Some(date) => {
                    &&& date@ == within(self@, start as int, end as int, self@.len())
                    &&& is_posterior(date@)
                },
                None => within(self@, start as int, end as int, self@.len()).len() == 0,
            },
    {
        proof {
            use_type_invariant(self);
        }
        let n: usize = self.years.len();
        let mut years: Vec<i32> = Vec::new();
        let mut kept: Vec<u64> = Vec::new();
        // For each pair that was kept, its position in the date.
        let ghost mut source: Seq<int> = Seq::empty();
        let mut i: usize = 0;
        while i < n
            invariant
                0 <= i <= n,
                n == self.years@.len(),
                n == self.density@.len(),
                years@.len() == kept@.len(),
                paired(years@, kept@) == within(self@, start as int, end as int, i as nat),
                source.len() == years@.len(),
                forall|k: int|
                    0 <= k < source.len() ==> 0 <= #[trigger] source[k] < i && years@[k]
                        == self.years@[source[k]],
                forall|k: int, l: int| 0 <= k < l < source.len() ==> source[k] < source[l],
            decreases n - i,
        {
            let year: i32 = self.years[i];
            if end <= year && year <= start {
                proof {
                    source = source.push(i as int);
                }
                years.push(year);
                kept.push(self.density[i]);
            }
            i = i + 1;
        }
        if years.len() == 0 {
            return None;
        }
        proof {
            assert(years_of(self@) =~= self.years@);
            if ascending(self.years@) {
                assert forall|k: int, l: int| 0 <= k < l < years@.len() implies years@[k]
                    < years@[l] by {
                    assert(source[k] < source[l]);
                }
            } else {
                assert forall|k: int, l: int| 0 <= k < l < years@.len() implies years@[k]
                    > years@[l] by {
                    assert(source[k] < source[l]);
                }
            }
        }
        Some(CalDate::from_columns(years, kept))
    }

    /// Tells whether the densities can be rescaled to sum to one, which takes
    /// at least one density that is not zero.
    pub fn check_normalizable(&self) -> (r: Result<(), CalibrationError>)
        ensures
            match r {
                Ok(_) => !all_zero(self@),
                Err(e) => e == CalibrationError::DegenerateNormalization && all_zero(self@),
            },
    {
        proof {
            use_type_invariant(self);
        }
        let mut i: usize = 0;
        while i < self.density.len()
            invariant
                0 <= i <= self.density.len(),
                self.years@.len() == self.density@.len(),
                forall|j: int| 0 <= j < i ==> (#[trigger] self@[j]).1 == 0,
            decreases self.density.len() - i,
        {
            if self.density[i] != 0 {
                assert(self@[i as int].1 != 0);
                return Ok(());
            }
            i = i + 1;
        }
        Err(CalibrationError::DegenerateNormalization)
    }

    /// Replaces the densities by rescaled ones, one for each year of the date.
    ///
    /// The date is left as it is when its densities are all zero, or when
    /// `scaled` has another length than the date.
    pub fn normalize(&mut self, scaled: Vec<u64>) -> (r: Result<(), CalibrationError>)
        ensures
            match r {
                Ok(_) => {
                    &&& !all_zero(old(self)@)
                    &&& scaled@.len() == old(self)@.len()
                    &&& final(self)@ == paired(years_of(old(self)@), scaled@)
                },
                Err(e) => {
                    &&& final(self)@ == old(self)@
                    &&& e == (if all_zero(old(self)@) {
                        CalibrationError::DegenerateNormalization
                    } else {
                        CalibrationError::DimensionMismatch
                    })
                    &&& all_zero(old(self)@) || scaled@.len() != old(self)@.len()
                },
            },
    {
        proof {
            use_type_invariant(&*self);
        }
        match self.check_normalizable() {
            Ok(_) => {},
            Err(e) => {
                return Err(e);
            },
        }
        if scaled.len() != self.density.len() {
            return Err(CalibrationError::DimensionMismatch);
        }
        proof {
            let before = paired(self.years@, self.density@);
            let after = paired(self.years@, scaled@);
            assert(years_of(after) =~= years_of(before));
            lemma_same_years_same_extremes(before, after);
        }
        self.density = scaled;
        Ok(())
    }
}

/// The views of a sequence of dates, in order.
pub open spec fn views_of(dates: Seq<CalDate>) -> Seq<Seq<(i32, u64)>> {
    Seq::new(dates.len(), |d: int| dates[d]@)
}

/// The largest year of any date, or `i32::MIN` if there is no date.
pub open spec fn grid_start(dates: Seq<Seq<(i32, u64)>>) -> int
    decreases dates.len(),
{
    if dates.len() == 0 {
        i32::MIN as int
    } else {
        let rest: int = grid_start(dates.drop_last());
        let own: int = max_year(dates.last());
        if own > rest {
            own
        } else {
            rest
        }
    }
}

/// The smallest year of any date, or `i32::MAX` if there is no date.
pub open spec fn grid_end(dates: Seq<Seq<(i32, u64)>>) -> int
    decreases dates.len(),
{
    if dates.len() == 0 {
        i32::MAX as int
    } else {
        let rest: int = grid_end(dates.drop_last());
        let own: int = min_year(dates.last());
        if own < rest {
            own
        } else {
            rest
        }
    }
}

/// No date of the grid has a density that is not zero.
pub open spec fn grid_all_zero(dates: Seq<Seq<(i32, u64)>>) -> bool {
    forall|d: int| 0 <= d < dates.len() ==> all_zero(#[trigger] dates[d])
}

/// The window of a grid encloses the window of each of its dates, and so each
/// of their years.
pub proof fn lemma_grid_window(dates: Seq<Seq<(i32, u64)>>, d: int)
    requires
        0 <= d < dates.len(),
    ensures
        grid_end(dates) <= min_year(dates[d]),
        max_year(dates[d]) <= grid_start(dates),
    decreases dates.len(),
{
    if d < dates.len() - 1 {
        lemma_grid_window(dates.drop_last(), d);
    }
}

/// A batch of calibrated dates with the window that encloses them all.
#[derive(Debug)]
pub struct CalGrid {
    start: i32,
    end: i32,
    grid: Vec<CalDate>,
}

impl View for CalGrid {
    type V = Seq<Seq<(i32, u64)>>;

    /// The (year, density) pairs of each date, in the order of the dates.
    closed spec fn view(&self) -> Seq<Seq<(i32, u64)>> {
        views_of(self.grid@)
    }
}

impl CalGrid {
    #[verifier::type_invariant]
    closed spec fn inv(&self) -> bool {
        &&& self.grid@.len() > 0
        &&& forall|d: int| 0 <= d < self.grid@.len() ==> is_posterior(#[trigger] self@[d])
        &&& self.start == grid_start(self@)
        &&& self.end == grid_end(self@)
    }

    /// Collects calibrated dates into a grid, whose window runs from the most
    /// recent year of any date to the oldest year of any date.
    ///
    /// A grid holds one date at least.
    pub fn from(grid: Vec<CalDate>) -> (r: Result<CalGrid, CalibrationError>)
        ensures
            match r {
                Ok(g) => {
                    &&& grid@.len() > 0
                    &&& g@ == views_of(grid@)
                    &&& forall|d: int| 0 <= d < g@.len() ==> is_posterior(#[trigger] g@[d])
                },
                Err(e) => e == CalibrationError::DimensionMismatch && grid@.len() == 0,
            },
    {
        if grid.len() == 0 {
            return Err(CalibrationError::DimensionMismatch);
        }
        let ghost v = views_of(grid@);
        let mut start: i32 = i32::MIN;
        let mut end: i32 = i32::MAX;
        let mut d: usize = 0;
        while d < grid.len()
            invariant
                0 <= d <= grid.len(),
                v == views_of(grid@),
                start == grid_start(v.take(d as int)),
                end == grid_end(v.take(d as int)),
                forall|c: int| 0 <= c < d ==> is_posterior(#[trigger] v[c]),
            decreases grid.len() - d,
        {
            assert(v.take(d + 1).drop_last() =~= v.take(d as int));
            let own_start: i32 = grid[d].start();
            let own_end: i32 = grid[d].end();
            if own_start > start {
                start = own_start;
            }
            if own_end < end {
                end = own_end;
            }
            d = d + 1;
        }
        assert(v.take(d as int) =~= v);
        Ok(CalGrid { start, end, grid })
    }

    /// The most recent year of the grid: the largest year of any date.
    pub fn start(&self) -> (r: i32)
        ensures
            r == grid_start(self@),
    {
        proof {
            use_type_invariant(self);
        }
        self.start
    }

    /// The oldest year of the grid: the smallest year of any date.
    pub fn end(&self) -> (r: i32)
        ensures
            r == grid_end(self@),
    {
        proof {
            use_type_invariant(self);
        }
        self.end
    }

    /// The dates of the grid, in order.
    pub fn dates(&self) -> (r: &Vec<CalDate>)
        ensures
            views_of(r@) == self@,
            r@.len() > 0,
            forall|d: int| 0 <= d < self@.len() ==> is_posterior(#[trigger] self@[d]),
    {
        proof {
            use_type_invariant(self);
        }
        &self.grid
    }

    /// The mode of each date, in the order of the dates.
    pub fn mode(&self) -> (r: Vec<i32>)
        ensures
            r@.len() == self@.len(),
            forall|d: int| 0 <= d < r@.len() ==> is_mode_of(self@[d], #[trigger] r@[d] as int),
    {
        let mut out: Vec<i32> = Vec::new();
        let mut d: usize = 0;
        while d < self.grid.len()
            invariant
                0 <= d <= self.grid.len(),
                out@.len() == d,
                forall|c: int| 0 <= c < d ==> is_mode_of(self@[c], #[trigger] out@[c] as int),
            decreases self.grid.len() - d,
        {
            let year: i32 = self.grid[d].mode();
            out.push(year);
            d = d + 1;
        }
        out
    }

    /// Lays out the summed probability distribution of the grid.
    ///
    /// The table has one row for every year of the window, the most recent
    /// first, and every entry of every date is given the row of its year. With
    /// `sum_to_one` the table is to be rescaled afterwards, which is refused
    /// when no density of the grid differs from zero.
    pub fn sum(&self, sum_to_one: bool) -> (r: Result<Spd, CalibrationError>)
        ensures
            match r {
                Ok(table) => !(sum_to_one && grid_all_zero(self@)) && table.lays_out(self@),
                Err(e) => {
                    &&& e == CalibrationError::DegenerateNormalization
                    &&& sum_to_one
                    &&& grid_all_zero(self@)
                },
            },
    {
        proof {
            use_type_invariant(self);
        }
        let n: usize = self.grid.len();
        if sum_to_one {
            let mut positive: bool = false;
            let mut d: usize = 0;
            while d < n
                invariant
                    0 <= d <= n,
                    n == self.grid@.len(),
                    positive ==> !grid_all_zero(self@),
                    !positive ==> forall|c: int| 0 <= c < d ==> all_zero(#[trigger] self@[c]),
                decreases n - d,
            {
                match self.grid[d].check_normalizable() {
                    Ok(_) => {
                        assert(!all_zero(self@[d as int]));
                        positive = true;
                    },
                    Err(_) => {},
                }
                d = d + 1;
            }
            if !positive {
                return Err(CalibrationError::DegenerateNormalization);
            }
        }
        let start: i32 = self.start;
        let end: i32 = self.end;
        proof {
            lemma_grid_window(self@, 0);
            lemma_extreme_years(self@[0]);
        }
        let age: Vec<i32> = descending_years(start, end);
        let mut rows: Vec<Vec<usize>> = Vec::new();
        let mut d: usize = 0;
        while d < n
            invariant
                0 <= d <= n,
                n == self.grid@.len(),
                n == self@.len(),
                start == grid_start(self@),
                end == grid_end(self@),
                age@.len() == start - end + 1,
                rows@.len() == d,
                forall|c: int| 0 <= c < d ==> (#[trigger] rows@[c])@.len() == self@[c].len(),
                forall|c: int, j: int|
                    0 <= c < d && 0 <= j < self@[c].len() ==> {
                        &&& #[trigger] rows@[c]@[j] == spd_row(self@, c, j)
                        &&& rows@[c]@[j] < age@.len()
                    },
            decreases n - d,
        {
            let years: &Vec<i32> = self.grid[d].years();
            let ghost date = self@[d as int];
            proof {
                lemma_grid_window(self@, d as int);
                lemma_extreme_years(date);
            }
            let mut row: Vec<usize> = Vec::new();
            let mut j: usize = 0;
            while j < years.len()
                invariant
                    0 <= j <= years.len(),
                    0 <= d < self@.len(),
                    date == self@[d as int],
                    years@ == years_of(date),
                    start == grid_start(self@),
                    end == grid_end(self@),
                    age@.len() == start - end + 1,
                    end <= min_year(date),
                    max_year(date) <= start,
                    forall|i: int|
                        0 <= i < date.len() ==> min_year(date) <= (#[trigger] date[i]).0
                            <= max_year(date),
                    row@.len() == j,
                    forall|i: int|
                        0 <= i < j ==> {
                            &&& #[trigger] row@[i] == spd_row(self@, d as int, i)
                            &&& row@[i] < age@.len()
                        },
                decreases years.len() - j,
            {
                let offset: i64 = start as i64 - years[j] as i64;
                row.push(offset as usize);
                j = j + 1;
            }
            rows.push(row);
            d = d + 1;
        }
        Ok(Spd { age, rows })
    }
}

/// Every year from `start` down to `end`, ends included; no year if `end`
/// lies above `start`.
pub fn descending_years(start: i32, end: i32) -> (r: Vec<i32>)
    ensures
        r@.len() == (if end <= start {
            start - end + 1
        } else {
            0
        }),
        forall|k: int| 0 <= k < r@.len() ==> #[trigger] r@[k] == start - k,
{
    let mut out: Vec<i32> = Vec::new();
    if end > start {
        return out;
    }
    let mut year: i32 = start;
    loop
        invariant_except_break
            end <= year <= start,
            out@.len() == start - year,
            forall|k: int| 0 <= k < out@.len() ==> #[trigger] out@[k] == start - k,
        ensures
            out@.len() == start - end + 1,
            forall|k: int| 0 <= k < out@.len() ==> #[trigger] out@[k] == start - k,
        decreases year - end,
    {
        out.push(year);
        if year == end {
            break;
        }
        year = year - 1;
    }
    out
}

/// The largest and the smallest year depend on the years alone.
proof fn lemma_same_years_same_extremes(a: Seq<(i32, u64)>, b: Seq<(i32, u64)>)
    requires
        years_of(a) == years_of(b),
    ensures
        max_year(a) == max_year(b),
        min_year(a) == min_year(b),
    decreases a.len(),
{
    assert(a.len() == years_of(a).len() && b.len() == years_of(b).len());
    if a.len() > 0 {
        assert(a.last().0 == years_of(a)[a.len() - 1]);
        assert(b.last().0 == years_of(b)[b.len() - 1]);
        assert(years_of(a.drop_last()) =~= years_of(a).drop_last());
        assert(years_of(b.drop_last()) =~= years_of(b).drop_last());
        lemma_same_years_same_extremes(a.drop_last(), b.drop_last());
    }
}

} // verus!
