//! What the layout of a summed probability distribution means.
//!
//! `CalGrid::sum` gives every entry of every date a row of the summed table.
//! The table itself is formed by the caller, who adds each density to its
//! row. This module says what that table is when the additions are exact, and
//! proves of it what makes it a summed distribution: no mass is lost or
//! made, and each row holds the densities of its own year only.

use vstd::prelude::*;
use crate::caldate::{grid_end, grid_start, is_posterior, years_of};

verus! {

/// The summed table of a grid, before any density is added: its years, and
/// for each entry of each date the row that the entry's density is added to.
#[derive(Debug)]
pub struct Spd {
    /// The years of the table: every year of the grid's window, the most
    /// recent first.
    pub age: Vec<i32>,
    /// `rows[d][j]` is the row of `age` that holds the year of entry `j` of
    /// date `d`.
    pub rows: Vec<Vec<usize>>,
}

/// The row of the summed table that belongs to entry `j` of date `d`: the
/// distance of its year from the most recent year of the grid.
pub open spec fn spd_row(dates: Seq<Seq<(i32, u64)>>, d: int, j: int) -> int {
    grid_start(dates) - dates[d][j].0
}

impl Spd {
    /// This is the layout of the summed table of `dates`: the table has a row
    /// for every year from the most recent of any date down to the oldest of
    /// any date, and every entry of every date has the row of its year.
    pub open spec fn lays_out(self, dates: Seq<Seq<(i32, u64)>>) -> bool {
        &&& self.age@.len() == grid_start(dates) - grid_end(dates) + 1
        &&& forall|k: int|
            0 <= k < self.age@.len() ==> #[trigger] self.age@[k] == grid_start(dates) - k
        &&& self.rows@.len() == dates.len()
        &&& forall|d: int|
            0 <= d < dates.len() ==> (#[trigger] self.rows@[d])@.len() == dates[d].len()
        &&& forall|d: int, j: int|
            0 <= d < dates.len() && 0 <= j < dates[d].len() ==> {
                &&& #[trigger] self.rows@[d]@[j] == spd_row(dates, d, j)
                &&& self.rows@[d]@[j] < self.age@.len()
            }
    }
}

/// There is one value for each entry of each date.
pub open spec fn aligned(dates: Seq<Seq<(i32, u64)>>, values: Seq<Seq<int>>) -> bool {
    &&& values.len() == dates.len()
    &&& forall|d: int| 0 <= d < dates.len() ==> (#[trigger] values[d]).len() == dates[d].len()
}

/// The sum of the numbers of `s`.
pub open spec fn total(s: Seq<int>) -> int
    decreases s.len(),
{
    if s.len() == 0 {
        0
    } else {
        total(s.drop_last()) + s.last()
    }
}

/// The table after the first `j` entries of one date were added to `table`:
/// entry `i` adds `values[i]` to the row `rows[i]`.
pub open spec fn add_entries(table: Seq<int>, rows: Seq<usize>, values: Seq<int>, j: nat) -> Seq<
    int,
>
    decreases j,
{
    if j == 0 {
        table
    } else {
        let before = add_entries(table, rows, values, (j - 1) as nat);
        let row: int = rows[j - 1] as int;
        before.update(row, before[row] + values[j - 1])
    }
}

/// The table of `len` rows after the first `d` dates were added to it,
/// starting from zero in every row.
pub open spec fn add_dates(len: nat, rows: Seq<Vec<usize>>, values: Seq<Seq<int>>, d: nat) -> Seq<
    int,
>
    decreases d,
{
    if d == 0 {
        Seq::new(len, |k: int| 0int)
    } else {
        add_entries(
            add_dates(len, rows, values, (d - 1) as nat),
            rows[d - 1]@,
            values[d - 1],
            rows[d - 1]@.len(),
        )
    }
}

/// The summed table of a layout, in exact arithmetic.
pub open spec fn summed(len: nat, rows: Seq<Vec<usize>>, values: Seq<Seq<int>>) -> Seq<int> {
    add_dates(len, rows, values, rows.len())
}

/// The mass of the first `d` dates together.
pub open spec fn mass(values: Seq<Seq<int>>, d: nat) -> int
    decreases d,
{
    if d == 0 {
        0
    } else {
        mass(values, (d - 1) as nat) + total(values[d - 1])
    }
}

/// What the first `j` entries of one date add to the row `cell`.
pub open spec fn share(rows: Seq<usize>, values: Seq<int>, cell: int, j: nat) -> int
    decreases j,
{
    if j == 0 {
        0
    } else {
        share(rows, values, cell, (j - 1) as nat) + if rows[j - 1] == cell {
            values[j - 1]
        } else {
            0
        }
    }
}

/// The layout fits the values and the table: each date has one row for each
/// of its values, and every row is a row of the table.
pub open spec fn fits(len: nat, rows: Seq<Vec<usize>>, values: Seq<Seq<int>>) -> bool {
    &&& values.len() == rows.len()
    &&& forall|d: int| 0 <= d < rows.len() ==> (#[trigger] rows[d])@.len() == values[d].len()
    &&& forall|d: int, j: int|
        0 <= d < rows.len() && 0 <= j < rows[d]@.len() ==> (#[trigger] rows[d]@[j]) < len
}

proof fn lemma_total_update(s: Seq<int>, i: int, v: int)
    requires
        0 <= i < s.len(),
    ensures
        total(s.update(i, v)) == total(s) - s[i] + v,
    decreases s.len(),
{
    let u = s.update(i, v);
    if i == s.len() - 1 {
        assert(u.drop_last() =~= s.drop_last());
    } else {
        assert(u.drop_last() =~= s.drop_last().update(i, v));
        lemma_total_update(s.drop_last(), i, v);
    }
}

proof fn lemma_total_zero(len: nat)
    ensures
        total(Seq::new(len, |k: int| 0int)) == 0,
    decreases len,
{
    if len > 0 {
        assert(Seq::new(len, |k: int| 0int).drop_last() =~= Seq::new(
            (len - 1) as nat,
            |k: int| 0int,
        ));
        lemma_total_zero((len - 1) as nat);
    }
}

proof fn lemma_add_entries(table: Seq<int>, rows: Seq<usize>, values: Seq<int>, j: nat, cell: int)
    requires
        j <= rows.len(),
        j <= values.len(),
        forall|i: int| 0 <= i < j ==> (#[trigger] rows[i]) < table.len(),
        0 <= cell < table.len(),
    ensures
        add_entries(table, rows, values, j).len() == table.len(),
        total(add_entries(table, rows, values, j)) == total(table) + total(values.take(j as int)),
        add_entries(table, rows, values, j)[cell] == table[cell] + share(rows, values, cell, j),
    decreases j,
{
    if j > 0 {
        let before = add_entries(table, rows, values, (j - 1) as nat);
        lemma_add_entries(table, rows, values, (j - 1) as nat, cell);
        let row: int = rows[j - 1] as int;
        lemma_total_update(before, row, before[row] + values[j - 1]);
        assert(values.take(j as int).drop_last() =~= values.take(j - 1));
    }
}

proof fn lemma_add_dates_len(len: nat, rows: Seq<Vec<usize>>, values: Seq<Seq<int>>, d: nat)
    requires
        fits(len, rows, values),
        d <= rows.len(),
    ensures
        add_dates(len, rows, values, d).len() == len,
    decreases d,
{
    if d > 0 {
        lemma_add_dates_len(len, rows, values, (d - 1) as nat);
        if len > 0 {
            lemma_add_entries(
                add_dates(len, rows, values, (d - 1) as nat),
                rows[d - 1]@,
                values[d - 1],
                rows[d - 1]@.len(),
                0,
            );
        } else {
            lemma_add_nothing(
                add_dates(len, rows, values, (d - 1) as nat),
                rows[d - 1]@,
                values[d - 1],
                rows[d - 1]@.len(),
            );
        }
    }
}

proof fn lemma_add_nothing(table: Seq<int>, rows: Seq<usize>, values: Seq<int>, j: nat)
    requires
        j <= rows.len(),
        forall|i: int| 0 <= i < j ==> (#[trigger] rows[i]) < table.len(),
        table.len() == 0,
    ensures
        add_entries(table, rows, values, j) == table,
        j == 0,
{
    if j > 0 {
        // A table without rows has no row for the entry `j - 1`.
        assert(rows[j - 1] < table.len());
    }
}

proof fn lemma_mass_by_dates(len: nat, rows: Seq<Vec<usize>>, values: Seq<Seq<int>>, d: nat)
    requires
        fits(len, rows, values),
        d <= rows.len(),
    ensures
        total(add_dates(len, rows, values, d)) == mass(values, d),
    decreases d,
{
    if d == 0 {
        lemma_total_zero(len);
    } else {
        let before = add_dates(len, rows, values, (d - 1) as nat);
        lemma_mass_by_dates(len, rows, values, (d - 1) as nat);
        lemma_add_dates_len(len, rows, values, (d - 1) as nat);
        let n: nat = rows[d - 1]@.len();
        assert(values[d - 1].take(n as int) =~= values[d - 1]);
        if len > 0 {
            lemma_add_entries(before, rows[d - 1]@, values[d - 1], n, 0);
        } else {
            lemma_add_nothing(before, rows[d - 1]@, values[d - 1], n);
        }
    }
}

/// Summing conserves mass: the rows of the summed table add up to what the
/// dates add up to, whatever their windows are.
pub proof fn lemma_mass_is_conserved(
    table: Spd,
    dates: Seq<Seq<(i32, u64)>>,
    values: Seq<Seq<int>>,
)
    requires
        table.lays_out(dates),
        aligned(dates, values),
    ensures
        total(summed(table.age@.len(), table.rows@, values)) == mass(values, dates.len()),
{
    lemma_mass_by_dates(table.age@.len(), table.rows@, values, table.rows@.len());
}

/// A grid of `n` dates that each have the mass `unit` sums to a table of mass
/// `n * unit`.
pub proof fn lemma_mass_of_normalized(
    table: Spd,
    dates: Seq<Seq<(i32, u64)>>,
    values: Seq<Seq<int>>,
    unit: int,
)
    requires
        table.lays_out(dates),
        aligned(dates, values),
        forall|d: int| 0 <= d < values.len() ==> total(#[trigger] values[d]) == unit,
    ensures
        total(summed(table.age@.len(), table.rows@, values)) == dates.len() * unit,
{
    lemma_mass_is_conserved(table, dates, values);
    lemma_mass_of_units(values, dates.len(), unit);
}

proof fn lemma_mass_of_units(values: Seq<Seq<int>>, d: nat, unit: int)
    requires
        d <= values.len(),
        forall|c: int| 0 <= c < values.len() ==> total(#[trigger] values[c]) == unit,
    ensures
        mass(values, d) == d * unit,
    decreases d,
{
    if d > 0 {
        lemma_mass_of_units(values, (d - 1) as nat, unit);
        assert((d - 1) * unit + unit == d * unit) by (nonlinear_arith);
    } else {
        assert(0 * unit == 0) by (nonlinear_arith);
    }
}

proof fn lemma_share_without(rows: Seq<usize>, values: Seq<int>, cell: int, j: nat)
    requires
        forall|i: int| 0 <= i < j ==> #[trigger] rows[i] != cell,
    ensures
        share(rows, values, cell, j) == 0,
    decreases j,
{
    if j > 0 {
        lemma_share_without(rows, values, cell, (j - 1) as nat);
    }
}

proof fn lemma_share_single(rows: Seq<usize>, values: Seq<int>, cell: int, j: nat, at: int)
    requires
        0 <= at < j,
        rows[at] == cell,
        forall|i: int| 0 <= i < j && i != at ==> #[trigger] rows[i] != cell,
    ensures
        share(rows, values, cell, j) == values[at],
    decreases j,
{
    if at == j - 1 {
        lemma_share_without(rows, values, cell, (j - 1) as nat);
    } else {
        lemma_share_single(rows, values, cell, (j - 1) as nat, at);
    }
}

proof fn lemma_cell_uncovered(
    len: nat,
    rows: Seq<Vec<usize>>,
    values: Seq<Seq<int>>,
    cell: int,
    d: nat,
)
    requires
        fits(len, rows, values),
        d <= rows.len(),
        0 <= cell < len,
        forall|c: int, j: int|
            0 <= c < d && 0 <= j < rows[c]@.len() ==> (#[trigger] rows[c]@[j]) != cell,
    ensures
        add_dates(len, rows, values, d)[cell] == 0,
    decreases d,
{
    if d > 0 {
        let before = add_dates(len, rows, values, (d - 1) as nat);
        lemma_cell_uncovered(len, rows, values, cell, (d - 1) as nat);
        lemma_add_dates_len(len, rows, values, (d - 1) as nat);
        lemma_add_entries(before, rows[d - 1]@, values[d - 1], rows[d - 1]@.len(), cell);
        lemma_share_without(rows[d - 1]@, values[d - 1], cell, rows[d - 1]@.len());
    }
}

/// A year of the summed table that no date holds has no mass.
pub proof fn lemma_uncovered_year_has_no_mass(
    table: Spd,
    dates: Seq<Seq<(i32, u64)>>,
    values: Seq<Seq<int>>,
    cell: int,
)
    requires
        table.lays_out(dates),
        aligned(dates, values),
        0 <= cell < table.age@.len(),
        forall|d: int, j: int|
            0 <= d < dates.len() && 0 <= j < dates[d].len() ==> (#[trigger] dates[d][j]).0
                != table.age@[cell],
    ensures
        summed(table.age@.len(), table.rows@, values)[cell] == 0,
{
    // A row is the row of its year, so no entry has the row `cell`.
    lemma_cell_uncovered(table.age@.len(), table.rows@, values, cell, table.rows@.len());
}

proof fn lemma_cell_covered_once(
    len: nat,
    rows: Seq<Vec<usize>>,
    values: Seq<Seq<int>>,
    cell: int,
    date: int,
    entry: int,
    d: nat,
)
    requires
        fits(len, rows, values),
        d <= rows.len(),
        0 <= cell < len,
        0 <= date < d,
        0 <= entry < rows[date]@.len(),
        rows[date]@[entry] == cell,
        forall|c: int, j: int|
            0 <= c < d && 0 <= j < rows[c]@.len() && !(c == date && j == entry) ==> (
            #[trigger] rows[c]@[j]) != cell,
    ensures
        add_dates(len, rows, values, d)[cell] == values[date][entry],
    decreases d,
{
    let before = add_dates(len, rows, values, (d - 1) as nat);
    lemma_add_dates_len(len, rows, values, (d - 1) as nat);
    lemma_add_entries(before, rows[d - 1]@, values[d - 1], rows[d - 1]@.len(), cell);
    if date == d - 1 {
        lemma_cell_uncovered(len, rows, values, cell, (d - 1) as nat);
        lemma_share_single(rows[d - 1]@, values[d - 1], cell, rows[d - 1]@.len(), entry);
    } else {
        lemma_cell_covered_once(len, rows, values, cell, date, entry, (d - 1) as nat);
        lemma_share_without(rows[d - 1]@, values[d - 1], cell, rows[d - 1]@.len());
    }
}

/// A year of the summed table that exactly one date holds has the density
/// which that date has there.
pub proof fn lemma_year_of_one_date_keeps_its_density(
    table: Spd,
    dates: Seq<Seq<(i32, u64)>>,
    values: Seq<Seq<int>>,
    cell: int,
    date: int,
    entry: int,
)
    requires
        table.lays_out(dates),
        aligned(dates, values),
        0 <= cell < table.age@.len(),
        0 <= date < dates.len(),
        0 <= entry < dates[date].len(),
        is_posterior(dates[date]),
        dates[date][entry].0 == table.age@[cell],
        forall|d: int, j: int|
            0 <= d < dates.len() && d != date && 0 <= j < dates[d].len() ==> (
            #[trigger] dates[d][j]).0 != table.age@[cell],
    ensures
        summed(table.age@.len(), table.rows@, values)[cell] == values[date][entry],
{
    let rows = table.rows@;
    assert forall|d: int, j: int|
        0 <= d < rows.len() && 0 <= j < rows[d]@.len() && !(d == date && j == entry) implies (
    #[trigger] rows[d]@[j]) != cell by {
        if d == date {
            // The years of one date are distinct.
            let years = years_of(dates[date]);
            if j < entry {
                assert(years[j] != years[entry]);
            } else {
                assert(years[entry] != years[j]);
            }
        }
    }
    lemma_cell_covered_once(table.age@.len(), rows, values, cell, date, entry, rows.len());
}

} // verus!
