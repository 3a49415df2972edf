//! Sparse calibration matrices.
//!
//! For a large batch most (sample, calendar year) pairs lie below the
//! precision threshold. The sparse form keeps only the pairs that reach it, in
//! compressed column storage: one row for each sample, one column for each
//! calendar year, and under each column the rows that are stored there, in
//! increasing order. The storage pattern is kept in a matrix of the `faer`
//! crate; the density keys lie beside it, one for each stored cell.
//!
//! As everywhere in this crate, a density key is an order-preserving code of a
//! non-negative number, and sums are not formed here: a sum is given out as
//! the list of the stored cells that are its terms.

use vstd::prelude::*;
use faer::sparse::SymbolicSparseColMat;
use crate::c14date::{lemma_retained_holds, posterior, C14List};
use crate::calibration::Calibration;
use crate::error::CalibrationError;
use crate::interp::{direction, monotonic, strictly_sorted};

verus! {

/// The storage pattern of a sparse matrix, as `faer` holds it.
#[verifier::external_body]
#[derive(Debug)]
pub struct SparsePattern {
    inner: SymbolicSparseColMat<usize>,
}

/// The number of rows of the pattern.
pub uninterp spec fn pattern_nrows(p: SparsePattern) -> nat;

/// The number of columns of the pattern.
pub uninterp spec fn pattern_ncols(p: SparsePattern) -> nat;

/// The column pointers of the pattern: column `j` is stored at the positions
/// from `col_ptrs[j]` up to, and without, `col_ptrs[j + 1]`.
pub uninterp spec fn pattern_col_ptrs(p: SparsePattern) -> Seq<usize>;

/// The row index of each stored position of the pattern.
pub uninterp spec fn pattern_row_indices(p: SparsePattern) -> Seq<usize>;

/// Position `k` is one of those at which column `j` is stored.
pub open spec fn stored_in(col_ptrs: Seq<usize>, j: int, k: int) -> bool {
    0 <= j < col_ptrs.len() - 1 && col_ptrs[j] <= k < col_ptrs[j + 1]
}

/// What `faer` asks of the parts of a compressed pattern: both counts fit a
/// signed index, there is one column pointer more than columns, the column
/// pointers do not decrease and end inside the row indices, and under each
/// column the row indices do not decrease and are rows of the matrix.
pub open spec fn is_compressed(
    nrows: int,
    ncols: int,
    col_ptrs: Seq<usize>,
    row_indices: Seq<usize>,
) -> bool {
    &&& 0 <= nrows <= isize::MAX
    &&& 0 <= ncols <= isize::MAX
    &&& col_ptrs.len() == ncols + 1
    &&& forall|a: int, b: int| 0 <= a <= b <= ncols ==> col_ptrs[a] <= col_ptrs[b]
    &&& col_ptrs[ncols] <= row_indices.len()
    &&& forall|j: int, k: int, l: int|
        #![trigger stored_in(col_ptrs, j, k), stored_in(col_ptrs, j, l)]
        stored_in(col_ptrs, j, k) && stored_in(col_ptrs, j, l) && k <= l ==> row_indices[k]
            <= row_indices[l]
    &&& forall|j: int, k: int| #[trigger]
        stored_in(col_ptrs, j, k) ==> row_indices[k] < nrows
}

/// Calls `faer::sparse::SymbolicSparseColMat::new_checked`, without counts of
/// entries per column. That function panics unless its arguments are a
/// compressed pattern, which `requires` asks for; it then stores them as they
/// are, which is all that `ensures` claims.
#[verifier::external_body]
fn pattern_new_checked(
    nrows: usize,
    ncols: usize,
    col_ptrs: Vec<usize>,
    row_indices: Vec<usize>,
) -> (r: SparsePattern)
    requires
        is_compressed(nrows as int, ncols as int, col_ptrs@, row_indices@),
    ensures
        pattern_nrows(r) == nrows,
        pattern_ncols(r) == ncols,
        pattern_col_ptrs(r) == col_ptrs@,
        pattern_row_indices(r) == row_indices@,
{
    SparsePattern { inner: SymbolicSparseColMat::new_checked(nrows, ncols, col_ptrs, None, row_indices) }
}

/// Calls `faer::sparse::SymbolicSparseColMat::nrows`, which returns the
/// number of rows that the pattern was made with.
#[verifier::external_body]
fn pattern_rows(p: &SparsePattern) -> (r: usize)
    ensures
        r == pattern_nrows(*p),
{
    p.inner.nrows()
}

/// Calls `faer::sparse::SymbolicSparseColMat::ncols`, which returns the
/// number of columns that the pattern was made with.
#[verifier::external_body]
fn pattern_cols(p: &SparsePattern) -> (r: usize)
    ensures
        r == pattern_ncols(*p),
{
    p.inner.ncols()
}

/// Calls `faer::sparse::SymbolicSparseColMat::col_ptrs`, which returns the
/// column pointers that the pattern holds.
#[verifier::external_body]
fn pattern_col_ptrs_of(p: &SparsePattern) -> (r: &[usize])
    ensures
        r@ == pattern_col_ptrs(*p),
{
    p.inner.col_ptrs()
}

/// Calls `faer::sparse::SymbolicSparseColMat::row_indices`, which returns
/// the row indices that the pattern holds.
#[verifier::external_body]
fn pattern_row_indices_of(p: &SparsePattern) -> (r: &[usize])
    ensures
        r@ == pattern_row_indices(*p),
{
    p.inner.row_indices()
}

/// What a sparse calibration matrix holds.
pub struct SparseView {
    /// The number of samples.
    pub nrows: nat,
    /// The number of calendar years.
    pub ncols: nat,
    /// Column `j` is stored at the positions from `col_ptrs[j]` up to, and
    /// without, `col_ptrs[j + 1]`.
    pub col_ptrs: Seq<usize>,
    /// The sample of each stored position.
    pub row_indices: Seq<usize>,
    /// The density key of each stored position.
    pub density: Seq<u64>,
}

impl SparseView {
    /// The number of stored cells.
    pub open spec fn nnz(self) -> nat {
        self.row_indices.len()
    }

    /// The storage is well formed: the columns lie one after the other and
    /// fill the stored positions, every stored position has a density and a
    /// row of the matrix, and under each column the rows strictly increase, so
    /// that no cell is stored twice.
    pub open spec fn canonical(self) -> bool {
        &&& self.nrows <= isize::MAX
        &&& self.ncols <= isize::MAX
        &&& self.col_ptrs.len() == self.ncols + 1
        &&& self.col_ptrs[0] == 0
        &&& forall|a: int, b: int|
            0 <= a <= b <= self.ncols ==> self.col_ptrs[a] <= self.col_ptrs[b]
        &&& self.col_ptrs[self.ncols as int] == self.row_indices.len()
        &&& self.density.len() == self.row_indices.len()
        &&& forall|k: int|
            0 <= k < self.row_indices.len() ==> (#[trigger] self.row_indices[k]) < self.nrows
        &&& forall|j: int, k: int, l: int|
            #![trigger stored_in(self.col_ptrs, j, k), stored_in(self.col_ptrs, j, l)]
            stored_in(self.col_ptrs, j, k) && stored_in(self.col_ptrs, j, l) && k < l
                ==> self.row_indices[k] < self.row_indices[l]
    }

    /// The rows stored under column `j`, in storage order.
    pub open spec fn column_rows(self, j: int) -> Seq<usize> {
        self.row_indices.subrange(self.col_ptrs[j] as int, self.col_ptrs[j + 1] as int)
    }
}

/// A sparse calibration matrix: samples by calendar years, with the density
/// keys of the cells that are stored.
#[derive(Debug)]
pub struct SparseCalibrationMatrix {
    pattern: SparsePattern,
    density: Vec<u64>,
}

impl View for SparseCalibrationMatrix {
    type V = SparseView;

    closed spec fn view(&self) -> SparseView {
        SparseView {
            nrows: pattern_nrows(self.pattern),
            ncols: pattern_ncols(self.pattern),
            col_ptrs: pattern_col_ptrs(self.pattern),
            row_indices: pattern_row_indices(self.pattern),
            density: self.density@,
        }
    }
}

/// Well-formed storage is a compressed pattern in the sense of `faer`.
proof fn lemma_canonical_is_compressed(m: SparseView)
    requires
        m.canonical(),
    ensures
        is_compressed(m.nrows as int, m.ncols as int, m.col_ptrs, m.row_indices),
{
}

/// Tells whether the given parts are a well-formed sparse matrix.
fn parts_are_canonical(
    nrows: usize,
    ncols: usize,
    col_ptrs: &Vec<usize>,
    row_indices: &Vec<usize>,
    density: &Vec<u64>,
) -> (r: bool)
    ensures
        r == (SparseView {
            nrows: nrows as nat,
            ncols: ncols as nat,
            col_ptrs: col_ptrs@,
            row_indices: row_indices@,
            density: density@,
        }).canonical(),
{
    let ghost m = SparseView {
        nrows: nrows as nat,
        ncols: ncols as nat,
        col_ptrs: col_ptrs@,
        row_indices: row_indices@,
        density: density@,
    };
    let limit: usize = isize::MAX as usize;
    if nrows > limit || ncols > limit {
        return false;
    }
    if col_ptrs.len() != ncols + 1 {
        return false;
    }
    let nnz: usize = row_indices.len();
    if col_ptrs[0] != 0 || col_ptrs[ncols] != nnz || density.len() != nnz {
        return false;
    }
    let mut j: usize = 0;
    while j < ncols
        invariant
            0 <= j <= ncols,
            ncols + 1 == col_ptrs@.len(),
            nnz == row_indices@.len(),
            col_ptrs@[0] == 0,
            col_ptrs@[ncols as int] == nnz,
            m.col_ptrs == col_ptrs@,
            m.row_indices == row_indices@,
            m.nrows == nrows,
            m.ncols == ncols,
            col_ptrs@[j as int] <= nnz,
            forall|a: int, b: int| 0 <= a <= b <= j ==> col_ptrs@[a] <= col_ptrs@[b],
            forall|k: int| 0 <= k < col_ptrs@[j as int] ==> (#[trigger] row_indices@[k]) < nrows,
            forall|c: int, k: int, l: int|
                #![trigger stored_in(col_ptrs@, c, k), stored_in(col_ptrs@, c, l)]
                c < j && stored_in(col_ptrs@, c, k) && stored_in(col_ptrs@, c, l) && k < l
                    ==> row_indices@[k] < row_indices@[l],
        decreases ncols - j,
    {
        let lo: usize = col_ptrs[j];
        let hi: usize = col_ptrs[j + 1];
        if lo > hi || hi > nnz {
            return false;
        }
        let mut k: usize = lo;
        while k < hi
            invariant
                lo <= k <= hi <= nnz,
                0 <= j < ncols,
                ncols + 1 == col_ptrs@.len(),
                nnz == row_indices@.len(),
                lo == col_ptrs@[j as int],
                hi == col_ptrs@[j + 1],
                m.col_ptrs == col_ptrs@,
                m.row_indices == row_indices@,
                m.nrows == nrows,
                m.ncols == ncols,
                forall|i: int| 0 <= i < k ==> (#[trigger] row_indices@[i]) < nrows,
                forall|a: int, b: int| lo <= a < b < k ==> row_indices@[a] < row_indices@[b],
            decreases hi - k,
        {
            if row_indices[k] >= nrows {
                return false;
            }
            if k > lo && row_indices[k - 1] >= row_indices[k] {
                proof {
                    // Two neighbours under column `j` are out of order.
                    assert(stored_in(m.col_ptrs, j as int, k - 1));
                    assert(stored_in(m.col_ptrs, j as int, k as int));
                }
                return false;
            }
            k = k + 1;
        }
        j = j + 1;
    }
    true
}

impl SparseCalibrationMatrix {
    #[verifier::type_invariant]
    closed spec fn inv(&self) -> bool {
        self@.canonical()
    }

    /// Makes a sparse matrix of its parts in compressed column storage.
    ///
    /// Parts that are not well formed are refused.
    pub fn from_parts(
        nrows: usize,
        ncols: usize,
        col_ptrs: Vec<usize>,
        row_indices: Vec<usize>,
        density: Vec<u64>,
    ) -> (r: Result<SparseCalibrationMatrix, CalibrationError>)
        ensures
            match r {
                Ok(m) => {
                    &&& m@.canonical()
                    &&& m@ == (SparseView {
                        nrows: nrows as nat,
                        ncols: ncols as nat,
                        col_ptrs: col_ptrs@,
                        row_indices: row_indices@,
                        density: density@,
                    })
                },
                Err(e) => {
                    &&& e == CalibrationError::DimensionMismatch
                    &&& !(SparseView {
                        nrows: nrows as nat,
                        ncols: ncols as nat,
                        col_ptrs: col_ptrs@,
                        row_indices: row_indices@,
                        density: density@,
                    }).canonical()
                },
            },
    {
        let ghost parts = SparseView {
            nrows: nrows as nat,
            ncols: ncols as nat,
            col_ptrs: col_ptrs@,
            row_indices: row_indices@,
            density: density@,
        };
        if !parts_are_canonical(nrows, ncols, &col_ptrs, &row_indices, &density) {
            return Err(CalibrationError::DimensionMismatch);
        }
        proof {
            lemma_canonical_is_compressed(parts);
        }
        let pattern = pattern_new_checked(nrows, ncols, col_ptrs, row_indices);
        Ok(SparseCalibrationMatrix { pattern, density })
    }

    /// The number of samples.
    pub fn nrows(&self) -> (r: usize)
        ensures
            r == self@.nrows,
            self@.canonical(),
    {
        proof {
            use_type_invariant(self);
        }
        pattern_rows(&self.pattern)
    }

    /// The number of calendar years.
    pub fn ncols(&self) -> (r: usize)
        ensures
            r == self@.ncols,
            self@.canonical(),
    {
        proof {
            use_type_invariant(self);
        }
        pattern_cols(&self.pattern)
    }

    /// The column pointers.
    pub fn col_ptrs(&self) -> (r: &[usize])
        ensures
            r@ == self@.col_ptrs,
            self@.canonical(),
    {
        proof {
            use_type_invariant(self);
        }
        pattern_col_ptrs_of(&self.pattern)
    }

    /// The sample of each stored position.
    pub fn row_indices(&self) -> (r: &[usize])
        ensures
            r@ == self@.row_indices,
            self@.canonical(),
    {
        proof {
            use_type_invariant(self);
        }
        pattern_row_indices_of(&self.pattern)
    }

    /// The density key of each stored position.
    pub fn density(&self) -> (r: &Vec<u64>)
        ensures
            r@ == self@.density,
            self@.canonical(),
    {
        proof {
            use_type_invariant(self);
        }
        &self.density
    }
}

/// The positions among the first `n` of `s` at which `target` stands, in
/// increasing order.
pub open spec fn positions_of(s: Seq<usize>, target: int, n: nat) -> Seq<usize>
    decreases n,
{
    if n == 0 {
        Seq::empty()
    } else {
        let rest = positions_of(s, target, (n - 1) as nat);
        if s[n - 1] == target {
            rest.push((n - 1) as usize)
        } else {
            rest
        }
    }
}

/// The positions from `lo` up to, and without, `hi`, in increasing order.
pub open spec fn span(lo: int, hi: int) -> Seq<usize> {
    Seq::new((hi - lo) as nat, |t: int| (lo + t) as usize)
}

/// Row `i` has a stored density that is not zero.
pub open spec fn row_has_mass(m: SparseView, i: int) -> bool {
    exists|k: int| 0 <= k < m.nnz() && #[trigger] m.row_indices[k] == i && m.density[k] != 0
}

/// Sums over the rows and the columns of a sparse matrix.
///
/// A sum is returned as the list of its terms: the stored positions whose
/// values are to be added, in the order in which they are stored.
pub trait SparseSums {
    /// The sum of each column.
    fn col_sums(&self) -> Vec<Vec<usize>>;

    /// The sum of each row.
    fn row_sums(&self) -> Vec<Vec<usize>>;
}

impl SparseSums for SparseCalibrationMatrix {
    /// The terms of column `j` are the positions at which the column is
    /// stored.
    fn col_sums(&self) -> (r: Vec<Vec<usize>>)
        ensures
            r@.len() == self@.ncols,
            forall|j: int|
                0 <= j < self@.ncols ==> (#[trigger] r@[j])@ == span(
                    self@.col_ptrs[j] as int,
                    self@.col_ptrs[j + 1] as int,
                ),
    {
        let ncols: usize = self.ncols();
        let col_ptrs: &[usize] = self.col_ptrs();
        let mut out: Vec<Vec<usize>> = Vec::new();
        let mut j: usize = 0;
        while j < ncols
            invariant
                0 <= j <= ncols,
                ncols == self@.ncols,
                col_ptrs@ == self@.col_ptrs,
                self@.canonical(),
                out@.len() == j,
                forall|c: int|
                    0 <= c < j ==> (#[trigger] out@[c])@ == span(
                        col_ptrs@[c] as int,
                        col_ptrs@[c + 1] as int,
                    ),
            decreases ncols - j,
        {
            let lo: usize = col_ptrs[j];
            let hi: usize = col_ptrs[j + 1];
            let mut terms: Vec<usize> = Vec::new();
            let mut k: usize = lo;
            while k < hi
                invariant
                    lo <= k <= hi,
                    terms@ == span(lo as int, k as int),
                decreases hi - k,
            {
                terms.push(k);
                k = k + 1;
            }
            out.push(terms);
            j = j + 1;
        }
        out
    }

    /// The terms of row `i` are the stored positions that lie in row `i`.
    fn row_sums(&self) -> (r: Vec<Vec<usize>>)
        ensures
            r@.len() == self@.nrows,
            forall|i: int|
                0 <= i < self@.nrows ==> (#[trigger] r@[i])@ == positions_of(
                    self@.row_indices,
                    i,
                    self@.nnz(),
                ),
    {
        let nrows: usize = self.nrows();
        let row_indices: &[usize] = self.row_indices();
        let mut out: Vec<Vec<usize>> = Vec::new();
        let mut i: usize = 0;
        while i < nrows
            invariant
                0 <= i <= nrows,
                out@.len() == i,
                forall|c: int| 0 <= c < i ==> (#[trigger] out@[c])@ == Seq::<usize>::empty(),
            decreases nrows - i,
        {
            out.push(Vec::new());
            i = i + 1;
        }
        let nnz: usize = row_indices.len();
        let mut k: usize = 0;
        while k < nnz
            invariant
                0 <= k <= nnz,
                nnz == row_indices@.len(),
                nrows == self@.nrows,
                row_indices@ == self@.row_indices,
                self@.canonical(),
                out@.len() == nrows,
                forall|c: int|
                    0 <= c < nrows ==> (#[trigger] out@[c])@ == positions_of(
                        row_indices@,
                        c,
                        k as nat,
                    ),
            decreases nnz - k,
        {
            let row: usize = row_indices[k];
            out[row].push(k);
            k = k + 1;
        }
        out
    }
}

impl SparseCalibrationMatrix {
    /// Tells whether every row can be rescaled to sum to one, which takes a
    /// stored density that is not zero in every row.
    pub fn check_normalizable(&self) -> (r: Result<(), CalibrationError>)
        ensures
            match r {
                Ok(_) => forall|i: int| 0 <= i < self@.nrows ==> row_has_mass(self@, i),
                Err(e) => {
                    &&& e == CalibrationError::DegenerateNormalization
                    &&& exists|i: int| 0 <= i < self@.nrows && !row_has_mass(self@, i)
                },
            },
    {
        let nrows: usize = self.nrows();
        let row_indices: &[usize] = self.row_indices();
        let density: &Vec<u64> = self.density();
        let mut massive: Vec<bool> = Vec::new();
        let mut i: usize = 0;
        while i < nrows
            invariant
                0 <= i <= nrows,
                massive@.len() == i,
                forall|c: int| 0 <= c < i ==> !(#[trigger] massive@[c]),
            decreases nrows - i,
        {
            massive.push(false);
            i = i + 1;
        }
        let nnz: usize = row_indices.len();
        let mut k: usize = 0;
        while k < nnz
            invariant
                0 <= k <= nnz,
                nnz == row_indices@.len(),
                nrows == self@.nrows,
                row_indices@ == self@.row_indices,
                density@ == self@.density,
                self@.canonical(),
                massive@.len() == nrows,
                forall|c: int|
                    0 <= c < nrows ==> (#[trigger] massive@[c] <==> exists|l: int|
                        0 <= l < k && #[trigger] row_indices@[l] == c && density@[l] != 0),
            decreases nnz - k,
        {
            let row: usize = row_indices[k];
            if density[k] != 0 {
                massive.set(row, true);
            }
            k = k + 1;
        }
        let mut i: usize = 0;
        while i < nrows
            invariant
                0 <= i <= nrows,
                nrows == self@.nrows,
                nnz == self@.nnz(),
                row_indices@ == self@.row_indices,
                density@ == self@.density,
                massive@.len() == nrows,
                forall|c: int|
                    0 <= c < nrows ==> (#[trigger] massive@[c] <==> exists|l: int|
                        0 <= l < nnz && #[trigger] row_indices@[l] == c && density@[l] != 0),
                forall|c: int| 0 <= c < i ==> row_has_mass(self@, c),
            decreases nrows - i,
        {
            if !massive[i] {
                assert(!row_has_mass(self@, i as int));
                return Err(CalibrationError::DegenerateNormalization);
            }
            i = i + 1;
        }
        Ok(())
    }
}

/// The samples among the first `n` whose density at calendar year `j` is
/// `precision` at least, in increasing order.
pub open spec fn kept_rows(densities: Seq<Vec<u64>>, j: int, precision: u64, n: nat) -> Seq<usize>
    decreases n,
{
    if n == 0 {
        Seq::empty()
    } else {
        let rest = kept_rows(densities, j, precision, (n - 1) as nat);
        if densities[n - 1]@[j] >= precision {
            rest.push((n - 1) as usize)
        } else {
            rest
        }
    }
}

/// Which error `sparse_calibrate` returns, if any: an unusable curve is
/// reported first, then densities that are not one row for each date and one
/// entry for each year of the curve (or more of either than a matrix can
/// have).
pub open spec fn sparse_error(dates: int, age: Seq<i32>, densities: Seq<Vec<u64>>) -> Option<
    CalibrationError,
> {
    if !monotonic(age) {
        Some(CalibrationError::InvalidCurve)
    } else if densities.len() != dates || dates > isize::MAX || age.len() > isize::MAX || exists|
        i: int,
    |
        0 <= i < densities.len() && (#[trigger] densities[i])@.len() != age.len() {
        Some(CalibrationError::DimensionMismatch)
    } else {
        None
    }
}

/// Calibrates a batch into a sparse matrix, with one row for each date and
/// one column for each year of the curve; `densities[i]` holds the densities
/// of date `i`, one for each year.
///
/// A cell is stored exactly when its density is `precision` at least, and
/// then with that density.
pub fn sparse_calibrate(
    dates: &C14List,
    calibration: &Calibration,
    densities: &Vec<Vec<u64>>,
    precision: u64,
) -> (r: Result<SparseCalibrationMatrix, CalibrationError>)
    ensures
        match r {
            Ok(m) => {
                &&& sparse_error(dates.dates@.len() as int, calibration.age@, densities@) is None
                &&& m@.canonical()
                &&& m@.nrows == dates.dates@.len()
                &&& m@.ncols == calibration.age@.len()
                &&& forall|j: int|
                    0 <= j < m@.ncols ==> m@.column_rows(j) == #[trigger] kept_rows(
                        densities@,
                        j,
                        precision,
                        m@.nrows,
                    )
                &&& forall|j: int, k: int| #[trigger]
                    stored_in(m@.col_ptrs, j, k) ==> m@.density[k]
                        == densities@[m@.row_indices[k] as int]@[j]
            },
            Err(e) => sparse_error(dates.dates@.len() as int, calibration.age@, densities@)
                == Some(e),
        },
{
    match direction(&calibration.age) {
        Ok(_) => {},
        Err(e) => {
            return Err(e);
        },
    }
    let nrows: usize = dates.dates.len();
    let ncols: usize = calibration.age.len();
    let limit: usize = isize::MAX as usize;
    if densities.len() != nrows || nrows > limit || ncols > limit {
        return Err(CalibrationError::DimensionMismatch);
    }
    let mut i: usize = 0;
    while i < nrows
        invariant
            0 <= i <= nrows,
            nrows == densities@.len(),
            ncols == calibration.age@.len(),
            monotonic(calibration.age@),
            forall|c: int| 0 <= c < i ==> (#[trigger] densities@[c])@.len() == ncols,
        decreases nrows - i,
    {
        if densities[i].len() != ncols {
            return Err(CalibrationError::DimensionMismatch);
        }
        i = i + 1;
    }
    let mut col_ptrs: Vec<usize> = Vec::new();
    let mut row_indices: Vec<usize> = Vec::new();
    let mut values: Vec<u64> = Vec::new();
    col_ptrs.push(0);
    let mut j: usize = 0;
    while j < ncols
        invariant
            0 <= j <= ncols,
            nrows == densities@.len(),
            forall|c: int| 0 <= c < nrows ==> (#[trigger] densities@[c])@.len() == ncols,
            col_ptrs@.len() == j + 1,
            col_ptrs@[0] == 0,
            col_ptrs@[j as int] == row_indices@.len(),
            values@.len() == row_indices@.len(),
            forall|a: int, b: int| 0 <= a <= b <= j ==> col_ptrs@[a] <= col_ptrs@[b],
            forall|k: int| 0 <= k < row_indices@.len() ==> (#[trigger] row_indices@[k]) < nrows,
            forall|c: int, k: int, l: int|
                #![trigger stored_in(col_ptrs@, c, k), stored_in(col_ptrs@, c, l)]
                stored_in(col_ptrs@, c, k) && stored_in(col_ptrs@, c, l) && k < l
                    ==> row_indices@[k] < row_indices@[l],
            forall|c: int, k: int| #[trigger]
                stored_in(col_ptrs@, c, k) ==> values@[k] == densities@[row_indices@[k] as int]@[c],
            forall|c: int|
                0 <= c < j ==> row_indices@.subrange(col_ptrs@[c] as int, col_ptrs@[c + 1] as int)
                    == #[trigger] kept_rows(densities@, c, precision, nrows as nat),
        decreases ncols - j,
    {
        let lo: usize = row_indices.len();
        let ghost done_rows = row_indices@;
        let ghost done_values = values@;
        let mut i: usize = 0;
        while i < nrows
            invariant
                0 <= i <= nrows,
                0 <= j < ncols,
                nrows == densities@.len(),
                forall|c: int| 0 <= c < nrows ==> (#[trigger] densities@[c])@.len() == ncols,
                lo == done_rows.len(),
                lo == done_values.len(),
                lo <= row_indices@.len(),
                values@.len() == row_indices@.len(),
                row_indices@.take(lo as int) == done_rows,
                values@.take(lo as int) == done_values,
                row_indices@.subrange(lo as int, row_indices@.len() as int) == kept_rows(
                    densities@,
                    j as int,
                    precision,
                    i as nat,
                ),
                forall|k: int|
                    lo <= k < row_indices@.len() ==> (#[trigger] row_indices@[k]) < i && values@[k]
                        == densities@[row_indices@[k] as int]@[j as int],
                forall|k: int, l: int|
                    lo <= k < l < row_indices@.len() ==> row_indices@[k] < row_indices@[l],
            decreases nrows - i,
        {
            let value: u64 = densities[i][j];
            if value >= precision {
                row_indices.push(i);
                values.push(value);
            }
            i = i + 1;
        }
        let ghost before = col_ptrs@;
        col_ptrs.push(row_indices.len());
        proof {
            let rows = row_indices@;
            assert forall|k: int| 0 <= k < rows.len() implies (#[trigger] rows[k]) < nrows by {
                if k < lo {
                    assert(rows[k] == done_rows[k]);
                }
            }
            assert forall|c: int, k: int| #[trigger] stored_in(col_ptrs@, c, k) implies values@[k]
                == densities@[rows[k] as int]@[c] by {
                if c < j {
                    assert(stored_in(before, c, k));
                }
            }
            assert forall|c: int, k: int, l: int|
                #![trigger stored_in(col_ptrs@, c, k), stored_in(col_ptrs@, c, l)]
                stored_in(col_ptrs@, c, k) && stored_in(col_ptrs@, c, l) && k < l implies rows[k]
                < rows[l] by {
                if c < j {
                    assert(stored_in(before, c, k) && stored_in(before, c, l));
                }
            }
        }
        j = j + 1;
    }
    let ghost parts = SparseView {
        nrows: nrows as nat,
        ncols: ncols as nat,
        col_ptrs: col_ptrs@,
        row_indices: row_indices@,
        density: values@,
    };
    proof {
        lemma_canonical_is_compressed(parts);
    }
    let pattern = pattern_new_checked(nrows, ncols, col_ptrs, row_indices);
    Ok(SparseCalibrationMatrix { pattern, density: values })
}

/// The sum of the values at the positions `terms`, in exact arithmetic.
pub open spec fn sum_at(values: Seq<int>, terms: Seq<usize>) -> int
    decreases terms.len(),
{
    if terms.len() == 0 {
        0
    } else {
        sum_at(values, terms.drop_last()) + values[terms.last() as int]
    }
}

/// The sum of the values among the first `n` stored positions that lie in
/// row `i`, by going through the positions one by one.
pub open spec fn row_total(row_indices: Seq<usize>, values: Seq<int>, i: int, n: nat) -> int
    decreases n,
{
    if n == 0 {
        0
    } else {
        row_total(row_indices, values, i, (n - 1) as nat) + if row_indices[n - 1] == i {
            values[n - 1]
        } else {
            0
        }
    }
}

/// The sum of the values at the positions from `lo` up to, and without,
/// `hi`, by going through the positions one by one.
pub open spec fn range_total(values: Seq<int>, lo: int, hi: int) -> int
    decreases hi - lo,
{
    if hi <= lo {
        0
    } else {
        range_total(values, lo, hi - 1) + values[hi - 1]
    }
}

proof fn lemma_row_terms(row_indices: Seq<usize>, values: Seq<int>, i: int, n: nat)
    requires
        n <= usize::MAX,
    ensures
        sum_at(values, positions_of(row_indices, i, n)) == row_total(row_indices, values, i, n),
    decreases n,
{
    if n > 0 {
        lemma_row_terms(row_indices, values, i, (n - 1) as nat);
        let rest = positions_of(row_indices, i, (n - 1) as nat);
        if row_indices[n - 1] == i {
            assert(rest.push((n - 1) as usize).drop_last() =~= rest);
        }
    }
}

proof fn lemma_column_terms(values: Seq<int>, lo: int, hi: int)
    requires
        0 <= lo <= hi <= usize::MAX,
    ensures
        sum_at(values, span(lo, hi)) == range_total(values, lo, hi),
    decreases hi - lo,
{
    if lo < hi {
        lemma_column_terms(values, lo, hi - 1);
        assert(span(lo, hi).drop_last() =~= span(lo, hi - 1));
    }
}

/// The terms that `row_sums` gives for row `i` add up to the sum of the
/// values that are stored in row `i`, as direct summation over all stored
/// positions finds it.
pub proof fn lemma_row_sums_are_row_totals(
    m: SparseView,
    terms: Seq<Vec<usize>>,
    values: Seq<int>,
    i: int,
)
    requires
        m.canonical(),
        0 <= i < m.nrows,
        terms.len() == m.nrows,
        terms[i]@ == positions_of(m.row_indices, i, m.nnz()),
    ensures
        sum_at(values, terms[i]@) == row_total(m.row_indices, values, i, m.nnz()),
{
    lemma_row_terms(m.row_indices, values, i, m.nnz());
}

/// The terms that `col_sums` gives for column `j` add up to the sum of the
/// values that are stored under column `j`, as direct summation over the
/// positions of the column finds it.
pub proof fn lemma_col_sums_are_column_totals(
    m: SparseView,
    terms: Seq<Vec<usize>>,
    values: Seq<int>,
    j: int,
)
    requires
        m.canonical(),
        0 <= j < m.ncols,
        terms.len() == m.ncols,
        terms[j]@ == span(m.col_ptrs[j] as int, m.col_ptrs[j + 1] as int),
    ensures
        sum_at(values, terms[j]@) == range_total(
            values,
            m.col_ptrs[j] as int,
            m.col_ptrs[j + 1] as int,
        ),
{
    lemma_column_terms(values, m.col_ptrs[j] as int, m.col_ptrs[j + 1] as int);
}

/// The sum of the first `rows` row sums, each taken over the first `n` stored
/// positions.
pub open spec fn rows_total(row_indices: Seq<usize>, values: Seq<int>, rows: nat, n: nat) -> int
    decreases rows,
{
    if rows == 0 {
        0
    } else {
        rows_total(row_indices, values, (rows - 1) as nat, n) + row_total(
            row_indices,
            values,
            rows - 1,
            n,
        )
    }
}

/// The sum of the first `cols` column sums.
pub open spec fn cols_total(col_ptrs: Seq<usize>, values: Seq<int>, cols: nat) -> int
    decreases cols,
{
    if cols == 0 {
        0
    } else {
        cols_total(col_ptrs, values, (cols - 1) as nat) + range_total(
            values,
            col_ptrs[cols - 1] as int,
            col_ptrs[cols as int] as int,
        )
    }
}

proof fn lemma_rows_take_each_value_once(
    row_indices: Seq<usize>,
    values: Seq<int>,
    rows: nat,
    n: nat,
)
    requires
        0 < n <= row_indices.len(),
    ensures
        rows_total(row_indices, values, rows, n) == rows_total(
            row_indices,
            values,
            rows,
            (n - 1) as nat,
        ) + if row_indices[n - 1] < rows {
            values[n - 1]
        } else {
            0
        },
    decreases rows,
{
    if rows > 0 {
        lemma_rows_take_each_value_once(row_indices, values, (rows - 1) as nat, n);
    }
}

proof fn lemma_rows_add_up(row_indices: Seq<usize>, values: Seq<int>, rows: nat, n: nat)
    requires
        n <= row_indices.len(),
        forall|k: int| 0 <= k < n ==> (#[trigger] row_indices[k]) < rows,
    ensures
        rows_total(row_indices, values, rows, n) == range_total(values, 0, n as int),
    decreases n,
{
    if n == 0 {
        lemma_no_rows_no_total(row_indices, values, rows);
    } else {
        lemma_rows_add_up(row_indices, values, rows, (n - 1) as nat);
        lemma_rows_take_each_value_once(row_indices, values, rows, n);
    }
}

proof fn lemma_no_rows_no_total(row_indices: Seq<usize>, values: Seq<int>, rows: nat)
    ensures
        rows_total(row_indices, values, rows, 0) == 0,
    decreases rows,
{
    if rows > 0 {
        lemma_no_rows_no_total(row_indices, values, (rows - 1) as nat);
    }
}

proof fn lemma_ranges_join(values: Seq<int>, lo: int, mid: int, hi: int)
    requires
        lo <= mid <= hi,
    ensures
        range_total(values, lo, mid) + range_total(values, mid, hi) == range_total(values, lo, hi),
    decreases hi - mid,
{
    if mid < hi {
        lemma_ranges_join(values, lo, mid, hi - 1);
    }
}

proof fn lemma_cols_add_up(m: SparseView, values: Seq<int>, cols: nat)
    requires
        m.canonical(),
        cols <= m.ncols,
    ensures
        cols_total(m.col_ptrs, values, cols) == range_total(values, 0, m.col_ptrs[cols as int] as int),
    decreases cols,
{
    if cols > 0 {
        lemma_cols_add_up(m, values, (cols - 1) as nat);
        assert(0 <= 0 <= cols - 1 <= m.ncols && 0 <= cols - 1 <= cols <= m.ncols);
        lemma_ranges_join(
            values,
            0,
            m.col_ptrs[cols - 1] as int,
            m.col_ptrs[cols as int] as int,
        );
    }
}

/// The row sums and the column sums of a matrix add up to the same total:
/// the sum of all stored values.
pub proof fn lemma_rows_and_columns_agree(m: SparseView, values: Seq<int>)
    requires
        m.canonical(),
    ensures
        rows_total(m.row_indices, values, m.nrows, m.nnz()) == range_total(
            values,
            0,
            m.nnz() as int,
        ),
        cols_total(m.col_ptrs, values, m.ncols) == range_total(values, 0, m.nnz() as int),
{
    lemma_rows_add_up(m.row_indices, values, m.nrows, m.nnz());
    lemma_cols_add_up(m, values, m.ncols);
}

proof fn lemma_kept_rows_hold(
    densities: Seq<Vec<u64>>,
    j: int,
    precision: u64,
    n: nat,
    i: int,
)
    requires
        n <= usize::MAX,
    ensures
        kept_rows(densities, j, precision, n).contains(i as usize) && 0 <= i <= usize::MAX <==> (0
            <= i < n && densities[i]@[j] >= precision),
    decreases n,
{
    if n > 0 {
        let rest = kept_rows(densities, j, precision, (n - 1) as nat);
        lemma_kept_rows_hold(densities, j, precision, (n - 1) as nat, i);
        if densities[n - 1]@[j] >= precision {
            let all = rest.push((n - 1) as usize);
            if 0 <= i <= usize::MAX {
                if rest.contains(i as usize) {
                    let t = choose|t: int| 0 <= t < rest.len() && rest[t] == i as usize;
                    assert(all[t] == i as usize);
                }
                if i == n - 1 {
                    assert(all[rest.len() as int] == i as usize);
                }
            }
        }
    }
}

/// The sparse and the dense form of a batch agree: the matrix that
/// `sparse_calibrate` builds stores the cell of sample `i` and year `j`
/// exactly when that year, with the density of the sample there, is in the
/// posterior of date `i`; and the cell is stored with that density.
pub proof fn lemma_sparse_agrees_with_dense(
    m: SparseView,
    age: Seq<i32>,
    densities: Seq<Vec<u64>>,
    precision: u64,
    i: int,
    j: int,
)
    requires
        m.canonical(),
        strictly_sorted(age),
        m.nrows == densities.len(),
        m.ncols == age.len(),
        forall|c: int| 0 <= c < densities.len() ==> (#[trigger] densities[c])@.len() == age.len(),
        forall|c: int|
            0 <= c < m.ncols ==> m.column_rows(c) == #[trigger] kept_rows(
                densities,
                c,
                precision,
                m.nrows,
            ),
        forall|c: int, k: int| #[trigger]
            stored_in(m.col_ptrs, c, k) ==> m.density[k] == densities[m.row_indices[k] as int]@[c],
        0 <= i < m.nrows,
        0 <= j < m.ncols,
    ensures
        (exists|k: int| #[trigger] stored_in(m.col_ptrs, j, k) && m.row_indices[k] == i)
            <==> posterior(age, densities[i]@, precision).contains((age[j], densities[i]@[j])),
        forall|k: int| #[trigger]
            stored_in(m.col_ptrs, j, k) && m.row_indices[k] == i ==> m.density[k]
                == densities[i]@[j],
{
    let lo: int = m.col_ptrs[j] as int;
    let rows = kept_rows(densities, j, precision, m.nrows);
    lemma_kept_rows_hold(densities, j, precision, m.nrows, i);
    lemma_retained_holds(age, densities[i]@, precision, age.len(), j);
    if exists|k: int| #[trigger] stored_in(m.col_ptrs, j, k) && m.row_indices[k] == i {
        let k = choose|k: int| #[trigger] stored_in(m.col_ptrs, j, k) && m.row_indices[k] == i;
        assert(rows[k - lo] == m.row_indices[k]);
    }
    if rows.contains(i as usize) {
        let t = choose|t: int| 0 <= t < rows.len() && rows[t] == i as usize;
        assert(stored_in(m.col_ptrs, j, lo + t));
    }
}

} // verus!
