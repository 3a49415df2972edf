use faer::sparse::SparseColMat;
use faer::Mat;
use rscarbon::c14date::{C14Date, C14List};
use rscarbon::calibration::Calibration;
use rscarbon::error::CalibrationError;
use rscarbon::mat_utils::{sparse_calibrate, SparseCalibrationMatrix, SparseSums};

fn key(density: f64) -> u64 {
    assert!(density >= 0.0);
    density.to_bits()
}

/// The library's form of a matrix of `faer`.
fn stored(matrix: &SparseColMat<usize, f64>) -> SparseCalibrationMatrix {
    let m = matrix.as_ref();
    SparseCalibrationMatrix::from_parts(
        m.nrows(),
        m.ncols(),
        m.col_ptrs().to_vec(),
        m.row_indices().to_vec(),
        m.values().iter().map(|&v| key(v)).collect(),
    )
    .unwrap()
}

/// Adds the values of each sum's terms, in their order.
fn added(terms: &[Vec<usize>], values: &[f64]) -> Vec<f64> {
    terms.iter().map(|t| t.iter().fold(0.0, |acc, &k| acc + values[k])).collect()
}

fn row_sums(matrix: &SparseColMat<usize, f64>) -> Vec<f64> {
    added(&stored(matrix).row_sums(), matrix.as_ref().values())
}

fn col_sums(matrix: &SparseColMat<usize, f64>) -> Vec<f64> {
    added(&stored(matrix).col_sums(), matrix.as_ref().values())
}

#[test]
fn test_sparse_rowsums() {
    let id5: Mat<f64> = Mat::identity(4, 8);
    let sparse_id5 = SparseColMat::<usize, f64>::try_new_from_triplets(
        id5.nrows(),
        id5.ncols(),
        &[(0, 0, 1.), (1, 1, 1.), (2, 2, 1.), (3, 3, 1.)],
    )
    .unwrap();
    assert_eq!(row_sums(&sparse_id5), vec![1., 1., 1., 1.]);
    assert_eq!(col_sums(&sparse_id5), vec![1., 1., 1., 1., 0., 0., 0., 0.]);
}

#[test]
fn sums_agree_with_direct_summation() {
    let triplets = [
        (2, 0, 0.5),
        (0, 0, 1.5),
        (1, 3, 2.0),
        (2, 3, 4.0),
        (0, 4, 8.0),
        (2, 4, 16.0),
        (1, 1, 0.25),
    ];
    let matrix = SparseColMat::<usize, f64>::try_new_from_triplets(3, 5, &triplets).unwrap();
    let mut by_row = vec![0.0; 3];
    let mut by_col = vec![0.0; 5];
    for &(i, j, v) in triplets.iter() {
        by_row[i] += v;
        by_col[j] += v;
    }
    assert_eq!(row_sums(&matrix), by_row);
    assert_eq!(col_sums(&matrix), by_col);
    assert_eq!(row_sums(&matrix), vec![9.5, 2.25, 20.5]);
    assert_eq!(col_sums(&matrix), vec![2.0, 0.25, 0.0, 6.0, 24.0]);
    let all: f64 = triplets.iter().map(|t| t.2).sum();
    assert_eq!(row_sums(&matrix).iter().sum::<f64>(), all);
    assert_eq!(col_sums(&matrix).iter().sum::<f64>(), all);

    let m = stored(&matrix);
    assert_eq!(m.col_ptrs(), &[0, 2, 3, 3, 5, 7]);
    assert_eq!(m.row_indices(), &[0, 2, 1, 1, 2, 0, 2]);
    assert_eq!(m.row_sums(), vec![vec![0, 5], vec![2, 3], vec![1, 4, 6]]);
    assert_eq!(m.col_sums(), vec![vec![0, 1], vec![2], vec![], vec![3, 4], vec![5, 6]]);
}

#[test]
fn matrix_gives_back_its_parts() {
    let m = SparseCalibrationMatrix::from_parts(
        3,
        2,
        vec![0, 2, 3],
        vec![0, 2, 1],
        vec![7, 8, 9],
    )
    .unwrap();
    assert_eq!(m.nrows(), 3);
    assert_eq!(m.ncols(), 2);
    assert_eq!(m.col_ptrs(), &[0, 2, 3]);
    assert_eq!(m.row_indices(), &[0, 2, 1]);
    assert_eq!(m.density(), &vec![7, 8, 9]);
    let empty = SparseCalibrationMatrix::from_parts(0, 0, vec![0], vec![], vec![]).unwrap();
    assert_eq!((empty.nrows(), empty.ncols()), (0, 0));
    assert_eq!(empty.row_sums(), Vec::<Vec<usize>>::new());
    assert_eq!(empty.col_sums(), Vec::<Vec<usize>>::new());
}

#[test]
fn ill_formed_parts_are_refused() {
    let refused = |nrows, ncols, col_ptrs: Vec<usize>, rows: Vec<usize>, density: Vec<u64>| {
        SparseCalibrationMatrix::from_parts(nrows, ncols, col_ptrs, rows, density).unwrap_err()
            == CalibrationError::DimensionMismatch
    };
    // too few column pointers
    assert!(refused(3, 2, vec![0, 3], vec![0, 2, 1], vec![7, 8, 9]));
    // the first column does not start at the first position
    assert!(refused(3, 2, vec![1, 2, 3], vec![0, 2, 1], vec![7, 8, 9]));
    // column pointers that decrease
    assert!(refused(3, 2, vec![0, 4, 3], vec![0, 2, 1], vec![7, 8, 9]));
    assert!(refused(3, 3, vec![0, 2, 1, 3], vec![0, 2, 1], vec![7, 8, 9]));
    // positions beyond the last column
    assert!(refused(3, 2, vec![0, 2, 2], vec![0, 2, 1], vec![7, 8, 9]));
    // a density too few
    assert!(refused(3, 2, vec![0, 2, 3], vec![0, 2, 1], vec![7, 8]));
    // a row that the matrix does not have
    assert!(refused(3, 2, vec![0, 2, 3], vec![0, 3, 1], vec![7, 8, 9]));
    // rows of a column out of order, and a cell stored twice
    assert!(refused(3, 2, vec![0, 2, 3], vec![2, 0, 1], vec![7, 8, 9]));
    assert!(refused(3, 2, vec![0, 2, 3], vec![1, 1, 1], vec![7, 8, 9]));
    // more rows than a matrix can have
    assert!(refused(usize::MAX, 0, vec![0], vec![], vec![]));
    assert!(refused(0, usize::MAX, vec![0], vec![], vec![]));
}

#[test]
fn batch_is_calibrated_into_a_sparse_matrix() {
    let curve = Calibration::new(String::from("c"), vec![40, 30, 20, 10]);
    let list = C14List::new(vec![C14Date::new(1, 1), C14Date::new(2, 1), C14Date::new(3, 1)]);
    let densities = vec![vec![5, 0, 9, 1], vec![0, 0, 4, 7], vec![6, 3, 5, 2]];
    let m = sparse_calibrate(&list, &curve, &densities, 4).unwrap();
    assert_eq!((m.nrows(), m.ncols()), (3, 4));
    assert_eq!(m.col_ptrs(), &[0, 2, 2, 5, 6]);
    assert_eq!(m.row_indices(), &[0, 2, 0, 1, 2, 1]);
    assert_eq!(m.density(), &vec![5, 6, 9, 4, 5, 7]);
    assert_eq!(m.row_sums(), vec![vec![0, 2], vec![3, 5], vec![1, 4]]);
    assert_eq!(m.col_sums(), vec![vec![0, 1], vec![], vec![2, 3, 4], vec![5]]);
    assert_eq!(m.check_normalizable(), Ok(()));

    // The same cells as the dense path keeps.
    let outcomes = list.calibrate(&curve, &densities, 4).unwrap();
    for (i, outcome) in outcomes.iter().enumerate() {
        let date = outcome.as_ref().unwrap();
        let mut cells: Vec<(i32, u64)> = Vec::new();
        for j in 0..m.ncols() {
            for k in m.col_ptrs()[j]..m.col_ptrs()[j + 1] {
                if m.row_indices()[k] == i {
                    cells.push((curve.age[j], m.density()[k]));
                }
            }
        }
        let kept: Vec<(i32, u64)> =
            date.years().iter().copied().zip(date.density().iter().copied()).collect();
        assert_eq!(cells, kept);
    }

    // What faer builds of the same triplets has the same storage.
    let mut triplets: Vec<(usize, usize, f64)> = Vec::new();
    for (i, row) in densities.iter().enumerate() {
        for (j, &d) in row.iter().enumerate() {
            if d >= 4 {
                triplets.push((i, j, d as f64));
            }
        }
    }
    let matrix = SparseColMat::<usize, f64>::try_new_from_triplets(3, 4, &triplets).unwrap();
    assert_eq!(matrix.as_ref().col_ptrs(), m.col_ptrs());
    assert_eq!(matrix.as_ref().row_indices(), m.row_indices());
    let values: Vec<f64> = m.density().iter().map(|&d| d as f64).collect();
    assert_eq!(matrix.as_ref().values(), &values[..]);
    assert_eq!(added(&m.row_sums(), &values), vec![14.0, 11.0, 11.0]);
    assert_eq!(added(&m.col_sums(), &values), vec![11.0, 0.0, 18.0, 7.0]);
}

#[test]
fn sparse_matrix_keeps_everything_at_threshold_zero() {
    let curve = Calibration::new(String::from("c"), vec![1, 2]);
    let list = C14List::new(vec![C14Date::new(1, 1), C14Date::new(2, 1)]);
    let m = sparse_calibrate(&list, &curve, &vec![vec![0, 3], vec![4, 0]], 0).unwrap();
    assert_eq!(m.col_ptrs(), &[0, 2, 4]);
    assert_eq!(m.row_indices(), &[0, 1, 0, 1]);
    assert_eq!(m.density(), &vec![0, 4, 3, 0]);
    assert_eq!(m.check_normalizable(), Ok(()));
    let none = sparse_calibrate(&list, &curve, &vec![vec![0, 3], vec![4, 0]], 5).unwrap();
    assert_eq!(none.col_ptrs(), &[0, 0, 0]);
    assert_eq!(none.row_indices(), &[] as &[usize]);
    assert_eq!(none.row_sums(), vec![Vec::<usize>::new(), Vec::<usize>::new()]);
}

#[test]
fn row_without_mass_cannot_be_rescaled() {
    let curve = Calibration::new(String::from("c"), vec![3, 2, 1]);
    let list = C14List::new(vec![C14Date::new(1, 1), C14Date::new(2, 1)]);
    let m = sparse_calibrate(&list, &curve, &vec![vec![5, 6, 7], vec![1, 2, 3]], 4).unwrap();
    assert_eq!(m.row_sums(), vec![vec![0, 1, 2], vec![]]);
    assert_eq!(m.check_normalizable(), Err(CalibrationError::DegenerateNormalization));
    let zeros = sparse_calibrate(&list, &curve, &vec![vec![5, 6, 7], vec![0, 0, 0]], 0).unwrap();
    assert_eq!(zeros.row_sums(), vec![vec![0, 2, 4], vec![1, 3, 5]]);
    assert_eq!(zeros.check_normalizable(), Err(CalibrationError::DegenerateNormalization));
    let fine = sparse_calibrate(&list, &curve, &vec![vec![5, 6, 7], vec![0, 0, 1]], 0).unwrap();
    assert_eq!(fine.check_normalizable(), Ok(()));
    let nobody = SparseCalibrationMatrix::from_parts(0, 2, vec![0, 0, 0], vec![], vec![]).unwrap();
    assert_eq!(nobody.check_normalizable(), Ok(()));
}

#[test]
fn sparse_calibration_checks_its_input() {
    let list = C14List::new(vec![C14Date::new(1, 1), C14Date::new(2, 1)]);
    let curve = Calibration::new(String::from("c"), vec![3, 2, 1]);
    let broken = Calibration::new(String::from("c"), vec![3, 3, 1]);
    let densities = vec![vec![5, 6, 7], vec![1, 2, 3]];
    assert_eq!(
        sparse_calibrate(&list, &broken, &densities, 0).unwrap_err(),
        CalibrationError::InvalidCurve
    );
    assert_eq!(
        sparse_calibrate(&list, &broken, &vec![], 0).unwrap_err(),
        CalibrationError::InvalidCurve
    );
    assert_eq!(
        sparse_calibrate(&list, &curve, &vec![vec![5, 6, 7]], 0).unwrap_err(),
        CalibrationError::DimensionMismatch
    );
    assert_eq!(
        sparse_calibrate(&list, &curve, &vec![vec![5, 6, 7], vec![1, 2]], 0).unwrap_err(),
        CalibrationError::DimensionMismatch
    );
    assert_eq!(
        sparse_calibrate(&list, &curve, &vec![vec![5, 6, 7, 8], vec![1, 2, 3]], 0).unwrap_err(),
        CalibrationError::DimensionMismatch
    );
    let nobody = C14List::new(vec![]);
    let m = sparse_calibrate(&nobody, &curve, &vec![], 0).unwrap();
    assert_eq!((m.nrows(), m.ncols()), (0, 3));
    assert_eq!(m.col_ptrs(), &[0, 0, 0, 0]);
}
