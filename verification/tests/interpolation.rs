use rscarbon::calibration::Calibration;
use rscarbon::error::CalibrationError;
use rscarbon::interp::{direction, interpolate, locate, Direction, Lookup};

/// Reads a column of a table at one lookup, as a caller of the library does.
fn read(x: &[i32], y: &[f64], q: i32, lookup: &Lookup) -> f64 {
    match *lookup {
        Lookup::Exact { index } => y[index],
        Lookup::Between { lower, .. } => {
            let x1 = f64::from(x[lower]);
            let x2 = f64::from(x[lower + 1]);
            y[lower] + (y[lower + 1] - y[lower]) * ((f64::from(q) - x1) / (x2 - x1))
        }
    }
}

#[test]
fn curve_is_resampled_to_annual_steps() {
    let age = vec![0, 10, 20];
    let estimate = vec![100.0, 150.0, 220.0];
    let error = vec![5.0, 5.0, 8.0];
    let mut curve = Calibration::new(String::from("toy"), age.clone());
    assert_eq!(curve.validate(estimate.len(), error.len()), Ok(Direction::Ascending));
    let plan = curve.interpolate().unwrap();

    assert_eq!(curve.name, "toy");
    assert_eq!(curve.age, (0..=20).collect::<Vec<i32>>());
    assert_eq!(plan.len(), 21);
    let new_estimate: Vec<f64> = plan
        .iter()
        .zip(curve.age.iter())
        .map(|(l, &q)| read(&age, &estimate, q, l))
        .collect();
    let new_error: Vec<f64> = plan
        .iter()
        .zip(curve.age.iter())
        .map(|(l, &q)| read(&age, &error, q, l))
        .collect();
    assert_eq!(new_estimate.len(), 21);
    assert_eq!(new_estimate[5], 125.0);
    assert_eq!(new_estimate[0], 100.0);
    assert_eq!(new_estimate[20], 220.0);
    assert_eq!(new_estimate[10], 150.0);
    assert_eq!(new_estimate[15], 185.0);
    assert_eq!(new_error[0], 5.0);
    assert_eq!(new_error[7], 5.0);
    assert_eq!(new_error[15], 6.5);
    assert_eq!(new_error[20], 8.0);
}

#[test]
fn annual_plan_names_keys_and_shares() {
    let mut curve = Calibration::new(String::from("toy"), vec![0, 10, 20]);
    let plan = curve.interpolate().unwrap();
    assert_eq!(plan[0], Lookup::Exact { index: 0 });
    assert_eq!(plan[5], Lookup::Between { lower: 0, numer: 5, denom: 10 });
    assert_eq!(plan[9], Lookup::Between { lower: 0, numer: 9, denom: 10 });
    assert_eq!(plan[10], Lookup::Exact { index: 1 });
    assert_eq!(plan[13], Lookup::Between { lower: 1, numer: 3, denom: 10 });
    assert_eq!(plan[20], Lookup::Exact { index: 2 });
}

#[test]
fn descending_curve_keeps_its_direction() {
    let age = vec![30, 20, 14];
    let estimate = vec![9.0, 4.0, 1.0];
    let mut curve = Calibration::new(String::from("down"), age.clone());
    assert_eq!(curve.validate(3, 3), Ok(Direction::Descending));
    let plan = curve.interpolate().unwrap();
    assert_eq!(curve.age, (14..=30).rev().collect::<Vec<i32>>());
    assert_eq!(plan.len(), 17);
    assert_eq!(plan[0], Lookup::Exact { index: 0 });
    assert_eq!(plan[4], Lookup::Between { lower: 0, numer: 4, denom: 10 });
    assert_eq!(plan[10], Lookup::Exact { index: 1 });
    assert_eq!(plan[13], Lookup::Between { lower: 1, numer: 3, denom: 6 });
    assert_eq!(plan[16], Lookup::Exact { index: 2 });
    assert_eq!(read(&age, &estimate, 26, &plan[4]), 7.0);
    assert_eq!(read(&age, &estimate, 17, &plan[13]), 2.5);
    assert_eq!(read(&age, &estimate, 14, &plan[16]), 1.0);
}

#[test]
fn annual_curve_is_left_as_it_is() {
    let mut curve = Calibration::new(String::from("annual"), vec![5, 4, 3, 2]);
    let plan = curve.interpolate().unwrap();
    assert_eq!(curve.age, vec![5, 4, 3, 2]);
    assert_eq!(
        plan,
        vec![
            Lookup::Exact { index: 0 },
            Lookup::Exact { index: 1 },
            Lookup::Exact { index: 2 },
            Lookup::Exact { index: 3 },
        ]
    );
}

#[test]
fn interpolation_is_exact_at_every_key() {
    let x = vec![-7, -1, 0, 4, 19, 20, 1000];
    let y = vec![0.1, 0.7, 1e-300, 3.3, 0.30000000000000004, 5e20, -2.5];
    let plan = interpolate(&x, y.len(), &x).unwrap();
    for i in 0..x.len() {
        assert_eq!(plan[i], Lookup::Exact { index: i });
        assert_eq!(read(&x, &y, x[i], &plan[i]).to_bits(), y[i].to_bits());
    }
    let down: Vec<i32> = x.iter().rev().copied().collect();
    let plan = interpolate(&down, y.len(), &down).unwrap();
    for i in 0..down.len() {
        assert_eq!(plan[i], Lookup::Exact { index: i });
    }
}

#[test]
fn interpolation_stays_between_the_neighbours() {
    let x = vec![0, 7, 10, 40];
    let y = vec![3.0, -2.0, -2.0, 11.5];
    let queries: Vec<i32> = (0..=40).collect();
    let plan = interpolate(&x, y.len(), &queries).unwrap();
    for (q, l) in queries.iter().zip(plan.iter()) {
        if let Lookup::Between { lower, numer, denom } = *l {
            assert!(x[lower] < *q && *q < x[lower + 1]);
            assert!(0 < numer && numer < denom);
            assert_eq!(i64::from(numer), i64::from(*q) - i64::from(x[lower]));
            assert_eq!(i64::from(denom), i64::from(x[lower + 1]) - i64::from(x[lower]));
            let v = read(&x, &y, *q, l);
            let lo = y[lower].min(y[lower + 1]);
            let hi = y[lower].max(y[lower + 1]);
            assert!(lo <= v && v <= hi);
        } else {
            assert!(x.contains(q));
        }
    }
}

#[test]
fn shares_span_the_whole_range_of_years() {
    let x = vec![i32::MIN, i32::MAX];
    let plan = interpolate(&x, 2, &vec![i32::MIN, -1, 0, i32::MAX]).unwrap();
    assert_eq!(plan[0], Lookup::Exact { index: 0 });
    assert_eq!(plan[1], Lookup::Between { lower: 0, numer: 2147483647, denom: 4294967295 });
    assert_eq!(plan[2], Lookup::Between { lower: 0, numer: 2147483648, denom: 4294967295 });
    assert_eq!(plan[3], Lookup::Exact { index: 1 });
}

#[test]
fn locate_finds_keys_in_both_directions() {
    let up = vec![1, 3, 9];
    assert_eq!(locate(&up, Direction::Ascending, 1), Some(Lookup::Exact { index: 0 }));
    assert_eq!(
        locate(&up, Direction::Ascending, 2),
        Some(Lookup::Between { lower: 0, numer: 1, denom: 2 })
    );
    assert_eq!(
        locate(&up, Direction::Ascending, 8),
        Some(Lookup::Between { lower: 1, numer: 5, denom: 6 })
    );
    assert_eq!(locate(&up, Direction::Ascending, 9), Some(Lookup::Exact { index: 2 }));
    assert_eq!(locate(&up, Direction::Ascending, 0), None);
    assert_eq!(locate(&up, Direction::Ascending, 10), None);
    let down = vec![9, 3, 1];
    assert_eq!(locate(&down, Direction::Descending, 9), Some(Lookup::Exact { index: 0 }));
    assert_eq!(
        locate(&down, Direction::Descending, 8),
        Some(Lookup::Between { lower: 0, numer: 1, denom: 6 })
    );
    assert_eq!(locate(&down, Direction::Descending, 3), Some(Lookup::Exact { index: 1 }));
    assert_eq!(
        locate(&down, Direction::Descending, 2),
        Some(Lookup::Between { lower: 1, numer: 1, denom: 2 })
    );
    assert_eq!(locate(&down, Direction::Descending, 10), None);
    assert_eq!(locate(&down, Direction::Descending, 0), None);
}

#[test]
fn direction_of_sorted_keys() {
    assert_eq!(direction(&vec![1, 2]), Ok(Direction::Ascending));
    assert_eq!(direction(&vec![2, 1]), Ok(Direction::Descending));
    assert_eq!(direction(&vec![-5, 0, 5, 6]), Ok(Direction::Ascending));
    assert_eq!(direction(&vec![]), Err(CalibrationError::InvalidCurve));
    assert_eq!(direction(&vec![4]), Err(CalibrationError::InvalidCurve));
    assert_eq!(direction(&vec![4, 4]), Err(CalibrationError::InvalidCurve));
    assert_eq!(direction(&vec![1, 2, 2]), Err(CalibrationError::InvalidCurve));
    assert_eq!(direction(&vec![1, 3, 2]), Err(CalibrationError::InvalidCurve));
    assert_eq!(direction(&vec![3, 1, 2]), Err(CalibrationError::InvalidCurve));
}

#[test]
fn query_outside_the_curve_is_refused() {
    let x = vec![0, 10, 20];
    assert_eq!(interpolate(&x, 3, &vec![5, 21]), Err(CalibrationError::OutOfRangeQuery));
    assert_eq!(interpolate(&x, 3, &vec![-1]), Err(CalibrationError::OutOfRangeQuery));
    assert_eq!(interpolate(&x, 3, &vec![]), Ok(vec![]));
}

#[test]
fn degenerate_curve_is_refused() {
    assert_eq!(interpolate(&vec![3], 1, &vec![3]), Err(CalibrationError::InvalidCurve));
    assert_eq!(interpolate(&vec![], 0, &vec![]), Err(CalibrationError::InvalidCurve));
    assert_eq!(interpolate(&vec![0, 10, 5], 3, &vec![1]), Err(CalibrationError::InvalidCurve));
    assert_eq!(interpolate(&vec![0, 0], 2, &vec![0]), Err(CalibrationError::InvalidCurve));

    let mut curve = Calibration::new(String::from("broken"), vec![0, 10, 5]);
    assert_eq!(curve.interpolate(), Err(CalibrationError::InvalidCurve));
    assert_eq!(curve.age, vec![0, 10, 5]);
    assert_eq!(curve.name, "broken");
    let mut short = Calibration::new(String::from("short"), vec![7]);
    assert_eq!(short.interpolate(), Err(CalibrationError::InvalidCurve));
    assert_eq!(short.age, vec![7]);
}

#[test]
fn misaligned_columns_are_refused_first() {
    assert_eq!(interpolate(&vec![0, 10], 3, &vec![5]), Err(CalibrationError::DimensionMismatch));
    assert_eq!(interpolate(&vec![0], 2, &vec![5]), Err(CalibrationError::DimensionMismatch));
    let curve = Calibration::new(String::from("toy"), vec![0, 10, 20]);
    assert_eq!(curve.validate(3, 2), Err(CalibrationError::DimensionMismatch));
    assert_eq!(curve.validate(2, 3), Err(CalibrationError::DimensionMismatch));
    assert_eq!(curve.validate(3, 3), Ok(Direction::Ascending));
    let broken = Calibration::new(String::from("broken"), vec![0, 10, 10]);
    assert_eq!(broken.validate(3, 3), Err(CalibrationError::InvalidCurve));
    assert_eq!(broken.validate(3, 4), Err(CalibrationError::DimensionMismatch));
}
