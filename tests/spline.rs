use fourier_gif::spline::{check_lengths, rhs_for, FitError, IndexError, Spline, SplinePart};

#[test]
fn rhs_interleaves_samples() {
    assert_eq!(rhs_for(&vec![5, 6, 7], 0), vec![5, 6, 0, 0, 6, 7, 0, 0]);
}

#[test]
fn solution_is_read_in_blocks_of_four() {
    let x = vec![1, 2, 3, 4, 5, 6, 7, 8];
    let s = Spline::from_solution(&x, &vec![0, 10, 20]).ok().unwrap();
    assert_eq!(s.num_parts(), 2);
    assert_eq!(s.part(1), Ok(SplinePart { a: 5, b: 6, c: 7, d: 8 }));
    assert_eq!(s.part(0), Ok(SplinePart { a: 1, b: 2, c: 3, d: 4 }));
    assert_eq!(s.start(), 0);
    assert_eq!(s.end(), 20);
    assert_eq!(s.changes(), vec![0, 10, 20]);
}

#[test]
fn part_out_of_range_is_an_index_error() {
    let s = Spline::from_solution(&vec![1, 2, 3, 4], &vec![0, 1]).ok().unwrap();
    assert_eq!(s.part(1), Err(IndexError { index: 1, len: 1 }));
}

#[test]
fn solution_of_wrong_length_is_refused() {
    assert!(matches!(Spline::from_solution(&vec![1, 2, 3], &vec![0, 1]), Err(FitError::DimensionMismatch)));
    assert!(matches!(Spline::from_solution(&vec![1, 2, 3, 4], &vec![0]), Err(FitError::DimensionMismatch)));
}

#[test]
fn lengths_must_agree() {
    assert_eq!(check_lengths(3, &vec![3, 3], 3), Ok(()));
    assert_eq!(check_lengths(3, &vec![3, 2], 3), Err(FitError::DimensionMismatch));
    assert_eq!(check_lengths(3, &vec![3, 3], 2), Err(FitError::DimensionMismatch));
    assert_eq!(check_lengths(1, &vec![1], 1), Err(FitError::DimensionMismatch));
}
