use fourier_gif::coeffs::CoeffsSet;
use fourier_gif::spline::IndexError;

#[test]
fn new_set_is_all_zero() {
    let c = CoeffsSet::new(3, 0i64);
    assert_eq!(c.len(), 3);
    assert_eq!(c.positive(2), Ok(0));
    assert_eq!(c.negative(0), Ok(0));
}

#[test]
fn set_writes_both_signs() {
    let mut c = CoeffsSet::new(2, 0i64);
    assert_eq!(c.set(1, 5, -5), Ok(()));
    assert_eq!(c.positive(1), Ok(5));
    assert_eq!(c.negative(1), Ok(-5));
    assert_eq!(c.positive(0), Ok(0));
}

#[test]
fn harmonic_out_of_range_is_an_index_error() {
    let mut c = CoeffsSet::new(2, 0i64);
    assert_eq!(c.positive(2), Err(IndexError { index: 2, len: 2 }));
    assert_eq!(c.negative(7), Err(IndexError { index: 7, len: 2 }));
    assert_eq!(c.set(2, 1, 1), Err(IndexError { index: 2, len: 2 }));
    assert_eq!(c.len(), 2);
}

#[test]
fn push_appends_the_next_harmonic() {
    let mut c = CoeffsSet::new(0, 0i64);
    c.push(1, 2);
    c.push(3, 4);
    assert_eq!(c.len(), 2);
    assert_eq!(c.positive(1), Ok(3));
    assert_eq!(c.negative(1), Ok(4));
}
