use fourier_gif::system::{matrix_for, Coef, Mode};

fn k(factor: i64, point: usize, power: u32) -> Coef {
    Coef { factor, point, power }
}

fn zero() -> Coef {
    k(0, 0, 0)
}

#[test]
fn three_breakpoints_give_order_eight() {
    let m = matrix_for(&vec![Mode::Cubic; 3]);
    assert_eq!(m.len(), 8);
    assert!(m.iter().all(|row| row.len() == 8));
}

#[test]
fn value_rows_hold_powers_of_their_breakpoint() {
    let m = matrix_for(&vec![Mode::Cubic; 3]);
    assert_eq!(m[0][0..4], [k(1, 0, 3), k(1, 0, 2), k(1, 0, 1), k(1, 0, 0)]);
    assert_eq!(m[1][0..4], [k(1, 1, 3), k(1, 1, 2), k(1, 1, 1), k(1, 1, 0)]);
    assert_eq!(m[5][4..8], [k(1, 2, 3), k(1, 2, 2), k(1, 2, 1), k(1, 2, 0)]);
    assert!(m[0][4..8].iter().all(|c| *c == zero()));
}

#[test]
fn cubic_joint_matches_derivatives() {
    let m = matrix_for(&vec![Mode::Cubic; 3]);
    assert_eq!(
        m[2],
        vec![k(3, 1, 2), k(2, 1, 1), k(1, 1, 0), zero(), k(-3, 1, 2), k(-2, 1, 1), k(-1, 1, 0), zero()]
    );
    assert_eq!(m[3], vec![k(6, 1, 1), k(2, 1, 0), zero(), zero(), k(-6, 1, 1), k(-2, 1, 0), zero(), zero()]);
}

#[test]
fn boundary_rows_set_zero_slopes() {
    let m = matrix_for(&vec![Mode::Cubic; 3]);
    assert_eq!(m[6], vec![k(3, 0, 2), k(2, 0, 1), k(1, 0, 0), zero(), zero(), zero(), zero(), zero()]);
    assert_eq!(m[7], vec![zero(), zero(), zero(), zero(), k(3, 2, 2), k(2, 2, 1), k(1, 2, 0), zero()]);
}

#[test]
fn linear_modes_flatten_segments() {
    let m = matrix_for(&vec![Mode::Linear; 3]);
    assert_eq!(m[2], vec![k(1, 1, 0), zero(), zero(), zero(), zero(), zero(), zero(), zero()]);
    assert_eq!(m[3], vec![zero(), k(1, 1, 0), zero(), zero(), zero(), zero(), zero(), zero()]);
    assert_eq!(m[6], vec![k(1, 0, 0), zero(), zero(), zero(), zero(), zero(), zero(), zero()]);
    assert_eq!(m[7], vec![zero(), zero(), zero(), zero(), k(1, 2, 0), zero(), zero(), zero()]);
}

#[test]
fn two_breakpoints_give_order_four() {
    let m = matrix_for(&vec![Mode::Cubic, Mode::Linear]);
    assert_eq!(m.len(), 4);
    assert_eq!(m[2], vec![k(3, 0, 2), k(2, 0, 1), k(1, 0, 0), zero()]);
    assert_eq!(m[3], vec![k(1, 1, 0), zero(), zero(), zero()]);
}
