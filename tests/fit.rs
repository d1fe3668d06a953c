use fourier_gif::spline::{rhs_for, Spline, SplinePart};
use fourier_gif::system::{matrix_for, Mode};
use nalgebra::{DMatrix, DVector};

fn solve(tt: &Vec<f64>, xx: &Vec<f64>, modes: &Vec<Mode>) -> Option<Spline<f64>> {
    let layout = matrix_for(modes);
    let size = layout.len();
    let mut a = DMatrix::zeros(size, size);
    for (r, row) in layout.iter().enumerate() {
        for (c, k) in row.iter().enumerate() {
            a[(r, c)] = k.factor as f64 * tt[k.point].powi(k.power as i32);
        }
    }
    let x = a.lu().solve(&DVector::from_vec(rhs_for(xx, 0.0)))?;
    Spline::from_solution(&x.as_slice().to_vec(), tt).ok()
}

fn value(p: SplinePart<f64>, t: f64) -> f64 {
    ((p.a * t + p.b) * t + p.c) * t + p.d
}

fn slope(p: SplinePart<f64>, t: f64) -> f64 {
    (3.0 * p.a * t + 2.0 * p.b) * t + p.c
}

fn curve(p: SplinePart<f64>, t: f64) -> f64 {
    6.0 * p.a * t + 2.0 * p.b
}

fn close(a: f64, b: f64) -> bool {
    (a - b).abs() < 1e-9
}

#[test]
fn three_points_system_is_solvable() {
    let tt = vec![0.0, 1.0, 2.0];
    let s = solve(&tt, &vec![0.0, 1.0, 0.0], &vec![Mode::Cubic; 3]).unwrap();
    assert_eq!(matrix_for(&vec![Mode::Cubic; 3]).len(), 8);
    assert_eq!(s.num_parts(), 2);
}

#[test]
fn spline_passes_through_its_samples() {
    let tt = vec![0.0, 0.5, 1.5, 2.0, 3.25];
    let xx = vec![1.0, -2.0, 0.5, 4.0, 1.0];
    let s = solve(&tt, &xx, &vec![Mode::Cubic; 5]).unwrap();
    for i in 0..4 {
        let p = s.part(i).unwrap();
        assert!(close(value(p, tt[i]), xx[i]));
        assert!(close(value(p, tt[i + 1]), xx[i + 1]));
    }
}

#[test]
fn cubic_joints_are_smooth() {
    let tt = vec![0.0, 1.0, 2.5, 3.0];
    let s = solve(&tt, &vec![0.0, 2.0, -1.0, 0.5], &vec![Mode::Cubic; 4]).unwrap();
    for i in 0..2 {
        let (l, r) = (s.part(i).unwrap(), s.part(i + 1).unwrap());
        assert!(close(slope(l, tt[i + 1]), slope(r, tt[i + 1])));
        assert!(close(curve(l, tt[i + 1]), curve(r, tt[i + 1])));
    }
    assert!(close(slope(s.part(0).unwrap(), 0.0), 0.0));
    assert!(close(slope(s.part(2).unwrap(), 3.0), 0.0));
}

#[test]
fn linear_first_boundary_flattens_the_first_cubic() {
    let tt = vec![0.0, 1.0, 3.0];
    let modes = vec![Mode::Linear, Mode::Cubic, Mode::Cubic];
    let s = solve(&tt, &vec![2.0, 4.0, 0.0], &modes).unwrap();
    let p = s.part(0).unwrap();
    assert!(close(p.a, 0.0));
    assert!(close(value(p, 1.0), 4.0));
    assert!(close(slope(s.part(1).unwrap(), 3.0), 0.0));
}

#[test]
fn linear_interior_joint_over_determines_the_system() {
    let tt = vec![0.0, 1.0, 3.0];
    let modes = vec![Mode::Cubic, Mode::Linear, Mode::Cubic];
    assert!(solve(&tt, &vec![2.0, 4.0, 0.0], &modes).is_none());
}

#[test]
fn equal_breakpoints_are_singular() {
    let tt = vec![0.0, 0.0, 1.0];
    assert!(solve(&tt, &vec![0.0, 1.0, 0.0], &vec![Mode::Cubic; 3]).is_none());
}
