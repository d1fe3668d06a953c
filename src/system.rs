//! The linear system whose solution gives the cubic coefficients of a spline.
//!
//! Segment `i` of a spline through `n` breakpoints `t[0] < ... < t[n-1]` is the
//! cubic `a_i t^3 + b_i t^2 + c_i t + d_i`; its four unknowns are the columns
//! `4i .. 4i + 3` of a square system of order `4 (n - 1)`. Every coefficient
//! of that system is an integer multiple of a power of one breakpoint, so the
//! system is described here exactly, as a matrix of `Coef`, independently of
//! the number type the breakpoints are written in.

use vstd::prelude::*;

verus! {

/// How a breakpoint constrains the spline: `Linear` on an interior breakpoint
/// makes the segment that ends there affine; on the first or last breakpoint
/// it makes the boundary segment's cubic coefficient zero instead of its
/// slope.
#[derive(PartialEq, Eq, Structural, Clone, Copy, Debug)]
pub enum Mode {
    Cubic,
    Linear,
}

/// The coefficient `factor * t[point]^power`; a zero `factor` is an empty
/// entry.
#[derive(PartialEq, Eq, Structural, Clone, Copy, Debug)]
pub struct Coef {
    pub factor: i64,
    pub point: usize,
    pub power: u32,
}

pub open spec fn coef(factor: int, point: int, power: int) -> Coef {
    Coef { factor: factor as i64, point: point as usize, power: power as u32 }
}

pub open spec fn no_coef() -> Coef {
    coef(0, 0, 0)
}

/// Order of the system for `n` breakpoints.
pub open spec fn order(n: nat) -> nat {
    (4 * (n - 1)) as nat
}

/// Column `q` of a cubic's value at `t[p]`: `t^3, t^2, t, 1`.
pub open spec fn value_coef(p: int, q: int) -> Coef {
    if 0 <= q < 4 { coef(1, p, 3 - q) } else { no_coef() }
}

/// Column `q` of a cubic's first derivative at `t[p]`: `3 t^2, 2 t, 1, 0`.
pub open spec fn slope_coef(p: int, q: int) -> Coef {
    if q == 0 {
        coef(3, p, 2)
    } else if q == 1 {
        coef(2, p, 1)
    } else if q == 2 {
        coef(1, p, 0)
    } else {
        no_coef()
    }
}

/// Column `q` of a cubic's second derivative at `t[p]`: `6 t, 2, 0, 0`.
pub open spec fn curve_coef(p: int, q: int) -> Coef {
    if q == 0 {
        coef(6, p, 1)
    } else if q == 1 {
        coef(2, p, 0)
    } else {
        no_coef()
    }
}

/// The same coefficient with the opposite sign.
pub open spec fn negated(k: Coef) -> Coef {
    coef(-k.factor, k.point as int, k.power as int)
}

/// Row `row`, column `col` of the system for `n` breakpoints and the mode
/// of each breakpoint. With `i = row / 4`:
/// - rows `4i` and `4i + 1`: segment `i` takes the given sample values at
///   `t[i]` and `t[i + 1]`;
/// - rows `4i + 2` and `4i + 3` for `i < n - 2`, at the joint `t[i + 1]`: if
///   that breakpoint is `Linear`, `a_i = 0` and `b_i = 0`; otherwise the first
///   and second derivatives of segments `i` and `i + 1` agree there;
/// - row `4n - 6`: at `t[0]`, `a_0 = 0` if the first breakpoint is `Linear`,
///   else the slope of segment 0 is zero;
/// - row `4n - 5`: the same for the last segment at `t[n - 1]`.
pub open spec fn entry(n: nat, modes: Seq<Mode>, row: int, col: int) -> Coef {
    let i = row / 4;
    let kind = row % 4;
    let q = col - 4 * i;
    if kind <= 1 {
        value_coef(i + kind, q)
    } else if i + 2 < n {
        if modes[i + 1] == Mode::Linear {
            if q == kind - 2 { coef(1, i + 1, 0) } else { no_coef() }
        } else if kind == 2 {
            if q < 4 { slope_coef(i + 1, q) } else { negated(slope_coef(i + 1, q - 4)) }
        } else {
            if q < 4 { curve_coef(i + 1, q) } else { negated(curve_coef(i + 1, q - 4)) }
        }
    } else if kind == 2 {
        if modes[0] == Mode::Linear {
            if col == 0 { coef(1, 0, 0) } else { no_coef() }
        } else {
            slope_coef(0, col)
        }
    } else {
        if modes[n - 1] == Mode::Linear {
            if q == 0 { coef(1, n - 1, 0) } else { no_coef() }
        } else {
            slope_coef(n - 1, q)
        }
    }
}


fn make_coef(factor: i64, point: usize, power: u32) -> (k: Coef)
    ensures
        k == coef(factor as int, point as int, power as int),
{
    Coef { factor, point, power }
}

/// A row of `size` empty coefficients.
fn empty_row(size: usize) -> (row: Vec<Coef>)
    ensures
        row@.len() == size,
        forall|c: int| 0 <= c < size ==> #[trigger] row@[c] == no_coef(),
{
    let mut row: Vec<Coef> = Vec::new();
    let mut c: usize = 0;
    while c < size
        invariant
            c <= size,
            row@.len() == c,
            forall|k: int| 0 <= k < c ==> #[trigger] row@[k] == no_coef(),
        decreases size - c,
    {
        row.push(make_coef(0, 0, 0));
        c = c + 1;
    }
    row
}

/// Writes the first-derivative coefficients at `t[p]` into columns
/// `base .. base + 3`, with the sign of `sign`.
fn put_slope(row: &mut Vec<Coef>, base: usize, p: usize, sign: i64)
    requires
        base + 3 <= old(row)@.len(),
        sign == 1 || sign == -1,
    ensures
        final(row)@.len() == old(row)@.len(),
        forall|c: int|
            0 <= c < old(row)@.len() ==> #[trigger] final(row)@[c] == if base <= c < base + 3 {
                if sign == 1 {
                    slope_coef(p as int, c - base)
                } else {
                    negated(slope_coef(p as int, c - base))
                }
            } else {
                old(row)@[c]
            },
{
    let size: usize = row.len();
    assert(base + 3 <= size);
    row[base] = make_coef(3 * sign, p, 2);
    row[base + 1] = make_coef(2 * sign, p, 1);
    row[base + 2] = make_coef(sign, p, 0);
}

/// Writes the second-derivative coefficients at `t[p]` into columns
/// `base .. base + 2`, with the sign of `sign`.
fn put_curve(row: &mut Vec<Coef>, base: usize, p: usize, sign: i64)
    requires
        base + 2 <= old(row)@.len(),
        sign == 1 || sign == -1,
    ensures
        final(row)@.len() == old(row)@.len(),
        forall|c: int|
            0 <= c < old(row)@.len() ==> #[trigger] final(row)@[c] == if base <= c < base + 2 {
                if sign == 1 {
                    curve_coef(p as int, c - base)
                } else {
                    negated(curve_coef(p as int, c - base))
                }
            } else {
                old(row)@[c]
            },
{
    let size: usize = row.len();
    assert(base + 2 <= size);
    row[base] = make_coef(6 * sign, p, 1);
    row[base + 1] = make_coef(2 * sign, p, 0);
}

/// Row `r` of the system for the breakpoint modes `modes`.
fn row_for(modes: &Vec<Mode>, r: usize) -> (row: Vec<Coef>)
    requires
        modes@.len() >= 2,
        4 * (modes@.len() - 1) <= usize::MAX,
        r < order(modes@.len() as nat),
    ensures
        row@.len() == order(modes@.len() as nat),
        forall|c: int|
            0 <= c < row@.len() ==> #[trigger] row@[c] == entry(modes@.len() as nat, modes@, r as int, c),
{
    let n = modes.len();
    let size = 4 * (n - 1);
    let mut row = empty_row(size);
    let i = r / 4;
    let kind = r % 4;
    let base = 4 * i;
    if kind <= 1 {
        let p = i + kind;
        row[base] = make_coef(1, p, 3);
        row[base + 1] = make_coef(1, p, 2);
        row[base + 2] = make_coef(1, p, 1);
        row[base + 3] = make_coef(1, p, 0);
    } else if i + 2 < n {
        let joint = i + 1;
        if modes[joint] == Mode::Linear {
            row[base + kind - 2] = make_coef(1, joint, 0);
        } else if kind == 2 {
            put_slope(&mut row, base, joint, 1);
            put_slope(&mut row, base + 4, joint, -1);
        } else {
            put_curve(&mut row, base, joint, 1);
            put_curve(&mut row, base + 4, joint, -1);
        }
    } else if kind == 2 {
        if modes[0] == Mode::Linear {
            row[0] = make_coef(1, 0, 0);
        } else {
            put_slope(&mut row, 0, 0, 1);
        }
    } else {
        if modes[n - 1] == Mode::Linear {
            row[base] = make_coef(1, n - 1, 0);
        } else {
            put_slope(&mut row, base, n - 1, 1);
        }
    }
    row
}

/// The system for `modes.len()` breakpoints with the given modes, as a
/// square matrix of order `4 (n - 1)` listed row by row.
pub fn matrix_for(modes: &Vec<Mode>) -> (m: Vec<Vec<Coef>>)
    requires
        modes@.len() >= 2,
        4 * (modes@.len() - 1) <= usize::MAX,
    ensures
        m@.len() == order(modes@.len() as nat),
        forall|r: int| 0 <= r < m@.len() ==> (#[trigger] m@[r])@.len() == order(modes@.len() as nat),
        forall|r: int, c: int|
            0 <= r < m@.len() && 0 <= c < m@.len() ==> #[trigger] m@[r]@[c] == entry(
                modes@.len() as nat,
                modes@,
                r,
                c,
            ),
{
    let n = modes.len();
    let size = 4 * (n - 1);
    let mut m: Vec<Vec<Coef>> = Vec::new();
    let mut r: usize = 0;
    while r < size
        invariant
            n == modes@.len(),
            n >= 2,
            size == order(n as nat),
            r <= size,
            m@.len() == r,
            forall|k: int| 0 <= k < r ==> (#[trigger] m@[k])@.len() == size,
            forall|k: int, c: int|
                0 <= k < r && 0 <= c < size ==> #[trigger] m@[k]@[c] == entry(n as nat, modes@, k, c),
        decreases size - r,
    {
        let row = row_for(modes, r);
        m.push(row);
        r = r + 1;
    }
    m
}

} // verus!
