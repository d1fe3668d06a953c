//! What every exact solution of the spline system satisfies. Breakpoints,
//! samples and unknowns are taken as integers here, an exact model of the
//! polynomial identities that the rows of the system state.

use crate::system::{entry, order, Coef, Mode};
use vstd::arithmetic::power::pow;
use vstd::prelude::*;

verus! {

/// The value of the coefficient `k` when breakpoint `j` has the value `t[j]`.
pub open spec fn coef_value(k: Coef, t: Seq<int>) -> int {
    k.factor * pow(t[k.point as int], k.power as nat)
}

/// `s[lo] + ... + s[hi - 1]`.
pub open spec fn sum_range(s: Seq<int>, lo: int, hi: int) -> int
    decreases hi - lo,
{
    if lo >= hi { 0 } else { s[lo] + sum_range(s, lo + 1, hi) }
}

/// The terms of row `r` of the system applied to the unknowns `x`.
pub open spec fn row_terms(n: nat, modes: Seq<Mode>, t: Seq<int>, x: Seq<int>, r: int) -> Seq<int> {
    Seq::new(order(n), |c: int| coef_value(entry(n, modes, r, c), t) * x[c])
}

/// The left-hand side of row `r` of the system for the unknowns `x`.
pub open spec fn row_value(n: nat, modes: Seq<Mode>, t: Seq<int>, x: Seq<int>, r: int) -> int {
    sum_range(row_terms(n, modes, t, x, r), 0, order(n) as int)
}

/// Row `r` of the right-hand side for the samples `xx`, as `rhs_for` lays it
/// out with a zero of `0`.
pub open spec fn rhs_value(xx: Seq<int>, r: int) -> int {
    if r % 4 <= 1 { xx[r / 4 + r % 4] } else { 0 }
}

/// Whether `x` solves the system for breakpoint values `t` and samples `xx`.
pub open spec fn solves(n: nat, modes: Seq<Mode>, t: Seq<int>, x: Seq<int>, xx: Seq<int>) -> bool {
    forall|r: int| 0 <= r < order(n) ==> #[trigger] row_value(n, modes, t, x, r) == rhs_value(xx, r)
}

/// Segment `i` of the unknowns `x` at `v`.
pub open spec fn cubic_at(x: Seq<int>, i: int, v: int) -> int {
    x[4 * i] * (v * v * v) + x[4 * i + 1] * (v * v) + x[4 * i + 2] * v + x[4 * i + 3]
}

/// The first derivative of segment `i` at `v`.
pub open spec fn slope_at(x: Seq<int>, i: int, v: int) -> int {
    3 * x[4 * i] * (v * v) + 2 * x[4 * i + 1] * v + x[4 * i + 2]
}

/// The second derivative of segment `i` at `v`.
pub open spec fn curve_at(x: Seq<int>, i: int, v: int) -> int {
    6 * x[4 * i] * v + 2 * x[4 * i + 1]
}

/// The inputs that make a system: at least two breakpoints, one mode and one
/// value per breakpoint, one unknown per column.
pub open spec fn valid(n: nat, modes: Seq<Mode>, t: Seq<int>, x: Seq<int>, xx: Seq<int>) -> bool {
    &&& n >= 2
    &&& 4 * (n - 1) <= usize::MAX
    &&& modes.len() == n
    &&& t.len() == n
    &&& xx.len() == n
    &&& x.len() == order(n)
}

proof fn lemma_sum_split(s: Seq<int>, a: int, b: int, c: int)
    requires
        a <= b <= c,
    ensures
        sum_range(s, a, c) == sum_range(s, a, b) + sum_range(s, b, c),
    decreases b - a,
{
    if a < b {
        lemma_sum_split(s, a + 1, b, c);
    }
}

proof fn lemma_sum_zero(s: Seq<int>, a: int, b: int)
    requires
        forall|c: int| a <= c < b ==> s[c] == 0,
    ensures
        sum_range(s, a, b) == 0,
    decreases b - a,
{
    if a < b {
        lemma_sum_zero(s, a + 1, b);
    }
}

proof fn lemma_powers(v: int)
    ensures
        pow(v, 0) == 1,
        pow(v, 1) == v,
        pow(v, 2) == v * v,
        pow(v, 3) == v * v * v,
{
    reveal_with_fuel(pow, 4);
    assert(v * (v * v) == v * v * v) by (nonlinear_arith);
}

proof fn lemma_empty_term(k: Coef, t: Seq<int>, y: int)
    requires
        k.factor == 0,
    ensures
        coef_value(k, t) * y == 0,
{
    let p = pow(t[k.point as int], k.power as nat);
    assert(coef_value(k, t) == 0 * p);
    assert(0 * p * y == 0) by (nonlinear_arith);
}

/// The value of a coefficient with factor `f`, point `p` and power `e`.
proof fn lemma_term(k: Coef, t: Seq<int>, f: int, p: int, e: nat, y: int)
    requires
        k.factor == f,
        k.point == p,
        k.power == e,
    ensures
        coef_value(k, t) * y == f * pow(t[p], e) * y,
{
}

/// A row whose coefficients outside `lo .. hi` are empty adds up its terms
/// in `lo .. hi` only.
proof fn lemma_row_window(n: nat, modes: Seq<Mode>, t: Seq<int>, x: Seq<int>, r: int, lo: int, hi: int)
    requires
        0 <= lo <= hi <= order(n),
        forall|c: int|
            0 <= c < order(n) && !(lo <= c < hi) ==> (#[trigger] entry(n, modes, r, c)).factor == 0,
    ensures
        row_value(n, modes, t, x, r) == sum_range(row_terms(n, modes, t, x, r), lo, hi),
{
    let s = row_terms(n, modes, t, x, r);
    assert forall|c: int| 0 <= c < lo implies s[c] == 0 by {
        lemma_empty_term(entry(n, modes, r, c), t, x[c]);
    }
    assert forall|c: int| hi <= c < order(n) implies s[c] == 0 by {
        lemma_empty_term(entry(n, modes, r, c), t, x[c]);
    }
    lemma_sum_split(s, 0, lo, order(n) as int);
    lemma_sum_split(s, lo, hi, order(n) as int);
    lemma_sum_zero(s, 0, lo);
    lemma_sum_zero(s, hi, order(n) as int);
}

/// Row `4 i + k` (`k` 0 or 1) states that segment `i` takes, at breakpoint
/// `i + k`, the value on the right-hand side.
proof fn lemma_value_row(n: nat, modes: Seq<Mode>, t: Seq<int>, x: Seq<int>, i: int, k: int)
    requires
        n >= 2,
        4 * (n - 1) <= usize::MAX,
        t.len() == n,
        0 <= i < n - 1,
        0 <= k <= 1,
    ensures
        row_value(n, modes, t, x, 4 * i + k) == cubic_at(x, i, t[i + k]),
{
    let r = 4 * i + k;
    assert(r / 4 == i && r % 4 == k);
    lemma_row_window(n, modes, t, x, r, 4 * i, 4 * i + 4);
    let s = row_terms(n, modes, t, x, r);
    let v = t[i + k];
    lemma_powers(v);
    lemma_term(entry(n, modes, r, 4 * i), t, 1, i + k, 3, x[4 * i]);
    lemma_term(entry(n, modes, r, 4 * i + 1), t, 1, i + k, 2, x[4 * i + 1]);
    lemma_term(entry(n, modes, r, 4 * i + 2), t, 1, i + k, 1, x[4 * i + 2]);
    lemma_term(entry(n, modes, r, 4 * i + 3), t, 1, i + k, 0, x[4 * i + 3]);
    lemma_sum4(s, 4 * i);
    assert(s[4 * i] + s[4 * i + 1] + s[4 * i + 2] + s[4 * i + 3] == cubic_at(x, i, v))
        by (nonlinear_arith)
        requires
            s[4 * i] == 1 * pow(v, 3) * x[4 * i],
            s[4 * i + 1] == 1 * pow(v, 2) * x[4 * i + 1],
            s[4 * i + 2] == 1 * pow(v, 1) * x[4 * i + 2],
            s[4 * i + 3] == 1 * pow(v, 0) * x[4 * i + 3],
            pow(v, 0) == 1,
            pow(v, 1) == v,
            pow(v, 2) == v * v,
            pow(v, 3) == v * v * v,
    ;
}

proof fn lemma_sum4(s: Seq<int>, b: int)
    ensures
        sum_range(s, b, b + 4) == s[b] + s[b + 1] + s[b + 2] + s[b + 3],
{
    reveal_with_fuel(sum_range, 5);
}

/// Whether segment `i` of `x` takes the value `xx[i]` at `t[i]` and
/// `xx[i + 1]` at `t[i + 1]`.
pub open spec fn passes_through(x: Seq<int>, t: Seq<int>, xx: Seq<int>, i: int) -> bool {
    &&& cubic_at(x, i, t[i]) == xx[i]
    &&& cubic_at(x, i, t[i + 1]) == xx[i + 1]
}

/// Every exact solution passes through its samples: segment `i` takes the
/// value `xx[i]` at `t[i]` and `xx[i + 1]` at `t[i + 1]`.
pub proof fn lemma_interpolates(n: nat, modes: Seq<Mode>, t: Seq<int>, x: Seq<int>, xx: Seq<int>)
    requires
        valid(n, modes, t, x, xx),
        solves(n, modes, t, x, xx),
    ensures
        forall|i: int| 0 <= i < n - 1 ==> #[trigger] passes_through(x, t, xx, i),
{
    assert forall|i: int| 0 <= i < n - 1 implies #[trigger] passes_through(x, t, xx, i) by {
        lemma_value_row(n, modes, t, x, i, 0);
        lemma_value_row(n, modes, t, x, i, 1);
        assert(row_value(n, modes, t, x, 4 * i) == rhs_value(xx, 4 * i));
        assert(row_value(n, modes, t, x, 4 * i + 1) == rhs_value(xx, 4 * i + 1));
        assert((4 * i) / 4 == i && (4 * i) % 4 == 0);
        assert((4 * i + 1) / 4 == i && (4 * i + 1) % 4 == 1);
    }
}

/// Row `4 i + 2` at a cubic joint `t[i + 1]` states the difference of the
/// first derivatives of segments `i` and `i + 1` there.
proof fn lemma_slope_row(n: nat, modes: Seq<Mode>, t: Seq<int>, x: Seq<int>, i: int)
    requires
        n >= 2,
        4 * (n - 1) <= usize::MAX,
        modes.len() == n,
        t.len() == n,
        0 <= i < n - 2,
        modes[i + 1] == Mode::Cubic,
    ensures
        row_value(n, modes, t, x, 4 * i + 2) == slope_at(x, i, t[i + 1]) - slope_at(x, i + 1, t[i + 1]),
{
    let v = t[i + 1];
    let b = 4 * i;
    let r = b + 2;
    assert(r / 4 == i && r % 4 == 2);
    lemma_powers(v);
    lemma_row_window(n, modes, t, x, r, b, b + 8);
    let s = row_terms(n, modes, t, x, r);
    lemma_term(entry(n, modes, r, b), t, 3, i + 1, 2, x[b]);
    lemma_term(entry(n, modes, r, b + 1), t, 2, i + 1, 1, x[b + 1]);
    lemma_term(entry(n, modes, r, b + 2), t, 1, i + 1, 0, x[b + 2]);
    lemma_empty_term(entry(n, modes, r, b + 3), t, x[b + 3]);
    lemma_term(entry(n, modes, r, b + 4), t, -3, i + 1, 2, x[b + 4]);
    lemma_term(entry(n, modes, r, b + 5), t, -2, i + 1, 1, x[b + 5]);
    lemma_term(entry(n, modes, r, b + 6), t, -1, i + 1, 0, x[b + 6]);
    lemma_empty_term(entry(n, modes, r, b + 7), t, x[b + 7]);
    lemma_sum8(s, b);
    assert(s[b] + s[b + 1] + s[b + 2] + s[b + 3] + s[b + 4] + s[b + 5] + s[b + 6] + s[b + 7]
        == slope_at(x, i, v) - slope_at(x, i + 1, v)) by (nonlinear_arith)
        requires
            b == 4 * i,
            s[b] == 3 * pow(v, 2) * x[b],
            s[b + 1] == 2 * pow(v, 1) * x[b + 1],
            s[b + 2] == 1 * pow(v, 0) * x[b + 2],
            s[b + 3] == 0,
            s[b + 4] == -3 * pow(v, 2) * x[b + 4],
            s[b + 5] == -2 * pow(v, 1) * x[b + 5],
            s[b + 6] == -1 * pow(v, 0) * x[b + 6],
            s[b + 7] == 0,
            pow(v, 0) == 1,
            pow(v, 1) == v,
            pow(v, 2) == v * v,
    ;
}

/// Row `4 i + 3` at a cubic joint `t[i + 1]` states the difference of the
/// second derivatives of segments `i` and `i + 1` there.
proof fn lemma_curve_row(n: nat, modes: Seq<Mode>, t: Seq<int>, x: Seq<int>, i: int)
    requires
        n >= 2,
        4 * (n - 1) <= usize::MAX,
        modes.len() == n,
        t.len() == n,
        0 <= i < n - 2,
        modes[i + 1] == Mode::Cubic,
    ensures
        row_value(n, modes, t, x, 4 * i + 3) == curve_at(x, i, t[i + 1]) - curve_at(x, i + 1, t[i + 1]),
{
    let v = t[i + 1];
    let b = 4 * i;
    let r = b + 3;
    assert(r / 4 == i && r % 4 == 3);
    lemma_powers(v);
    lemma_row_window(n, modes, t, x, r, b, b + 8);
    let s = row_terms(n, modes, t, x, r);
    lemma_term(entry(n, modes, r, b), t, 6, i + 1, 1, x[b]);
    lemma_term(entry(n, modes, r, b + 1), t, 2, i + 1, 0, x[b + 1]);
    lemma_empty_term(entry(n, modes, r, b + 2), t, x[b + 2]);
    lemma_empty_term(entry(n, modes, r, b + 3), t, x[b + 3]);
    lemma_term(entry(n, modes, r, b + 4), t, -6, i + 1, 1, x[b + 4]);
    lemma_term(entry(n, modes, r, b + 5), t, -2, i + 1, 0, x[b + 5]);
    lemma_empty_term(entry(n, modes, r, b + 6), t, x[b + 6]);
    lemma_empty_term(entry(n, modes, r, b + 7), t, x[b + 7]);
    lemma_sum8(s, b);
    assert(s[b] + s[b + 1] + s[b + 2] + s[b + 3] + s[b + 4] + s[b + 5] + s[b + 6] + s[b + 7]
        == curve_at(x, i, v) - curve_at(x, i + 1, v)) by (nonlinear_arith)
        requires
            b == 4 * i,
            s[b] == 6 * pow(v, 1) * x[b],
            s[b + 1] == 2 * pow(v, 0) * x[b + 1],
            s[b + 2] == 0,
            s[b + 3] == 0,
            s[b + 4] == -6 * pow(v, 1) * x[b + 4],
            s[b + 5] == -2 * pow(v, 0) * x[b + 5],
            s[b + 6] == 0,
            s[b + 7] == 0,
            pow(v, 0) == 1,
            pow(v, 1) == v,
    ;
}

proof fn lemma_sum8(s: Seq<int>, b: int)
    ensures
        sum_range(s, b, b + 8) == s[b] + s[b + 1] + s[b + 2] + s[b + 3] + s[b + 4] + s[b + 5] + s[b
            + 6] + s[b + 7],
{
    reveal_with_fuel(sum_range, 9);
}

proof fn lemma_smooth_at(n: nat, modes: Seq<Mode>, t: Seq<int>, x: Seq<int>, xx: Seq<int>, i: int)
    requires
        valid(n, modes, t, x, xx),
        solves(n, modes, t, x, xx),
        0 <= i < n - 2,
        modes[i + 1] == Mode::Cubic,
    ensures
        slope_at(x, i, t[i + 1]) == slope_at(x, i + 1, t[i + 1]),
        curve_at(x, i, t[i + 1]) == curve_at(x, i + 1, t[i + 1]),
{
    lemma_slope_row(n, modes, t, x, i);
    lemma_curve_row(n, modes, t, x, i);
    assert(row_value(n, modes, t, x, 4 * i + 2) == rhs_value(xx, 4 * i + 2));
    assert(row_value(n, modes, t, x, 4 * i + 3) == rhs_value(xx, 4 * i + 3));
    assert((4 * i + 2) % 4 == 2 && (4 * i + 3) % 4 == 3);
}

/// Whether segments `i` and `i + 1` of `x` have the same first and second
/// derivatives at `t[i + 1]`.
pub open spec fn smooth_at(x: Seq<int>, t: Seq<int>, i: int) -> bool {
    &&& slope_at(x, i, t[i + 1]) == slope_at(x, i + 1, t[i + 1])
    &&& curve_at(x, i, t[i + 1]) == curve_at(x, i + 1, t[i + 1])
}

/// Every exact solution is smooth at its cubic joints: where breakpoint
/// `i + 1` is an interior `Cubic` one, segments `i` and `i + 1` have the same
/// first and second derivatives there.
pub proof fn lemma_smooth_joints(n: nat, modes: Seq<Mode>, t: Seq<int>, x: Seq<int>, xx: Seq<int>)
    requires
        valid(n, modes, t, x, xx),
        solves(n, modes, t, x, xx),
    ensures
        forall|i: int| 0 <= i < n - 2 && modes[i + 1] == Mode::Cubic ==> #[trigger] smooth_at(x, t, i),
{
    assert forall|i: int| 0 <= i < n - 2 && modes[i + 1] == Mode::Cubic implies #[trigger] smooth_at(
        x,
        t,
        i,
    ) by {
        lemma_smooth_at(n, modes, t, x, xx, i);
    }
}

/// Every exact solution is affine on a segment that ends at an interior
/// `Linear` breakpoint `i + 1`: its cubic and quadratic coefficients are
/// zero, and at every `v` its value is the affine interpolation between
/// `(t[i], xx[i])` and `(t[i + 1], xx[i + 1])`.
pub proof fn lemma_linear_joints(n: nat, modes: Seq<Mode>, t: Seq<int>, x: Seq<int>, xx: Seq<int>)
    requires
        valid(n, modes, t, x, xx),
        solves(n, modes, t, x, xx),
    ensures
        forall|i: int|
            #![trigger modes[i + 1], x[4 * i]]
            0 <= i < n - 2 && modes[i + 1] == Mode::Linear ==> x[4 * i] == 0 && x[4 * i + 1] == 0,
        forall|i: int, v: int|
            0 <= i < n - 2 && modes[i + 1] == Mode::Linear ==> #[trigger] cubic_at(x, i, v) * (t[i + 1]
                - t[i]) == xx[i] * (t[i + 1] - v) + xx[i + 1] * (v - t[i]),
{
    lemma_interpolates(n, modes, t, x, xx);
    assert forall|i: int|
        #![trigger modes[i + 1], x[4 * i]]
        0 <= i < n - 2 && modes[i + 1] == Mode::Linear implies x[4 * i] == 0 && x[4 * i + 1] == 0 by {
        lemma_flat_rows(n, modes, t, x, i);
        assert(row_value(n, modes, t, x, 4 * i + 2) == rhs_value(xx, 4 * i + 2));
        assert(row_value(n, modes, t, x, 4 * i + 3) == rhs_value(xx, 4 * i + 3));
        assert((4 * i + 2) % 4 == 2 && (4 * i + 3) % 4 == 3);
    }
    assert forall|i: int, v: int|
        0 <= i < n - 2 && modes[i + 1] == Mode::Linear implies #[trigger] cubic_at(x, i, v) * (t[i + 1]
            - t[i]) == xx[i] * (t[i + 1] - v) + xx[i + 1] * (v - t[i]) by {
        assert(x[4 * i] == 0 && x[4 * i + 1] == 0);
        assert(passes_through(x, t, xx, i));
        let (c, d, t0, t1) = (x[4 * i + 2], x[4 * i + 3], t[i], t[i + 1]);
        assert(cubic_at(x, i, v) == c * v + d);
        assert(cubic_at(x, i, t0) == c * t0 + d);
        assert(cubic_at(x, i, t1) == c * t1 + d);
        assert((c * v + d) * (t1 - t0) == (c * t0 + d) * (t1 - v) + (c * t1 + d) * (v - t0))
            by (nonlinear_arith);
    }
}

/// At an interior `Linear` breakpoint `i + 1`, rows `4 i + 2` and `4 i + 3`
/// read the cubic and the quadratic coefficient of segment `i`.
proof fn lemma_flat_rows(n: nat, modes: Seq<Mode>, t: Seq<int>, x: Seq<int>, i: int)
    requires
        n >= 2,
        4 * (n - 1) <= usize::MAX,
        modes.len() == n,
        t.len() == n,
        0 <= i < n - 2,
        modes[i + 1] == Mode::Linear,
    ensures
        row_value(n, modes, t, x, 4 * i + 2) == x[4 * i],
        row_value(n, modes, t, x, 4 * i + 3) == x[4 * i + 1],
{
    let b = 4 * i;
    lemma_powers(t[i + 1]);
    reveal_with_fuel(sum_range, 3);
    let r = b + 2;
    assert(r / 4 == i && r % 4 == 2);
    lemma_row_window(n, modes, t, x, r, b, b + 1);
    lemma_term(entry(n, modes, r, b), t, 1, i + 1, 0, x[b]);
    assert(row_terms(n, modes, t, x, r)[b] == 1 * pow(t[i + 1], 0) * x[b]);
    assert(pow(t[i + 1], 0) == 1);
    assert(1 * pow(t[i + 1], 0) * x[b] == x[b]) by (nonlinear_arith)
        requires
            pow(t[i + 1], 0) == 1,
    ;
    let r3 = b + 3;
    assert(r3 / 4 == i && r3 % 4 == 3);
    lemma_row_window(n, modes, t, x, r3, b + 1, b + 2);
    lemma_term(entry(n, modes, r3, b + 1), t, 1, i + 1, 0, x[b + 1]);
    assert(row_terms(n, modes, t, x, r3)[b + 1] == x[b + 1]);
}

/// Two equal breakpoints make two equal rows, so the system is singular:
/// where `t[i] == t[i + 1]`, rows `4 i` and `4 i + 1` hold the same values.
pub proof fn lemma_equal_breakpoints(n: nat, modes: Seq<Mode>, t: Seq<int>, i: int)
    requires
        n >= 2,
        4 * (n - 1) <= usize::MAX,
        modes.len() == n,
        t.len() == n,
        0 <= i < n - 1,
        t[i] == t[i + 1],
    ensures
        forall|c: int|
            0 <= c < order(n) ==> #[trigger] coef_value(entry(n, modes, 4 * i, c), t) == coef_value(
                entry(n, modes, 4 * i + 1, c),
                t,
            ),
{
    assert((4 * i) / 4 == i && (4 * i) % 4 == 0);
    assert((4 * i + 1) / 4 == i && (4 * i + 1) % 4 == 1);
}


/// Row `4 n - 6` (`end` false) or `4 n - 5` (`end` true) at the first or the
/// last breakpoint `p`, on segment `i` (0 or `n - 2`): the cubic
/// coefficient of the segment if that breakpoint is `Linear`, else its slope.
proof fn lemma_boundary_row(n: nat, modes: Seq<Mode>, t: Seq<int>, x: Seq<int>, end: bool)
    requires
        n >= 2,
        4 * (n - 1) <= usize::MAX,
        modes.len() == n,
        t.len() == n,
    ensures
        ({
            let (r, p, i) = if end { (4 * n - 5, n - 1, n - 2) } else { (4 * n - 6, 0int, 0int) };
            row_value(n, modes, t, x, r) == if modes[p] == Mode::Linear {
                x[4 * i]
            } else {
                slope_at(x, i, t[p])
            }
        }),
{
    let (r, p, i) = if end { (4 * n - 5, n - 1, n - 2) } else { (4 * n - 6, 0int, 0int) };
    let b = 4 * i;
    let v = t[p];
    assert(r / 4 == n - 2 && r % 4 == (if end { 3int } else { 2int }));
    lemma_powers(v);
    let s = row_terms(n, modes, t, x, r);
    if modes[p] == Mode::Linear {
        lemma_row_window(n, modes, t, x, r, b, b + 1);
        lemma_term(entry(n, modes, r, b), t, 1, p, 0, x[b]);
        reveal_with_fuel(sum_range, 2);
        assert(s[b] == 1 * pow(v, 0) * x[b]);
        assert(1 * pow(v, 0) * x[b] == x[b]) by (nonlinear_arith)
            requires
                pow(v, 0) == 1,
        ;
    } else {
        lemma_row_window(n, modes, t, x, r, b, b + 4);
        lemma_term(entry(n, modes, r, b), t, 3, p, 2, x[b]);
        lemma_term(entry(n, modes, r, b + 1), t, 2, p, 1, x[b + 1]);
        lemma_term(entry(n, modes, r, b + 2), t, 1, p, 0, x[b + 2]);
        lemma_empty_term(entry(n, modes, r, b + 3), t, x[b + 3]);
        lemma_sum4(s, b);
        assert(s[b] + s[b + 1] + s[b + 2] + s[b + 3] == slope_at(x, i, v)) by (nonlinear_arith)
            requires
                b == 4 * i,
                s[b] == 3 * pow(v, 2) * x[b],
                s[b + 1] == 2 * pow(v, 1) * x[b + 1],
                s[b + 2] == 1 * pow(v, 0) * x[b + 2],
                s[b + 3] == 0,
                pow(v, 0) == 1,
                pow(v, 1) == v,
                pow(v, 2) == v * v,
        ;
    }
}

/// Every exact solution meets its boundary conditions: at the first
/// breakpoint, segment 0 has a zero cubic coefficient if that breakpoint is
/// `Linear` and a zero slope otherwise; the same holds of the last segment
/// at the last breakpoint.
pub proof fn lemma_boundaries(n: nat, modes: Seq<Mode>, t: Seq<int>, x: Seq<int>, xx: Seq<int>)
    requires
        valid(n, modes, t, x, xx),
        solves(n, modes, t, x, xx),
    ensures
        modes[0] == Mode::Linear ==> x[0] == 0,
        modes[0] == Mode::Cubic ==> slope_at(x, 0, t[0]) == 0,
        modes[n - 1] == Mode::Linear ==> x[4 * (n - 2)] == 0,
        modes[n - 1] == Mode::Cubic ==> slope_at(x, n - 2, t[n - 1]) == 0,
{
    lemma_boundary_row(n, modes, t, x, false);
    lemma_boundary_row(n, modes, t, x, true);
    assert(row_value(n, modes, t, x, 4 * n - 6) == rhs_value(xx, 4 * n - 6));
    assert(row_value(n, modes, t, x, 4 * n - 5) == rhs_value(xx, 4 * n - 5));
    assert((4 * n - 6) % 4 == 2 && (4 * n - 5) % 4 == 3);
}

} // verus!
