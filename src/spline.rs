//! Piecewise cubic splines over any copyable number type, and the parts of
//! fitting one that do not depend on that type: the layout of the right-hand
//! side of the system and the reading of its solution.

use vstd::prelude::*;

verus! {

/// The cubic `a t^3 + b t^2 + c t + d` of one segment.
#[derive(PartialEq, Eq, Structural, Clone, Copy, Debug)]
pub struct SplinePart<T> {
    pub a: T,
    pub b: T,
    pub c: T,
    pub d: T,
}

/// Why a spline could not be fitted.
#[derive(PartialEq, Eq, Structural, Clone, Copy, Debug)]
pub enum FitError {
    /// Fewer than two breakpoints, or lengths that do not agree.
    DimensionMismatch,
    /// The system has no unique solution (two equal breakpoints, or
    /// constraints that depend on each other).
    SingularSystem,
}

/// A segment index at or past the number of segments.
#[derive(PartialEq, Eq, Structural, Clone, Copy, Debug)]
pub struct IndexError {
    pub index: usize,
    pub len: usize,
}

/// A spline: `changes` holds the `n` breakpoints, `parts` the `n - 1`
/// cubics, part `i` being the one on `[changes[i], changes[i + 1])`.
#[derive(Clone, Debug)]
pub struct Spline<T> {
    parts: Vec<SplinePart<T>>,
    changes: Vec<T>,
}

impl<T> View for Spline<T> {
    type V = (Seq<SplinePart<T>>, Seq<T>);

    closed spec fn view(&self) -> (Seq<SplinePart<T>>, Seq<T>) {
        (self.parts@, self.changes@)
    }
}

/// The part made of the four values of `x` from index `4 i`.
pub open spec fn block<T>(x: Seq<T>, i: int) -> SplinePart<T> {
    SplinePart { a: x[4 * i], b: x[4 * i + 1], c: x[4 * i + 2], d: x[4 * i + 3] }
}

/// Whether a spline's view has at least two breakpoints and one part fewer.
pub open spec fn well_formed<T>(v: (Seq<SplinePart<T>>, Seq<T>)) -> bool {
    v.1.len() >= 2 && v.0.len() + 1 == v.1.len()
}

impl<T: Copy> Spline<T> {
    /// The spline whose breakpoints are `changes` and whose parts are read,
    /// four coefficients each and in breakpoint order, from the solution `x`
    /// of the system. Fails when there are fewer than two breakpoints or when
    /// `x` does not hold four values per segment.
    pub fn from_solution(x: &Vec<T>, changes: &Vec<T>) -> (r: Result<Spline<T>, FitError>)
        ensures
            (changes@.len() >= 2 && x@.len() == 4 * (changes@.len() - 1)) <==> r is Ok,
            r is Err ==> r == Err::<Spline<T>, FitError>(FitError::DimensionMismatch),
            r matches Ok(s) ==> {
                &&& well_formed(s@)
                &&& s@.1 == changes@
                &&& forall|i: int| 0 <= i < s@.0.len() ==> #[trigger] s@.0[i] == block(x@, i)
            },
    {
        let n = changes.len();
        if n < 2 || x.len() / 4 != n - 1 || x.len() % 4 != 0 {
            return Err(FitError::DimensionMismatch);
        }
        let mut parts: Vec<SplinePart<T>> = Vec::new();
        let mut i: usize = 0;
        while i < n - 1
            invariant
                n == changes@.len(),
                n >= 2,
                x@.len() == 4 * (n - 1),
                x@.len() <= usize::MAX,
                i <= n - 1,
                parts@.len() == i,
                forall|k: int| 0 <= k < i ==> #[trigger] parts@[k] == block(x@, k),
            decreases n - 1 - i,
        {
            parts.push(SplinePart { a: x[4 * i], b: x[4 * i + 1], c: x[4 * i + 2], d: x[4 * i + 3] });
            i = i + 1;
        }
        let mut copy: Vec<T> = Vec::new();
        let mut k: usize = 0;
        while k < n
            invariant
                n == changes@.len(),
                k <= n,
                copy@ == changes@.subrange(0, k as int),
            decreases n - k,
        {
            copy.push(changes[k]);
            k = k + 1;
        }
        assert(copy@ == changes@);
        Ok(Spline { parts, changes: copy })
    }

    /// The first breakpoint.
    pub fn start(&self) -> (r: T)
        requires
            well_formed(self@),
        ensures
            r == self@.1[0],
    {
        self.changes[0]
    }

    /// The last breakpoint.
    pub fn end(&self) -> (r: T)
        requires
            well_formed(self@),
        ensures
            r == self@.1[self@.1.len() - 1],
    {
        self.changes[self.changes.len() - 1]
    }

    /// Part `i`, or an `IndexError` past the last part.
    pub fn part(&self, i: usize) -> (r: Result<SplinePart<T>, IndexError>)
        ensures
            i < self@.0.len() ==> r == Ok::<SplinePart<T>, IndexError>(self@.0[i as int]),
            i >= self@.0.len() ==> r == Err::<SplinePart<T>, IndexError>(
                IndexError { index: i, len: self@.0.len() as usize },
            ),
    {
        if i < self.parts.len() {
            Ok(self.parts[i])
        } else {
            Err(IndexError { index: i, len: self.parts.len() })
        }
    }

    /// The breakpoints, in order.
    pub fn changes(&self) -> (r: Vec<T>)
        ensures
            r@ == self@.1,
    {
        let mut copy: Vec<T> = Vec::new();
        let mut k: usize = 0;
        while k < self.changes.len()
            invariant
                k <= self.changes@.len(),
                copy@ == self.changes@.subrange(0, k as int),
            decreases self.changes@.len() - k,
        {
            copy.push(self.changes[k]);
            k = k + 1;
        }
        assert(copy@ == self.changes@);
        copy
    }

    /// The number of parts.
    pub fn num_parts(&self) -> (r: usize)
        ensures
            r == self@.0.len(),
    {
        self.parts.len()
    }
}

/// The right-hand side of the system for the sample values `xx` of one axis:
/// rows `4i` and `4i + 1` hold the values at `t[i]` and `t[i + 1]`, the other
/// rows `zero`.
pub fn rhs_for<T: Copy>(xx: &Vec<T>, zero: T) -> (b: Vec<T>)
    requires
        xx@.len() >= 2,
        4 * (xx@.len() - 1) <= usize::MAX,
    ensures
        b@.len() == 4 * (xx@.len() - 1),
        forall|r: int|
            0 <= r < b@.len() ==> #[trigger] b@[r] == if r % 4 <= 1 {
                xx@[r / 4 + r % 4]
            } else {
                zero
            },
{
    let n = xx.len();
    let mut b: Vec<T> = Vec::new();
    let mut i: usize = 0;
    while i < n - 1
        invariant
            n == xx@.len(),
            n >= 2,
            4 * (n - 1) <= usize::MAX,
            i <= n - 1,
            b@.len() == 4 * i,
            forall|r: int|
                0 <= r < b@.len() ==> #[trigger] b@[r] == if r % 4 <= 1 {
                    xx@[r / 4 + r % 4]
                } else {
                    zero
                },
        decreases n - 1 - i,
    {
        b.push(xx[i]);
        b.push(xx[i + 1]);
        b.push(zero);
        b.push(zero);
        i = i + 1;
    }
    b
}

/// Checks that the breakpoints, the samples of each axis and the modes agree
/// in number, and that there are at least two breakpoints.
pub fn check_lengths(n_times: usize, n_samples: &Vec<usize>, n_modes: usize) -> (r: Result<
    (),
    FitError,
>)
    ensures
        r is Ok <==> (n_times >= 2 && n_modes == n_times && forall|k: int|
            0 <= k < n_samples@.len() ==> #[trigger] n_samples@[k] == n_times),
        r is Err ==> r == Err::<(), FitError>(FitError::DimensionMismatch),
{
    if n_times < 2 || n_modes != n_times {
        return Err(FitError::DimensionMismatch);
    }
    let mut k: usize = 0;
    while k < n_samples.len()
        invariant
            k <= n_samples@.len(),
            forall|j: int| 0 <= j < k ==> #[trigger] n_samples@[j] == n_times,
        decreases n_samples@.len() - k,
    {
        if n_samples[k] != n_times {
            return Err(FitError::DimensionMismatch);
        }
        k = k + 1;
    }
    Ok(())
}

} // verus!
