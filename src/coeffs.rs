//! Sets of Fourier coefficients over any copyable number type: the
//! coefficients of the harmonics `0, 1, 2, ...` and of `0, -1, -2, ...`.

use crate::spline::IndexError;
use vstd::prelude::*;

verus! {

/// Coefficient `k` of `ppos` is that of harmonic `k`, coefficient `k` of
/// `nneg` that of harmonic `-k`; both hold as many.
pub struct CoeffsSet<C> {
    ppos: Vec<C>,
    nneg: Vec<C>,
}

impl<C> View for CoeffsSet<C> {
    type V = (Seq<C>, Seq<C>);

    closed spec fn view(&self) -> (Seq<C>, Seq<C>) {
        (self.ppos@, self.nneg@)
    }
}

/// Whether a set holds as many coefficients of each sign.
pub open spec fn balanced<C>(v: (Seq<C>, Seq<C>)) -> bool {
    v.0.len() == v.1.len()
}

impl<C: Copy> CoeffsSet<C> {
    /// `n` coefficients of each sign, all `zero`.
    pub fn new(n: usize, zero: C) -> (r: CoeffsSet<C>)
        ensures
            r@.0 == Seq::new(n as nat, |k: int| zero),
            r@.1 == Seq::new(n as nat, |k: int| zero),
    {
        let mut ppos: Vec<C> = Vec::new();
        let mut nneg: Vec<C> = Vec::new();
        let mut k: usize = 0;
        while k < n
            invariant
                k <= n,
                ppos@ == Seq::new(k as nat, |j: int| zero),
                nneg@ == Seq::new(k as nat, |j: int| zero),
            decreases n - k,
        {
            ppos.push(zero);
            nneg.push(zero);
            k = k + 1;
            assert(ppos@ =~= Seq::new(k as nat, |j: int| zero));
            assert(nneg@ =~= Seq::new(k as nat, |j: int| zero));
        }
        CoeffsSet { ppos, nneg }
    }

    /// The number of coefficients of each sign.
    pub fn len(&self) -> (r: usize)
        requires
            balanced(self@),
        ensures
            r == self@.0.len(),
            r == self@.1.len(),
    {
        self.ppos.len()
    }

    /// The coefficient of harmonic `k`.
    pub fn positive(&self, k: usize) -> (r: Result<C, IndexError>)
        ensures
            k < self@.0.len() ==> r == Ok::<C, IndexError>(self@.0[k as int]),
            k >= self@.0.len() ==> r == Err::<C, IndexError>(
                IndexError { index: k, len: self@.0.len() as usize },
            ),
    {
        if k < self.ppos.len() {
            Ok(self.ppos[k])
        } else {
            Err(IndexError { index: k, len: self.ppos.len() })
        }
    }

    /// The coefficient of harmonic `-k`.
    pub fn negative(&self, k: usize) -> (r: Result<C, IndexError>)
        ensures
            k < self@.1.len() ==> r == Ok::<C, IndexError>(self@.1[k as int]),
            k >= self@.1.len() ==> r == Err::<C, IndexError>(
                IndexError { index: k, len: self@.1.len() as usize },
            ),
    {
        if k < self.nneg.len() {
            Ok(self.nneg[k])
        } else {
            Err(IndexError { index: k, len: self.nneg.len() })
        }
    }

    /// Sets the coefficients of harmonics `k` and `-k`.
    pub fn set(&mut self, k: usize, pos: C, neg: C) -> (r: Result<(), IndexError>)
        requires
            balanced(old(self)@),
        ensures
            k < old(self)@.0.len() ==> r is Ok && final(self)@.0 == old(self)@.0.update(k as int, pos)
                && final(self)@.1 == old(self)@.1.update(k as int, neg),
            k >= old(self)@.0.len() ==> r == Err::<(), IndexError>(
                IndexError { index: k, len: old(self)@.0.len() as usize },
            ) && final(self)@ == old(self)@,
    {
        if k < self.ppos.len() {
            self.ppos.set(k, pos);
            self.nneg.set(k, neg);
            Ok(())
        } else {
            Err(IndexError { index: k, len: self.ppos.len() })
        }
    }

    /// Appends the coefficients of the next harmonic and its opposite.
    pub fn push(&mut self, pos: C, neg: C)
        ensures
            final(self)@.0 == old(self)@.0.push(pos),
            final(self)@.1 == old(self)@.1.push(neg),
    {
        self.ppos.push(pos);
        self.nneg.push(neg);
    }
}

} // verus!
