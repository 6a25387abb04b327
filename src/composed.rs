use vstd::prelude::*;
use crate::field::{fmul, le_u32_bytes, values, Scalar};
use crate::multilinear::{
    ml_add, ml_eval, ml_partial, ml_partials, polys_bytes, tables, MultiLinearPolynomial,
};
use crate::sumcheck_utils::u32_le_bytes;

verus! {

/// The product, factor by factor in order, of the factors' values at `pts`.
pub open spec fn comp_eval(ts: Seq<Seq<int>>, pts: Seq<int>) -> int
    decreases ts.len(),
{
    if ts.len() == 0 {
        1
    } else {
        fmul(comp_eval(ts.drop_last(), pts), ml_eval(ts.last(), pts))
    }
}

/// The product, factor by factor in order, of entry `i` of each table.
pub open spec fn column_product(ts: Seq<Seq<int>>, i: int) -> int
    decreases ts.len(),
{
    if ts.len() == 0 {
        1
    } else {
        fmul(column_product(ts.drop_last(), i), ts.last()[i])
    }
}

/// The pointwise product of `len` entries of the tables.
pub open spec fn elementwise(ts: Seq<Seq<int>>, len: nat) -> Seq<int> {
    Seq::new(len, |i: int| column_product(ts, i))
}

/// A product of multilinear polynomials over the same variables.
#[derive(Clone, Debug, PartialEq)]
pub struct ComposedMultilinearPolynomial {
    pub polys: Vec<MultiLinearPolynomial>,
}

impl ComposedMultilinearPolynomial {
    pub open spec fn wf(&self) -> bool {
        &&& self.polys@.len() > 0
        &&& forall|j: int|
            0 <= j < self.polys@.len() ==> (#[trigger] self.polys@[j]).wf()
                && self.polys@[j].num_vars() == self.polys@[0].num_vars()
    }

    /// The number of variables of the factors.
    pub open spec fn num_vars(&self) -> nat {
        self.polys@[0].num_vars()
    }

    /// The factors' tables.
    pub open spec fn factor_tables(&self) -> Seq<Seq<int>> {
        tables(self.polys@)
    }

    pub fn new(polys: Vec<MultiLinearPolynomial>) -> (r: Self)
        requires
            polys@.len() > 0,
            forall|j: int|
                0 <= j < polys@.len() ==> (#[trigger] polys@[j]).wf() && polys@[j].num_vars()
                    == polys@[0].num_vars(),
        ensures
            r.wf(),
            r.polys@ == polys@,
    {
        ComposedMultilinearPolynomial { polys }
    }

    /// A copy of the product.
    pub fn clone_product(&self) -> (r: Self)
        requires
            self.wf(),
        ensures
            r.wf(),
            r.polys@.len() == self.polys@.len(),
            r.num_vars() == self.num_vars(),
            r.factor_tables() == self.factor_tables(),
    {
        let mut polys: Vec<MultiLinearPolynomial> = Vec::with_capacity(self.polys.len());
        let mut j: usize = 0;
        while j < self.polys.len()
            invariant
                self.wf(),
                j <= self.polys@.len(),
                polys@.len() == j,
                forall|t: int|
                    0 <= t < j ==> (#[trigger] polys@[t]).num_vars() == self.polys@[t].num_vars()
                        && polys@[t].evals() == self.polys@[t].evals(),
            decreases self.polys@.len() - j,
        {
            polys.push(self.polys[j].duplicate());
            j = j + 1;
        }
        let r = ComposedMultilinearPolynomial { polys };
        proof {
            assert(r.factor_tables() =~= self.factor_tables());
        }
        r
    }

    /// The product of the factors' values at `point`.
    pub fn evaluate(&self, point: &[Scalar]) -> (r: Scalar)
        requires
            self.wf(),
            point@.len() == self.num_vars(),
        ensures
            r@ == comp_eval(self.factor_tables(), values(point@)),
    {
        let mut acc = Scalar::one();
        let mut j: usize = 0;
        while j < self.polys.len()
            invariant
                self.wf(),
                point@.len() == self.num_vars(),
                j <= self.polys@.len(),
                acc@ == comp_eval(self.factor_tables().take(j as int), values(point@)),
            decreases self.polys@.len() - j,
        {
            let v = self.polys[j].eval_full(point);
            proof {
                assert(self.factor_tables().take(j + 1).drop_last() =~= self.factor_tables().take(
                    j as int,
                ));
            }
            acc = acc.mul(&v);
            j = j + 1;
        }
        proof {
            assert(self.factor_tables().take(j as int) =~= self.factor_tables());
        }
        acc
    }

    /// Fixes variable `idx` of every factor to `eval_point`.
    pub fn partial_eval(&self, eval_point: Scalar, idx: usize) -> (r: Self)
        requires
            self.wf(),
            idx < self.num_vars(),
        ensures
            r.wf(),
            r.polys@.len() == self.polys@.len(),
            r.num_vars() == self.num_vars() - 1,
            forall|j: int|
                0 <= j < r.polys@.len() ==> (#[trigger] r.polys@[j]).evals() == ml_partial(
                    self.polys@[j].evals(),
                    eval_point@,
                    idx as nat,
                ),
    {
        let mut polys: Vec<MultiLinearPolynomial> = Vec::with_capacity(self.polys.len());
        let mut j: usize = 0;
        while j < self.polys.len()
            invariant
                self.wf(),
                idx < self.num_vars(),
                j <= self.polys@.len(),
                polys@.len() == j,
                forall|t: int|
                    0 <= t < j ==> (#[trigger] polys@[t]).wf() && polys@[t].num_vars()
                        == self.num_vars() - 1 && polys@[t].evals() == ml_partial(
                        self.polys@[t].evals(),
                        eval_point@,
                        idx as nat,
                    ),
            decreases self.polys@.len() - j,
        {
            polys.push(self.polys[j].partial_eval(eval_point, idx));
            j = j + 1;
        }
        ComposedMultilinearPolynomial { polys }
    }

    /// Applies `partial_evaluations` to every factor.
    pub fn partial_evaluations(&self, evaluation_points: Vec<Scalar>, variable_indices: Vec<usize>) -> (r: Self)
        requires
            self.wf(),
            evaluation_points@.len() == variable_indices@.len(),
            evaluation_points@.len() < self.num_vars(),
            forall|j: int|
                0 <= j < variable_indices@.len() ==> #[trigger] variable_indices@[j] < self.num_vars() - j,
        ensures
            r.wf(),
            r.polys@.len() == self.polys@.len(),
            forall|j: int|
                0 <= j < r.polys@.len() ==> (#[trigger] r.polys@[j]).evals() == ml_partials(
                    self.polys@[j].evals(),
                    values(evaluation_points@),
                    variable_indices@,
                ),
    {
        let mut polys: Vec<MultiLinearPolynomial> = Vec::with_capacity(self.polys.len());
        let mut j: usize = 0;
        while j < self.polys.len()
            invariant
                self.wf(),
                evaluation_points@.len() == variable_indices@.len(),
                evaluation_points@.len() < self.num_vars(),
                forall|t: int|
                    0 <= t < variable_indices@.len() ==> #[trigger] variable_indices@[t] < self.num_vars() - t,
                j <= self.polys@.len(),
                polys@.len() == j,
                forall|t: int|
                    0 <= t < j ==> (#[trigger] polys@[t]).wf() && polys@[t].num_vars()
                        == self.num_vars() - evaluation_points@.len() && polys@[t].evals()
                        == ml_partials(
                        self.polys@[t].evals(),
                        values(evaluation_points@),
                        variable_indices@,
                    ),
            decreases self.polys@.len() - j,
        {
            let mut points: Vec<Scalar> = Vec::new();
            let mut indices: Vec<usize> = Vec::new();
            let mut t: usize = 0;
            while t < evaluation_points.len()
                invariant
                    t <= evaluation_points@.len(),
                    evaluation_points@.len() == variable_indices@.len(),
                    points@ == evaluation_points@.take(t as int),
                    indices@ == variable_indices@.take(t as int),
                decreases evaluation_points@.len() - t,
            {
                points.push(evaluation_points[t]);
                indices.push(variable_indices[t]);
                proof {
                    assert(points@ =~= evaluation_points@.take(t + 1));
                    assert(indices@ =~= variable_indices@.take(t + 1));
                }
                t = t + 1;
            }
            proof {
                assert(points@ =~= evaluation_points@);
                assert(indices@ =~= variable_indices@);
            }
            polys.push(self.polys[j].partial_evaluations(points, indices));
            j = j + 1;
        }
        ComposedMultilinearPolynomial { polys }
    }

    /// The pointwise product of the factors' tables.
    pub fn elementwise_product(&self) -> (r: Vec<Scalar>)
        requires
            self.wf(),
        ensures
            values(r@) == elementwise(self.factor_tables(), self.polys@[0].evals().len()),
    {
        let eval_len = self.polys[0].evaluations().len();
        let mut result: Vec<Scalar> = Vec::with_capacity(eval_len);
        let mut i: usize = 0;
        while i < eval_len
            invariant
                self.wf(),
                eval_len == self.polys@[0].evals().len(),
                i <= eval_len,
                result@.len() == i,
                forall|t: int|
                    0 <= t < i ==> (#[trigger] result@[t])@ == column_product(self.factor_tables(), t),
            decreases eval_len - i,
        {
            let mut acc = Scalar::one();
            let mut j: usize = 0;
            while j < self.polys.len()
                invariant
                    self.wf(),
                    eval_len == self.polys@[0].evals().len(),
                    i < eval_len,
                    j <= self.polys@.len(),
                    acc@ == column_product(self.factor_tables().take(j as int), i as int),
                decreases self.polys@.len() - j,
            {
                let evals = self.polys[j].evaluations();
                proof {
                    assert(self.factor_tables().take(j + 1).drop_last() =~= self.factor_tables().take(
                        j as int,
                    ));
                    assert(values(evals@)[i as int] == evals@[i as int]@);
                }
                acc = acc.mul(&evals[i]);
                j = j + 1;
            }
            proof {
                assert(self.factor_tables().take(j as int) =~= self.factor_tables());
            }
            result.push(acc);
            i = i + 1;
        }
        proof {
            assert(values(result@) =~= elementwise(self.factor_tables(), eval_len as nat));
        }
        result
    }

    /// The degree bound of a round polynomial: the number of factors.
    pub fn max_degree(&self) -> (r: usize)
        ensures
            r == self.polys@.len(),
    {
        self.polys.len()
    }

    /// The number of factors as a little-endian 32-bit integer, then each factor's bytes.
    pub fn to_bytes(&self) -> (r: Vec<u8>)
        ensures
            r@ == le_u32_bytes(self.polys@.len() as int) + polys_bytes(self.polys@),
    {
        let mut bytes = u32_le_bytes(self.polys.len());
        let ghost head = bytes@;
        let mut i: usize = 0;
        while i < self.polys.len()
            invariant
                i <= self.polys@.len(),
                bytes@ == head + polys_bytes(self.polys@.take(i as int)),
            decreases self.polys@.len() - i,
        {
            let mut b = self.polys[i].to_bytes();
            bytes.append(&mut b);
            proof {
                assert(self.polys@.take(i + 1).drop_last() =~= self.polys@.take(i as int));
            }
            i = i + 1;
        }
        proof {
            assert(self.polys@.take(i as int) =~= self.polys@);
        }
        bytes
    }

    /// The factorwise sum of two products with the same number of factors.
    pub fn add(self, other: Self) -> (r: Self)
        requires
            self.wf(),
            other.wf(),
            self.polys@.len() == other.polys@.len(),
        ensures
            r.polys@.len() == self.polys@.len(),
            forall|j: int|
                0 <= j < r.polys@.len() ==> (#[trigger] r.polys@[j]).evals() == ml_add(
                    self.polys@[j].evals(),
                    other.polys@[j].evals(),
                ),
    {
        let mut polys: Vec<MultiLinearPolynomial> = Vec::with_capacity(self.polys.len());
        let mut j: usize = 0;
        while j < self.polys.len()
            invariant
                self.wf(),
                other.wf(),
                self.polys@.len() == other.polys@.len(),
                j <= self.polys@.len(),
                polys@.len() == j,
                forall|t: int|
                    0 <= t < j ==> (#[trigger] polys@[t]).evals() == ml_add(
                        self.polys@[t].evals(),
                        other.polys@[t].evals(),
                    ),
            decreases self.polys@.len() - j,
        {
            polys.push(self.polys[j].add(other.polys[j].duplicate()));
            j = j + 1;
        }
        ComposedMultilinearPolynomial { polys }
    }

    /// Adds `other` into this product, factor by factor.
    pub fn add_assign(&mut self, other: Self)
        requires
            old(self).wf(),
            other.wf(),
            old(self).polys@.len() == other.polys@.len(),
        ensures
            final(self).polys@.len() == old(self).polys@.len(),
            forall|j: int|
                0 <= j < final(self).polys@.len() ==> (#[trigger] final(self).polys@[j]).evals()
                    == ml_add(old(self).polys@[j].evals(), other.polys@[j].evals()),
    {
        let mut polys: Vec<MultiLinearPolynomial> = Vec::new();
        std::mem::swap(&mut polys, &mut self.polys);
        let current = ComposedMultilinearPolynomial { polys };
        let sum = current.add(other);
        self.polys = sum.polys;
    }
}

} // verus!
