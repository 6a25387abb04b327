use vstd::prelude::*;
use vstd::arithmetic::div_mod::*;
use vstd::arithmetic::mul::*;
use vstd::arithmetic::power2::*;
use crate::field::{
    fadd, fmul, fsub, fsum, le_u32_bytes, lemma_fadd_zero, lemma_fmul_one_zero, lemma_identity_combine, lemma_fsum_range,
    lemma_fsum_concat, lemma_modulus_bounds, lemma_scalar_range, modulus, scalars_bytes, sum_scalars, values, Scalar,
};
use crate::hypercube::{generate_pairs, lemma_pow2_divides, pair_gap, pair_low};
use crate::sumcheck_utils::{u32_le_bytes, vec_to_bytes};

verus! {

/// The table left after fixing variable `k` of the table `e` to `r`: each pair of entries
/// that differ only in that variable, `v0` with it clear and `v1` with it set, collapses
/// to `r * v1 + (1 - r) * v0`.
pub open spec fn ml_partial(e: Seq<int>, r: int, k: nat) -> Seq<int> {
    let gap = pair_gap(e.len() as int, k);
    Seq::new(
        (e.len() / 2) as nat,
        |i: int| fadd(fmul(r, e[pair_low(i, gap) + gap]), fmul(fsub(1, r), e[pair_low(i, gap)])),
    )
}

/// The value of the multilinear polynomial with table `e` at `pts`: fix the first
/// variable to each point in turn and read the one entry that remains.
pub open spec fn ml_eval(e: Seq<int>, pts: Seq<int>) -> int
    decreases pts.len(),
{
    if pts.len() == 0 {
        e[0]
    } else {
        ml_eval(ml_partial(e, pts[0], 0), pts.drop_first())
    }
}

/// The table of the sum of two multilinear polynomials. Where one has fewer variables,
/// each of its entries is repeated to fill the longer table (it does not depend on the
/// extra, least significant, variables).
pub open spec fn ml_add(a: Seq<int>, b: Seq<int>) -> Seq<int> {
    if a.len() == b.len() {
        Seq::new(a.len(), |i: int| fadd(a[i], b[i]))
    } else if a.len() > b.len() {
        Seq::new(a.len(), |i: int| fadd(a[i], b[i / (a.len() / b.len()) as int]))
    } else {
        Seq::new(b.len(), |i: int| fadd(b[i], a[i / (b.len() / a.len()) as int]))
    }
}

/// The byte image of a table of `n` variables: `n` and the table's length as
/// little-endian 32-bit integers, then each entry's canonical encoding.
pub open spec fn ml_bytes(n: nat, e: Seq<int>) -> Seq<u8> {
    le_u32_bytes(n as int) + le_u32_bytes(e.len() as int) + scalars_bytes(e)
}

/// The entries of table `e` whose variable `k` equals `bit`, in order, with that
/// variable dropped: entry `i` comes from the index `i` with `bit` inserted at the
/// position of variable `k`.
pub open spec fn ml_slice(e: Seq<int>, k: nat, bit: bool) -> Seq<int> {
    let gap = pair_gap(e.len() as int, k);
    Seq::new(
        (e.len() / 2) as nat,
        |i: int|
            if bit {
                e[pair_low(i, gap) + gap]
            } else {
                e[pair_low(i, gap)]
            },
    )
}

/// The table left after fixing, in turn, variable `idxs[j]` to `pts[j]`.
pub open spec fn ml_partials(e: Seq<int>, pts: Seq<int>, idxs: Seq<usize>) -> Seq<int>
    decreases pts.len(),
{
    if pts.len() == 0 {
        e
    } else {
        ml_partials(ml_partial(e, pts[0], idxs[0] as nat), pts.drop_first(), idxs.drop_first())
    }
}

/// The round polynomial of table `e` in its first variable, as its values at 0 and 1.
pub open spec fn round_evals(e: Seq<int>) -> Seq<int> {
    seq![fsum(ml_partial(e, 0, 0)), fsum(ml_partial(e, 1, 0))]
}

/// The value at `x` of the one-variable polynomial with table `g`.
#[verifier::opaque]
pub open spec fn uni_at(g: Seq<int>, x: int) -> int {
    ml_eval(g, seq![x])
}

/// The tables of a sequence of polynomials.
pub open spec fn tables(ps: Seq<MultiLinearPolynomial>) -> Seq<Seq<int>> {
    ps.map_values(|p: MultiLinearPolynomial| p.evals())
}

/// The byte image of a sequence of polynomials, one after the other.
pub open spec fn polys_bytes(ps: Seq<MultiLinearPolynomial>) -> Seq<u8>
    decreases ps.len(),
{
    if ps.len() == 0 {
        Seq::empty()
    } else {
        polys_bytes(ps.drop_last()) + ml_bytes(ps.last().num_vars(), ps.last().evals())
    }
}

/// A polynomial of degree at most one in each variable, held as its values on the
/// Boolean hypercube; variable 0 is the most significant bit of an index.
#[derive(Clone, Debug, PartialEq)]
pub struct MultiLinearPolynomial {
    variables: usize,
    evaluations: Vec<Scalar>,
}

impl MultiLinearPolynomial {
    pub closed spec fn num_vars(&self) -> nat {
        self.variables as nat
    }

    pub closed spec fn evals(&self) -> Seq<int> {
        values(self.evaluations@)
    }

    pub open spec fn wf(&self) -> bool {
        self.evals().len() == pow2(self.num_vars())
    }

    pub fn new(variables: usize, evaluations: Vec<Scalar>) -> (r: Self)
        requires
            evaluations@.len() == pow2(variables as nat),
        ensures
            r.wf(),
            r.num_vars() == variables,
            r.evals() == values(evaluations@),
    {
        MultiLinearPolynomial { variables, evaluations }
    }

    /// The number of variables.
    pub fn variables(&self) -> (r: usize)
        ensures
            r == self.num_vars(),
    {
        self.variables
    }

    /// The values on the hypercube.
    pub fn evaluations(&self) -> (r: &Vec<Scalar>)
        ensures
            values(r@) == self.evals(),
    {
        &self.evaluations
    }

    /// The sum of the values over the hypercube.
    pub fn sum(&self) -> (r: Scalar)
        ensures
            r@ == fsum(self.evals()),
    {
        sum_scalars(self.evaluations.as_slice())
    }

    /// A copy of the polynomial.
    pub fn duplicate(&self) -> (r: Self)
        ensures
            r.num_vars() == self.num_vars(),
            r.evals() == self.evals(),
    {
        let mut evaluations: Vec<Scalar> = Vec::with_capacity(self.evaluations.len());
        let mut i: usize = 0;
        while i < self.evaluations.len()
            invariant
                i <= self.evaluations@.len(),
                evaluations@ =~= self.evaluations@.take(i as int),
            decreases self.evaluations@.len() - i,
        {
            evaluations.push(self.evaluations[i]);
            i = i + 1;
        }
        proof {
            assert(self.evaluations@.take(i as int) =~= self.evaluations@);
        }
        MultiLinearPolynomial { variables: self.variables, evaluations }
    }

    /// The univariate round polynomial in the first variable, in evaluation form: the
    /// sums of the values with the first variable fixed to 0 and to 1.
    pub fn round_polynomial(&self) -> (r: Self)
        requires
            self.wf(),
            self.num_vars() >= 1,
        ensures
            r.wf(),
            r.num_vars() == 1,
            r.evals() == round_evals(self.evals()),
    {
        let at_zero = self.partial_eval(Scalar::zero(), 0).sum();
        let at_one = self.partial_eval(Scalar::one(), 0).sum();
        let mut evaluations: Vec<Scalar> = Vec::with_capacity(2);
        evaluations.push(at_zero);
        evaluations.push(at_one);
        proof {
            lemma2_to64();
            assert(values(evaluations@) =~= round_evals(self.evals()));
        }
        MultiLinearPolynomial { variables: 1, evaluations }
    }

    /// The sum of two polynomials; one with fewer variables is extended to the other's.
    pub fn add(&self, other: Self) -> (r: Self)
        requires
            self.wf(),
            other.wf(),
        ensures
            r.wf(),
            r.num_vars() == if self.num_vars() >= other.num_vars() {
                self.num_vars()
            } else {
                other.num_vars()
            },
            r.evals() == ml_add(self.evals(), other.evals()),
    {
        let eval_1_len = self.evaluations.len();
        let eval_2_len = other.evaluations.len();
        proof {
            lemma_pow2_pos(self.num_vars());
            lemma_pow2_pos(other.num_vars());
            if self.num_vars() < other.num_vars() {
                lemma_pow2_strictly_increases(self.num_vars(), other.num_vars());
            } else if self.num_vars() > other.num_vars() {
                lemma_pow2_strictly_increases(other.num_vars(), self.num_vars());
            }
        }
        let mut new_eval: Vec<Scalar> = Vec::with_capacity(eval_1_len);
        if self.variables == other.variables {
            let mut i: usize = 0;
            while i < eval_1_len
                invariant
                    i <= eval_1_len,
                    eval_1_len == self.evaluations@.len(),
                    eval_2_len == other.evaluations@.len(),
                    eval_1_len == eval_2_len,
                    new_eval@.len() == i,
                    forall|j: int|
                        0 <= j < i ==> #[trigger] new_eval@[j]@ == fadd(
                            self.evaluations@[j]@,
                            other.evaluations@[j]@,
                        ),
                decreases eval_1_len - i,
            {
                new_eval.push(self.evaluations[i].add(&other.evaluations[i]));
                i = i + 1;
            }
            let r = MultiLinearPolynomial { variables: self.variables, evaluations: new_eval };
            proof {
                assert(r.evals() =~= ml_add(self.evals(), other.evals()));
            }
            return r;
        }
        let (longer_eval, shorter_eval, longer_len, shorter_len, higher_variable) =
            if eval_1_len > eval_2_len {
            (&self.evaluations, &other.evaluations, eval_1_len, eval_2_len, self.variables)
        } else {
            (&other.evaluations, &self.evaluations, eval_2_len, eval_1_len, other.variables)
        };
        proof {
            let (lo, hi) = if eval_1_len > eval_2_len {
                (other.num_vars(), self.num_vars())
            } else {
                (self.num_vars(), other.num_vars())
            };
            lemma_pow2_divides(lo, hi);
        }
        let factor = longer_len / shorter_len;
        proof {
            assert(longer_len as int % shorter_len as int == 0);
            lemma_fundamental_div_mod(longer_len as int, shorter_len as int);
            lemma_mul_is_commutative(factor as int, shorter_len as int);
            assert(factor * shorter_len == longer_len);
            assert(factor > 0) by (nonlinear_arith)
                requires
                    factor * shorter_len == longer_len,
                    longer_len > 0,
                    shorter_len > 0,
            ;
        }
        let mut i: usize = 0;
        while i < longer_len
            invariant
                i <= longer_len,
                longer_len == longer_eval@.len(),
                shorter_len == shorter_eval@.len(),
                factor * shorter_len == longer_len,
                factor > 0,
                new_eval@.len() == i,
                forall|j: int|
                    0 <= j < i ==> #[trigger] new_eval@[j]@ == fadd(
                        longer_eval@[j]@,
                        shorter_eval@[j / factor as int]@,
                    ),
            decreases longer_len - i,
        {
            proof {
                lemma_multiply_divide_lt(i as int, factor as int, shorter_len as int);
                lemma_div_pos_is_pos(i as int, factor as int);
            }
            new_eval.push(longer_eval[i].add(&shorter_eval[i / factor]));
            i = i + 1;
        }
        let r = MultiLinearPolynomial { variables: higher_variable, evaluations: new_eval };
        proof {
            let a = self.evals();
            let b = other.evals();
            assert(a.len() != b.len());
            if eval_1_len > eval_2_len {
                assert(a.len() / b.len() == factor);
            } else {
                assert(b.len() / a.len() == factor);
            }
            assert forall|j: int| 0 <= j < r.evals().len() implies r.evals()[j] == ml_add(a, b)[j] by {
                lemma_multiply_divide_lt(j, factor as int, shorter_len as int);
                lemma_div_pos_is_pos(j, factor as int);
            }
            assert(r.evals() =~= ml_add(a, b));
        }
        r
    }

    /// Fixes variable `idx` to `eval_point`, leaving a polynomial of one variable fewer.
    pub fn partial_eval(&self, eval_point: Scalar, idx: usize) -> (r: Self)
        requires
            self.wf(),
            idx < self.num_vars(),
        ensures
            r.wf(),
            r.num_vars() == self.num_vars() - 1,
            r.evals() == ml_partial(self.evals(), eval_point@, idx as nat),
    {
        let evals_ref = &self.evaluations;
        proof {
            lemma_pow2_divides((idx + 1) as nat, self.num_vars());
            lemma_pow2_unfold((idx + 1) as nat);
            lemma_pow2_pos(idx as nat);
            lemma_pow2_unfold(self.num_vars());
            lemma_pow2_pos((self.num_vars() - (idx + 1)) as nat);
        }
        let pairs = generate_pairs(evals_ref.len(), idx);
        let mut new_results: Vec<Scalar> = Vec::with_capacity(evals_ref.len() / 2);
        let one = Scalar::one();
        let ghost gap = pair_gap(evals_ref@.len() as int, idx as nat);
        let mut i: usize = 0;
        while i < pairs.len()
            invariant
                i <= pairs@.len(),
                pairs@.len() == evals_ref@.len() / 2,
                one@ == 1,
                evals_ref == &self.evaluations,
                gap > 0,
                gap == pair_gap(evals_ref@.len() as int, idx as nat),
                pairs@.len() * 2 == evals_ref@.len(),
                forall|j: int|
                    #![trigger pairs@[j]]
                    0 <= j < pairs@.len() ==> pairs@[j].0 as int == pair_low(j, gap)
                        && pairs@[j].1 as int == pairs@[j].0 + gap && pairs@[j].1 < evals_ref@.len(),
                new_results@.len() == i,
                forall|j: int|
                    0 <= j < i ==> #[trigger] new_results@[j]@ == ml_partial(
                        self.evals(),
                        eval_point@,
                        idx as nat,
                    )[j],
            decreases pairs@.len() - i,
        {
            let (first, second) = pairs[i];
            let val1 = &evals_ref[first];
            let val2 = &evals_ref[second];
            let combined = eval_point.mul(val2).add(&one.sub(&eval_point).mul(val1));
            proof {
                let e = self.evals();
                assert(e.len() == evals_ref@.len());
                assert(first as int == pair_low(i as int, gap));
                assert(e[first as int] == val1@);
                assert(e[second as int] == val2@);
                let g2 = pair_gap(e.len() as int, idx as nat);
                assert(g2 == gap);
                assert(second as int == pair_low(i as int, g2) + g2);
                assert(i < (e.len() / 2) as nat);
                let rhs = fadd(fmul(eval_point@, e[pair_low(i as int, g2) + g2]), fmul(fsub(1, eval_point@), e[pair_low(i as int, g2)]));
                assert(combined@ == rhs);
                assert(ml_partial(e, eval_point@, idx as nat)[i as int] == rhs);
            }
            new_results.push(combined);
            i = i + 1;
        }
        let r = MultiLinearPolynomial { variables: self.variables - 1, evaluations: new_results };
        proof {
            assert(r.evals() =~= ml_partial(self.evals(), eval_point@, idx as nat));
        }
        r
    }

    /// The value at `eval_points`, one point per variable.
    pub fn eval_full(&self, eval_points: &[Scalar]) -> (r: Scalar)
        requires
            self.wf(),
            eval_points@.len() == self.num_vars(),
        ensures
            r@ == ml_eval(self.evals(), values(eval_points@)),
    {
        let ghost pts = values(eval_points@);
        if eval_points.len() == 0 {
            proof {
                lemma2_to64();
            }
            return self.evaluations[0];
        }
        let mut current_eval = self.partial_eval(eval_points[0], 0);
        proof {
            assert(pts.drop_first() =~= pts.subrange(1, pts.len() as int));
        }
        let mut i: usize = 1;
        while i < eval_points.len()
            invariant
                1 <= i <= eval_points@.len(),
                eval_points@.len() == self.num_vars(),
                pts == values(eval_points@),
                current_eval.wf(),
                current_eval.num_vars() == self.num_vars() - i,
                ml_eval(self.evals(), pts) == ml_eval(
                    current_eval.evals(),
                    pts.subrange(i as int, pts.len() as int),
                ),
            decreases eval_points@.len() - i,
        {
            let next = current_eval.partial_eval(eval_points[i], 0);
            proof {
                assert(pts.subrange(i as int, pts.len() as int).drop_first() =~= pts.subrange(
                    i + 1,
                    pts.len() as int,
                ));
            }
            current_eval = next;
            i = i + 1;
        }
        proof {
            lemma2_to64();
            assert(pts.subrange(i as int, pts.len() as int).len() == 0);
        }
        current_eval.evaluations[0]
    }

    /// Fixes, in turn, variable `variable_indices[j]` (counted among the variables left
    /// at that step) to `evaluation_points[j]`.
    pub fn partial_evaluations(&self, evaluation_points: Vec<Scalar>, variable_indices: Vec<usize>) -> (r: Self)
        requires
            self.wf(),
            evaluation_points@.len() == variable_indices@.len(),
            evaluation_points@.len() <= self.num_vars(),
            forall|j: int|
                0 <= j < variable_indices@.len() ==> #[trigger] variable_indices@[j] < self.num_vars() - j,
        ensures
            r.wf(),
            r.num_vars() == self.num_vars() - evaluation_points@.len(),
            r.evals() == ml_partials(self.evals(), values(evaluation_points@), variable_indices@),
    {
        let ghost pts = values(evaluation_points@);
        let ghost idxs = variable_indices@;
        let mut current = self.duplicate();
        proof {
            assert(pts.subrange(0, pts.len() as int) =~= pts);
            assert(idxs.subrange(0, idxs.len() as int) =~= idxs);
        }
        let mut j: usize = 0;
        while j < evaluation_points.len()
            invariant
                j <= evaluation_points@.len(),
                evaluation_points@.len() == variable_indices@.len(),
                evaluation_points@.len() <= self.num_vars(),
                pts == values(evaluation_points@),
                idxs == variable_indices@,
                forall|t: int|
                    0 <= t < variable_indices@.len() ==> #[trigger] variable_indices@[t] < self.num_vars() - t,
                current.wf(),
                current.num_vars() == self.num_vars() - j,
                ml_partials(self.evals(), pts, idxs) == ml_partials(
                    current.evals(),
                    pts.subrange(j as int, pts.len() as int),
                    idxs.subrange(j as int, idxs.len() as int),
                ),
            decreases evaluation_points@.len() - j,
        {
            proof {
                assert(pts.subrange(j as int, pts.len() as int).drop_first() =~= pts.subrange(
                    j + 1,
                    pts.len() as int,
                ));
                assert(idxs.subrange(j as int, idxs.len() as int).drop_first() =~= idxs.subrange(
                    j + 1,
                    idxs.len() as int,
                ));
            }
            current = current.partial_eval(evaluation_points[j], variable_indices[j]);
            j = j + 1;
        }
        proof {
            assert(pts.subrange(j as int, pts.len() as int) =~= Seq::<int>::empty());
            assert(pts.subrange(0, pts.len() as int) =~= pts);
            assert(idxs.subrange(0, idxs.len() as int) =~= idxs);
        }
        current
    }

    /// The value of a one-variable polynomial at `x`.
    pub fn eval_at(&self, x: Scalar) -> (r: Scalar)
        requires
            self.wf(),
            self.num_vars() == 1,
        ensures
            r@ == uni_at(self.evals(), x@),
    {
        let mut point: Vec<Scalar> = Vec::with_capacity(1);
        point.push(x);
        proof {
            assert(values(point@) =~= seq![x@]);
            reveal(uni_at);
        }
        self.eval_full(point.as_slice())
    }

    /// The byte image absorbed into a transcript.
    pub fn to_bytes(&self) -> (r: Vec<u8>)
        ensures
            r@ == ml_bytes(self.num_vars(), self.evals()),
    {
        let mut bytes = u32_le_bytes(self.variables);
        let mut len_bytes = u32_le_bytes(self.evaluations.len());
        bytes.append(&mut len_bytes);
        let mut body = vec_to_bytes(&self.evaluations);
        bytes.append(&mut body);
        bytes
    }
}

/// Entries of a table are field values.
pub open spec fn in_field(e: Seq<int>) -> bool {
    forall|i: int| 0 <= i < e.len() ==> 0 <= #[trigger] e[i] < modulus()
}

proof fn lemma_table_slices(e: Seq<int>, n: nat, k: nat)
    requires
        e.len() == pow2(n),
        k < n,
        in_field(e),
    ensures
        ml_partial(e, 0, k) == ml_slice(e, k, false),
        ml_partial(e, 1, k) == ml_slice(e, k, true),
{
    let gap = pair_gap(e.len() as int, k);
    lemma_modulus_bounds();
    lemma_pow2_divides(k + 1, n);
    lemma_pow2_unfold(n);
    lemma_pow2_unfold(k + 1);
    lemma_pow2_pos((n - (k + 1)) as nat);
    lemma_pow2_pos(k);
    assert(e.len() == gap * 2 * pow2(k)) by (nonlinear_arith)
        requires
            pow2(k + 1) * pow2((n - (k + 1)) as nat) == e.len(),
            pow2(k + 1) == 2 * pow2(k),
            gap == pow2((n - (k + 1)) as nat),
    ;
    assert forall|i: int| 0 <= i < e.len() / 2 implies 0 <= pair_low(i, gap) && pair_low(i, gap)
        + gap < e.len() by {
        lemma_pair_in_range(i, gap, e.len() as int, pow2(k) as int);
    }
    assert forall|i: int| 0 <= i < e.len() / 2 implies ml_partial(e, 0, k)[i] == ml_slice(
        e,
        k,
        false,
    )[i] by {
        let v0 = e[pair_low(i, gap)];
        let v1 = e[pair_low(i, gap) + gap];
        lemma_fmul_one_zero(v0);
        lemma_fmul_one_zero(v1);
        lemma_fadd_zero(v0);
    }
    assert forall|i: int| 0 <= i < e.len() / 2 implies ml_partial(e, 1, k)[i] == ml_slice(
        e,
        k,
        true,
    )[i] by {
        let v0 = e[pair_low(i, gap)];
        let v1 = e[pair_low(i, gap) + gap];
        lemma_fmul_one_zero(v0);
        lemma_fmul_one_zero(v1);
        lemma_fadd_zero(v1);
    }
    assert(ml_partial(e, 0, k) =~= ml_slice(e, k, false));
    assert(ml_partial(e, 1, k) =~= ml_slice(e, k, true));
}

/// Fixing a variable to 0 keeps the half of the table where that variable is 0, and
/// fixing it to 1 the half where it is 1; either way the variable is dropped.
pub proof fn lemma_partial_eval_at_bits(p: MultiLinearPolynomial, k: nat)
    requires
        p.wf(),
        k < p.num_vars(),
    ensures
        ml_partial(p.evals(), 0, k) == ml_slice(p.evals(), k, false),
        ml_partial(p.evals(), 1, k) == ml_slice(p.evals(), k, true),
{
    lemma_evals_in_field(p);
    lemma_table_slices(p.evals(), p.num_vars(), k);
}

pub proof fn lemma_evals_in_field(p: MultiLinearPolynomial)
    ensures
        in_field(p.evals()),
{
    assert forall|i: int| 0 <= i < p.evals().len() implies 0 <= #[trigger] p.evals()[i] < modulus() by {
        lemma_scalar_range(p.evaluations@[i]);
    }
}

proof fn lemma_pair_in_range(i: int, gap: int, len: int, q: int)
    requires
        gap > 0,
        q > 0,
        len == gap * 2 * q,
        0 <= i < len / 2,
    ensures
        0 <= pair_low(i, gap),
        pair_low(i, gap) + gap < len,
{
    lemma_fundamental_div_mod(i, gap);
    lemma_div_pos_is_pos(i, gap);
    lemma_mod_bound(i, gap);
    assert(gap * q * 2 == len) by (nonlinear_arith)
        requires
            len == gap * 2 * q,
    ;
    assert(i < gap * q);
    lemma_multiply_divide_lt(i, gap, q);
    assert((i / gap) * (2 * gap) + i % gap + gap < len) by (nonlinear_arith)
        requires
            i / gap < q,
            i % gap < gap,
            gap * q * 2 == len,
            0 <= i / gap,
    ;
}

/// The sum over the hypercube splits into the sums of the two halves left after fixing
/// the first variable to 0 and to 1.
pub proof fn lemma_sum_over_first_variable(p: MultiLinearPolynomial)
    requires
        p.wf(),
        p.num_vars() >= 1,
    ensures
        fsum(p.evals()) == fadd(fsum(ml_partial(p.evals(), 0, 0)), fsum(ml_partial(p.evals(), 1, 0))),
{
    lemma_evals_in_field(p);
    lemma_table_halves(p.evals(), p.num_vars());
}

/// Fixing the first variable to 0 keeps the first half of the table, to 1 the second,
/// and the two halves' sums add up to the table's.
pub proof fn lemma_table_halves(e: Seq<int>, n: nat)
    requires
        e.len() == pow2(n),
        n >= 1,
        in_field(e),
    ensures
        ml_partial(e, 0, 0) == e.take((e.len() / 2) as int),
        ml_partial(e, 1, 0) == e.skip((e.len() / 2) as int),
        fsum(e) == fadd(fsum(ml_partial(e, 0, 0)), fsum(ml_partial(e, 1, 0))),
{
    lemma_table_slices(e, n, 0);
    lemma_pow2_unfold(n);
    lemma2_to64();
    let gap = pair_gap(e.len() as int, 0);
    assert(gap == e.len() / 2);
    assert forall|i: int| 0 <= i < gap implies pair_low(i, gap) == i by {
        lemma_small_mod(i as nat, gap as nat);
        lemma_basic_div(i, gap);
    }
    assert(ml_slice(e, 0, false) =~= e.take(gap));
    assert(ml_slice(e, 0, true) =~= e.skip(gap));
    assert(e =~= e.take(gap) + e.skip(gap));
    lemma_fsum_concat(e.take(gap), e.skip(gap));
}

/// The sum of `r * b[i] + c * a[i]` is `r` times the sum of `b` plus `c` times the sum
/// of `a`.
pub proof fn lemma_fsum_combination(a: Seq<int>, b: Seq<int>, r: int, c: int)
    requires
        a.len() == b.len(),
    ensures
        fsum(Seq::new(a.len(), |i: int| fadd(fmul(r, b[i]), fmul(c, a[i])))) == fadd(
            fmul(r, fsum(b)),
            fmul(c, fsum(a)),
        ),
    decreases a.len(),
{
    let s = Seq::new(a.len(), |i: int| fadd(fmul(r, b[i]), fmul(c, a[i])));
    if a.len() == 0 {
        lemma_mul_basics(r);
        lemma_mul_basics(c);
        lemma_modulus_bounds();
        lemma_small_mod(0, modulus() as nat);
    } else {
        let a1 = a.drop_last();
        let b1 = b.drop_last();
        lemma_fsum_combination(a1, b1, r, c);
        assert(s.drop_last() =~= Seq::new(a1.len(), |i: int| fadd(fmul(r, b1[i]), fmul(c, a1[i]))));
        lemma_identity_combine(r, c, fsum(b1), fsum(a1), b.last(), a.last());
    }
}

/// Fixing the first variable to `r` sums to `r` times the second half's sum plus
/// `1 - r` times the first half's.
pub proof fn lemma_partial_first_sum(e: Seq<int>, n: nat, r: int)
    requires
        e.len() == pow2(n),
        n >= 1,
    ensures
        fsum(ml_partial(e, r, 0)) == fadd(
            fmul(r, fsum(e.skip((e.len() / 2) as int))),
            fmul(fsub(1, r), fsum(e.take((e.len() / 2) as int))),
        ),
{
    lemma_pow2_unfold(n);
    lemma2_to64();
    let h = (e.len() / 2) as int;
    let gap = pair_gap(e.len() as int, 0);
    assert(gap == h);
    assert forall|i: int| 0 <= i < gap implies pair_low(i, gap) == i by {
        lemma_small_mod(i as nat, gap as nat);
        lemma_basic_div(i, gap);
    }
    let a = e.take(h);
    let b = e.skip(h);
    assert(ml_partial(e, r, 0) =~= Seq::new(a.len(), |i: int| fadd(fmul(r, b[i]), fmul(fsub(1, r), a[i]))));
    lemma_fsum_combination(a, b, r, fsub(1, r));
}

/// A one-variable table's value at `x`: `x` times its second entry plus `1 - x` times
/// its first.
pub proof fn lemma_uni_at_pair(g: Seq<int>, x: int)
    requires
        g.len() == 2,
    ensures
        uni_at(g, x) == fadd(fmul(x, g[1]), fmul(fsub(1, x), g[0])),
        uni_at(g, x) == ml_partial(g, x, 0)[0],
{
    reveal(uni_at);
    lemma2_to64();
    assert(pow2(1) == 2);
    assert(pow2((0 + 1) as nat) == 2);
    assert(pair_gap(2, 0) == 1);
    lemma_small_mod(0, 1);
    lemma_basic_div(0, 1);
    assert(pair_low(0, 1) == 0);
    assert(seq![x].drop_first() =~= Seq::<int>::empty());
    let q = ml_partial(g, x, 0);
    assert(ml_eval(q, Seq::<int>::empty()) == q[0]);
    assert(ml_eval(g, seq![x]) == ml_eval(q, seq![x].drop_first()));
    assert(uni_at(g, x) == ml_eval(g, seq![x]));
}

/// Fixing a variable keeps the entries field values.
pub proof fn lemma_partial_in_field(e: Seq<int>, r: int, k: nat)
    ensures
        in_field(ml_partial(e, r, k)),
{
    lemma_modulus_bounds();
    assert forall|i: int| 0 <= i < ml_partial(e, r, k).len() implies 0 <= #[trigger] ml_partial(e, r, k)[i]
        < modulus() by {
        let gap = pair_gap(e.len() as int, k);
        lemma_mod_bound(
            fmul(r, e[pair_low(i, gap) + gap]) + fmul(fsub(1, r), e[pair_low(i, gap)]),
            modulus(),
        );
    }
}

/// The round polynomial of a table sums, over 0 and 1, to the table's sum.
pub proof fn lemma_round_sum_is_total(e: Seq<int>, n: nat)
    requires
        e.len() == pow2(n),
        n >= 1,
        in_field(e),
    ensures
        fadd(uni_at(round_evals(e), 0), uni_at(round_evals(e), 1)) == fsum(e),
        round_evals(e)[0] == fsum(ml_partial(e, 0, 0)),
        round_evals(e)[1] == fsum(ml_partial(e, 1, 0)),
{
    let g = round_evals(e);
    lemma_table_halves(e, n);
    lemma_uni_at_pair(g, 0);
    lemma_uni_at_pair(g, 1);
    lemma_modulus_bounds();
    lemma_fsum_range(ml_partial(e, 0, 0));
    lemma_fsum_range(ml_partial(e, 1, 0));
    lemma_fmul_one_zero(g[0]);
    lemma_fmul_one_zero(g[1]);
    lemma_fadd_zero(g[0]);
    lemma_fadd_zero(g[1]);
}

} // verus!
