use vstd::prelude::*;
use crate::composed::{comp_eval, elementwise, ComposedMultilinearPolynomial};
use crate::field::{fadd, fsum, scalars_bytes, sum_scalars, values, Scalar};
use crate::multilinear::{ml_partial, tables};
use crate::sumcheck_utils::vec_to_bytes;
use crate::transcript::{challenge_of, keccak256, Transcript};
use crate::univariate::{
    interpolation, lagrange_interpolate, pairwise_distinct, uni_eval, UnivariantPolynomial,
};

verus! {

/// The nodes `0, 1, ..., n - 1`.
pub open spec fn nodes(n: nat) -> Seq<int> {
    Seq::new(n, |k: int| k)
}

/// Every table with its first variable fixed to `r`.
pub open spec fn fix_first(ts: Seq<Seq<int>>, r: int) -> Seq<Seq<int>> {
    ts.map_values(|t: Seq<int>| ml_partial(t, r, 0))
}

/// The round polynomial of a product of tables in evaluation form: at each node
/// `k <= d`, the sum over the hypercube of the product with the first variable fixed
/// to `k`.
pub open spec fn comp_round_values(ts: Seq<Seq<int>>, d: nat) -> Seq<int> {
    Seq::new(
        d + 1,
        |k: int| fsum(elementwise(fix_first(ts, k), (ts[0].len() / 2) as nat)),
    )
}

/// The value at `x` of the polynomial of degree below `g.len()` that takes the value
/// `g[k]` at node `k`.
pub open spec fn value_from_evaluations(g: Seq<int>, x: int) -> int {
    uni_eval(interpolation(nodes(g.len()), g), x)
}

/// The prover's tables and transcript state before round `j`.
pub open spec fn composed_prover_state(ts: Seq<Seq<int>>, d: nat, j: nat) -> (Seq<Seq<int>>, Seq<u8>)
    decreases j,
{
    if j == 0 {
        (ts, Seq::empty())
    } else {
        let p = composed_prover_state(ts, d, (j - 1) as nat);
        let absorbed = p.1 + scalars_bytes(comp_round_values(p.0, d));
        (fix_first(p.0, challenge_of(absorbed)), keccak256(absorbed))
    }
}

/// The challenge of round `j` of the prover.
pub open spec fn composed_prover_challenge(ts: Seq<Seq<int>>, d: nat, j: nat) -> int {
    let p = composed_prover_state(ts, d, j);
    challenge_of(p.1 + scalars_bytes(comp_round_values(p.0, d)))
}

/// The verifier's transcript state and claimed sum before round `j`.
pub open spec fn composed_verifier_state(gs: Seq<Seq<int>>, sum: int, j: nat) -> (Seq<u8>, int)
    decreases j,
{
    if j == 0 {
        (Seq::empty(), sum)
    } else {
        let p = composed_verifier_state(gs, sum, (j - 1) as nat);
        let absorbed = p.0 + scalars_bytes(gs[j - 1]);
        (keccak256(absorbed), value_from_evaluations(gs[j - 1], challenge_of(absorbed)))
    }
}

/// The verifier's challenge of round `j`.
pub open spec fn composed_verifier_challenge(gs: Seq<Seq<int>>, sum: int, j: nat) -> int {
    challenge_of(composed_verifier_state(gs, sum, j).0 + scalars_bytes(gs[j as int]))
}

/// Whether the verifier accepts round polynomials `gs` with final value `final_eval`
/// for the product with tables `ts` and claimed sum `sum`: one round per variable, each
/// round polynomial given at the nodes `0..=d`, its values at 0 and 1 summing to the
/// current claim, and the product at the challenges equal to the final value.
pub open spec fn composed_accepts(
    ts: Seq<Seq<int>>,
    n: nat,
    d: nat,
    sum: int,
    gs: Seq<Seq<int>>,
    final_eval: int,
) -> bool {
    &&& gs.len() == n
    &&& forall|j: int| 0 <= j < n ==> (#[trigger] gs[j]).len() == d + 1
    &&& forall|j: int|
        0 <= j < n ==> fadd(gs[j][0], gs[j][1]) == (#[trigger] composed_verifier_state(
            gs,
            sum,
            j as nat,
        )).1
    &&& comp_eval(ts, Seq::new(n, |j: int| composed_verifier_challenge(gs, sum, j as nat)))
        == final_eval
}

/// A sum-check claim about a product of multilinear polynomials.
#[derive(Debug, Clone)]
pub struct ComposedSumcheck {
    pub poly: ComposedMultilinearPolynomial,
    pub sum: Scalar,
}

/// The round polynomials, each at the nodes `0..=d`, and the product's value at the
/// challenges.
#[derive(Debug, Clone)]
pub struct ComposedSumcheckProof {
    pub round_polys: Vec<Vec<Scalar>>,
    pub final_eval: Scalar,
}

/// The value at `point` of the polynomial that takes the value `evals[k]` at node `k`.
fn evaluate_uni_poly(evals: &Vec<Scalar>, point: Scalar) -> (r: Scalar)
    requires
        evals@.len() < 0xffff_ffff,
    ensures
        r@ == value_from_evaluations(values(evals@), point@),
{
    let n = evals.len();
    let mut xs: Vec<Scalar> = Vec::with_capacity(n);
    let mut k: usize = 0;
    while k < n
        invariant
            k <= n,
            n < 0xffff_ffff,
            xs@.len() == k,
            forall|t: int| 0 <= t < k ==> (#[trigger] xs@[t])@ == t,
        decreases n - k,
    {
        xs.push(Scalar::from_u64(k as u64));
        k = k + 1;
    }
    proof {
        assert(values(xs@) =~= nodes(n as nat));
    }
    match lagrange_interpolate(xs.as_slice(), evals.as_slice()) {
        Ok(coefficients) => UnivariantPolynomial::new(coefficients).evaluate(point),
        Err(_) => {
            proof {
                assert(pairwise_distinct(values(xs@)));
            }
            Scalar::zero()
        },
    }
}

impl ComposedSumcheck {
    pub open spec fn wf(&self) -> bool {
        self.poly.wf()
    }

    /// A claim about `poly` with its true sum over the hypercube.
    pub fn new(poly: ComposedMultilinearPolynomial) -> (r: Self)
        requires
            poly.wf(),
        ensures
            r.poly == poly,
            r.sum@ == fsum(elementwise(poly.factor_tables(), poly.polys@[0].evals().len())),
    {
        let sum = Self::calculate_sum(&poly);
        ComposedSumcheck { poly, sum }
    }

    /// The sum of the product over the hypercube.
    pub fn calculate_sum(poly: &ComposedMultilinearPolynomial) -> (r: Scalar)
        requires
            poly.wf(),
        ensures
            r@ == fsum(elementwise(poly.factor_tables(), poly.polys@[0].evals().len())),
    {
        let product = poly.elementwise_product();
        sum_scalars(product.as_slice())
    }

    /// The round polynomial of `poly` at the nodes `0..=d`, `d` the number of factors.
    fn compute_round_poly(&self, poly: &ComposedMultilinearPolynomial) -> (r: Vec<Scalar>)
        requires
            poly.wf(),
            poly.num_vars() >= 1,
            poly.polys@.len() < 0xffff_ffff,
        ensures
            values(r@) == comp_round_values(poly.factor_tables(), poly.polys@.len()),
    {
        let max_degree = poly.max_degree();
        let mut round_poly: Vec<Scalar> = Vec::with_capacity(max_degree + 1);
        let mut k: usize = 0;
        while k <= max_degree
            invariant
                poly.wf(),
                poly.num_vars() >= 1,
                max_degree == poly.polys@.len(),
                max_degree < 0xffff_ffff,
                k <= max_degree + 1,
                round_poly@.len() == k,
                forall|t: int|
                    0 <= t < k ==> (#[trigger] round_poly@[t])@ == comp_round_values(
                        poly.factor_tables(),
                        poly.polys@.len(),
                    )[t],
            decreases max_degree + 1 - k,
        {
            let fixed = poly.partial_eval(Scalar::from_u64(k as u64), 0);
            let product = fixed.elementwise_product();
            let eval = sum_scalars(product.as_slice());
            proof {
                let ts = poly.factor_tables();
                assert(fixed.factor_tables() =~= fix_first(ts, k as int));
                vstd::arithmetic::power2::lemma_pow2_unfold(poly.num_vars());
                assert(fixed.polys@[0].evals().len() == (ts[0].len() / 2) as nat);
            }
            round_poly.push(eval);
            k = k + 1;
        }
        proof {
            assert(values(round_poly@) =~= comp_round_values(poly.factor_tables(), poly.polys@.len()));
        }
        round_poly
    }

    /// Runs the protocol: for each variable, the round polynomial at the nodes
    /// `0..=d`, absorbed, then a challenge that the first variable is fixed to. Returns
    /// the proof and the challenges.
    pub fn prove(&self) -> (r: (ComposedSumcheckProof, Vec<Scalar>))
        requires
            self.wf(),
            self.poly.polys@.len() < 0xffff_fffe,
        ensures
            r.0.round_polys@.len() == self.poly.num_vars(),
            r.1@.len() == self.poly.num_vars(),
            forall|j: int|
                0 <= j < self.poly.num_vars() ==> values(#[trigger] r.0.round_polys@[j]@)
                    == comp_round_values(
                    composed_prover_state(
                        self.poly.factor_tables(),
                        self.poly.polys@.len(),
                        j as nat,
                    ).0,
                    self.poly.polys@.len(),
                ) && r.1@[j]@ == composed_prover_challenge(
                    self.poly.factor_tables(),
                    self.poly.polys@.len(),
                    j as nat,
                ),
            r.0.final_eval@ == comp_eval(
                composed_prover_state(
                    self.poly.factor_tables(),
                    self.poly.polys@.len(),
                    self.poly.num_vars(),
                ).0,
                Seq::empty(),
            ),
    {
        let ghost ts = self.poly.factor_tables();
        let ghost d = self.poly.polys@.len();
        let mut transcript = Transcript::new();
        let mut current_poly = self.poly.clone_product();
        let variables = self.poly.polys[0].variables();
        let mut round_polys: Vec<Vec<Scalar>> = Vec::with_capacity(variables);
        let mut challenges: Vec<Scalar> = Vec::with_capacity(variables);
        let mut i: usize = 0;
        while i < variables
            invariant
                self.wf(),
                ts == self.poly.factor_tables(),
                d == self.poly.polys@.len(),
                d < 0xffff_fffe,
                variables == self.poly.num_vars(),
                i <= variables,
                current_poly.wf(),
                current_poly.polys@.len() == d,
                current_poly.num_vars() == variables - i,
                (current_poly.factor_tables(), transcript@) == composed_prover_state(ts, d, i as nat),
                round_polys@.len() == i,
                challenges@.len() == i,
                forall|j: int|
                    0 <= j < i ==> values(#[trigger] round_polys@[j]@) == comp_round_values(
                        composed_prover_state(ts, d, j as nat).0,
                        d,
                    ) && challenges@[j]@ == composed_prover_challenge(ts, d, j as nat),
            decreases variables - i,
        {
            let round_poly = self.compute_round_poly(&current_poly);
            let bytes = vec_to_bytes(&round_poly);
            transcript.append(bytes.as_slice());
            let challenge = transcript.sample_challenge();
            challenges.push(challenge);
            round_polys.push(round_poly);
            let next = current_poly.partial_eval(challenge, 0);
            proof {
                assert(next.factor_tables() =~= fix_first(current_poly.factor_tables(), challenge@));
            }
            current_poly = next;
            i = i + 1;
        }
        let no_points: Vec<Scalar> = Vec::new();
        let final_eval = current_poly.evaluate(no_points.as_slice());
        proof {
            assert(values(no_points@) =~= Seq::<int>::empty());
        }
        (ComposedSumcheckProof { round_polys, final_eval }, challenges)
    }

    /// Checks `proof` against this claim with a fresh transcript.
    pub fn verify(&self, proof: &ComposedSumcheckProof) -> (r: bool)
        requires
            self.wf(),
            self.poly.polys@.len() < 0xffff_fffe,
        ensures
            r == composed_accepts(
                self.poly.factor_tables(),
                self.poly.num_vars(),
                self.poly.polys@.len(),
                self.sum@,
                proof.round_polys@.map_values(|g: Vec<Scalar>| values(g@)),
                proof.final_eval@,
            ),
    {
        let ghost gs = proof.round_polys@.map_values(|g: Vec<Scalar>| values(g@));
        let n = self.poly.polys[0].variables();
        let d = self.poly.max_degree();
        if proof.round_polys.len() != n {
            return false;
        }
        let mut t: usize = 0;
        while t < n
            invariant
                t <= n,
                self.wf(),
                n == self.poly.num_vars(),
                d == self.poly.polys@.len(),
                d < 0xffff_fffe,
                n == proof.round_polys@.len(),
                gs == proof.round_polys@.map_values(|g: Vec<Scalar>| values(g@)),
                forall|j: int| 0 <= j < t ==> (#[trigger] gs[j]).len() == d + 1,
            decreases n - t,
        {
            if proof.round_polys[t].len() != d + 1 {
                proof {
                    let jj: int = t as int;
                    assert(gs[jj].len() != d + 1);
                }
                return false;
            }
            t = t + 1;
        }
        let mut transcript = Transcript::new();
        let mut current_sum = self.sum;
        let mut challenges: Vec<Scalar> = Vec::with_capacity(n);
        let mut i: usize = 0;
        while i < n
            invariant
                self.wf(),
                n == self.poly.num_vars(),
                d == self.poly.polys@.len(),
                d < 0xffff_fffe,
                n == proof.round_polys@.len(),
                gs == proof.round_polys@.map_values(|g: Vec<Scalar>| values(g@)),
                forall|j: int| 0 <= j < n ==> (#[trigger] gs[j]).len() == d + 1,
                i <= n,
                (transcript@, current_sum@) == composed_verifier_state(gs, self.sum@, i as nat),
                challenges@.len() == i,
                forall|j: int|
                    0 <= j < i ==> (#[trigger] challenges@[j])@ == composed_verifier_challenge(
                        gs,
                        self.sum@,
                        j as nat,
                    ),
                forall|j: int|
                    0 <= j < i ==> fadd(gs[j][0], gs[j][1]) == (#[trigger] composed_verifier_state(
                        gs,
                        self.sum@,
                        j as nat,
                    )).1,
            decreases n - i,
        {
            let round_poly = &proof.round_polys[i];
            proof {
                assert(gs[i as int] == values(round_poly@));
                assert(round_poly@.len() == d + 1);
            }
            let eval_at_zero = round_poly[0];
            let eval_at_one = round_poly[1];
            if !eval_at_zero.add(&eval_at_one).equals(&current_sum) {
                proof {
                    let jj: int = i as int;
                    assert(!(fadd(gs[jj][0], gs[jj][1]) == composed_verifier_state(gs, self.sum@, jj as nat).1));
                }
                return false;
            }
            let bytes = vec_to_bytes(round_poly);
            transcript.append(bytes.as_slice());
            let challenge = transcript.sample_challenge();
            challenges.push(challenge);
            current_sum = evaluate_uni_poly(round_poly, challenge);
            i = i + 1;
        }
        let final_value = self.poly.evaluate(challenges.as_slice());
        proof {
            assert(values(challenges@) =~= Seq::new(
                n as nat,
                |j: int| composed_verifier_challenge(gs, self.sum@, j as nat),
            ));
        }
        final_value.equals(&proof.final_eval)
    }
}

} // verus!
