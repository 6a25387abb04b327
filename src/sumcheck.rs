use vstd::prelude::*;
use crate::field::{fadd, fsum, scalar_bytes, values, Scalar};
use vstd::arithmetic::power2::*;
use crate::field::lemma_fadd_zero;
use crate::multilinear::{
    in_field, lemma_evals_in_field, lemma_partial_first_sum, lemma_partial_in_field,
    lemma_round_sum_is_total, lemma_table_halves, lemma_uni_at_pair, ml_bytes, ml_eval, ml_partial,
    polys_bytes, round_evals, tables, uni_at, MultiLinearPolynomial,
};
use crate::transcript::{challenge_of, keccak256, Transcript};

verus! {

/// The prover's state after `j` rounds, starting from table `e` and transcript state
/// `s`: each round squeezes a challenge, fixes the first variable to it, and absorbs
/// the round polynomial of what is left.
pub open spec fn prover_state(e: Seq<int>, s: Seq<u8>, j: nat) -> (Seq<int>, Seq<u8>)
    decreases j,
{
    if j == 0 {
        (e, s)
    } else {
        let p = prover_state(e, s, (j - 1) as nat);
        let e2 = ml_partial(p.0, challenge_of(p.1), 0);
        (e2, keccak256(p.1) + ml_bytes(1, round_evals(e2)))
    }
}

/// The sum of a one-variable polynomial over {0, 1}.
pub open spec fn round_sum(g: Seq<int>) -> int {
    fadd(uni_at(g, 0), uni_at(g, 1))
}

/// The verifier's transcript state before its `j`-th challenge, having started from
/// `s`: the initial round polynomial, then after each challenge the next round
/// polynomial.
pub open spec fn verifier_state(init: Seq<int>, rounds: Seq<Seq<int>>, s: Seq<u8>, j: nat) -> Seq<u8>
    decreases j,
{
    if j == 0 {
        s + ml_bytes(1, init)
    } else {
        keccak256(verifier_state(init, rounds, s, (j - 1) as nat)) + ml_bytes(1, rounds[j - 1])
    }
}

/// The verifier's `j`-th challenge.
pub open spec fn verifier_challenge(init: Seq<int>, rounds: Seq<Seq<int>>, s: Seq<u8>, j: nat) -> int {
    challenge_of(verifier_state(init, rounds, s, j))
}

/// The round polynomial that the `j`-th challenge is put into.
pub open spec fn previous_round(init: Seq<int>, rounds: Seq<Seq<int>>, j: int) -> Seq<int> {
    if j == 0 {
        init
    } else {
        rounds[j - 1]
    }
}

/// Whether the verifier, starting from transcript state `s`, accepts `proof`: the
/// polynomials have the expected shapes, the initial round polynomial sums to the
/// claim, each round polynomial sums to the previous one at its challenge, and the last
/// one at the final challenge equals the polynomial at all the challenges.
pub open spec fn sumcheck_accepts(proof: SumCheckProof, s: Seq<u8>) -> bool {
    let init = proof.initial_round_polynomial.evals();
    let rounds = tables(proof.round_polynomials@);
    let k = rounds.len();
    &&& proof.initial_round_polynomial.num_vars() == 1
    &&& forall|j: int| 0 <= j < k ==> (#[trigger] proof.round_polynomials@[j]).num_vars() == 1
    &&& proof.polynomial.num_vars() == k + 1
    &&& round_sum(init) == proof.sum@
    &&& forall|j: int|
        0 <= j < k ==> uni_at(previous_round(init, rounds, j), #[trigger] verifier_challenge(init, rounds, s, j as nat))
            == round_sum(rounds[j])
    &&& uni_at(previous_round(init, rounds, k as int), verifier_challenge(init, rounds, s, k))
        == ml_eval(
        proof.polynomial.evals(),
        Seq::new(k + 1, |j: int| verifier_challenge(init, rounds, s, j as nat)),
    )
}

/// A non-interactive sum-check proof: the polynomial (for the verifier's final query),
/// the claimed sum, the round polynomial in the first variable, and one round
/// polynomial for each later variable.
#[derive(Debug, Clone, PartialEq)]
pub struct SumCheckProof {
    pub polynomial: MultiLinearPolynomial,
    pub sum: Scalar,
    pub round_polynomials: Vec<MultiLinearPolynomial>,
    pub initial_round_polynomial: MultiLinearPolynomial,
}

impl SumCheckProof {
    pub open spec fn wf(&self) -> bool {
        &&& self.polynomial.wf()
        &&& self.initial_round_polynomial.wf()
        &&& forall|j: int|
            0 <= j < self.round_polynomials@.len() ==> (#[trigger] self.round_polynomials@[j]).wf()
    }

    /// The byte image of the proof.
    pub fn to_bytes(&self) -> (r: Vec<u8>)
        ensures
            r@ == ml_bytes(self.polynomial.num_vars(), self.polynomial.evals()) + scalar_bytes(
                self.sum@,
            ) + polys_bytes(self.round_polynomials@) + ml_bytes(
                self.initial_round_polynomial.num_vars(),
                self.initial_round_polynomial.evals(),
            ),
    {
        let mut result = self.polynomial.to_bytes();
        let mut sum_bytes = self.sum.to_bytes_be();
        result.append(&mut sum_bytes);
        let ghost head = result@;
        let mut i: usize = 0;
        while i < self.round_polynomials.len()
            invariant
                i <= self.round_polynomials@.len(),
                result@ == head + polys_bytes(self.round_polynomials@.take(i as int)),
            decreases self.round_polynomials@.len() - i,
        {
            let mut b = self.round_polynomials[i].to_bytes();
            result.append(&mut b);
            proof {
                assert(self.round_polynomials@.take(i + 1).drop_last() =~= self.round_polynomials@.take(
                    i as int,
                ));
            }
            i = i + 1;
        }
        proof {
            assert(self.round_polynomials@.take(i as int) =~= self.round_polynomials@);
        }
        let mut tail = self.initial_round_polynomial.to_bytes();
        result.append(&mut tail);
        result
    }
}

/// The prover of the sum-check protocol for one multilinear polynomial.
#[derive(Debug)]
pub struct Prover {
    poly: MultiLinearPolynomial,
    round_polynomials: Vec<MultiLinearPolynomial>,
    initial_round_polynomial: MultiLinearPolynomial,
    sum: Scalar,
    transcript: Transcript,
}

impl Prover {
    pub closed spec fn spec_poly(&self) -> MultiLinearPolynomial {
        self.poly
    }

    pub closed spec fn spec_sum(&self) -> int {
        self.sum@
    }

    pub closed spec fn spec_initial(&self) -> MultiLinearPolynomial {
        self.initial_round_polynomial
    }

    pub closed spec fn spec_transcript(&self) -> Seq<u8> {
        self.transcript@
    }

    pub open spec fn wf(&self) -> bool {
        self.spec_poly().wf() && self.spec_poly().num_vars() >= 1
    }

    fn empty_round_polynomial() -> (r: MultiLinearPolynomial)
        ensures
            r.wf(),
            r.num_vars() == 1,
    {
        let mut evaluations: Vec<Scalar> = Vec::with_capacity(2);
        evaluations.push(Scalar::zero());
        evaluations.push(Scalar::zero());
        proof {
            vstd::arithmetic::power2::lemma2_to64();
        }
        MultiLinearPolynomial::new(1, evaluations)
    }

    /// A prover for `poly`, claiming its true sum over the hypercube.
    pub fn new(poly: MultiLinearPolynomial) -> (r: Self)
        requires
            poly.wf(),
            poly.num_vars() >= 1,
        ensures
            r.wf(),
            r.spec_poly() == poly,
            r.spec_sum() == fsum(poly.evals()),
            r.spec_transcript() == Seq::<u8>::empty(),
    {
        let sum = poly.sum();
        Prover {
            poly,
            round_polynomials: Vec::new(),
            initial_round_polynomial: Self::empty_round_polynomial(),
            sum,
            transcript: Transcript::new(),
        }
    }

    /// A prover for `poly` that claims `sum`.
    pub fn new_with_sum(poly: MultiLinearPolynomial, sum: Scalar) -> (r: Self)
        requires
            poly.wf(),
            poly.num_vars() >= 1,
        ensures
            r.wf(),
            r.spec_poly() == poly,
            r.spec_sum() == sum@,
            r.spec_transcript() == Seq::<u8>::empty(),
    {
        Prover {
            poly,
            round_polynomials: Vec::new(),
            initial_round_polynomial: Self::empty_round_polynomial(),
            sum,
            transcript: Transcript::new(),
        }
    }

    /// The claimed sum.
    pub fn sum(&self) -> (r: Scalar)
        ensures
            r@ == self.spec_sum(),
    {
        self.sum
    }

    /// The round polynomial in the first variable, once computed.
    pub fn initial_round_polynomial(&self) -> (r: &MultiLinearPolynomial)
        ensures
            *r == self.spec_initial(),
    {
        &self.initial_round_polynomial
    }

    /// Sets the claim to the sum of the polynomial over the hypercube.
    pub fn calculate_sum(&mut self)
        requires
            old(self).wf(),
        ensures
            final(self).wf(),
            final(self).spec_poly() == old(self).spec_poly(),
            final(self).spec_sum() == fsum(old(self).spec_poly().evals()),
            final(self).spec_initial() == old(self).spec_initial(),
            final(self).spec_transcript() == old(self).spec_transcript(),
    {
        self.sum = self.poly.sum();
    }

    /// Computes the round polynomial in the first variable, the sums with that
    /// variable fixed to 0 and to 1, and absorbs it.
    pub fn compute_initial_round_polynomial(&mut self)
        requires
            old(self).wf(),
        ensures
            final(self).wf(),
            final(self).spec_poly() == old(self).spec_poly(),
            final(self).spec_sum() == old(self).spec_sum(),
            final(self).spec_initial().wf(),
            final(self).spec_initial().num_vars() == 1,
            final(self).spec_initial().evals() == round_evals(old(self).spec_poly().evals()),
            final(self).spec_transcript() == old(self).spec_transcript() + ml_bytes(
                1,
                round_evals(old(self).spec_poly().evals()),
            ),
    {
        let g = self.poly.round_polynomial();
        let bytes = g.to_bytes();
        self.transcript.append(bytes.as_slice());
        self.initial_round_polynomial = g;
    }

    /// Runs the protocol: the round polynomial in the first variable, then for each
    /// later variable a challenge, the polynomial with the earlier variable fixed to
    /// it, and the round polynomial of what is left.
    pub fn generate_sumcheck_proof(&mut self) -> (r: SumCheckProof)
        requires
            old(self).wf(),
        ensures
            final(self).wf(),
            r.wf(),
            r.polynomial.num_vars() == old(self).spec_poly().num_vars(),
            r.polynomial.evals() == old(self).spec_poly().evals(),
            r.sum@ == old(self).spec_sum(),
            r.initial_round_polynomial.num_vars() == 1,
            r.initial_round_polynomial.evals() == round_evals(old(self).spec_poly().evals()),
            r.round_polynomials@.len() == old(self).spec_poly().num_vars() - 1,
            forall|j: int|
                0 <= j < r.round_polynomials@.len() ==> (#[trigger] r.round_polynomials@[j]).num_vars()
                    == 1 && r.round_polynomials@[j].evals() == round_evals(
                    prover_state(
                        old(self).spec_poly().evals(),
                        old(self).spec_transcript() + ml_bytes(
                            1,
                            round_evals(old(self).spec_poly().evals()),
                        ),
                        (j + 1) as nat,
                    ).0,
                ),
            final(self).spec_transcript() == prover_state(
                old(self).spec_poly().evals(),
                old(self).spec_transcript() + ml_bytes(1, round_evals(old(self).spec_poly().evals())),
                (old(self).spec_poly().num_vars() - 1) as nat,
            ).1,
    {
        self.compute_initial_round_polynomial();
        let ghost e0 = self.poly.evals();
        let ghost s0 = self.transcript@;
        let ghost sum0 = self.sum@;
        let ghost init0 = self.initial_round_polynomial.evals();
        let n = self.poly.variables();
        let mut current = self.poly.duplicate();
        let mut rounds: Vec<MultiLinearPolynomial> = Vec::new();
        let mut i: usize = 0;
        while i + 1 < n
            invariant
                self.wf(),
                self.sum@ == sum0,
                self.initial_round_polynomial.wf(),
                self.initial_round_polynomial.num_vars() == 1,
                self.initial_round_polynomial.evals() == init0,
                n == self.poly.num_vars(),
                i < n,
                e0 == self.poly.evals(),
                current.wf(),
                current.num_vars() == n - i,
                rounds@.len() == i,
                (current.evals(), self.transcript@) == prover_state(e0, s0, i as nat),
                forall|j: int|
                    0 <= j < i ==> (#[trigger] rounds@[j]).wf() && rounds@[j].num_vars() == 1
                        && rounds@[j].evals() == round_evals(prover_state(e0, s0, (j + 1) as nat).0),
            decreases n - i,
        {
            let challenge = self.transcript.sample_challenge();
            current = current.partial_eval(challenge, 0);
            let g = current.round_polynomial();
            let bytes = g.to_bytes();
            self.transcript.append(bytes.as_slice());
            rounds.push(g);
            i = i + 1;
        }
        let proof = SumCheckProof {
            polynomial: self.poly.duplicate(),
            sum: self.sum,
            round_polynomials: rounds,
            initial_round_polynomial: self.initial_round_polynomial.duplicate(),
        };
        let mut kept: Vec<MultiLinearPolynomial> = Vec::new();
        let mut j: usize = 0;
        while j < proof.round_polynomials.len()
            invariant
                j <= proof.round_polynomials@.len(),
            decreases proof.round_polynomials@.len() - j,
        {
            kept.push(proof.round_polynomials[j].duplicate());
            j = j + 1;
        }
        self.round_polynomials = kept;
        proof
    }
}

/// One round of verification: squeezes the round's challenge, checks that `current`
/// sums to `prev` at it, and if so absorbs `current`.
fn check_round(
    transcript: &mut Transcript,
    prev: &MultiLinearPolynomial,
    current: &MultiLinearPolynomial,
) -> (r: (bool, Scalar))
    requires
        prev.wf(),
        prev.num_vars() == 1,
        current.wf(),
        current.num_vars() == 1,
    ensures
        r.1@ == challenge_of(old(transcript)@),
        r.0 == (uni_at(prev.evals(), r.1@) == round_sum(current.evals())),
        r.0 ==> final(transcript)@ == keccak256(old(transcript)@) + ml_bytes(1, current.evals()),
{
    let challenge = transcript.sample_challenge();
    let prev_eval = prev.eval_at(challenge);
    let current_sum = current.eval_at(Scalar::zero()).add(&current.eval_at(Scalar::one()));
    if !prev_eval.equals(&current_sum) {
        return (false, challenge);
    }
    let b = current.to_bytes();
    transcript.append(b.as_slice());
    (true, challenge)
}

/// The verifier of the sum-check protocol for one multilinear polynomial.
#[derive(Debug)]
pub struct Verifier {
    transcript: Transcript,
}

impl View for Verifier {
    type V = Seq<u8>;

    closed spec fn view(&self) -> Seq<u8> {
        self.transcript@
    }
}

impl Verifier {
    pub fn new() -> (r: Self)
        ensures
            r@ == Seq::<u8>::empty(),
    {
        Verifier { transcript: Transcript::new() }
    }

    /// Checks `proof`: the claimed sum against the initial round polynomial, each round
    /// polynomial against the previous one at its challenge, and the last one at a final
    /// challenge against the polynomial at all the challenges.
    #[verifier::rlimit(80)]
    pub fn verify(&mut self, proof: &SumCheckProof) -> (r: bool)
        requires
            proof.wf(),
        ensures
            r == sumcheck_accepts(*proof, old(self)@),
    {
        let ghost s = self.transcript@;
        let ghost init = proof.initial_round_polynomial.evals();
        let ghost rounds = tables(proof.round_polynomials@);
        let k = proof.round_polynomials.len();
        if proof.initial_round_polynomial.variables() != 1 {
            return false;
        }
        let mut t: usize = 0;
        while t < k
            invariant
                t <= k,
                k == proof.round_polynomials@.len(),
                forall|j: int| 0 <= j < t ==> (#[trigger] proof.round_polynomials@[j]).num_vars() == 1,
            decreases k - t,
        {
            if proof.round_polynomials[t].variables() != 1 {
                return false;
            }
            t = t + 1;
        }
        if proof.polynomial.variables() == 0 || proof.polynomial.variables() - 1 != k {
            return false;
        }
        let g0 = &proof.initial_round_polynomial;
        let computed_sum = g0.eval_at(Scalar::zero()).add(&g0.eval_at(Scalar::one()));
        if !computed_sum.equals(&proof.sum) {
            return false;
        }
        let bytes = g0.to_bytes();
        self.transcript.append(bytes.as_slice());
        let mut random_challenges: Vec<Scalar> = Vec::new();
        let mut i: usize = 0;
        while i < k
            invariant
                i <= k,
                k == proof.round_polynomials@.len(),
                rounds == tables(proof.round_polynomials@),
                init == proof.initial_round_polynomial.evals(),
                s == old(self)@,
                round_sum(init) == proof.sum@,
                proof.polynomial.num_vars() == k + 1,
                proof.initial_round_polynomial.wf(),
                proof.initial_round_polynomial.num_vars() == 1,
                forall|j: int|
                    0 <= j < k ==> (#[trigger] proof.round_polynomials@[j]).num_vars() == 1
                        && proof.round_polynomials@[j].wf(),
                self.transcript@ == verifier_state(init, rounds, s, i as nat),
                random_challenges@.len() == i,
                forall|j: int|
                    0 <= j < i ==> (#[trigger] random_challenges@[j])@ == verifier_challenge(
                        init,
                        rounds,
                        s,
                        j as nat,
                    ),
                forall|j: int|
                    0 <= j < i ==> uni_at(previous_round(init, rounds, j), #[trigger] verifier_challenge(init, rounds, s, j as nat))
                        == round_sum(rounds[j]),
            decreases k - i,
        {
            let current = &proof.round_polynomials[i];
            let prev = if i == 0 {
                &proof.initial_round_polynomial
            } else {
                &proof.round_polynomials[i - 1]
            };
            proof {
                assert(rounds[i as int] == current.evals());
                if i > 0 {
                    assert(rounds[i - 1] == proof.round_polynomials@[i - 1].evals());
                }
                assert(prev.evals() == previous_round(init, rounds, i as int));
            }
            let (consistent, challenge) = check_round(&mut self.transcript, prev, current);
            random_challenges.push(challenge);
            if !consistent {
                proof {
                    let jj: int = i as int;
                    assert(!(uni_at(previous_round(init, rounds, jj), verifier_challenge(init, rounds, s, jj as nat))
                        == round_sum(rounds[jj])));
                }
                return false;
            }
            proof {
                assert(self.transcript@ == verifier_state(init, rounds, s, (i + 1) as nat));
            }
            i = i + 1;
        }
        let final_challenge = self.transcript.sample_challenge();
        random_challenges.push(final_challenge);
        let last = if k == 0 {
            &proof.initial_round_polynomial
        } else {
            &proof.round_polynomials[k - 1]
        };
        let last_eval = last.eval_at(final_challenge);
        let main_eval = proof.polynomial.eval_full(random_challenges.as_slice());
        proof {
            assert(values(random_challenges@) =~= Seq::new(
                (k + 1) as nat,
                |j: int| verifier_challenge(init, rounds, s, j as nat),
            ));
        }
        last_eval.equals(&main_eval)
    }
}

proof fn lemma_prover_tables(e: Seq<int>, n: nat, s: Seq<u8>, j: nat)
    requires
        e.len() == pow2(n),
        in_field(e),
        j < n,
    ensures
        prover_state(e, s, j).0.len() == pow2((n - j) as nat),
        in_field(prover_state(e, s, j).0),
    decreases j,
{
    if j > 0 {
        lemma_prover_tables(e, n, s, (j - 1) as nat);
        let p = prover_state(e, s, (j - 1) as nat);
        lemma_partial_in_field(p.0, challenge_of(p.1), 0);
        lemma_pow2_unfold((n - j + 1) as nat);
    }
}

proof fn lemma_verifier_follows_prover(e: Seq<int>, init: Seq<int>, rounds: Seq<Seq<int>>, j: nat)
    requires
        init == round_evals(e),
        forall|t: int|
            0 <= t < rounds.len() ==> #[trigger] rounds[t] == round_evals(
                prover_state(e, ml_bytes(1, init), (t + 1) as nat).0,
            ),
        j <= rounds.len(),
    ensures
        verifier_state(init, rounds, Seq::empty(), j) == prover_state(e, ml_bytes(1, init), j).1,
    decreases j,
{
    if j == 0 {
        assert(Seq::<u8>::empty() + ml_bytes(1, init) =~= ml_bytes(1, init));
    } else {
        lemma_verifier_follows_prover(e, init, rounds, (j - 1) as nat);
        assert(rounds[j - 1] == round_evals(prover_state(e, ml_bytes(1, init), j).0));
    }
}

proof fn lemma_eval_along_rounds(e: Seq<int>, s: Seq<u8>, cs: Seq<int>, j: nat)
    requires
        j <= cs.len(),
        forall|t: int| 0 <= t < j ==> #[trigger] cs[t] == challenge_of(prover_state(e, s, t as nat).1),
    ensures
        ml_eval(e, cs) == ml_eval(prover_state(e, s, j).0, cs.skip(j as int)),
    decreases j,
{
    if j == 0 {
        assert(cs.skip(0) =~= cs);
    } else {
        lemma_eval_along_rounds(e, s, cs, (j - 1) as nat);
        let rest = cs.skip(j - 1);
        assert(rest.drop_first() =~= cs.skip(j as int));
        assert(rest[0] == cs[j - 1]);
    }
}

/// Completeness: the proof that a fresh prover makes for a polynomial of at least one
/// variable, claiming its true sum, is accepted by a fresh verifier.
pub proof fn lemma_honest_proof_accepted(proof: SumCheckProof)
    requires
        proof.wf(),
        proof.polynomial.num_vars() >= 1,
        proof.sum@ == fsum(proof.polynomial.evals()),
        proof.initial_round_polynomial.num_vars() == 1,
        proof.initial_round_polynomial.evals() == round_evals(proof.polynomial.evals()),
        proof.round_polynomials@.len() == proof.polynomial.num_vars() - 1,
        forall|j: int|
            0 <= j < proof.round_polynomials@.len() ==> (#[trigger] proof.round_polynomials@[j]).num_vars()
                == 1 && proof.round_polynomials@[j].evals() == round_evals(
                prover_state(
                    proof.polynomial.evals(),
                    ml_bytes(1, round_evals(proof.polynomial.evals())),
                    (j + 1) as nat,
                ).0,
            ),
    ensures
        sumcheck_accepts(proof, Seq::empty()),
{
    let e = proof.polynomial.evals();
    let n = proof.polynomial.num_vars();
    let init = proof.initial_round_polynomial.evals();
    let rounds = tables(proof.round_polynomials@);
    let k = rounds.len();
    let s0 = ml_bytes(1, init);
    let empty = Seq::<u8>::empty();
    lemma_evals_in_field(proof.polynomial);
    assert forall|t: int| 0 <= t < rounds.len() implies #[trigger] rounds[t] == round_evals(
        prover_state(e, s0, (t + 1) as nat).0,
    ) by {
        assert(rounds[t] == proof.round_polynomials@[t].evals());
    }
    assert forall|j: int| 0 <= j <= k implies #[trigger] verifier_state(init, rounds, empty, j as nat)
        == prover_state(e, s0, j as nat).1 by {
        lemma_verifier_follows_prover(e, init, rounds, j as nat);
    }
    assert forall|j: int| 0 <= j <= k implies previous_round(init, rounds, j) == round_evals(
        prover_state(e, s0, j as nat).0,
    ) by {
        if j > 0 {
            assert(rounds[j - 1] == round_evals(prover_state(e, s0, j as nat).0));
        }
    }
    // the claim
    lemma_round_sum_is_total(e, n);
    // each round
    assert forall|j: int| 0 <= j < k implies uni_at(
        previous_round(init, rounds, j),
        #[trigger] verifier_challenge(init, rounds, empty, j as nat),
    ) == round_sum(rounds[j]) by {
        let p = prover_state(e, s0, j as nat);
        let t = p.0;
        let c = challenge_of(p.1);
        assert(verifier_state(init, rounds, empty, j as nat) == p.1);
        lemma_prover_tables(e, n, s0, j as nat);
        lemma_prover_tables(e, n, s0, (j + 1) as nat);
        let t1 = prover_state(e, s0, (j + 1) as nat).0;
        assert(t1 == ml_partial(t, c, 0));
        lemma_round_sum_is_total(t1, (n - j - 1) as nat);
        lemma_partial_first_sum(t, (n - j) as nat, c);
        lemma_round_sum_is_total(t, (n - j) as nat);
        lemma_table_halves(t, (n - j) as nat);
        lemma_uni_at_pair(round_evals(t), c);
    }
    // the final query
    let p = prover_state(e, s0, k);
    let t = p.0;
    let c = challenge_of(p.1);
    lemma_prover_tables(e, n, s0, k);
    lemma2_to64();
    assert(t.len() == 2);
    lemma_table_halves(t, 1);
    assert(t.take(1).drop_last() =~= Seq::<int>::empty());
    assert(t.skip(1).drop_last() =~= Seq::<int>::empty());
    lemma_fadd_zero(t[0]);
    lemma_fadd_zero(t[1]);
    assert(fsum(Seq::<int>::empty()) == 0);
    assert(ml_partial(t, 0, 0) == t.take(1));
    assert(ml_partial(t, 1, 0) == t.skip(1));
    assert(fsum(t.take(1)) == fadd(fsum(t.take(1).drop_last()), t[0]));
    assert(fsum(t.skip(1)) == fadd(fsum(t.skip(1).drop_last()), t[1]));
    assert(round_evals(t) =~= t);
    lemma_uni_at_pair(t, c);
    let cs = Seq::new(k + 1, |j: int| verifier_challenge(init, rounds, empty, j as nat));
    assert forall|j: int| 0 <= j < k implies #[trigger] cs[j] == challenge_of(prover_state(e, s0, j as nat).1) by {
        assert(verifier_state(init, rounds, empty, j as nat) == prover_state(e, s0, j as nat).1);
    }
    lemma_eval_along_rounds(e, s0, cs, k);
    assert(verifier_state(init, rounds, empty, k) == p.1);
    assert(cs.skip(k as int) =~= seq![c]);
    let q = ml_partial(t, c, 0);
    assert(seq![c].drop_first() =~= Seq::<int>::empty());
    assert(ml_eval(q, Seq::<int>::empty()) == q[0]);
    assert(ml_eval(t, seq![c]) == ml_eval(q, seq![c].drop_first()));
}

} // verus!
