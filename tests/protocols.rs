use sumcheck_kit::circuit::{Circuit, CircuitLayer, Gate, GateType};
use sumcheck_kit::composed::ComposedMultilinearPolynomial;
use sumcheck_kit::composed_sumcheck::{ComposedSumcheck, ComposedSumcheckProof};
use sumcheck_kit::field::Scalar;
use sumcheck_kit::multilinear::MultiLinearPolynomial;
use sumcheck_kit::shamir::{construct_seceret, create_shares, shares_from_coefficients};
use sumcheck_kit::sumcheck::{Prover, SumCheckProof, Verifier};
use sumcheck_kit::sumcheck_utils::{boolean_hypercube, generate_pairs, vec_to_bytes};
use sumcheck_kit::transcript::{Transcript, TranscriptInterface};

fn f(v: u64) -> Scalar {
    Scalar::from_u64(v)
}

fn fs(vs: &[u64]) -> Vec<Scalar> {
    vs.iter().map(|v| f(*v)).collect()
}

fn scenario_poly() -> MultiLinearPolynomial {
    MultiLinearPolynomial::new(3, fs(&[0, 0, 0, 2, 2, 2, 2, 4]))
}

#[test]
fn test_sum_calculation() {
    let mut prover = Prover::new(scenario_poly());
    prover.calculate_sum();
    assert_eq!(prover.sum(), f(12));
}

#[test]
fn test_compute_intial_round_poly() {
    let mut prover = Prover::new(scenario_poly());
    prover.compute_initial_round_polynomial();
    assert_eq!(prover.initial_round_polynomial().evaluations(), &fs(&[2, 10]));
}

#[test]
fn plain_sumcheck_round_trip_accepts() {
    let mut prover = Prover::new(scenario_poly());
    let proof = prover.generate_sumcheck_proof();
    assert_eq!(proof.sum, f(12));
    assert_eq!(proof.round_polynomials.len(), 2);
    let mut verifier = Verifier::new();
    assert!(verifier.verify(&proof));
}

#[test]
fn plain_sumcheck_rejects_flipped_evaluation() {
    let mut prover = Prover::new(scenario_poly());
    let proof = prover.generate_sumcheck_proof();
    for i in 0..8 {
        let mut evals = fs(&[0, 0, 0, 2, 2, 2, 2, 4]);
        evals[i] = evals[i].add(&f(1));
        let tampered = SumCheckProof {
            polynomial: MultiLinearPolynomial::new(3, evals),
            ..proof.clone()
        };
        let mut verifier = Verifier::new();
        assert!(!verifier.verify(&tampered));
    }
}

#[test]
fn plain_sumcheck_rejects_wrong_claim() {
    let mut prover = Prover::new_with_sum(scenario_poly(), f(13));
    let proof = prover.generate_sumcheck_proof();
    let mut verifier = Verifier::new();
    assert!(!verifier.verify(&proof));
}

#[test]
fn plain_sumcheck_one_variable() {
    let mut prover = Prover::new(MultiLinearPolynomial::new(1, fs(&[3, 4])));
    let proof = prover.generate_sumcheck_proof();
    assert!(proof.round_polynomials.is_empty());
    let mut verifier = Verifier::new();
    assert!(verifier.verify(&proof));
    assert!(!proof.to_bytes().is_empty());
}

fn scenario_composed() -> ComposedMultilinearPolynomial {
    let e1 = MultiLinearPolynomial::new(2, fs(&[0, 1, 2, 3]));
    let e2 = MultiLinearPolynomial::new(2, fs(&[0, 0, 0, 1]));
    ComposedMultilinearPolynomial::new(vec![e1, e2])
}

#[test]
fn composed_sumcheck_round_trip_accepts() {
    let sumcheck = ComposedSumcheck::new(scenario_composed());
    assert_eq!(sumcheck.sum, f(3));
    let (proof, challenges) = sumcheck.prove();
    assert_eq!(proof.round_polys.len(), 2);
    assert_eq!(challenges.len(), 2);
    assert!(proof.round_polys.iter().all(|g| g.len() == 3));
    // first round: sums with x0 fixed to 0, 1, 2 of the product
    assert_eq!(proof.round_polys[0], fs(&[0, 3, 10]));
    assert!(sumcheck.verify(&proof));
}

#[test]
fn composed_sumcheck_rejects_modified_constant_term() {
    let sumcheck = ComposedSumcheck::new(scenario_composed());
    let (proof, _) = sumcheck.prove();
    for round in 0..proof.round_polys.len() {
        let mut round_polys = proof.round_polys.clone();
        round_polys[round][0] = round_polys[round][0].add(&f(1));
        let tampered = ComposedSumcheckProof { round_polys, final_eval: proof.final_eval };
        assert!(!sumcheck.verify(&tampered));
    }
    let wrong_final = ComposedSumcheckProof {
        round_polys: proof.round_polys.clone(),
        final_eval: proof.final_eval.add(&f(1)),
    };
    assert!(!sumcheck.verify(&wrong_final));
}

#[test]
fn transcripts_with_equal_input_agree() {
    let mut a = Transcript::new();
    let mut b = Transcript::new();
    a.append(&[1, 2, 3]);
    b.append(&[1, 2, 3]);
    let ca = a.sample_challenge();
    let cb = b.sample_challenge();
    assert_eq!(ca, cb);
    let next_a = a.sample_challenges();
    let next_b = b.sample_challenges();
    assert_eq!(next_a, next_b);
    let mut c = Transcript::new();
    c.append(&[1, 2, 4]);
    assert_ne!(c.sample_challenge(), ca);
}

#[test]
fn squeezes_differ_back_to_back() {
    let mut t = Transcript::new();
    t.append(b"message");
    let first = t.sample_challenges();
    let second = t.sample_challenges();
    assert_ne!(first, second);
    let mut u = <Transcript as TranscriptInterface>::new();
    u.submit_data(b"message");
    assert_eq!(u.generate_challenge(), first);
}

#[test]
fn test_secret_sharing_creation() {
    let secret = f(20);
    let threshold = 4;
    let members = 6;
    let the_shares = create_shares(secret, threshold, members);
    let seceret_construction = construct_seceret(the_shares.0, the_shares.1, f(0));
    assert_eq!(seceret_construction, Ok(f(20u64)));
}

#[test]
fn shares_are_points_of_the_polynomial() {
    let (xs, ys) = shares_from_coefficients(&fs(&[5, 1, 2]), 4);
    assert_eq!(xs, fs(&[0, 1, 2, 3]));
    assert_eq!(ys, fs(&[5, 8, 15, 26]));
}

#[test]
fn utilities() {
    assert_eq!(generate_pairs(6), vec![(0, 1), (2, 3), (4, 5)]);
    let cube = boolean_hypercube(2);
    assert_eq!(cube, vec![fs(&[0, 0]), fs(&[0, 1]), fs(&[1, 0]), fs(&[1, 1])]);
    let bytes = vec_to_bytes(&fs(&[1, 2]));
    assert_eq!(bytes.len(), 64);
    assert_eq!(bytes[31], 1);
    assert_eq!(bytes[63], 2);
}

fn sample_circuit() -> Circuit {
    // output = (a + b) * (c * d)
    let top = CircuitLayer::new(vec![Gate::new(GateType::Mul, [0, 1])]);
    let middle = CircuitLayer::new(vec![
        Gate::new(GateType::Add, [0, 1]),
        Gate::new(GateType::Mul, [2, 3]),
    ]);
    Circuit::new(vec![top, middle], 4)
}

#[test]
fn circuit_evaluation() {
    let circuit = sample_circuit();
    let evaluation = circuit.evaluate(&fs(&[1, 2, 3, 4]));
    assert_eq!(evaluation.layers.len(), 3);
    assert_eq!(evaluation.w(0, 0), f(36));
    assert_eq!(evaluation.w(1, 0), f(3));
    assert_eq!(evaluation.w(1, 1), f(12));
    assert_eq!(evaluation.w(2, 3), f(4));
}

#[test]
fn circuit_wiring_and_sizes() {
    let circuit = sample_circuit();
    assert!(circuit.add_i(1, 0, 0, 1));
    assert!(!circuit.add_i(1, 1, 2, 3));
    assert!(circuit.mul_i(1, 1, 2, 3));
    assert!(circuit.mul_i(0, 0, 0, 1));
    assert_eq!(circuit.num_outputs(), 1);
    assert_eq!(circuit.num_inputs(), 4);
    assert_eq!(circuit.layers().len(), 2);
    assert_eq!(circuit.num_vars_at(0), Some(0));
    assert_eq!(circuit.num_vars_at(1), Some(1));
    assert_eq!(circuit.num_vars_at(2), Some(2));
    assert_eq!(circuit.num_vars_at(3), None);
    assert_eq!(circuit.layers()[1].len(), 2);
    assert!(!circuit.layers()[1].is_empty());
}
