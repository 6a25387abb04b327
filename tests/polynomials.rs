use sumcheck_kit::composed::ComposedMultilinearPolynomial;
use sumcheck_kit::field::Scalar;
use sumcheck_kit::hypercube::generate_pairs;
use sumcheck_kit::multilinear::MultiLinearPolynomial;
use sumcheck_kit::univariate::{lagrange_interpolate, InterpolationError, UnivariantPolynomial};

fn f(v: u64) -> Scalar {
    Scalar::from_u64(v)
}

fn fs(vs: &[u64]) -> Vec<Scalar> {
    vs.iter().map(|v| f(*v)).collect()
}

fn create_test_poly() -> MultiLinearPolynomial {
    MultiLinearPolynomial::new(2, fs(&[1, 2, 3, 4]))
}

fn create_test_composed_poly() -> ComposedMultilinearPolynomial {
    let poly1 = create_test_poly();
    let poly2 = MultiLinearPolynomial::new(2, fs(&[0, 1, 1, 2]));
    ComposedMultilinearPolynomial::new(vec![poly1, poly2])
}

#[test]
fn test_new() {
    let composed = create_test_composed_poly();
    assert_eq!(composed.polys.len(), 2);
    assert_eq!(composed.polys[0].variables(), 2);
    assert_eq!(composed.polys[1].variables(), 2);
}

#[test]
fn test_evaluation() {
    let mle1 = MultiLinearPolynomial::new(2, fs(&[0, 1, 2, 3]));
    let mle2 = MultiLinearPolynomial::new(2, fs(&[0, 0, 0, 1]));
    let polys = ComposedMultilinearPolynomial::new(vec![mle1, mle2]);
    let evaluation = polys.evaluate(&vec![f(2), f(3)]);
    assert_eq!(evaluation, f(42));
}

#[test]
fn multilinear_poly_test_equal_length_evaluatios() {
    let eval_1 = MultiLinearPolynomial::new(2, fs(&[1, 2, 3, 4]));
    let eval_2 = MultiLinearPolynomial::new(2, fs(&[1, 2, 3, 4]));
    assert_eq!(eval_1.add(eval_2), MultiLinearPolynomial::new(2, fs(&[2, 4, 6, 8])));
}

#[test]
fn multilinear_poly_test_different_length_evaluation() {
    let eval_1 = MultiLinearPolynomial::new(3, fs(&[1, 2, 3, 4, 1, 2, 3, 4]));
    let eval_2 = MultiLinearPolynomial::new(2, fs(&[1, 2, 3, 4]));
    assert_eq!(
        eval_1.add(eval_2),
        MultiLinearPolynomial::new(3, fs(&[2, 3, 5, 6, 4, 5, 7, 8]))
    );
}

#[test]
fn addition_with_fewer_variables_first() {
    let short = MultiLinearPolynomial::new(1, fs(&[1, 2]));
    let long = MultiLinearPolynomial::new(2, fs(&[10, 20, 30, 40]));
    assert_eq!(short.add(long), MultiLinearPolynomial::new(2, fs(&[11, 21, 32, 42])));
}

#[test]
fn test_partial_evaluation() {
    let polynomial = MultiLinearPolynomial::new(2, fs(&[0, 0, 2, 5]));
    let new_polynomial = polynomial.partial_eval(f(3), 0);
    assert_eq!(new_polynomial.evaluations(), &fs(&[6, 15]));
    assert_eq!(new_polynomial.variables(), 1);
}

#[test]
fn partial_evaluation_of_second_variable() {
    let polynomial = MultiLinearPolynomial::new(2, fs(&[0, 0, 2, 5]));
    // pairs (0, 1) and (2, 3): 3 * 0 - 2 * 0 = 0, 3 * 5 - 2 * 2 = 11
    let new_polynomial = polynomial.partial_eval(f(3), 1);
    assert_eq!(new_polynomial.evaluations(), &fs(&[0, 11]));
}

#[test]
fn partial_evaluation_at_zero_and_one_keeps_slices() {
    let polynomial = MultiLinearPolynomial::new(3, fs(&[1, 2, 3, 4, 5, 6, 7, 8]));
    assert_eq!(polynomial.partial_eval(f(0), 1).evaluations(), &fs(&[1, 2, 5, 6]));
    assert_eq!(polynomial.partial_eval(f(1), 1).evaluations(), &fs(&[3, 4, 7, 8]));
    assert_eq!(polynomial.partial_eval(f(0), 2).evaluations(), &fs(&[1, 3, 5, 7]));
    assert_eq!(polynomial.partial_eval(f(1), 0).evaluations(), &fs(&[5, 6, 7, 8]));
}

#[test]
fn sum_splits_over_first_variable() {
    let polynomial = MultiLinearPolynomial::new(3, fs(&[1, 2, 3, 4, 5, 6, 7, 8]));
    let total = polynomial.sum();
    let halves = polynomial
        .partial_eval(f(0), 0)
        .sum()
        .add(&polynomial.partial_eval(f(1), 0).sum());
    assert_eq!(total, f(36));
    assert_eq!(total, halves);
}

#[test]
fn test_full_evalaution() {
    let polynomial = MultiLinearPolynomial::new(2, fs(&[0, 0, 2, 5]));
    let result = polynomial.eval_full(&fs(&[3, 5]));
    assert_eq!(result, f(51));
}

#[test]
fn full_evaluation_matches_partial_chain() {
    let polynomial = MultiLinearPolynomial::new(3, fs(&[3, 1, 4, 1, 5, 9, 2, 6]));
    let points = fs(&[7, 11, 13]);
    let chained = polynomial
        .partial_eval(points[0], 0)
        .partial_eval(points[1], 0)
        .partial_eval(points[2], 0);
    assert_eq!(polynomial.eval_full(&points), chained.evaluations()[0]);
}

#[test]
fn constant_polynomial_evaluation() {
    let polynomial = MultiLinearPolynomial::new(0, fs(&[9]));
    assert_eq!(polynomial.eval_full(&[]), f(9));
}

#[test]
fn multilinear_byte_image() {
    let polynomial = MultiLinearPolynomial::new(1, fs(&[1, 258]));
    let bytes = polynomial.to_bytes();
    assert_eq!(bytes.len(), 8 + 64);
    assert_eq!(&bytes[0..8], &[1, 0, 0, 0, 2, 0, 0, 0]);
    assert_eq!(bytes[8 + 31], 1);
    assert_eq!(bytes[8 + 62], 1);
    assert_eq!(bytes[8 + 63], 2);
    assert!(bytes[8..8 + 31].iter().all(|b| *b == 0));
}

#[test]
fn partial_evaluations_in_turn() {
    let polynomial = MultiLinearPolynomial::new(3, fs(&[1, 2, 3, 4, 5, 6, 7, 8]));
    let r = polynomial.partial_evaluations(fs(&[1, 0]), vec![2, 0]);
    // fix x2 = 1: [2, 4, 6, 8]; then x0 = 0: [2, 4]
    assert_eq!(r.evaluations(), &fs(&[2, 4]));
    assert_eq!(r.variables(), 1);
}

#[test]
fn test_generate_pairs_index_1_evaluation_length_4() {
    assert_eq!(generate_pairs(4, 1), [(0, 1), (2, 3)]);
}

#[test]
fn test_generate_pairs_index_0_evaluation_length_4() {
    assert_eq!(generate_pairs(4, 0), [(0, 2), (1, 3)]);
}

#[test]
fn test_generate_pairs_index_2_evalaution_length_8() {
    assert_eq!(generate_pairs(8, 2), [(0, 1), (2, 3), (4, 5), (6, 7)]);
}

#[test]
fn test_generate_pairs_1_evaluation_length_8() {
    assert_eq!(generate_pairs(8, 1), [(0, 2), (1, 3), (4, 6), (5, 7)]);
}

#[test]
fn univariat_polynomial_test_polynomial_addition() {
    let poly_1 = UnivariantPolynomial::new(fs(&[1, 2, 3]));
    let poly_2 = UnivariantPolynomial::new(fs(&[4, 5, 6]));
    assert!(poly_1.add(poly_2) == UnivariantPolynomial::new(fs(&[5, 7, 9])));
}

#[test]
fn polynomial_addition_pads_shorter() {
    let poly_1 = UnivariantPolynomial::new(fs(&[1, 2]));
    let poly_2 = UnivariantPolynomial::new(fs(&[4, 5, 6]));
    assert_eq!(poly_1.add(poly_2), UnivariantPolynomial::new(fs(&[5, 7, 6])));
    let empty = UnivariantPolynomial::new(vec![]);
    assert_eq!(empty.add(UnivariantPolynomial::new(fs(&[3]))), UnivariantPolynomial::new(fs(&[3])));
}

#[test]
fn univariat_polynomial_test_polynomial_multiplication() {
    let poly_1 = UnivariantPolynomial::new(fs(&[1, 2]));
    let poly_2 = UnivariantPolynomial::new(fs(&[4, 5]));
    assert_eq!(poly_1.mul(poly_2), UnivariantPolynomial::new(fs(&[4, 13, 10])));
}

#[test]
fn multiplication_trims_and_handles_empty() {
    let poly_1 = UnivariantPolynomial::new(fs(&[1, 2, 0]));
    let poly_2 = UnivariantPolynomial::new(fs(&[3, 0]));
    assert_eq!(poly_1.mul(poly_2), UnivariantPolynomial::new(fs(&[3, 6])));
    let empty = UnivariantPolynomial::new(vec![]);
    assert_eq!(empty.mul(UnivariantPolynomial::new(fs(&[3]))), UnivariantPolynomial::new(vec![]));
}

#[test]
fn univariat_polynomial_test_polynomial_evaluation() {
    let poly = UnivariantPolynomial::new(fs(&[1, 2, 3]));
    assert_eq!(poly.evaluate(f(10)), f(321));
}

#[test]
fn evaluation_at_zero_keeps_constant_term() {
    let poly = UnivariantPolynomial::new(fs(&[7, 2, 3]));
    assert_eq!(poly.evaluate(f(0)), f(7));
    assert_eq!(UnivariantPolynomial::new(vec![]).evaluate(f(5)), f(0));
}

#[test]
fn univariat_polynomial_test_polynomial_interpolation() {
    let x_coordinates = fs(&[1, 2, 3]);
    let y_coordinates = fs(&[6, 17, 34]);
    let expected_coefficients = fs(&[1, 2, 3]);
    assert_eq!(lagrange_interpolate(&x_coordinates, &y_coordinates), Ok(expected_coefficients));
}

#[test]
fn interpolation_passes_through_points() {
    let xs = fs(&[2, 5, 9, 11, 20]);
    let ys = fs(&[8, 1, 0, 7, 3]);
    let coeffs = lagrange_interpolate(&xs, &ys).unwrap();
    let poly = UnivariantPolynomial::new(coeffs);
    for i in 0..xs.len() {
        assert_eq!(poly.evaluate(xs[i]), ys[i]);
    }
}

#[test]
fn interpolation_errors() {
    assert_eq!(
        lagrange_interpolate(&fs(&[1, 2]), &fs(&[1])),
        Err(InterpolationError::LengthMismatch)
    );
    assert_eq!(
        lagrange_interpolate(&fs(&[1, 2, 1]), &fs(&[1, 2, 3])),
        Err(InterpolationError::RepeatedNode)
    );
}

#[test]
fn composed_elementwise_product_and_degree() {
    let composed = create_test_composed_poly();
    assert_eq!(composed.elementwise_product(), fs(&[0, 2, 3, 8]));
    assert_eq!(composed.max_degree(), 2);
    let fixed = composed.partial_eval(f(1), 0);
    assert_eq!(fixed.polys[0].evaluations(), &fs(&[3, 4]));
    assert_eq!(fixed.polys[1].evaluations(), &fs(&[1, 2]));
}

#[test]
fn composed_addition() {
    let a = create_test_composed_poly();
    let b = create_test_composed_poly();
    let mut c = create_test_composed_poly();
    let sum = a.add(b);
    assert_eq!(sum.polys[0].evaluations(), &fs(&[2, 4, 6, 8]));
    assert_eq!(sum.polys[1].evaluations(), &fs(&[0, 2, 2, 4]));
    c.add_assign(create_test_composed_poly());
    assert_eq!(c.polys[1].evaluations(), &fs(&[0, 2, 2, 4]));
    assert_eq!(&c.to_bytes()[0..4], &[2, 0, 0, 0]);
}

#[test]
fn scalar_arithmetic_wraps_modulo_order() {
    let minus_one = f(0).sub(&f(1));
    assert_eq!(minus_one.add(&f(1)), f(0));
    assert_eq!(minus_one.mul(&minus_one), f(1));
    let inv = f(7).inverse().unwrap();
    assert_eq!(inv.mul(&f(7)), f(1));
    assert_eq!(f(0).inverse(), None);
    let bytes = f(0x0102).to_bytes_be();
    assert_eq!(bytes.len(), 32);
    assert_eq!(bytes[30], 1);
    assert_eq!(bytes[31], 2);
    assert_eq!(Scalar::from_be_bytes_mod_order(&bytes), f(0x0102));
}
