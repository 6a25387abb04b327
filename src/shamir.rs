use vstd::prelude::*;
use crate::field::{values, Scalar};
use crate::univariate::{
    interpolation, lagrange_interpolate, pairwise_distinct, uni_eval, InterpolationError,
    UnivariantPolynomial,
};

verus! {

/// The shares of the polynomial with coefficients `coefficients`: the points
/// `(i, p(i))` for `i < members`.
pub fn shares_from_coefficients(coefficients: &Vec<Scalar>, members: u64) -> (r: (
    Vec<Scalar>,
    Vec<Scalar>,
))
    requires
        members <= usize::MAX,
    ensures
        r.0@.len() == members,
        r.1@.len() == members,
        forall|i: int|
            0 <= i < members ==> (#[trigger] r.0@[i])@ == i && r.1@[i]@ == uni_eval(
                values(coefficients@),
                i,
            ),
{
    let poly_sec = UnivariantPolynomial::new(copy_scalars(coefficients));
    let mut x_coord: Vec<Scalar> = Vec::with_capacity(members as usize);
    let mut y_coord: Vec<Scalar> = Vec::with_capacity(members as usize);
    let mut i: u64 = 0;
    while i < members
        invariant
            i <= members,
            poly_sec.coeffs() == values(coefficients@),
            x_coord@.len() == i,
            y_coord@.len() == i,
            forall|t: int|
                0 <= t < i ==> (#[trigger] x_coord@[t])@ == t && y_coord@[t]@ == uni_eval(
                    values(coefficients@),
                    t,
                ),
        decreases members - i,
    {
        let x = Scalar::from_u64(i);
        x_coord.push(x);
        y_coord.push(poly_sec.evaluate(x));
        i = i + 1;
    }
    (x_coord, y_coord)
}

fn copy_scalars(v: &Vec<Scalar>) -> (r: Vec<Scalar>)
    ensures
        r@ == v@,
{
    let mut r: Vec<Scalar> = Vec::with_capacity(v.len());
    let mut i: usize = 0;
    while i < v.len()
        invariant
            i <= v@.len(),
            r@ == v@.take(i as int),
        decreases v@.len() - i,
    {
        r.push(v[i]);
        proof {
            assert(r@ =~= v@.take(i + 1));
        }
        i = i + 1;
    }
    proof {
        assert(v@.take(i as int) =~= v@);
    }
    r
}

/// Splits `seceret` into `members` shares, any `threshold + 1` of which recover it: the
/// points `(i, p(i))` of a polynomial `p` whose constant term is the secret and whose
/// other `threshold` coefficients are drawn at random.
pub fn create_shares(seceret: Scalar, threshold: u64, members: u64) -> (r: (Vec<Scalar>, Vec<Scalar>))
    requires
        members <= usize::MAX,
        threshold < usize::MAX,
    ensures
        r.0@.len() == members,
        r.1@.len() == members,
        exists|c: Seq<int>|
            c.len() == threshold + 1 && c[0] == seceret@ && forall|i: int|
                0 <= i < members ==> (#[trigger] r.0@[i])@ == i && r.1@[i]@ == uni_eval(c, i),
{
    let mut new_seceret: Vec<Scalar> = Vec::with_capacity(threshold as usize + 1);
    new_seceret.push(seceret);
    let mut t: u64 = 0;
    while t < threshold
        invariant
            t <= threshold,
            new_seceret@.len() == t + 1,
            new_seceret@[0] == seceret,
        decreases threshold - t,
    {
        new_seceret.push(Scalar::random());
        t = t + 1;
    }
    let r = shares_from_coefficients(&new_seceret, members);
    proof {
        let c = values(new_seceret@);
        assert(c.len() == threshold + 1 && c[0] == seceret@);
    }
    r
}

/// The value at `eval_point` of the polynomial through the shares; at zero, the secret.
pub fn construct_seceret(x_coords_sec: Vec<Scalar>, y_coords_sec: Vec<Scalar>, eval_point: Scalar) -> (r: Result<
    Scalar,
    InterpolationError,
>)
    ensures
        x_coords_sec@.len() != y_coords_sec@.len() ==> r == Err::<Scalar, InterpolationError>(
            InterpolationError::LengthMismatch,
        ),
        x_coords_sec@.len() == y_coords_sec@.len() && !pairwise_distinct(values(x_coords_sec@))
            ==> r == Err::<Scalar, InterpolationError>(InterpolationError::RepeatedNode),
        x_coords_sec@.len() == y_coords_sec@.len() && pairwise_distinct(values(x_coords_sec@))
            ==> (r matches Ok(v) && v@ == uni_eval(
            interpolation(values(x_coords_sec@), values(y_coords_sec@)),
            eval_point@,
        )),
{
    match lagrange_interpolate(x_coords_sec.as_slice(), y_coords_sec.as_slice()) {
        Ok(the_seceret) => {
            let evaluation = UnivariantPolynomial::new(the_seceret);
            Ok(evaluation.evaluate(eval_point))
        },
        Err(e) => Err(e),
    }
}

} // verus!
