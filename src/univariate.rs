use vstd::prelude::*;
use vstd::arithmetic::div_mod::*;
use vstd::arithmetic::mul::*;
use crate::field::{
    fadd, finv, fmul, fsub, lemma_fadd_zero, lemma_fmul_one_zero, lemma_identity_linear_factor,
    lemma_identity_linear_step, lemma_identity_regroup, lemma_identity_scale_step,
    lemma_identity_shift_first, lemma_modulus_bounds, lemma_scalar_range, modulus, values, Scalar,
};

verus! {

/// Coefficient `i` of the coefficient sequence `c`, zero past its end.
pub open spec fn coeff_at(c: Seq<int>, i: int) -> int {
    if 0 <= i < c.len() {
        c[i]
    } else {
        0
    }
}

/// The value at `x` of the polynomial with coefficients `c` (constant term first),
/// by Horner's rule: `c0 + x * (c1 + x * (...))`.
pub open spec fn uni_eval(c: Seq<int>, x: int) -> int
    decreases c.len(),
{
    if c.len() == 0 {
        0
    } else {
        fadd(fmul(uni_eval(c.drop_first(), x), x), c[0])
    }
}

/// The coefficientwise sum, the shorter padded with zeros.
pub open spec fn uni_add(a: Seq<int>, b: Seq<int>) -> Seq<int> {
    let n = if a.len() >= b.len() {
        a.len()
    } else {
        b.len()
    };
    Seq::new(n, |i: int| fadd(coeff_at(a, i), coeff_at(b, i)))
}

/// Coefficient `k` of the product of `a` and `b`, summed over the first `rows`
/// coefficients of `a`.
pub open spec fn conv_rows(a: Seq<int>, b: Seq<int>, rows: nat, k: int) -> int
    decreases rows,
{
    if rows == 0 {
        0
    } else {
        let i = rows - 1;
        let prev = conv_rows(a, b, (rows - 1) as nat, k);
        if 0 <= k - i < b.len() {
            fadd(prev, fmul(a[i], b[k - i]))
        } else {
            prev
        }
    }
}

/// The coefficients of the product of two non-empty coefficient sequences.
pub open spec fn convolution(a: Seq<int>, b: Seq<int>) -> Seq<int> {
    Seq::new((a.len() + b.len() - 1) as nat, |k: int| conv_rows(a, b, a.len(), k))
}

/// `c` without its trailing zero coefficients.
pub open spec fn trim(c: Seq<int>) -> Seq<int>
    decreases c.len(),
{
    if c.len() > 0 && c.last() == 0 {
        trim(c.drop_last())
    } else {
        c
    }
}

/// The coefficients of the product; empty when either factor is empty.
pub open spec fn uni_mul(a: Seq<int>, b: Seq<int>) -> Seq<int> {
    if a.len() == 0 || b.len() == 0 {
        Seq::empty()
    } else {
        trim(convolution(a, b))
    }
}

/// The coefficients of `c` multiplied by `x - a`.
pub open spec fn mul_linear(c: Seq<int>, a: int) -> Seq<int> {
    Seq::new(
        c.len() + 1,
        |k: int|
            fsub(
                if k >= 1 {
                    c[k - 1]
                } else {
                    0
                },
                if k < c.len() {
                    fmul(c[k], a)
                } else {
                    0
                },
            ),
    )
}

/// The product of `x - xs[j]` over `j < m`, `j != i`, as coefficients.
pub open spec fn basis_numerator(xs: Seq<int>, i: int, m: nat) -> Seq<int>
    decreases m,
{
    if m == 0 {
        seq![1]
    } else if m - 1 == i {
        basis_numerator(xs, i, (m - 1) as nat)
    } else {
        mul_linear(basis_numerator(xs, i, (m - 1) as nat), xs[m - 1])
    }
}

/// The product of the inverses of `xs[i] - xs[j]` over `j < m`, `j != i`.
pub open spec fn basis_scale(xs: Seq<int>, i: int, m: nat) -> int
    decreases m,
{
    if m == 0 {
        1
    } else if m - 1 == i {
        basis_scale(xs, i, (m - 1) as nat)
    } else {
        fmul(basis_scale(xs, i, (m - 1) as nat), finv(fsub(xs[i], xs[m - 1])))
    }
}

/// The coefficients of the Lagrange basis polynomial of node `i`: one at `xs[i]`, zero
/// at the other nodes.
pub open spec fn lagrange_basis_coeffs(xs: Seq<int>, i: int) -> Seq<int> {
    let num = basis_numerator(xs, i, xs.len());
    Seq::new(num.len(), |k: int| fmul(num[k], basis_scale(xs, i, xs.len())))
}

/// The sum of `ys[i]` times the basis polynomial of node `i`, over `i < m`, as `n`
/// coefficients.
pub open spec fn interpolation_upto(xs: Seq<int>, ys: Seq<int>, m: nat) -> Seq<int>
    decreases m,
{
    if m == 0 {
        Seq::new(xs.len(), |k: int| 0)
    } else {
        let prev = interpolation_upto(xs, ys, (m - 1) as nat);
        let l = lagrange_basis_coeffs(xs, m - 1);
        Seq::new(xs.len(), |k: int| fadd(prev[k], fmul(ys[m - 1], l[k])))
    }
}

/// The coefficients of the polynomial of degree below `xs.len()` through the points
/// `(xs[i], ys[i])`.
pub open spec fn interpolation(xs: Seq<int>, ys: Seq<int>) -> Seq<int> {
    interpolation_upto(xs, ys, ys.len())
}

/// The product of `xs[i] - xs[j]` over `j < m`, `j != i`.
pub open spec fn node_differences(xs: Seq<int>, i: int, m: nat) -> int
    decreases m,
{
    if m == 0 {
        1
    } else if m - 1 == i {
        node_differences(xs, i, (m - 1) as nat)
    } else {
        fmul(node_differences(xs, i, (m - 1) as nat), fsub(xs[i], xs[m - 1]))
    }
}

/// No two of the values are equal.
pub open spec fn pairwise_distinct(xs: Seq<int>) -> bool {
    forall|i: int, j: int| 0 <= i < xs.len() && 0 <= j < xs.len() && i != j ==> xs[i] != xs[j]
}

/// Why a set of points has no interpolating polynomial.
#[derive(Debug, Clone, Copy, PartialEq, Eq, Structural)]
pub enum InterpolationError {
    /// The numbers of x and y coordinates differ.
    LengthMismatch,
    /// Two x coordinates are equal.
    RepeatedNode,
}

/// A polynomial in one variable, held as its coefficients, constant term first.
#[derive(Clone, Debug, PartialEq)]
pub struct UnivariantPolynomial {
    coefficients: Vec<Scalar>,
}

impl UnivariantPolynomial {
    pub closed spec fn coeffs(&self) -> Seq<int> {
        values(self.coefficients@)
    }

    pub fn new(coefficient: Vec<Scalar>) -> (r: Self)
        ensures
            r.coeffs() == values(coefficient@),
    {
        UnivariantPolynomial { coefficients: coefficient }
    }

    /// The coefficients.
    pub fn coefficients(&self) -> (r: &Vec<Scalar>)
        ensures
            values(r@) == self.coeffs(),
    {
        &self.coefficients
    }

    fn coefficient_len(&self) -> (r: usize)
        ensures
            r == self.coeffs().len(),
    {
        self.coefficients.len()
    }

    fn check_zero_len(&self) -> (r: bool)
        ensures
            r == (self.coeffs().len() == 0),
    {
        self.coefficient_len() == 0
    }

    /// The sum: the shorter padded with zeros, added coefficientwise, not trimmed.
    pub fn add(&self, other: Self) -> (r: Self)
        ensures
            r.coeffs() == uni_add(self.coeffs(), other.coeffs()),
    {
        let a_len = self.coefficient_len();
        let b_len = other.coefficient_len();
        let n = if a_len >= b_len {
            a_len
        } else {
            b_len
        };
        let zero = Scalar::zero();
        let mut new_coefficient: Vec<Scalar> = Vec::with_capacity(n);
        let mut i: usize = 0;
        while i < n
            invariant
                i <= n,
                n == if a_len >= b_len {
                    a_len
                } else {
                    b_len
                },
                a_len == self.coeffs().len(),
                b_len == other.coeffs().len(),
                zero@ == 0,
                new_coefficient@.len() == i,
                forall|j: int|
                    0 <= j < i ==> #[trigger] new_coefficient@[j]@ == fadd(
                        coeff_at(self.coeffs(), j),
                        coeff_at(other.coeffs(), j),
                    ),
            decreases n - i,
        {
            let a = if i < a_len {
                self.coefficients[i]
            } else {
                zero
            };
            let b = if i < b_len {
                other.coefficients[i]
            } else {
                zero
            };
            new_coefficient.push(a.add(&b));
            i = i + 1;
        }
        let r = Self::new(new_coefficient);
        proof {
            assert(r.coeffs() =~= uni_add(self.coeffs(), other.coeffs()));
        }
        r
    }

    /// The product, with trailing zero coefficients trimmed; empty when either factor is.
    pub fn mul(&self, other: Self) -> (r: Self)
        requires
            self.coeffs().len() + other.coeffs().len() <= usize::MAX,
        ensures
            r.coeffs() == uni_mul(self.coeffs(), other.coeffs()),
    {
        if self.check_zero_len() || other.check_zero_len() {
            let r = Self::new(Vec::new());
            proof {
                assert(r.coeffs() =~= Seq::<int>::empty());
            }
            return r;
        }
        let first_len = self.coefficient_len();
        let second_len = other.coefficient_len();
        let ghost a = self.coeffs();
        let ghost b = other.coeffs();
        let mut coefficient_res: Vec<Scalar> = Vec::new();
        let total = first_len + second_len - 1;
        let mut t: usize = 0;
        while t < total
            invariant
                total == first_len + second_len - 1,
                t <= total,
                first_len == a.len(),
                second_len == b.len(),
                first_len >= 1,
                coefficient_res@.len() == t,
                forall|k: int| 0 <= k < t ==> (#[trigger] coefficient_res@[k])@ == 0,
            decreases total - t,
        {
            coefficient_res.push(Scalar::zero());
            t = t + 1;
        }
        let mut i: usize = 0;
        while i < first_len
            invariant
                i <= first_len,
                first_len + second_len <= usize::MAX,
                first_len == a.len(),
                second_len == b.len(),
                a == self.coeffs(),
                b == other.coeffs(),
                first_len >= 1,
                second_len >= 1,
                coefficient_res@.len() == first_len + second_len - 1,
                forall|k: int|
                    0 <= k < coefficient_res@.len() ==> (#[trigger] coefficient_res@[k])@
                        == conv_rows(a, b, i as nat, k),
            decreases first_len - i,
        {
            let mut j: usize = 0;
            while j < second_len
                invariant
                    i < first_len,
                    j <= second_len,
                    first_len + second_len <= usize::MAX,
                    first_len == a.len(),
                    second_len == b.len(),
                    a == self.coeffs(),
                    b == other.coeffs(),
                    coefficient_res@.len() == first_len + second_len - 1,
                    forall|k: int|
                        0 <= k < coefficient_res@.len() ==> (#[trigger] coefficient_res@[k])@ == if i
                            <= k < i + j {
                            conv_rows(a, b, (i + 1) as nat, k)
                        } else {
                            conv_rows(a, b, i as nat, k)
                        },
                decreases second_len - j,
            {
                let product = self.coefficients[i].mul(&other.coefficients[j]);
                let updated = coefficient_res[i + j].add(&product);
                coefficient_res.set(i + j, updated);
                j = j + 1;
            }
            i = i + 1;
        }
        proof {
            assert(values(coefficient_res@) =~= convolution(a, b));
        }
        let zero = Scalar::zero();
        while coefficient_res.len() > 0 && coefficient_res[coefficient_res.len() - 1].equals(&zero)
            invariant
                zero@ == 0,
                trim(values(coefficient_res@)) == trim(convolution(a, b)),
            decreases coefficient_res@.len(),
        {
            proof {
                assert(values(coefficient_res@).drop_last() =~= values(
                    coefficient_res@.drop_last(),
                ));
            }
            coefficient_res.pop();
        }
        proof {
            assert(trim(values(coefficient_res@)) == values(coefficient_res@));
        }
        Self::new(coefficient_res)
    }

    /// The value at `eval`, by Horner's rule from the highest coefficient down.
    pub fn evaluate(&self, eval: Scalar) -> (r: Scalar)
        ensures
            r@ == uni_eval(self.coeffs(), eval@),
    {
        let ghost c = self.coeffs();
        let mut res = Scalar::zero();
        let mut i: usize = self.coefficients.len();
        while i > 0
            invariant
                i <= c.len(),
                c == self.coeffs(),
                res@ == uni_eval(c.subrange(i as int, c.len() as int), eval@),
            decreases i,
        {
            proof {
                assert(c.subrange(i - 1, c.len() as int).drop_first() =~= c.subrange(
                    i as int,
                    c.len() as int,
                ));
            }
            res = res.mul(&eval).add(&self.coefficients[i - 1]);
            i = i - 1;
        }
        proof {
            assert(c.subrange(0, c.len() as int) =~= c);
        }
        res
    }
}

proof fn lemma_mod_small_values()
    ensures
        0int % modulus() == 0,
        1int % modulus() == 1,
{
    lemma_modulus_bounds();
    lemma_small_mod(0, modulus() as nat);
    lemma_small_mod(1, modulus() as nat);
}

/// Evaluation is linear: adding `y` times `b` to `a` adds `y` times its value.
pub proof fn lemma_eval_linear(a: Seq<int>, b: Seq<int>, y: int, x: int)
    requires
        a.len() == b.len(),
    ensures
        uni_eval(Seq::new(a.len(), |k: int| fadd(a[k], fmul(y, b[k]))), x) == fadd(
            uni_eval(a, x),
            fmul(y, uni_eval(b, x)),
        ),
    decreases a.len(),
{
    let s = Seq::new(a.len(), |k: int| fadd(a[k], fmul(y, b[k])));
    lemma_mod_small_values();
    if a.len() == 0 {
        lemma_mul_basics(y);
    } else {
        let a1 = a.drop_first();
        let b1 = b.drop_first();
        lemma_eval_linear(a1, b1, y, x);
        assert(s.drop_first() =~= Seq::new(a1.len(), |k: int| fadd(a1[k], fmul(y, b1[k]))));
        lemma_identity_linear_step(uni_eval(a1, x), uni_eval(b1, x), x, y, a[0], b[0]);
    }
}

/// Scaling every coefficient scales the value.
pub proof fn lemma_eval_scale(c: Seq<int>, s: int, x: int)
    ensures
        uni_eval(Seq::new(c.len(), |k: int| fmul(c[k], s)), x) == fmul(uni_eval(c, x), s),
    decreases c.len(),
{
    let t = Seq::new(c.len(), |k: int| fmul(c[k], s));
    lemma_mod_small_values();
    if c.len() == 0 {
        lemma_mul_basics(s);
    } else {
        let c1 = c.drop_first();
        lemma_eval_scale(c1, s, x);
        assert(t.drop_first() =~= Seq::new(c1.len(), |k: int| fmul(c1[k], s)));
        lemma_identity_scale_step(uni_eval(c1, x), s, x, c[0]);
    }
}

/// The value of a sequence of zeros is zero.
pub proof fn lemma_eval_zeros(n: nat, x: int)
    ensures
        uni_eval(Seq::new(n, |k: int| 0), x) == 0,
    decreases n,
{
    lemma_mod_small_values();
    if n > 0 {
        assert(Seq::new(n, |k: int| 0int).drop_first() =~= Seq::new((n - 1) as nat, |k: int| 0int));
        lemma_eval_zeros((n - 1) as nat, x);
        lemma_mul_basics(x);
    }
}

proof fn lemma_eval_shift_first(u: Seq<int>, v: Seq<int>, c0: int, w: int, x: int)
    requires
        u.len() == v.len(),
        u.len() >= 1,
        u.drop_first() == v.drop_first(),
        u[0] == fsub(c0, w),
        v[0] == fsub(0, w),
    ensures
        uni_eval(u, x) == fadd(uni_eval(v, x), c0),
{
    lemma_identity_shift_first(uni_eval(u.drop_first(), x), x, c0, w);
}

/// Multiplying by `x - a` multiplies the value at `x` by `x - a`.
pub proof fn lemma_eval_mul_linear(c: Seq<int>, a: int, x: int)
    ensures
        uni_eval(mul_linear(c, a), x) == fmul(uni_eval(c, x), fsub(x, a)),
    decreases c.len(),
{
    let m = mul_linear(c, a);
    lemma_mod_small_values();
    if c.len() == 0 {
        assert(m.drop_first() =~= Seq::<int>::empty());
        lemma_mul_basics(x);
        lemma_mul_basics(fsub(x, a));
        assert(m[0] == fsub(0, 0));
        assert(uni_eval(m.drop_first(), x) == 0);
        assert(uni_eval(m, x) == fadd(fmul(0, x), m[0]));
        assert(uni_eval(c, x) == 0);
    } else {
        let c1 = c.drop_first();
        let u = m.drop_first();
        let v = mul_linear(c1, a);
        let w = if 1 < c.len() {
            fmul(c[1], a)
        } else {
            0
        };
        assert(u.drop_first() =~= v.drop_first());
        assert(u[0] == fsub(c[0], w));
        assert(v[0] == fsub(0, w));
        lemma_eval_shift_first(u, v, c[0], w, x);
        lemma_eval_mul_linear(c1, a, x);
        lemma_identity_linear_factor(uni_eval(c1, x), x, a, c[0]);
        assert(m[0] == fsub(0, fmul(c[0], a)));
        assert(uni_eval(m, x) == fadd(fmul(uni_eval(u, x), x), m[0]));
        assert(uni_eval(c, x) == fadd(fmul(uni_eval(c1, x), x), c[0]));
    }
}

/// The difference of two distinct field values is not zero.
pub proof fn lemma_fsub_nonzero(a: int, b: int)
    requires
        0 <= a < modulus(),
        0 <= b < modulus(),
        a != b,
    ensures
        fsub(a, b) != 0,
{
    let m = modulus();
    lemma_fundamental_div_mod(a - b, m);
    let q = (a - b) / m;
    let r = (a - b) % m;
    if r == 0 {
        assert(false) by (nonlinear_arith)
            requires
                a - b == m * q + r,
                r == 0,
                -m < a - b < m,
                a != b,
        ;
    }
}

proof fn lemma_numerator_len(xs: Seq<int>, i: int, m: nat)
    requires
        0 <= i,
    ensures
        basis_numerator(xs, i, m).len() == if m > i {
            m
        } else {
            m + 1
        },
    decreases m,
{
    if m > 0 {
        lemma_numerator_len(xs, i, (m - 1) as nat);
    }
}

/// The coefficients of `c` multiplied by `x - a`.
fn mul_by_linear(c: &Vec<Scalar>, a: Scalar) -> (r: Vec<Scalar>)
    requires
        c@.len() < usize::MAX,
    ensures
        values(r@) == mul_linear(values(c@), a@),
{
    let zero = Scalar::zero();
    let n = c.len();
    let mut r: Vec<Scalar> = Vec::with_capacity(n + 1);
    let mut k: usize = 0;
    while k <= n
        invariant
            n == c@.len(),
            n < usize::MAX,
            k <= n + 1,
            zero@ == 0,
            r@.len() == k,
            forall|t: int| 0 <= t < k ==> (#[trigger] r@[t])@ == mul_linear(values(c@), a@)[t],
        decreases n + 1 - k,
    {
        let high = if k >= 1 {
            c[k - 1]
        } else {
            zero
        };
        let low = if k < n {
            c[k].mul(&a)
        } else {
            zero
        };
        r.push(high.sub(&low));
        k = k + 1;
    }
    proof {
        assert(values(r@) =~= mul_linear(values(c@), a@));
    }
    r
}

/// The coefficients of the Lagrange basis polynomial of node `i`.
fn lagrange_basis(i: usize, x_coordinates: &[Scalar]) -> (r: Vec<Scalar>)
    requires
        i < x_coordinates@.len(),
        pairwise_distinct(values(x_coordinates@)),
    ensures
        values(r@) == lagrange_basis_coeffs(values(x_coordinates@), i as int),
        uni_eval(values(r@), values(x_coordinates@)[i as int]) == 1,
        forall|t: int|
            0 <= t < x_coordinates@.len() && t != i ==> uni_eval(
                values(r@),
                #[trigger] values(x_coordinates@)[t],
            ) == 0,
{
    broadcast use lemma_scalar_range;

    let ghost xs = values(x_coordinates@);
    let n = x_coordinates.len();
    let x_i = x_coordinates[i];
    let mut num: Vec<Scalar> = Vec::new();
    num.push(Scalar::one());
    proof {
        assert(values(num@) =~= seq![1int]);
        assert(seq![1int].drop_first() =~= Seq::<int>::empty());
        lemma_mod_small_values();
        lemma_mul_basics(xs[i as int]);
        assert(uni_eval(Seq::<int>::empty(), xs[i as int]) == 0);
        assert(uni_eval(seq![1int], xs[i as int]) == fadd(fmul(0, xs[i as int]), 1));
        assert(uni_eval(values(num@), xs[i as int]) == 1);
    }
    let mut j: usize = 0;
    while j < n
        invariant
            n == x_coordinates@.len(),
            xs == values(x_coordinates@),
            i < n,
            j <= n,
            values(num@) == basis_numerator(xs, i as int, j as nat),
            uni_eval(values(num@), xs[i as int]) == node_differences(xs, i as int, j as nat),
            forall|t: int| 0 <= t < j && t != i ==> uni_eval(values(num@), #[trigger] xs[t]) == 0,
        decreases n - j,
    {
        proof {
            lemma_numerator_len(xs, i as int, j as nat);
        }
        if i != j {
            let ghost before = values(num@);
            num = mul_by_linear(&num, x_coordinates[j]);
            proof {
                lemma_mod_small_values();
                assert forall|t: int| 0 <= t < n implies uni_eval(values(num@), #[trigger] xs[t])
                    == fmul(uni_eval(before, xs[t]), fsub(xs[t], xs[j as int])) by {
                    lemma_eval_mul_linear(before, xs[j as int], xs[t]);
                }
                assert forall|t: int| 0 <= t < j + 1 && t != i implies uni_eval(
                    values(num@),
                    #[trigger] xs[t],
                ) == 0 by {
                    if t < j {
                        lemma_mul_basics(fsub(xs[t], xs[j as int]));
                    } else {
                        lemma_mul_basics(uni_eval(before, xs[t]));
                    }
                }
            }
        }
        j = j + 1;
    }
    let mut scale = Scalar::one();
    proof {
        lemma_mod_small_values();
    }
    let mut j: usize = 0;
    while j < n
        invariant
            n == x_coordinates@.len(),
            xs == values(x_coordinates@),
            pairwise_distinct(xs),
            i < n,
            j <= n,
            x_i@ == xs[i as int],
            scale@ == basis_scale(xs, i as int, j as nat),
            fmul(node_differences(xs, i as int, j as nat), scale@) == 1,
        decreases n - j,
    {
        if i != j {
            let d = x_i.sub(&x_coordinates[j]);
            let inv = match d.inverse() {
                Some(v) => v,
                None => {
                    proof {
                        assert(xs[i as int] == x_coordinates@[i as int]@);
                        assert(xs[j as int] == x_coordinates@[j as int]@);
                        lemma_scalar_range(x_coordinates@[i as int]);
                        lemma_scalar_range(x_coordinates@[j as int]);
                        lemma_fsub_nonzero(xs[i as int], xs[j as int]);
                    }
                    Scalar::zero()
                },
            };
            proof {
                lemma_identity_regroup(
                    node_differences(xs, i as int, j as nat),
                    d@,
                    scale@,
                    inv@,
                );
                lemma_mod_small_values();
            }
            scale = scale.mul(&inv);
        }
        j = j + 1;
    }
    proof {
        lemma_numerator_len(xs, i as int, n as nat);
    }
    let mut result: Vec<Scalar> = Vec::with_capacity(n);
    let mut k: usize = 0;
    while k < num.len()
        invariant
            k <= num@.len(),
            result@.len() == k,
            forall|t: int|
                0 <= t < k ==> (#[trigger] result@[t])@ == fmul(values(num@)[t], scale@),
        decreases num@.len() - k,
    {
        result.push(num[k].mul(&scale));
        k = k + 1;
    }
    proof {
        assert(values(result@) =~= lagrange_basis_coeffs(xs, i as int));
        let nv = values(num@);
        assert(values(result@) =~= Seq::new(nv.len(), |k: int| fmul(nv[k], scale@)));
        lemma_mod_small_values();
        assert forall|t: int| 0 <= t < n implies uni_eval(values(result@), #[trigger] xs[t]) == fmul(
            uni_eval(nv, xs[t]),
            scale@,
        ) by {
            lemma_eval_scale(nv, scale@, xs[t]);
        }
        lemma_eval_scale(nv, scale@, xs[i as int]);
        assert forall|t: int| 0 <= t < n && t != i implies uni_eval(values(result@), #[trigger] xs[t]) == 0 by {
            lemma_mul_basics(scale@);
        }
    }
    result
}

/// The coefficients of the polynomial of degree below `n` through the `n` points
/// `(x_coordinates[i], y_coordinates[i])`, as the sum of `y_i` times the Lagrange basis
/// polynomial of `x_i`. Fails when the coordinate counts differ or two `x_i` are equal.
pub fn lagrange_interpolate(x_coordinates: &[Scalar], y_coordinates: &[Scalar]) -> (r: Result<
    Vec<Scalar>,
    InterpolationError,
>)
    ensures
        x_coordinates@.len() != y_coordinates@.len() ==> r == Err::<Vec<Scalar>, InterpolationError>(
            InterpolationError::LengthMismatch,
        ),
        x_coordinates@.len() == y_coordinates@.len() && !pairwise_distinct(values(x_coordinates@))
            ==> r == Err::<Vec<Scalar>, InterpolationError>(InterpolationError::RepeatedNode),
        x_coordinates@.len() == y_coordinates@.len() && pairwise_distinct(values(x_coordinates@))
            ==> (r matches Ok(v) && values(v@) == interpolation(
            values(x_coordinates@),
            values(y_coordinates@),
        )),
        r matches Ok(v) ==> forall|t: int|
            0 <= t < x_coordinates@.len() ==> uni_eval(values(v@), #[trigger] values(x_coordinates@)[t])
                == values(y_coordinates@)[t],
{
    let n = x_coordinates.len();
    if n != y_coordinates.len() {
        return Err(InterpolationError::LengthMismatch);
    }
    let ghost xs = values(x_coordinates@);
    let ghost ys = values(y_coordinates@);
    let mut a: usize = 0;
    while a < n
        invariant
            n == x_coordinates@.len(),
            n == y_coordinates@.len(),
            xs == values(x_coordinates@),
            a <= n,
            forall|p: int, q: int| 0 <= p < a && 0 <= q < n && p != q ==> xs[p] != xs[q],
        decreases n - a,
    {
        let mut b: usize = 0;
        while b < n
            invariant
                n == x_coordinates@.len(),
                n == y_coordinates@.len(),
                xs == values(x_coordinates@),
                a < n,
                b <= n,
                forall|p: int, q: int| 0 <= p < a && 0 <= q < n && p != q ==> xs[p] != xs[q],
                forall|q: int| 0 <= q < b && a != q ==> xs[a as int] != xs[q],
            decreases n - b,
        {
            if a != b && x_coordinates[a].equals(&x_coordinates[b]) {
                proof {
                    assert(xs[a as int] == xs[b as int]);
                }
                return Err(InterpolationError::RepeatedNode);
            }
            b = b + 1;
        }
        a = a + 1;
    }
    let mut result: Vec<Scalar> = Vec::with_capacity(n);
    let mut t: usize = 0;
    while t < n
        invariant
            t <= n,
            result@.len() == t,
            forall|k: int| 0 <= k < t ==> (#[trigger] result@[k])@ == 0,
        decreases n - t,
    {
        result.push(Scalar::zero());
        t = t + 1;
    }
    proof {
        assert(values(result@) =~= interpolation_upto(xs, ys, 0));
        assert(values(result@) =~= Seq::new(n as nat, |k: int| 0int));
        assert forall|t: int| 0 <= t < n implies uni_eval(values(result@), #[trigger] xs[t]) == 0 by {
            lemma_eval_zeros(n as nat, xs[t]);
        }
    }
    let mut i: usize = 0;
    while i < n
        invariant
            n == x_coordinates@.len(),
            n == y_coordinates@.len(),
            xs == values(x_coordinates@),
            ys == values(y_coordinates@),
            pairwise_distinct(xs),
            i <= n,
            result@.len() == n,
            values(result@) == interpolation_upto(xs, ys, i as nat),
            forall|t: int|
                0 <= t < n ==> uni_eval(values(result@), #[trigger] xs[t]) == if t < i {
                    ys[t]
                } else {
                    0
                },
        decreases n - i,
    {
        let l_i = lagrange_basis(i, x_coordinates);
        proof {
            lemma_numerator_len(xs, i as int, n as nat);
            assert(lagrange_basis_coeffs(xs, i as int).len() == n);
            assert(values(l_i@).len() == l_i@.len());
        }
        let y_i = y_coordinates[i];
        let ghost prev = values(result@);
        let mut j: usize = 0;
        while j < n
            invariant
                n == x_coordinates@.len(),
                i < n,
                j <= n,
                result@.len() == n,
                l_i@.len() == n,
                values(l_i@) == lagrange_basis_coeffs(xs, i as int),
                y_i@ == ys[i as int],
                prev.len() == n,
                forall|k: int|
                    0 <= k < n ==> (#[trigger] result@[k])@ == if k < j {
                        fadd(prev[k], fmul(ys[i as int], values(l_i@)[k]))
                    } else {
                        prev[k]
                    },
            decreases n - j,
        {
            let updated = result[j].add(&y_i.mul(&l_i[j]));
            result.set(j, updated);
            j = j + 1;
        }
        proof {
            assert(values(result@) =~= interpolation_upto(xs, ys, (i + 1) as nat));
            let lv = values(l_i@);
            assert(values(result@) =~= Seq::new(prev.len(), |k: int| fadd(prev[k], fmul(ys[i as int], lv[k]))));
            assert forall|t: int| 0 <= t < n implies uni_eval(values(result@), #[trigger] xs[t]) == if t
                < i + 1 {
                ys[t]
            } else {
                0
            } by {
                lemma_eval_linear(prev, lv, ys[i as int], xs[t]);
                lemma_scalar_range(y_coordinates@[t]);
                lemma_scalar_range(y_coordinates@[i as int]);
                assert(ys[t] == y_coordinates@[t]@);
                assert(ys[i as int] == y_coordinates@[i as int]@);
                lemma_fmul_one_zero(ys[i as int]);
                if t == i {
                    lemma_fadd_zero(ys[i as int]);
                } else if t < i {
                    lemma_fadd_zero(ys[t]);
                } else {
                    lemma_mod_small_values();
                }
            }
        }
        i = i + 1;
    }
    proof {
        assert forall|t: int| 0 <= t < n implies uni_eval(values(result@), #[trigger] xs[t]) == ys[t] by {
        }
    }
    Ok(result)
}

} // verus!
