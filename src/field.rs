use vstd::prelude::*;
use vstd::arithmetic::div_mod::*;
use vstd::arithmetic::mul::*;
use ark_ff::{BigInt, BigInteger, Field, PrimeField, UniformRand};
use ark_test_curves::bls12_381::Fr;

verus! {

/// The order of the scalar field of BLS12-381, the field every polynomial lives in.
pub open spec fn modulus() -> int {
    limbs_value(0xffff_ffff_0000_0001, 0x53bd_a402_fffe_5bfe, 0x3339_d808_09a1_d805, 0x73ed_a753_299d_7d48)
}

/// The integer held in four little-endian 64-bit limbs.
pub open spec fn limbs_value(l0: int, l1: int, l2: int, l3: int) -> int {
    l0 + 0x1_0000_0000_0000_0000 * (l1 + 0x1_0000_0000_0000_0000 * (l2 + 0x1_0000_0000_0000_0000 * l3))
}

pub open spec fn fadd(a: int, b: int) -> int {
    (a + b) % modulus()
}

pub open spec fn fsub(a: int, b: int) -> int {
    (a - b) % modulus()
}

pub open spec fn fmul(a: int, b: int) -> int {
    (a * b) % modulus()
}

/// The multiplicative inverse of `a`, where one exists.
pub open spec fn finv(a: int) -> int {
    choose|i: int| 0 <= i < modulus() && fmul(a, i) == 1
}

/// The integer that a byte string denotes, most significant byte first.
pub open spec fn be_value(b: Seq<u8>) -> int
    decreases b.len(),
{
    if b.len() == 0 {
        0
    } else {
        be_value(b.drop_last()) * 256 + b.last() as int
    }
}

/// An element of the scalar field, held as its canonical representative in
/// four little-endian 64-bit limbs.
#[derive(Clone, Copy, Debug, PartialEq, Eq, Structural)]
pub struct Scalar {
    l0: u64,
    l1: u64,
    l2: u64,
    l3: u64,
}

impl Scalar {
    pub closed spec fn raw(self) -> int {
        limbs_value(self.l0 as int, self.l1 as int, self.l2 as int, self.l3 as int)
    }

    #[verifier::type_invariant]
    spec fn canonical(self) -> bool {
        self.raw() < modulus()
    }
}

impl View for Scalar {
    type V = int;

    closed spec fn view(&self) -> int {
        self.raw() % modulus()
    }
}

pub broadcast proof fn lemma_scalar_range(x: Scalar)
    ensures
        0 <= #[trigger] x@ < modulus(),
{
    lemma_mod_bound(x.raw(), modulus());
}

/// Relies on ark-ff's `Add` for the BLS12-381 scalar field: addition modulo the field order.
#[verifier::external_body]
fn field_add(a: &Scalar, b: &Scalar) -> (r: Scalar)
    requires
        a.raw() < modulus(),
        b.raw() < modulus(),
    ensures
        r@ == fadd(a@, b@),
{
    let x = Fr::from_bigint(BigInt::new([a.l0, a.l1, a.l2, a.l3])).unwrap();
    let y = Fr::from_bigint(BigInt::new([b.l0, b.l1, b.l2, b.l3])).unwrap();
    let z = (x + y).into_bigint().0;
    Scalar { l0: z[0], l1: z[1], l2: z[2], l3: z[3] }
}

/// Relies on ark-ff's `Sub` for the BLS12-381 scalar field: subtraction modulo the field order.
#[verifier::external_body]
fn field_sub(a: &Scalar, b: &Scalar) -> (r: Scalar)
    requires
        a.raw() < modulus(),
        b.raw() < modulus(),
    ensures
        r@ == fsub(a@, b@),
{
    let x = Fr::from_bigint(BigInt::new([a.l0, a.l1, a.l2, a.l3])).unwrap();
    let y = Fr::from_bigint(BigInt::new([b.l0, b.l1, b.l2, b.l3])).unwrap();
    let z = (x - y).into_bigint().0;
    Scalar { l0: z[0], l1: z[1], l2: z[2], l3: z[3] }
}

/// Relies on ark-ff's `Mul` for the BLS12-381 scalar field: multiplication modulo the field order.
#[verifier::external_body]
fn field_mul(a: &Scalar, b: &Scalar) -> (r: Scalar)
    requires
        a.raw() < modulus(),
        b.raw() < modulus(),
    ensures
        r@ == fmul(a@, b@),
{
    let x = Fr::from_bigint(BigInt::new([a.l0, a.l1, a.l2, a.l3])).unwrap();
    let y = Fr::from_bigint(BigInt::new([b.l0, b.l1, b.l2, b.l3])).unwrap();
    let z = (x * y).into_bigint().0;
    Scalar { l0: z[0], l1: z[1], l2: z[2], l3: z[3] }
}

/// Relies on ark-ff's `Field::inverse`: `None` exactly for zero, otherwise the element
/// whose product with the argument is one.
#[verifier::external_body]
fn field_inverse(a: &Scalar) -> (r: Option<Scalar>)
    requires
        a.raw() < modulus(),
    ensures
        r is None <==> a@ == 0,
        r matches Some(i) ==> fmul(a@, i@) == 1,
{
    let x = Fr::from_bigint(BigInt::new([a.l0, a.l1, a.l2, a.l3])).unwrap();
    match x.inverse() {
        Some(y) => {
            let z = y.into_bigint().0;
            Some(Scalar { l0: z[0], l1: z[1], l2: z[2], l3: z[3] })
        },
        None => None,
    }
}

/// Relies on ark-ff's `BigInteger::to_bytes_be`: the 32 bytes of the canonical
/// representative, most significant first.
#[verifier::external_body]
fn field_to_bytes_be(a: &Scalar) -> (r: Vec<u8>)
    ensures
        r@.len() == 32,
        be_value(r@) == a.raw(),
{
    BigInt::new([a.l0, a.l1, a.l2, a.l3]).to_bytes_be()
}

/// Relies on ark-ff's `PrimeField::from_be_bytes_mod_order`: the big-endian integer of
/// the bytes, reduced modulo the field order.
#[verifier::external_body]
fn field_from_be_bytes_mod_order(b: &[u8]) -> (r: Scalar)
    ensures
        r@ == be_value(b@) % modulus(),
{
    let z = Fr::from_be_bytes_mod_order(b).into_bigint().0;
    Scalar { l0: z[0], l1: z[1], l2: z[2], l3: z[3] }
}

/// Relies on ark-ff's `UniformRand` drawing from rand's thread-local generator.
#[verifier::external_body]
fn field_random() -> (r: Scalar) {
    let z = Fr::rand(&mut rand::thread_rng()).into_bigint().0;
    Scalar { l0: z[0], l1: z[1], l2: z[2], l3: z[3] }
}

impl Scalar {
    pub fn zero() -> (r: Scalar)
        ensures
            r@ == 0,
    {
        Scalar { l0: 0, l1: 0, l2: 0, l3: 0 }
    }

    pub fn one() -> (r: Scalar)
        ensures
            r@ == 1,
    {
        proof {
            lemma_modulus_bounds();
            lemma_small_mod(1, modulus() as nat);
        }
        Scalar { l0: 1, l1: 0, l2: 0, l3: 0 }
    }

    pub fn from_u64(v: u64) -> (r: Scalar)
        ensures
            r@ == v as int,
    {
        proof {
            lemma_modulus_bounds();
            lemma_small_mod(v as nat, modulus() as nat);
        }
        Scalar { l0: v, l1: 0, l2: 0, l3: 0 }
    }

    pub fn add(&self, other: &Scalar) -> (r: Scalar)
        ensures
            r@ == fadd(self@, other@),
    {
        proof {
            use_type_invariant(self);
            use_type_invariant(other);
        }
        field_add(self, other)
    }

    pub fn sub(&self, other: &Scalar) -> (r: Scalar)
        ensures
            r@ == fsub(self@, other@),
    {
        proof {
            use_type_invariant(self);
            use_type_invariant(other);
        }
        field_sub(self, other)
    }

    pub fn mul(&self, other: &Scalar) -> (r: Scalar)
        ensures
            r@ == fmul(self@, other@),
    {
        proof {
            use_type_invariant(self);
            use_type_invariant(other);
        }
        field_mul(self, other)
    }

    /// The inverse of a non-zero element; `None` for zero.
    pub fn inverse(&self) -> (r: Option<Scalar>)
        ensures
            r is None <==> self@ == 0,
            r matches Some(i) ==> i@ == finv(self@) && fmul(self@, i@) == 1,
    {
        proof {
            use_type_invariant(self);
        }
        let r = field_inverse(self);
        proof {
            if let Some(i) = r {
                lemma_inverse_unique(self@, i@);
            }
        }
        r
    }

    /// Whether the two elements are equal as field elements.
    pub fn equals(&self, other: &Scalar) -> (r: bool)
        ensures
            r == (self@ == other@),
    {
        proof {
            use_type_invariant(self);
            use_type_invariant(other);
            lemma_small_mod(self.raw() as nat, modulus() as nat);
            lemma_small_mod(other.raw() as nat, modulus() as nat);
            if self@ == other@ {
                lemma_limbs_injective(*self, *other);
            }
        }
        *self == *other
    }

    /// The canonical encoding: 32 bytes, most significant first.
    pub fn to_bytes_be(&self) -> (r: Vec<u8>)
        ensures
            r@ == scalar_bytes(self@),
    {
        proof {
            use_type_invariant(self);
            lemma_small_mod(self.raw() as nat, modulus() as nat);
        }
        let r = field_to_bytes_be(self);
        proof {
            lemma_be_bytes_unique(r@, self@);
        }
        r
    }

    /// The big-endian integer of `bytes`, reduced modulo the field order.
    pub fn from_be_bytes_mod_order(bytes: &[u8]) -> (r: Scalar)
        ensures
            r@ == be_value(bytes@) % modulus(),
    {
        field_from_be_bytes_mod_order(bytes)
    }

    /// An element drawn uniformly at random.
    pub fn random() -> (r: Scalar) {
        field_random()
    }
}

pub proof fn lemma_modulus_bounds()
    ensures
        0x1_0000_0000_0000_0000 < modulus(),
        fsub(1, 0) == 1,
        fsub(1, 1) == 0,
{
    lemma_small_mod(1, modulus() as nat);
    lemma_small_mod(0, modulus() as nat);
}

proof fn lemma_split_limb(a: int, x: int, b: int, y: int)
    requires
        0 <= a < 0x1_0000_0000_0000_0000,
        0 <= b < 0x1_0000_0000_0000_0000,
        a + 0x1_0000_0000_0000_0000 * x == b + 0x1_0000_0000_0000_0000 * y,
    ensures
        a == b,
        x == y,
{
    assert(a == b && x == y) by (nonlinear_arith)
        requires
            0 <= a < 0x1_0000_0000_0000_0000,
            0 <= b < 0x1_0000_0000_0000_0000,
            a + 0x1_0000_0000_0000_0000 * x == b + 0x1_0000_0000_0000_0000 * y,
    ;
}

proof fn lemma_limbs_injective(a: Scalar, b: Scalar)
    requires
        a.raw() == b.raw(),
    ensures
        a == b,
{
    let k = 0x1_0000_0000_0000_0000int;
    lemma_split_limb(a.l0 as int, a.l1 + k * (a.l2 + k * a.l3), b.l0 as int, b.l1 + k * (b.l2 + k * b.l3));
    lemma_split_limb(a.l1 as int, a.l2 + k * a.l3, b.l1 as int, b.l2 + k * b.l3);
    lemma_split_limb(a.l2 as int, a.l3 as int, b.l2 as int, b.l3 as int);
}

/// The 32-byte big-endian encoding of a field value.
pub open spec fn scalar_bytes(v: int) -> Seq<u8> {
    choose|b: Seq<u8>| b.len() == 32 && be_value(b) == v
}

pub proof fn lemma_be_value_bound(b: Seq<u8>)
    ensures
        0 <= be_value(b) < pow256(b.len()),
    decreases b.len(),
{
    if b.len() > 0 {
        lemma_be_value_bound(b.drop_last());
        let a = be_value(b.drop_last());
        let m = pow256((b.len() - 1) as nat);
        assert(a * 256 + 255 < m * 256) by (nonlinear_arith)
            requires
                a < m,
        ;
    }
}

pub open spec fn pow256(n: nat) -> int
    decreases n,
{
    if n == 0 {
        1
    } else {
        pow256((n - 1) as nat) * 256
    }
}

/// Two byte strings of one length that denote one integer are equal.
pub proof fn lemma_be_injective(a: Seq<u8>, b: Seq<u8>)
    requires
        a.len() == b.len(),
        be_value(a) == be_value(b),
    ensures
        a == b,
    decreases a.len(),
{
    if a.len() > 0 {
        let x = be_value(a.drop_last());
        let y = be_value(b.drop_last());
        let u = a.last() as int;
        let v = b.last() as int;
        assert(x * 256 + u == y * 256 + v);
        lemma_be_value_bound(a.drop_last());
        lemma_be_value_bound(b.drop_last());
        assert(x == y && u == v) by (nonlinear_arith)
            requires
                x * 256 + u == y * 256 + v,
                0 <= u < 256,
                0 <= v < 256,
                0 <= x,
                0 <= y,
        ;
        lemma_be_injective(a.drop_last(), b.drop_last());
        assert(a =~= a.drop_last().push(a.last()));
        assert(b =~= b.drop_last().push(b.last()));
    }
}

proof fn lemma_be_bytes_unique(b: Seq<u8>, v: int)
    requires
        b.len() == 32,
        be_value(b) == v,
    ensures
        b == scalar_bytes(v),
{
    let c = scalar_bytes(v);
    assert(c.len() == 32 && be_value(c) == v);
    lemma_be_injective(b, c);
}

/// A field element has at most one inverse.
pub proof fn lemma_inverse_unique(a: int, i: int)
    requires
        0 <= i < modulus(),
        fmul(a, i) == 1,
    ensures
        finv(a) == i,
{
    let j = finv(a);
    assert(0 <= j < modulus() && fmul(a, j) == 1);
    // i = i * (a * j) = (i * a) * j = j
    let m = modulus();
    lemma_mul_mod_noop_right(i, a * j, m);
    lemma_mul_mod_noop_left(i * a, j, m);
    lemma_mul_is_associative(i, a, j);
    lemma_mul_is_commutative(i, a);
    lemma_small_mod(i as nat, m as nat);
    lemma_small_mod(j as nat, m as nat);
}

/// The canonical encodings of a sequence of field values, one after the other.
pub open spec fn scalars_bytes(s: Seq<int>) -> Seq<u8>
    decreases s.len(),
{
    if s.len() == 0 {
        Seq::empty()
    } else {
        scalars_bytes(s.drop_last()) + scalar_bytes(s.last())
    }
}

/// The four little-endian bytes of `v` taken modulo `2^32`.
pub open spec fn le_u32_bytes(v: int) -> Seq<u8> {
    seq![
        (v % 256) as u8,
        (v / 256 % 256) as u8,
        (v / 65536 % 256) as u8,
        (v / 16777216 % 256) as u8,
    ]
}

/// The field sum of a sequence, added from the first element on.
pub open spec fn fsum(s: Seq<int>) -> int
    decreases s.len(),
{
    if s.len() == 0 {
        0
    } else {
        fadd(fsum(s.drop_last()), s.last())
    }
}

/// The field values of a sequence of elements.
pub open spec fn values(s: Seq<Scalar>) -> Seq<int> {
    s.map_values(|x: Scalar| x@)
}

/// The field sum of the elements of `v`.
pub fn sum_scalars(v: &[Scalar]) -> (r: Scalar)
    ensures
        r@ == fsum(values(v@)),
{
    let mut acc = Scalar::zero();
    let mut i: usize = 0;
    while i < v.len()
        invariant
            i <= v@.len(),
            acc@ == fsum(values(v@).take(i as int)),
        decreases v@.len() - i,
    {
        proof {
            assert(values(v@).take(i + 1).drop_last() =~= values(v@).take(i as int));
        }
        acc = acc.add(&v[i]);
        i = i + 1;
    }
    proof {
        assert(values(v@).take(i as int) =~= values(v@));
    }
    acc
}

pub proof fn lemma_fsum_range(s: Seq<int>)
    ensures
        0 <= fsum(s) < modulus(),
    decreases s.len(),
{
    if s.len() > 0 {
        lemma_mod_bound(fsum(s.drop_last()) + s.last(), modulus());
    }
}

pub proof fn lemma_fadd_assoc(a: int, b: int, c: int)
    ensures
        fadd(fadd(a, b), c) == fadd(a, fadd(b, c)),
{
    let m = modulus();
    lemma_add_mod_noop_right(a, b + c, m);
    lemma_add_mod_noop_right(c, a + b, m);
    assert(c + a + b == a + (b + c));
}

pub proof fn lemma_fadd_zero(a: int)
    requires
        0 <= a < modulus(),
    ensures
        fadd(a, 0) == a,
        fadd(0, a) == a,
{
    lemma_small_mod(a as nat, modulus() as nat);
}

pub proof fn lemma_fmul_one_zero(a: int)
    requires
        0 <= a < modulus(),
    ensures
        fmul(a, 1) == a,
        fmul(1, a) == a,
        fmul(a, 0) == 0,
        fmul(0, a) == 0,
{
    lemma_mul_basics(a);
    lemma_small_mod(a as nat, modulus() as nat);
}

/// Adding sequences one after the other adds their sums.
pub proof fn lemma_fsum_concat(a: Seq<int>, b: Seq<int>)
    ensures
        fsum(a + b) == fadd(fsum(a), fsum(b)),
    decreases b.len(),
{
    lemma_fsum_range(a);
    if b.len() == 0 {
        assert(a + b =~= a);
        lemma_fadd_zero(fsum(a));
    } else {
        assert((a + b).drop_last() =~= a + b.drop_last());
        lemma_fsum_concat(a, b.drop_last());
        lemma_fadd_assoc(fsum(a), fsum(b.drop_last()), b.last());
    }
}

/// Reducing an operand first does not change a sum, difference or product.
pub proof fn lemma_reduce_operands(a: int, b: int)
    ensures
        fadd(a % modulus(), b) == fadd(a, b),
        fadd(a, b % modulus()) == fadd(a, b),
        fsub(a % modulus(), b) == fsub(a, b),
        fsub(a, b % modulus()) == fsub(a, b),
        fmul(a % modulus(), b) == fmul(a, b),
        fmul(a, b % modulus()) == fmul(a, b),
{
    let m = modulus();
    lemma_add_mod_noop_right(a, b, m);
    lemma_add_mod_noop_right(b, a, m);
    lemma_sub_mod_noop_right(a, b, m);
    lemma_sub_mod_noop_right(a % m, b, m);
    lemma_sub_mod_noop(a, b, m);
    lemma_mod_twice(b, m);
    lemma_mul_mod_noop_left(a, b, m);
    lemma_mul_mod_noop_right(a, b, m);
}

pub proof fn lemma_identity_linear_step(p: int, q: int, x: int, y: int, a0: int, b0: int)
    ensures
        fadd(fmul(fadd(p, fmul(y, q)), x), fadd(a0, fmul(y, b0))) == fadd(
            fadd(fmul(p, x), a0),
            fmul(y, fadd(fmul(q, x), b0)),
        ),
{
    let m = modulus();
    lemma_reduce_operands(p, y * q);
    lemma_reduce_operands(p + y * q, x);
    lemma_reduce_operands(a0, y * b0);
    lemma_reduce_operands((p + y * q) * x, a0 + y * b0);
    lemma_add_mod_noop((p + y * q) * x, a0 + y * b0, m);
    lemma_reduce_operands(p * x, a0);
    lemma_reduce_operands(q * x, b0);
    lemma_reduce_operands(y, q * x + b0);
    lemma_add_mod_noop(p * x + a0, y * (q * x + b0), m);
    assert((p + y * q) * x + (a0 + y * b0) == p * x + a0 + y * (q * x + b0)) by (nonlinear_arith);
}

pub proof fn lemma_identity_scale_step(e: int, s: int, x: int, c0: int)
    ensures
        fadd(fmul(fmul(e, s), x), fmul(c0, s)) == fmul(fadd(fmul(e, x), c0), s),
{
    let m = modulus();
    lemma_reduce_operands(e * s, x);
    lemma_add_mod_noop(e * s * x, c0 * s, m);
    lemma_reduce_operands(e * x, c0);
    lemma_reduce_operands(e * x + c0, s);
    assert(e * s * x + c0 * s == (e * x + c0) * s) by (nonlinear_arith);
}

pub proof fn lemma_identity_shift_first(e: int, x: int, c0: int, w: int)
    ensures
        fadd(fmul(e, x), fsub(c0, w)) == fadd(fadd(fmul(e, x), fsub(0, w)), c0),
{
    let m = modulus();
    lemma_add_mod_noop(e * x, c0 - w, m);
    lemma_add_mod_noop(e * x, 0 - w, m);
    lemma_reduce_operands(e * x + (0 - w), c0);
    assert(e * x + (c0 - w) == e * x + (0 - w) + c0);
}

pub proof fn lemma_identity_linear_factor(e: int, x: int, a: int, c0: int)
    ensures
        fadd(fmul(fadd(fmul(e, fsub(x, a)), c0), x), fsub(0, fmul(c0, a))) == fmul(
            fadd(fmul(e, x), c0),
            fsub(x, a),
        ),
{
    let m = modulus();
    lemma_reduce_operands(e, x - a);
    lemma_reduce_operands(e * (x - a), c0);
    lemma_reduce_operands(e * (x - a) + c0, x);
    lemma_reduce_operands(0, c0 * a);
    lemma_add_mod_noop((e * (x - a) + c0) * x, 0 - c0 * a, m);
    lemma_reduce_operands(e * x, c0);
    lemma_reduce_operands(e * x + c0, x - a);
    lemma_reduce_operands(e * x + c0, (x - a) % m);
    assert((e * (x - a) + c0) * x + (0 - c0 * a) == (e * x + c0) * (x - a)) by (nonlinear_arith);
}

pub proof fn lemma_identity_regroup(p: int, d: int, s: int, v: int)
    ensures
        fmul(fmul(p, d), fmul(s, v)) == fmul(fmul(p, s), fmul(d, v)),
{
    lemma_reduce_operands(p * d, s * v);
    lemma_reduce_operands(p * d, s * v % modulus());
    lemma_reduce_operands(p * s, d * v);
    lemma_reduce_operands(p * s, d * v % modulus());
    assert((p * d) * (s * v) == (p * s) * (d * v)) by (nonlinear_arith);
}

pub proof fn lemma_identity_combine(r: int, c: int, sb: int, sa: int, b: int, a: int)
    ensures
        fadd(fadd(fmul(r, sb), fmul(c, sa)), fadd(fmul(r, b), fmul(c, a))) == fadd(
            fmul(r, fadd(sb, b)),
            fmul(c, fadd(sa, a)),
        ),
{
    let m = modulus();
    lemma_add_mod_noop(r * sb, c * sa, m);
    lemma_add_mod_noop(r * b, c * a, m);
    lemma_add_mod_noop(r * sb + c * sa, r * b + c * a, m);
    lemma_reduce_operands(r * sb + c * sa, r * b + c * a);
    lemma_reduce_operands(r * sb + c * sa, (r * b + c * a) % m);
    lemma_reduce_operands(r, sb + b);
    lemma_reduce_operands(c, sa + a);
    lemma_add_mod_noop(r * (sb + b), c * (sa + a), m);
    assert((r * sb + c * sa) + (r * b + c * a) == r * (sb + b) + c * (sa + a)) by (nonlinear_arith);
}

} // verus!
