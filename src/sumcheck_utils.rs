use vstd::prelude::*;
use vstd::arithmetic::div_mod::*;
use vstd::arithmetic::power2::*;
use crate::field::{le_u32_bytes, scalars_bytes, values, Scalar};

verus! {

/// The canonical encodings of the elements of `poly`, one after the other.
pub fn vec_to_bytes(poly: &Vec<Scalar>) -> (r: Vec<u8>)
    ensures
        r@ == scalars_bytes(values(poly@)),
{
    let mut bytes: Vec<u8> = Vec::new();
    let mut i: usize = 0;
    while i < poly.len()
        invariant
            i <= poly@.len(),
            bytes@ == scalars_bytes(values(poly@).take(i as int)),
        decreases poly@.len() - i,
    {
        let mut chunk = poly[i].to_bytes_be();
        bytes.append(&mut chunk);
        proof {
            assert(values(poly@).take(i + 1).drop_last() =~= values(poly@).take(i as int));
        }
        i = i + 1;
    }
    proof {
        assert(values(poly@).take(i as int) =~= values(poly@));
    }
    bytes
}

/// The four little-endian bytes of `v` modulo `2^32`.
pub fn u32_le_bytes(v: usize) -> (r: Vec<u8>)
    ensures
        r@ == le_u32_bytes(v as int),
{
    let mut r: Vec<u8> = Vec::new();
    r.push((v % 256) as u8);
    r.push((v / 256 % 256) as u8);
    r.push((v / 65536 % 256) as u8);
    r.push((v / 16777216 % 256) as u8);
    proof {
        assert(r@ =~= le_u32_bytes(v as int));
    }
    r
}

/// The consecutive pairs `(0, 1), (2, 3), ...` of indices below `len` (an odd `len`
/// ends with `(len - 1, len)`).
pub fn generate_pairs(len: usize) -> (r: Vec<(usize, usize)>)
    requires
        len < usize::MAX,
    ensures
        r@.len() == (len + 1) / 2,
        forall|k: int| 0 <= k < r@.len() ==> #[trigger] r@[k] == ((2 * k) as usize, (2 * k + 1) as usize),
{
    let mut pairs: Vec<(usize, usize)> = Vec::new();
    let mut i: usize = 0;
    while i < len
        invariant
            len < usize::MAX,
            i % 2 == 0,
            i <= len + 1,
            pairs@.len() == i / 2,
            forall|k: int| 0 <= k < pairs@.len() ==> #[trigger] pairs@[k] == ((2 * k) as usize, (2 * k + 1) as usize),
        decreases len + 1 - i,
    {
        pairs.push((i, i + 1));
        i = i + 2;
    }
    pairs
}

/// The value of variable `j` (variable 0 most significant) at hypercube point `i` of
/// `n` variables.
pub open spec fn hypercube_bit(i: int, n: nat, j: int) -> int {
    (i / pow2((n - 1 - j) as nat) as int) % 2
}

/// The points of the hypercube of `n` variables in index order, each as its
/// coordinates, variable 0 (the most significant bit of the index) first.
pub fn boolean_hypercube(n: usize) -> (r: Vec<Vec<Scalar>>)
    requires
        pow2(n as nat) <= usize::MAX,
    ensures
        r@.len() == pow2(n as nat),
        forall|i: int|
            0 <= i < r@.len() ==> (#[trigger] r@[i])@.len() == n && forall|j: int|
                0 <= j < n ==> (#[trigger] r@[i]@[j])@ == hypercube_bit(i, n as nat, j),
{
    let mut total: usize = 1;
    let mut t: usize = 0;
    proof {
        lemma2_to64();
    }
    while t < n
        invariant
            t <= n,
            total == pow2(t as nat),
            pow2(n as nat) <= usize::MAX,
        decreases n - t,
    {
        proof {
            lemma_pow2_unfold((t + 1) as nat);
            if t + 1 < n {
                lemma_pow2_strictly_increases((t + 1) as nat, n as nat);
            }
        }
        total = total * 2;
        t = t + 1;
    }
    let mut result: Vec<Vec<Scalar>> = Vec::with_capacity(total);
    let mut i: usize = 0;
    while i < total
        invariant
            total == pow2(n as nat),
            i <= total,
            result@.len() == i,
            forall|p: int|
                0 <= p < i ==> (#[trigger] result@[p])@.len() == n && forall|j: int|
                    0 <= j < n ==> (#[trigger] result@[p]@[j])@ == hypercube_bit(p, n as nat, j),
        decreases total - i,
    {
        let mut current: Vec<Scalar> = Vec::with_capacity(n);
        let mut weight: usize = total;
        let mut j: usize = 0;
        while j < n
            invariant
                total == pow2(n as nat),
                j <= n,
                weight == pow2((n - j) as nat),
                current@.len() == j,
                forall|q: int| 0 <= q < j ==> (#[trigger] current@[q])@ == hypercube_bit(i as int, n as nat, q),
            decreases n - j,
        {
            proof {
                lemma_pow2_unfold((n - j) as nat);
                lemma_pow2_pos((n - j - 1) as nat);
                lemma2_to64();
            }
            weight = weight / 2;
            let bit = (i / weight) % 2;
            if bit == 1 {
                current.push(Scalar::one());
            } else {
                current.push(Scalar::zero());
            }
            proof {
                lemma_mod_bound((i / weight) as int, 2);
            }
            j = j + 1;
        }
        result.push(current);
        i = i + 1;
    }
    result
}

} // verus!
