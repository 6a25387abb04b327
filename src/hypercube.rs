use vstd::prelude::*;
use vstd::arithmetic::div_mod::*;
use vstd::arithmetic::mul::*;
use vstd::arithmetic::power2::*;

verus! {

/// The first index of the `i`-th pair when the pairs are `half` apart: entry `i` of a
/// table with one variable fixed comes from here (the fixed variable's bit clear).
pub open spec fn pair_low(i: int, half: int) -> int {
    (i / half) * (2 * half) + i % half
}

/// How far apart the two entries of a pair lie when variable `index` of a table of
/// `total` entries is fixed (variable 0 is the most significant bit).
pub open spec fn pair_gap(total: int, index: nat) -> int {
    total / (pow2(index + 1) as int)
}

/// The pairs of indices of a table of `total` entries that differ exactly in the bit of
/// variable `index` (variable 0 being the most significant): block by block, each index
/// with that bit clear, beside the index with it set.
pub fn generate_pairs(total_evaluations: usize, index: usize) -> (r: Vec<(usize, usize)>)
    requires
        total_evaluations % 2 == 0,
        pow2((index + 1) as nat) <= total_evaluations,
        total_evaluations as int % pow2((index + 1) as nat) as int == 0,
    ensures
        r@.len() == total_evaluations / 2,
        forall|i: int|
            #![trigger r@[i]]
            0 <= i < r@.len() ==> r@[i].0 as int == pair_low(
                i,
                pair_gap(total_evaluations as int, index as nat),
            ) && r@[i].1 as int == r@[i].0 + pair_gap(total_evaluations as int, index as nat)
                && r@[i].1 < total_evaluations,
{
    proof {
        lemma_pow2_unfold((index + 1) as nat);
        lemma_pow2_pos(index as nat);
        lemma2_to64();
    }
    let mut step: usize = 1;
    let mut j: usize = 0;
    while j < index
        invariant
            j <= index,
            step == pow2(j as nat),
            pow2((index + 1) as nat) <= total_evaluations,
        decreases index - j,
    {
        proof {
            lemma_pow2_unfold((j + 1) as nat);
            lemma_pow2_strictly_increases((j + 1) as nat, (index + 1) as nat);
        }
        step = step * 2;
        j = j + 1;
    }
    let block_size: usize = total_evaluations / step;
    let half: usize = block_size / 2;
    let ghost gap = pair_gap(total_evaluations as int, index as nat);
    proof {
        let t = total_evaluations as int;
        let s = step as int;
        let k = t / (2 * s);
        lemma_fundamental_div_mod(t, 2 * s);
        assert(t == (2 * s) * k);
        assert(t == s * (2 * k)) by (nonlinear_arith)
            requires
                t == (2 * s) * k,
        ;
        lemma_div_multiples_vanish(2 * k, s);
        assert(block_size == 2 * k);
        assert(half == k);
        assert(2 * s <= t);
        assert(k > 0) by (nonlinear_arith)
            requires
                t == (2 * s) * k,
                2 * s <= t,
                s > 0,
        ;
        assert(gap == k);
        assert(half * step * 2 == t) by (nonlinear_arith)
            requires
                t == (2 * s) * k,
                half == k,
                step == s,
        ;
    }
    let mut pairs_list: Vec<(usize, usize)> = Vec::new();
    let mut block: usize = 0;
    while block < step
        invariant
            block <= step,
            half == gap,
            half * step * 2 == total_evaluations,
            half > 0,
            pairs_list@.len() == block * half,
            forall|i: int|
                #![trigger pairs_list@[i]]
                0 <= i < pairs_list@.len() ==> pairs_list@[i].0 as int == pair_low(i, gap)
                    && pairs_list@[i].1 as int == pairs_list@[i].0 + gap && pairs_list@[i].1
                    < total_evaluations,
        decreases step - block,
    {
        let mut pair_index: usize = 0;
        while pair_index < half
            invariant
                block < step,
                pair_index <= half,
                half == gap,
                half * step * 2 == total_evaluations,
                half > 0,
                pairs_list@.len() == block * half + pair_index,
                forall|i: int|
                    #![trigger pairs_list@[i]]
                0 <= i < pairs_list@.len() ==> pairs_list@[i].0 as int == pair_low(
                        i,
                        gap,
                    ) && pairs_list@[i].1 as int == pairs_list@[i].0 + gap && pairs_list@[i].1
                        < total_evaluations,
            decreases half - pair_index,
        {
            proof {
                assert((block + 1) * half * 2 <= total_evaluations) by (nonlinear_arith)
                    requires
                        block < step,
                        half * step * 2 == total_evaluations,
                        half > 0,
                ;
                assert(block * half * 2 + pair_index + half < total_evaluations) by (
                nonlinear_arith)
                    requires
                        (block + 1) * half * 2 <= total_evaluations,
                        pair_index < half,
                ;
                assert(block * (2 * half) == block * half * 2) by (nonlinear_arith);
                assert(2 * half <= total_evaluations) by (nonlinear_arith)
                    requires
                        block < step,
                        half * step * 2 == total_evaluations,
                ;
                assert(block * half + pair_index == pairs_list@.len());
            }
            let first_index = block * (2 * half) + pair_index;
            let second_index = first_index + half;
            proof {
                let i = pairs_list@.len() as int;
                lemma_fundamental_div_mod_converse(i, half as int, block as int, pair_index as int);
                assert(pair_low(i, gap) == first_index);
            }
            pairs_list.push((first_index, second_index));
            pair_index = pair_index + 1;
        }
        proof {
            assert((block + 1) * half == block * half + half) by (nonlinear_arith);
        }
        block = block + 1;
    }
    proof {
        assert(block * half == total_evaluations / 2) by (nonlinear_arith)
            requires
                block == step,
                half * step * 2 == total_evaluations,
        ;
    }
    pairs_list
}

/// `2^a` divides `2^b` when `a <= b`.
pub proof fn lemma_pow2_divides(a: nat, b: nat)
    requires
        a <= b,
    ensures
        pow2(a) <= pow2(b),
        pow2(b) as int % pow2(a) as int == 0,
        pow2(b) / pow2(a) == pow2((b - a) as nat),
        pow2(a) * pow2((b - a) as nat) == pow2(b),
{
    lemma_pow2_adds(a, (b - a) as nat);
    lemma_pow2_pos(a);
    lemma_pow2_pos((b - a) as nat);
    lemma_mod_multiples_basic(pow2((b - a) as nat) as int, pow2(a) as int);
    lemma_mul_is_commutative(pow2((b - a) as nat) as int, pow2(a) as int);
    lemma_div_multiples_vanish(pow2((b - a) as nat) as int, pow2(a) as int);
    lemma_mul_increases(pow2((b - a) as nat) as int, pow2(a) as int);
}

} // verus!
