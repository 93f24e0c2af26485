//! Saturating fixed-point arithmetic and weighted roulette selection.
use vstd::prelude::*;

verus! {

/// Clamps a mathematical integer into the `u64` range from above.
pub open spec fn sat64(x: int) -> int {
    if x > u64::MAX {
        u64::MAX as int
    } else {
        x
    }
}

/// `base` raised to `exp` over the unbounded integers.
pub open spec fn pow_int(base: int, exp: nat) -> int
    decreases exp,
{
    if exp == 0 {
        1
    } else {
        base * pow_int(base, (exp - 1) as nat)
    }
}

pub proof fn lemma_pow_nonneg(base: int, exp: nat)
    requires
        base >= 0,
    ensures
        pow_int(base, exp) >= 0,
    decreases exp,
{
    if exp > 0 {
        lemma_pow_nonneg(base, (exp - 1) as nat);
        assert(base * pow_int(base, (exp - 1) as nat) >= 0) by (nonlinear_arith)
            requires
                base >= 0,
                pow_int(base, (exp - 1) as nat) >= 0,
        ;
    }
}

/// Saturating addition: exact when the sum fits, `u64::MAX` otherwise.
pub fn sat_add(a: u64, b: u64) -> (r: u64)
    ensures
        r == sat64(a + b),
{
    if a <= u64::MAX - b {
        a + b
    } else {
        u64::MAX
    }
}

/// Saturating multiplication: exact when the product fits, `u64::MAX`
/// otherwise.
pub fn sat_mul(a: u64, b: u64) -> (r: u64)
    ensures
        r == sat64(a * b),
{
    proof {
        assert((a as int) * (b as int) <= u64::MAX as int * u64::MAX as int) by (nonlinear_arith)
            requires
                0 <= a <= u64::MAX,
                0 <= b <= u64::MAX,
        ;
    }
    let p: u128 = (a as u128) * (b as u128);
    if p > u64::MAX as u128 {
        u64::MAX
    } else {
        p as u64
    }
}

/// Saturating power: exact when `base^exp` fits, `u64::MAX` otherwise.
pub fn sat_pow(base: u64, exp: u32) -> (r: u64)
    ensures
        r == sat64(pow_int(base as int, exp as nat)),
{
    let mut r: u64 = 1;
    let mut i: u32 = 0;
    while i < exp
        invariant
            0 <= i <= exp,
            r == sat64(pow_int(base as int, i as nat)),
        decreases exp - i,
    {
        proof {
            lemma_pow_nonneg(base as int, i as nat);
            let p = pow_int(base as int, i as nat);
            assert(pow_int(base as int, (i + 1) as nat) == base * p);
            // Multiplying the clamped value keeps the clamp exact.
            if p > u64::MAX {
                if base == 0 {
                    assert(base * p == 0) by (nonlinear_arith)
                        requires
                            base == 0,
                    ;
                } else {
                    assert(base * p >= p) by (nonlinear_arith)
                        requires
                            base >= 1,
                            p >= 0,
                    ;
                    assert(base * (u64::MAX as int) >= u64::MAX) by (nonlinear_arith)
                        requires
                            base >= 1,
                    ;
                }
            }
            assert(sat64(base * sat64(p)) == sat64(base * p));
        }
        r = sat_mul(base, r);
        proof {
            assert(base as int * r == r as int * base) by (nonlinear_arith);
        }
        i = i + 1;
    }
    r
}

/// Clamping before an addition loses nothing: adding to an already clamped
/// value saturates exactly when adding to the true value does.
pub proof fn lemma_sat_fold(x: int, a: int)
    requires
        x >= 0,
        0 <= a <= u64::MAX,
    ensures
        sat64(sat64(x) + a) == sat64(x + a),
{
}

/// Sum of a sequence of weights over the unbounded integers.
pub open spec fn sum_of(s: Seq<u64>) -> int
    decreases s.len(),
{
    if s.len() == 0 {
        0
    } else {
        sum_of(s.drop_last()) + s.last()
    }
}

pub proof fn lemma_sum_nonneg(s: Seq<u64>)
    ensures
        sum_of(s) >= 0,
    decreases s.len(),
{
    if s.len() > 0 {
        lemma_sum_nonneg(s.drop_last());
    }
}

pub proof fn lemma_sum_take_step(s: Seq<u64>, i: int)
    requires
        0 <= i < s.len(),
    ensures
        sum_of(s.take(i + 1)) == sum_of(s.take(i)) + s[i],
{
    assert(s.take(i + 1).drop_last() =~= s.take(i));
    assert(s.take(i + 1).last() == s[i]);
}

/// A sum of non-negative weights is zero only when every weight is zero.
pub proof fn lemma_sum_zero_all_zero(s: Seq<u64>)
    requires
        sum_of(s) == 0,
    ensures
        forall|k: int| 0 <= k < s.len() ==> s[k] == 0,
    decreases s.len(),
{
    if s.len() > 0 {
        lemma_sum_nonneg(s.drop_last());
        lemma_sum_zero_all_zero(s.drop_last());
        assert(forall|k: int| 0 <= k < s.len() - 1 ==> s[k] == s.drop_last()[k]);
    }
}

/// Weighted roulette selection.  Given weights and a draw `r` below their
/// total, returns the unique index whose cumulative-sum interval contains
/// `r`, walking the weights in index order.  The selected weight is
/// necessarily positive.
pub fn roulette(weights: &Vec<u64>, r: u64) -> (idx: usize)
    requires
        r < sum_of(weights@),
    ensures
        idx < weights@.len(),
        weights@[idx as int] > 0,
        sum_of(weights@.take(idx as int)) <= r < sum_of(weights@.take(idx as int + 1)),
{
    let n = weights.len();
    let mut i: usize = 0;
    let mut rem: u64 = r;
    proof {
        assert(weights@.take(0) =~= Seq::<u64>::empty());
    }
    while i < n
        invariant
            n == weights@.len(),
            0 <= i <= n,
            r < sum_of(weights@),
            rem == r - sum_of(weights@.take(i as int)),
            sum_of(weights@.take(i as int)) <= r,
        decreases n - i,
    {
        proof {
            lemma_sum_take_step(weights@, i as int);
        }
        let w = weights[i];
        if rem < w {
            proof {
                lemma_sum_nonneg(weights@.take(i as int));
            }
            return i;
        }
        rem = rem - w;
        i = i + 1;
    }
    proof {
        assert(weights@.take(n as int) =~= weights@);
        assert(false);
    }
    0
}

} // verus!
