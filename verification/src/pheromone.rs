//! The pheromone matrix: an n-by-n table of directed trail strengths, held in
//! fixed-point units, with evaporation and deposit updates.
use vstd::prelude::*;
use vstd::arithmetic::div_mod::{
    lemma_div_pos_is_pos,
    lemma_div_is_ordered,
    lemma_div_multiples_vanish,
    lemma_fundamental_div_mod,
};
use vstd::arithmetic::mul::lemma_mul_inequality;
use crate::problem::MAX_JOBS;
use crate::select::sat64;

verus! {

/// The uniform trail strength every cell starts from: one fixed-point unit.
pub const INITIAL_PHEROMONE: u64 = 1000000;

/// A pheromone matrix is a square table: `n` rows of `n` cells.
pub open spec fn matrix_wf(m: Seq<Vec<u64>>, n: int) -> bool {
    &&& m.len() == n
    &&& forall|i: int| 0 <= i < n ==> #[trigger] m[i]@.len() == n
}

/// One evaporation step of a single cell: the trail is multiplied by the
/// retention ratio `num / den` (integer division, rounding down).
pub open spec fn decay(c: int, num: int, den: int) -> int {
    c * num / den
}

/// Retention never increases a trail: a cell decays to a value between zero
/// and its old value whenever the ratio is at most one.
pub proof fn lemma_decay_bounds(c: int, num: int, den: int)
    requires
        0 <= c,
        0 <= num <= den,
        0 < den,
    ensures
        0 <= decay(c, num, den) <= c,
{
    lemma_div_pos_is_pos(c * num, den);
    lemma_mul_inequality(num, den, c);
    assert(c * num == num * c && c * den == den * c) by (nonlinear_arith);
    lemma_div_is_ordered(c * num, den * c, den);
    lemma_div_multiples_vanish(c, den);
}

/// With a retention ratio strictly below one, every non-zero trail strictly
/// decreases at each evaporation step.
pub proof fn lemma_decay_strict(c: int, num: int, den: int)
    requires
        1 <= c,
        0 <= num < den,
    ensures
        0 <= decay(c, num, den) < c,
{
    lemma_decay_bounds(c, num, den);
    let q = decay(c, num, den);
    if q >= c {
        lemma_fundamental_div_mod(c * num, den);
        lemma_mul_inequality(c, q, den);
        assert(c * den == den * c && q * den == den * q) by (nonlinear_arith);
        assert(c * num < c * den) by (nonlinear_arith)
            requires
                num < den,
                c >= 1,
        ;
        assert(c * num % den >= 0) by (nonlinear_arith)
            requires
                den > 0,
        ;
        assert(false);
    }
}

/// The trail strength left in a cell of value `c` after `k` evaporation
/// steps with retention ratio `num / den`.
pub open spec fn decay_iter(c: int, num: int, den: int, k: nat) -> int
    decreases k,
{
    if k == 0 {
        c
    } else {
        decay(decay_iter(c, num, den, (k - 1) as nat), num, den)
    }
}

/// Repeated evaporation never increases a trail: after any number of steps a
/// cell is still between zero and its starting value.
pub proof fn lemma_decay_iter_nonincreasing(c: int, num: int, den: int, k: nat)
    requires
        0 <= c,
        0 <= num <= den,
        0 < den,
    ensures
        0 <= decay_iter(c, num, den, k) <= c,
        decay_iter(c, num, den, (k + 1) as nat) <= decay_iter(c, num, den, k),
    decreases k,
{
    if k > 0 {
        lemma_decay_iter_nonincreasing(c, num, den, (k - 1) as nat);
        lemma_decay_bounds(decay_iter(c, num, den, (k - 1) as nat), num, den);
    }
    lemma_decay_bounds(decay_iter(c, num, den, k), num, den);
    assert(decay_iter(c, num, den, (k + 1) as nat) == decay(decay_iter(c, num, den, k), num, den));
}

proof fn lemma_decay_iter_zero(num: int, den: int, k: nat)
    requires
        0 <= num < den,
    ensures
        decay_iter(0, num, den, k) == 0,
    decreases k,
{
    if k > 0 {
        lemma_decay_iter_zero(num, den, (k - 1) as nat);
    }
}

proof fn lemma_decay_iter_shift(c: int, num: int, den: int, k: nat)
    requires
        k >= 1,
    ensures
        decay_iter(c, num, den, k) == decay_iter(decay(c, num, den), num, den, (k - 1) as nat),
    decreases k,
{
    let c1 = decay(c, num, den);
    if k == 1 {
        assert(decay_iter(c, num, den, 1) == decay(decay_iter(c, num, den, 0), num, den));
        assert(decay_iter(c1, num, den, 0) == c1);
    } else {
        lemma_decay_iter_shift(c, num, den, (k - 1) as nat);
        assert(decay_iter(c, num, den, k) == decay(decay_iter(c, num, den, (k - 1) as nat), num, den));
        assert(decay_iter(c1, num, den, (k - 1) as nat) == decay(
            decay_iter(c1, num, den, (k - 2) as nat),
            num,
            den,
        ));
    }
}

/// With zero deposit and a retention ratio strictly below one, repeated
/// evaporation drives every trail all the way to zero: a cell of value `c`
/// is extinct after at most `c` steps.
pub proof fn lemma_decay_reaches_zero(c: int, num: int, den: int, k: nat)
    requires
        0 <= c,
        0 <= num < den,
        k >= c,
    ensures
        decay_iter(c, num, den, k) == 0,
    decreases c,
{
    if c == 0 {
        lemma_decay_iter_zero(num, den, k);
    } else {
        lemma_decay_strict(c, num, den);
        let c1 = decay(c, num, den);
        lemma_decay_iter_shift(c, num, den, k);
        lemma_decay_reaches_zero(c1, num, den, (k - 1) as nat);
    }
}

/// Builds the starting matrix: `n` rows of `n` cells, each holding the
/// uniform initial trail.
pub fn initialize(n: usize) -> (m: Vec<Vec<u64>>)
    requires
        1 <= n <= MAX_JOBS,
    ensures
        matrix_wf(m@, n as int),
        forall|i: int, j: int|
            0 <= i < n && 0 <= j < n ==> #[trigger] m@[i]@[j] == INITIAL_PHEROMONE,
{
    let mut m: Vec<Vec<u64>> = Vec::new();
    let mut i: usize = 0;
    while i < n
        invariant
            0 <= i <= n,
            m@.len() == i,
            forall|a: int| 0 <= a < i ==> #[trigger] m@[a]@.len() == n,
            forall|a: int, b: int|
                0 <= a < i && 0 <= b < n ==> #[trigger] m@[a]@[b] == INITIAL_PHEROMONE,
        decreases n - i,
    {
        let mut row: Vec<u64> = Vec::new();
        let mut j: usize = 0;
        while j < n
            invariant
                0 <= j <= n,
                row@.len() == j,
                forall|b: int| 0 <= b < j ==> #[trigger] row@[b] == INITIAL_PHEROMONE,
            decreases n - j,
        {
            row.push(INITIAL_PHEROMONE);
            j = j + 1;
        }
        m.push(row);
        i = i + 1;
    }
    m
}

/// Applies one evaporation step: every cell is multiplied by the retention
/// ratio `num / den` in place.
pub fn evaporate(matrix: &mut Vec<Vec<u64>>, num: u64, den: u64)
    requires
        1 <= den,
        num <= den,
        matrix_wf(old(matrix)@, old(matrix)@.len() as int),
    ensures
        final(matrix)@.len() == old(matrix)@.len(),
        matrix_wf(final(matrix)@, old(matrix)@.len() as int),
        forall|i: int, j: int|
            0 <= i < old(matrix)@.len() && 0 <= j < old(matrix)@.len()
                ==> #[trigger] final(matrix)@[i]@[j]
                == decay(old(matrix)@[i]@[j] as int, num as int, den as int),
        // Evaporation never raises a trail.
        forall|i: int, j: int|
            0 <= i < old(matrix)@.len() && 0 <= j < old(matrix)@.len()
                ==> #[trigger] final(matrix)@[i]@[j] <= old(matrix)@[i]@[j],
{
    let n = matrix.len();
    let mut i: usize = 0;
    while i < n
        invariant
            n == old(matrix)@.len(),
            1 <= den,
            num <= den,
            0 <= i <= n,
            matrix_wf(matrix@, n as int),
            forall|a: int, b: int|
                0 <= a < i && 0 <= b < n ==> #[trigger] matrix@[a]@[b] == decay(
                    old(matrix)@[a]@[b] as int,
                    num as int,
                    den as int,
                ),
            forall|a: int, b: int|
                i <= a < n && 0 <= b < n ==> #[trigger] matrix@[a]@[b] == old(matrix)@[a]@[b],
        decreases n - i,
    {
        let mut j: usize = 0;
        while j < n
            invariant
                n == old(matrix)@.len(),
                1 <= den,
                num <= den,
                0 <= i < n,
                0 <= j <= n,
                matrix_wf(matrix@, n as int),
                forall|a: int, b: int|
                    0 <= a < i && 0 <= b < n ==> #[trigger] matrix@[a]@[b] == decay(
                        old(matrix)@[a]@[b] as int,
                        num as int,
                        den as int,
                    ),
                forall|b: int|
                    0 <= b < j ==> #[trigger] matrix@[i as int]@[b] == decay(
                        old(matrix)@[i as int]@[b] as int,
                        num as int,
                        den as int,
                    ),
                forall|b: int|
                    j <= b < n ==> #[trigger] matrix@[i as int]@[b] == old(matrix)@[i as int]@[b],
                forall|a: int, b: int|
                    i < a < n && 0 <= b < n ==> #[trigger] matrix@[a]@[b] == old(matrix)@[a]@[b],
            decreases n - j,
        {
            let c = matrix[i][j];
            proof {
                lemma_decay_bounds(c as int, num as int, den as int);
                assert((c as int) * (num as int) <= u64::MAX as int * u64::MAX as int)
                    by (nonlinear_arith)
                    requires
                        0 <= c <= u64::MAX,
                        0 <= num <= u64::MAX,
                ;
            }
            let nc: u64 = ((c as u128 * num as u128) / den as u128) as u64;
            matrix[i][j] = nc;
            j = j + 1;
        }
        i = i + 1;
    }
    proof {
        assert forall|a: int, b: int| 0 <= a < n && 0 <= b < n implies #[trigger] matrix@[a]@[b]
            <= old(matrix)@[a]@[b] by {
            lemma_decay_bounds(old(matrix)@[a]@[b] as int, num as int, den as int);
        }
    }
}

/// True when `tour` walks the directed edge from `from` to `to`.
pub open spec fn has_edge(tour: Seq<usize>, from: int, to: int) -> bool {
    exists|k: int|
        0 <= k && k + 1 < tour.len() && #[trigger] tour[k] == from && tour[k + 1] == to
}

/// Adds `amount` (saturating) to the cell of every consecutive pair of
/// `tour`.  The tour must not repeat a job, so each directed edge occurs at
/// most once and each touched cell grows by exactly one deposit.
pub fn deposit(matrix: &mut Vec<Vec<u64>>, tour: &Vec<usize>, amount: u64)
    requires
        matrix_wf(old(matrix)@, old(matrix)@.len() as int),
        forall|k: int| 0 <= k < tour@.len() ==> tour@[k] < old(matrix)@.len(),
        forall|k1: int, k2: int| 0 <= k1 < k2 < tour@.len() ==> tour@[k1] != tour@[k2],
    ensures
        matrix_wf(final(matrix)@, old(matrix)@.len() as int),
        forall|i: int, j: int|
            0 <= i < old(matrix)@.len() && 0 <= j < old(matrix)@.len()
                ==> #[trigger] final(matrix)@[i]@[j] == if has_edge(tour@, i, j) {
                sat64(old(matrix)@[i]@[j] + amount)
            } else {
                old(matrix)@[i]@[j] as int
            },
{
    let n = matrix.len();
    if tour.len() == 0 {
        return ;
    }
    let mut k: usize = 0;
    while k < tour.len() - 1
        invariant
            n == old(matrix)@.len(),
            matrix_wf(matrix@, n as int),
            tour@.len() >= 1,
            forall|a: int| 0 <= a < tour@.len() ==> tour@[a] < n,
            forall|k1: int, k2: int| 0 <= k1 < k2 < tour@.len() ==> tour@[k1] != tour@[k2],
            0 <= k <= tour@.len() - 1,
            forall|i: int, j: int|
                0 <= i < n && 0 <= j < n ==> #[trigger] matrix@[i]@[j] == if has_edge(
                    tour@.take(k + 1),
                    i,
                    j,
                ) {
                    sat64(old(matrix)@[i]@[j] + amount)
                } else {
                    old(matrix)@[i]@[j] as int
                },
        decreases tour@.len() - k,
    {
        let from = tour[k];
        let to = tour[k + 1];
        proof {
            // The edge starting at tour[k] is new: its source job occurs
            // nowhere else in the tour, so its cell still holds the old value.
            assert(!has_edge(tour@.take(k as int + 1), from as int, to as int));
        }
        let c = matrix[from][to];
        let nc = if c <= u64::MAX - amount {
            c + amount
        } else {
            u64::MAX
        };
        matrix[from][to] = nc;
        proof {
            let pre = tour@.take(k as int + 1);
            let post = tour@.take(k as int + 2);
            assert forall|i: int, j: int|
                0 <= i < n && 0 <= j < n implies #[trigger] matrix@[i]@[j] == if has_edge(
                post,
                i,
                j,
            ) {
                sat64(old(matrix)@[i]@[j] + amount)
            } else {
                old(matrix)@[i]@[j] as int
            } by {
                if i == from && j == to {
                    assert(post[k as int] == from && post[k as int + 1] == to);
                    assert(has_edge(post, i, j));
                } else {
                    if has_edge(post, i, j) {
                        let e = choose|e: int|
                            0 <= e && e + 1 < post.len() && #[trigger] post[e] == i && post[e + 1] == j;
                        if e == k {
                            assert(i == from && j == to);
                            assert(false);
                        } else {
                            assert(pre[e] == i && pre[e + 1] == j);
                            assert(has_edge(pre, i, j));
                        }
                    } else {
                        assert(!has_edge(pre, i, j)) by {
                            if has_edge(pre, i, j) {
                                let e = choose|e: int|
                                    0 <= e && e + 1 < pre.len() && #[trigger] pre[e] == i && pre[e + 1] == j;
                                assert(post[e] == i && post[e + 1] == j);
                            }
                        }
                    }
                }
            }
        }
        k = k + 1;
    }
    proof {
        assert(tour@.take(tour@.len() as int) =~= tour@);
        assert(tour@.take((tour@.len() - 1) + 1) =~= tour@);
    }
}

} // verus!
