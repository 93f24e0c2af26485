//! The fitness evaluator: total weighted tardiness of a tour.
use vstd::prelude::*;
use crate::problem::{Problem, MAX_VALUE, MAX_JOBS};

verus! {

/// Completion time of the last job of `tour`: the sum of the processing
/// times of all jobs in the tour.
pub open spec fn tour_time(p: Problem, tour: Seq<usize>) -> int
    decreases tour.len(),
{
    if tour.len() == 0 {
        0
    } else {
        tour_time(p, tour.drop_last()) + p.processing_time@[tour.last() as int]
    }
}

/// Total weighted tardiness of `tour`: each job finishing at time `t` past
/// its due date `d` contributes `weight * (t - d)`; jobs finishing on time
/// contribute nothing.
pub open spec fn weighted_tardiness(p: Problem, tour: Seq<usize>) -> int
    decreases tour.len(),
{
    if tour.len() == 0 {
        0
    } else {
        let rest = weighted_tardiness(p, tour.drop_last());
        let t = tour_time(p, tour);
        let j = tour.last() as int;
        if t > p.due_date@[j] {
            rest + p.weight@[j] * (t - p.due_date@[j])
        } else {
            rest
        }
    }
}

/// Weighted tardiness is never negative, for any tour over any problem:
/// completion times only grow, and every tardiness term is a product of
/// non-negative quantities.
pub proof fn lemma_fitness_nonnegative(p: Problem, tour: Seq<usize>)
    ensures
        tour_time(p, tour) >= 0,
        weighted_tardiness(p, tour) >= 0,
    decreases tour.len(),
{
    if tour.len() > 0 {
        lemma_fitness_nonnegative(p, tour.drop_last());
        let t = tour_time(p, tour);
        let j = tour.last() as int;
        if t > p.due_date@[j] {
            assert(p.weight@[j] * (t - p.due_date@[j]) >= 0) by (nonlinear_arith)
                requires
                    p.weight@[j] >= 0,
                    t - p.due_date@[j] >= 1,
            ;
        }
    }
}

/// On a well-formed problem, a tour of at most `n` in-range jobs finishes by
/// `tour.len() * MAX_VALUE` and costs at most
/// `tour.len() * (MAX_VALUE * (MAX_JOBS * MAX_VALUE))`, so every fitness
/// value fits comfortably in `u64`.
pub proof fn lemma_fitness_bounded(p: Problem, tour: Seq<usize>)
    requires
        p.wf(),
        tour.len() <= p.n,
        forall|k: int| 0 <= k < tour.len() ==> tour[k] < p.n,
    ensures
        tour_time(p, tour) <= tour.len() * MAX_VALUE,
        weighted_tardiness(p, tour) <= tour.len() * (MAX_VALUE * (MAX_JOBS as u64 * MAX_VALUE)),
        weighted_tardiness(p, tour) < u64::MAX,
    decreases tour.len(),
{
    let term_bound = MAX_VALUE * (MAX_JOBS as u64 * MAX_VALUE);
    if tour.len() == 0 {
        assert(0 <= tour.len() * MAX_VALUE);
    } else {
        lemma_fitness_bounded(p, tour.drop_last());
        let t = tour_time(p, tour);
        let j = tour.last() as int;
        assert(tour.drop_last().len() * MAX_VALUE + MAX_VALUE == tour.len() * MAX_VALUE)
            by (nonlinear_arith)
            requires
                tour.drop_last().len() + 1 == tour.len(),
        ;
        assert(t <= tour.len() * MAX_VALUE);
        assert(tour.len() * MAX_VALUE <= MAX_JOBS as u64 * MAX_VALUE) by (nonlinear_arith)
            requires
                0 <= tour.len() <= MAX_JOBS,
                MAX_VALUE > 0,
        ;
        if t > p.due_date@[j] {
            lemma_fitness_nonnegative(p, tour.drop_last());
            assert(p.weight@[j] * (t - p.due_date@[j]) <= term_bound) by (nonlinear_arith)
                requires
                    0 <= p.weight@[j] <= MAX_VALUE,
                    0 < t - p.due_date@[j] <= MAX_JOBS as u64 * MAX_VALUE,
                    term_bound == MAX_VALUE * (MAX_JOBS as u64 * MAX_VALUE),
            ;
        }
        assert(tour.drop_last().len() * term_bound + term_bound == tour.len() * term_bound)
            by (nonlinear_arith)
            requires
                tour.drop_last().len() + 1 == tour.len(),
        ;
        assert(tour.len() * term_bound <= MAX_JOBS * term_bound) by (nonlinear_arith)
            requires
                0 <= tour.len() <= MAX_JOBS,
                term_bound > 0,
        ;
    }
}

/// Computes the total weighted tardiness of `tour` on `problem`.
pub fn get_fitness(problem: &Problem, tour: &Vec<usize>) -> (r: u64)
    requires
        problem.wf(),
        tour@.len() <= problem.n,
        forall|k: int| 0 <= k < tour@.len() ==> tour@[k] < problem.n,
    ensures
        r == weighted_tardiness(*problem, tour@),
{
    let mut time: u64 = 0;
    let mut cost: u64 = 0;
    let mut i: usize = 0;
    proof {
        assert(tour@.take(0) =~= Seq::<usize>::empty());
    }
    while i < tour.len()
        invariant
            problem.wf(),
            tour@.len() <= problem.n,
            forall|k: int| 0 <= k < tour@.len() ==> tour@[k] < problem.n,
            0 <= i <= tour@.len(),
            time == tour_time(*problem, tour@.take(i as int)),
            cost == weighted_tardiness(*problem, tour@.take(i as int)),
            time <= i * MAX_VALUE,
            cost <= i * (MAX_VALUE * (MAX_JOBS as u64 * MAX_VALUE)),
        decreases tour@.len() - i,
    {
        let j = tour[i];
        proof {
            let pre = tour@.take(i as int);
            let post = tour@.take(i as int + 1);
            assert(post.drop_last() =~= pre);
            assert(post.last() == tour@[i as int]);
            lemma_fitness_bounded(*problem, post);
            lemma_fitness_nonnegative(*problem, pre);
            assert(i * MAX_VALUE + MAX_VALUE == (i + 1) * MAX_VALUE) by (nonlinear_arith);
            assert(i * (MAX_VALUE * (MAX_JOBS as u64 * MAX_VALUE)) + (MAX_VALUE * (
            MAX_JOBS as u64 * MAX_VALUE)) == (i + 1) * (MAX_VALUE * (MAX_JOBS as u64
                * MAX_VALUE))) by (nonlinear_arith);
            assert((i + 1) * MAX_VALUE <= MAX_JOBS as u64 * MAX_VALUE) by (nonlinear_arith)
                requires
                    0 <= i + 1 <= MAX_JOBS,
                    MAX_VALUE > 0,
            ;
            assert(problem.weight@[tour@[i as int] as int] * (time + problem.processing_time@[
            tour@[i as int] as int] - problem.due_date@[tour@[i as int] as int]) <= MAX_VALUE * (
            MAX_JOBS as u64 * MAX_VALUE)) by (nonlinear_arith)
                requires
                    0 <= problem.weight@[tour@[i as int] as int] <= MAX_VALUE,
                    time + problem.processing_time@[tour@[i as int] as int] <= MAX_JOBS as u64
                        * MAX_VALUE,
            ;
        }
        time = time + problem.processing_time[j];
        if time > problem.due_date[j] {
            let tardiness = time - problem.due_date[j];
            cost = cost + problem.weight[j] * tardiness;
        }
        i = i + 1;
    }
    proof {
        assert(tour@.take(tour@.len() as int) =~= tour@);
    }
    cost
}

} // verus!
