//! A solution-construction agent: a partial tour, a visited set, and the
//! probabilistic next-job selection rule.
use vstd::prelude::*;
use crate::problem::Problem;
use crate::pheromone::matrix_wf;
use crate::select::{
    sat64,
    pow_int,
    sum_of,
    sat_add,
    sat_mul,
    sat_pow,
    roulette,
    lemma_sat_fold,
    lemma_sum_nonneg,
    lemma_sum_zero_all_zero,
};
use crate::colony::ACOConfig;
use crate::randsrc::draw_below;

verus! {

/// The fixed-point unit for visibility: the heuristic attractiveness of a
/// job is `VISIBILITY_SCALE / processing_time`, so shorter jobs score higher.
pub const VISIBILITY_SCALE: u64 = 1000000;

/// The selection weight of moving from job `cur` to the unvisited job `j`:
/// trail strength raised to `alpha` times visibility raised to `beta`, each
/// factor and the product clamped into `u64`.
pub open spec fn desirability(
    p: Problem,
    alpha: u32,
    beta: u32,
    m: Seq<Vec<u64>>,
    cur: int,
    j: int,
) -> int {
    sat64(
        sat64(pow_int(m[cur]@[j] as int, alpha as nat)) * sat64(
            pow_int(VISIBILITY_SCALE as int / p.processing_time@[j] as int, beta as nat),
        ),
    )
}

/// One ant: the jobs visited so far (`tabu_list`), the job it stands on, and
/// the tour built so far.
pub struct Ant {
    pub tabu_list: Vec<bool>,
    pub curr_pos: usize,
    pub tour: Vec<usize>,
}

impl Ant {
    /// The agent invariant over a problem of `n` jobs: the visited set has
    /// one flag per job, the tour is a non-empty sequence of distinct
    /// in-range jobs all flagged visited, and the ant stands on the tour's
    /// last job.
    pub open spec fn wf(self, n: int) -> bool {
        &&& self.tabu_list@.len() == n
        &&& self.curr_pos < n
        &&& 1 <= self.tour@.len() <= n
        &&& self.tour@.last() == self.curr_pos
        &&& forall|k: int| 0 <= k < self.tour@.len() ==> (#[trigger] self.tour@[k]) < n
        &&& forall|k: int|
            0 <= k < self.tour@.len() ==> self.tabu_list@[#[trigger] self.tour@[k] as int]
        &&& forall|k1: int, k2: int|
            0 <= k1 < k2 < self.tour@.len() ==> self.tour@[k1] != self.tour@[k2]
    }

    /// A fresh ant standing on `start_pos`, with only that job visited.
    pub fn init(problem: &Problem, start_pos: usize) -> (a: Ant)
        requires
            problem.wf(),
            start_pos < problem.n,
        ensures
            a.wf(problem.n as int),
            a.tour@ =~= seq![start_pos],
            a.curr_pos == start_pos,
            forall|j: int| 0 <= j < problem.n ==> (a.tabu_list@[j] <==> j == start_pos),
    {
        let n = problem.n;
        let mut tabu_list: Vec<bool> = Vec::new();
        let mut i: usize = 0;
        while i < n
            invariant
                0 <= i <= n,
                tabu_list@.len() == i,
                forall|j: int| 0 <= j < i ==> !tabu_list@[j],
            decreases n - i,
        {
            tabu_list.push(false);
            i = i + 1;
        }
        tabu_list[start_pos] = true;
        let mut tour: Vec<usize> = Vec::new();
        tour.push(start_pos);
        Ant { tabu_list, curr_pos: start_pos, tour }
    }

    /// Steps the ant onto the unvisited job `next_pos`: flags it visited,
    /// appends it to the tour and stands on it.
    pub fn move_to(&mut self, next_pos: usize)
        requires
            old(self).wf(old(self).tabu_list@.len() as int),
            next_pos < old(self).tabu_list@.len(),
            !old(self).tabu_list@[next_pos as int],
            old(self).tour@.len() < old(self).tabu_list@.len(),
        ensures
            final(self).wf(old(self).tabu_list@.len() as int),
            final(self).curr_pos == next_pos,
            final(self).tabu_list@ == old(self).tabu_list@.update(next_pos as int, true),
            final(self).tour@ == old(self).tour@.push(next_pos),
    {
        self.curr_pos = next_pos;
        self.tabu_list[next_pos] = true;
        self.tour.push(next_pos);
    }

    /// The probabilistic transition rule.  Computes every unvisited job's
    /// desirability; when all of them are zero the ant is stuck and `None`
    /// comes back, otherwise one unvisited job of positive desirability is
    /// drawn by weighted roulette.
    pub fn choose_next_position(
        &self,
        problem: &Problem,
        config: &ACOConfig,
        pheromone_matrix: &Vec<Vec<u64>>,
        rng: &mut rand::rngs::StdRng,
    ) -> (r: Option<usize>)
        requires
            problem.wf(),
            self.wf(problem.n as int),
            matrix_wf(pheromone_matrix@, problem.n as int),
            forall|j: int|
                0 <= j < problem.n && !self.tabu_list@[j] ==> problem.processing_time@[j] >= 1,
        ensures
            match r {
                None => forall|j: int|
                    0 <= j < problem.n && !self.tabu_list@[j] ==> desirability(
                        *problem,
                        config.alpha,
                        config.beta,
                        pheromone_matrix@,
                        self.curr_pos as int,
                        j,
                    ) == 0,
                Some(j) => j < problem.n && !self.tabu_list@[j as int] && desirability(
                    *problem,
                    config.alpha,
                    config.beta,
                    pheromone_matrix@,
                    self.curr_pos as int,
                    j as int,
                ) > 0,
            },
    {
        let n = problem.n;
        let mut possib: Vec<u64> = Vec::new();
        let mut sum: u64 = 0;
        let mut j: usize = 0;
        proof {
            assert(possib@.take(0) =~= Seq::<u64>::empty());
        }
        while j < n
            invariant
                problem.wf(),
                self.wf(problem.n as int),
                matrix_wf(pheromone_matrix@, problem.n as int),
                forall|b: int|
                    0 <= b < problem.n && !self.tabu_list@[b] ==> problem.processing_time@[b] >= 1,
                n == problem.n,
                0 <= j <= n,
                possib@.len() == j,
                forall|b: int|
                    0 <= b < j ==> #[trigger] possib@[b] == if self.tabu_list@[b] {
                        0int
                    } else {
                        desirability(
                            *problem,
                            config.alpha,
                            config.beta,
                            pheromone_matrix@,
                            self.curr_pos as int,
                            b,
                        )
                    },
                sum == sat64(sum_of(possib@)),
            decreases n - j,
        {
            let ghost prev = possib@;
            let val: u64;
            if !self.tabu_list[j] {
                let vis = VISIBILITY_SCALE / problem.processing_time[j];
                let pher = pheromone_matrix[self.curr_pos][j];
                val = sat_mul(sat_pow(pher, config.alpha), sat_pow(vis, config.beta));
                proof {
                    // The clamped product of the clamped powers is the
                    // desirability by definition.
                    crate::select::lemma_pow_nonneg(pher as int, config.alpha as nat);
                    crate::select::lemma_pow_nonneg(vis as int, config.beta as nat);
                }
            } else {
                val = 0;
            }
            possib.push(val);
            proof {
                assert(possib@.drop_last() =~= prev);
                lemma_sum_nonneg(prev);
                lemma_sat_fold(sum_of(prev), val as int);
                assert(sum_of(possib@) == sum_of(prev) + val);
            }
            sum = sat_add(sum, val);
            j = j + 1;
        }
        if sum == 0 {
            proof {
                lemma_sum_nonneg(possib@);
                lemma_sum_zero_all_zero(possib@);
                assert forall|b: int|
                    0 <= b < problem.n && !self.tabu_list@[b] implies desirability(
                    *problem,
                    config.alpha,
                    config.beta,
                    pheromone_matrix@,
                    self.curr_pos as int,
                    b,
                ) == 0 by {
                    assert(possib@[b] == 0);
                }
            }
            return None;
        }
        let r = draw_below(rng, sum);
        proof {
            lemma_sum_nonneg(possib@);
        }
        let idx = roulette(&possib, r);
        Some(idx)
    }

    /// Drives one ant from its start to a finished tour: up to `n - 1`
    /// transition attempts, stopping early if the ant gets stuck.  The tour
    /// keeps its origin, stays well formed, and never exceeds `n` jobs.
    pub fn construct_tour(
        &mut self,
        problem: &Problem,
        config: &ACOConfig,
        pheromone_matrix: &Vec<Vec<u64>>,
        rng: &mut rand::rngs::StdRng,
    )
        requires
            problem.wf(),
            old(self).wf(problem.n as int),
            old(self).tour@.len() == 1,
            matrix_wf(pheromone_matrix@, problem.n as int),
            forall|j: int|
                0 <= j < problem.n && !old(self).tabu_list@[j] ==> problem.processing_time@[j]
                    >= 1,
        ensures
            final(self).wf(problem.n as int),
            final(self).tour@[0] == old(self).tour@[0],
            final(self).tour@.len() == problem.n || (forall|j: int|
                0 <= j < problem.n && !final(self).tabu_list@[j] ==> desirability(
                    *problem,
                    config.alpha,
                    config.beta,
                    pheromone_matrix@,
                    final(self).curr_pos as int,
                    j,
                ) == 0),
    {
        let n = problem.n;
        let mut step: usize = 0;
        let mut stuck = false;
        while step < n - 1 && !stuck
            invariant
                problem.wf(),
                n == problem.n,
                self.wf(problem.n as int),
                matrix_wf(pheromone_matrix@, problem.n as int),
                forall|j: int|
                    0 <= j < problem.n && !self.tabu_list@[j] ==> problem.processing_time@[j]
                        >= 1,
                0 <= step <= n - 1,
                self.tour@.len() <= 1 + step,
                !stuck ==> self.tour@.len() == 1 + step,
                stuck ==> (forall|j: int|
                    0 <= j < problem.n && !self.tabu_list@[j] ==> desirability(
                        *problem,
                        config.alpha,
                        config.beta,
                        pheromone_matrix@,
                        self.curr_pos as int,
                        j,
                    ) == 0),
                self.tour@[0] == old(self).tour@[0],
            decreases n - 1 - step,
        {
            let next_pos = self.choose_next_position(problem, config, pheromone_matrix, rng);
            match next_pos {
                Some(pos) => {
                    self.move_to(pos);
                },
                None => {
                    stuck = true;
                },
            }
            step = step + 1;
        }
    }
}

} // verus!
