//! The colony loop: configuration, per-iteration orchestration, and the
//! running best solution.
use vstd::prelude::*;
use crate::problem::{Problem, valid_tour};
use crate::fitness::{weighted_tardiness, get_fitness, lemma_fitness_bounded};
use crate::pheromone::{
    matrix_wf,
    decay,
    has_edge,
    initialize,
    evaporate,
    deposit,
    INITIAL_PHEROMONE,
};
use crate::select::{sat64, lemma_sat_fold};
use crate::ant::Ant;

verus! {

/// The six-value configuration surface of the colony loop.  The evaporation
/// rate is the retention ratio `evaporation_num / evaporation_den`, a
/// rational in `[0, 1]`; `alpha` and `beta` are the integer exponents of the
/// trail and visibility terms.
#[derive(Debug, Clone, Copy, PartialEq, Eq, Structural)]
pub struct ACOConfig {
    pub n_ants: usize,
    pub n_iterations: usize,
    pub alpha: u32,
    pub beta: u32,
    pub evaporation_num: u64,
    pub evaporation_den: u64,
    pub pheromone_add: u64,
}

/// A rejected configuration: the loop refuses to run vacuously or with a
/// retention ratio outside `[0, 1]`.
#[derive(Debug, Clone, Copy, PartialEq, Eq, Structural)]
pub enum ConfigError {
    ZeroAnts,
    ZeroIterations,
    InvalidEvaporationRate,
}

impl ACOConfig {
    pub open spec fn wf(self) -> bool {
        &&& self.n_ants >= 1
        &&& self.n_iterations >= 1
        &&& self.evaporation_den >= 1
        &&& self.evaporation_num <= self.evaporation_den
    }

    /// Validates and assembles a configuration: zero ants, zero iterations,
    /// or a retention ratio above one (or with a zero denominator) are each
    /// rejected with their own error, checked in that order.
    pub fn new(
        n_ants: usize,
        n_iterations: usize,
        alpha: u32,
        beta: u32,
        evaporation_num: u64,
        evaporation_den: u64,
        pheromone_add: u64,
    ) -> (r: Result<ACOConfig, ConfigError>)
        ensures
            match r {
                Ok(c) => {
                    &&& c.wf()
                    &&& c.n_ants == n_ants
                    &&& c.n_iterations == n_iterations
                    &&& c.alpha == alpha
                    &&& c.beta == beta
                    &&& c.evaporation_num == evaporation_num
                    &&& c.evaporation_den == evaporation_den
                    &&& c.pheromone_add == pheromone_add
                },
                Err(e) => match e {
                    ConfigError::ZeroAnts => n_ants == 0,
                    ConfigError::ZeroIterations => n_ants >= 1 && n_iterations == 0,
                    ConfigError::InvalidEvaporationRate => n_ants >= 1 && n_iterations >= 1 && (
                    evaporation_den == 0 || evaporation_num > evaporation_den),
                },
            },
    {
        if n_ants == 0 {
            Err(ConfigError::ZeroAnts)
        } else if n_iterations == 0 {
            Err(ConfigError::ZeroIterations)
        } else if evaporation_den == 0 || evaporation_num > evaporation_den {
            Err(ConfigError::InvalidEvaporationRate)
        } else {
            Ok(
                ACOConfig {
                    n_ants,
                    n_iterations,
                    alpha,
                    beta,
                    evaporation_num,
                    evaporation_den,
                    pheromone_add,
                },
            )
        }
    }
}

/// How many of the given ants walk the directed edge from `i` to `j`.
pub open spec fn edge_count(ants: Seq<Ant>, i: int, j: int) -> int
    decreases ants.len(),
{
    if ants.len() == 0 {
        0
    } else {
        edge_count(ants.drop_last(), i, j) + if has_edge(ants.last().tour@, i, j) {
            1int
        } else {
            0int
        }
    }
}

pub proof fn lemma_edge_count_nonneg(ants: Seq<Ant>, i: int, j: int)
    ensures
        edge_count(ants, i, j) >= 0,
    decreases ants.len(),
{
    if ants.len() > 0 {
        lemma_edge_count_nonneg(ants.drop_last(), i, j);
    }
}

/// The once-per-iteration pheromone update: every cell first decays by the
/// retention ratio, then grows by one (saturating) deposit for each ant
/// whose tour walks that cell's edge.
pub fn update_pheromone_matrix(
    pheromone_matrix: &mut Vec<Vec<u64>>,
    ants: &Vec<Ant>,
    config: &ACOConfig,
)
    requires
        config.wf(),
        matrix_wf(old(pheromone_matrix)@, old(pheromone_matrix)@.len() as int),
        forall|a: int|
            0 <= a < ants@.len() ==> (#[trigger] ants@[a]).wf(old(pheromone_matrix)@.len() as int),
    ensures
        matrix_wf(final(pheromone_matrix)@, old(pheromone_matrix)@.len() as int),
        forall|i: int, j: int|
            0 <= i < old(pheromone_matrix)@.len() && 0 <= j < old(pheromone_matrix)@.len()
                ==> #[trigger] final(pheromone_matrix)@[i]@[j] == sat64(
                decay(
                    old(pheromone_matrix)@[i]@[j] as int,
                    config.evaporation_num as int,
                    config.evaporation_den as int,
                ) + config.pheromone_add * edge_count(ants@, i, j),
            ),
{
    let n = pheromone_matrix.len();
    let ghost old_m = pheromone_matrix@;
    evaporate(pheromone_matrix, config.evaporation_num, config.evaporation_den);
    proof {
        assert forall|i: int, j: int| 0 <= i < n && 0 <= j < n implies #[trigger] pheromone_matrix@[
        i]@[j] == sat64(
            decay(
                old_m[i]@[j] as int,
                config.evaporation_num as int,
                config.evaporation_den as int,
            ) + config.pheromone_add * edge_count(ants@.take(0), i, j),
        ) by {
            crate::pheromone::lemma_decay_bounds(
                old_m[i]@[j] as int,
                config.evaporation_num as int,
                config.evaporation_den as int,
            );
            assert(edge_count(ants@.take(0), i, j) == 0);
            assert(config.pheromone_add * 0 == 0) by (nonlinear_arith);
        }
    }
    let mut a: usize = 0;
    while a < ants.len()
        invariant
            n == old(pheromone_matrix)@.len(),
            config.wf(),
            forall|k: int| 0 <= k < ants@.len() ==> (#[trigger] ants@[k]).wf(n as int),
            0 <= a <= ants@.len(),
            matrix_wf(pheromone_matrix@, n as int),
            forall|i: int, j: int|
                0 <= i < n && 0 <= j < n ==> #[trigger] pheromone_matrix@[i]@[j] == sat64(
                    decay(
                        old(pheromone_matrix)@[i]@[j] as int,
                        config.evaporation_num as int,
                        config.evaporation_den as int,
                    ) + config.pheromone_add * edge_count(ants@.take(a as int), i, j),
                ),
        decreases ants@.len() - a,
    {
        let ghost pre_m = pheromone_matrix@;
        let ant = &ants[a];
        deposit(pheromone_matrix, &ant.tour, config.pheromone_add);
        proof {
            let ghost post = ants@.take(a as int + 1);
            assert(post.drop_last() =~= ants@.take(a as int));
            assert(post.last() == ants@[a as int]);
            assert forall|i: int, j: int| 0 <= i < n && 0 <= j < n implies #[trigger]
            pheromone_matrix@[i]@[j] == sat64(
                decay(
                    old(pheromone_matrix)@[i]@[j] as int,
                    config.evaporation_num as int,
                    config.evaporation_den as int,
                ) + config.pheromone_add * edge_count(post, i, j),
            ) by {
                let d = decay(
                    old(pheromone_matrix)@[i]@[j] as int,
                    config.evaporation_num as int,
                    config.evaporation_den as int,
                );
                let c = edge_count(ants@.take(a as int), i, j);
                crate::pheromone::lemma_decay_bounds(
                    old(pheromone_matrix)@[i]@[j] as int,
                    config.evaporation_num as int,
                    config.evaporation_den as int,
                );
                lemma_edge_count_nonneg(ants@.take(a as int), i, j);
                assert(config.pheromone_add * c >= 0) by (nonlinear_arith)
                    requires
                        c >= 0,
                        config.pheromone_add >= 0,
                ;
                if has_edge(ants@[a as int].tour@, i, j) {
                    assert(edge_count(post, i, j) == c + 1);
                    lemma_sat_fold(d + config.pheromone_add * c, config.pheromone_add as int);
                    assert(config.pheromone_add * (c + 1) == config.pheromone_add * c
                        + config.pheromone_add) by (nonlinear_arith);
                } else {
                    assert(edge_count(post, i, j) == c);
                    assert(sat64(d + config.pheromone_add * c) <= u64::MAX);
                }
            }
        }
        a = a + 1;
    }
    proof {
        assert(ants@.take(ants@.len() as int) =~= ants@);
    }
}

/// The running best solution: before any tour has been scored it is the
/// empty tour at sentinel cost `u64::MAX`; afterwards it is a valid tour
/// carrying exactly its own weighted tardiness.
pub open spec fn best_inv(p: Problem, cost: int, tour: Seq<usize>) -> bool {
    if tour.len() == 0 {
        cost == u64::MAX
    } else {
        &&& valid_tour(tour, p.n as int)
        &&& cost == weighted_tardiness(p, tour)
    }
}

/// The running minimum after scoring each of `ants`' tours in turn against
/// the incoming best cost, replacing it only on strict improvement.
pub open spec fn min_cost_of(p: Problem, ants: Seq<Ant>, incoming: int) -> int
    decreases ants.len(),
{
    if ants.len() == 0 {
        incoming
    } else {
        let rest = min_cost_of(p, ants.drop_last(), incoming);
        let c = weighted_tardiness(p, ants.last().tour@);
        if c < rest {
            c
        } else {
            rest
        }
    }
}

/// Everything one iteration leaves behind, given the cohort of ants it
/// constructed: a full cohort of well-formed ants started at the origin, the
/// matrix evaporated once and then re-deposited from exactly this cohort's
/// tours, the new best cost the minimum of the incoming one and every tour's
/// weighted tardiness, and the new best tour either the incoming one or a
/// tour of the cohort.
pub open spec fn iteration_outcome(
    p: Problem,
    cfg: ACOConfig,
    old_m: Seq<Vec<u64>>,
    new_m: Seq<Vec<u64>>,
    old_cost: int,
    old_tour: Seq<usize>,
    new_cost: int,
    new_tour: Seq<usize>,
    ants: Seq<Ant>,
) -> bool {
    &&& ants.len() == cfg.n_ants
    &&& (forall|k: int| 0 <= k < ants.len() ==> (#[trigger] ants[k]).wf(p.n as int))
    &&& (forall|k: int| 0 <= k < ants.len() ==> (#[trigger] ants[k]).tour@[0] == 0)
    &&& (forall|i: int, j: int|
        0 <= i < p.n && 0 <= j < p.n ==> #[trigger] new_m[i]@[j] == sat64(
            decay(old_m[i]@[j] as int, cfg.evaporation_num as int, cfg.evaporation_den as int)
                + cfg.pheromone_add * edge_count(ants, i, j),
        ))
    &&& new_cost == min_cost_of(p, ants, old_cost)
    &&& (new_tour == old_tour || (exists|k: int|
        0 <= k < ants.len() && new_tour == (#[trigger] ants[k]).tour@))
}

/// A uniform starting matrix: square, every trail at the initial strength.
pub open spec fn uniform_matrix(m: Seq<Vec<u64>>, n: int) -> bool {
    &&& matrix_wf(m, n)
    &&& forall|i: int, j: int| 0 <= i < n && 0 <= j < n ==> #[trigger] m[i]@[j] == INITIAL_PHEROMONE
}

/// A whole run's trace: starting from the uniform matrix, the sentinel cost
/// and the empty tour, every iteration relates state `t` to state `t + 1`
/// through `iteration_outcome` with that iteration's cohort of ants.  The
/// final cost is therefore the minimum weighted tardiness over every tour
/// any cohort built.
pub open spec fn run_trace(
    p: Problem,
    cfg: ACOConfig,
    cohorts: Seq<Seq<Ant>>,
    matrices: Seq<Seq<Vec<u64>>>,
    costs: Seq<int>,
    tours: Seq<Seq<usize>>,
) -> bool {
    &&& cohorts.len() == cfg.n_iterations
    &&& matrices.len() == cfg.n_iterations + 1
    &&& costs.len() == cfg.n_iterations + 1
    &&& tours.len() == cfg.n_iterations + 1
    &&& uniform_matrix(matrices[0], p.n as int)
    &&& costs[0] == u64::MAX
    &&& tours[0] == Seq::<usize>::empty()
    &&& forall|t: int|
        0 <= t < cfg.n_iterations ==> #[trigger] iteration_outcome(
            p,
            cfg,
            matrices[t],
            matrices[t + 1],
            costs[t],
            tours[t],
            costs[t + 1],
            tours[t + 1],
            cohorts[t],
        )
}

fn clone_tour(t: &Vec<usize>) -> (r: Vec<usize>)
    ensures
        r@ == t@,
{
    let mut r: Vec<usize> = Vec::new();
    let mut i: usize = 0;
    while i < t.len()
        invariant
            0 <= i <= t@.len(),
            r@ =~= t@.take(i as int),
        decreases t@.len() - i,
    {
        r.push(t[i]);
        i = i + 1;
    }
    proof {
        assert(t@.take(t@.len() as int) =~= t@);
    }
    r
}

/// One iteration of the colony: every ant builds and scores a tour, the
/// running best is replaced by any strictly better tour found, and the
/// pheromone matrix is evaporated and re-deposited from this cohort.  The
/// best cost never worsens, and after the iteration a scored tour is always
/// held.
pub fn run_iteration(
    problem: &Problem,
    config: &ACOConfig,
    pheromone_matrix: &mut Vec<Vec<u64>>,
    rng: &mut rand::rngs::StdRng,
    best_fitness: u64,
    best_tour: Vec<usize>,
) -> (r: (u64, Vec<usize>))
    requires
        problem.wf(),
        config.wf(),
        matrix_wf(old(pheromone_matrix)@, problem.n as int),
        best_inv(*problem, best_fitness as int, best_tour@),
    ensures
        matrix_wf(final(pheromone_matrix)@, problem.n as int),
        best_inv(*problem, r.0 as int, r.1@),
        r.0 <= best_fitness,
        r.1@.len() >= 1,
        valid_tour(r.1@, problem.n as int),
        exists|ants: Seq<Ant>|
            #[trigger] iteration_outcome(
                *problem,
                *config,
                old(pheromone_matrix)@,
                final(pheromone_matrix)@,
                best_fitness as int,
                best_tour@,
                r.0 as int,
                r.1@,
                ants,
            ),
{
    let mut ants: Vec<Ant> = Vec::new();
    let mut best_f = best_fitness;
    let mut best_t = best_tour;
    let ghost best_tour0 = best_t@;
    let mut a: usize = 0;
    while a < config.n_ants
        invariant
            problem.wf(),
            config.wf(),
            pheromone_matrix@ == old(pheromone_matrix)@,
            matrix_wf(pheromone_matrix@, problem.n as int),
            0 <= a <= config.n_ants,
            ants@.len() == a,
            forall|k: int| 0 <= k < a ==> (#[trigger] ants@[k]).wf(problem.n as int),
            forall|k: int| 0 <= k < a ==> (#[trigger] ants@[k]).tour@[0] == 0,
            best_inv(*problem, best_f as int, best_t@),
            best_f <= best_fitness,
            best_f as int == min_cost_of(*problem, ants@, best_fitness as int),
            best_t@ == best_tour0 || (exists|k: int|
                0 <= k < ants@.len() && best_t@ == (#[trigger] ants@[k]).tour@),
            a >= 1 ==> best_t@.len() >= 1,
            best_tour0.len() >= 1 ==> best_t@.len() >= 1,
            best_t@.len() == 0 ==> best_t@ == best_tour0,
        decreases config.n_ants - a,
    {
        let ghost prev_ants = ants@;
        let mut ant = Ant::init(problem, 0);
        ant.construct_tour(problem, config, pheromone_matrix, rng);
        let fitness = get_fitness(problem, &ant.tour);
        proof {
            lemma_fitness_bounded(*problem, ant.tour@);
        }
        let improved = fitness < best_f;
        if improved {
            best_f = fitness;
            best_t = clone_tour(&ant.tour);
        }
        ants.push(ant);
        proof {
            assert(ants@.drop_last() =~= prev_ants);
            assert(ants@.last() == ant);
            if improved {
                assert(best_t@ == ants@[a as int].tour@);
            } else {
                if best_t@ != best_tour0 {
                    let k = choose|k: int|
                        0 <= k < prev_ants.len() && best_t@ == (#[trigger] prev_ants[k]).tour@;
                    assert(best_t@ == ants@[k].tour@);
                }
            }
        }
        a = a + 1;
    }
    update_pheromone_matrix(pheromone_matrix, &ants, config);
    proof {
        assert(iteration_outcome(
            *problem,
            *config,
            old(pheromone_matrix)@,
            pheromone_matrix@,
            best_fitness as int,
            best_tour0,
            best_f as int,
            best_t@,
            ants@,
        ));
    }
    (best_f, best_t)
}

/// The whole run: a uniform pheromone matrix, then `n_iterations` colony
/// iterations.  Returns the best tour found over the entire run — a valid
/// tour starting at the origin job — together with exactly its weighted
/// tardiness.
pub fn aco_main(problem: &Problem, config: &ACOConfig, rng: &mut rand::rngs::StdRng) -> (r: (
    u64,
    Vec<usize>,
))
    requires
        problem.wf(),
        config.wf(),
    ensures
        valid_tour(r.1@, problem.n as int),
        r.0 == weighted_tardiness(*problem, r.1@),
        exists|cohorts: Seq<Seq<Ant>>, matrices: Seq<Seq<Vec<u64>>>, costs: Seq<int>, tours: Seq<
            Seq<usize>,
        >|
            {
                &&& #[trigger] run_trace(*problem, *config, cohorts, matrices, costs, tours)
                &&& r.0 as int == costs[config.n_iterations as int]
                &&& r.1@ == tours[config.n_iterations as int]
            },
{
    let mut pheromone_matrix = initialize(problem.n);
    let mut best_f: u64 = u64::MAX;
    let mut best_t: Vec<usize> = Vec::new();
    let ghost mut cohorts: Seq<Seq<Ant>> = Seq::empty();
    let ghost mut matrices: Seq<Seq<Vec<u64>>> = seq![pheromone_matrix@];
    let ghost mut costs: Seq<int> = seq![u64::MAX as int];
    let ghost mut tours: Seq<Seq<usize>> = seq![Seq::<usize>::empty()];
    let mut it: usize = 0;
    while it < config.n_iterations
        invariant
            problem.wf(),
            config.wf(),
            matrix_wf(pheromone_matrix@, problem.n as int),
            0 <= it <= config.n_iterations,
            best_inv(*problem, best_f as int, best_t@),
            it >= 1 ==> best_t@.len() >= 1,
            cohorts.len() == it,
            matrices.len() == it + 1,
            costs.len() == it + 1,
            tours.len() == it + 1,
            uniform_matrix(matrices[0], problem.n as int),
            costs[0] == u64::MAX,
            tours[0] == Seq::<usize>::empty(),
            matrices[it as int] == pheromone_matrix@,
            costs[it as int] == best_f as int,
            tours[it as int] == best_t@,
            forall|t: int|
                0 <= t < it ==> #[trigger] iteration_outcome(
                    *problem,
                    *config,
                    matrices[t],
                    matrices[t + 1],
                    costs[t],
                    tours[t],
                    costs[t + 1],
                    tours[t + 1],
                    cohorts[t],
                ),
        decreases config.n_iterations - it,
    {
        let ghost prev_cost = best_f as int;
        let ghost prev_tour = best_t@;
        let ghost prev_m = pheromone_matrix@;
        let res = run_iteration(problem, config, &mut pheromone_matrix, rng, best_f, best_t);
        best_f = res.0;
        best_t = res.1;
        proof {
            let ants = choose|ants: Seq<Ant>|
                #[trigger] iteration_outcome(
                    *problem,
                    *config,
                    prev_m,
                    pheromone_matrix@,
                    prev_cost,
                    prev_tour,
                    best_f as int,
                    best_t@,
                    ants,
                );
            cohorts = cohorts.push(ants);
            matrices = matrices.push(pheromone_matrix@);
            costs = costs.push(best_f as int);
            tours = tours.push(best_t@);
        }
        it = it + 1;
    }
    proof {
        assert(run_trace(*problem, *config, cohorts, matrices, costs, tours));
    }
    (best_f, best_t)
}

} // verus!
