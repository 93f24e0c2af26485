use aco_tardiness::ant::Ant;
use aco_tardiness::colony::{aco_main, run_iteration, update_pheromone_matrix, ACOConfig, ConfigError};
use aco_tardiness::fitness::get_fitness;
use aco_tardiness::pheromone::{deposit, evaporate, initialize, INITIAL_PHEROMONE};
use aco_tardiness::problem::Problem;
use aco_tardiness::randsrc::{draw_below, rng_from_seed};
use aco_tardiness::select::{roulette, sat_add, sat_mul, sat_pow};

fn toy_config() -> ACOConfig {
    ACOConfig::new(4, 10, 1, 2, 9, 10, 1000).unwrap()
}

#[test]
fn toy_problem_identity_tour_fitness() {
    // Hand-computed: completion times 0,2,6,9,14,15; tardy jobs 2..=5
    // contribute 1*3 + 4*3 + 2*10 + 5*8 = 75.
    let p = Problem::get_toy_problem();
    let tour: Vec<usize> = vec![0, 1, 2, 3, 4, 5];
    assert_eq!(get_fitness(&p, &tour), 75);
}

#[test]
fn fitness_empty_and_single() {
    let p = Problem::get_toy_problem();
    let empty: Vec<usize> = Vec::new();
    assert_eq!(get_fitness(&p, &empty), 0);
    let origin: Vec<usize> = vec![0];
    assert_eq!(get_fitness(&p, &origin), 0);
}

#[test]
fn fitness_is_nonnegative_on_sample_tours() {
    let p = Problem::get_toy_problem();
    let tours: Vec<Vec<usize>> = vec![
        vec![0, 5, 4, 3, 2, 1],
        vec![0, 2],
        vec![0, 4, 1],
        vec![0, 1, 2, 3, 4, 5],
    ];
    for t in tours.iter() {
        // u64 output: the evaluator can never go below zero.
        let f = get_fitness(&p, t);
        assert!(f < u64::MAX);
    }
}

#[test]
fn determinism_under_fixed_seed() {
    let p = Problem::get_toy_problem();
    let cfg = toy_config();
    let mut rng_a = rng_from_seed(42);
    let mut rng_b = rng_from_seed(42);
    let (cost_a, tour_a) = aco_main(&p, &cfg, &mut rng_a);
    let (cost_b, tour_b) = aco_main(&p, &cfg, &mut rng_b);
    assert_eq!(cost_a, cost_b);
    assert_eq!(tour_a, tour_b);
}

#[test]
fn best_never_worsens_across_iterations() {
    let p = Problem::get_toy_problem();
    let cfg = toy_config();
    let mut rng = rng_from_seed(7);
    let mut matrix = initialize(p.n);
    let mut best_cost = u64::MAX;
    let mut best_tour: Vec<usize> = Vec::new();
    for _ in 0..20 {
        let prev = best_cost;
        let res = run_iteration(&p, &cfg, &mut matrix, &mut rng, best_cost, best_tour);
        best_cost = res.0;
        best_tour = res.1;
        assert!(best_cost <= prev);
        assert!(!best_tour.is_empty());
    }
}

#[test]
fn returned_tour_is_valid() {
    let p = Problem::get_toy_problem();
    let cfg = toy_config();
    let mut rng = rng_from_seed(99);
    let (cost, tour) = aco_main(&p, &cfg, &mut rng);
    assert!(!tour.is_empty());
    assert!(tour.len() <= p.n);
    assert_eq!(tour[0], 0);
    for i in 0..tour.len() {
        assert!(tour[i] < p.n);
        for j in (i + 1)..tour.len() {
            assert_ne!(tour[i], tour[j]);
        }
    }
    assert_eq!(cost, get_fitness(&p, &tour));
}

#[test]
fn single_job_problem() {
    let p = Problem::new(1, vec![5], vec![2], vec![0]);
    let cfg = ACOConfig::new(3, 4, 1, 1, 1, 2, 10).unwrap();
    let mut rng = rng_from_seed(1);
    let (cost, tour) = aco_main(&p, &cfg, &mut rng);
    assert_eq!(tour, vec![0]);
    let only: Vec<usize> = vec![0];
    assert_eq!(cost, get_fitness(&p, &only));
    assert_eq!(cost, 10);
}

#[test]
fn evaporation_drives_cells_to_zero_and_never_raises_them() {
    let mut m = initialize(3);
    assert_eq!(m[0][0], INITIAL_PHEROMONE);
    let mut prev = INITIAL_PHEROMONE;
    // Retention 1/2 halves every cell each step; with no deposit the trails
    // fall monotonically and hit zero.
    for _ in 0..30 {
        evaporate(&mut m, 1, 2);
        for i in 0..3 {
            for j in 0..3 {
                assert!(m[i][j] <= prev);
            }
        }
        prev = m[0][0];
    }
    for i in 0..3 {
        for j in 0..3 {
            assert_eq!(m[i][j], 0);
        }
    }
}

#[test]
fn evaporation_with_full_retention_keeps_cells() {
    let mut m = initialize(2);
    evaporate(&mut m, 1, 1);
    for i in 0..2 {
        for j in 0..2 {
            assert_eq!(m[i][j], INITIAL_PHEROMONE);
        }
    }
}

#[test]
fn deposit_touches_only_tour_edges() {
    let mut m = initialize(3);
    let tour: Vec<usize> = vec![0, 2, 1];
    deposit(&mut m, &tour, 500);
    assert_eq!(m[0][2], INITIAL_PHEROMONE + 500);
    assert_eq!(m[2][1], INITIAL_PHEROMONE + 500);
    assert_eq!(m[0][1], INITIAL_PHEROMONE);
    assert_eq!(m[1][0], INITIAL_PHEROMONE);
    assert_eq!(m[1][2], INITIAL_PHEROMONE);
    assert_eq!(m[2][0], INITIAL_PHEROMONE);
    assert_eq!(m[0][0], INITIAL_PHEROMONE);
}

#[test]
fn deposit_saturates_instead_of_overflowing() {
    let mut m = initialize(2);
    let tour: Vec<usize> = vec![0, 1];
    m[0][1] = u64::MAX - 3;
    deposit(&mut m, &tour, 10);
    assert_eq!(m[0][1], u64::MAX);
}

#[test]
fn update_pheromone_evaporates_then_deposits() {
    let p = Problem::get_toy_problem();
    let cfg = ACOConfig::new(1, 1, 1, 1, 1, 2, 300).unwrap();
    let mut m = initialize(p.n);
    let ant = Ant {
        tabu_list: vec![true, true, false, false, false, false],
        curr_pos: 1,
        tour: vec![0, 1],
    };
    let ants = vec![ant];
    update_pheromone_matrix(&mut m, &ants, &cfg);
    // Every cell halves; the walked edge then gains the deposit.
    assert_eq!(m[0][1], INITIAL_PHEROMONE / 2 + 300);
    assert_eq!(m[1][0], INITIAL_PHEROMONE / 2);
    assert_eq!(m[3][4], INITIAL_PHEROMONE / 2);
}

#[test]
fn update_pheromone_with_zero_deposit_only_decays() {
    let p = Problem::get_toy_problem();
    let cfg = ACOConfig::new(1, 1, 1, 1, 3, 4, 0).unwrap();
    let mut m = initialize(p.n);
    let ant = Ant {
        tabu_list: vec![true, true, false, false, false, false],
        curr_pos: 1,
        tour: vec![0, 1],
    };
    let ants = vec![ant];
    update_pheromone_matrix(&mut m, &ants, &cfg);
    for i in 0..p.n {
        for j in 0..p.n {
            assert_eq!(m[i][j], INITIAL_PHEROMONE * 3 / 4);
        }
    }
}

#[test]
fn ant_init_marks_only_start() {
    let p = Problem::get_toy_problem();
    let a = Ant::init(&p, 0);
    assert_eq!(a.curr_pos, 0);
    assert_eq!(a.tour, vec![0]);
    assert_eq!(a.tabu_list, vec![true, false, false, false, false, false]);
}

#[test]
fn move_to_extends_tour_and_visited_set() {
    let p = Problem::get_toy_problem();
    let mut a = Ant::init(&p, 0);
    a.move_to(3);
    assert_eq!(a.curr_pos, 3);
    assert_eq!(a.tour, vec![0, 3]);
    assert!(a.tabu_list[3]);
    assert!(!a.tabu_list[1]);
}

#[test]
fn choose_next_takes_the_only_remaining_job() {
    let p = Problem::new(2, vec![0, 4], vec![0, 1], vec![0, 2]);
    let cfg = ACOConfig::new(1, 1, 1, 1, 1, 2, 10).unwrap();
    let m = initialize(2);
    let a = Ant::init(&p, 0);
    let mut rng = rng_from_seed(5);
    let next = a.choose_next_position(&p, &cfg, &m, &mut rng);
    assert_eq!(next, Some(1));
}

#[test]
fn choose_next_reports_stuck_when_everything_is_visited() {
    let p = Problem::new(2, vec![0, 4], vec![0, 1], vec![0, 2]);
    let cfg = ACOConfig::new(1, 1, 1, 1, 1, 2, 10).unwrap();
    let m = initialize(2);
    let mut a = Ant::init(&p, 0);
    a.move_to(1);
    let mut rng = rng_from_seed(5);
    let next = a.choose_next_position(&p, &cfg, &m, &mut rng);
    assert_eq!(next, None);
}

#[test]
fn config_rejects_zero_ants() {
    assert_eq!(ACOConfig::new(0, 5, 1, 1, 1, 2, 10), Err(ConfigError::ZeroAnts));
}

#[test]
fn config_rejects_zero_iterations() {
    assert_eq!(ACOConfig::new(2, 0, 1, 1, 1, 2, 10), Err(ConfigError::ZeroIterations));
}

#[test]
fn config_rejects_bad_evaporation_rate() {
    assert_eq!(
        ACOConfig::new(2, 5, 1, 1, 1, 0, 10),
        Err(ConfigError::InvalidEvaporationRate)
    );
    assert_eq!(
        ACOConfig::new(2, 5, 1, 1, 3, 2, 10),
        Err(ConfigError::InvalidEvaporationRate)
    );
}

#[test]
fn config_accepts_valid_values() {
    let c = ACOConfig::new(2, 5, 1, 3, 9, 10, 250).unwrap();
    assert_eq!(c.n_ants, 2);
    assert_eq!(c.n_iterations, 5);
    assert_eq!(c.alpha, 1);
    assert_eq!(c.beta, 3);
    assert_eq!(c.evaporation_num, 9);
    assert_eq!(c.evaporation_den, 10);
    assert_eq!(c.pheromone_add, 250);
}

#[test]
fn roulette_picks_by_cumulative_scan() {
    let weights: Vec<u64> = vec![0, 3, 0, 2];
    assert_eq!(roulette(&weights, 0), 1);
    assert_eq!(roulette(&weights, 1), 1);
    assert_eq!(roulette(&weights, 2), 1);
    assert_eq!(roulette(&weights, 3), 3);
    assert_eq!(roulette(&weights, 4), 3);
}

#[test]
fn saturating_arithmetic_is_exact_below_the_cap() {
    assert_eq!(sat_add(3, 4), 7);
    assert_eq!(sat_add(u64::MAX - 1, 5), u64::MAX);
    assert_eq!(sat_mul(6, 7), 42);
    assert_eq!(sat_mul(u64::MAX, 2), u64::MAX);
    assert_eq!(sat_pow(2, 10), 1024);
    assert_eq!(sat_pow(2, 0), 1);
    assert_eq!(sat_pow(0, 3), 0);
    assert_eq!(sat_pow(1 << 32, 3), u64::MAX);
}

#[test]
fn draw_below_stays_under_the_bound() {
    let mut rng = rng_from_seed(123);
    for bound in [1u64, 2, 5, 97] {
        for _ in 0..50 {
            assert!(draw_below(&mut rng, bound) < bound);
        }
    }
}

#[test]
fn seeded_generators_agree() {
    let mut a = rng_from_seed(9);
    let mut b = rng_from_seed(9);
    for _ in 0..20 {
        assert_eq!(draw_below(&mut a, 1000), draw_below(&mut b, 1000));
    }
}

#[test]
fn run_iteration_applies_the_pheromone_update() {
    let p = Problem::get_toy_problem();
    // Zero deposit and retention 1/2: one iteration must halve every cell.
    let cfg = ACOConfig::new(2, 1, 1, 1, 1, 2, 0).unwrap();
    let mut rng = rng_from_seed(3);
    let mut matrix = initialize(p.n);
    let best: Vec<usize> = Vec::new();
    let _ = run_iteration(&p, &cfg, &mut matrix, &mut rng, u64::MAX, best);
    for i in 0..p.n {
        for j in 0..p.n {
            assert_eq!(matrix[i][j], INITIAL_PHEROMONE / 2);
        }
    }
}
