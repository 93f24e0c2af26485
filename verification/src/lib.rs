//! Ant colony optimization for single-machine weighted-tardiness scheduling.
//!
//! A `Problem` holds, per job, an integer processing time, due date and
//! weight.  Simulated ants build candidate tours (job sequences starting at
//! the fixed origin job 0) by weighted random selection guided by a pheromone
//! matrix; finished tours are scored by total weighted tardiness, and the
//! matrix is updated by evaporation and deposit once per iteration.
//!
//! All quantities are integers: tardiness is exact, and the trail and
//! visibility values that guide selection are held in fixed-point units of
//! one millionth, with saturating arithmetic.
pub mod problem;
pub mod fitness;
pub mod pheromone;
pub mod select;
pub mod ant;
pub mod colony;
pub mod parser;
pub mod randsrc;
