//! The constants of a training run.

use vstd::prelude::*;

verus! {

/// The iterations one fit of the second-order trainer takes at most.
pub const MAX_ITER: usize = 25;

/// How many problems are held out to measure progress.
pub const TEST_DATA_SIZE: usize = 1000;

/// How many fresh problems a training round samples.
pub const NB_EXAMPLE_PROBLEMS: usize = 100;

/// How many playouts a training round makes on each problem.
pub const TESTS_PER_PROBLEM: usize = 50;

/// How many fits a training round asks of the trainer at most.
pub const MAX_GEN: usize = 2;

/// The exploration coefficient of the first round: one.
pub const STARTING_COEF: i64 = 1_000_000;

/// What the exploration coefficient is multiplied by after each round: 0.95.
pub const COEF_MODIFICATOR: i64 = 950_000;

/// The share of playouts at either end of the ranking that teach: 0.05.
pub const PERCENT_ELITE: i64 = 50_000;

/// The configuration that problems are drawn from.
pub const PROB_CONF_SIZE: usize = 100;

/// The steps a playout takes at most on a problem that names no horizon.
pub const MAX_GENETIC_ALG_GEN: usize = 30;

} // verus!
