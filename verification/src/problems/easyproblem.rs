//! The simplest problem: come close to a series of numbers.

use crate::fixed::{diff, fx_add, fx_sub, narrow, sat, sum, UNIT};
use crate::problems::{GenericProblem, GenericSol, SingleStepProblem};
use crate::rng::random_below;
use rand::prng::XorShiftRng;
use vstd::prelude::*;

verus! {

/// A series of numbers that a solution is to match, gene by gene.
#[derive(Debug)]
pub struct EasyProblem {
    pub numbers: Vec<i64>,
}

/// How far two numbers are apart.
pub open spec fn distance(a: int, b: int) -> int {
    if a >= b {
        sat(a - b)
    } else {
        sat(b - a)
    }
}

/// How far the leading `n` genes are from the leading `n` numbers, all
/// together.
pub open spec fn gap(numbers: Seq<i64>, genes: Seq<i64>, n: int) -> int
    decreases n,
{
    if n <= 0 {
        0
    } else {
        sum(gap(numbers, genes, n - 1), distance(numbers[n - 1] as int, genes[n - 1] as int))
    }
}

/// How many places both the numbers and the genes have.
pub open spec fn common(numbers: Seq<i64>, genes: Seq<i64>) -> int {
    if numbers.len() <= genes.len() {
        numbers.len() as int
    } else {
        genes.len() as int
    }
}

/// What a solution earns: a hundred, less its distance from the numbers.
pub open spec fn earned(numbers: Seq<i64>, genes: Seq<i64>) -> int {
    diff(100 * UNIT, gap(numbers, genes, common(numbers, genes)))
}

/// Measures how far two numbers are apart.
pub fn fx_distance(a: i64, b: i64) -> (d: i64)
    ensures
        d as int == distance(a as int, b as int),
{
    if a >= b {
        narrow(a as i128 - b as i128)
    } else {
        narrow(b as i128 - a as i128)
    }
}

impl GenericProblem for EasyProblem {
    type ProblemConfig = usize;

    /// As many numbers as the configuration says, each between zero and
    /// ten.
    open spec fn drawn(prob_conf: &usize, p: Self) -> bool {
        &&& p.numbers@.len() == *prob_conf
        &&& forall|i: int| 0 <= i < p.numbers@.len() ==> 0 <= #[trigger] p.numbers@[i] < 10 * UNIT
    }

    fn random(rng: &mut XorShiftRng, prob_conf: &usize) -> (p: Self) {
        let mut numbers: Vec<i64> = Vec::new();
        let mut i: usize = 0;
        while i < *prob_conf
            invariant
                i <= *prob_conf,
                numbers@.len() == i,
                forall|k: int| 0 <= k < i ==> 0 <= #[trigger] numbers@[k] < 10 * UNIT,
            decreases *prob_conf - i,
        {
            let draw = random_below(rng, UNIT);
            numbers.push(draw * 10);
            i += 1;
        }
        EasyProblem { numbers }
    }

    fn duplicate(&self) -> (copy: Self)
        ensures
            copy.numbers@ == self.numbers@,
    {
        EasyProblem { numbers: self.numbers.clone() }
    }
}

impl SingleStepProblem for EasyProblem {
    open spec fn gene_count(&self) -> nat {
        self.numbers@.len()
    }

    open spec fn worth(&self, sol: &GenericSol) -> i64 {
        earned(self.numbers@, sol.genes@) as i64
    }

    /// Scoring leaves the numbers as they are.
    open spec fn leaves(&self, sol: &GenericSol, after: Self) -> bool {
        after.numbers == self.numbers
    }

    fn get_sol_conf(&self) -> (len: usize) {
        self.numbers.len()
    }

    fn evaluate(&mut self, sol: &GenericSol) -> (gain: i64)
        ensures
            gain as int == earned(old(self).numbers@, sol.genes@),
            final(self).numbers == old(self).numbers,
    {
        let n = if self.numbers.len() <= sol.genes.len() {
            self.numbers.len()
        } else {
            sol.genes.len()
        };
        let mut total: i64 = 0;
        let mut i: usize = 0;
        while i < n
            invariant
                i <= n,
                n == common(self.numbers@, sol.genes@),
                total as int == gap(self.numbers@, sol.genes@, i as int),
            decreases n - i,
        {
            total = fx_add(total, fx_distance(self.numbers[i], sol.genes[i]));
            i += 1;
        }
        fx_sub(100 * UNIT, total)
    }
}

} // verus!
