//! Candidate solutions, and what the engine and the training loop ask of a
//! problem.

pub mod easyproblem;

use crate::fixed::{diff, fx_add, fx_mul, fx_sub, prod, sum, HALF, UNIT};
use crate::params::MAX_GENETIC_ALG_GEN;
use crate::rank::Scored;
use crate::rng::{random_below, random_bool};
use rand::prng::XorShiftRng;
use vstd::prelude::*;

verus! {

/// A candidate solution: a vector of genes and the score it has gathered.
#[derive(Debug)]
pub struct GenericSol {
    pub score: i64,
    pub genes: Vec<i64>,
}

impl Clone for GenericSol {
    fn clone(&self) -> (copy: Self)
        ensures
            copy.score == self.score,
            copy.genes@ == self.genes@,
    {
        GenericSol { score: self.score, genes: self.genes.clone() }
    }
}

impl Scored for GenericSol {
    open spec fn rank(&self) -> int {
        self.score as int
    }

    fn score_of(&self) -> (s: i64) {
        self.score
    }
}

/// The gene a child inherits at one place.
pub open spec fn inherited(a: i64, b: i64, from_first: bool) -> i64 {
    if from_first {
        a
    } else {
        b
    }
}

/// Picks the gene a child inherits at one place.
pub fn inherit(a: i64, b: i64, from_first: bool) -> (g: i64)
    ensures
        g == inherited(a, b, from_first),
{
    if from_first {
        a
    } else {
        b
    }
}

/// A gene after mutation at rate `mutrate`, for a draw from the unit
/// interval: `gene * (2 * mutrate * (draw - 1/2))`.
pub open spec fn mutated(gene: int, mutrate: int, draw: int) -> int {
    prod(gene, prod(prod(2 * UNIT, mutrate), diff(draw, HALF as int)))
}

/// Mutates one gene.
pub fn mutate_gene(gene: i64, mutrate: i64, draw: i64) -> (g: i64)
    ensures
        g as int == mutated(gene as int, mutrate as int, draw as int),
{
    fx_mul(gene, fx_mul(fx_mul(2 * UNIT, mutrate), fx_sub(draw, HALF)))
}

/// Whether a number lies in the unit interval without its upper end.
pub open spec fn is_draw(r: int) -> bool {
    0 <= r < UNIT
}

/// Whether a child's gene comes from one of its parents' genes at the same
/// place.
pub open spec fn crossed(c: i64, a: i64, b: i64) -> bool {
    exists|from_first: bool| c == inherited(a, b, from_first)
}

/// Whether `g` is what some draw from the unit interval makes of the gene
/// `gene` at rate `mutrate`.
pub open spec fn mutation_of(g: int, gene: int, mutrate: int) -> bool {
    exists|draw: int| is_draw(draw) && g == #[trigger] mutated(gene, mutrate, draw)
}

/// Whether `c` can be a child of `a` and `b` by uniform crossover: as many
/// genes as the shorter parent has, each taken from one of the two at the
/// same place, and no score yet.
pub open spec fn is_child(c: GenericSol, a: GenericSol, b: GenericSol) -> bool {
    &&& c.score == 0
    &&& c.genes@.len() == if a.genes@.len() <= b.genes@.len() {
        a.genes@.len()
    } else {
        b.genes@.len()
    }
    &&& forall|j: int| 0 <= j < c.genes@.len() ==> #[trigger] crossed(c.genes@[j], a.genes@[j], b.genes@[j])
}

/// Whether `after` can be what mutation at rate `mutrate` makes of
/// `before`: the same score, and every gene mutated with a draw of its own.
pub open spec fn is_mutant(after: GenericSol, before: GenericSol, mutrate: int) -> bool {
    &&& after.score == before.score
    &&& after.genes@.len() == before.genes@.len()
    &&& forall|j: int|
        0 <= j < before.genes@.len() ==> #[trigger] mutation_of(
            after.genes@[j] as int,
            before.genes@[j] as int,
            mutrate,
        )
}

impl GenericSol {
    /// Whether this is a solution of `len` genes from the unit interval,
    /// with no score yet.
    pub open spec fn drawn(&self, len: nat) -> bool {
        &&& self.score == 0
        &&& self.genes@.len() == len
        &&& forall|j: int| 0 <= j < len ==> is_draw(#[trigger] self.genes@[j] as int)
    }

    /// A solution of `sol_conf` genes drawn from the unit interval, with no
    /// score yet.
    pub fn random(rng: &mut XorShiftRng, sol_conf: usize) -> (s: Self)
        ensures
            s.drawn(sol_conf as nat),
    {
        let mut genes: Vec<i64> = Vec::new();
        let mut j: usize = 0;
        while j < sol_conf
            invariant
                j <= sol_conf,
                genes@.len() == j,
                forall|k: int| 0 <= k < j ==> is_draw(#[trigger] genes@[k] as int),
            decreases sol_conf - j,
        {
            let g = random_below(rng, UNIT);
            genes.push(g);
            j += 1;
        }
        GenericSol { score: 0, genes }
    }

    /// Adds to the score.
    pub fn add_score(&mut self, score: i64)
        ensures
            final(self).score as int == sum(old(self).score as int, score as int),
            final(self).genes == old(self).genes,
    {
        self.score = fx_add(self.score, score);
    }

    /// Sets the score back to zero.
    pub fn reset_score(&mut self)
        ensures
            final(self).score == 0,
            final(self).genes == old(self).genes,
    {
        self.score = 0;
    }

    /// The score gathered so far.
    pub fn get_score(&self) -> (s: i64)
        ensures
            s == self.score,
    {
        self.score
    }

    /// A solution of the given genes, with no score yet.
    pub fn from_vec(source: Vec<i64>) -> (s: Self)
        ensures
            s.score == 0,
            s.genes == source,
    {
        GenericSol { score: 0, genes: source }
    }

    /// The genes.
    pub fn as_vec(&self) -> (v: &Vec<i64>)
        ensures
            *v == self.genes,
    {
        &self.genes
    }

    /// A child of this solution and `other` by uniform crossover.
    pub fn child(&self, other: &Self, rng: &mut XorShiftRng) -> (c: Self)
        ensures
            is_child(c, *self, *other),
    {
        let n = if self.genes.len() <= other.genes.len() {
            self.genes.len()
        } else {
            other.genes.len()
        };
        let mut genes: Vec<i64> = Vec::new();
        let mut j: usize = 0;
        while j < n
            invariant
                j <= n,
                n <= self.genes@.len(),
                n <= other.genes@.len(),
                genes@.len() == j,
                forall|k: int|
                    0 <= k < j ==> #[trigger] crossed(genes@[k], self.genes@[k], other.genes@[k]),
            decreases n - j,
        {
            let from_first = random_bool(rng);
            let g = inherit(self.genes[j], other.genes[j], from_first);
            assert(crossed(g, self.genes@[j as int], other.genes@[j as int]));
            genes.push(g);
            j += 1;
        }
        GenericSol::from_vec(genes)
    }

    /// Mutates every gene at rate `mutrate`, each with a draw of its own
    /// from the unit interval.
    pub fn mutate(&mut self, mutrate: i64, rng: &mut XorShiftRng)
        ensures
            is_mutant(*final(self), *old(self), mutrate as int),
    {
        let n = self.genes.len();
        let mut j: usize = 0;
        while j < n
            invariant
                j <= n,
                self.score == old(self).score,
                self.genes@.len() == n,
                old(self).genes@.len() == n,
                forall|k: int| j <= k < n ==> self.genes@[k] == old(self).genes@[k],
                forall|k: int|
                    0 <= k < j ==> #[trigger] mutation_of(
                        self.genes@[k] as int,
                        old(self).genes@[k] as int,
                        mutrate as int,
                    ),
            decreases n - j,
        {
            let draw = random_below(rng, UNIT);
            let g = mutate_gene(self.genes[j], mutrate, draw);
            assert(is_draw(draw as int));
            assert(mutation_of(g as int, old(self).genes@[j as int] as int, mutrate as int));
            self.genes.set(j, g);
            j += 1;
        }
    }
}

/// What every problem offers: it can be drawn at random from a
/// configuration.
pub trait GenericProblem: Sized {
    /// What a random problem is drawn from.
    type ProblemConfig;

    /// Whether the problem is in a state that its methods accept. Any
    /// state is, unless the problem says otherwise.
    open spec fn valid(&self) -> bool {
        true
    }

    /// Whether `p` can be a problem drawn from the configuration. Any
    /// valid problem can, unless the problem says otherwise.
    open spec fn drawn(prob_conf: &Self::ProblemConfig, p: Self) -> bool {
        true
    }

    /// Draws a problem.
    fn random(rng: &mut XorShiftRng, prob_conf: &Self::ProblemConfig) -> (p: Self)
        ensures
            p.valid(),
            Self::drawn(prob_conf, p),
    ;

    /// Whether `copy` can be what `duplicate` makes of the problem. Any
    /// valid problem can, unless the problem says otherwise.
    open spec fn copied(&self, copy: Self) -> bool {
        true
    }

    /// A copy of the problem in its current state.
    fn duplicate(&self) -> (copy: Self)
        requires
            self.valid(),
        ensures
            copy.valid(),
            self.copied(copy),
    ;
}

/// A problem that a solution answers in one go.
pub trait SingleStepProblem: GenericProblem {
    /// How many genes a solution of this problem has.
    open spec fn gene_count(&self) -> nat {
        arbitrary()
    }

    /// How many genes a solution of this problem has.
    fn get_sol_conf(&self) -> (len: usize)
        requires
            self.valid(),
        ensures
            len == self.gene_count(),
    ;

    /// What the solution earns on the problem as it stands.
    open spec fn worth(&self, sol: &GenericSol) -> i64 {
        arbitrary()
    }

    /// Whether scoring the solution can leave the problem, as it stands, in
    /// the state `after`. Any state can be left, unless the problem says
    /// otherwise.
    open spec fn leaves(&self, sol: &GenericSol, after: Self) -> bool {
        true
    }

    /// What the solution earns on this problem. The engine may ask several
    /// times for one solution.
    fn evaluate(&mut self, sol: &GenericSol) -> (gain: i64)
        requires
            old(self).valid(),
        ensures
            final(self).valid(),
            gain == old(self).worth(sol),
            old(self).leaves(sol, *final(self)),
    ;
}

/// A problem that is played step by step, and shows its state between the
/// steps.
pub trait ManyStepProblem: GenericProblem {
    /// How many entries a step reads from the vector it is given.
    open spec fn step_width(&self) -> nat {
        arbitrary()
    }

    /// How many steps a playout may take, where the problem says so.
    open spec fn horizon(&self) -> Option<usize> {
        arbitrary()
    }

    /// Whether the problem has come to its end.
    open spec fn solved(&self) -> bool {
        arbitrary()
    }

    /// The current state.
    open spec fn state(&self) -> Seq<i64> {
        arbitrary()
    }

    /// Whether a step that `choice` directs can take the problem, as it
    /// stands, to the state `after`. It can take it to any state, unless the
    /// problem says otherwise.
    open spec fn reaches(&self, choice: Seq<i64>, after: Self) -> bool {
        true
    }

    /// The current state.
    fn get_state(&self) -> (state: Vec<i64>)
        requires
            self.valid(),
        ensures
            state@ == self.state(),
    ;

    /// Takes one step as `choice` directs.
    fn make_step(&mut self, choice: &Vec<i64>)
        requires
            old(self).valid(),
            choice@.len() >= old(self).step_width(),
        ensures
            final(self).valid(),
            old(self).reaches(choice@, *final(self)),
    ;

    /// How many steps a playout may take, where the problem says so.
    fn max_step(&self) -> (steps: Option<usize>)
        requires
            self.valid(),
        ensures
            steps == self.horizon(),
    ;

    /// The score that the problem stands at.
    open spec fn standing(&self) -> i64 {
        arbitrary()
    }

    /// The score that the problem stands at.
    fn evaluate(&self) -> (score: i64)
        requires
            self.valid(),
        ensures
            score == self.standing(),
    ;

    /// How many entries a step reads from the vector it is given.
    fn input_space(&self) -> (width: usize)
        requires
            self.valid(),
        ensures
            width == self.step_width(),
    ;

    /// How many entries the state has.
    fn output_space(&self) -> (width: usize)
        requires
            self.valid(),
    ;

    /// Whether the problem has come to its end.
    fn is_solved(&self) -> (solved: bool)
        requires
            self.valid(),
        ensures
            solved == self.solved(),
    ;
}

/// The steps a playout takes at most on the problem.
pub open spec fn steps_allowed<P: ManyStepProblem>(problem: &P) -> nat {
    match problem.horizon() {
        Some(steps) => steps as nat,
        None => MAX_GENETIC_ALG_GEN as nat,
    }
}

/// Whether `after` is what scoring makes of `before`, one solution after
/// the other, where `states` holds the problem as it stood before each
/// solution was scored, and last as it was left: every solution keeps its
/// genes, and gathers what it earned on the problem as it then stood, and
/// scoring it left the problem in the state that comes next.
pub open spec fn scored_along<P: SingleStepProblem>(
    before: Seq<GenericSol>,
    after: Seq<GenericSol>,
    states: Seq<P>,
) -> bool {
    &&& states.len() == before.len() + 1
    &&& after.len() == before.len()
    &&& forall|i: int| 0 <= i <= before.len() ==> (#[trigger] states[i]).valid()
    &&& forall|i: int|
        0 <= i < before.len() ==> (#[trigger] after[i]).genes == before[i].genes && after[i].score as int
            == sum(before[i].score as int, states[i].worth(&before[i]) as int)
    &&& forall|i: int| 0 <= i < before.len() ==> (#[trigger] states[i]).leaves(&before[i], states[i + 1])
}

/// Whether scoring can turn the solutions `before` into `after`, and the
/// problem `start` into `end` on the way.
pub open spec fn scored_by<P: SingleStepProblem>(
    before: Seq<GenericSol>,
    after: Seq<GenericSol>,
    start: P,
    end: P,
) -> bool {
    exists|states: Seq<P>| #[trigger]
        scored_along(before, after, states) && states[0] == start && states[before.len() as int] == end
}

/// Lets the problem score every solution, from the first on: each gathers
/// what the problem gives it, and keeps its genes.
pub fn add_scores_all<P: SingleStepProblem>(problem: &mut P, sol: &mut Vec<GenericSol>)
    requires
        old(problem).valid(),
    ensures
        final(problem).valid(),
        final(sol)@.len() == old(sol)@.len(),
        forall|i: int| 0 <= i < old(sol)@.len() ==> (#[trigger] final(sol)@[i]).genes == old(sol)@[i].genes,
        scored_by(old(sol)@, final(sol)@, *old(problem), *final(problem)),
{
    let len = sol.len();
    let mut i: usize = 0;
    let ghost mut states: Seq<P> = seq![*problem];
    while i < len
        invariant
            i <= len,
            problem.valid(),
            sol@.len() == len,
            old(sol)@.len() == len,
            states.len() == i + 1,
            states[0] == *old(problem),
            states[i as int] == *problem,
            forall|k: int| 0 <= k <= i ==> (#[trigger] states[k]).valid(),
            forall|k: int| 0 <= k < i ==> (#[trigger] states[k]).leaves(&old(sol)@[k], states[k + 1]),
            forall|k: int| i <= k < len ==> #[trigger] sol@[k] == old(sol)@[k],
            forall|k: int|
                0 <= k < i ==> (#[trigger] sol@[k]).genes == old(sol)@[k].genes && sol@[k].score as int
                    == sum(old(sol)@[k].score as int, states[k].worth(&old(sol)@[k]) as int),
        decreases len - i,
    {
        let score = problem.evaluate(&sol[i]);
        sol[i].add_score(score);
        proof {
            states = states.push(*problem);
        }
        i += 1;
    }
    assert(scored_along(old(sol)@, sol@, states));
}

} // verus!
