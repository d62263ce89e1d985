//! The training loop: it plays a policy on fresh problems with exploration
//! noise, ranks the playouts of each problem, and turns the best and the
//! worst of them into lessons for the policy.

use crate::fixed::{
    diff, fx_add, fx_from_count, fx_mul, fx_sub, fx_unit_clamp, fx_whole, of_count, prod, sum,
    unit_clamp, whole, HALF, UNIT,
};
use crate::graphics::{DrawInstruction, ManyStepDrawable};
use crate::params::{MAX_GENETIC_ALG_GEN, MAX_ITER, TEST_DATA_SIZE};
use crate::problems::{is_draw, steps_allowed, GenericProblem, ManyStepProblem};
use crate::rank::{of_rank, ordered, sort_by_score, Scored};
use crate::rng::{random_below, shuffle};
use rand::prng::XorShiftRng;
use vstd::prelude::*;

verus! {

/// One step of a playout: the state the policy saw, what it proposed, and
/// what was applied after exploration.
pub struct Choice {
    pub inputs: Vec<i64>,
    pub outputs: Vec<i64>,
    pub choice: Vec<i64>,
}

/// A lesson for the policy: on `inputs`, answer `outputs`.
pub struct Test {
    pub inputs: Vec<i64>,
    pub outputs: Vec<i64>,
}

/// What a lesson says: the inputs, and the answer asked for.
pub type Lesson = (Seq<i64>, Seq<i64>);

/// The opposite of an applied action: one minus each entry.
pub open spec fn inverted(choice: Seq<i64>) -> Seq<i64> {
    Seq::new(choice.len(), |j: int| diff(UNIT as int, choice[j] as int) as i64)
}

impl Choice {
    /// The record of one step.
    pub fn new(inputs: Vec<i64>, outputs: Vec<i64>, choice: Vec<i64>) -> (c: Self)
        ensures
            c.inputs == inputs,
            c.outputs == outputs,
            c.choice == choice,
    {
        Choice { inputs, outputs, choice }
    }

    /// The lesson of a good step: do the same again.
    pub fn into_good_test(self) -> (t: Test)
        ensures
            t.inputs == self.inputs,
            t.outputs == self.choice,
    {
        Test { inputs: self.inputs, outputs: self.choice }
    }

    /// The lesson of a bad step: do the opposite.
    pub fn into_bad_test(self) -> (t: Test)
        ensures
            t.inputs == self.inputs,
            t.outputs@ == inverted(self.choice@),
    {
        let n = self.choice.len();
        let mut outputs: Vec<i64> = Vec::new();
        let mut j: usize = 0;
        while j < n
            invariant
                j <= n,
                n == self.choice@.len(),
                outputs@.len() == j,
                forall|k: int| 0 <= k < j ==> outputs@[k] == inverted(self.choice@)[k],
            decreases n - j,
        {
            outputs.push(fx_sub(UNIT, self.choice[j]));
            j += 1;
        }
        assert(outputs@ =~= inverted(self.choice@));
        Test { inputs: self.inputs, outputs }
    }
}

/// What a playout teaches, by its place in the ranking.
pub enum Verdict {
    /// Among the worst: its steps are to be avoided.
    Bad,
    /// In the middle: it teaches nothing.
    Neutral,
    /// Among the best: its steps are to be repeated.
    Good,
}

/// The place below which a playout of `len` ranked ones is bad.
pub open spec fn lower_cut(len: int, percent_elite: int) -> int {
    whole(prod(of_count(len), percent_elite))
}

/// The place above which a playout of `len` ranked ones is good: as many
/// places lie above it as lie below the lower cut.
pub open spec fn upper_cut(len: int, percent_elite: int) -> int {
    len - 1 - lower_cut(len, percent_elite)
}

/// What the playout at place `index` of the ranking teaches: a place below
/// the lower cut is bad, whatever the upper cut, and any other place above
/// the upper cut is good.
pub open spec fn verdict_at(index: int, lower: int, upper: int) -> Verdict {
    if index < lower {
        Verdict::Bad
    } else if index > upper {
        Verdict::Good
    } else {
        Verdict::Neutral
    }
}

/// Decides what the playout at place `index` of the ranking teaches.
pub fn judge(index: usize, lower: u64, upper: i128) -> (v: Verdict)
    ensures
        v == verdict_at(index as int, lower as int, upper as int),
{
    if (index as u64) < lower {
        Verdict::Bad
    } else if index as i128 > upper {
        Verdict::Good
    } else {
        Verdict::Neutral
    }
}

/// The lesson of one step under a verdict that teaches.
pub open spec fn lesson(c: Choice, verdict: Verdict) -> Lesson {
    match verdict {
        Verdict::Good => (c.inputs@, c.choice@),
        _ => (c.inputs@, inverted(c.choice@)),
    }
}

/// The lessons of one playout: one for each of its steps, in their order,
/// or none at all.
pub open spec fn lessons_of(choices: Seq<Choice>, verdict: Verdict) -> Seq<Lesson> {
    match verdict {
        Verdict::Neutral => Seq::empty(),
        _ => Seq::new(choices.len(), |k: int| lesson(choices[k], verdict)),
    }
}

/// The lessons of the leading `n` playouts of a ranking, in their order.
pub open spec fn lessons_upto(games: Seq<(i64, Vec<Choice>)>, lower: int, upper: int, n: int) -> Seq<
    Lesson,
>
    decreases n,
{
    if n <= 0 {
        Seq::empty()
    } else {
        lessons_upto(games, lower, upper, n - 1) + lessons_of(
            games[n - 1].1@,
            verdict_at(n - 1, lower, upper),
        )
    }
}

/// What each of the tests says.
pub open spec fn lessons_in(tests: Seq<Test>) -> Seq<Lesson> {
    Seq::new(tests.len(), |k: int| (tests[k].inputs@, tests[k].outputs@))
}

impl Scored for (i64, Vec<Choice>) {
    open spec fn rank(&self) -> int {
        self.0 as int
    }

    fn score_of(&self) -> (s: i64) {
        self.0
    }
}

/// Turns the steps of one playout into tests under a verdict, and adds them
/// to `tests`.
pub fn teach(tests: &mut Vec<Test>, choices: Vec<Choice>, verdict: Verdict)
    ensures
        lessons_in(final(tests)@) == lessons_in(old(tests)@) + lessons_of(choices@, verdict),
{
    let ghost all = choices@;
    let ghost base = lessons_in(tests@);
    let mut choices = choices;
    let total = choices.len();
    match verdict {
        Verdict::Neutral => {
            assert(base + lessons_of(all, verdict) =~= base);
        },
        _ => {
            let mut k: usize = 0;
            while choices.len() > 0
                invariant
                    !(verdict is Neutral),
                    all.len() == total,
                    k + choices@.len() == total,
                    choices@ == all.skip(k as int),
                    lessons_in(tests@) == base + lessons_of(all.take(k as int), verdict),
                decreases choices@.len(),
            {
                let c = choices.remove(0);
                let ghost before = tests@;
                assert(c == all[k as int]);
                let t = match verdict {
                    Verdict::Good => c.into_good_test(),
                    _ => c.into_bad_test(),
                };
                tests.push(t);
                proof {
                    assert(choices@ =~= all.skip(k + 1));
                    assert(lessons_in(tests@) =~= lessons_in(before).push(lesson(c, verdict)));
                    assert(lessons_of(all.take(k + 1), verdict) =~= lessons_of(
                        all.take(k as int),
                        verdict,
                    ).push(lesson(c, verdict)));
                    assert(base + lessons_of(all.take(k as int), verdict).push(lesson(c, verdict))
                        =~= (base + lessons_of(all.take(k as int), verdict)).push(lesson(c, verdict)));
                }
                k += 1;
            }
            assert(all.take(k as int) =~= all);
        },
    }
}

/// Turns ranked playouts, the worst first, into tests: the share at the
/// lower end teaches the opposite of what it did, as many at the upper end
/// teach what they did, and those between teach nothing.
pub fn label_ranked(games: Vec<(i64, Vec<Choice>)>, percent_elite: i64) -> (tests: Vec<Test>)
    ensures
        lessons_in(tests@) == lessons_upto(
            games@,
            lower_cut(games@.len() as int, percent_elite as int),
            upper_cut(games@.len() as int, percent_elite as int),
            games@.len() as int,
        ),
{
    let ghost all = games@;
    let mut games = games;
    let len = games.len();
    let lower = fx_whole(fx_mul(fx_from_count(len), percent_elite));
    let upper: i128 = len as i128 - 1 - lower as i128;
    let mut tests: Vec<Test> = Vec::new();
    let mut index: usize = 0;
    assert(lessons_in(tests@) =~= lessons_upto(all, lower as int, upper as int, 0));
    while games.len() > 0
        invariant
            index + games@.len() == len,
            all.len() == len,
            games@ == all.skip(index as int),
            lessons_in(tests@) == lessons_upto(all, lower as int, upper as int, index as int),
        decreases games@.len(),
    {
        let game = games.remove(0);
        assert(game == all[index as int]);
        assert(games@ =~= all.skip(index + 1));
        teach(&mut tests, game.1, judge(index, lower, upper));
        index += 1;
    }
    tests
}

/// What exploration makes of a proposed value, for a draw from the unit
/// interval: the value plus `(draw - 1/2) * coef`, held to `[0, 1]`.
pub open spec fn perturbed(val: int, draw: int, coef: int) -> int {
    unit_clamp(sum(val, prod(diff(draw, HALF as int), coef)))
}

/// Perturbs one proposed value.
pub fn perturb(val: i64, draw: i64, coef: i64) -> (r: i64)
    ensures
        r as int == perturbed(val as int, draw as int, coef as int),
        0 <= r <= UNIT,
{
    fx_unit_clamp(fx_add(val, fx_mul(fx_sub(draw, HALF), coef)))
}

/// Whether `out` is what exploration makes of `val` for some draw from the
/// unit interval.
pub open spec fn explored(out: int, val: int, coef: int) -> bool {
    exists|draw: int| is_draw(draw) && out == #[trigger] perturbed(val, draw, coef)
}

/// Whether `choice` is what exploration makes of `outputs`, entry by entry.
pub open spec fn exploration_of(choice: Seq<i64>, outputs: Seq<i64>, coef: int) -> bool {
    &&& choice.len() == outputs.len()
    &&& forall|j: int|
        0 <= j < outputs.len() ==> #[trigger] explored(choice[j] as int, outputs[j] as int, coef)
}

/// The settings of a training run.
#[derive(Debug, Clone, Copy)]
pub struct LearnParams {
    /// How many fresh problems a round samples.
    pub nb_problems: usize,
    /// How many playouts a round makes on each problem.
    pub test_per_prob: usize,
    /// How many fits a round asks of the trainer at most.
    pub max_gen: usize,
    /// The exploration coefficient of the first round.
    pub starting_coef: i64,
    /// What the exploration coefficient is multiplied by after each round.
    pub coef_mod: i64,
    /// The share of playouts at either end of the ranking that teach.
    pub percent_elite: i64,
}

impl LearnParams {
    /// The settings, field by field.
    pub fn new(
        nb_problems: usize,
        test_per_prob: usize,
        max_gen: usize,
        starting_coef: i64,
        coef_mod: i64,
        percent_elite: i64,
    ) -> (p: Self)
        ensures
            p == (LearnParams {
                nb_problems,
                test_per_prob,
                max_gen,
                starting_coef,
                coef_mod,
                percent_elite,
            }),
    {
        LearnParams { nb_problems, test_per_prob, max_gen, starting_coef, coef_mod, percent_elite }
    }
}

/// What a round hands to the trainer: the examples, shuffled, and the
/// bounds of the fit.
pub struct FitPlan {
    pub examples: Vec<Test>,
    /// The iterations of one gradient descent: 20.
    pub gradient_descent_iters: usize,
    /// The step of the gradient descent: 0.01.
    pub gradient_descent_step: i64,
    /// The batches of the gradient descent: one for every 200 examples.
    pub gradient_descent_nb_batches: usize,
    /// The batches of the second-order fit: one for every 50 examples.
    pub lvbm_nb_batches: usize,
    /// The loss at which the fit stops early: 0.05.
    pub aim_score: i64,
    /// How many fits the trainer makes at most.
    pub max_iter: usize,
    /// The iterations one second-order fit takes at most.
    pub lvbm_max_iters: usize,
}

/// Whether a policy answers every state, and every answer is wide enough
/// for a step of any valid problem.
pub open spec fn serves<P: ManyStepProblem, F: Fn(&Vec<i64>) -> Vec<i64>>(policy: &F) -> bool {
    &&& forall|state: &Vec<i64>| #[trigger] policy.requires((state,))
    &&& forall|problem: P, state: &Vec<i64>, out: Vec<i64>|
        problem.valid() && #[trigger] policy.ensures((state,), out) ==> out@.len()
            >= #[trigger] problem.step_width()
}

/// Whether a step was recorded faithfully: the policy gave the proposal on
/// the inputs, and the applied action is what exploration made of it.
pub open spec fn recorded<F: Fn(&Vec<i64>) -> Vec<i64>>(policy: &F, c: Choice, coef: int) -> bool {
    &&& policy.ensures((&c.inputs,), c.outputs)
    &&& exploration_of(c.choice@, c.outputs@, coef)
}

/// Whether a playout of the policy without exploration, of at most
/// `allowed` steps, can take the problem `start` to the problem `end` in
/// `steps` steps.
pub open spec fn played<P: ManyStepProblem, F: Fn(&Vec<i64>) -> Vec<i64>>(
    start: P,
    end: P,
    policy: &F,
    allowed: nat,
    steps: int,
) -> bool {
    exists|states: Seq<P>| #[trigger]
        played_along(states, policy, allowed) && states[0] == start && states.last() == end
            && states.len() == steps + 1
}

/// Plays the policy on the problem without exploration, until the problem
/// is solved or `horizon` steps are taken. Returns the steps taken.
pub fn play_for<P: ManyStepProblem, F: Fn(&Vec<i64>) -> Vec<i64>>(
    prob: &mut P,
    policy: &F,
    horizon: usize,
) -> (steps: usize)
    requires
        old(prob).valid(),
        serves::<P, F>(policy),
    ensures
        final(prob).valid(),
        steps <= horizon,
        horizon >= 1 ==> steps >= 1,
        steps == horizon || final(prob).solved(),
        played(*old(prob), *final(prob), policy, horizon as nat, steps as int),
{
    let mut steps: usize = 0;
    let mut solved = false;
    let ghost mut states: Seq<P> = seq![*prob];
    while steps < horizon && !solved
        invariant
            prob.valid(),
            serves::<P, F>(policy),
            steps <= horizon,
            steps == 0 ==> !solved,
            solved == (steps >= 1 && prob.solved()),
            states.len() == steps + 1,
            states[0] == *old(prob),
            states.last() == *prob,
            forall|k: int| 0 <= k < states.len() ==> (#[trigger] states[k]).valid(),
            forall|k: int| 0 <= k < states.len() - 1 ==> stepped(#[trigger] states[k], states[k + 1], policy),
            forall|k: int| 1 <= k < states.len() - 1 ==> !(#[trigger] states[k]).solved(),
        decreases horizon - steps,
    {
        let ghost from = *prob;
        let ghost so_far = states;
        let inputs = prob.get_state();
        let outputs = policy(&inputs);
        prob.make_step(&outputs);
        steps += 1;
        solved = prob.is_solved();
        proof {
            states = states.push(*prob);
            assert(stepped(from, *prob, policy));
            assert forall|k: int| 0 <= k < states.len() - 1 implies stepped(
                #[trigger] states[k],
                states[k + 1],
                policy,
            ) by {
                if k < so_far.len() - 1 {
                    assert(stepped(so_far[k], so_far[k + 1], policy));
                }
            }
        }
    }
    assert(played_along(states, policy, horizon as nat));
    steps
}

/// Plays the policy on the problem without exploration, until the problem
/// is solved or the steps it allows are taken. Returns the steps taken.
pub fn play_out<P: ManyStepProblem, F: Fn(&Vec<i64>) -> Vec<i64>>(prob: &mut P, policy: &F) -> (steps:
    usize)
    requires
        old(prob).valid(),
        serves::<P, F>(policy),
    ensures
        final(prob).valid(),
        steps <= steps_allowed(old(prob)),
        steps_allowed(old(prob)) >= 1 ==> steps >= 1,
        steps == steps_allowed(old(prob)) || final(prob).solved(),
        played(*old(prob), *final(prob), policy, steps_allowed(old(prob)), steps as int),
{
    let horizon = match prob.max_step() {
        Some(steps) => steps,
        None => MAX_GENETIC_ALG_GEN,
    };
    play_for(prob, policy, horizon)
}

/// Whether a playout of the policy without exploration on a copy of the
/// problem `first`, of as many steps as `first` allows, can end at the
/// problem `end`.
pub open spec fn reached<P: ManyStepProblem, F: Fn(&Vec<i64>) -> Vec<i64>>(first: P, end: P, policy: &F) -> bool {
    exists|states: Seq<P>| #[trigger]
        played_along(states, policy, steps_allowed(&first)) && first.copied(states[0]) && states.last()
            == end
}

/// Whether each of `ends` is where a playout of the policy without
/// exploration can end on a copy of the problem of `firsts` at the same
/// place.
pub open spec fn reached_all<P: ManyStepProblem, F: Fn(&Vec<i64>) -> Vec<i64>>(
    firsts: Seq<P>,
    ends: Seq<P>,
    policy: &F,
) -> bool {
    &&& ends.len() == firsts.len()
    &&& forall|i: int| 0 <= i < firsts.len() ==> reached(firsts[i], #[trigger] ends[i], policy)
}

/// The scores that the problems stand at.
pub open spec fn standings<P: ManyStepProblem>(problems: Seq<P>) -> Seq<i64> {
    Seq::new(problems.len(), |i: int| problems[i].standing())
}

/// The sum of scores, from the first on.
pub open spec fn total_of(scores: Seq<i64>) -> int
    decreases scores.len(),
{
    if scores.len() == 0 {
        0
    } else {
        sum(total_of(scores.drop_last()), scores.last() as int)
    }
}

/// Adds scores up, from the first on.
pub fn sum_scores(scores: &Vec<i64>) -> (total: i64)
    ensures
        total as int == total_of(scores@),
{
    let mut total: i64 = 0;
    let mut i: usize = 0;
    while i < scores.len()
        invariant
            i <= scores@.len(),
            total as int == total_of(scores@.take(i as int)),
        decreases scores@.len() - i,
    {
        assert(scores@.take(i + 1).drop_last() =~= scores@.take(i as int));
        total = fx_add(total, scores[i]);
        i += 1;
    }
    assert(scores@.take(i as int) =~= scores@);
    total
}

/// The training loop for problems of one kind.
pub struct ReiLearn<P: ManyStepProblem> {
    /// The problems held out to measure progress.
    pub test_problems: Vec<P>,
    pub random: XorShiftRng,
    pub params: LearnParams,
    pub problem_confs: P::ProblemConfig,
    /// The exploration coefficient.
    pub coef: i64,
}

impl<P: ManyStepProblem> ReiLearn<P> {
    /// Whether every held-out problem is valid.
    pub open spec fn wf(&self) -> bool {
        forall|i: int| 0 <= i < self.test_problems@.len() ==> (#[trigger] self.test_problems@[i]).valid()
    }

    /// Whether nothing but the random source differs from `before`.
    pub open spec fn only_drew(&self, before: &Self) -> bool {
        &&& self.test_problems == before.test_problems
        &&& self.params == before.params
        &&& self.problem_confs == before.problem_confs
        &&& self.coef == before.coef
    }

    /// A training loop at its first round, with a thousand held-out
    /// problems drawn from `prob_conf`.
    pub fn new(prob_conf: P::ProblemConfig, learn_param: LearnParams, my_rand: XorShiftRng) -> (r: Self)
        ensures
            r.wf(),
            r.test_problems@.len() == TEST_DATA_SIZE,
            forall|i: int|
                0 <= i < r.test_problems@.len() ==> P::drawn(&prob_conf, #[trigger] r.test_problems@[i]),
            r.params == learn_param,
            r.problem_confs == prob_conf,
            r.coef == learn_param.starting_coef,
    {
        let mut my_rand = my_rand;
        let mut test_problems: Vec<P> = Vec::new();
        let mut i: usize = 0;
        while i < TEST_DATA_SIZE
            invariant
                i <= TEST_DATA_SIZE,
                test_problems@.len() == i,
                forall|k: int| 0 <= k < i ==> (#[trigger] test_problems@[k]).valid(),
                forall|k: int| 0 <= k < i ==> P::drawn(&prob_conf, #[trigger] test_problems@[k]),
            decreases TEST_DATA_SIZE - i,
        {
            test_problems.push(P::random(&mut my_rand, &prob_conf));
            i += 1;
        }
        ReiLearn {
            coef: learn_param.starting_coef,
            test_problems,
            random: my_rand,
            params: learn_param,
            problem_confs: prob_conf,
        }
    }

    /// The held-out problems.
    pub fn get_test_problems(&self) -> (r: &Vec<P>)
        ensures
            *r == self.test_problems,
    {
        &self.test_problems
    }

    /// Measures the policy: plays it without exploration on a copy of each
    /// held-out problem, for as many steps as the problem allows, and adds
    /// up the scores that the copies then stand at.
    pub fn run_on_test_example<F: Fn(&Vec<i64>) -> Vec<i64>>(&self, policy: &F) -> (score: i64)
        requires
            self.wf(),
            serves::<P, F>(policy),
        ensures
            exists|ends: Seq<P>| #[trigger]
                reached_all(self.test_problems@, ends, policy) && score as int == total_of(
                    standings(ends),
                ),
    {
        let mut scores: Vec<i64> = Vec::new();
        let mut i: usize = 0;
        let ghost mut ends: Seq<P> = Seq::empty();
        while i < self.test_problems.len()
            invariant
                i <= self.test_problems@.len(),
                scores@.len() == i,
                ends.len() == i,
                forall|k: int| 0 <= k < i ==> scores@[k] == (#[trigger] ends[k]).standing(),
                forall|k: int| 0 <= k < i ==> reached(self.test_problems@[k], #[trigger] ends[k], policy),
                self.wf(),
                serves::<P, F>(policy),
            decreases self.test_problems@.len() - i,
        {
            let horizon = match self.test_problems[i].max_step() {
                Some(steps) => steps,
                None => MAX_GENETIC_ALG_GEN,
            };
            let mut prob = self.test_problems[i].duplicate();
            let ghost copy = prob;
            let steps = play_for(&mut prob, policy, horizon);
            scores.push(prob.evaluate());
            proof {
                let states = choose|states: Seq<P>| #[trigger]
                    played_along(states, policy, horizon as nat) && states[0] == copy && states.last() == prob
                        && states.len() == steps + 1;
                assert(played_along(states, policy, steps_allowed(&self.test_problems@[i as int])));
                assert(reached(self.test_problems@[i as int], prob, policy));
                ends = ends.push(prob);
            }
            i += 1;
        }
        assert(scores@ =~= standings(ends));
        assert(reached_all(self.test_problems@, ends, policy));
        sum_scores(&scores)
    }

    /// Perturbs every entry of a proposal with a draw of its own, and holds
    /// it to `[0, 1]`.
    pub fn modify_outputs(&mut self, res: &Vec<i64>) -> (r: Vec<i64>)
        ensures
            exploration_of(r@, res@, old(self).coef as int),
            final(self).only_drew(old(self)),
    {
        let n = res.len();
        let mut out: Vec<i64> = Vec::new();
        let mut j: usize = 0;
        while j < n
            invariant
                j <= n,
                n == res@.len(),
                out@.len() == j,
                self.only_drew(old(self)),
                forall|k: int|
                    0 <= k < j ==> #[trigger] explored(out@[k] as int, res@[k] as int, self.coef as int),
            decreases n - j,
        {
            let draw = random_below(&mut self.random, UNIT);
            let val = perturb(res[j], draw, self.coef);
            assert(is_draw(draw as int));
            assert(explored(val as int, res@[j as int] as int, self.coef as int));
            out.push(val);
            j += 1;
        }
        out
    }

    /// Takes one step of a playout: asks the policy, explores around its
    /// proposal, applies the result, and records all three.
    pub fn make_choice<F: Fn(&Vec<i64>) -> Vec<i64>>(&mut self, prob: &mut P, policy: &F) -> (c: Choice)
        requires
            old(prob).valid(),
            serves::<P, F>(policy),
        ensures
            final(prob).valid(),
            recorded(policy, c, old(self).coef as int),
            took(*old(prob), *final(prob), c, policy, old(self).coef as int),
            final(self).only_drew(old(self)),
    {
        let inputs = prob.get_state();
        let outputs = policy(&inputs);
        let choice = self.modify_outputs(&outputs);
        prob.make_step(&choice);
        Choice::new(inputs, outputs, choice)
    }

    /// Plays the policy on the problem with exploration, until the problem
    /// is solved or the steps it allows are taken. Returns the score that
    /// the problem then stands at, and every step as it was taken.
    pub fn play_problem<F: Fn(&Vec<i64>) -> Vec<i64>>(&mut self, problem: P, policy: &F) -> (r: (
        i64,
        Vec<Choice>,
    ))
        requires
            problem.valid(),
            serves::<P, F>(policy),
        ensures
            r.1@.len() <= steps_allowed(&problem),
            steps_allowed(&problem) >= 1 ==> r.1@.len() >= 1,
            forall|k: int| 0 <= k < r.1@.len() ==> recorded(policy, #[trigger] r.1@[k], old(self).coef as int),
            explored_play(problem, r, policy, old(self).coef as int),
            final(self).only_drew(old(self)),
    {
        let mut prob = problem;
        let mut choices: Vec<Choice> = Vec::new();
        let horizon = match prob.max_step() {
            Some(steps) => steps,
            None => MAX_GENETIC_ALG_GEN,
        };
        let mut steps: usize = 0;
        let mut solved = false;
        let ghost mut states: Seq<P> = seq![prob];
        while steps < horizon && !solved
            invariant
                prob.valid(),
                serves::<P, F>(policy),
                steps <= horizon,
                horizon == steps_allowed(&problem),
                steps == 0 ==> !solved,
                solved == (steps >= 1 && prob.solved()),
                choices@.len() == steps,
                states.len() == steps + 1,
                states[0] == problem,
                states.last() == prob,
                self.only_drew(old(self)),
                forall|k: int|
                    0 <= k < choices@.len() ==> recorded(policy, #[trigger] choices@[k], self.coef as int),
                forall|k: int| 0 <= k < states.len() ==> (#[trigger] states[k]).valid(),
                forall|k: int|
                    0 <= k < choices@.len() ==> took(
                        states[k],
                        states[k + 1],
                        #[trigger] choices@[k],
                        policy,
                        self.coef as int,
                    ),
                forall|k: int| 1 <= k < states.len() - 1 ==> !(#[trigger] states[k]).solved(),
            decreases horizon - steps,
        {
            let ghost so_far = states;
            let ghost taken = choices@;
            let c = self.make_choice(&mut prob, policy);
            choices.push(c);
            steps += 1;
            solved = prob.is_solved();
            proof {
                states = states.push(prob);
                assert forall|k: int| 0 <= k < choices@.len() implies took(
                    states[k],
                    states[k + 1],
                    #[trigger] choices@[k],
                    policy,
                    self.coef as int,
                ) by {
                    if k < taken.len() {
                        assert(choices@[k] == taken[k]);
                        assert(took(so_far[k], so_far[k + 1], taken[k], policy, self.coef as int));
                    }
                }
                assert forall|k: int| 0 <= k < choices@.len() implies recorded(
                    policy,
                    #[trigger] choices@[k],
                    self.coef as int,
                ) by {
                    if k < taken.len() {
                        assert(choices@[k] == taken[k]);
                    }
                }
            }
        }
        let score = prob.evaluate();
        let r = (score, choices);
        assert(explored_along(states, r.1@, policy, self.coef as int, steps_allowed(&problem)));
        assert(states[0] == problem && r.0 == states.last().standing());
        r
    }

    /// Ranks the playouts of one problem by score, the worst first, and
    /// turns them into tests.
    pub fn gen_tests_from_choices(&self, games: Vec<(i64, Vec<Choice>)>) -> (tests: Vec<Test>)
        ensures
            taught_by(tests@, games@, self.params.percent_elite as int),
    {
        let mut games = games;
        let ghost given = games@;
        sort_by_score(&mut games, false);
        let ghost ranked = games@;
        let tests = label_ranked(games, self.params.percent_elite);
        assert(ranking_of(ranked, given));
        tests
    }

    /// Plays the policy with exploration on copies of the problem, as often
    /// as the settings say, and turns the playouts into tests.
    pub fn gen_tests_for_prob<F: Fn(&Vec<i64>) -> Vec<i64>>(&mut self, prob: P, policy: &F) -> (tests:
        Vec<Test>)
        requires
            prob.valid(),
            serves::<P, F>(policy),
        ensures
            final(self).only_drew(old(self)),
            session(tests@, prob, policy, old(self).coef as int, old(self).params),
            forall|k: int| 0 <= k < tests@.len() ==> in_unit(#[trigger] tests@[k].outputs@),
    {
        let mut results_prob: Vec<(i64, Vec<Choice>)> = Vec::new();
        let mut i: usize = 0;
        while i < self.params.test_per_prob
            invariant
                prob.valid(),
                serves::<P, F>(policy),
                self.only_drew(old(self)),
                i <= self.params.test_per_prob,
                results_prob@.len() == i,
                all_faithful(results_prob@, policy, self.coef as int),
                all_playouts_of(prob, results_prob@, policy, self.coef as int),
            decreases self.params.test_per_prob - i,
        {
            let cloned = prob.duplicate();
            let ghost copy = cloned;
            let game = self.play_problem(cloned, policy);
            let ghost so_far = results_prob@;
            results_prob.push(game);
            assert(playout_of(prob, game, policy, self.coef as int)) by {
                assert(prob.copied(copy) && copy.valid() && explored_play(copy, game, policy, self.coef as int));
            }
            assert forall|g: int| 0 <= g < results_prob@.len() implies faithful(
                #[trigger] results_prob@[g],
                policy,
                self.coef as int,
            ) by {
                if g < so_far.len() {
                    assert(results_prob@[g] == so_far[g]);
                }
            }
            assert forall|g: int| 0 <= g < results_prob@.len() implies playout_of(
                prob,
                #[trigger] results_prob@[g],
                policy,
                self.coef as int,
            ) by {
                if g < so_far.len() {
                    assert(results_prob@[g] == so_far[g]);
                }
            }
            i += 1;
        }
        let ghost games = results_prob@;
        let tests = self.gen_tests_from_choices(results_prob);
        proof {
            assert forall|g: int| 0 <= g < games.len() implies applied_in_unit(#[trigger] games[g]) by {
                assert(faithful(games[g], policy, self.coef as int));
                assert forall|k: int| 0 <= k < games[g].1@.len() implies in_unit(
                    (#[trigger] games[g].1@[k]).choice@,
                ) by {
                    lemma_exploration_in_unit(
                        games[g].1@[k].choice@,
                        games[g].1@[k].outputs@,
                        self.coef as int,
                    );
                }
            }
            lemma_lessons_in_unit(tests@, games, self.params.percent_elite as int);
            assert(all_playouts_of(prob, games, policy, self.coef as int));
        }
        tests
    }

    /// Prepares a fit on the tests: shuffles them, and sets the bounds of
    /// the fit by their number and by the settings.
    pub fn reinforce(&mut self, tests: Vec<Test>) -> (plan: FitPlan)
        ensures
            final(self).only_drew(old(self)),
            plan.examples@.to_multiset() == tests@.to_multiset(),
            plan.bounded_by(tests@.len() as int, old(self).params.max_gen),
    {
        let mut my_tests = tests;
        let len = my_tests.len();
        shuffle(&mut self.random, &mut my_tests);
        proof {
            my_tests@.to_multiset_ensures();
            tests@.to_multiset_ensures();
        }
        FitPlan {
            examples: my_tests,
            gradient_descent_iters: 20,
            gradient_descent_step: 10_000,
            gradient_descent_nb_batches: len / 200,
            lvbm_nb_batches: len / 50,
            aim_score: 50_000,
            max_iter: self.params.max_gen,
            lvbm_max_iters: MAX_ITER,
        }
    }

    /// One round of training: samples fresh problems, gathers the tests of
    /// each, prepares the fit on all of them, and lowers the exploration
    /// coefficient.
    pub fn next_gen<F: Fn(&Vec<i64>) -> Vec<i64>>(&mut self, policy: &F) -> (plan: FitPlan)
        requires
            serves::<P, F>(policy),
        ensures
            final(self).coef as int == prod(old(self).coef as int, old(self).params.coef_mod as int),
            final(self).test_problems == old(self).test_problems,
            final(self).params == old(self).params,
            final(self).problem_confs == old(self).problem_confs,
            plan.bounded_by(plan.examples@.len() as int, old(self).params.max_gen),
            gathered_from::<P, F>(
                plan.examples@,
                &old(self).problem_confs,
                policy,
                old(self).coef as int,
                old(self).params,
            ),
            forall|k: int| 0 <= k < plan.examples@.len() ==> in_unit(#[trigger] plan.examples@[k].outputs@),
    {
        let mut tests: Vec<Test> = Vec::new();
        let mut i: usize = 0;
        let ghost mut batches: Seq<Seq<Test>> = Seq::empty();
        while i < self.params.nb_problems
            invariant
                serves::<P, F>(policy),
                self.only_drew(old(self)),
                i <= self.params.nb_problems,
                batches.len() == i,
                tests@ == joined(batches),
                all_sessions::<P, F>(batches, &self.problem_confs, policy, self.coef as int, self.params),
                forall|k: int| 0 <= k < tests@.len() ==> in_unit(#[trigger] tests@[k].outputs@),
            decreases self.params.nb_problems - i,
        {
            let prob = P::random(&mut self.random, &self.problem_confs);
            let ghost drawn = prob;
            let mut more = self.gen_tests_for_prob(prob, policy);
            let ghost so_far = tests@;
            let ghost added = more@;
            let ghost before = batches;
            tests.append(&mut more);
            proof {
                batches = batches.push(added);
                assert(batches.drop_last() =~= before);
                assert(session_on_drawn::<P, F>(added, &self.problem_confs, policy, self.coef as int, self.params))
                    by {
                    assert(drawn.valid() && P::drawn(&self.problem_confs, drawn) && session(
                        added,
                        drawn,
                        policy,
                        self.coef as int,
                        self.params,
                    ));
                }
                assert forall|b: int| 0 <= b < batches.len() implies session_on_drawn::<P, F>(
                    #[trigger] batches[b],
                    &self.problem_confs,
                    policy,
                    self.coef as int,
                    self.params,
                ) by {
                    if b < before.len() {
                        assert(batches[b] == before[b]);
                    }
                }
            }
            assert forall|k: int| 0 <= k < tests@.len() implies in_unit(#[trigger] tests@[k].outputs@) by {
                if k < so_far.len() {
                    assert(tests@[k] == so_far[k]);
                    assert(in_unit(so_far[k].outputs@));
                } else {
                    assert(tests@[k] == added[k - so_far.len()]);
                    assert(in_unit(added[k - so_far.len()].outputs@));
                }
            }
            i += 1;
        }
        let ghost gathered = tests@;
        let plan = self.reinforce(tests);
        proof {
            plan.examples@.to_multiset_ensures();
            gathered.to_multiset_ensures();
            assert forall|k: int| 0 <= k < plan.examples@.len() implies in_unit(
                #[trigger] plan.examples@[k].outputs@,
            ) by {
                assert(plan.examples@.contains(plan.examples@[k]));
                assert(gathered.to_multiset().count(plan.examples@[k]) > 0);
                assert(gathered.contains(plan.examples@[k]));
            }
            assert(batches.len() == self.params.nb_problems);
        }
        self.coef = fx_mul(self.coef, self.params.coef_mod);
        plan
    }
}

/// Whether the step recorded in `c` can take the problem `from` to the
/// problem `to`: the recorded inputs are the state of `from`, the policy
/// gave the proposal on them, the applied action is what exploration made
/// of the proposal, and the step that the action directs reaches `to`.
pub open spec fn took<P: ManyStepProblem, F: Fn(&Vec<i64>) -> Vec<i64>>(
    from: P,
    to: P,
    c: Choice,
    policy: &F,
    coef: int,
) -> bool {
    &&& c.inputs@ == from.state()
    &&& recorded(policy, c, coef)
    &&& from.reaches(c.choice@, to)
}

/// Whether `states` can be the states of a playout of the policy with
/// exploration that recorded `choices`, on a problem that allows `allowed`
/// steps: each state is valid, each recorded step takes a state to the
/// next, no state between the first and the last is solved, and the
/// playout stops only when the steps are taken or the problem is solved.
pub open spec fn explored_along<P: ManyStepProblem, F: Fn(&Vec<i64>) -> Vec<i64>>(
    states: Seq<P>,
    choices: Seq<Choice>,
    policy: &F,
    coef: int,
    allowed: nat,
) -> bool {
    &&& states.len() == choices.len() + 1
    &&& choices.len() <= allowed
    &&& forall|k: int| 0 <= k < states.len() ==> (#[trigger] states[k]).valid()
    &&& forall|k: int|
        0 <= k < choices.len() ==> took(states[k], states[k + 1], #[trigger] choices[k], policy, coef)
    &&& forall|k: int| 1 <= k < states.len() - 1 ==> !(#[trigger] states[k]).solved()
    &&& choices.len() == allowed || (choices.len() >= 1 && states.last().solved())
}

/// Whether `game` can be a playout of the policy with exploration on the
/// problem `start`: its steps lead from `start` to a problem that stands at
/// its score.
pub open spec fn explored_play<P: ManyStepProblem, F: Fn(&Vec<i64>) -> Vec<i64>>(
    start: P,
    game: (i64, Vec<Choice>),
    policy: &F,
    coef: int,
) -> bool {
    exists|states: Seq<P>| #[trigger]
        explored_along(states, game.1@, policy, coef, steps_allowed(&start)) && states[0] == start
            && game.0 == states.last().standing()
}

/// Whether `game` can be a playout of the policy with exploration on a copy
/// of the problem `first`.
pub open spec fn playout_of<P: ManyStepProblem, F: Fn(&Vec<i64>) -> Vec<i64>>(
    first: P,
    game: (i64, Vec<Choice>),
    policy: &F,
    coef: int,
) -> bool {
    exists|copy: P| first.copied(copy) && copy.valid() && #[trigger] explored_play(copy, game, policy, coef)
}

/// Whether each game can be a playout of the policy with exploration on a
/// copy of the problem `first`.
pub open spec fn all_playouts_of<P: ManyStepProblem, F: Fn(&Vec<i64>) -> Vec<i64>>(
    first: P,
    games: Seq<(i64, Vec<Choice>)>,
    policy: &F,
    coef: int,
) -> bool {
    forall|g: int| 0 <= g < games.len() ==> playout_of(first, #[trigger] games[g], policy, coef)
}

/// Whether `tests` can be what the problem `first` teaches in one round: as
/// many playouts of the policy with exploration as the settings say, each on
/// a copy of `first`, ranked and turned into tests.
pub open spec fn session<P: ManyStepProblem, F: Fn(&Vec<i64>) -> Vec<i64>>(
    tests: Seq<Test>,
    first: P,
    policy: &F,
    coef: int,
    params: LearnParams,
) -> bool {
    exists|games: Seq<(i64, Vec<Choice>)>|
        games.len() == params.test_per_prob && #[trigger] all_playouts_of(first, games, policy, coef)
            && taught_by(tests, games, params.percent_elite as int)
}

/// Whether `tests` can be what some valid problem drawn from the
/// configuration teaches in one round.
pub open spec fn session_on_drawn<P: ManyStepProblem, F: Fn(&Vec<i64>) -> Vec<i64>>(
    tests: Seq<Test>,
    prob_conf: &P::ProblemConfig,
    policy: &F,
    coef: int,
    params: LearnParams,
) -> bool {
    exists|prob: P|
        prob.valid() && P::drawn(prob_conf, prob) && #[trigger] session(tests, prob, policy, coef, params)
}

/// Whether each batch of tests can be what some valid problem drawn from
/// the configuration teaches in one round.
pub open spec fn all_sessions<P: ManyStepProblem, F: Fn(&Vec<i64>) -> Vec<i64>>(
    batches: Seq<Seq<Test>>,
    prob_conf: &P::ProblemConfig,
    policy: &F,
    coef: int,
    params: LearnParams,
) -> bool {
    forall|b: int|
        0 <= b < batches.len() ==> session_on_drawn::<P, F>(
            #[trigger] batches[b],
            prob_conf,
            policy,
            coef,
            params,
        )
}

/// The batches one after the other.
pub open spec fn joined(batches: Seq<Seq<Test>>) -> Seq<Test>
    decreases batches.len(),
{
    if batches.len() == 0 {
        Seq::empty()
    } else {
        joined(batches.drop_last()) + batches.last()
    }
}

/// Whether `examples` can be what one round gathers: the tests of as many
/// problems as the settings say, each problem drawn from the configuration
/// and taught in a session of its own, all in some order.
pub open spec fn gathered_from<P: ManyStepProblem, F: Fn(&Vec<i64>) -> Vec<i64>>(
    examples: Seq<Test>,
    prob_conf: &P::ProblemConfig,
    policy: &F,
    coef: int,
    params: LearnParams,
) -> bool {
    exists|batches: Seq<Seq<Test>>|
        batches.len() == params.nb_problems && #[trigger] all_sessions::<P, F>(
            batches,
            prob_conf,
            policy,
            coef,
            params,
        ) && examples.to_multiset() == joined(batches).to_multiset()
}

/// Whether one step of the policy without exploration can take the problem
/// `from` to the problem `to`: the policy answers the state of `from`, and
/// the step that its answer directs reaches `to`.
pub open spec fn stepped<P: ManyStepProblem, F: Fn(&Vec<i64>) -> Vec<i64>>(from: P, to: P, policy: &F) -> bool {
    exists|inputs: Vec<i64>, outputs: Vec<i64>|
        inputs@ == from.state() && #[trigger] policy.ensures((&inputs,), outputs) && from.reaches(
            outputs@,
            to,
        )
}

/// Whether `states` can be the states of a playout of the policy without
/// exploration, from where it starts to where it stops, on a problem that
/// allows `allowed` steps: each state is valid and comes of the one before
/// by a step of the policy, no state between the first and the last is
/// solved, and the playout stops only when the steps are taken or the
/// problem is solved.
pub open spec fn played_along<P: ManyStepProblem, F: Fn(&Vec<i64>) -> Vec<i64>>(
    states: Seq<P>,
    policy: &F,
    allowed: nat,
) -> bool {
    &&& 1 <= states.len() <= allowed + 1
    &&& forall|k: int| 0 <= k < states.len() ==> (#[trigger] states[k]).valid()
    &&& forall|k: int| 0 <= k < states.len() - 1 ==> stepped(#[trigger] states[k], states[k + 1], policy)
    &&& forall|k: int| 1 <= k < states.len() - 1 ==> !(#[trigger] states[k]).solved()
    &&& states.len() == allowed + 1 || (states.len() >= 2 && states.last().solved())
}

/// What a playout shows: after each step, what the problem shows of the
/// state that the step left, unless that state is solved.
pub open spec fn frames_of<P: ManyStepDrawable>(states: Seq<P>) -> Seq<DrawInstruction>
    decreases states.len(),
{
    if states.len() <= 1 {
        Seq::empty()
    } else if states.last().solved() {
        frames_of(states.drop_last())
    } else {
        frames_of(states.drop_last()) + states.last().shown()
    }
}

/// Whether `frames` can be what a playout of the policy without exploration
/// shows on a copy of the problem `first`.
pub open spec fn shown_by<P: ManyStepDrawable, F: Fn(&Vec<i64>) -> Vec<i64>>(
    frames: Seq<DrawInstruction>,
    first: P,
    policy: &F,
) -> bool {
    exists|states: Seq<P>| #[trigger]
        played_along(states, policy, steps_allowed(&first)) && first.copied(states[0]) && frames
            == frames_of(states)
}

impl<P: ManyStepDrawable> ReiLearn<P> {
    /// Plays the policy without exploration on a copy of the first held-out
    /// problem, and gathers what the problem shows after each step that
    /// leaves it unsolved.
    pub fn get_frames<F: Fn(&Vec<i64>) -> Vec<i64>>(&self, policy: &F) -> (frames: Vec<DrawInstruction>)
        requires
            self.wf(),
            self.test_problems@.len() >= 1,
            serves::<P, F>(policy),
        ensures
            shown_by(frames@, self.test_problems@[0], policy),
    {
        let mut frames: Vec<DrawInstruction> = Vec::new();
        let mut prob = self.test_problems[0].duplicate();
        let horizon = match self.test_problems[0].max_step() {
            Some(steps) => steps,
            None => MAX_GENETIC_ALG_GEN,
        };
        let mut steps: usize = 0;
        let mut solved = false;
        let ghost mut states: Seq<P> = seq![prob];
        while steps < horizon && !solved
            invariant
                prob.valid(),
                serves::<P, F>(policy),
                steps <= horizon,
                horizon == steps_allowed(&self.test_problems@[0]),
                states.len() == steps + 1,
                states.last() == prob,
                self.test_problems@[0].copied(states[0]),
                steps == 0 ==> !solved,
                solved == (steps >= 1 && prob.solved()),
                forall|k: int| 0 <= k < states.len() ==> (#[trigger] states[k]).valid(),
                forall|k: int|
                    0 <= k < states.len() - 1 ==> stepped(#[trigger] states[k], states[k + 1], policy),
                forall|k: int| 1 <= k < states.len() - 1 ==> !(#[trigger] states[k]).solved(),
                frames@ == frames_of(states),
            decreases horizon - steps,
        {
            let ghost from = prob;
            let ghost so_far = states;
            let ghost gathered = frames@;
            let inputs = prob.get_state();
            let outputs = policy(&inputs);
            prob.make_step(&outputs);
            steps += 1;
            solved = prob.is_solved();
            proof {
                states = states.push(prob);
                assert(stepped(from, prob, policy));
                assert(states.drop_last() =~= so_far);
                assert forall|k: int| 0 <= k < states.len() - 1 implies stepped(
                    #[trigger] states[k],
                    states[k + 1],
                    policy,
                ) by {
                    if k < so_far.len() - 1 {
                        assert(stepped(so_far[k], so_far[k + 1], policy));
                    }
                }
            }
            if !solved {
                let mut shown = prob.get_frames();
                frames.append(&mut shown);
            }
            assert(frames@ =~= frames_of(states));
        }
        assert(played_along(states, policy, steps_allowed(&self.test_problems@[0])));
        frames
    }
}

impl FitPlan {
    /// Whether the bounds of the fit are those for `len` examples and at
    /// most `max_gen` fits.
    pub open spec fn bounded_by(&self, len: int, max_gen: usize) -> bool {
        &&& self.gradient_descent_iters == 20
        &&& self.gradient_descent_step == 10_000
        &&& self.gradient_descent_nb_batches == len / 200
        &&& self.lvbm_nb_batches == len / 50
        &&& self.aim_score == 50_000
        &&& self.max_iter == max_gen
        &&& self.lvbm_max_iters == MAX_ITER
    }
}

/// Whether every step of a playout was recorded faithfully.
pub open spec fn faithful<F: Fn(&Vec<i64>) -> Vec<i64>>(game: (i64, Vec<Choice>), policy: &F, coef: int) -> bool {
    forall|k: int| 0 <= k < game.1@.len() ==> recorded(policy, #[trigger] game.1@[k], coef)
}

/// Whether every step of every playout was recorded faithfully.
pub open spec fn all_faithful<F: Fn(&Vec<i64>) -> Vec<i64>>(
    games: Seq<(i64, Vec<Choice>)>,
    policy: &F,
    coef: int,
) -> bool {
    forall|g: int| 0 <= g < games.len() ==> faithful(#[trigger] games[g], policy, coef)
}

/// Whether `ranked` holds the playouts `games`, the worst first, and those
/// of equal score in the order they were given in.
pub open spec fn ranking_of(ranked: Seq<(i64, Vec<Choice>)>, games: Seq<(i64, Vec<Choice>)>) -> bool {
    &&& ordered(ranked, false)
    &&& ranked.len() == games.len()
    &&& ranked.to_multiset() == games.to_multiset()
    &&& forall|k: int| #[trigger] of_rank(ranked, k) == of_rank(games, k)
}

/// Whether the tests are what some ranking of the playouts teaches.
pub open spec fn taught_by(tests: Seq<Test>, games: Seq<(i64, Vec<Choice>)>, percent_elite: int) -> bool {
    exists|ranked: Seq<(i64, Vec<Choice>)>|
        #[trigger] ranking_of(ranked, games) && lessons_in(tests) == lessons_upto(
            ranked,
            lower_cut(games.len() as int, percent_elite),
            upper_cut(games.len() as int, percent_elite),
            games.len() as int,
        )
}

/// Whether every entry lies in `[0, 1]`.
pub open spec fn in_unit(s: Seq<i64>) -> bool {
    forall|j: int| 0 <= j < s.len() ==> 0 <= #[trigger] s[j] <= UNIT
}

/// Whether every applied action of a playout lies in `[0, 1]`.
pub open spec fn applied_in_unit(game: (i64, Vec<Choice>)) -> bool {
    forall|k: int| 0 <= k < game.1@.len() ==> in_unit((#[trigger] game.1@[k]).choice@)
}

/// What exploration makes of a proposal lies in `[0, 1]`.
pub proof fn lemma_exploration_in_unit(choice: Seq<i64>, outputs: Seq<i64>, coef: int)
    requires
        exploration_of(choice, outputs, coef),
    ensures
        in_unit(choice),
{
    assert forall|j: int| 0 <= j < choice.len() implies 0 <= #[trigger] choice[j] <= UNIT by {
        assert(explored(choice[j] as int, outputs[j] as int, coef));
    }
}

/// The opposite of an action in `[0, 1]` lies in `[0, 1]`.
pub proof fn lemma_inverted_in_unit(choice: Seq<i64>)
    requires
        in_unit(choice),
    ensures
        in_unit(inverted(choice)),
{
    assert forall|j: int| 0 <= j < inverted(choice).len() implies 0 <= #[trigger] inverted(choice)[j]
        <= UNIT by {
        assert(0 <= choice[j] <= UNIT);
    }
}

/// Where every applied action of the leading `n` playouts lies in `[0, 1]`,
/// so does every answer that their lessons ask for.
pub proof fn lemma_lessons_upto_in_unit(games: Seq<(i64, Vec<Choice>)>, lower: int, upper: int, n: int)
    requires
        0 <= n <= games.len(),
        forall|g: int| 0 <= g < n ==> applied_in_unit(#[trigger] games[g]),
    ensures
        forall|k: int|
            0 <= k < lessons_upto(games, lower, upper, n).len() ==> in_unit(
                (#[trigger] lessons_upto(games, lower, upper, n)[k]).1,
            ),
    decreases n,
{
    if n > 0 {
        lemma_lessons_upto_in_unit(games, lower, upper, n - 1);
        let front = lessons_upto(games, lower, upper, n - 1);
        let verdict = verdict_at(n - 1, lower, upper);
        let last = lessons_of(games[n - 1].1@, verdict);
        assert(applied_in_unit(games[n - 1]));
        assert forall|k: int| 0 <= k < (front + last).len() implies in_unit((#[trigger] (front + last)[k]).1) by {
            if k >= front.len() {
                let c = games[n - 1].1@[k - front.len()];
                assert(in_unit(c.choice@));
                lemma_inverted_in_unit(c.choice@);
            }
        }
    }
}

/// Where every applied action of the playouts lies in `[0, 1]`, so does
/// every answer that the tests taught by them ask for.
pub proof fn lemma_lessons_in_unit(tests: Seq<Test>, games: Seq<(i64, Vec<Choice>)>, percent_elite: int)
    requires
        taught_by(tests, games, percent_elite),
        forall|g: int| 0 <= g < games.len() ==> applied_in_unit(#[trigger] games[g]),
    ensures
        forall|k: int| 0 <= k < tests.len() ==> in_unit(#[trigger] tests[k].outputs@),
{
    let lower = lower_cut(games.len() as int, percent_elite);
    let upper = upper_cut(games.len() as int, percent_elite);
    let ranked = choose|ranked: Seq<(i64, Vec<Choice>)>|
        #[trigger] ranking_of(ranked, games) && lessons_in(tests) == lessons_upto(
            ranked,
            lower,
            upper,
            games.len() as int,
        );
    ranked.to_multiset_ensures();
    games.to_multiset_ensures();
    assert forall|g: int| 0 <= g < ranked.len() implies applied_in_unit(#[trigger] ranked[g]) by {
        assert(ranked.contains(ranked[g]));
        assert(games.to_multiset().count(ranked[g]) > 0);
        assert(games.contains(ranked[g]));
    }
    lemma_lessons_upto_in_unit(ranked, lower, upper, ranked.len() as int);
    assert forall|k: int| 0 <= k < tests.len() implies in_unit(#[trigger] tests[k].outputs@) by {
        assert(lessons_in(tests)[k].1 == tests[k].outputs@);
    }
}

/// The exploration coefficient after `n` rounds that began at `start`.
pub open spec fn annealed(start: int, decay: int, n: nat) -> int
    decreases n,
{
    if n == 0 {
        start
    } else {
        prod(annealed(start, decay, (n - 1) as nat), decay)
    }
}

/// `b` multiplied `n` times with itself.
pub open spec fn power(b: int, n: nat) -> int
    decreases n,
{
    if n == 0 {
        1
    } else {
        b * power(b, (n - 1) as nat)
    }
}

/// One round lowers a coefficient that is not negative by a decay of at most
/// one to the exact product, rounded down.
pub proof fn lemma_anneal_step(a: int, decay: int)
    requires
        0 <= a <= i64::MAX,
        0 <= decay <= UNIT,
    ensures
        0 <= prod(a, decay) <= a,
        prod(a, decay) * UNIT <= a * decay < prod(a, decay) * UNIT + UNIT,
{
    let u = UNIT as int;
    let n = a * decay;
    assert(0 <= n <= a * u) by (nonlinear_arith)
        requires
            n == a * decay,
            0 <= a,
            0 <= decay <= u,
    ;
    assert(0 <= n / u <= a && (n / u) * u <= n < (n / u) * u + u) by (nonlinear_arith)
        requires
            0 <= n <= a * u,
            u > 0,
    ;
}

/// The exploration coefficient anneals geometrically: after `n` rounds it
/// is the starting coefficient times the `n`-th power of the decay, short of
/// it by less than `n` millionths at most, for a start that is not negative
/// and a decay between zero and one.
pub proof fn lemma_annealed_geometric(start: int, decay: int, n: nat)
    requires
        0 <= start <= i64::MAX,
        0 <= decay <= UNIT,
    ensures
        0 <= annealed(start, decay, n) <= start,
        annealed(start, decay, n) * power(UNIT as int, n) <= start * power(decay, n),
        start * power(decay, n) <= (annealed(start, decay, n) + n) * power(UNIT as int, n),
        power(UNIT as int, n) > 0,
        power(decay, n) >= 0,
    decreases n,
{
    let u = UNIT as int;
    if n > 0 {
        let k = (n - 1) as nat;
        lemma_annealed_geometric(start, decay, k);
        let a = annealed(start, decay, k);
        let b = annealed(start, decay, n);
        let pu = power(u, k);
        let pd = power(decay, k);
        lemma_anneal_step(a, decay);
        assert(b == prod(a, decay));
        assert(power(u, n) == u * pu);
        assert(power(decay, n) == decay * pd);
        assert(u * pu > 0 && decay * pd >= 0) by (nonlinear_arith)
            requires
                u > 0,
                pu > 0,
                decay >= 0,
                pd >= 0,
        ;
        let ad = a * decay;
        let bu = b * u;
        let x = start * pd;
        let lo = a * pu;
        let hi = (a + k) * pu;
        // the lower bound
        assert(bu * pu <= ad * pu) by (nonlinear_arith)
            requires
                bu <= ad,
                pu > 0,
        ;
        assert(ad * pu == decay * lo) by (nonlinear_arith)
            requires
                ad == a * decay,
                lo == a * pu,
        ;
        assert(decay * lo <= decay * x) by (nonlinear_arith)
            requires
                lo <= x,
                decay >= 0,
        ;
        assert(b * (u * pu) == bu * pu) by (nonlinear_arith)
            requires
                bu == b * u,
        ;
        assert(start * (decay * pd) == decay * x) by (nonlinear_arith)
            requires
                x == start * pd,
        ;
        // the upper bound
        assert(decay * x <= decay * hi) by (nonlinear_arith)
            requires
                x <= hi,
                decay >= 0,
        ;
        let kd = k * decay;
        let ku = k * u;
        assert(kd <= ku) by (nonlinear_arith)
            requires
                kd == k * decay,
                ku == k * u,
                decay <= u,
                k >= 0,
        ;
        assert(decay * hi == ad * pu + kd * pu) by (nonlinear_arith)
            requires
                hi == (a + k) * pu,
                ad == a * decay,
                kd == k * decay,
        ;
        assert(ad * pu <= (bu + u) * pu) by (nonlinear_arith)
            requires
                ad < bu + u,
                pu > 0,
        ;
        assert(kd * pu <= ku * pu) by (nonlinear_arith)
            requires
                kd <= ku,
                pu > 0,
        ;
        assert((bu + u) * pu + ku * pu == (b + n) * (u * pu)) by (nonlinear_arith)
            requires
                bu == b * u,
                ku == k * u,
                n == k + 1,
        ;
    }
}

} // verus!
