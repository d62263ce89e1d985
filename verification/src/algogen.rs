//! The generation engine: it owns a population and a problem, and evolves
//! the population one generation at a time under parameters that each step
//! may move.

pub use crate::hyper::ParamChoice;
pub use crate::stats::GenResult;

use crate::fixed::{
    diff, fx_div, fx_div_up, fx_from_count, fx_from_tally, fx_mul, fx_sub, fx_whole, of_count,
    prod, ratio, ratio_up, sat, whole, UNIT,
};
use crate::hyper::{PARAM_CHOICE_SIZE, POP_START};
use crate::problems::{
    add_scores_all, is_child, is_mutant, scored_by, GenericProblem, GenericSol, ManyStepProblem,
    SingleStepProblem,
};
use crate::rank::{lemma_map_keeps_multiset, ordered, ranking, sort_by_score, Scored};
use crate::rng::fork;
use crate::stats::{lemma_scaled_in_unit, GEN_RESULT_SIZE};
use rand::prng::XorShiftRng;
use vstd::arithmetic::div_mod::{
    lemma_fundamental_div_mod, lemma_fundamental_div_mod_converse, lemma_mod_pos_bound,
};
use vstd::multiset::Multiset;
use vstd::prelude::*;

verus! {

/// The kill count held to what leaves two individuals alive in a population
/// of `len`.
pub open spec fn clamped_kills(kills: int, len: int) -> int {
    let cap = diff(of_count(len), 2 * UNIT);
    if kills >= cap {
        cap
    } else {
        kills
    }
}

/// How many of a population of `len` are left after `kills`, as a
/// fixed-point number.
pub open spec fn span(kills: int, len: int) -> int {
    diff(of_count(len), kills)
}

/// The birth rate held to where `span` times the rate lies between 4 and
/// 200: a rate that gives more becomes `200 / span`, rounded down; one that
/// then gives less becomes `4 / span`, rounded up.
pub open spec fn clamped_birth(birth: int, span: int) -> int {
    let capped = if prod(span, birth) > 200 * UNIT {
        ratio(200 * UNIT, span)
    } else {
        birth
    };
    if prod(span, capped) < 4 * UNIT {
        ratio_up(4 * UNIT, span)
    } else {
        capped
    }
}

/// The parameters with which a population of `len` enters a generation,
/// given the proposal `choice`.
pub open spec fn applied(params: ParamChoice, choice: ParamChoice, len: int) -> ParamChoice {
    let m = params.merged(choice);
    let kills = clamped_kills(m.kills as int, len);
    ParamChoice {
        global: m.global,
        mutrate: m.mutrate,
        elite: m.elite,
        kills: kills as i64,
        birth_rate: clamped_birth(m.birth_rate as int, span(kills, len)) as i64,
    }
}

/// How many of `len` individuals survive the cull.
pub open spec fn survivors(len: int, kills: int) -> int {
    if whole(kills) >= len {
        0
    } else {
        len - whole(kills)
    }
}

/// The index from which on survivors are mutated.
pub open spec fn elite_start(survivors: int, elite: int) -> int {
    if whole(elite) >= survivors {
        0
    } else {
        survivors - whole(elite)
    }
}

/// How many children the survivors have.
pub open spec fn births(survivors: int, birth_rate: int) -> int {
    whole(prod(birth_rate, of_count(survivors)))
}

/// The size of the population after a generation that `len` individuals
/// enter with the parameters `params`.
pub open spec fn next_size(len: int, params: ParamChoice) -> int {
    let s = survivors(len, params.kills as int);
    s + births(s, params.birth_rate as int)
}

/// Whether `r` is the best of `pop`: the last of those with the highest
/// score.
pub open spec fn is_best(pop: Seq<GenericSol>, r: GenericSol) -> bool {
    exists|i: int|
        0 <= i < pop.len() && pop[i] == r && best_at(pop, i)
}

/// Whether the individual at `i` has the highest score, and every later one
/// a lower score.
pub open spec fn best_at(pop: Seq<GenericSol>, i: int) -> bool {
    &&& forall|j: int| 0 <= j < pop.len() ==> (#[trigger] pop[j]).score <= pop[i].score
    &&& forall|j: int| i < j < pop.len() ==> (#[trigger] pop[j]).score < pop[i].score
}

/// The count of individuals evaluated so far after `n` more, held to what a
/// `u64` can count.
pub open spec fn tally(played: int, n: int) -> int {
    if played + n > u64::MAX {
        u64::MAX as int
    } else {
        played + n
    }
}

/// Whether some individual of `pop` has exactly the genes `genes`.
pub open spec fn carries(pop: Seq<GenericSol>, genes: Seq<i64>) -> bool {
    exists|j: int| 0 <= j < pop.len() && (#[trigger] pop[j]).genes@ == genes
}

/// The genes of a population, whoever carries them and in whatever order.
pub open spec fn gene_pool(pop: Seq<GenericSol>) -> Multiset<Seq<i64>> {
    pop.map_values(|s: GenericSol| s.genes@).to_multiset()
}

/// Whether `bred` is what culling, mutation and breeding under `params` can
/// make of the population `before`: the leading survivors up to the elite
/// index as they were, the other survivors mutated, and after them the
/// children, each of a pair of neighbouring survivors, the pairs taking
/// turns.
pub open spec fn bred_from(bred: Seq<GenericSol>, before: Seq<GenericSol>, params: ParamChoice) -> bool {
    let s = survivors(before.len() as int, params.kills as int);
    let start = elite_start(s, params.elite as int);
    &&& bred.len() == s + births(s, params.birth_rate as int)
    &&& forall|i: int| 0 <= i < start ==> #[trigger] bred[i] == before[i]
    &&& forall|i: int| start <= i < s ==> is_mutant(#[trigger] bred[i], before[i], params.mutrate as int)
    &&& forall|k: int|
        0 <= k < births(s, params.birth_rate as int) ==> is_child(
            #[trigger] bred[s + k],
            bred[k % (s - 1)],
            bred[k % (s - 1) + 1],
        )
}

/// The population with every score set back to zero.
pub open spec fn zeroed(pop: Seq<GenericSol>) -> Seq<GenericSol> {
    Seq::new(pop.len(), |i: int| GenericSol { score: 0, genes: pop[i].genes })
}

/// Whether `pop` is what scoring afresh and ranking can make of `before`,
/// and the problem `start` can become `end` on the way: every score is set
/// back to zero, every individual then gathers what the problem gives it,
/// from the first on, and the population is ranked by these scores, the
/// best first.
pub open spec fn scored_afresh<P: SingleStepProblem>(
    pop: Seq<GenericSol>,
    before: Seq<GenericSol>,
    start: P,
    end: P,
) -> bool {
    exists|scored: Seq<GenericSol>| #[trigger]
        scored_by(zeroed(before), scored, start, end) && ranking(pop, scored, true)
}

/// Whether `pop` can be the generation after `before` under `params`, and
/// the problem `start` can become `end` on the way: a population is bred
/// from `before`, scored afresh and ranked.
pub open spec fn evolved_from<P: SingleStepProblem>(
    pop: Seq<GenericSol>,
    before: Seq<GenericSol>,
    params: ParamChoice,
    start: P,
    end: P,
) -> bool {
    exists|bred: Seq<GenericSol>| #[trigger]
        bred_from(bred, before, params) && gene_pool(pop) == gene_pool(bred) && scored_afresh(
            pop,
            bred,
            start,
            end,
        )
}

/// A population evolving against one problem.
pub struct AlgoGen<P: SingleStepProblem> {
    pub random: XorShiftRng,
    pub pop: Vec<GenericSol>,
    pub params: ParamChoice,
    pub problem: P,
    pub last_res: GenResult,
    /// How many individuals were evaluated so far, all generations together.
    pub individuals_played: u64,
}

impl<P: SingleStepProblem> AlgoGen<P> {
    /// Whether the engine can evolve: at least two individuals, and a valid
    /// problem.
    pub open spec fn wf(&self) -> bool {
        &&& self.pop@.len() >= 2
        &&& self.problem.valid()
    }

    /// Whether the engine is fresh: twenty-five individuals without a
    /// score, the starting parameters, statistics all zero, and no
    /// generation played yet.
    pub open spec fn fresh(&self) -> bool {
        &&& self.wf()
        &&& self.pop@.len() == POP_START
        &&& self.params == ParamChoice::new_spec()
        &&& self.last_res.flat()
        &&& self.individuals_played == 0
        &&& forall|i: int|
            0 <= i < self.pop@.len() ==> (#[trigger] self.pop@[i]).drawn(self.problem.gene_count())
    }

    /// A fresh engine over a random problem, with random solutions. It
    /// keeps a copy of `my_rand` as it stands after that.
    pub fn initiate(prob_conf: P::ProblemConfig, my_rand: &mut XorShiftRng) -> (e: Self)
        ensures
            e.fresh(),
            P::drawn(&prob_conf, e.problem),
            e.random == *final(my_rand),
    {
        Self::build(&prob_conf, my_rand)
    }

    /// A fresh engine over a random problem, with random solutions.
    fn build(prob_conf: &P::ProblemConfig, my_rand: &mut XorShiftRng) -> (e: Self)
        ensures
            e.fresh(),
            P::drawn(prob_conf, e.problem),
            e.random == *final(my_rand),
    {
        let prob = P::random(my_rand, prob_conf);
        let sol_conf = prob.get_sol_conf();
        let mut pop: Vec<GenericSol> = Vec::new();
        let mut i: usize = 0;
        while i < POP_START
            invariant
                i <= POP_START,
                pop@.len() == i,
                forall|k: int| 0 <= k < i ==> (#[trigger] pop@[k]).drawn(sol_conf as nat),
            decreases POP_START - i,
        {
            pop.push(GenericSol::random(my_rand, sol_conf));
            i += 1;
        }
        AlgoGen {
            problem: prob,
            random: fork(my_rand),
            pop,
            last_res: GenResult::new(),
            params: ParamChoice::new(),
            individuals_played: 0,
        }
    }

    /// Whether a generation under the proposal `choice` can take the engine
    /// to the state `after`: the parameters have taken the proposal in, the
    /// population has the size that they give, is bred from the old one,
    /// scored afresh and ranked, the statistics are read off the ranking,
    /// and the count of evaluations has grown by the new population.
    pub open spec fn generation(&self, choice: ParamChoice, after: Self) -> bool {
        &&& after.wf()
        &&& after.params == applied(self.params, choice, self.pop@.len() as int)
        &&& after.pop@.len() == next_size(self.pop@.len() as int, after.params)
        &&& ordered(after.pop@, true)
        &&& evolved_from(after.pop@, self.pop@, after.params, self.problem, after.problem)
        &&& after.last_res.follows(
            self.last_res,
            after.pop@[0].score,
            after.pop@[after.pop@.len() - 1].score,
            after.pop@[after.pop@.len() as int / 4].score,
            after.pop@[after.pop@.len() as int / 2].score,
            after.pop@[3 * after.pop@.len() as int / 4].score,
        )
        &&& after.individuals_played as int == tally(
            self.individuals_played as int,
            after.pop@.len() as int,
        )
    }

    /// Evolves the population by one generation under the proposal
    /// `choice_next`: the parameters take the proposal in, the worst are
    /// discarded, the survivors from the elite index on are mutated, the
    /// survivors breed, everyone is scored afresh and ranked, and the
    /// statistics are read off the ranking.
    pub fn next_gen(&mut self, choice_next: ParamChoice) -> (r: &GenResult)
        requires
            old(self).wf(),
        ensures
            final(self).wf(),
            final(self).params == applied(old(self).params, choice_next, old(self).pop@.len() as int),
            final(self).pop@.len() == next_size(old(self).pop@.len() as int, final(self).params),
            ordered(final(self).pop@, true),
            evolved_from(
                final(self).pop@,
                old(self).pop@,
                final(self).params,
                old(self).problem,
                final(self).problem,
            ),
            final(self).last_res.follows(
                old(self).last_res,
                final(self).pop@[0].score,
                final(self).pop@[final(self).pop@.len() - 1].score,
                final(self).pop@[final(self).pop@.len() as int / 4].score,
                final(self).pop@[final(self).pop@.len() as int / 2].score,
                final(self).pop@[3 * final(self).pop@.len() as int / 4].score,
            ),
            final(self).individuals_played as int == tally(
                old(self).individuals_played as int,
                final(self).pop@.len() as int,
            ),
            forall|i: int|
                0 <= i < elite_start(
                    survivors(old(self).pop@.len() as int, final(self).params.kills as int),
                    final(self).params.elite as int,
                ) ==> #[trigger] carries(final(self).pop@, old(self).pop@[i].genes@),
            *r == final(self).last_res,
    {
        let ghost before = self.pop@;
        self.apply_params(choice_next);
        proof {
            lemma_cull_leaves_two(before.len() as int, self.params.kills as int);
        }
        Self::kill_last(&mut self.pop, self.params.kills);
        let ghost culled = self.pop@;
        Self::mutate_average(&mut self.pop, self.params.elite, self.params.mutrate, &mut self.random);
        let ghost mutated = self.pop@;
        Self::make_childs(&mut self.pop, self.params.birth_rate, &mut self.random);
        let ghost bred = self.pop@;
        Self::sort_pop(&mut self.pop, &mut self.problem, &mut self.individuals_played);
        Self::update_res(&self.pop, &mut self.last_res);
        proof {
            let start = elite_start(culled.len() as int, self.params.elite as int);
            let s = culled.len() as int;
            assert(bred.take(s) == mutated);
            assert forall|i: int| 0 <= i < s implies bred[i] == mutated[i] by {
                assert(bred.take(s)[i] == bred[i]);
            }
            assert forall|i: int| 0 <= i < start implies #[trigger] bred[i] == before[i] by {
                assert(mutated[i] == culled[i]);
            }
            assert forall|i: int| start <= i < s implies is_mutant(
                #[trigger] bred[i],
                before[i],
                self.params.mutrate as int,
            ) by {
                assert(is_mutant(mutated[i], culled[i], self.params.mutrate as int));
                assert(culled[i] == before[i]);
            }
            assert forall|k: int| 0 <= k < births(s, self.params.birth_rate as int) implies is_child(
                #[trigger] bred[s + k],
                bred[k % (s - 1)],
                bred[k % (s - 1) + 1],
            ) by {
                lemma_next_turn(k, s - 1);
                assert(bred[k % (s - 1)] == mutated[k % (s - 1)]);
                assert(bred[k % (s - 1) + 1] == mutated[k % (s - 1) + 1]);
            }
            assert(bred_from(bred, before, self.params));
            assert forall|i: int| 0 <= i < start implies #[trigger] carries(self.pop@, before[i].genes@) by {
                assert(culled[i] == before[i]);
                assert(mutated[i] == culled[i]);
                assert(bred.take(mutated.len() as int)[i] == mutated[i]);
                assert(bred[i] == before[i]);
                assert(carries(self.pop@, bred[i].genes@));
            }
        }
        &self.last_res
    }

    /// Merges the proposal into the parameters, then holds the kill count
    /// and the birth rate to what the population allows.
    pub fn apply_params(&mut self, choice: ParamChoice)
        ensures
            final(self).params == applied(old(self).params, choice, old(self).pop@.len() as int),
            final(self).pop == old(self).pop,
            final(self).problem == old(self).problem,
            final(self).last_res == old(self).last_res,
            final(self).individuals_played == old(self).individuals_played,
            final(self).random == old(self).random,
    {
        self.params.update(choice);
        let len_fx = fx_from_count(self.pop.len());
        let cap = fx_sub(len_fx, 2 * UNIT);
        if self.params.kills >= cap {
            self.params.kills = cap;
        }
        let span = fx_sub(len_fx, self.params.kills);
        if fx_mul(span, self.params.birth_rate) > 200 * UNIT {
            self.params.birth_rate = fx_div(200 * UNIT, span);
        }
        if fx_mul(span, self.params.birth_rate) < 4 * UNIT {
            self.params.birth_rate = fx_div_up(4 * UNIT, span);
        }
    }

    /// Discards the worst: the population keeps its leading survivors.
    pub fn kill_last(pop: &mut Vec<GenericSol>, kills: i64)
        ensures
            final(pop)@ == old(pop)@.take(survivors(old(pop)@.len() as int, kills as int)),
    {
        let k = fx_whole(kills);
        let len = pop.len();
        let to_keep = if k >= len as u64 {
            0
        } else {
            len - k as usize
        };
        pop.truncate(to_keep);
    }

    /// Mutates the survivors from the elite index on, and leaves every one
    /// before it as it is.
    pub fn mutate_average(pop: &mut Vec<GenericSol>, elite: i64, mutrate: i64, rng: &mut XorShiftRng)
        ensures
            final(pop)@.len() == old(pop)@.len(),
            forall|i: int|
                0 <= i < elite_start(old(pop)@.len() as int, elite as int) ==> #[trigger] final(pop)@[i]
                    == old(pop)@[i],
            forall|i: int|
                elite_start(old(pop)@.len() as int, elite as int) <= i < old(pop)@.len() ==> is_mutant(
                    #[trigger] final(pop)@[i],
                    old(pop)@[i],
                    mutrate as int,
                ),
    {
        let e = fx_whole(elite);
        let len = pop.len();
        let nb_average = if e >= len as u64 {
            0
        } else {
            len - e as usize
        };
        let mut i: usize = nb_average;
        while i < len
            invariant
                nb_average <= i <= len,
                pop@.len() == len,
                old(pop)@.len() == len,
                forall|k: int| 0 <= k < nb_average ==> #[trigger] pop@[k] == old(pop)@[k],
                forall|k: int| i <= k < len ==> #[trigger] pop@[k] == old(pop)@[k],
                forall|k: int|
                    nb_average <= k < i ==> is_mutant(#[trigger] pop@[k], old(pop)@[k], mutrate as int),
            decreases len - i,
        {
            pop[i].mutate(mutrate, rng);
            i += 1;
        }
    }

    /// Lets the survivors breed: consecutive survivors pair up, the pairs
    /// take turns from the first on, and every child comes last.
    pub fn make_childs(pop: &mut Vec<GenericSol>, birth_rate: i64, rng: &mut XorShiftRng)
        requires
            old(pop)@.len() >= 2,
        ensures
            final(pop)@.len() == old(pop)@.len() + births(old(pop)@.len() as int, birth_rate as int),
            final(pop)@.take(old(pop)@.len() as int) == old(pop)@,
            forall|k: int|
                0 <= k < births(old(pop)@.len() as int, birth_rate as int) ==> is_child(
                    #[trigger] final(pop)@[old(pop)@.len() + k],
                    old(pop)@[k % (old(pop)@.len() - 1)],
                    old(pop)@[k % (old(pop)@.len() - 1) + 1],
                ),
    {
        let len = pop.len();
        let wanted = fx_whole(fx_mul(birth_rate, fx_from_count(len)));
        let mut cur_index: usize = 0;
        let mut childs_done: u64 = 0;
        let mut childs: Vec<GenericSol> = Vec::new();
        while childs_done < wanted
            invariant
                len >= 2,
                pop@ == old(pop)@,
                pop@.len() == len,
                childs_done <= wanted,
                childs@.len() == childs_done,
                cur_index < len,
                childs_done as int % (len - 1) == if cur_index + 1 == len {
                    0
                } else {
                    cur_index as int
                },
                forall|k: int|
                    0 <= k < childs_done ==> is_child(
                        #[trigger] childs@[k],
                        pop@[k % (len - 1)],
                        pop@[k % (len - 1) + 1],
                    ),
            decreases wanted - childs_done,
        {
            if cur_index + 1 == len {
                cur_index = 0;
            }
            let child = pop[cur_index].child(&pop[cur_index + 1], rng);
            childs.push(child);
            proof {
                lemma_next_turn(childs_done as int, len - 1);
            }
            cur_index += 1;
            childs_done += 1;
        }
        let ghost bred = childs@;
        pop.append(&mut childs);
        assert(pop@.take(len as int) =~= old(pop)@);
        assert forall|k: int| 0 <= k < wanted implies is_child(
            #[trigger] pop@[len + k],
            old(pop)@[k % (len - 1)],
            old(pop)@[k % (len - 1) + 1],
        ) by {
            assert(pop@[len + k] == bred[k]);
        }
    }

    /// Scores every individual afresh and ranks the population, the best
    /// first.
    pub fn sort_pop(pop: &mut Vec<GenericSol>, problem: &mut P, played: &mut u64)
        requires
            old(problem).valid(),
        ensures
            final(problem).valid(),
            final(pop)@.len() == old(pop)@.len(),
            ordered(final(pop)@, true),
            *final(played) as int == tally(*old(played) as int, old(pop)@.len() as int),
            gene_pool(final(pop)@) == gene_pool(old(pop)@),
            scored_afresh(final(pop)@, old(pop)@, *old(problem), *final(problem)),
            forall|i: int|
                0 <= i < old(pop)@.len() ==> #[trigger] carries(final(pop)@, old(pop)@[i].genes@),
    {
        let len = pop.len();
        let mut i: usize = 0;
        while i < len
            invariant
                i <= len,
                pop@.len() == len,
                old(pop)@.len() == len,
                forall|k: int| 0 <= k < len ==> (#[trigger] pop@[k]).genes == old(pop)@[k].genes,
                forall|k: int| 0 <= k < i ==> (#[trigger] pop@[k]).score == 0,
            decreases len - i,
        {
            pop[i].reset_score();
            i += 1;
        }
        assert(pop@ =~= zeroed(old(pop)@));
        add_scores_all(problem, pop);
        let count = len as u64;
        *played = if *played > u64::MAX - count {
            u64::MAX
        } else {
            *played + count
        };
        let ghost scored = pop@;
        sort_by_score(pop, true);
        proof {
            assert(ranking(pop@, scored, true));
            lemma_map_keeps_multiset(pop@, scored, |s: GenericSol| s.genes@);
            assert(scored.map_values(|s: GenericSol| s.genes@) =~= old(pop)@.map_values(
                |s: GenericSol| s.genes@,
            ));
            scored.to_multiset_ensures();
            pop@.to_multiset_ensures();
            assert forall|i: int| 0 <= i < old(pop)@.len() implies #[trigger] carries(
                pop@,
                old(pop)@[i].genes@,
            ) by {
                assert(scored.contains(scored[i]));
                assert(pop@.to_multiset().count(scored[i]) > 0);
                assert(pop@.contains(scored[i]));
                let j = choose|j: int| 0 <= j < pop@.len() && pop@[j] == scored[i];
                assert(pop@[j].genes@ == old(pop)@[i].genes@);
            }
        }
    }

    /// Reads the statistics off the ranked population.
    pub fn update_res(pop: &Vec<GenericSol>, last_res: &mut GenResult)
        requires
            pop@.len() >= 1,
        ensures
            final(last_res).follows(
                *old(last_res),
                pop@[0].score,
                pop@[pop@.len() - 1].score,
                pop@[pop@.len() as int / 4].score,
                pop@[pop@.len() as int / 2].score,
                pop@[3 * pop@.len() as int / 4].score,
            ),
    {
        let len = pop.len();
        let q3_at = ((3 * (len as u128)) / 4) as usize;
        last_res.update(
            pop[0].get_score(),
            pop[len - 1].get_score(),
            pop[len / 4].get_score(),
            pop[len / 2].get_score(),
            pop[q3_at].get_score(),
        );
    }

    /// A copy of the engine in its current state, with a copy of its random
    /// source.
    pub fn duplicate(&self) -> (copy: Self)
        requires
            self.wf(),
        ensures
            copy.wf(),
            copy.pop@.len() == self.pop@.len(),
            forall|i: int|
                0 <= i < self.pop@.len() ==> (#[trigger] copy.pop@[i]).score == self.pop@[i].score
                    && copy.pop@[i].genes@ == self.pop@[i].genes@,
            copy.params == self.params,
            copy.last_res == self.last_res,
            copy.individuals_played == self.individuals_played,
            copy.random == self.random,
            self.problem.copied(copy.problem),
    {
        let len = self.pop.len();
        let mut pop: Vec<GenericSol> = Vec::new();
        let mut i: usize = 0;
        while i < len
            invariant
                i <= len,
                len == self.pop@.len(),
                pop@.len() == i,
                forall|k: int|
                    0 <= k < i ==> (#[trigger] pop@[k]).score == self.pop@[k].score && pop@[k].genes@
                        == self.pop@[k].genes@,
            decreases len - i,
        {
            pop.push(self.pop[i].clone());
            i += 1;
        }
        AlgoGen {
            random: fork(&self.random),
            pop,
            params: self.params,
            problem: self.problem.duplicate(),
            last_res: self.last_res,
            individuals_played: self.individuals_played,
        }
    }

    /// The best individual of the population, found by a scan that assumes
    /// no order.
    pub fn best(&self) -> (r: &GenericSol)
        requires
            self.pop@.len() >= 1,
        ensures
            is_best(self.pop@, *r),
    {
        let mut at: usize = 0;
        let mut i: usize = 1;
        while i < self.pop.len()
            invariant
                at < i <= self.pop@.len(),
                forall|j: int| 0 <= j < i ==> (#[trigger] self.pop@[j]).score <= self.pop@[at as int].score,
                forall|j: int| at < j < i ==> (#[trigger] self.pop@[j]).score < self.pop@[at as int].score,
            decreases self.pop@.len() - i,
        {
            if self.pop[i].get_score() >= self.pop[at].get_score() {
                at = i;
            }
            i += 1;
        }
        assert(best_at(self.pop@, at as int));
        &self.pop[at]
    }
}

/// The score of an engine whose best individual scores `max` after `played`
/// evaluations: the square of `max` for each evaluation, and zero before
/// the first.
pub open spec fn yield_per_play(max: int, played: int) -> int {
    if played == 0 {
        0
    } else {
        ratio(prod(max, max), of_count(played))
    }
}

impl<P: SingleStepProblem> GenericProblem for AlgoGen<P> {
    type ProblemConfig = P::ProblemConfig;

    open spec fn valid(&self) -> bool {
        self.wf()
    }

    /// A drawn engine is fresh, over a problem drawn from the same
    /// configuration.
    open spec fn drawn(prob_conf: &P::ProblemConfig, p: Self) -> bool {
        &&& p.fresh()
        &&& P::drawn(prob_conf, p.problem)
    }

    fn random(rng: &mut XorShiftRng, prob_conf: &P::ProblemConfig) -> (p: Self) {
        Self::build(prob_conf, rng)
    }

    /// A copy has the engine's individuals, parameters, statistics and
    /// count of evaluations, its random source, and a copy of its problem.
    open spec fn copied(&self, copy: Self) -> bool {
        &&& copy.random == self.random
        &&& self.problem.copied(copy.problem)
        &&& copy.pop@.len() == self.pop@.len()
        &&& forall|i: int|
            0 <= i < self.pop@.len() ==> (#[trigger] copy.pop@[i]).score == self.pop@[i].score
                && copy.pop@[i].genes@ == self.pop@[i].genes@
        &&& copy.params == self.params
        &&& copy.last_res == self.last_res
        &&& copy.individuals_played == self.individuals_played
    }

    fn duplicate(&self) -> (copy: Self) {
        AlgoGen::duplicate(self)
    }
}

/// The engine as a problem of its own: a step is a generation, the state is
/// the projection of the statistics, and the direction of a step is a
/// proposal for the parameters.
impl<P: SingleStepProblem> ManyStepProblem for AlgoGen<P> {
    open spec fn step_width(&self) -> nat {
        PARAM_CHOICE_SIZE as nat
    }

    open spec fn horizon(&self) -> Option<usize> {
        Some(20usize)
    }

    /// The engine is done once more than 150 individuals were evaluated.
    open spec fn solved(&self) -> bool {
        self.individuals_played > 150
    }

    /// The state is the projection of the statistics.
    open spec fn state(&self) -> Seq<i64> {
        self.last_res.normalized()
    }

    /// A step is a generation under the proposal that `choice` holds.
    open spec fn reaches(&self, choice: Seq<i64>, after: Self) -> bool {
        self.generation(ParamChoice::read(choice), after)
    }

    fn get_state(&self) -> (state: Vec<i64>) {
        self.last_res.into_vector()
    }

    fn make_step(&mut self, choice: &Vec<i64>) {
        let proposal = ParamChoice::from_vector(choice.clone());
        self.next_gen(proposal);
    }

    fn max_step(&self) -> (steps: Option<usize>) {
        Some(20)
    }

    /// The engine stands at the square of its best score for each
    /// evaluation made.
    open spec fn standing(&self) -> i64 {
        yield_per_play(self.last_res.max as int, self.individuals_played as int) as i64
    }

    fn evaluate(&self) -> (score: i64) {
        if self.individuals_played == 0 {
            0
        } else {
            fx_div(
                fx_mul(self.last_res.max, self.last_res.max),
                fx_from_tally(self.individuals_played),
            )
        }
    }

    fn input_space(&self) -> (width: usize) {
        PARAM_CHOICE_SIZE
    }

    fn output_space(&self) -> (width: usize)
        ensures
            width == GEN_RESULT_SIZE,
    {
        GEN_RESULT_SIZE
    }

    fn is_solved(&self) -> (solved: bool) {
        self.individuals_played > 150
    }
}

/// A kill count that was held to the population leaves at least two
/// survivors.
pub proof fn lemma_cull_leaves_two(len: int, kills: int)
    requires
        2 <= len,
        kills <= diff(of_count(len), 2 * UNIT),
    ensures
        survivors(len, kills) >= 2,
{
    if kills >= 0 {
        let u = UNIT as int;
        if len * u <= i64::MAX {
            assert(kills <= (len - 2) * u) by (nonlinear_arith)
                requires
                    kills <= len * u - 2 * u,
            ;
            assert(kills / u <= len - 2) by (nonlinear_arith)
                requires
                    kills <= (len - 2) * u,
                    u > 0,
            ;
        } else {
            assert(kills / u <= len - 2) by (nonlinear_arith)
                requires
                    kills <= len * u - 2 * u,
                    u > 0,
                    len >= 2,
            ;
        }
    }
}

/// The fixed-point product of two numbers that are not negative is their
/// exact product, rounded down and saturated.
pub proof fn lemma_prod_of_positives(a: int, b: int)
    requires
        0 <= a,
        0 <= b,
    ensures
        0 <= a * b,
        prod(a, b) == sat((a * b) / (UNIT as int)),
        prod(a, b) == prod(b, a),
        0 <= prod(a, b),
{
    let u = UNIT as int;
    assert(0 <= a * b && a * b == b * a && (a * b) / u >= 0) by (nonlinear_arith)
        requires
            0 <= a,
            0 <= b,
            u > 0,
    ;
}

/// The birth rate, once held, makes `span` times the rate lie between 4 and
/// 200, for a span between two and a million.
pub proof fn lemma_birth_rate_held(birth: int, span: int)
    requires
        i64::MIN <= birth <= i64::MAX,
        2 * UNIT <= span <= 1_000_000 * UNIT,
    ensures
        0 < clamped_birth(birth, span) <= i64::MAX,
        4 * UNIT <= prod(span, clamped_birth(birth, span)) <= 200 * UNIT,
{
    let u = UNIT as int;
    let capped = if prod(span, birth) > 200 * u {
        ratio(200 * u, span)
    } else {
        birth
    };
    if prod(span, birth) > 200 * u {
        let c = (200 * u * u) / span;
        assert(0 <= c <= 100 * u && c * span <= 200 * u * u) by (nonlinear_arith)
            requires
                c == (200 * u * u) / span,
                2 * u <= span,
                u == 1_000_000,
        ;
        assert(capped == c);
        lemma_prod_of_positives(span, c);
        assert((span * c) / u <= 200 * u) by (nonlinear_arith)
            requires
                c * span <= 200 * u * u,
                u > 0,
        ;
    }
    assert(prod(span, capped) <= 200 * u);
    if prod(span, capped) < 4 * u {
        let b = (4 * u * u + span - 1) / span;
        assert(0 < b <= 2 * u && 4 * u * u <= b * span < 4 * u * u + span) by (nonlinear_arith)
            requires
                b == (4 * u * u + span - 1) / span,
                2 * u <= span,
                u == 1_000_000,
        ;
        assert(clamped_birth(birth, span) == b);
        lemma_prod_of_positives(span, b);
        assert(4 * u <= (span * b) / u <= 200 * u) by (nonlinear_arith)
            requires
                4 * u * u <= b * span < 4 * u * u + span,
                span <= 1_000_000 * u,
                u == 1_000_000,
        ;
    } else {
        if capped <= 0 {
            assert(span * capped <= 0) by (nonlinear_arith)
                requires
                    span > 0,
                    capped <= 0,
            ;
        }
    }
}

/// What the clamping of the parameters promises, for a population of two to
/// a million and a kill count that is not negative: the kill count leaves
/// two alive, what is left of the population times the birth rate lies
/// between 4 and 200, and the next population has at least two survivors
/// and between four and three hundred children.
pub proof fn lemma_clamped_params(params: ParamChoice, choice: ParamChoice, len: int)
    requires
        2 <= len <= 1_000_000,
        applied(params, choice, len).kills >= 0,
    ensures
        applied(params, choice, len).kills <= (len - 2) * UNIT,
        applied(params, choice, len).birth_rate > 0,
        4 * UNIT <= prod(
            span(applied(params, choice, len).kills as int, len),
            applied(params, choice, len).birth_rate as int,
        ) <= 200 * UNIT,
        survivors(len, applied(params, choice, len).kills as int) >= 2,
        4 <= births(
            survivors(len, applied(params, choice, len).kills as int),
            applied(params, choice, len).birth_rate as int,
        ) <= 300,
{
    let u = UNIT as int;
    let m = params.merged(choice);
    let kills = clamped_kills(m.kills as int, len);
    let sp = span(kills, len);
    let p = applied(params, choice, len);
    assert(len * u <= 1_000_000 * u) by (nonlinear_arith)
        requires
            len <= 1_000_000,
            u > 0,
    ;
    assert(len * u >= 2 * u) by (nonlinear_arith)
        requires
            len >= 2,
            u > 0,
    ;
    assert(p.kills == kills);
    assert(sp == len * u - kills);
    lemma_birth_rate_held(m.birth_rate as int, sp);
    let b = clamped_birth(m.birth_rate as int, sp);
    assert(p.birth_rate == b);
    lemma_cull_leaves_two(len, kills);
    let s = survivors(len, kills);
    let q = kills / u;
    assert(q * u <= kills && 0 <= q) by (nonlinear_arith)
        requires
            q == kills / u,
            kills >= 0,
            u > 0,
    ;
    assert(s * u >= sp && s * u <= 1_000_000 * u) by (nonlinear_arith)
        requires
            s == len - q,
            sp == len * u - kills,
            q * u <= kills,
            0 <= q,
            len <= 1_000_000,
            u > 0,
    ;
    lemma_prod_of_positives(sp, b);
    lemma_prod_of_positives(b, s * u);
    assert((b * (s * u)) / u >= (sp * b) / u) by (nonlinear_arith)
        requires
            s * u >= sp,
            b > 0,
            sp > 0,
            u > 0,
    ;
    // at most three hundred children
    let spb = sp * b;
    assert(spb < (200 * u + 1) * u) by (nonlinear_arith)
        requires
            spb / u <= 200 * u,
            spb >= 0,
            u > 0,
    ;
    assert(b <= 100 * u) by (nonlinear_arith)
        requires
            spb == sp * b,
            spb < (200 * u + 1) * u,
            sp >= 2 * u,
            b > 0,
            u > 0,
    ;
    assert(kills - q * u < u) by (nonlinear_arith)
        requires
            q == kills / u,
            kills >= 0,
            u > 0,
    ;
    let su = s * u;
    assert(su < sp + u);
    let bsu = b * su;
    assert(bsu <= spb + b * u) by (nonlinear_arith)
        requires
            bsu == b * su,
            spb == sp * b,
            su < sp + u,
            b > 0,
    ;
    assert(b * u <= 100 * u * u) by (nonlinear_arith)
        requires
            b <= 100 * u,
            u > 0,
    ;
    assert(bsu / u <= 300 * u) by (nonlinear_arith)
        requires
            bsu < (200 * u + 1) * u + 100 * u * u,
            u > 0,
    ;
    assert(prod(b, su) <= 300 * u);
}

/// Where the kill count, once held, is a whole number that is not negative,
/// the survivors of a population of two to a million have at most two
/// hundred children: the next population has at most two hundred more
/// individuals than survive, so at most 204 where at most four survive.
pub proof fn lemma_population_bounds(params: ParamChoice, choice: ParamChoice, len: int)
    requires
        2 <= len <= 1_000_000,
        applied(params, choice, len).kills >= 0,
        applied(params, choice, len).kills as int % (UNIT as int) == 0,
    ensures
        2 <= survivors(len, applied(params, choice, len).kills as int) <= len,
        6 <= next_size(len, applied(params, choice, len)) <= survivors(
            len,
            applied(params, choice, len).kills as int,
        ) + 200,
{
    let u = UNIT as int;
    let p = applied(params, choice, len);
    let kills = p.kills as int;
    let sp = span(kills, len);
    let s = survivors(len, kills);
    let b = p.birth_rate as int;
    lemma_clamped_params(params, choice, len);
    let q = kills / u;
    assert(q * u == kills && 0 <= q) by (nonlinear_arith)
        requires
            q == kills / u,
            kills % u == 0,
            kills >= 0,
            u > 0,
    ;
    assert(len * u <= 1_000_000 * u && s * u == len * u - q * u) by (nonlinear_arith)
        requires
            len <= 1_000_000,
            s == len - q,
            u > 0,
    ;
    assert(of_count(s) == sp);
    lemma_prod_of_positives(sp, b);
}

/// The population grows by at most three hundred in a generation, and never
/// falls under six, for a population of two to a million and a kill count
/// that is not negative.
pub proof fn lemma_population_growth(params: ParamChoice, choice: ParamChoice, len: int)
    requires
        2 <= len <= 1_000_000,
        applied(params, choice, len).kills >= 0,
    ensures
        6 <= next_size(len, applied(params, choice, len)) <= len + 300,
{
    lemma_clamped_params(params, choice, len);
}

/// After a generation the five current statistics project into the unit
/// interval, where the best and the worst score differ: the ranking puts
/// every score between the two.
pub proof fn lemma_ranked_statistics_in_unit(g: GenResult, prev: GenResult, pop: Seq<GenericSol>)
    requires
        pop.len() >= 1,
        ordered(pop, true),
        g.follows(
            prev,
            pop[0].score,
            pop[pop.len() - 1].score,
            pop[pop.len() as int / 4].score,
            pop[pop.len() as int / 2].score,
            pop[3 * pop.len() as int / 4].score,
        ),
        g.max != g.min,
    ensures
        forall|i: int| 0 <= i < 5 ==> 0 <= #[trigger] g.normalized()[i] <= UNIT,
{
    let n = pop.len() as int;
    let last = n - 1;
    assert forall|k: int| 0 <= k < n implies pop[last].score <= (#[trigger] pop[k]).score <= pop[0].score by {
        if 0 < k {
            assert(pop[0].rank() >= pop[k].rank());
        }
        if k < last {
            assert(pop[k].rank() >= pop[last].rank());
        }
    }
    assert(0 <= n / 4 < n && 0 <= n / 2 < n && 0 <= 3 * n / 4 < n);
    assert(pop[last].score <= pop[n / 4].score <= pop[0].score);
    assert(pop[last].score <= pop[n / 2].score <= pop[0].score);
    assert(pop[last].score <= pop[3 * n / 4].score <= pop[0].score);
    assert forall|i: int| 0 <= i < 5 implies 0 <= #[trigger] g.normalized()[i] <= UNIT by {
        lemma_scaled_in_unit(g.raw(i) as int, g.min as int, g.max as int);
    }
}

/// The leading individuals that count as elite come before the index from
/// which survivors are mutated, and so pass the mutation unchanged, where
/// the elite count is at most half the number of survivors.
pub proof fn lemma_elite_before_mutants(survivors: int, elite: int)
    requires
        0 <= survivors,
        2 * whole(elite) <= survivors,
    ensures
        whole(elite) <= elite_start(survivors, elite),
{
}

/// The population never falls under two individuals: a population of at
/// least two has at least two survivors, whatever the parameters and the
/// proposal.
pub proof fn lemma_population_stays_viable(params: ParamChoice, choice: ParamChoice, len: int)
    requires
        2 <= len,
    ensures
        next_size(len, applied(params, choice, len)) >= survivors(
            len,
            applied(params, choice, len).kills as int,
        ) >= 2,
{
    let m = params.merged(choice);
    lemma_cull_leaves_two(len, clamped_kills(m.kills as int, len));
}

/// The turn after turn `k` of `m` pairs taking turns: the next pair, or the
/// first again after the last.
pub proof fn lemma_next_turn(k: int, m: int)
    requires
        k >= 0,
        m >= 1,
    ensures
        (k + 1) % m == if k % m + 1 == m {
            0
        } else {
            k % m + 1
        },
        0 <= k % m < m,
{
    let q = k / m;
    let r = k % m;
    lemma_fundamental_div_mod(k, m);
    lemma_mod_pos_bound(k, m);
    if r + 1 == m {
        assert(k + 1 == (q + 1) * m + 0) by (nonlinear_arith)
            requires
                k == m * q + r,
                r + 1 == m,
        ;
        lemma_fundamental_div_mod_converse(k + 1, m, q + 1, 0);
    } else {
        assert(k + 1 == q * m + (r + 1)) by (nonlinear_arith)
            requires
                k == m * q + r,
        ;
        lemma_fundamental_div_mod_converse(k + 1, m, q, r + 1);
    }
}

} // verus!
