use metaevo::algogen::AlgoGen;
use metaevo::fixed::{HALF, UNIT};
use metaevo::hyper::ParamChoice;
use metaevo::problems::easyproblem::EasyProblem;
use metaevo::problems::{GenericProblem, GenericSol, ManyStepProblem};
use rand::prng::XorShiftRng;
use rand::SeedableRng;

type Engine = AlgoGen<EasyProblem>;

fn seeded(seed: u8) -> XorShiftRng {
    XorShiftRng::from_seed([seed; 16])
}

fn tagged(tag: i64, score: i64) -> GenericSol {
    let mut s = GenericSol::from_vec(vec![tag; 4]);
    s.add_score(score);
    s
}

fn snapshot(e: &Engine) -> Vec<(i64, Vec<i64>)> {
    let mut out = Vec::new();
    for s in e.pop.iter() {
        out.push((s.score, s.genes.clone()));
    }
    out
}

#[test]
fn a_fresh_engine() {
    let mut rng = seeded(1);
    let e = Engine::initiate(6, &mut rng);
    assert_eq!(e.pop.len(), 25);
    assert_eq!(e.individuals_played, 0);
    assert_eq!(e.params.kills, 20 * UNIT);
    assert_eq!(e.params.birth_rate, 4 * UNIT);
    assert_eq!(e.last_res.max, 0);
    assert_eq!(e.problem.numbers.len(), 6);
    for s in e.pop.iter() {
        assert_eq!(s.score, 0);
        assert_eq!(s.genes.len(), 6);
    }
}

#[test]
fn one_generation_with_the_neutral_proposal() {
    let mut rng = seeded(2);
    let mut e = Engine::initiate(6, &mut rng);
    let res = *e.next_gen(ParamChoice::same());
    // 25 - 20 survivors, each with 4 children
    assert_eq!(e.pop.len(), 25);
    assert_eq!(e.individuals_played, 25);
    assert_eq!(e.params.global, 0);
    assert_eq!(e.params.kills, 20 * UNIT);
    for k in 1..e.pop.len() {
        assert!(e.pop[k - 1].score >= e.pop[k].score);
    }
    assert_eq!(res.max, e.pop[0].score);
    assert_eq!(res.min, e.pop[24].score);
    assert_eq!(res.q1, e.pop[6].score);
    assert_eq!(res.med, e.pop[12].score);
    assert_eq!(res.q3, e.pop[18].score);
    assert_eq!(res.max5, [0; 5]);
    for s in e.pop.iter() {
        let mut p = e.problem.duplicate();
        assert_eq!(metaevo::problems::SingleStepProblem::evaluate(&mut p, s), s.score);
    }
}

#[test]
fn the_same_seed_gives_the_same_population() {
    let mut first_rng = seeded(3);
    let mut second_rng = seeded(3);
    let mut first = Engine::initiate(8, &mut first_rng);
    let mut second = Engine::initiate(8, &mut second_rng);
    assert_eq!(snapshot(&first), snapshot(&second));
    first.next_gen(ParamChoice::same());
    second.next_gen(ParamChoice::same());
    assert_eq!(first.pop.len(), 25);
    assert_eq!(snapshot(&first), snapshot(&second));
    assert_eq!(first.problem.numbers, second.problem.numbers);
    let mut other_rng = seeded(4);
    let mut other = Engine::initiate(8, &mut other_rng);
    other.next_gen(ParamChoice::same());
    assert_ne!(snapshot(&first), snapshot(&other));
}

#[test]
fn the_population_stays_within_its_bounds() {
    let mut rng = seeded(5);
    let mut e = Engine::initiate(5, &mut rng);
    for generation in 1..=12u64 {
        e.next_gen(ParamChoice::same());
        assert!(2 <= e.pop.len() && e.pop.len() <= 204);
        assert_eq!(e.pop.len(), 25);
        assert_eq!(e.individuals_played, 25 * generation);
    }
}

#[test]
fn the_history_lags_the_current_best() {
    let mut rng = seeded(6);
    let mut e = Engine::initiate(5, &mut rng);
    let first = *e.next_gen(ParamChoice::same());
    let second = *e.next_gen(ParamChoice::same());
    assert_eq!(second.max5[4], first.max);
    assert_eq!(second.med5[4], first.med);
    assert_eq!(second.max5[3], 0);
}

#[test]
fn survivors_before_the_elite_index_keep_their_genes() {
    let mut rng = seeded(7);
    let mut e = Engine::initiate(6, &mut rng);
    e.next_gen(ParamChoice::same());
    let before = snapshot(&e);
    e.next_gen(ParamChoice::same());
    // five survive, the elite count is one: the leading four pass unchanged
    for old in before.iter().take(4) {
        assert!(e.pop.iter().any(|s| s.genes == old.1));
    }
}

#[test]
fn the_kill_count_leaves_two_alive() {
    let mut rng = seeded(8);
    let mut e = Engine::initiate(4, &mut rng);
    // kills: 20 + 20 * (1 - 0.5) * 1 = 30, held to 25 - 2
    e.apply_params(ParamChoice { global: UNIT, mutrate: HALF, elite: HALF, kills: UNIT, birth_rate: HALF });
    assert_eq!(e.params.kills, 23 * UNIT);
    // 2 * 4 = 8 lies between 4 and 200
    assert_eq!(e.params.birth_rate, 4 * UNIT);
    assert_eq!(e.pop.len(), 25);
}

#[test]
fn the_birth_rate_is_held_from_above() {
    let mut rng = seeded(9);
    let mut e = Engine::initiate(4, &mut rng);
    e.params.birth_rate = 50 * UNIT;
    e.apply_params(ParamChoice::same());
    // 5 * 50 = 250 is too many: 200 / 5
    assert_eq!(e.params.birth_rate, 40 * UNIT);
    e.params.kills = 22 * UNIT;
    e.params.birth_rate = 70 * UNIT;
    e.apply_params(ParamChoice::same());
    // 200 / 3, rounded down
    assert_eq!(e.params.birth_rate, 66_666_666);
}

#[test]
fn the_birth_rate_is_held_from_below() {
    let mut rng = seeded(10);
    let mut e = Engine::initiate(4, &mut rng);
    e.params.birth_rate = HALF;
    e.apply_params(ParamChoice::same());
    // 5 * 0.5 = 2.5 is too few: 4 / 5
    assert_eq!(e.params.birth_rate, 800_000);
    e.params.kills = 22 * UNIT;
    e.params.birth_rate = -3 * UNIT;
    e.apply_params(ParamChoice::same());
    // 4 / 3, rounded up
    assert_eq!(e.params.birth_rate, 1_333_334);
    e.next_gen(ParamChoice::same());
    // three survive and have four children
    assert_eq!(e.pop.len(), 7);
}

#[test]
fn a_growing_population() {
    let mut rng = seeded(11);
    let mut e = Engine::initiate(3, &mut rng);
    // kills: 20 + 20 * (0 - 0.5) = 10; births: 4 * 15 = 60
    e.next_gen(ParamChoice { global: UNIT, mutrate: HALF, elite: HALF, kills: 0, birth_rate: HALF });
    assert_eq!(e.params.kills, 10 * UNIT);
    assert_eq!(e.pop.len(), 75);
    assert_eq!(e.individuals_played, 75);
    // kills: 10 - 5 = 5; births: 4 * 70 = 280 is too many: 200 / 70, and 199 children
    e.next_gen(ParamChoice { global: UNIT, mutrate: HALF, elite: HALF, kills: 0, birth_rate: HALF });
    assert_eq!(e.params.kills, 5 * UNIT);
    assert_eq!(e.params.birth_rate, 2_857_142);
    assert_eq!(e.pop.len(), 70 + 199);
}

#[test]
fn the_cull_keeps_the_leading_survivors() {
    let mut pop = vec![tagged(0, 9), tagged(1, 8), tagged(2, 7), tagged(3, 6), tagged(4, 5)];
    Engine::kill_last(&mut pop, 2 * UNIT + 999_999);
    assert_eq!(pop.len(), 3);
    assert_eq!(pop[2].genes, vec![2; 4]);
    Engine::kill_last(&mut pop, -4 * UNIT);
    assert_eq!(pop.len(), 3);
    Engine::kill_last(&mut pop, 9 * UNIT);
    assert_eq!(pop.len(), 0);
}

#[test]
fn mutation_spares_the_leading_survivors() {
    let mut rng = seeded(12);
    let mut pop = Vec::new();
    for tag in 0..6 {
        pop.push(tagged(UNIT + tag, tag));
    }
    Engine::mutate_average(&mut pop, 2 * UNIT + 1, HALF, &mut rng);
    assert_eq!(pop.len(), 6);
    for tag in 0..4usize {
        assert_eq!(pop[tag].genes, vec![UNIT + tag as i64; 4]);
        assert_eq!(pop[tag].score, tag as i64);
    }
    for tag in 4..6usize {
        assert_ne!(pop[tag].genes, vec![UNIT + tag as i64; 4]);
        assert_eq!(pop[tag].score, tag as i64);
    }
}

#[test]
fn a_large_elite_count_mutates_everyone() {
    let mut rng = seeded(13);
    let mut pop = Vec::new();
    for tag in 0..5 {
        pop.push(tagged(UNIT + tag, 0));
    }
    Engine::mutate_average(&mut pop, 40 * UNIT, HALF, &mut rng);
    for tag in 0..5usize {
        assert_ne!(pop[tag].genes, vec![UNIT + tag as i64; 4]);
    }
    let mut none = vec![tagged(UNIT, 0), tagged(UNIT, 0)];
    Engine::mutate_average(&mut none, 999_999, HALF, &mut rng);
    assert_eq!(none[0].genes, vec![UNIT; 4]);
    assert_eq!(none[1].genes, vec![UNIT; 4]);
}

#[test]
fn pairs_of_neighbours_breed_in_turn() {
    let mut rng = seeded(14);
    let mut pop = vec![tagged(0, 5), tagged(10, 4), tagged(20, 3)];
    // 2.5 * 3 = 7.5: seven children
    Engine::make_childs(&mut pop, 2 * UNIT + HALF, &mut rng);
    assert_eq!(pop.len(), 10);
    assert_eq!(pop[0].genes, vec![0; 4]);
    assert_eq!(pop[2].genes, vec![20; 4]);
    for k in 0..7usize {
        let first = (k % 2) as i64 * 10;
        let child = &pop[3 + k];
        assert_eq!(child.score, 0);
        assert_eq!(child.genes.len(), 4);
        assert!(child.genes.iter().all(|g| *g == first || *g == first + 10));
    }
}

#[test]
fn ranking_scores_everyone_afresh() {
    let mut problem = EasyProblem { numbers: vec![UNIT] };
    let mut pop = vec![
        GenericSol::from_vec(vec![5 * UNIT]),
        GenericSol::from_vec(vec![UNIT]),
        GenericSol::from_vec(vec![2 * UNIT]),
    ];
    pop[0].add_score(1_000 * UNIT);
    let mut played = 40u64;
    Engine::sort_pop(&mut pop, &mut problem, &mut played);
    assert_eq!(played, 43);
    assert_eq!(pop[0].genes, vec![UNIT]);
    assert_eq!(pop[0].score, 100 * UNIT);
    assert_eq!(pop[1].genes, vec![2 * UNIT]);
    assert_eq!(pop[1].score, 99 * UNIT);
    assert_eq!(pop[2].genes, vec![5 * UNIT]);
    assert_eq!(pop[2].score, 96 * UNIT);
    let mut full = u64::MAX - 1;
    Engine::sort_pop(&mut pop, &mut problem, &mut full);
    assert_eq!(full, u64::MAX);
}

#[test]
fn statistics_are_read_at_fixed_places() {
    let mut pop = Vec::new();
    for k in 0..10 {
        pop.push(tagged(k, 100 - k));
    }
    let mut res = metaevo::stats::GenResult::new();
    Engine::update_res(&pop, &mut res);
    assert_eq!(res.max, 100);
    assert_eq!(res.min, 91);
    assert_eq!(res.q1, 98);
    assert_eq!(res.med, 95);
    assert_eq!(res.q3, 93);
}

#[test]
fn the_best_is_found_without_order() {
    let mut rng = seeded(15);
    let mut e = Engine::initiate(4, &mut rng);
    let scores = [3, 9, -1, 9, 2, 8];
    e.pop.truncate(6);
    for (k, score) in scores.iter().enumerate() {
        e.pop[k].reset_score();
        e.pop[k].add_score(*score);
    }
    let best = e.best();
    assert_eq!(best.score, 9);
    assert!(std::ptr::eq(best, &e.pop[3]));
    e.pop.truncate(1);
    assert!(std::ptr::eq(e.best(), &e.pop[0]));
}

#[test]
fn the_best_of_a_ranked_population_scores_highest() {
    let mut rng = seeded(16);
    let mut e = Engine::initiate(4, &mut rng);
    e.next_gen(ParamChoice::same());
    let top = e.best().score;
    assert!(e.pop.iter().all(|s| s.score <= top));
    assert_eq!(top, e.last_res.max);
}

#[test]
fn the_engine_as_a_step_by_step_problem() {
    let mut rng = seeded(17);
    let mut e = <Engine as GenericProblem>::random(&mut rng, &5);
    assert_eq!(e.max_step(), Some(20));
    assert_eq!(e.input_space(), 6);
    assert_eq!(e.output_space(), 15);
    assert!(!e.is_solved());
    assert_eq!(ManyStepProblem::evaluate(&e), 0);
    assert_eq!(e.get_state(), vec![0; 15]);
    let step = vec![0, HALF, HALF, HALF, HALF, 0];
    for _ in 0..6 {
        e.make_step(&step);
    }
    assert_eq!(e.individuals_played, 150);
    assert!(!e.is_solved());
    e.make_step(&step);
    assert!(e.is_solved());
    let state = e.get_state();
    assert_eq!(state.len(), 15);
    assert_eq!(state[0], UNIT);
    assert_eq!(state[4], 0);
    let max = e.last_res.max as i128;
    let expected = (max * max / 1_000_000) * 1_000_000 / (175 * 1_000_000);
    assert_eq!(ManyStepProblem::evaluate(&e) as i128, expected);
}

#[test]
fn a_copy_of_the_engine_evolves_alike() {
    let mut rng = seeded(18);
    let mut e = Engine::initiate(5, &mut rng);
    e.next_gen(ParamChoice::same());
    let mut copy = e.duplicate();
    assert_eq!(snapshot(&copy), snapshot(&e));
    e.next_gen(ParamChoice::same());
    copy.next_gen(ParamChoice::same());
    assert_eq!(snapshot(&copy), snapshot(&e));
}
