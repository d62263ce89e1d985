use metaevo::algogen::AlgoGen;
use metaevo::fixed::{HALF, UNIT};
use metaevo::params::{COEF_MODIFICATOR, PERCENT_ELITE, STARTING_COEF, TEST_DATA_SIZE};
use metaevo::problems::easyproblem::EasyProblem;
use metaevo::problems::{GenericProblem, ManyStepProblem};
use metaevo::reilearn::{
    judge, label_ranked, perturb, play_for, play_out, sum_scores, teach, Choice, LearnParams,
    ReiLearn, Test, Verdict,
};
use rand::prng::XorShiftRng;
use rand::SeedableRng;

type Engine = AlgoGen<EasyProblem>;

fn seeded(seed: u8) -> XorShiftRng {
    XorShiftRng::from_seed([seed; 16])
}

fn neutral(_state: &Vec<i64>) -> Vec<i64> {
    vec![0, HALF, HALF, HALF, HALF, 0]
}

fn settings(nb_problems: usize, test_per_prob: usize) -> LearnParams {
    LearnParams::new(nb_problems, test_per_prob, 2, STARTING_COEF, COEF_MODIFICATOR, PERCENT_ELITE)
}

fn game(score: i64, steps: usize) -> (i64, Vec<Choice>) {
    let mut choices = Vec::new();
    for step in 0..steps {
        choices.push(Choice::new(vec![score, step as i64], vec![1, 2], vec![200_000, UNIT]));
    }
    (score, choices)
}

fn pairs(tests: &Vec<Test>) -> Vec<(Vec<i64>, Vec<i64>)> {
    let mut out = Vec::new();
    for t in tests.iter() {
        out.push((t.inputs.clone(), t.outputs.clone()));
    }
    out
}

#[test]
fn a_good_step_teaches_itself() {
    let t = Choice::new(vec![1, 2, 3], vec![4, 5], vec![250_000, UNIT]).into_good_test();
    assert_eq!(t.inputs, vec![1, 2, 3]);
    assert_eq!(t.outputs, vec![250_000, UNIT]);
}

#[test]
fn a_bad_step_teaches_its_opposite() {
    let t = Choice::new(vec![1, 2, 3], vec![4, 5], vec![250_000, UNIT, 0]).into_bad_test();
    assert_eq!(t.inputs, vec![1, 2, 3]);
    assert_eq!(t.outputs, vec![750_000, 0, UNIT]);
}

#[test]
fn the_verdict_goes_by_the_place() {
    assert!(matches!(judge(0, 2, 47), Verdict::Bad));
    assert!(matches!(judge(1, 2, 47), Verdict::Bad));
    assert!(matches!(judge(2, 2, 47), Verdict::Neutral));
    assert!(matches!(judge(47, 2, 47), Verdict::Neutral));
    assert!(matches!(judge(48, 2, 47), Verdict::Good));
    assert!(matches!(judge(0, 0, -1), Verdict::Good));
    assert!(matches!(judge(0, 1, -1), Verdict::Bad));
}

#[test]
fn a_playout_teaches_by_its_verdict() {
    let mut tests = vec![Test { inputs: vec![9], outputs: vec![9] }];
    teach(&mut tests, game(5, 2).1, Verdict::Neutral);
    assert_eq!(tests.len(), 1);
    teach(&mut tests, game(5, 2).1, Verdict::Good);
    teach(&mut tests, game(6, 1).1, Verdict::Bad);
    assert_eq!(
        pairs(&tests),
        vec![
            (vec![9], vec![9]),
            (vec![5, 0], vec![200_000, UNIT]),
            (vec![5, 1], vec![200_000, UNIT]),
            (vec![6, 0], vec![800_000, 0]),
        ]
    );
}

#[test]
fn fifty_playouts_give_two_bad_and_two_good() {
    let mut games = Vec::new();
    for score in 0..50 {
        games.push(game(score, 3));
    }
    let tests = label_ranked(games, PERCENT_ELITE);
    assert_eq!(tests.len(), 4 * 3);
    let mut bad = Vec::new();
    let mut good = Vec::new();
    for t in tests.iter() {
        if t.outputs == vec![800_000, 0] {
            bad.push(t.inputs[0]);
        } else {
            assert_eq!(t.outputs, vec![200_000, UNIT]);
            good.push(t.inputs[0]);
        }
    }
    assert_eq!(bad, vec![0, 0, 0, 1, 1, 1]);
    assert_eq!(good, vec![48, 48, 48, 49, 49, 49]);
}

#[test]
fn few_playouts_teach_nothing() {
    let games = vec![game(1, 1), game(2, 1), game(3, 1)];
    // the share of 3 is none: nobody is bad, nobody is good
    assert_eq!(label_ranked(games, PERCENT_ELITE).len(), 0);
    assert_eq!(label_ranked(Vec::new(), PERCENT_ELITE).len(), 0);
}

#[test]
fn as_many_playouts_are_good_as_are_bad() {
    let games = vec![game(1, 1), game(2, 1), game(3, 1), game(4, 1)];
    // one half of four: two bad, two good
    let tests = label_ranked(games, HALF);
    assert_eq!(
        pairs(&tests),
        vec![
            (vec![1, 0], vec![800_000, 0]),
            (vec![2, 0], vec![800_000, 0]),
            (vec![3, 0], vec![200_000, UNIT]),
            (vec![4, 0], vec![200_000, UNIT]),
        ]
    );
    let games = vec![game(1, 1), game(2, 1), game(3, 1), game(4, 1), game(5, 1)];
    // one half of five: two bad, two good, the middle one teaches nothing
    let tests = label_ranked(games, HALF);
    assert_eq!(
        pairs(&tests),
        vec![
            (vec![1, 0], vec![800_000, 0]),
            (vec![2, 0], vec![800_000, 0]),
            (vec![4, 0], vec![200_000, UNIT]),
            (vec![5, 0], vec![200_000, UNIT]),
        ]
    );
}

#[test]
fn twenty_playouts_give_one_bad_and_one_good() {
    let mut games = Vec::new();
    for score in 0..20 {
        games.push((
            score * UNIT,
            vec![Choice::new(vec![score * UNIT], vec![HALF], vec![250_000])],
        ));
    }
    let tests = label_ranked(games, PERCENT_ELITE);
    assert_eq!(
        pairs(&tests),
        vec![(vec![0], vec![750_000]), (vec![19 * UNIT], vec![250_000])]
    );
}

#[test]
fn a_hundred_playouts_give_five_bad_and_five_good() {
    let mut games = Vec::new();
    for score in 0..100 {
        games.push(game(score, 1));
    }
    let tests = label_ranked(games, PERCENT_ELITE);
    let mut bad = Vec::new();
    let mut good = Vec::new();
    for t in tests.iter() {
        if t.outputs == vec![800_000, 0] {
            bad.push(t.inputs[0]);
        } else {
            assert_eq!(t.outputs, vec![200_000, UNIT]);
            good.push(t.inputs[0]);
        }
    }
    assert_eq!(bad, vec![0, 1, 2, 3, 4]);
    assert_eq!(good, vec![95, 96, 97, 98, 99]);
}

#[test]
fn a_share_beyond_one_half_makes_the_lower_end_bad_first() {
    let games = vec![game(1, 1), game(2, 1), game(3, 1), game(4, 1)];
    // three quarters of four: three bad, and of the three at the upper end
    // only the one that is not bad is good
    let tests = label_ranked(games, 750_000);
    assert_eq!(
        pairs(&tests),
        vec![
            (vec![1, 0], vec![800_000, 0]),
            (vec![2, 0], vec![800_000, 0]),
            (vec![3, 0], vec![800_000, 0]),
            (vec![4, 0], vec![200_000, UNIT]),
        ]
    );
}

#[test]
fn playouts_are_ranked_before_they_teach() {
    let rl = ReiLearn::<Engine>::new(2, settings(1, 50), seeded(1));
    let mut games = Vec::new();
    for k in 0..50 {
        games.push(game((k * 7) % 50, 1));
    }
    let tests = rl.gen_tests_from_choices(games);
    assert_eq!(
        pairs(&tests),
        vec![
            (vec![0, 0], vec![800_000, 0]),
            (vec![1, 0], vec![800_000, 0]),
            (vec![48, 0], vec![200_000, UNIT]),
            (vec![49, 0], vec![200_000, UNIT]),
        ]
    );
}

#[test]
fn exploration_adds_noise_and_clamps() {
    // 0.5 + (0.75 - 0.5) * 1
    assert_eq!(perturb(HALF, 750_000, UNIT), 750_000);
    // 0.5 + (0.25 - 0.5) * 0.4
    assert_eq!(perturb(HALF, 250_000, 400_000), 400_000);
    assert_eq!(perturb(900_000, 999_999, UNIT), UNIT);
    assert_eq!(perturb(100_000, 0, UNIT), 0);
    assert_eq!(perturb(HALF, 123_456, 0), HALF);
    assert_eq!(perturb(7 * UNIT, HALF, UNIT), UNIT);
    assert_eq!(perturb(-7 * UNIT, HALF, UNIT), 0);
}

#[test]
fn a_proposal_is_perturbed_within_half_the_coefficient() {
    let mut rl = ReiLearn::<Engine>::new(2, settings(1, 1), seeded(2));
    rl.coef = 200_000;
    let proposal = vec![HALF; 300];
    let out = rl.modify_outputs(&proposal);
    assert_eq!(out.len(), 300);
    assert!(out.iter().all(|v| 400_000 <= *v && *v < 600_000));
    assert!(out.iter().any(|v| *v != out[0]));
    assert_eq!(rl.coef, 200_000);
    rl.coef = 0;
    assert_eq!(rl.modify_outputs(&proposal), proposal);
}

#[test]
fn a_training_loop_starts_with_held_out_problems() {
    let rl = ReiLearn::<Engine>::new(3, settings(4, 5), seeded(3));
    assert_eq!(rl.get_test_problems().len(), TEST_DATA_SIZE);
    assert_eq!(rl.coef, STARTING_COEF);
    assert_eq!(rl.params.nb_problems, 4);
    assert_eq!(rl.params.test_per_prob, 5);
    assert_eq!(rl.params.max_gen, 2);
    assert_eq!(rl.params.percent_elite, PERCENT_ELITE);
    assert_eq!(rl.problem_confs, 3);
    assert_eq!(rl.get_test_problems()[0].pop.len(), 25);
}

#[test]
fn a_playout_without_exploration_stops_when_solved() {
    let mut rng = seeded(4);
    let mut e = Engine::random(&mut rng, &3);
    let steps = play_out(&mut e, &neutral);
    // 25 individuals a generation: solved once more than 150 were played
    assert_eq!(steps, 7);
    assert_eq!(e.individuals_played, 175);
}

#[test]
fn a_playout_records_every_step() {
    let mut rl = ReiLearn::<Engine>::new(3, settings(1, 1), seeded(5));
    rl.coef = 0;
    let mut rng = seeded(6);
    let problem = Engine::random(&mut rng, &3);
    let (score, choices) = rl.play_problem(problem, &neutral);
    assert_eq!(choices.len(), 7);
    assert!(score > 0);
    assert_eq!(choices[0].inputs, vec![0; 15]);
    for c in choices.iter() {
        assert_eq!(c.inputs.len(), 15);
        assert_eq!(c.outputs, vec![0, HALF, HALF, HALF, HALF, 0]);
        assert_eq!(c.choice, c.outputs);
    }
    assert_eq!(choices[1].inputs[0], UNIT);
}

#[test]
fn a_playout_with_exploration_stays_in_the_unit_interval() {
    let mut rl = ReiLearn::<Engine>::new(3, settings(1, 1), seeded(7));
    let mut rng = seeded(8);
    let problem = Engine::random(&mut rng, &3);
    let (_, choices) = rl.play_problem(problem, &neutral);
    assert!(1 <= choices.len() && choices.len() <= 20);
    for c in choices.iter() {
        assert_eq!(c.choice.len(), c.outputs.len());
        assert!(c.choice.iter().all(|v| 0 <= *v && *v <= UNIT));
    }
    assert!(choices.iter().any(|c| c.choice != c.outputs));
}

#[test]
fn the_tests_of_one_problem_come_from_both_ends() {
    let mut rl = ReiLearn::<Engine>::new(3, settings(1, 50), seeded(9));
    let mut rng = seeded(10);
    let problem = Engine::random(&mut rng, &3);
    let tests = rl.gen_tests_for_prob(problem, &neutral);
    assert!(tests.len() >= 4);
    assert!(tests.len() <= 4 * 20);
    for t in tests.iter() {
        assert_eq!(t.inputs.len(), 15);
        assert_eq!(t.outputs.len(), 6);
        assert!(t.outputs.iter().all(|v| 0 <= *v && *v <= UNIT));
    }
}

#[test]
fn the_fit_is_bounded_by_the_number_of_examples() {
    let mut rl = ReiLearn::<Engine>::new(2, settings(1, 1), seeded(11));
    let mut tests = Vec::new();
    for k in 0..450 {
        tests.push(Test { inputs: vec![k], outputs: vec![k % 2] });
    }
    let plan = rl.reinforce(tests);
    assert_eq!(plan.gradient_descent_iters, 20);
    assert_eq!(plan.gradient_descent_step, 10_000);
    assert_eq!(plan.gradient_descent_nb_batches, 2);
    assert_eq!(plan.lvbm_nb_batches, 9);
    assert_eq!(plan.aim_score, 50_000);
    assert_eq!(plan.max_iter, 2);
    assert_eq!(plan.lvbm_max_iters, 25);
    let mut order = Vec::new();
    for t in plan.examples.iter() {
        assert_eq!(t.outputs, vec![t.inputs[0] % 2]);
        order.push(t.inputs[0]);
    }
    let in_order: Vec<i64> = (0..450).collect();
    assert_ne!(order, in_order);
    order.sort();
    assert_eq!(order, in_order);
}

#[test]
fn a_round_lowers_the_exploration_coefficient() {
    let mut rl = ReiLearn::<Engine>::new(2, settings(2, 50), seeded(12));
    let plan = rl.next_gen(&neutral);
    assert_eq!(rl.coef, 950_000);
    assert!(plan.examples.len() >= 2 * 4);
    assert_eq!(plan.gradient_descent_nb_batches, plan.examples.len() / 200);
    assert_eq!(plan.lvbm_nb_batches, plan.examples.len() / 50);
    assert_eq!(plan.max_iter, 2);
    assert!(plan.examples.iter().all(|t| t.outputs.iter().all(|v| 0 <= *v && *v <= UNIT)));
    assert_eq!(rl.get_test_problems().len(), TEST_DATA_SIZE);
}

#[test]
fn the_coefficient_anneals_geometrically() {
    let mut rl = ReiLearn::<Engine>::new(2, settings(0, 0), seeded(13));
    let mut exact = 1.0f64;
    for round in 1..=30 {
        let plan = rl.next_gen(&neutral);
        assert!(plan.examples.is_empty());
        exact *= 0.95;
        let coef = rl.coef as f64 / 1_000_000.0;
        assert!(coef <= exact + 1e-12);
        assert!(exact - coef < round as f64 * 1e-6);
    }
    assert_eq!(rl.coef, 214_632);
}

#[test]
fn the_first_rounds_of_annealing_are_exact() {
    let mut rl = ReiLearn::<Engine>::new(2, settings(0, 0), seeded(14));
    rl.next_gen(&neutral);
    assert_eq!(rl.coef, 950_000);
    rl.next_gen(&neutral);
    assert_eq!(rl.coef, 902_500);
    rl.next_gen(&neutral);
    assert_eq!(rl.coef, 857_375);
    rl.next_gen(&neutral);
    assert_eq!(rl.coef, 814_506);
}

#[test]
fn measuring_leaves_the_training_state_alone() {
    let mut params = settings(1, 1);
    params.starting_coef = 123;
    let rl = ReiLearn::<Engine>::new(2, params, seeded(15));
    let first = rl.run_on_test_example(&neutral);
    let second = rl.run_on_test_example(&neutral);
    assert_eq!(first, second);
    assert!(first > 0);
    assert_eq!(rl.coef, 123);
    assert_eq!(rl.get_test_problems()[0].individuals_played, 0);
}

#[test]
fn scores_add_up_and_saturate() {
    assert_eq!(sum_scores(&vec![]), 0);
    assert_eq!(sum_scores(&vec![3, -5, 10]), 8);
    assert_eq!(sum_scores(&vec![i64::MAX, 5, -7]), i64::MAX - 7);
}

#[test]
fn the_held_out_score_is_the_sum_over_the_problems() {
    let rl = ReiLearn::<Engine>::new(2, settings(1, 1), seeded(16));
    let mut reached = Vec::new();
    for p in rl.get_test_problems().iter() {
        let mut copy = p.duplicate();
        play_out(&mut copy, &neutral);
        reached.push(metaevo::problems::ManyStepProblem::evaluate(&copy));
    }
    assert_eq!(reached.len(), TEST_DATA_SIZE);
    assert_eq!(rl.run_on_test_example(&neutral), sum_scores(&reached));
}

#[test]
fn a_playout_stops_at_the_horizon_it_is_given() {
    let mut rng = seeded(17);
    let mut e = Engine::random(&mut rng, &3);
    assert_eq!(play_for(&mut e, &neutral, 3), 3);
    assert_eq!(e.individuals_played, 75);
    assert_eq!(play_for(&mut e, &neutral, 0), 0);
    assert_eq!(e.individuals_played, 75);
    // four more generations pass 150 evaluations
    assert_eq!(play_for(&mut e, &neutral, 20), 4);
    assert_eq!(e.individuals_played, 175);
}

#[test]
fn a_step_records_the_state_and_applies_the_action() {
    let mut rl = ReiLearn::<Engine>::new(3, settings(1, 1), seeded(18));
    rl.coef = 0;
    let mut rng = seeded(19);
    let mut prob = Engine::random(&mut rng, &3);
    prob.make_step(&neutral(&vec![]));
    let state = metaevo::problems::ManyStepProblem::get_state(&prob);
    let kills = prob.params.kills;
    // kills: 20 + 20 * (0.75 - 0.5) * 1 = 25, held to 25 - 2
    let policy = |_state: &Vec<i64>| vec![UNIT, HALF, HALF, 750_000, HALF, 0];
    let c = rl.make_choice(&mut prob, &policy);
    assert_eq!(kills, 20 * UNIT);
    assert_eq!(c.inputs, state);
    assert_eq!(c.outputs, vec![UNIT, HALF, HALF, 750_000, HALF, 0]);
    assert_eq!(c.choice, c.outputs);
    assert_eq!(prob.params.kills, 23 * UNIT);
    assert_eq!(prob.individuals_played, 25 + prob.pop.len() as u64);
}

#[test]
fn an_exploring_step_applies_the_perturbed_action() {
    let mut rl = ReiLearn::<Engine>::new(3, settings(1, 1), seeded(20));
    let mut rng = seeded(21);
    let mut prob = Engine::random(&mut rng, &3);
    let mut twin = prob.duplicate();
    let c = rl.make_choice(&mut prob, &neutral);
    assert_ne!(c.choice, c.outputs);
    twin.make_step(&c.choice);
    assert_eq!(prob.params.global, c.choice[0]);
    assert_eq!(prob.params.kills, twin.params.kills);
    assert_eq!(prob.params.birth_rate, twin.params.birth_rate);
    assert_eq!(prob.pop.len(), twin.pop.len());
}

#[test]
fn a_playout_returns_the_score_it_ended_at() {
    let mut rl = ReiLearn::<Engine>::new(3, settings(1, 1), seeded(22));
    rl.coef = 0;
    let mut rng = seeded(23);
    let problem = Engine::random(&mut rng, &3);
    let mut twin = problem.duplicate();
    let mut states = Vec::new();
    for _ in 0..20 {
        let state = metaevo::problems::ManyStepProblem::get_state(&twin);
        twin.make_step(&neutral(&state));
        states.push(state);
        if metaevo::problems::ManyStepProblem::is_solved(&twin) {
            break;
        }
    }
    let (score, choices) = rl.play_problem(problem, &neutral);
    assert_eq!(score, metaevo::problems::ManyStepProblem::evaluate(&twin));
    assert_eq!(choices.len(), states.len());
    assert!(choices.len() < 20);
    for (c, state) in choices.iter().zip(states.iter()) {
        assert_eq!(&c.inputs, state);
    }
}

#[test]
fn a_round_teaches_from_every_problem_it_samples() {
    let mut rl = ReiLearn::<Engine>::new(2, settings(3, 20), seeded(24));
    let plan = rl.next_gen(&neutral);
    // of twenty playouts one is bad and one is good, each of one step at least
    assert!(plan.examples.len() >= 3 * 2);
    assert!(plan.examples.len() <= 3 * 2 * 20);
    for t in plan.examples.iter() {
        assert_eq!(t.inputs.len(), 15);
        assert_eq!(t.outputs.len(), 6);
    }
}
