use metaevo::fixed::UNIT;
use metaevo::stats::{scale, GenResult, GEN_RESULT_SIZE};

#[test]
fn fresh_statistics_are_zero() {
    let g = GenResult::new();
    assert_eq!((g.max, g.min, g.q1, g.med, g.q3), (0, 0, 0, 0, 0));
    assert_eq!(g.max5, [0; 5]);
    assert_eq!(g.med5, [0; 5]);
}

#[test]
fn the_history_is_one_generation_behind() {
    let mut g = GenResult::new();
    g.update(10, 1, 3, 5, 7);
    assert_eq!((g.max, g.min, g.q1, g.med, g.q3), (10, 1, 3, 5, 7));
    assert_eq!(g.max5, [0, 0, 0, 0, 0]);
    assert_eq!(g.med5, [0, 0, 0, 0, 0]);
    g.update(20, 2, 4, 6, 8);
    assert_eq!(g.max5, [0, 0, 0, 0, 10]);
    assert_eq!(g.med5, [0, 0, 0, 0, 5]);
    g.update(30, 2, 4, 16, 8);
    assert_eq!(g.max5, [0, 0, 0, 10, 20]);
    assert_eq!(g.med5, [0, 0, 0, 5, 6]);
}

#[test]
fn the_history_drops_its_oldest_value() {
    let mut g = GenResult::new();
    for k in 1..=7 {
        g.update(k * 10, 0, 0, k, 0);
    }
    assert_eq!(g.max, 70);
    assert_eq!(g.max5, [20, 30, 40, 50, 60]);
    assert_eq!(g.med5, [2, 3, 4, 5, 6]);
}

#[test]
fn a_score_is_projected_onto_the_span() {
    assert_eq!(scale(5 * UNIT, 0, 10 * UNIT), 500_000);
    assert_eq!(scale(10 * UNIT, 0, 10 * UNIT), UNIT);
    assert_eq!(scale(0, 0, 10 * UNIT), 0);
    assert_eq!(scale(1 * UNIT, 0, 3 * UNIT), 333_333);
    assert_eq!(scale(-5 * UNIT, -10 * UNIT, 10 * UNIT), 250_000);
    assert_eq!(scale(7, 7, 7), 0);
    assert_eq!(scale(123, 7, 7), 0);
}

#[test]
fn the_projection_lists_the_fields_then_both_histories() {
    let g = GenResult {
        max: 100,
        min: 0,
        q1: 25,
        med: 50,
        q3: 75,
        max5: [10, 20, 30, 40, 60],
        med5: [1, 2, 3, 4, 5],
    };
    let v = g.into_vector();
    assert_eq!(v.len(), GEN_RESULT_SIZE);
    assert_eq!(
        v,
        vec![
            UNIT, 500_000, 250_000, 750_000, 0, 100_000, 200_000, 300_000, 400_000, 600_000,
            10_000, 20_000, 30_000, 40_000, 50_000
        ]
    );
}

#[test]
fn the_projection_lies_in_the_unit_interval() {
    let g = GenResult {
        max: 97 * UNIT,
        min: -13 * UNIT,
        q1: -2 * UNIT,
        med: 31 * UNIT,
        q3: 64 * UNIT,
        max5: [-13 * UNIT, 0, 50 * UNIT, 96 * UNIT, 97 * UNIT],
        med5: [-13 * UNIT, -1, 1, 30 * UNIT, 31 * UNIT],
    };
    for entry in g.into_vector() {
        assert!(0 <= entry && entry <= UNIT);
    }
}

#[test]
fn a_flat_population_projects_to_zero() {
    let g = GenResult {
        max: 42,
        min: 42,
        q1: 42,
        med: 42,
        q3: 42,
        max5: [1, 2, 3, 4, 5],
        med5: [-1, -2, -3, -4, -5],
    };
    assert_eq!(g.into_vector(), vec![0; 15]);
    assert_eq!(GenResult::new().into_vector(), vec![0; 15]);
}
