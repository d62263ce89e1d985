use metaevo::problems::GenericSol;
use metaevo::rank::{precedes, sort_by_score};

fn scored(score: i64, tag: i64) -> GenericSol {
    let mut s = GenericSol::from_vec(vec![tag]);
    s.add_score(score);
    s
}

fn tags(v: &Vec<GenericSol>) -> Vec<(i64, i64)> {
    let mut out = Vec::new();
    for s in v.iter() {
        out.push((s.score, s.genes[0]));
    }
    out
}

#[test]
fn the_best_comes_first() {
    let mut v = vec![scored(3, 0), scored(9, 1), scored(-4, 2), scored(7, 3)];
    sort_by_score(&mut v, true);
    assert_eq!(tags(&v), vec![(9, 1), (7, 3), (3, 0), (-4, 2)]);
}

#[test]
fn the_worst_comes_first() {
    let mut v = vec![scored(3, 0), scored(9, 1), scored(-4, 2), scored(7, 3)];
    sort_by_score(&mut v, false);
    assert_eq!(tags(&v), vec![(-4, 2), (3, 0), (7, 3), (9, 1)]);
}

#[test]
fn equal_scores_keep_their_order() {
    let mut v = vec![scored(5, 0), scored(1, 1), scored(5, 2), scored(1, 3), scored(5, 4)];
    sort_by_score(&mut v, true);
    assert_eq!(tags(&v), vec![(5, 0), (5, 2), (5, 4), (1, 1), (1, 3)]);
    sort_by_score(&mut v, false);
    assert_eq!(tags(&v), vec![(1, 1), (1, 3), (5, 0), (5, 2), (5, 4)]);
}

#[test]
fn short_vectors_are_left_alone() {
    let mut none: Vec<GenericSol> = Vec::new();
    sort_by_score(&mut none, true);
    assert!(none.is_empty());
    let mut one = vec![scored(1, 7)];
    sort_by_score(&mut one, false);
    assert_eq!(tags(&one), vec![(1, 7)]);
}

#[test]
fn order_of_two_scores() {
    assert!(precedes(2, 1, true));
    assert!(precedes(1, 1, true));
    assert!(!precedes(1, 2, true));
    assert!(precedes(1, 2, false));
    assert!(!precedes(2, 1, false));
}
