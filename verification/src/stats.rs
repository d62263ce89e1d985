//! The statistics of one generation's scores, with a short history, and
//! their projection onto the unit interval.

use crate::fixed::{diff, fx_div, fx_sub, ratio, UNIT};
use vstd::prelude::*;

verus! {

/// The width of the vector that the statistics project to.
pub const GEN_RESULT_SIZE: usize = 15;

/// The score distribution of the current generation, and the best and the
/// median score of the five generations before it.
#[derive(Debug, Clone, Copy)]
pub struct GenResult {
    pub max: i64,
    pub min: i64,
    pub q1: i64,
    pub med: i64,
    pub q3: i64,
    /// Earlier best scores, the oldest first.
    pub max5: [i64; 5],
    /// Earlier median scores, the oldest first.
    pub med5: [i64; 5],
}

/// A history after one more value: the oldest leaves, the new one comes last.
pub open spec fn shifted(history: Seq<i64>, newest: i64) -> Seq<i64>
    recommends
        history.len() == 5,
{
    history.subrange(1, 5).push(newest)
}

/// Where `a` lies between `min` and `max`, as a fraction; zero where the
/// two coincide.
pub open spec fn scaled(a: int, min: int, max: int) -> int {
    if min == max {
        0
    } else {
        ratio(diff(a, min), diff(max, min))
    }
}

/// Whether `a` lies between the two bounds, whichever of them is the larger.
pub open spec fn between(a: int, min: int, max: int) -> bool {
    (min <= a <= max) || (max <= a <= min)
}

/// Projects a score onto the span from `min` to `max`.
pub fn scale(a: i64, min: i64, max: i64) -> (r: i64)
    ensures
        r as int == scaled(a as int, min as int, max as int),
{
    if min == max {
        0
    } else {
        fx_div(fx_sub(a, min), fx_sub(max, min))
    }
}

impl GenResult {
    /// The projection: best, median, first quartile, third quartile and
    /// worst score, then the history of the best and that of the median.
    pub open spec fn normalized(self) -> Seq<i64> {
        Seq::new(
            15,
            |i: int|
                scaled(self.raw(i) as int, self.min as int, self.max as int) as i64,
        )
    }

    /// The fields in the order of the projection.
    pub open spec fn raw(self, i: int) -> i64 {
        if i == 0 {
            self.max
        } else if i == 1 {
            self.med
        } else if i == 2 {
            self.q1
        } else if i == 3 {
            self.q3
        } else if i == 4 {
            self.min
        } else if 5 <= i < 10 {
            self.max5@[i - 5]
        } else {
            self.med5@[i - 10]
        }
    }

    /// Whether these are the statistics that follow `prev` after a
    /// generation with the given scores: both histories have taken in the
    /// values that were current in `prev`.
    pub open spec fn follows(self, prev: GenResult, max: i64, min: i64, q1: i64, med: i64, q3: i64) -> bool {
        &&& self.max == max
        &&& self.min == min
        &&& self.q1 == q1
        &&& self.med == med
        &&& self.q3 == q3
        &&& self.max5@ == shifted(prev.max5@, prev.max)
        &&& self.med5@ == shifted(prev.med5@, prev.med)
    }

    /// Whether every field, and every entry of both histories, lies between
    /// the worst and the best score.
    pub open spec fn within_span(self) -> bool {
        forall|i: int| 0 <= i < 15 ==> between(#[trigger] self.raw(i) as int, self.min as int, self.max as int)
    }

    /// Whether every field, and every entry of both histories, is zero.
    pub open spec fn flat(self) -> bool {
        &&& self.max == 0
        &&& self.min == 0
        &&& self.q1 == 0
        &&& self.med == 0
        &&& self.q3 == 0
        &&& self.max5@ == seq![0i64, 0i64, 0i64, 0i64, 0i64]
        &&& self.med5@ == seq![0i64, 0i64, 0i64, 0i64, 0i64]
    }

    /// The statistics before any generation: all zero.
    pub fn new() -> (r: Self)
        ensures
            r.flat(),
    {
        let r = GenResult { max: 0, min: 0, q1: 0, med: 0, q3: 0, max5: [0, 0, 0, 0, 0], med5: [0, 0, 0, 0, 0] };
        assert(r.max5@ =~= seq![0i64, 0i64, 0i64, 0i64, 0i64]);
        assert(r.med5@ =~= seq![0i64, 0i64, 0i64, 0i64, 0i64]);
        r
    }

    /// Takes in the scores of a new generation.
    pub fn update(&mut self, max: i64, min: i64, q1: i64, med: i64, q3: i64)
        ensures
            final(self).follows(*old(self), max, min, q1, med, q3),
    {
        let max5: [i64; 5] = [self.max5[1], self.max5[2], self.max5[3], self.max5[4], self.max];
        let med5: [i64; 5] = [self.med5[1], self.med5[2], self.med5[3], self.med5[4], self.med];
        assert(max5@ =~= shifted(self.max5@, self.max));
        assert(med5@ =~= shifted(self.med5@, self.med));
        self.max5 = max5;
        self.med5 = med5;
        self.max = max;
        self.min = min;
        self.med = med;
        self.q1 = q1;
        self.q3 = q3;
    }

    /// Projects the statistics onto the unit interval.
    pub fn into_vector(self) -> (v: Vec<i64>)
        ensures
            v@ == self.normalized(),
    {
        let mut v: Vec<i64> = Vec::new();
        v.push(scale(self.max, self.min, self.max));
        v.push(scale(self.med, self.min, self.max));
        v.push(scale(self.q1, self.min, self.max));
        v.push(scale(self.q3, self.min, self.max));
        v.push(scale(self.min, self.min, self.max));
        let mut i: usize = 0;
        while i < 5
            invariant
                i <= 5,
                v@.len() == 5 + i,
                forall|k: int| 0 <= k < 5 + i ==> v@[k] == self.normalized()[k],
            decreases 5 - i,
        {
            v.push(scale(self.max5[i], self.min, self.max));
            i += 1;
        }
        let mut j: usize = 0;
        while j < 5
            invariant
                j <= 5,
                v@.len() == 10 + j,
                forall|k: int| 0 <= k < 10 + j ==> v@[k] == self.normalized()[k],
            decreases 5 - j,
        {
            v.push(scale(self.med5[j], self.min, self.max));
            j += 1;
        }
        assert(v@ =~= self.normalized());
        v
    }
}

/// A score between two distinct bounds projects into the unit interval.
pub proof fn lemma_scaled_in_unit(a: int, min: int, max: int)
    requires
        i64::MIN <= a <= i64::MAX,
        i64::MIN <= min <= i64::MAX,
        i64::MIN <= max <= i64::MAX,
        min != max,
        between(a, min, max),
    ensures
        0 <= scaled(a, min, max) <= UNIT,
{
    let x = diff(a, min);
    let y = diff(max, min);
    let u = UNIT as int;
    if min < max {
        assert(0 <= x <= y && y > 0);
        assert(0 <= (x * u) / y <= u) by (nonlinear_arith)
            requires
                0 <= x <= y,
                y > 0,
                u > 0,
        ;
        assert(x * u >= 0) by (nonlinear_arith)
            requires
                0 <= x,
                u > 0,
        ;
    } else {
        let nx = -x;
        let ny = -y;
        assert(0 <= nx <= ny && ny > 0);
        assert(-(x * u) == nx * u) by (nonlinear_arith)
            requires
                nx == -x,
        ;
        assert(0 <= (nx * u) / ny <= u) by (nonlinear_arith)
            requires
                0 <= nx <= ny,
                ny > 0,
                u > 0,
        ;
        assert(nx * u >= 0) by (nonlinear_arith)
            requires
                0 <= nx,
                u > 0,
        ;
    }
}

/// Where the worst and the best score differ, and every value lies between
/// them, every entry of the projection lies in the unit interval.
pub proof fn lemma_normalized_in_unit(g: GenResult)
    requires
        g.max != g.min,
        g.within_span(),
    ensures
        g.normalized().len() == 15,
        forall|i: int| 0 <= i < 15 ==> 0 <= #[trigger] g.normalized()[i] <= UNIT,
{
    assert forall|i: int| 0 <= i < 15 implies 0 <= #[trigger] g.normalized()[i] <= UNIT by {
        assert(between(g.raw(i) as int, g.min as int, g.max as int));
        lemma_scaled_in_unit(g.raw(i) as int, g.min as int, g.max as int);
    }
}

/// Where the worst and the best score coincide, every entry of the
/// projection is zero.
pub proof fn lemma_normalized_flat(g: GenResult)
    requires
        g.max == g.min,
    ensures
        g.normalized().len() == 15,
        forall|i: int| 0 <= i < 15 ==> #[trigger] g.normalized()[i] == 0,
{
}

} // verus!
