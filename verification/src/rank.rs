//! Ranking by score: a stable sort of anything that carries a score.

use vstd::prelude::*;
use vstd::seq_lib::{to_multiset_insert, to_multiset_remove};

verus! {

/// Something that is ranked by a score.
pub trait Scored {
    /// The score.
    spec fn rank(&self) -> int;

    /// Reads the score.
    fn score_of(&self) -> (s: i64)
        ensures
            s as int == self.rank(),
    ;
}

/// Whether a score `a` may stand before a score `b`.
pub open spec fn in_order(a: int, b: int, descending: bool) -> bool {
    if descending {
        a >= b
    } else {
        a <= b
    }
}

/// Decides whether a score `a` may stand before a score `b`.
pub fn precedes(a: i64, b: i64, descending: bool) -> (r: bool)
    ensures
        r == in_order(a as int, b as int, descending),
{
    if descending {
        a >= b
    } else {
        a <= b
    }
}

/// Whether the scores never rise along the sequence (`descending`), or never
/// fall.
pub open spec fn ordered<T: Scored>(s: Seq<T>, descending: bool) -> bool {
    forall|i: int, j: int|
        0 <= i < j < s.len() ==> in_order(#[trigger] s[i].rank(), #[trigger] s[j].rank(), descending)
}

/// The test of whether an item has the score `k`.
pub open spec fn has_rank<T: Scored>(k: int) -> spec_fn(T) -> bool {
    |x: T| x.rank() == k
}

/// The items of score `k`, in their order.
pub open spec fn of_rank<T: Scored>(s: Seq<T>, k: int) -> Seq<T> {
    s.filter(has_rank::<T>(k))
}

/// A filter that no item passes leaves nothing.
pub proof fn lemma_filter_none<T>(s: Seq<T>, pred: spec_fn(T) -> bool)
    requires
        forall|x: int| 0 <= x < s.len() ==> !pred(#[trigger] s[x]),
    ensures
        s.filter(pred) == Seq::<T>::empty(),
    decreases s.len(),
{
    reveal(Seq::filter);
    if s.len() > 0 {
        let front = s.drop_last();
        assert forall|x: int| 0 <= x < front.len() implies !pred(#[trigger] front[x]) by {
            assert(front[x] == s[x]);
        }
        lemma_filter_none(front, pred);
        assert(!pred(s[s.len() - 1]));
    }
}

/// Moving an item forward past items of other scores leaves the items of
/// each score in their order.
pub proof fn lemma_move_keeps_ranks<T: Scored>(before: Seq<T>, i: int, j: int, descending: bool, k: int)
    requires
        0 <= j <= i < before.len(),
        forall|x: int| j <= x < i ==> !in_order(#[trigger] before[x].rank(), before[i].rank(), descending),
    ensures
        of_rank(before.remove(i).insert(j, before[i]), k) == of_rank(before, k),
{
    let item = before[i];
    let pred = has_rank::<T>(k);
    let a = before.subrange(0, j);
    let b = before.subrange(j, i);
    let c = before.subrange(i + 1, before.len() as int);
    let one = seq![item];
    let after = before.remove(i).insert(j, item);
    assert(before =~= ((a + b) + one) + c);
    assert(after =~= ((a + one) + b) + c);
    Seq::filter_distributes_over_add((a + b) + one, c, pred);
    Seq::filter_distributes_over_add(a + b, one, pred);
    Seq::filter_distributes_over_add(a, b, pred);
    Seq::filter_distributes_over_add((a + one) + b, c, pred);
    Seq::filter_distributes_over_add(a + one, b, pred);
    Seq::filter_distributes_over_add(a, one, pred);
    if item.rank() == k {
        assert(b.len() == i - j);
        assert forall|x: int| 0 <= x < b.len() implies !pred(#[trigger] b[x]) by {
            assert(0 <= j + x < i);
            assert(b[x] == before[j + x]);
            assert(!in_order(before[j + x].rank(), before[i].rank(), descending));
        }
        lemma_filter_none(b, pred);
        assert(a.filter(pred) + Seq::<T>::empty() =~= a.filter(pred));
        assert((a.filter(pred) + one.filter(pred)) + Seq::<T>::empty() =~= a.filter(pred) + one.filter(
            pred,
        ));
    } else {
        assert(!pred(one[0]));
        lemma_filter_none(one, pred);
        assert(a.filter(pred) + Seq::<T>::empty() =~= a.filter(pred));
        assert((a.filter(pred) + b.filter(pred)) + Seq::<T>::empty() =~= a.filter(pred) + b.filter(pred));
    }
}

/// Whether `ranked` holds the items of `given` sorted by score, the best
/// first (`descending`) or the worst first, those of equal score in the
/// order they have in `given`.
pub open spec fn ranking<T: Scored>(ranked: Seq<T>, given: Seq<T>, descending: bool) -> bool {
    &&& ordered(ranked, descending)
    &&& ranked.len() == given.len()
    &&& ranked.to_multiset() == given.to_multiset()
    &&& forall|k: int| #[trigger] of_rank(ranked, k) == of_rank(given, k)
}

/// Two sequences that hold the same items, each as often, still do so
/// after the same function is applied to every item.
pub proof fn lemma_map_keeps_multiset<A, B>(s1: Seq<A>, s2: Seq<A>, f: spec_fn(A) -> B)
    requires
        s1.to_multiset() == s2.to_multiset(),
    ensures
        s1.map_values(f).to_multiset() == s2.map_values(f).to_multiset(),
    decreases s1.len(),
{
    s1.to_multiset_ensures();
    s2.to_multiset_ensures();
    if s1.len() == 0 {
        assert(s2.len() == 0);
        assert(s1.map_values(f) =~= s2.map_values(f));
    } else {
        let last = s1.len() - 1;
        let x = s1[last];
        assert(s1.contains(x));
        assert(s2.to_multiset().count(x) > 0);
        assert(s2.contains(x));
        let j = choose|j: int| 0 <= j < s2.len() && s2[j] == x;
        let front = s1.remove(last);
        let rest = s2.remove(j);
        to_multiset_remove(s1, last);
        to_multiset_remove(s2, j);
        lemma_map_keeps_multiset(front, rest, f);
        to_multiset_insert(front.map_values(f), last, f(x));
        to_multiset_insert(rest.map_values(f), j, f(x));
        assert(s1.map_values(f) =~= front.map_values(f).insert(last, f(x)));
        assert(s2.map_values(f) =~= rest.map_values(f).insert(j, f(x)));
    }
}

/// Sorts by score, the best first (`descending`) or the worst first. Items
/// of equal score keep their order.
pub fn sort_by_score<T: Scored>(v: &mut Vec<T>, descending: bool)
    ensures
        ordered(final(v)@, descending),
        forall|k: int| #[trigger] of_rank(final(v)@, k) == of_rank(old(v)@, k),
        final(v)@.to_multiset() == old(v)@.to_multiset(),
        final(v)@.len() == old(v)@.len(),
{
    let n = v.len();
    let mut i: usize = 1;
    while i < n
        invariant
            v@.len() == n,
            1 <= i || n == 0,
            ordered(v@.take(if i < n { i as int } else { n as int }), descending),
            forall|k: int| #[trigger] of_rank(v@, k) == of_rank(old(v)@, k),
            v@.to_multiset() == old(v)@.to_multiset(),
        decreases n - i,
    {
        let ghost before = v@;
        let item = v.remove(i);
        proof {
            to_multiset_remove(before, i as int);
        }
        let key = item.score_of();
        let mut j: usize = i;
        while j > 0 && !precedes(v[j - 1].score_of(), key, descending)
            invariant
                j <= i,
                i < n,
                before.len() == n,
                item == before[i as int],
                v@ == before.remove(i as int),
                key as int == item.rank(),
                forall|k: int| j <= k < i ==> !in_order(#[trigger] v@[k].rank(), key as int, descending),
            decreases j,
        {
            j -= 1;
        }
        let ghost mid = v@;
        v.insert(j, item);
        proof {
            to_multiset_insert(mid, j as int, item);
            assert forall|k: int| #[trigger] of_rank(v@, k) == of_rank(old(v)@, k) by {
                assert forall|x: int| j <= x < i implies !in_order(
                    #[trigger] before[x].rank(),
                    before[i as int].rank(),
                    descending,
                ) by {
                    assert(before[x] == mid[x]);
                }
                lemma_move_keeps_ranks(before, i as int, j as int, descending, k);
            }
            before.to_multiset_ensures();
            assert(before.contains(before[i as int]));
            assert(before.to_multiset().remove(before[i as int]).insert(item) =~= before.to_multiset());
            let after = v@;
            let done = after.take(i + 1);
            let prefix = before.take(i as int);
            assert forall|a: int, b: int| 0 <= a < b < done.len() implies in_order(
                #[trigger] done[a].rank(),
                #[trigger] done[b].rank(),
                descending,
            ) by {
                if b < j {
                    assert(done[a] == prefix[a] && done[b] == prefix[b]);
                } else if b == j {
                    if j > 0 {
                        assert(done[j - 1] == prefix[j - 1]);
                        assert(done[a] == prefix[a]);
                        assert(in_order(mid[j - 1].rank(), key as int, descending));
                        if a < j - 1 {
                            assert(in_order(prefix[a].rank(), prefix[j - 1].rank(), descending));
                        }
                    }
                } else if a == j {
                    assert(done[b] == mid[b - 1]);
                } else if a < j {
                    assert(done[a] == prefix[a] && done[b] == prefix[b - 1]);
                } else {
                    assert(done[a] == prefix[a - 1] && done[b] == prefix[b - 1]);
                }
            }
        }
        i += 1;
    }
    proof {
        if n > 0 {
            assert(v@.take(n as int) =~= v@);
        }
    }
}

} // verus!
