//! Ranking positions by descending similarity, ties in the order of the list.

use vstd::prelude::*;
use crate::score::{order_key, similarity_key};

verus! {

/// Position `a` ranks strictly before position `b`: its score is larger, or
/// the scores are equal and `a` came first.
pub open spec fn outranks(sims: Seq<u32>, a: int, b: int) -> bool {
    similarity_key(sims[a]) > similarity_key(sims[b]) || (similarity_key(sims[a])
        == similarity_key(sims[b]) && a < b)
}

/// `order` lists the positions `lo..hi` of `sims`, each once, best first.
pub open spec fn ranks_range(sims: Seq<u32>, lo: int, hi: int, order: Seq<usize>) -> bool {
    &&& order.len() == hi - lo
    &&& forall|i: int| 0 <= i < order.len() ==> lo <= (#[trigger] order[i]) < hi
    &&& forall|i: int, j: int|
        0 <= i < j < order.len() ==> outranks(
            sims,
            (#[trigger] order[i]) as int,
            (#[trigger] order[j]) as int,
        )
    &&& forall|p: usize| lo <= p < hi ==> #[trigger] order.contains(p)
}

/// `order` is the ranking of `sims`: a permutation of its positions, sorted by
/// descending score, positions of equal score in ascending order.
pub open spec fn is_ranking(sims: Seq<u32>, order: Seq<usize>) -> bool {
    ranks_range(sims, 0, sims.len() as int, order)
}

/// The ranking of `sims`.
pub open spec fn ranking(sims: Seq<u32>) -> Seq<usize> {
    choose|order: Seq<usize>| is_ranking(sims, order)
}

proof fn lemma_agree_at(sims: Seq<u32>, a: Seq<usize>, b: Seq<usize>, i: int)
    requires
        is_ranking(sims, a),
        is_ranking(sims, b),
        0 <= i < a.len(),
    ensures
        a[i] == b[i],
    decreases i,
{
    assert forall|k: int| 0 <= k < i implies a[k] == b[k] by {
        lemma_agree_at(sims, a, b, k);
    }
    let p = a[i];
    let q = b[i];
    assert(b.contains(p));
    assert(a.contains(q));
    let j = choose|j: int| 0 <= j < b.len() && b[j] == p;
    let l = choose|l: int| 0 <= l < a.len() && a[l] == q;
    if j < i {
        assert(outranks(sims, a[j] as int, a[i] as int));
    }
    if l < i {
        assert(outranks(sims, b[l] as int, b[i] as int));
    }
    if j > i && l > i {
        assert(outranks(sims, b[i] as int, b[j] as int));
        assert(outranks(sims, a[i] as int, a[l] as int));
    }
}

/// A list of scores has one ranking only.
pub proof fn lemma_ranking_unique(sims: Seq<u32>, a: Seq<usize>, b: Seq<usize>)
    requires
        is_ranking(sims, a),
        is_ranking(sims, b),
    ensures
        a == b,
{
    assert forall|i: int| 0 <= i < a.len() implies a[i] == b[i] by {
        lemma_agree_at(sims, a, b, i);
    }
    assert(a =~= b);
}

proof fn lemma_slot(sims: Seq<u32>, order: Seq<usize>, key: int, upto: int) -> (slot: int)
    requires
        0 <= upto <= order.len(),
    ensures
        0 <= slot <= upto,
        forall|i: int| 0 <= i < slot ==> similarity_key(sims[(#[trigger] order[i]) as int]) >= key,
        slot < upto ==> similarity_key(sims[order[slot] as int]) < key,
    decreases upto,
{
    if upto == 0 {
        0
    } else {
        let slot = lemma_slot(sims, order, key, upto - 1);
        if slot < upto - 1 {
            slot
        } else if similarity_key(sims[order[upto - 1] as int]) >= key {
            upto
        } else {
            upto - 1
        }
    }
}

/// Every list of scores whose positions fit the machine's index type has a
/// ranking, and `ranking` names it.
pub proof fn lemma_ranking_exists(sims: Seq<u32>)
    requires
        sims.len() <= usize::MAX,
    ensures
        is_ranking(sims, ranking(sims)),
    decreases sims.len(),
{
    if sims.len() == 0 {
        assert(is_ranking(sims, Seq::<usize>::empty()));
    } else {
        let n = (sims.len() - 1) as usize;
        let head = sims.drop_last();
        lemma_ranking_exists(head);
        let o = ranking(head);
        let slot = lemma_slot(head, o, similarity_key(sims[n as int]), o.len() as int);
        let r = o.take(slot).push(n) + o.skip(slot);
        assert forall|i: int| 0 <= i < r.len() implies 0 <= (#[trigger] r[i]) < sims.len() by {
            if i < slot {
                assert(r[i] == o[i]);
            } else if i > slot {
                assert(r[i] == o[i - 1]);
            }
        }
        assert forall|i: int, j: int| 0 <= i < j < r.len() implies outranks(
            sims,
            (#[trigger] r[i]) as int,
            (#[trigger] r[j]) as int,
        ) by {
            let a = if i < slot { o[i] } else { o[i - 1] };
            let b = if j < slot { o[j] } else { o[j - 1] };
            if i != slot && j != slot {
                assert(r[i] == a && r[j] == b);
                assert(outranks(head, a as int, b as int));
            } else if i == slot {
                assert(r[j] == o[j - 1]);
                assert(slot < o.len());
                if j - 1 > slot {
                    assert(outranks(head, o[slot] as int, o[j - 1] as int));
                }
            } else {
                assert(r[i] == o[i]);
            }
        }
        assert forall|p: usize| 0 <= p < sims.len() implies #[trigger] r.contains(p) by {
            if p == n {
                assert(r[slot] == n);
            } else {
                assert(o.contains(p));
                let m = choose|m: int| 0 <= m < o.len() && o[m] == p;
                if m < slot {
                    assert(r[m] == p);
                } else {
                    assert(r[m + 1] == p);
                }
            }
        }
        assert(is_ranking(sims, r));
    }
}

/// Ranking is stable: of two positions with equal scores, the one that came
/// first in the list comes first in the ranking; and scores never rise along
/// the ranking.
pub proof fn lemma_ranking_stable(sims: Seq<u32>, order: Seq<usize>, i: int, j: int)
    requires
        is_ranking(sims, order),
        0 <= i < j < order.len(),
    ensures
        similarity_key(sims[order[i] as int]) >= similarity_key(sims[order[j] as int]),
        similarity_key(sims[order[i] as int]) == similarity_key(sims[order[j] as int])
            ==> order[i] < order[j],
{
    assert(outranks(sims, order[i] as int, order[j] as int));
}

fn merge(
    sims: &Vec<u32>,
    left: &Vec<usize>,
    right: &Vec<usize>,
    lo: usize,
    mid: usize,
    hi: usize,
) -> (out: Vec<usize>)
    requires
        lo <= mid <= hi <= sims.len(),
        ranks_range(sims@, lo as int, mid as int, left@),
        ranks_range(sims@, mid as int, hi as int, right@),
    ensures
        ranks_range(sims@, lo as int, hi as int, out@),
{
    let mut out: Vec<usize> = Vec::new();
    let mut i: usize = 0;
    let mut j: usize = 0;
    while i < left.len() || j < right.len()
        invariant
            lo <= mid <= hi <= sims.len(),
            ranks_range(sims@, lo as int, mid as int, left@),
            ranks_range(sims@, mid as int, hi as int, right@),
            i <= left.len(),
            j <= right.len(),
            out.len() == i + j,
            forall|m: int| 0 <= m < out.len() ==> lo <= (#[trigger] out[m]) < hi,
            forall|m: int, n: int|
                0 <= m < n < out.len() ==> outranks(
                    sims@,
                    (#[trigger] out[m]) as int,
                    (#[trigger] out[n]) as int,
                ),
            forall|m: int, k: int|
                0 <= m < out.len() && i <= k < left.len() ==> outranks(
                    sims@,
                    (#[trigger] out[m]) as int,
                    (#[trigger] left[k]) as int,
                ),
            forall|m: int, k: int|
                0 <= m < out.len() && j <= k < right.len() ==> outranks(
                    sims@,
                    (#[trigger] out[m]) as int,
                    (#[trigger] right[k]) as int,
                ),
            forall|k: int| 0 <= k < i ==> out@.contains(#[trigger] left[k]),
            forall|k: int| 0 <= k < j ==> out@.contains(#[trigger] right[k]),
        decreases left.len() - i + right.len() - j,
    {
        let from_left: bool = if j >= right.len() {
            true
        } else if i >= left.len() {
            false
        } else {
            order_key(sims[left[i]]) >= order_key(sims[right[j]])
        };
        let ghost before = out@;
        if from_left {
            let x: usize = left[i];
            out.push(x);
            i = i + 1;
            proof {
                assert(j < right.len() ==> outranks(sims@, x as int, right[j as int] as int));
            }
        } else {
            let x: usize = right[j];
            out.push(x);
            j = j + 1;
            proof {
                assert(i < left.len() ==> outranks(sims@, x as int, left[i as int] as int));
            }
        }
        proof {
            let last = out.len() - 1;
            assert forall|k: int| 0 <= k < i implies out@.contains(#[trigger] left[k]) by {
                if from_left && k == i - 1 {
                    assert(out@[last] == left[k]);
                } else {
                    let m = choose|m: int| 0 <= m < before.len() && before[m] == left[k];
                    assert(out@[m] == left[k]);
                }
            }
            assert forall|k: int| 0 <= k < j implies out@.contains(#[trigger] right[k]) by {
                if !from_left && k == j - 1 {
                    assert(out@[last] == right[k]);
                } else {
                    let m = choose|m: int| 0 <= m < before.len() && before[m] == right[k];
                    assert(out@[m] == right[k]);
                }
            }
        }
    }
    proof {
        assert forall|p: usize| lo <= p < hi implies #[trigger] out@.contains(p) by {
            if p < mid {
                assert(left@.contains(p));
                let k = choose|k: int| 0 <= k < left.len() && left[k] == p;
                assert(out@.contains(left[k]));
            } else {
                assert(right@.contains(p));
                let k = choose|k: int| 0 <= k < right.len() && right[k] == p;
                assert(out@.contains(right[k]));
            }
        }
    }
    out
}

fn rank_range(sims: &Vec<u32>, lo: usize, hi: usize) -> (order: Vec<usize>)
    requires
        lo <= hi <= sims.len(),
    ensures
        ranks_range(sims@, lo as int, hi as int, order@),
    decreases hi - lo,
{
    let mut order: Vec<usize> = Vec::new();
    if hi - lo == 0 {
        order
    } else if hi - lo == 1 {
        order.push(lo);
        assert(order@[0] == lo);
        order
    } else {
        let mid: usize = lo + (hi - lo) / 2;
        let left = rank_range(sims, lo, mid);
        let right = rank_range(sims, mid, hi);
        merge(sims, &left, &right, lo, mid, hi)
    }
}

/// Ranks the first `count` positions of `sims`: best score first, equal
/// scores in the order in which they stand.
pub fn rank_first(sims: &Vec<u32>, count: usize) -> (order: Vec<usize>)
    requires
        count <= sims.len(),
    ensures
        is_ranking(sims@.take(count as int), order@),
        order@ == ranking(sims@.take(count as int)),
{
    let order = rank_range(sims, 0, count);
    proof {
        let head = sims@.take(count as int);
        assert forall|i: int, j: int| 0 <= i < j < order.len() implies outranks(
            head,
            (#[trigger] order[i]) as int,
            (#[trigger] order[j]) as int,
        ) by {
            assert(outranks(sims@, order[i] as int, order[j] as int));
        }
        assert(is_ranking(head, order@));
        lemma_ranking_unique(head, order@, ranking(head));
    }
    order
}

/// Ranks the positions of `sims`: best score first, equal scores in the order
/// in which they stand.
pub fn rank(sims: &Vec<u32>) -> (order: Vec<usize>)
    ensures
        is_ranking(sims@, order@),
        order@ == ranking(sims@),
{
    assert(sims@.take(sims.len() as int) =~= sims@);
    rank_first(sims, sims.len())
}

} // verus!
