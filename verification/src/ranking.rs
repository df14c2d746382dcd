//! The order of a batch by weight.
//!
//! The heavier company stands first. Of two companies with the same weight the
//! one that came first in the batch stands first, so the order of a batch is
//! determined by its weights alone.

use crate::series::total;
use crate::units::ints_of_u32;
use vstd::prelude::*;
use vstd::set_lib::{lemma_int_range, lemma_len_subset, lemma_subset_equality, set_int_range};

verus! {

/// Company `a` stands before company `b`: it is heavier, or as heavy and
/// earlier in the batch.
pub open spec fn outranks(w: Seq<int>, a: int, b: int) -> bool {
    w[a] > w[b] || (w[a] == w[b] && a < b)
}

/// The companies of a batch that stand before company `j`.
pub open spec fn outrankers(w: Seq<int>, j: int) -> Set<int> {
    Set::new(|i: int| 0 <= i < w.len() && outranks(w, i, j))
}

/// The place of company `j`, counted from zero: the number of companies that
/// stand before it.
pub open spec fn place(w: Seq<int>, j: int) -> nat {
    outrankers(w, j).len()
}

/// The company at place `k`: the one that exactly `k` companies outrank.
pub open spec fn company_at(w: Seq<int>, k: int) -> int {
    choose|j: int| 0 <= j < w.len() && place(w, j) == k
}

/// Places and companies correspond one to one: every company of the batch has
/// a place within it and is the company at that place, and every place within
/// the batch is that of the company at it.
pub open spec fn places_are_a_permutation(w: Seq<int>) -> bool {
    &&& forall|j: int|
        0 <= j < w.len() ==> #[trigger] place(w, j) < w.len() && company_at(w, place(w, j) as int)
            == j
    &&& forall|k: int|
        0 <= k < w.len() ==> 0 <= #[trigger] company_at(w, k) < w.len() && place(
            w,
            company_at(w, k),
        ) == k
}

/// `order` lists companies of the batch, each before all that it outranks.
pub open spec fn in_rank_order(w: Seq<int>, order: Seq<int>) -> bool {
    &&& forall|k: int| 0 <= k < order.len() ==> 0 <= #[trigger] order[k] < w.len()
    &&& forall|a: int, b: int|
        0 <= a < b < order.len() ==> outranks(w, #[trigger] order[a], #[trigger] order[b])
}

/// The weights of the companies that `order` lists, in its order.
pub open spec fn picked(w: Seq<int>, order: Seq<int>) -> Seq<int> {
    Seq::new(order.len(), |k: int| w[order[k]])
}

/// The positions of a vector as mathematical integers.
pub open spec fn ints_of_usize(s: Seq<usize>) -> Seq<int> {
    s.map_values(|v: usize| v as int)
}

/// Inserting a value into a sequence adds it to the sum.
pub proof fn lemma_total_insert(s: Seq<int>, p: int, x: int)
    requires
        0 <= p <= s.len(),
    ensures
        total(s.insert(p, x)) == total(s) + x,
    decreases s.len() - p,
{
    let t = s.insert(p, x);
    if p == s.len() {
        assert(t.drop_last() =~= s);
        assert(t.last() == x);
    } else {
        assert(t.drop_last() =~= s.drop_last().insert(p, x));
        assert(t.last() == s.last());
        lemma_total_insert(s.drop_last(), p, x);
    }
}

/// A list of the first `i` companies in rank order stays in rank order when
/// company `i` is put behind all that are at least as heavy and before all
/// that are lighter.
pub proof fn lemma_insert_keeps_rank_order(w: Seq<int>, before: Seq<int>, p: int, i: int)
    requires
        in_rank_order(w, before),
        0 <= i < w.len(),
        forall|k: int| 0 <= k < before.len() ==> #[trigger] before[k] < i,
        0 <= p <= before.len(),
        forall|k: int| 0 <= k < p ==> w[#[trigger] before[k]] >= w[i],
        p == before.len() || w[before[p]] < w[i],
    ensures
        in_rank_order(w, before.insert(p, i)),
        forall|k: int| 0 <= k <= before.len() ==> #[trigger] before.insert(p, i)[k] < i + 1,
        picked(w, before.insert(p, i)) == picked(w, before).insert(p, w[i]),
{
    let after = before.insert(p, i);
    before.insert_ensures(p, i);
    assert forall|a: int, b: int| 0 <= a < b < after.len() implies outranks(
        w,
        #[trigger] after[a],
        #[trigger] after[b],
    ) by {
        if b < p {
            assert(after[a] == before[a] && after[b] == before[b]);
        } else if b == p {
            assert(after[a] == before[a]);
            assert(w[before[a]] >= w[i]);
        } else if a < p {
            assert(after[a] == before[a] && after[b] == before[b - 1]);
        } else if a == p {
            assert(after[b] == before[b - 1]);
            assert(outranks(w, before[p], before[b - 1]) || b - 1 == p);
            assert(w[before[p]] < w[i]);
        } else {
            assert(after[a] == before[a - 1] && after[b] == before[b - 1]);
        }
    }
    assert forall|k: int| 0 <= k < after.len() implies 0 <= #[trigger] after[k] < w.len()
        && after[k] < i + 1 by {
        if k < p {
            assert(after[k] == before[k]);
        } else if k > p {
            assert(after[k] == before[k - 1]);
        }
    }
    picked(w, before).insert_ensures(p, w[i]);
    assert forall|k: int| 0 <= k < after.len() implies picked(w, after)[k] == picked(
        w,
        before,
    ).insert(p, w[i])[k] by {
        if k < p {
            assert(after[k] == before[k]);
        } else if k > p {
            assert(after[k] == before[k - 1]);
        }
    }
    assert(picked(w, after) =~= picked(w, before).insert(p, w[i]));
}

/// Where company `i` goes in a list in rank order: behind the companies that
/// are at least as heavy.
proof fn insertion_point(w: Seq<int>, order: Seq<int>, i: int, from: int) -> (p: int)
    requires
        0 <= from <= order.len(),
        forall|k: int| 0 <= k < from ==> w[#[trigger] order[k]] >= w[i],
    ensures
        0 <= p <= order.len(),
        forall|k: int| 0 <= k < p ==> w[#[trigger] order[k]] >= w[i],
        p == order.len() || w[order[p]] < w[i],
    decreases order.len() - from,
{
    if from == order.len() || w[order[from]] < w[i] {
        from
    } else {
        insertion_point(w, order, i, from + 1)
    }
}

/// The first `n` companies of every batch can be listed in rank order.
pub proof fn lemma_rank_order_exists(w: Seq<int>, n: int) -> (order: Seq<int>)
    requires
        0 <= n <= w.len(),
    ensures
        order.len() == n,
        in_rank_order(w, order),
        forall|k: int| 0 <= k < n ==> #[trigger] order[k] < n,
        total(picked(w, order)) == total(w.take(n)),
    decreases n,
{
    if n == 0 {
        let order = Seq::<int>::empty();
        assert(picked(w, order) =~= w.take(0));
        order
    } else {
        let before = lemma_rank_order_exists(w, n - 1);
        let p = insertion_point(w, before, n - 1, 0);
        lemma_insert_keeps_rank_order(w, before, p, n - 1);
        lemma_total_insert(picked(w, before), p, w[n - 1]);
        crate::series::lemma_take_next(w, n - 1);
        before.insert(p, n - 1)
    }
}

/// The weights of a batch, read place by place, sum to what they sum to in
/// the order of the batch.
pub proof fn lemma_places_keep_total(w: Seq<int>)
    ensures
        total(Seq::new(w.len(), |k: int| w[company_at(w, k)])) == total(w),
{
    let order = lemma_rank_order_exists(w, w.len() as int);
    lemma_rank_order_places(w, order);
    assert(w.take(w.len() as int) =~= w);
    assert(Seq::new(w.len(), |k: int| w[company_at(w, k)]) =~= picked(w, order));
}

/// In every batch, places and companies correspond one to one.
pub proof fn lemma_places_are_a_permutation(w: Seq<int>)
    ensures
        places_are_a_permutation(w),
{
    let order = lemma_rank_order_exists(w, w.len() as int);
    lemma_rank_order_places(w, order);
}

/// The company at the earlier place is at least as heavy as the one at the
/// later place.
pub proof fn lemma_places_descend(w: Seq<int>, a: int, b: int)
    requires
        0 <= a <= b < w.len(),
    ensures
        w[company_at(w, a)] >= w[company_at(w, b)],
{
    let order = lemma_rank_order_exists(w, w.len() as int);
    lemma_rank_order_places(w, order);
    lemma_rank_order_descends(w, order, a, b);
    assert(company_at(w, a) == order[a] && company_at(w, b) == order[b]);
}

/// A list of all companies in rank order has each company at its place.
pub proof fn lemma_rank_order_places(w: Seq<int>, order: Seq<int>)
    requires
        order.len() == w.len(),
        in_rank_order(w, order),
    ensures
        forall|k: int| 0 <= k < order.len() ==> place(w, #[trigger] order[k]) == k,
        forall|j: int| 0 <= j < w.len() ==> place(w, j) < w.len() && order[place(w, j) as int] == j,
        forall|k: int| 0 <= k < order.len() ==> #[trigger] company_at(w, k) == order[k],
        places_are_a_permutation(w),
{
    let n = w.len() as int;
    assert(order.no_duplicates()) by {
        assert forall|a: int, b: int| 0 <= a < order.len() && 0 <= b < order.len() && a
            != b implies order[a] != order[b] by {
            if a < b {
                assert(outranks(w, order[a], order[b]));
            } else {
                assert(outranks(w, order[b], order[a]));
            }
        }
    }
    order.unique_seq_to_set();
    lemma_int_range(0, n);
    assert(order.to_set().subset_of(set_int_range(0, n))) by {
        assert forall|v: int| order.to_set().contains(v) implies set_int_range(0, n).contains(
            v,
        ) by {
            let k = choose|k: int| 0 <= k < order.len() && order[k] == v;
            assert(0 <= order[k] < n);
        }
    }
    lemma_len_subset(order.to_set(), set_int_range(0, n));
    lemma_subset_equality(order.to_set(), set_int_range(0, n));
    assert forall|j: int| 0 <= j < n implies #[trigger] order.contains(j) by {
        assert(set_int_range(0, n).contains(j));
        assert(order.to_set().contains(j));
    }
    assert forall|k: int| 0 <= k < order.len() implies place(w, #[trigger] order[k]) == k by {
        let head = order.take(k);
        assert(head.no_duplicates()) by {
            assert forall|a: int, b: int| 0 <= a < head.len() && 0 <= b < head.len() && a
                != b implies head[a] != head[b] by {
                assert(head[a] == order[a] && head[b] == order[b]);
            }
        }
        head.unique_seq_to_set();
        assert(outrankers(w, order[k]) =~= head.to_set()) by {
            assert forall|v: int| outrankers(w, order[k]).contains(v) implies head.to_set().contains(
                v,
            ) by {
                assert(order.contains(v));
                let m = choose|m: int| 0 <= m < n && order[m] == v;
                if m > k {
                    assert(outranks(w, order[k], order[m]));
                }
                assert(m < k);
                assert(head[m] == v);
            }
            assert forall|v: int| head.to_set().contains(v) implies outrankers(
                w,
                order[k],
            ).contains(v) by {
                let m = choose|m: int| 0 <= m < head.len() && head[m] == v;
                assert(head[m] == order[m]);
                assert(outranks(w, order[m], order[k]));
            }
        }
    }
    assert forall|j: int| 0 <= j < n implies place(w, j) < n && order[place(w, j) as int]
        == j by {
        assert(order.contains(j));
        let k = choose|k: int| 0 <= k < n && order[k] == j;
        assert(place(w, order[k]) == k);
    }
    assert forall|k: int| 0 <= k < order.len() implies #[trigger] company_at(w, k)
        == order[k] by {
        assert(0 <= order[k] < n && place(w, order[k]) == k);
        let j = company_at(w, k);
        assert(0 <= j < n && place(w, j) == k);
        assert(order[place(w, j) as int] == j);
    }
    assert forall|j: int| 0 <= j < w.len() implies #[trigger] place(w, j) < w.len() && company_at(
        w,
        place(w, j) as int,
    ) == j by {
        assert(order[place(w, j) as int] == j);
    }
}

/// Companies in rank order are in order of weight, heaviest first.
pub proof fn lemma_rank_order_descends(w: Seq<int>, order: Seq<int>, a: int, b: int)
    requires
        in_rank_order(w, order),
        0 <= a <= b < order.len(),
    ensures
        w[order[a]] >= w[order[b]],
{
    if a < b {
        assert(outranks(w, order[a], order[b]));
    }
}

/// `order` lists the companies from position `lo` up to position `hi` of the
/// batch, each once, in rank order.
pub open spec fn ranks_range(w: Seq<int>, order: Seq<int>, lo: int, hi: int) -> bool {
    &&& order.len() == hi - lo
    &&& forall|k: int| 0 <= k < order.len() ==> lo <= #[trigger] order[k] < hi
    &&& forall|a: int, b: int|
        0 <= a < b < order.len() ==> outranks(w, #[trigger] order[a], #[trigger] order[b])
}

/// The sum of two sequences, one after the other, is the sum of their sums.
pub proof fn lemma_total_concat(a: Seq<int>, b: Seq<int>)
    ensures
        total(a + b) == total(a) + total(b),
    decreases b.len(),
{
    if b.len() == 0 {
        assert(a + b =~= a);
    } else {
        assert((a + b).drop_last() =~= a + b.drop_last());
        lemma_total_concat(a, b.drop_last());
    }
}

/// Listing one more company adds its weight to the sum of the weights listed.
proof fn lemma_picked_push(w: Seq<int>, order: Seq<int>, j: int)
    ensures
        total(picked(w, order.push(j))) == total(picked(w, order)) + w[j],
{
    assert(picked(w, order.push(j)).drop_last() =~= picked(w, order));
}

/// Merges two lists in rank order, the first of companies that stand earlier
/// in the batch than those of the second, into one.
fn merge_ranked(
    weights: &Vec<u32>,
    left: &Vec<usize>,
    right: &Vec<usize>,
    Ghost(lo): Ghost<int>,
    Ghost(mid): Ghost<int>,
    Ghost(hi): Ghost<int>,
) -> (merged: Vec<usize>)
    requires
        0 <= lo <= mid <= hi <= weights.len(),
        ranks_range(ints_of_u32(weights@), ints_of_usize(left@), lo, mid),
        ranks_range(ints_of_u32(weights@), ints_of_usize(right@), mid, hi),
    ensures
        ranks_range(ints_of_u32(weights@), ints_of_usize(merged@), lo, hi),
        total(picked(ints_of_u32(weights@), ints_of_usize(merged@))) == total(
            picked(ints_of_u32(weights@), ints_of_usize(left@)),
        ) + total(picked(ints_of_u32(weights@), ints_of_usize(right@))),
{
    let ghost w = ints_of_u32(weights@);
    let ghost l = ints_of_usize(left@);
    let ghost r = ints_of_usize(right@);
    let mut merged: Vec<usize> = Vec::new();
    let mut a: usize = 0;
    let mut b: usize = 0;
    assert(picked(w, l.take(0)) =~= Seq::<int>::empty());
    assert(picked(w, r.take(0)) =~= Seq::<int>::empty());
    assert(picked(w, ints_of_usize(merged@)) =~= Seq::<int>::empty());
    while a < left.len() || b < right.len()
        invariant
            0 <= lo <= mid <= hi <= weights.len(),
            w == ints_of_u32(weights@),
            l == ints_of_usize(left@),
            r == ints_of_usize(right@),
            ranks_range(w, l, lo, mid),
            ranks_range(w, r, mid, hi),
            a <= left.len(),
            b <= right.len(),
            merged.len() == a + b,
            forall|k: int| 0 <= k < merged.len() ==> lo <= #[trigger] merged[k] < hi,
            forall|x: int, y: int|
                0 <= x < y < merged.len() ==> outranks(
                    w,
                    #[trigger] merged[x] as int,
                    #[trigger] merged[y] as int,
                ),
            forall|k: int, x: int|
                0 <= k < merged.len() && a <= x < left.len() ==> outranks(
                    w,
                    #[trigger] merged[k] as int,
                    #[trigger] l[x],
                ),
            forall|k: int, x: int|
                0 <= k < merged.len() && b <= x < right.len() ==> outranks(
                    w,
                    #[trigger] merged[k] as int,
                    #[trigger] r[x],
                ),
            total(picked(w, ints_of_usize(merged@))) == total(picked(w, l.take(a as int))) + total(
                picked(w, r.take(b as int)),
            ),
        decreases left.len() - a + right.len() - b,
    {
        let ghost before = ints_of_usize(merged@);
        let from_left: bool = if b == right.len() {
            true
        } else if a == left.len() {
            false
        } else {
            assert(l[a as int] == left[a as int] && r[b as int] == right[b as int]);
            assert(lo <= l[a as int] < mid && mid <= r[b as int] < hi);
            weights[left[a]] >= weights[right[b]]
        };
        if from_left {
            let j: usize = left[a];
            assert(l[a as int] == j);
            merged.push(j);
            proof {
                assert(ints_of_usize(merged@) =~= before.push(j as int));
                lemma_picked_push(w, before, j as int);
                assert(l.take(a + 1) =~= l.take(a as int).push(j as int));
                lemma_picked_push(w, l.take(a as int), j as int);
                assert forall|k: int, x: int|
                    0 <= k < merged.len() && b <= x < right.len() implies outranks(
                    w,
                    #[trigger] merged[k] as int,
                    #[trigger] r[x],
                ) by {
                    if k == merged.len() - 1 {
                        assert(mid <= r[x] < hi);
                        if x > b {
                            assert(outranks(w, r[b as int], r[x]));
                        }
                    }
                }
                assert forall|k: int, x: int|
                    0 <= k < merged.len() && a + 1 <= x < left.len() implies outranks(
                    w,
                    #[trigger] merged[k] as int,
                    #[trigger] l[x],
                ) by {
                    if k == merged.len() - 1 {
                        assert(outranks(w, l[a as int], l[x]));
                    }
                }
                assert forall|x: int, y: int| 0 <= x < y < merged.len() implies outranks(
                    w,
                    #[trigger] merged[x] as int,
                    #[trigger] merged[y] as int,
                ) by {
                    if y == merged.len() - 1 {
                        assert(outranks(w, merged[x] as int, l[a as int]));
                    }
                }
            }
            a = a + 1;
        } else {
            let j: usize = right[b];
            assert(r[b as int] == j);
            merged.push(j);
            proof {
                assert(ints_of_usize(merged@) =~= before.push(j as int));
                lemma_picked_push(w, before, j as int);
                assert(r.take(b + 1) =~= r.take(b as int).push(j as int));
                lemma_picked_push(w, r.take(b as int), j as int);
                assert forall|k: int, x: int|
                    0 <= k < merged.len() && a <= x < left.len() implies outranks(
                    w,
                    #[trigger] merged[k] as int,
                    #[trigger] l[x],
                ) by {
                    if k == merged.len() - 1 {
                        assert(lo <= l[x] < mid);
                        if x > a {
                            assert(outranks(w, l[a as int], l[x]));
                        }
                    }
                }
                assert forall|k: int, x: int|
                    0 <= k < merged.len() && b + 1 <= x < right.len() implies outranks(
                    w,
                    #[trigger] merged[k] as int,
                    #[trigger] r[x],
                ) by {
                    if k == merged.len() - 1 {
                        assert(outranks(w, r[b as int], r[x]));
                    }
                }
                assert forall|x: int, y: int| 0 <= x < y < merged.len() implies outranks(
                    w,
                    #[trigger] merged[x] as int,
                    #[trigger] merged[y] as int,
                ) by {
                    if y == merged.len() - 1 {
                        assert(outranks(w, merged[x] as int, r[b as int]));
                    }
                }
            }
            b = b + 1;
        }
    }
    proof {
        assert(l.take(a as int) =~= l);
        assert(r.take(b as int) =~= r);
        let m = ints_of_usize(merged@);
        assert forall|x: int, y: int| 0 <= x < y < m.len() implies outranks(
            w,
            #[trigger] m[x],
            #[trigger] m[y],
        ) by {
            assert(outranks(w, merged[x] as int, merged[y] as int));
        }
        assert forall|k: int| 0 <= k < m.len() implies lo <= #[trigger] m[k] < hi by {
            assert(lo <= merged[k] < hi);
        }
    }
    merged
}

/// Lists the companies from position `lo` up to position `hi` of a batch in
/// rank order, by merging the lists of the two halves.
fn rank_range(weights: &Vec<u32>, lo: usize, hi: usize) -> (order: Vec<usize>)
    requires
        lo <= hi <= weights.len(),
    ensures
        ranks_range(ints_of_u32(weights@), ints_of_usize(order@), lo as int, hi as int),
        total(picked(ints_of_u32(weights@), ints_of_usize(order@))) == total(
            ints_of_u32(weights@).subrange(lo as int, hi as int),
        ),
    decreases hi - lo,
{
    let ghost w = ints_of_u32(weights@);
    if hi - lo == 0 {
        let order: Vec<usize> = Vec::new();
        assert(picked(w, ints_of_usize(order@)) =~= w.subrange(lo as int, hi as int));
        order
    } else if hi - lo == 1 {
        let mut order: Vec<usize> = Vec::new();
        order.push(lo);
        assert(picked(w, ints_of_usize(order@)) =~= w.subrange(lo as int, hi as int));
        order
    } else {
        let mid: usize = lo + (hi - lo) / 2;
        let left = rank_range(weights, lo, mid);
        let right = rank_range(weights, mid, hi);
        proof {
            lemma_total_concat(w.subrange(lo as int, mid as int), w.subrange(mid as int, hi as int));
            assert(w.subrange(lo as int, mid as int) + w.subrange(mid as int, hi as int)
                =~= w.subrange(lo as int, hi as int));
        }
        merge_ranked(weights, &left, &right, Ghost(lo as int), Ghost(mid as int), Ghost(hi as int))
    }
}

/// Lists the companies of a batch by weight: the position in the batch of the
/// company at each place.
pub fn rank_order(weights: &Vec<u32>) -> (order: Vec<usize>)
    ensures
        order.len() == weights.len(),
        in_rank_order(ints_of_u32(weights@), ints_of_usize(order@)),
        forall|k: int|
            0 <= k < order.len() ==> #[trigger] order[k] == company_at(ints_of_u32(weights@), k),
        total(picked(ints_of_u32(weights@), ints_of_usize(order@))) == total(
            ints_of_u32(weights@),
        ),
{
    let ghost w = ints_of_u32(weights@);
    let order = rank_range(weights, 0, weights.len());
    proof {
        assert(w.subrange(0, w.len() as int) =~= w);
        assert(order.len() == ints_of_usize(order@).len());
        lemma_rank_order_places(w, ints_of_usize(order@));
        assert forall|k: int| 0 <= k < order.len() implies #[trigger] order[k] == company_at(
            w,
            k,
        ) by {
            assert(ints_of_usize(order@)[k] == order[k]);
        }
    }
    order
}

} // verus!
