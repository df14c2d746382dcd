//! Sums and extremes of sequences of integers.

use vstd::prelude::*;

verus! {

/// The sum of a sequence.
pub open spec fn total(s: Seq<int>) -> int
    decreases s.len(),
{
    if s.len() == 0 {
        0
    } else {
        total(s.drop_last()) + s.last()
    }
}

/// The smallest value of a sequence; zero for the empty sequence.
pub open spec fn least(s: Seq<int>) -> int
    decreases s.len(),
{
    if s.len() == 0 {
        0
    } else if s.len() == 1 {
        s[0]
    } else if s.last() < least(s.drop_last()) {
        s.last()
    } else {
        least(s.drop_last())
    }
}

/// The largest value of a sequence; zero for the empty sequence.
pub open spec fn greatest(s: Seq<int>) -> int
    decreases s.len(),
{
    if s.len() == 0 {
        0
    } else if s.len() == 1 {
        s[0]
    } else if s.last() > greatest(s.drop_last()) {
        s.last()
    } else {
        greatest(s.drop_last())
    }
}

/// The smallest of the values above zero; zero where there is none.
pub open spec fn least_positive(s: Seq<int>) -> int
    decreases s.len(),
{
    if s.len() == 0 {
        0
    } else {
        let rest = least_positive(s.drop_last());
        if s.last() > 0 && (rest == 0 || s.last() < rest) {
            s.last()
        } else {
            rest
        }
    }
}

/// The smallest value is a value of the sequence and bounds all of them from
/// below.
pub proof fn lemma_least(s: Seq<int>)
    requires
        s.len() > 0,
    ensures
        forall|i: int| 0 <= i < s.len() ==> least(s) <= #[trigger] s[i],
        exists|i: int| 0 <= i < s.len() && #[trigger] s[i] == least(s),
    decreases s.len(),
{
    if s.len() == 1 {
        assert(s[0] == least(s));
    } else {
        let head = s.drop_last();
        lemma_least(head);
        let w = choose|i: int| 0 <= i < head.len() && #[trigger] head[i] == least(head);
        assert forall|i: int| 0 <= i < s.len() implies least(s) <= #[trigger] s[i] by {
            if i < head.len() {
                assert(head[i] == s[i]);
            }
        }
        if s.last() < least(head) {
            assert(s[s.len() - 1] == least(s));
        } else {
            assert(s[w] == head[w]);
        }
    }
}

/// The largest value is a value of the sequence and bounds all of them from
/// above.
pub proof fn lemma_greatest(s: Seq<int>)
    requires
        s.len() > 0,
    ensures
        forall|i: int| 0 <= i < s.len() ==> #[trigger] s[i] <= greatest(s),
        exists|i: int| 0 <= i < s.len() && #[trigger] s[i] == greatest(s),
    decreases s.len(),
{
    if s.len() == 1 {
        assert(s[0] == greatest(s));
    } else {
        let head = s.drop_last();
        lemma_greatest(head);
        let w = choose|i: int| 0 <= i < head.len() && #[trigger] head[i] == greatest(head);
        assert forall|i: int| 0 <= i < s.len() implies #[trigger] s[i] <= greatest(s) by {
            if i < head.len() {
                assert(head[i] == s[i]);
            }
        }
        if s.last() > greatest(head) {
            assert(s[s.len() - 1] == greatest(s));
        } else {
            assert(s[w] == head[w]);
        }
    }
}

/// Where no value is above zero there is no smallest such value; otherwise
/// it is one of them and bounds all of them from below.
pub proof fn lemma_least_positive(s: Seq<int>)
    ensures
        least_positive(s) >= 0,
        least_positive(s) == 0 <==> (forall|i: int| 0 <= i < s.len() ==> #[trigger] s[i] <= 0),
        forall|i: int|
            0 <= i < s.len() && #[trigger] s[i] > 0 ==> 0 < least_positive(s) <= s[i],
        least_positive(s) > 0 ==> exists|i: int|
            0 <= i < s.len() && #[trigger] s[i] == least_positive(s),
    decreases s.len(),
{
    if s.len() > 0 {
        let head = s.drop_last();
        lemma_least_positive(head);
        assert forall|i: int| 0 <= i < head.len() implies #[trigger] head[i] == s[i] by {}
        if least_positive(s) == 0 {
            assert forall|i: int| 0 <= i < s.len() implies #[trigger] s[i] <= 0 by {
                if i < head.len() {
                    assert(head[i] == s[i]);
                }
            }
        } else {
            assert(!(s[s.len() - 1] <= 0) || !(forall|i: int|
                0 <= i < head.len() ==> #[trigger] head[i] <= 0));
            if forall|i: int| 0 <= i < s.len() ==> #[trigger] s[i] <= 0 {
                assert forall|i: int| 0 <= i < head.len() implies #[trigger] head[i] <= 0 by {
                    assert(head[i] == s[i]);
                }
            }
        }
        assert forall|i: int| 0 <= i < s.len() && #[trigger] s[i] > 0 implies 0 < least_positive(
            s,
        ) <= s[i] by {
            if i < head.len() {
                assert(head[i] == s[i]);
            }
        }
        if least_positive(s) > 0 {
            if least_positive(s) == s.last() {
                assert(s[s.len() - 1] == least_positive(s));
            } else {
                let w = choose|i: int|
                    0 <= i < head.len() && #[trigger] head[i] == least_positive(head);
                assert(s[w] == head[w]);
            }
        }
    }
}

/// Taking one more value of a sequence adds that value at the end.
pub proof fn lemma_take_next(s: Seq<int>, i: int)
    requires
        0 <= i < s.len(),
    ensures
        s.take(i + 1).drop_last() == s.take(i),
        s.take(i + 1).last() == s[i],
        s.take(s.len() as int) == s,
{
    assert(s.take(i + 1).drop_last() =~= s.take(i));
    assert(s.take(s.len() as int) =~= s);
}

/// A sum of values that are not negative is not negative, and no value
/// exceeds it.
pub proof fn lemma_total_bounds(s: Seq<int>)
    requires
        forall|i: int| 0 <= i < s.len() ==> 0 <= #[trigger] s[i],
    ensures
        0 <= total(s),
        forall|i: int| 0 <= i < s.len() ==> #[trigger] s[i] <= total(s),
    decreases s.len(),
{
    if s.len() > 0 {
        let head = s.drop_last();
        assert forall|i: int| 0 <= i < head.len() implies 0 <= #[trigger] head[i] by {
            assert(head[i] == s[i]);
        }
        lemma_total_bounds(head);
        assert forall|i: int| 0 <= i < s.len() implies #[trigger] s[i] <= total(s) by {
            if i < head.len() {
                assert(head[i] == s[i]);
            }
        }
    }
}

/// A sum of values that are each at most `cap` is at most `cap` times their
/// number.
pub proof fn lemma_total_at_most(s: Seq<int>, cap: int)
    requires
        forall|i: int| 0 <= i < s.len() ==> #[trigger] s[i] <= cap,
    ensures
        total(s) <= cap * s.len(),
    decreases s.len(),
{
    if s.len() > 0 {
        let head = s.drop_last();
        assert forall|i: int| 0 <= i < head.len() implies #[trigger] head[i] <= cap by {
            assert(head[i] == s[i]);
        }
        lemma_total_at_most(head, cap);
        assert(cap * head.len() + cap == cap * s.len()) by (nonlinear_arith)
            requires
                head.len() + 1 == s.len(),
        ;
    } else {
        assert(cap * 0 == 0) by (nonlinear_arith);
    }
}

/// A sum of values that are each at least `floor` is at least `floor` times
/// their number.
pub proof fn lemma_total_at_least(s: Seq<int>, floor: int)
    requires
        forall|i: int| 0 <= i < s.len() ==> floor <= #[trigger] s[i],
    ensures
        floor * s.len() <= total(s),
    decreases s.len(),
{
    if s.len() > 0 {
        let head = s.drop_last();
        assert forall|i: int| 0 <= i < head.len() implies floor <= #[trigger] head[i] by {
            assert(head[i] == s[i]);
        }
        lemma_total_at_least(head, floor);
        assert(floor * head.len() + floor == floor * s.len()) by (nonlinear_arith)
            requires
                head.len() + 1 == s.len(),
        ;
    } else {
        assert(floor * 0 == 0) by (nonlinear_arith);
    }
}

} // verus!
