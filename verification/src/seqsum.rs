//! Sums of count sequences, and the small lemmas about them that the
//! histogram invariants rely on.

use vstd::prelude::*;

verus! {

/// The sum of a sequence of bin counts, as an unbounded integer.
pub open spec fn sum_counts(s: Seq<u64>) -> int
    decreases s.len(),
{
    if s.len() == 0 {
        0
    } else {
        sum_counts(s.drop_last()) + s.last()
    }
}

/// A sum of counts is never negative.
pub proof fn lemma_sum_counts_nonneg(s: Seq<u64>)
    ensures
        sum_counts(s) >= 0,
    decreases s.len(),
{
    if s.len() > 0 {
        lemma_sum_counts_nonneg(s.drop_last());
    }
}

/// Appending one count adds it to the sum.
pub proof fn lemma_sum_counts_push(s: Seq<u64>, v: u64)
    ensures
        sum_counts(s.push(v)) == sum_counts(s) + v,
{
    assert(s.push(v).drop_last() =~= s);
}

/// Every element is bounded by the sum of the whole sequence.
pub proof fn lemma_sum_counts_element_bound(s: Seq<u64>, i: int)
    requires
        0 <= i < s.len(),
    ensures
        s[i] <= sum_counts(s),
    decreases s.len(),
{
    if i == s.len() - 1 {
        lemma_sum_counts_nonneg(s.drop_last());
    } else {
        lemma_sum_counts_element_bound(s.drop_last(), i);
    }
}

/// Splitting a sequence splits its sum.
pub proof fn lemma_sum_counts_concat(a: Seq<u64>, b: Seq<u64>)
    ensures
        sum_counts(a + b) == sum_counts(a) + sum_counts(b),
    decreases b.len(),
{
    if b.len() == 0 {
        assert(a + b =~= a);
    } else {
        assert((a + b).drop_last() =~= a + b.drop_last());
        lemma_sum_counts_concat(a, b.drop_last());
    }
}

/// The sum of the counts in the index window `[lo, hi)`.
pub open spec fn sum_window(s: Seq<u64>, lo: int, hi: int) -> int {
    sum_counts(s.subrange(lo, hi))
}

/// The window sum weighted by the odd numbers `2 i + 1`: twice each bin
/// index's offset from the lower range edge, measured in half bin widths,
/// so that bin centers stay integral.
pub open spec fn wsum1(s: Seq<u64>, lo: int, hi: int) -> int
    decreases hi - lo,
{
    if lo >= hi {
        0
    } else {
        wsum1(s, lo, hi - 1) + s[hi - 1] * (2 * (hi - 1) + 1)
    }
}

/// The window sum weighted by the squares of the odd numbers `2 i + 1`.
pub open spec fn wsum2(s: Seq<u64>, lo: int, hi: int) -> int
    decreases hi - lo,
{
    if lo >= hi {
        0
    } else {
        wsum2(s, lo, hi - 1) + s[hi - 1] * ((2 * (hi - 1) + 1) * (2 * (hi - 1) + 1))
    }
}

/// Extending a window by one bin adds that bin to each of the three sums.
pub proof fn lemma_window_step(s: Seq<u64>, lo: int, hi: int)
    requires
        0 <= lo <= hi < s.len(),
    ensures
        sum_window(s, lo, hi + 1) == sum_window(s, lo, hi) + s[hi],
        wsum1(s, lo, hi + 1) == wsum1(s, lo, hi) + s[hi] * (2 * hi + 1),
        wsum2(s, lo, hi + 1) == wsum2(s, lo, hi) + s[hi] * ((2 * hi + 1) * (2 * hi + 1)),
{
    assert(s.subrange(lo, hi + 1).drop_last() =~= s.subrange(lo, hi));
}

/// A window sum never exceeds the sum over the whole sequence.
pub proof fn lemma_sum_window_le_total(s: Seq<u64>, lo: int, hi: int)
    requires
        0 <= lo <= hi <= s.len(),
    ensures
        0 <= sum_window(s, lo, hi) <= sum_counts(s),
{
    let a = s.subrange(0, lo);
    let b = s.subrange(lo, hi);
    let c = s.subrange(hi, s.len() as int);
    assert(s =~= a + b + c);
    lemma_sum_counts_concat(a + b, c);
    lemma_sum_counts_concat(a, b);
    lemma_sum_counts_nonneg(a);
    lemma_sum_counts_nonneg(b);
    lemma_sum_counts_nonneg(c);
}

/// The weighted window sums are non-negative and bounded by the plain
/// window sum times the largest (squared) weight in the window.
pub proof fn lemma_weighted_window_bounds(s: Seq<u64>, lo: int, hi: int)
    requires
        0 <= lo <= hi <= s.len(),
    ensures
        0 <= wsum1(s, lo, hi) <= sum_window(s, lo, hi) * (2 * hi - 1),
        0 <= wsum2(s, lo, hi) <= sum_window(s, lo, hi) * ((2 * hi - 1) * (2 * hi - 1)),
    decreases hi - lo,
{
    lemma_sum_window_le_total(s, lo, hi);
    if lo >= hi {
        assert(s.subrange(lo, hi) =~= Seq::<u64>::empty());
        assert(sum_window(s, lo, hi) == 0);
    } else {
        lemma_weighted_window_bounds(s, lo, hi - 1);
        lemma_window_step(s, lo, hi - 1);
        lemma_sum_window_le_total(s, lo, hi - 1);
        let c = s[hi - 1] as int;
        let m = sum_window(s, lo, hi - 1);
        let u: int = 2 * (hi - 1) + 1;
        let v: int = 2 * hi - 1;
        assert(u == v);
        assert(wsum1(s, lo, hi - 1) <= m * (2 * (hi - 1) - 1) ==> wsum1(s, lo, hi - 1) <= m * v)
            by (nonlinear_arith)
            requires
                m >= 0,
                v >= 2 * (hi - 1) - 1,
        ;
        assert(m * v + c * v == (m + c) * v) by (nonlinear_arith);
        assert(wsum1(s, lo, hi) >= 0 && c * v >= 0) by (nonlinear_arith)
            requires
                wsum1(s, lo, hi) == wsum1(s, lo, hi - 1) + c * v,
                wsum1(s, lo, hi - 1) >= 0,
                c >= 0,
                v >= 1,
        ;
        let w2 = 2 * (hi - 1) - 1;
        assert(wsum2(s, lo, hi - 1) <= m * (w2 * w2) ==> wsum2(s, lo, hi - 1) <= m * (v * v))
            by (nonlinear_arith)
            requires
                m >= 0,
                v >= 1,
                w2 == v - 2,
        ;
        assert(m * (v * v) + c * (v * v) == (m + c) * (v * v)) by (nonlinear_arith);
        assert(wsum2(s, lo, hi) >= 0 && c * (v * v) >= 0) by (nonlinear_arith)
            requires
                wsum2(s, lo, hi) == wsum2(s, lo, hi - 1) + c * (v * v),
                wsum2(s, lo, hi - 1) >= 0,
                c >= 0,
                v >= 1,
        ;
    }
}

/// A product of bounded non-negative factors is bounded by the product of
/// the bounds.
pub proof fn lemma_mul_le_nonneg(a: int, b: int, bound_a: int, bound_b: int)
    requires
        0 <= a <= bound_a,
        0 <= b <= bound_b,
    ensures
        0 <= a * b <= bound_a * bound_b,
{
    assert(0 <= a * b <= bound_a * bound_b) by (nonlinear_arith)
        requires
            0 <= a <= bound_a,
            0 <= b <= bound_b,
    ;
}

/// Incrementing one element increments the sum.
pub proof fn lemma_sum_counts_update_inc(s: Seq<u64>, i: int)
    requires
        0 <= i < s.len(),
        s[i] < u64::MAX,
    ensures
        sum_counts(s.update(i, (s[i] + 1) as u64)) == sum_counts(s) + 1,
    decreases s.len(),
{
    let t = s.update(i, (s[i] + 1) as u64);
    if i == s.len() - 1 {
        assert(t.drop_last() =~= s.drop_last());
    } else {
        assert(t.drop_last() =~= s.drop_last().update(i, (s[i] + 1) as u64));
        lemma_sum_counts_update_inc(s.drop_last(), i);
    }
}

} // verus!
