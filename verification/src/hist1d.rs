//! Dense one-dimensional histograms over a half-open range of fixed-point
//! values, with exact integer bin-edge semantics.

use vstd::prelude::*;

use crate::intmath::{isqrt, isqrt_of, lemma_isqrt_le_of_square_bound};
use crate::seqsum::{
    lemma_mul_le_nonneg, lemma_sum_counts_element_bound, lemma_sum_counts_push,
    lemma_sum_counts_update_inc, lemma_sum_window_le_total, lemma_weighted_window_bounds,
    lemma_window_step, sum_counts, sum_window, wsum1, wsum2,
};
use crate::{CoreError, COORD_LIMIT, MAX_BINS, MAX_TOTAL, SENTINEL};

verus! {

/// The mathematical model of a one-dimensional histogram: its bin counts
/// and its half-open range `[min, max)` in micro-units.
pub struct HistView {
    pub bins: Seq<u64>,
    pub min: int,
    pub max: int,
}

impl HistView {
    /// A model that some well-formed histogram could have: a valid range
    /// within [`COORD_LIMIT`] and a valid bin count.
    pub open spec fn valid(self) -> bool {
        &&& -COORD_LIMIT <= self.min < self.max <= COORD_LIMIT
        &&& 1 <= self.bins.len() <= MAX_BINS
    }

    /// The width of the covered range, in micro-units.
    pub open spec fn width(self) -> int {
        self.max - self.min
    }

    /// Whether `v` lies in the half-open range `[min, max)`.
    pub open spec fn in_range(self, v: int) -> bool {
        self.min <= v < self.max
    }

    /// The bin a value in range falls into.
    pub open spec fn bin_of(self, v: int) -> int {
        (v - self.min) * self.bins.len() / (self.max - self.min)
    }

    /// Whether a fill with value `v` is accumulated rather than dropped.
    pub open spec fn accepts(self, v: i64) -> bool {
        &&& v != SENTINEL
        &&& self.in_range(v as int)
        &&& sum_counts(self.bins) < MAX_TOTAL
    }

    /// The model after one fill with value `v`.
    pub open spec fn filled(self, v: i64) -> HistView {
        if self.accepts(v) {
            HistView {
                bins: self.bins.update(
                    self.bin_of(v as int),
                    (self.bins[self.bin_of(v as int)] + 1) as u64,
                ),
                ..self
            }
        } else {
            self
        }
    }

    /// The model after filling every value of `vs` in order.
    pub open spec fn filled_all(self, vs: Seq<i64>) -> HistView
        decreases vs.len(),
    {
        if vs.len() == 0 {
            self
        } else {
            self.filled_all(vs.drop_last()).filled(vs.last())
        }
    }

    /// The first bin of a statistics window starting at `sx`: the bin the
    /// query position maps to, or bin `0` when it maps to none.
    pub open spec fn window_start(self, sx: int) -> int {
        if self.min <= sx <= self.max {
            self.bin_of(sx)
        } else {
            0
        }
    }

    /// The last bin of a statistics window ending at `ex`: the bin the
    /// query position maps to, or the last bin when it maps to none, and
    /// clamped to the last bin (the upper range edge maps one past it).
    pub open spec fn window_end(self, ex: int) -> int {
        let n = self.bins.len() as int;
        let e = if self.min <= ex <= self.max {
            self.bin_of(ex)
        } else {
            n - 1
        };
        if e > n - 1 {
            n - 1
        } else {
            e
        }
    }

    /// The number of samples in the bins overlapping `[sx, ex]`.
    pub open spec fn stats_count(self, sx: int, ex: int) -> int {
        let sb = self.window_start(sx);
        let eb = self.window_end(ex);
        if sb > eb {
            0
        } else {
            sum_window(self.bins, sb, eb + 1)
        }
    }

    /// The count-weighted mean of the bin centers over the window, rounded
    /// down to micro-units.  Bin `i`'s center is
    /// `min + (2 i + 1) * width / (2 n)`, so the mean is exactly
    /// `min + width * wsum1 / (2 n count)`.
    pub open spec fn stats_mean(self, sx: int, ex: int) -> int {
        let sb = self.window_start(sx);
        let eb = self.window_end(ex);
        let n = self.bins.len() as int;
        if sb > eb || sum_window(self.bins, sb, eb + 1) == 0 {
            0
        } else {
            self.min + self.width() * wsum1(self.bins, sb, eb + 1) / (2 * n * sum_window(
                self.bins,
                sb,
                eb + 1,
            ))
        }
    }

    /// The population standard deviation of the bin centers over the
    /// window, rounded down to micro-units: with `N` the window count,
    /// `S` the weighted sum and `Q` the square-weighted sum, the variance
    /// numerator is `N Q - S^2` (never negative; the spec clamps so the
    /// formula is total) and the result is
    /// `width * isqrt(N Q - S^2) / (2 n N)`.
    pub open spec fn stats_stdev(self, sx: int, ex: int) -> int {
        let sb = self.window_start(sx);
        let eb = self.window_end(ex);
        let n = self.bins.len() as int;
        let cnt = sum_window(self.bins, sb, eb + 1);
        if sb > eb || cnt == 0 {
            0
        } else {
            let s1 = wsum1(self.bins, sb, eb + 1);
            let s2 = wsum2(self.bins, sb, eb + 1);
            let a = cnt * s2 - s1 * s1;
            let a0 = if a >= 0 {
                a
            } else {
                0
            };
            self.width() * isqrt_of(a0 as nat) / (2 * n * cnt)
        }
    }

    /// How many entries of `vs` lie in the half-open range of this model.
    pub open spec fn count_in_range(self, vs: Seq<i64>) -> int
        decreases vs.len(),
    {
        if vs.len() == 0 {
            0
        } else {
            self.count_in_range(vs.drop_last()) + if self.in_range(vs.last() as int) {
                1int
            } else {
                0int
            }
        }
    }
}

/// For a valid model, every query position on the closed range maps to a
/// bin index between `0` and the bin count (the bin count itself only for
/// the upper edge).
pub proof fn lemma_bin_of_query_bounds(m: HistView, x: int)
    requires
        m.valid(),
        m.min <= x <= m.max,
    ensures
        0 <= m.bin_of(x) <= m.bins.len(),
{
    let n = m.bins.len() as int;
    let w = m.max - m.min;
    assert(0 <= (x - m.min) * n && (x - m.min) * n <= w * n) by (nonlinear_arith)
        requires
            m.min <= x,
            x - m.min <= w,
            n >= 1,
    ;
    vstd::arithmetic::div_mod::lemma_multiply_divide_le((x - m.min) * n, w, n);
    vstd::arithmetic::div_mod::lemma_div_pos_is_pos((x - m.min) * n, w);
}

/// For a valid model, every in-range value falls into an existing bin.
pub proof fn lemma_bin_of_bounds(m: HistView, v: int)
    requires
        m.valid(),
        m.in_range(v),
    ensures
        0 <= m.bin_of(v) < m.bins.len(),
{
    let n = m.bins.len() as int;
    let w = m.max - m.min;
    assert((v - m.min) * n >= 0 && (v - m.min) * n < w * n) by (nonlinear_arith)
        requires
            m.min <= v,
            v - m.min < w,
            n >= 1,
    ;
    vstd::arithmetic::div_mod::lemma_multiply_divide_lt((v - m.min) * n, w, n);
    vstd::arithmetic::div_mod::lemma_div_pos_is_pos((v - m.min) * n, w);
}

/// Filling values never changes the range or the number of bins.
pub proof fn lemma_filled_all_frame(m: HistView, vs: Seq<i64>)
    requires
        m.valid(),
    ensures
        m.filled_all(vs).min == m.min,
        m.filled_all(vs).max == m.max,
        m.filled_all(vs).bins.len() == m.bins.len(),
        m.filled_all(vs).valid(),
    decreases vs.len(),
{
    if vs.len() > 0 {
        lemma_filled_all_frame(m, vs.drop_last());
        let m1 = m.filled_all(vs.drop_last());
        let v = vs.last();
        if m1.accepts(v) {
            lemma_bin_of_bounds(m1, v as int);
        }
    }
}

/// Law: filling a sequence without sentinel values adds exactly the number
/// of its in-range entries to the sum of the bins, as long as the capacity
/// [`MAX_TOTAL`] is not exceeded.  In particular, on a fresh histogram the
/// sum of the bins equals the number of values inside `[min, max)`.
pub proof fn lemma_fill_all_in_range_count(m: HistView, vs: Seq<i64>)
    requires
        m.valid(),
        forall|i: int| 0 <= i < vs.len() ==> vs[i] != SENTINEL,
        sum_counts(m.bins) + m.count_in_range(vs) <= MAX_TOTAL,
        0 <= sum_counts(m.bins),
    ensures
        m.filled_all(vs).min == m.min,
        m.filled_all(vs).max == m.max,
        m.filled_all(vs).bins.len() == m.bins.len(),
        sum_counts(m.filled_all(vs).bins) == sum_counts(m.bins) + m.count_in_range(vs),
    decreases vs.len(),
{
    if vs.len() > 0 {
        let pre = vs.drop_last();
        let v = vs.last();
        lemma_fill_all_in_range_count(m, pre);
        let m1 = m.filled_all(pre);
        if m.in_range(v as int) {
            assert(m1.accepts(v));
            lemma_bin_of_bounds(m1, v as int);
            lemma_sum_counts_element_bound(m1.bins, m1.bin_of(v as int));
            lemma_sum_counts_update_inc(m1.bins, m1.bin_of(v as int));
        }
    }
}

/// Law: the statistics window spanning the full range covers every bin, so
/// its count equals the sum of all bins, which is the number of samples
/// ever accumulated.
pub proof fn lemma_stats_count_full_range(m: HistView)
    requires
        m.valid(),
    ensures
        m.stats_count(m.min, m.max) == sum_counts(m.bins),
{
    let n = m.bins.len() as int;
    let w = m.max - m.min;
    assert((m.min - m.min) * n == 0) by (nonlinear_arith);
    vstd::arithmetic::div_mod::lemma_div_of0(w);
    assert(m.bin_of(m.min) == 0);
    assert((m.max - m.min) * n == w * n);
    assert(w * n == n * w) by (nonlinear_arith);
    vstd::arithmetic::div_mod::lemma_div_by_multiple(n, w);
    assert(m.bin_of(m.max) == n);
    assert(m.window_start(m.min) == 0);
    assert(m.window_end(m.max) == n - 1);
    assert(m.bins.subrange(0, n) =~= m.bins);
}

/// A fixed-bin-count accumulator over one dimension.
///
/// The range `[min, max)` is half open: a sample `v` lands in bin
/// `(v - min) * bins.len() / (max - min)` exactly when `min <= v < max`.
/// With integer arithmetic this floor index is provably below
/// `bins.len()`, so no clamping is ever needed.  Samples equal to
/// [`SENTINEL`], outside the range, or arriving once the histogram holds
/// [`MAX_TOTAL`] samples are dropped silently.
pub struct Histogram {
    /// The per-bin counts.
    pub bins: Vec<u64>,
    /// Inclusive lower edge of the covered range, in micro-units.
    pub min: i64,
    /// Exclusive upper edge of the covered range, in micro-units.
    pub max: i64,
    /// Number of samples accumulated: always the sum of `bins`.
    pub total: u64,
}

impl View for Histogram {
    type V = HistView;

    open spec fn view(&self) -> HistView {
        HistView { bins: self.bins@, min: self.min as int, max: self.max as int }
    }
}

impl Histogram {
    /// Structural invariant: a valid range within [`COORD_LIMIT`], a valid
    /// bin count, and `total` equal to the sum of the bins and at most
    /// [`MAX_TOTAL`].
    pub open spec fn wf(self) -> bool {
        &&& self@.valid()
        &&& self.total == sum_counts(self.bins@)
        &&& self.total <= MAX_TOTAL
    }

    /// Creates a histogram with zeroed bins.
    ///
    /// Fails with `InvalidConfiguration` exactly when the bin count is zero
    /// or above [`MAX_BINS`], the range is empty or inverted, or an
    /// endpoint lies beyond [`COORD_LIMIT`].
    pub fn new(number_of_bins: usize, range: (i64, i64)) -> (r: Result<Histogram, CoreError>)
        ensures
            r is Ok <==> {
                &&& 1 <= number_of_bins <= MAX_BINS
                &&& -COORD_LIMIT <= range.0 < range.1 <= COORD_LIMIT
            },
            match r {
                Ok(h) => {
                    &&& h.wf()
                    &&& h.min == range.0
                    &&& h.max == range.1
                    &&& h.total == 0
                    &&& h.bins@.len() == number_of_bins
                    &&& forall|i: int| 0 <= i < number_of_bins ==> h.bins@[i] == 0u64
                },
                Err(e) => e == CoreError::InvalidConfiguration,
            },
    {
        if number_of_bins == 0 || number_of_bins > MAX_BINS {
            return Err(CoreError::InvalidConfiguration);
        }
        if range.0 >= range.1 || range.0 < -COORD_LIMIT || range.1 > COORD_LIMIT {
            return Err(CoreError::InvalidConfiguration);
        }
        let mut bins: Vec<u64> = Vec::new();
        let mut i: usize = 0;
        while i < number_of_bins
            invariant
                i <= number_of_bins,
                bins@.len() == i,
                forall|j: int| 0 <= j < i ==> bins@[j] == 0u64,
                sum_counts(bins@) == 0,
            decreases number_of_bins - i,
        {
            proof {
                lemma_sum_counts_push(bins@, 0u64);
            }
            bins.push(0u64);
            i = i + 1;
        }
        Ok(Histogram { bins, min: range.0, max: range.1, total: 0 })
    }

    /// Adds one sample.  A value equal to [`SENTINEL`] or outside
    /// `[min, max)` is dropped; otherwise its bin count and the total are
    /// incremented, unless the histogram already holds [`MAX_TOTAL`]
    /// samples, in which case the sample is dropped as well.
    pub fn fill(&mut self, value: i64)
        requires
            old(self).wf(),
        ensures
            final(self).wf(),
            final(self)@ == old(self)@.filled(value),
            final(self).total == if old(self)@.accepts(value) {
                old(self).total + 1
            } else {
                old(self).total as int
            },
    {
        if value == SENTINEL || value < self.min || value >= self.max || self.total >= MAX_TOTAL {
            return ;
        }
        proof {
            let v = value as int;
            let n = self.bins@.len() as int;
            assert(0 <= (v - self.min) * n <= 2 * COORD_LIMIT * MAX_BINS) by (nonlinear_arith)
                requires
                    self.min <= v < self.max,
                    -COORD_LIMIT <= self.min,
                    self.max <= COORD_LIMIT,
                    1 <= n <= MAX_BINS,
            ;
        }
        let num: i128 = (value as i128 - self.min as i128) * (self.bins.len() as i128);
        let den: i128 = self.max as i128 - self.min as i128;
        let index128: i128 = num / den;
        proof {
            lemma_bin_of_bounds(self@, value as int);
            assert(0 <= index128 < self.bins@.len());
            lemma_sum_counts_element_bound(self.bins@, index128 as int);
        }
        let index: usize = index128 as usize;
        let count: u64 = self.bins[index];
        self.bins.set(index, count + 1);
        proof {
            lemma_sum_counts_update_inc(old(self).bins@, index as int);
        }
        self.total = self.total + 1;
    }

    /// Adds every value of a column in order.  Each entry is subject to the
    /// same sentinel, range and capacity rules as [`Histogram::fill`].
    pub fn fill_many(&mut self, values: &Vec<i64>)
        requires
            old(self).wf(),
        ensures
            final(self).wf(),
            final(self)@ == old(self)@.filled_all(values@),
    {
        let ghost orig: HistView = self@;
        let mut i: usize = 0;
        while i < values.len()
            invariant
                self.wf(),
                i <= values@.len(),
                self@ == orig.filled_all(values@.take(i as int)),
            decreases values@.len() - i,
        {
            self.fill(values[i]);
            proof {
                assert(values@.take(i + 1).drop_last() =~= values@.take(i as int));
                assert(values@.take(i + 1).last() == values@[i as int]);
            }
            i = i + 1;
        }
        proof {
            assert(values@.take(values@.len() as int) =~= values@);
        }
    }

    /// Maps a query position onto a bin index.
    ///
    /// Unlike [`Histogram::fill`], the upper edge is included: the query is
    /// answered for any `x` with `min <= x <= max`, because it serves to
    /// locate a cursor position, not to classify a sample.  For `x == max`
    /// the returned index is the bin count itself, one past the last bin,
    /// exactly as the floor formula yields it.
    pub fn get_bin(&self, x: i64) -> (r: Option<usize>)
        requires
            self.wf(),
        ensures
            r == if self.min <= x <= self.max {
                Some((((x - self.min) * self.bins@.len()) / (self.max - self.min)) as usize)
            } else {
                None::<usize>
            },
    {
        if x < self.min || x > self.max {
            return None;
        }
        proof {
            let v = x as int;
            let n = self.bins@.len() as int;
            assert(0 <= (v - self.min) * n <= 2 * COORD_LIMIT * MAX_BINS) by (nonlinear_arith)
                requires
                    self.min <= v <= self.max,
                    -COORD_LIMIT <= self.min,
                    self.max <= COORD_LIMIT,
                    1 <= n <= MAX_BINS,
            ;
        }
        let num: i128 = (x as i128 - self.min as i128) * (self.bins.len() as i128);
        let den: i128 = self.max as i128 - self.min as i128;
        let index128: i128 = num / den;
        proof {
            let v = x as int;
            let n = self.bins@.len() as int;
            let w = self.max - self.min;
            assert((v - self.min) * n <= w * n) by (nonlinear_arith)
                requires
                    v - self.min <= w,
                    n >= 1,
            ;
            vstd::arithmetic::div_mod::lemma_multiply_divide_le((v - self.min) * n, w, n);
            vstd::arithmetic::div_mod::lemma_div_pos_is_pos((v - self.min) * n, w);
            assert(0 <= index128 <= self.bins@.len());
        }
        Some(index128 as usize)
    }

    /// The lower edge of bin `i`, rounded down to micro-units (bin count
    /// is a valid argument too: it yields the upper range edge's floor).
    pub open spec fn edge_of(self, i: int) -> int {
        self.min + i * (self.max - self.min) / (self.bins@.len() as int)
    }

    /// The outline of the histogram as a step line: two points per bin,
    /// `(lower edge, count)` and `(upper edge, count)`, in bin order.
    pub fn step_histogram_points(&self) -> (r: Vec<(i64, u64)>)
        requires
            self.wf(),
        ensures
            r@.len() == 2 * self.bins@.len(),
            forall|i: int|
                0 <= i < self.bins@.len() ==> {
                    &&& (#[trigger] r@[2 * i]).0 == self.edge_of(i)
                    &&& r@[2 * i].1 == self.bins@[i]
                    &&& r@[2 * i + 1].0 == self.edge_of(i + 1)
                    &&& r@[2 * i + 1].1 == self.bins@[i]
                },
    {
        let n: usize = self.bins.len();
        let mut r: Vec<(i64, u64)> = Vec::new();
        let mut i: usize = 0;
        while i < n
            invariant
                self.wf(),
                n == self.bins@.len(),
                i <= n,
                r@.len() == 2 * i,
                forall|j: int|
                    0 <= j < i ==> {
                        &&& (#[trigger] r@[2 * j]).0 == self.edge_of(j)
                        &&& r@[2 * j].1 == self.bins@[j]
                        &&& r@[2 * j + 1].0 == self.edge_of(j + 1)
                        &&& r@[2 * j + 1].1 == self.bins@[j]
                    },
            decreases n - i,
        {
            let lo: i64 = Self::edge_exec(i, self.min, self.max, n);
            let hi: i64 = Self::edge_exec(i + 1, self.min, self.max, n);
            let count: u64 = self.bins[i];
            r.push((lo, count));
            r.push((hi, count));
            i = i + 1;
        }
        r
    }

    /// The shared bin-edge computation.
    fn edge_exec(i: usize, lo: i64, hi: i64, n: usize) -> (r: i64)
        requires
            -COORD_LIMIT <= lo < hi <= COORD_LIMIT,
            1 <= n <= MAX_BINS,
            i <= n,
        ensures
            r == lo + (i as int) * (hi - lo) / (n as int),
    {
        proof {
            let w = hi as int - lo as int;
            assert(0 <= (i as int) * w <= (MAX_BINS as int) * (2 * COORD_LIMIT))
                by (nonlinear_arith)
                requires
                    0 <= i as int <= MAX_BINS as int,
                    1 <= w <= 2 * COORD_LIMIT,
            ;
            assert((i as int) * w <= (n as int) * w) by (nonlinear_arith)
                requires
                    i as int <= n as int,
                    w >= 1,
            ;
            vstd::arithmetic::div_mod::lemma_multiply_divide_le((i as int) * w, n as int, w);
            vstd::arithmetic::div_mod::lemma_div_pos_is_pos((i as int) * w, n as int);
        }
        let num: i128 = (i as i128) * (hi as i128 - lo as i128);
        let off: i128 = num / (n as i128);
        lo + (off as i64)
    }

    /// Windowed statistics over the bins overlapping `[start_x, end_x]`:
    /// the number of samples, and the count-weighted mean and population
    /// standard deviation of the bin centers, both rounded down to
    /// micro-units.  A query edge outside the closed range falls back to
    /// the first (respectively last) bin.  Bin centers stand in for the
    /// samples inside each bin, so mean and standard deviation approximate
    /// the true sample statistics to within half a bin width; they are not
    /// exact sample statistics.  A window whose start bin lies beyond its
    /// end bin, or one without samples, yields `(0, 0, 0)`.
    pub fn stats(&self, start_x: i64, end_x: i64) -> (r: (u64, i64, i64))
        requires
            self.wf(),
        ensures
            r.0 == self@.stats_count(start_x as int, end_x as int),
            r.1 == self@.stats_mean(start_x as int, end_x as int),
            r.2 == self@.stats_stdev(start_x as int, end_x as int),
    {
        let n: usize = self.bins.len();
        proof {
            if self.min <= start_x <= self.max {
                lemma_bin_of_query_bounds(self@, start_x as int);
            }
            if self.min <= end_x <= self.max {
                lemma_bin_of_query_bounds(self@, end_x as int);
            }
        }
        let start_bin: usize = match self.get_bin(start_x) {
            Some(b) => b,
            None => 0,
        };
        let end_pos: usize = match self.get_bin(end_x) {
            Some(b) => b,
            None => n - 1,
        };
        let end_bin: usize = if end_pos > n - 1 {
            n - 1
        } else {
            end_pos
        };
        proof {
            assert(start_bin as int == self@.window_start(start_x as int));
            assert(end_bin as int == self@.window_end(end_x as int));
        }
        if start_bin > end_bin {
            return (0, 0, 0);
        }
        let ghost sb: int = start_bin as int;
        let ghost eb: int = end_bin as int;
        let mut cnt: u64 = 0;
        let mut s1: u128 = 0;
        let mut s2: u128 = 0;
        let mut i: usize = start_bin;
        proof {
            assert(self.bins@.subrange(sb, sb) =~= Seq::<u64>::empty());
        }
        while i <= end_bin
            invariant
                self.wf(),
                0 <= sb <= i as int <= eb + 1,
                eb < self.bins@.len(),
                sb == start_bin as int,
                eb == end_bin as int,
                cnt == sum_window(self.bins@, sb, i as int),
                s1 == wsum1(self.bins@, sb, i as int),
                s2 == wsum2(self.bins@, sb, i as int),
            decreases eb + 1 - i,
        {
            let c: u64 = self.bins[i];
            let u: u128 = 2 * (i as u128) + 1;
            proof {
                let s = self.bins@;
                let ii = i as int;
                lemma_window_step(s, sb, ii);
                lemma_sum_window_le_total(s, sb, ii + 1);
                lemma_weighted_window_bounds(s, sb, ii + 1);
                lemma_sum_counts_element_bound(s, ii);
                assert((c as int) * (u as int) <= 2305843009213693952) by (nonlinear_arith)
                    requires
                        0 <= c as int <= 1099511627776,
                        0 <= u as int <= 2097151,
                ;
                assert(0 <= (2 * (ii + 1) - 1) * (2 * (ii + 1) - 1) <= (2 * MAX_BINS as int)
                    * (2 * MAX_BINS as int)) by (nonlinear_arith)
                    requires
                        0 <= 2 * (ii + 1) - 1 <= 2 * MAX_BINS as int,
                ;
                lemma_mul_le_nonneg(
                    sum_window(s, sb, ii + 1),
                    2 * (ii + 1) - 1,
                    MAX_TOTAL as int,
                    2 * MAX_BINS as int,
                );
                lemma_mul_le_nonneg(
                    sum_window(s, sb, ii + 1),
                    (2 * (ii + 1) - 1) * (2 * (ii + 1) - 1),
                    MAX_TOTAL as int,
                    (2 * MAX_BINS as int) * (2 * MAX_BINS as int),
                );
                assert((MAX_TOTAL as int) * (2 * MAX_BINS as int) == 2305843009213693952)
                    by (nonlinear_arith);
                assert((MAX_TOTAL as int) * ((2 * MAX_BINS as int) * (2 * MAX_BINS as int))
                    == 4835703278458516698824704) by (nonlinear_arith);
                assert((c as int) * ((u as int) * (u as int)) <= 4835703278458516698824704)
                    by (nonlinear_arith)
                    requires
                        0 <= c as int <= 1099511627776,
                        0 <= u as int <= 2097151,
                ;
            }
            let cu: u128 = (c as u128) * u;
            let cuu: u128 = (c as u128) * (u * u);
            cnt = cnt + c;
            s1 = s1 + cu;
            s2 = s2 + cuu;
            i = i + 1;
        }
        if cnt == 0 {
            return (0, 0, 0);
        }
        let ghost s = self.bins@;
        let ghost nn = self.bins@.len() as int;
        let ghost cntg = sum_window(s, sb, eb + 1);
        let ghost s1g = wsum1(s, sb, eb + 1);
        let ghost s2g = wsum2(s, sb, eb + 1);
        proof {
            lemma_weighted_window_bounds(s, sb, eb + 1);
            lemma_sum_window_le_total(s, sb, eb + 1);
            assert(s1g <= cntg * (2 * nn - 1) && s2g <= cntg * ((2 * nn - 1) * (2 * nn - 1)))
                by (nonlinear_arith)
                requires
                    s1g <= cntg * (2 * (eb + 1) - 1),
                    s2g <= cntg * ((2 * (eb + 1) - 1) * (2 * (eb + 1) - 1)),
                    cntg >= 0,
                    0 <= eb,
                    eb + 1 <= nn,
            ;
            assert(2 * nn * cntg <= 2305843009213693952 && 2 * nn * cntg >= 2)
                by (nonlinear_arith)
                requires
                    1 <= nn <= 1048576,
                    1 <= cntg <= 1099511627776,
            ;
            assert(s1g <= 2305843009213693952) by (nonlinear_arith)
                requires
                    s1g <= cntg * (2 * nn - 1),
                    0 <= cntg <= 1099511627776,
                    1 <= nn <= 1048576,
            ;
            assert(s2g <= 4835703278458516698824704) by (nonlinear_arith)
                requires
                    s2g <= cntg * ((2 * nn - 1) * (2 * nn - 1)),
                    0 <= cntg <= 1099511627776,
                    1 <= nn <= 1048576,
            ;
        }
        let w128: i128 = self.max as i128 - self.min as i128;
        let n128: i128 = n as i128;
        let cnt128: i128 = cnt as i128;
        let denom: i128 = 2 * n128 * cnt128;
        proof {
            assert((w128 as int) * (s1 as int) <= 10384593717069655257060992658440192)
                by (nonlinear_arith)
                requires
                    0 <= w128 as int <= 2000000000000000,
                    0 <= s1 as int <= 2305843009213693952,
            ;
        }
        let ws1: i128 = w128 * (s1 as i128);
        proof {
            assert((w128 as int) * (s1 as int) >= 0) by (nonlinear_arith)
                requires
                    w128 as int >= 0,
                    s1 as int >= 0,
            ;
            assert((w128 as int) * (s1g as int) < (2 * nn * cntg) * (w128 as int))
                by (nonlinear_arith)
                requires
                    s1g <= cntg * (2 * nn - 1),
                    w128 as int >= 1,
                    cntg >= 1,
                    nn >= 1,
            ;
            vstd::arithmetic::div_mod::lemma_multiply_divide_lt(
                (w128 as int) * (s1g as int),
                2 * nn * cntg,
                w128 as int,
            );
            vstd::arithmetic::div_mod::lemma_div_pos_is_pos(
                (w128 as int) * (s1g as int),
                2 * nn * cntg,
            );
        }
        let mean_off: i128 = ws1 / denom;
        let mean: i64 = self.min + (mean_off as i64);
        proof {
            assert((cnt as int) * (s2 as int) <= 5316911983139663491615228241121378304)
                by (nonlinear_arith)
                requires
                    0 <= cnt as int <= 1099511627776,
                    0 <= s2 as int <= 4835703278458516698824704,
            ;
            assert((s1 as int) * (s1 as int) <= 5316911983139663491615228241121378304)
                by (nonlinear_arith)
                requires
                    0 <= s1 as int <= 2305843009213693952,
            ;
        }
        let nq: u128 = (cnt as u128) * s2;
        let ss: u128 = s1 * s1;
        let a0: u128 = if nq >= ss {
            nq - ss
        } else {
            0
        };
        let rt: u128 = isqrt(a0);
        proof {
            assert((a0 as int) <= (cntg * (2 * nn - 1)) * (cntg * (2 * nn - 1)))
                by (nonlinear_arith)
                requires
                    a0 as int <= cntg * (s2g as int),
                    s2g <= cntg * ((2 * nn - 1) * (2 * nn - 1)),
                    cntg >= 0,
                    nn >= 1,
            ;
            lemma_isqrt_le_of_square_bound(a0 as nat, (cntg * (2 * nn - 1)) as nat);
            assert(cntg * (2 * nn - 1) <= 2305843009213693952) by (nonlinear_arith)
                requires
                    1 <= cntg <= 1099511627776,
                    1 <= nn <= 1048576,
            ;
            assert((w128 as int) * (rt as int) <= 10384593717069655257060992658440192)
                by (nonlinear_arith)
                requires
                    0 <= w128 as int <= 2000000000000000,
                    0 <= rt as int <= 2305843009213693952,
            ;
            assert((w128 as int) * (rt as int) >= 0) by (nonlinear_arith)
                requires
                    w128 as int >= 0,
                    rt as int >= 0,
            ;
            assert((w128 as int) * (rt as int) < (2 * nn * cntg) * (w128 as int))
                by (nonlinear_arith)
                requires
                    rt as int <= cntg * (2 * nn - 1),
                    w128 as int >= 1,
                    cntg >= 1,
                    nn >= 1,
            ;
            vstd::arithmetic::div_mod::lemma_multiply_divide_lt(
                (w128 as int) * (rt as int),
                2 * nn * cntg,
                w128 as int,
            );
            vstd::arithmetic::div_mod::lemma_div_pos_is_pos(
                (w128 as int) * (rt as int),
                2 * nn * cntg,
            );
        }
        let wrt: i128 = w128 * (rt as i128);
        let sd128: i128 = wrt / denom;
        (cnt, mean, sd128 as i64)
    }
}

} // verus!
