//! Sparse two-dimensional histograms: only populated bins occupy memory,
//! so nominal grids of millions of bins cost nothing while empty.

use vstd::hash_map::HashMapWithView;
use vstd::prelude::*;

use crate::intmath::lemma_axis_bin_bounds;
use crate::{CoreError, COORD_LIMIT, MAX_BINS, MAX_TOTAL, SENTINEL};

verus! {

broadcast use vstd::std_specs::hash::group_hash_axioms, vstd::seq_lib::lemma_seq_contains_after_push;

/// Bin-index pairs are packed into one `u64` key: `x_index * KEY_BASE +
/// y_index`.  Both indices stay below [`MAX_BINS`], far below `KEY_BASE`,
/// so packing is injective.
pub const KEY_BASE: u64 = 4294967296;

/// The mathematical model of a sparse two-dimensional histogram: the
/// populated-bin counts keyed by packed bin pair, the packed keys in the
/// order they were first populated, the per-axis ranges and bin counts,
/// the running extrema over populated bins, and the number of samples.
#[verifier::ext_equal]
pub struct Hist2View {
    pub counts: Map<u64, u64>,
    pub keys: Seq<u64>,
    pub x_min: int,
    pub x_max: int,
    pub y_min: int,
    pub y_max: int,
    pub x_bins: int,
    pub y_bins: int,
    pub min_count: u64,
    pub max_count: u64,
    pub total: u64,
}

impl Hist2View {
    /// The x bin index of a packed key.
    pub open spec fn key_x(k: u64) -> int {
        k as int / (KEY_BASE as int)
    }

    /// The y bin index of a packed key.
    pub open spec fn key_y(k: u64) -> int {
        k as int % (KEY_BASE as int)
    }

    /// The packed key of a bin-index pair.
    pub open spec fn pair_key(xi: int, yi: int) -> u64 {
        (xi * (KEY_BASE as int) + yi) as u64
    }

    /// A model that some well-formed histogram could have: valid bounded
    /// ranges and bin counts on both axes; no duplicate keys; the key list
    /// and the count map describe the same populated bins; every key
    /// decodes to an existing bin; every populated count is between one
    /// and the sample total, which respects [`MAX_TOTAL`].
    pub open spec fn valid(self) -> bool {
        &&& -COORD_LIMIT <= self.x_min < self.x_max <= COORD_LIMIT
        &&& -COORD_LIMIT <= self.y_min < self.y_max <= COORD_LIMIT
        &&& 1 <= self.x_bins <= MAX_BINS
        &&& 1 <= self.y_bins <= MAX_BINS
        &&& self.total <= MAX_TOTAL
        &&& self.keys.no_duplicates()
        &&& forall|k: u64| self.counts.contains_key(k) <==> self.keys.contains(k)
        &&& forall|i: int|
            0 <= i < self.keys.len() ==> 0 <= #[trigger] Self::key_x(self.keys[i]) < self.x_bins
                && 0 <= Self::key_y(self.keys[i]) < self.y_bins
        &&& forall|k: u64|
            #[trigger] self.counts.contains_key(k) ==> 1 <= self.counts[k] <= self.total
    }

    /// The x bin a value in range falls into.
    pub open spec fn x_bin_of(self, v: int) -> int {
        (v - self.x_min) * self.x_bins / (self.x_max - self.x_min)
    }

    /// The y bin a value in range falls into.
    pub open spec fn y_bin_of(self, v: int) -> int {
        (v - self.y_min) * self.y_bins / (self.y_max - self.y_min)
    }

    /// Whether a fill with the pair `(x, y)` is accumulated: both
    /// coordinates non-sentinel and inside their half-open ranges, with
    /// the capacity not yet reached.
    pub open spec fn accepts(self, x: i64, y: i64) -> bool {
        &&& x != SENTINEL
        &&& y != SENTINEL
        &&& self.x_min <= x < self.x_max
        &&& self.y_min <= y < self.y_max
        &&& self.total < MAX_TOTAL
    }

    /// The model after one fill with `(x, y)`: the packed bin's count and
    /// the total are incremented, a newly populated key is appended, and
    /// the extrema are updated incrementally from the new count alone.
    pub open spec fn filled(self, x: i64, y: i64) -> Hist2View {
        if self.accepts(x, y) {
            let k = Self::pair_key(self.x_bin_of(x as int), self.y_bin_of(y as int));
            let c1 = (if self.counts.contains_key(k) {
                self.counts[k] + 1
            } else {
                1
            }) as u64;
            Hist2View {
                counts: self.counts.insert(k, c1),
                keys: if self.counts.contains_key(k) {
                    self.keys
                } else {
                    self.keys.push(k)
                },
                min_count: if c1 < self.min_count {
                    c1
                } else {
                    self.min_count
                },
                max_count: if c1 > self.max_count {
                    c1
                } else {
                    self.max_count
                },
                total: (self.total + 1) as u64,
                ..self
            }
        } else {
            self
        }
    }

    /// The model after filling the first `n` pairs of two equally long
    /// columns in order.
    pub open spec fn filled_upto(self, xs: Seq<i64>, ys: Seq<i64>, n: int) -> Hist2View
        decreases n,
    {
        if n <= 0 {
            self
        } else {
            self.filled_upto(xs, ys, n - 1).filled(xs[n - 1], ys[n - 1])
        }
    }

    /// The smallest count among the first `i` populated bins, starting
    /// from `u64::MAX` on none.
    pub open spec fn min_scan(self, i: int) -> u64
        decreases i,
    {
        if i <= 0 {
            u64::MAX
        } else {
            let c = self.counts[self.keys[i - 1]];
            let p = self.min_scan(i - 1);
            if c < p {
                c
            } else {
                p
            }
        }
    }

    /// The largest count among the first `i` populated bins, starting
    /// from `0` on none.
    pub open spec fn max_scan(self, i: int) -> u64
        decreases i,
    {
        if i <= 0 {
            0
        } else {
            let c = self.counts[self.keys[i - 1]];
            let p = self.max_scan(i - 1);
            if c > p {
                c
            } else {
                p
            }
        }
    }

    /// The model after a full rescan of the populated bins: the extrema
    /// become the true extremes over the populated counts.
    pub open spec fn rescanned(self) -> Hist2View {
        Hist2View {
            min_count: self.min_scan(self.keys.len() as int),
            max_count: self.max_scan(self.keys.len() as int),
            ..self
        }
    }

    /// The center of bin column `xi` along x, rounded down to micro-units.
    pub open spec fn x_center(self, xi: int) -> int {
        self.x_min + (2 * xi + 1) * (self.x_max - self.x_min) / (2 * self.x_bins)
    }

    /// The center of bin row `yi` along y, rounded down to micro-units.
    pub open spec fn y_center(self, yi: int) -> int {
        self.y_min + (2 * yi + 1) * (self.y_max - self.y_min) / (2 * self.y_bins)
    }

    /// The width of one x bin, rounded down to micro-units.
    pub open spec fn x_width(self) -> int {
        (self.x_max - self.x_min) / self.x_bins
    }

    /// The height of one y bin, rounded down to micro-units.
    pub open spec fn y_width(self) -> int {
        (self.y_max - self.y_min) / self.y_bins
    }
}

/// Packing bin-index pairs into keys is injective on existing bins.
proof fn lemma_pair_key_injective(a: int, b: int, c: int, d: int)
    requires
        0 <= a < 1048576,
        0 <= b < 4294967296,
        0 <= c < 1048576,
        0 <= d < 4294967296,
        Hist2View::pair_key(a, b) == Hist2View::pair_key(c, d),
    ensures
        a == c,
        b == d,
{
    assert(0 <= a * (KEY_BASE as int) <= 4503595332403200 && 0 <= c * (KEY_BASE as int)
        <= 4503595332403200) by (nonlinear_arith)
        requires
            0 <= a <= 1048575,
            0 <= c <= 1048575,
    ;
    let va = a * (KEY_BASE as int) + b;
    let vc = c * (KEY_BASE as int) + d;
    assert(Hist2View::pair_key(a, b) as int == va);
    assert(Hist2View::pair_key(c, d) as int == vc);
    vstd::arithmetic::div_mod::lemma_fundamental_div_mod_converse(va, KEY_BASE as int, a, b);
    vstd::arithmetic::div_mod::lemma_fundamental_div_mod_converse(vc, KEY_BASE as int, c, d);
}

/// Law: filling an empty histogram with pairs that land in pairwise
/// distinct bins populates exactly one cell per pair, whatever the
/// nominal grid size: the sparse store grows with the data, not with the
/// bin counts.
pub proof fn lemma_distinct_fills_populate_distinct_bins(
    m: Hist2View,
    xs: Seq<i64>,
    ys: Seq<i64>,
    n: int,
)
    requires
        m.valid(),
        m.keys.len() == 0,
        forall|k: u64| !m.counts.contains_key(k),
        m.total + n <= MAX_TOTAL,
        0 <= n <= xs.len(),
        n <= ys.len(),
        forall|i: int|
            0 <= i < n ==> {
                &&& #[trigger] xs[i] != SENTINEL
                &&& ys[i] != SENTINEL
                &&& m.x_min <= xs[i] < m.x_max
                &&& m.y_min <= ys[i] < m.y_max
            },
        forall|i: int, j: int|
            #![trigger xs[i], xs[j]]
            0 <= i < j < n ==> (m.x_bin_of(xs[i] as int) != m.x_bin_of(xs[j] as int) || m.y_bin_of(
                ys[i] as int,
            ) != m.y_bin_of(ys[j] as int)),
    ensures
        m.filled_upto(xs, ys, n).keys.len() == n,
        m.filled_upto(xs, ys, n).total == m.total + n,
        forall|i: int|
            0 <= i < n ==> #[trigger] m.filled_upto(xs, ys, n).keys[i] == Hist2View::pair_key(
                m.x_bin_of(xs[i] as int),
                m.y_bin_of(ys[i] as int),
            ),
        forall|k: u64|
            #[trigger] m.filled_upto(xs, ys, n).counts.contains_key(k) <==> m.filled_upto(
                xs,
                ys,
                n,
            ).keys.contains(k),
    decreases n,
{
    lemma_filled_upto_frame(m, xs, ys, n);
    if n > 0 {
        lemma_distinct_fills_populate_distinct_bins(m, xs, ys, n - 1);
        lemma_filled_upto_frame(m, xs, ys, n - 1);
        let m1 = m.filled_upto(xs, ys, n - 1);
        let x = xs[n - 1];
        let y = ys[n - 1];
        assert(m1.accepts(x, y));
        let bx = m.x_bin_of(x as int);
        let by = m.y_bin_of(y as int);
        lemma_axis_bin_bounds(m.x_min, m.x_max, m.x_bins, x as int);
        lemma_axis_bin_bounds(m.y_min, m.y_max, m.y_bins, y as int);
        let k_new = Hist2View::pair_key(bx, by);
        assert(!m1.keys.contains(k_new)) by {
            if m1.keys.contains(k_new) {
                let i = choose|i: int| 0 <= i < m1.keys.len() && m1.keys[i] == k_new;
                assert(xs[i] != SENTINEL);
                lemma_axis_bin_bounds(m.x_min, m.x_max, m.x_bins, xs[i] as int);
                lemma_axis_bin_bounds(m.y_min, m.y_max, m.y_bins, ys[i] as int);
                lemma_pair_key_injective(
                    m.x_bin_of(xs[i] as int),
                    m.y_bin_of(ys[i] as int),
                    bx,
                    by,
                );
            }
        }
        assert(!m1.counts.contains_key(k_new));
        assert(m.filled_upto(xs, ys, n).keys == m1.keys.push(k_new));
    }
}

/// Filling pairs never changes the ranges or the bin counts.
pub proof fn lemma_filled_upto_frame(m: Hist2View, xs: Seq<i64>, ys: Seq<i64>, n: int)
    ensures
        m.filled_upto(xs, ys, n).x_min == m.x_min,
        m.filled_upto(xs, ys, n).x_max == m.x_max,
        m.filled_upto(xs, ys, n).y_min == m.y_min,
        m.filled_upto(xs, ys, n).y_max == m.y_max,
        m.filled_upto(xs, ys, n).x_bins == m.x_bins,
        m.filled_upto(xs, ys, n).y_bins == m.y_bins,
    decreases n,
{
    if n > 0 {
        lemma_filled_upto_frame(m, xs, ys, n - 1);
    }
}

/// The geometry and count of one populated bin, ready for a renderer:
/// the bin's center, its extent on both axes (micro-units) and its count.
#[derive(Clone, Copy, Debug, PartialEq, Eq, Structural)]
pub struct BarData {
    /// Center of the bin along x, in micro-units.
    pub x: i64,
    /// Center of the bin along y, in micro-units.
    pub y: i64,
    /// Extent of the bin along x, in micro-units.
    pub bar_width: i64,
    /// Extent of the bin along y, in micro-units.
    pub height: i64,
    /// Samples accumulated in the bin.
    pub count: u64,
}

/// A sparse accumulator over two dimensions, keyed by packed bin-index
/// pair.  An absent key means a count of zero.  The per-axis bin-edge
/// rule is the same half-open rule as for the one-dimensional histogram.
/// `min_count` and `max_count` track extrema over populated bins for
/// display scaling: single fills update them incrementally (so `min_count`
/// may lag above the true minimum until the next rescan), and bulk fills
/// rescan once at the end.
pub struct Histogram2D {
    /// Populated-bin counts, keyed by `x_index * KEY_BASE + y_index`.
    pub counts: HashMapWithView<u64, u64>,
    /// The packed keys of the populated bins, oldest first.
    pub keys: Vec<u64>,
    /// Inclusive lower edge of the x range, in micro-units.
    pub x_min: i64,
    /// Exclusive upper edge of the x range, in micro-units.
    pub x_max: i64,
    /// Inclusive lower edge of the y range, in micro-units.
    pub y_min: i64,
    /// Exclusive upper edge of the y range, in micro-units.
    pub y_max: i64,
    /// Number of bins along x.
    pub x_bins: usize,
    /// Number of bins along y.
    pub y_bins: usize,
    /// Running minimum over populated-bin counts (`u64::MAX` before any).
    pub min_count: u64,
    /// Running maximum over populated-bin counts (`0` before any).
    pub max_count: u64,
    /// Number of samples accumulated.
    pub total: u64,
}

impl View for Histogram2D {
    type V = Hist2View;

    open spec fn view(&self) -> Hist2View {
        Hist2View {
            counts: self.counts@,
            keys: self.keys@,
            x_min: self.x_min as int,
            x_max: self.x_max as int,
            y_min: self.y_min as int,
            y_max: self.y_max as int,
            x_bins: self.x_bins as int,
            y_bins: self.y_bins as int,
            min_count: self.min_count,
            max_count: self.max_count,
            total: self.total,
        }
    }
}

impl Histogram2D {
    /// Structural invariant.
    pub open spec fn wf(self) -> bool {
        self@.valid()
    }

    /// Creates an empty sparse histogram.
    ///
    /// Fails with `InvalidConfiguration` exactly when, on either axis, the
    /// bin count is zero or above [`MAX_BINS`], the range is empty or
    /// inverted, or an endpoint lies beyond [`COORD_LIMIT`].
    pub fn new(x_bins: usize, x_range: (i64, i64), y_bins: usize, y_range: (i64, i64)) -> (r:
        Result<Histogram2D, CoreError>)
        ensures
            r is Ok <==> {
                &&& 1 <= x_bins <= MAX_BINS
                &&& 1 <= y_bins <= MAX_BINS
                &&& -COORD_LIMIT <= x_range.0 < x_range.1 <= COORD_LIMIT
                &&& -COORD_LIMIT <= y_range.0 < y_range.1 <= COORD_LIMIT
            },
            match r {
                Ok(h) => {
                    &&& h.wf()
                    &&& h.x_min == x_range.0
                    &&& h.x_max == x_range.1
                    &&& h.y_min == y_range.0
                    &&& h.y_max == y_range.1
                    &&& h.x_bins == x_bins
                    &&& h.y_bins == y_bins
                    &&& h@.counts == Map::<u64, u64>::empty()
                    &&& h.keys@.len() == 0
                    &&& h.min_count == u64::MAX
                    &&& h.max_count == 0
                    &&& h.total == 0
                },
                Err(e) => e == CoreError::InvalidConfiguration,
            },
    {
        if x_bins == 0 || x_bins > MAX_BINS || y_bins == 0 || y_bins > MAX_BINS {
            return Err(CoreError::InvalidConfiguration);
        }
        if x_range.0 >= x_range.1 || x_range.0 < -COORD_LIMIT || x_range.1 > COORD_LIMIT {
            return Err(CoreError::InvalidConfiguration);
        }
        if y_range.0 >= y_range.1 || y_range.0 < -COORD_LIMIT || y_range.1 > COORD_LIMIT {
            return Err(CoreError::InvalidConfiguration);
        }
        Ok(
            Histogram2D {
                counts: HashMapWithView::<u64, u64>::new(),
                keys: Vec::new(),
                x_min: x_range.0,
                x_max: x_range.1,
                y_min: y_range.0,
                y_max: y_range.1,
                x_bins,
                y_bins,
                min_count: u64::MAX,
                max_count: 0,
                total: 0,
            },
        )
    }

    /// Adds one sample pair.  The pair is dropped unless both coordinates
    /// are non-sentinel and inside their ranges and the capacity allows
    /// it; otherwise the packed bin's count and the total are incremented
    /// and the running extrema are updated from the new count.
    pub fn fill(&mut self, x_value: i64, y_value: i64)
        requires
            old(self).wf(),
        ensures
            final(self).wf(),
            final(self)@ == old(self)@.filled(x_value, y_value),
    {
        if x_value == SENTINEL || y_value == SENTINEL || x_value < self.x_min || x_value
            >= self.x_max || y_value < self.y_min || y_value >= self.y_max || self.total
            >= MAX_TOTAL {
            return ;
        }
        let xi: usize = Self::axis_bin(x_value, self.x_min, self.x_max, self.x_bins);
        let yi: usize = Self::axis_bin(y_value, self.y_min, self.y_max, self.y_bins);
        proof {
            assert((xi as int) * (KEY_BASE as int) <= 4503595332403200) by (nonlinear_arith)
                requires
                    0 <= xi as int <= 1048575,
            ;
            assert((xi as int) * (KEY_BASE as int) >= 0) by (nonlinear_arith)
                requires
                    xi as int >= 0,
            ;
        }
        let k: u64 = (xi as u64) * KEY_BASE + (yi as u64);
        proof {
            vstd::arithmetic::div_mod::lemma_fundamental_div_mod_converse(
                k as int,
                KEY_BASE as int,
                xi as int,
                yi as int,
            );
            assert(Hist2View::key_x(k) == xi as int);
            assert(Hist2View::key_y(k) == yi as int);
            assert(Hist2View::pair_key(xi as int, yi as int) == k);
        }
        let prior: Option<&u64> = self.counts.get(&k);
        match prior {
            Some(c_ref) => {
                proof {
                    assert(old(self)@.counts.contains_key(k));
                    assert(1 <= old(self)@.counts[k] <= old(self)@.total);
                }
                let c1: u64 = *c_ref + 1;
                self.counts.insert(k, c1);
                self.total = self.total + 1;
                if c1 < self.min_count {
                    self.min_count = c1;
                }
                if c1 > self.max_count {
                    self.max_count = c1;
                }
            },
            None => {
                proof {
                    assert(!old(self).keys@.contains(k));
                }
                self.keys.push(k);
                self.counts.insert(k, 1);
                self.total = self.total + 1;
                if 1 < self.min_count {
                    self.min_count = 1;
                }
                if 1 > self.max_count {
                    self.max_count = 1;
                }
            },
        }
        proof {
            assert(self@ =~= old(self)@.filled(x_value, y_value));
        }
    }

    /// Adds every pair of two equally long columns in order, then rescans
    /// the populated bins once to refresh the extrema.
    ///
    /// Fails with `LengthMismatch`, touching nothing, exactly when the
    /// columns differ in length.
    pub fn fill_many(&mut self, xs: &Vec<i64>, ys: &Vec<i64>) -> (r: Result<(), CoreError>)
        requires
            old(self).wf(),
        ensures
            final(self).wf(),
            match r {
                Ok(()) => xs@.len() == ys@.len() && final(self)@ == old(self)@.filled_upto(
                    xs@,
                    ys@,
                    xs@.len() as int,
                ).rescanned(),
                Err(e) => {
                    &&& e == CoreError::LengthMismatch
                    &&& xs@.len() != ys@.len()
                    &&& *final(self) == *old(self)
                },
            },
    {
        if xs.len() != ys.len() {
            return Err(CoreError::LengthMismatch);
        }
        let mut i: usize = 0;
        while i < xs.len()
            invariant
                self.wf(),
                i <= xs@.len(),
                xs@.len() == ys@.len(),
                self@ == old(self)@.filled_upto(xs@, ys@, i as int),
            decreases xs@.len() - i,
        {
            self.fill(xs[i], ys[i]);
            i = i + 1;
        }
        self.recompute_extrema();
        Ok(())
    }

    /// The true extrema over the populated-bin counts, in key order.
    fn scan_extrema(&self) -> (r: (u64, u64))
        requires
            self.wf(),
        ensures
            r.0 == self@.min_scan(self.keys@.len() as int),
            r.1 == self@.max_scan(self.keys@.len() as int),
    {
        let mut mn: u64 = u64::MAX;
        let mut mx: u64 = 0;
        let mut i: usize = 0;
        while i < self.keys.len()
            invariant
                self.wf(),
                i <= self.keys@.len(),
                mn == self@.min_scan(i as int),
                mx == self@.max_scan(i as int),
            decreases self.keys@.len() - i,
        {
            let k: u64 = self.keys[i];
            let c: u64 = match self.counts.get(&k) {
                Some(c_ref) => *c_ref,
                None => {
                    proof {
                        assert(self@.keys.contains(k));
                        assert(false);
                    }
                    0
                },
            };
            if c < mn {
                mn = c;
            }
            if c > mx {
                mx = c;
            }
            i = i + 1;
        }
        (mn, mx)
    }

    /// Replaces the running extrema by the true extrema over the
    /// populated bins.
    fn recompute_extrema(&mut self)
        requires
            old(self).wf(),
        ensures
            final(self).wf(),
            final(self)@ == old(self)@.rescanned(),
    {
        let (mn, mx) = self.scan_extrema();
        self.min_count = mn;
        self.max_count = mx;
        proof {
            assert(self@ =~= old(self)@.rescanned());
        }
    }

    /// Lists the populated bins in the order they were first populated:
    /// one `(x_index, y_index, count)` triple for each, and nothing else,
    /// however large the nominal grid is.
    pub fn populated_bins(&self) -> (r: Vec<(usize, usize, u64)>)
        requires
            self.wf(),
        ensures
            r@.len() == self.keys@.len(),
            forall|i: int|
                0 <= i < r@.len() ==> {
                    &&& #[trigger] r@[i].0 as int == Hist2View::key_x(self.keys@[i])
                    &&& r@[i].1 as int == Hist2View::key_y(self.keys@[i])
                    &&& r@[i].2 == self@.counts[self.keys@[i]]
                },
    {
        let mut r: Vec<(usize, usize, u64)> = Vec::new();
        let mut i: usize = 0;
        while i < self.keys.len()
            invariant
                self.wf(),
                i <= self.keys@.len(),
                r@.len() == i,
                forall|j: int|
                    0 <= j < i ==> {
                        &&& #[trigger] r@[j].0 as int == Hist2View::key_x(self.keys@[j])
                        &&& r@[j].1 as int == Hist2View::key_y(self.keys@[j])
                        &&& r@[j].2 == self@.counts[self.keys@[j]]
                    },
            decreases self.keys@.len() - i,
        {
            let k: u64 = self.keys[i];
            let c: u64 = match self.counts.get(&k) {
                Some(c_ref) => *c_ref,
                None => {
                    proof {
                        assert(self@.keys.contains(k));
                        assert(false);
                    }
                    0
                },
            };
            let xi: usize = (k / KEY_BASE) as usize;
            let yi: usize = (k % KEY_BASE) as usize;
            r.push((xi, yi, c));
            i = i + 1;
        }
        r
    }

    /// The geometry of one bin: its center and its extent on both axes,
    /// each rounded down to micro-units.  Pure; no side effects.
    pub fn bin_rect(&self, x_index: usize, y_index: usize) -> (r: (i64, i64, i64, i64))
        requires
            self.wf(),
            x_index < self.x_bins,
            y_index < self.y_bins,
        ensures
            r.0 == self@.x_center(x_index as int),
            r.1 == self@.y_center(y_index as int),
            r.2 == self@.x_width(),
            r.3 == self@.y_width(),
    {
        let xc: i64 = Self::axis_center(x_index, self.x_min, self.x_max, self.x_bins);
        let yc: i64 = Self::axis_center(y_index, self.y_min, self.y_max, self.y_bins);
        let xw: i64 = (self.x_max - self.x_min) / (self.x_bins as i64);
        let yw: i64 = (self.y_max - self.y_min) / (self.y_bins as i64);
        proof {
            vstd::arithmetic::div_mod::lemma_div_pos_is_pos(
                self@.x_max - self@.x_min,
                self@.x_bins,
            );
            vstd::arithmetic::div_mod::lemma_div_pos_is_pos(
                self@.y_max - self@.y_min,
                self@.y_bins,
            );
        }
        (xc, yc, xw, yw)
    }

    /// One bar per populated bin, in first-populated order, carrying the
    /// bin's center, extent and count: everything a renderer needs for a
    /// heatmap cell.
    pub fn generate_bar_data(&self) -> (r: Vec<BarData>)
        requires
            self.wf(),
        ensures
            r@.len() == self.keys@.len(),
            forall|i: int|
                0 <= i < r@.len() ==> {
                    &&& #[trigger] r@[i].x == self@.x_center(Hist2View::key_x(self.keys@[i]))
                    &&& r@[i].y == self@.y_center(Hist2View::key_y(self.keys@[i]))
                    &&& r@[i].bar_width == self@.x_width()
                    &&& r@[i].height == self@.y_width()
                    &&& r@[i].count == self@.counts[self.keys@[i]]
                },
    {
        let cells: Vec<(usize, usize, u64)> = self.populated_bins();
        let mut r: Vec<BarData> = Vec::new();
        let mut i: usize = 0;
        while i < cells.len()
            invariant
                self.wf(),
                i <= cells@.len(),
                r@.len() == i,
                cells@.len() == self.keys@.len(),
                forall|j: int|
                    0 <= j < cells@.len() ==> {
                        &&& #[trigger] cells@[j].0 as int == Hist2View::key_x(self.keys@[j])
                        &&& cells@[j].1 as int == Hist2View::key_y(self.keys@[j])
                        &&& cells@[j].2 == self@.counts[self.keys@[j]]
                    },
                forall|j: int|
                    0 <= j < i ==> {
                        &&& #[trigger] r@[j].x == self@.x_center(Hist2View::key_x(self.keys@[j]))
                        &&& r@[j].y == self@.y_center(Hist2View::key_y(self.keys@[j]))
                        &&& r@[j].bar_width == self@.x_width()
                        &&& r@[j].height == self@.y_width()
                        &&& r@[j].count == self@.counts[self.keys@[j]]
                    },
            decreases cells@.len() - i,
        {
            let (xi, yi, c) = cells[i];
            let (xc, yc, xw, yw) = self.bin_rect(xi, yi);
            r.push(BarData { x: xc, y: yc, bar_width: xw, height: yw, count: c });
            i = i + 1;
        }
        r
    }

    /// The shared per-axis center computation.
    fn axis_center(index: usize, lo: i64, hi: i64, n: usize) -> (r: i64)
        requires
            -COORD_LIMIT <= lo < hi <= COORD_LIMIT,
            1 <= n <= MAX_BINS,
            index < n,
        ensures
            r == lo + (2 * index + 1) * (hi - lo) / (2 * n),
    {
        proof {
            let u: int = 2 * (index as int) + 1;
            let w = hi as int - lo as int;
            assert(0 <= u * w <= 4194302 * 2000000000000000) by (nonlinear_arith)
                requires
                    1 <= u <= 4194302,
                    1 <= w <= 2000000000000000,
            ;
            assert(u * w < (2 * (n as int)) * w) by (nonlinear_arith)
                requires
                    u < 2 * (n as int),
                    w >= 1,
            ;
            vstd::arithmetic::div_mod::lemma_multiply_divide_lt(u * w, 2 * (n as int), w);
            vstd::arithmetic::div_mod::lemma_div_pos_is_pos(u * w, 2 * (n as int));
        }
        let num: i128 = (2 * (index as i128) + 1) * (hi as i128 - lo as i128);
        let den: i128 = 2 * (n as i128);
        let off: i128 = num / den;
        lo + (off as i64)
    }

    /// The shared per-axis bin-index computation.
    fn axis_bin(v: i64, lo: i64, hi: i64, n: usize) -> (r: usize)
        requires
            -COORD_LIMIT <= lo < hi <= COORD_LIMIT,
            1 <= n <= MAX_BINS,
            lo <= v < hi,
        ensures
            r == (v - lo) * n / (hi - lo),
            r < n,
    {
        proof {
            assert(0 <= (v - lo) * n <= 2 * COORD_LIMIT * MAX_BINS) by (nonlinear_arith)
                requires
                    lo <= v < hi,
                    -COORD_LIMIT <= lo,
                    hi <= COORD_LIMIT,
                    1 <= n as int <= MAX_BINS,
            ;
        }
        let num: i128 = (v as i128 - lo as i128) * (n as i128);
        let den: i128 = hi as i128 - lo as i128;
        let index128: i128 = num / den;
        proof {
            lemma_axis_bin_bounds(lo as int, hi as int, n as int, v as int);
        }
        index128 as usize
    }
}

} // verus!
