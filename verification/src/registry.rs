//! A name-keyed store of histograms of either dimensionality, offering
//! uniform create and fill operations.

use vstd::prelude::*;

use crate::hist1d::{lemma_filled_all_frame, Histogram};
use crate::hist2d::{lemma_filled_upto_frame, Histogram2D};
use crate::{CoreError, COORD_LIMIT, MAX_BINS};

verus! {

/// A registered histogram: one-dimensional or sparse two-dimensional.
pub enum HistogramTypes {
    Hist1D(Histogram),
    Hist2D(Histogram2D),
}

/// Whether a registered histogram is well formed.
pub open spec fn entry_wf(e: HistogramTypes) -> bool {
    match e {
        HistogramTypes::Hist1D(h) => h.wf(),
        HistogramTypes::Hist2D(h) => h.wf(),
    }
}

/// The histogram registry: parallel lists of unique names and entries.
/// A reload builds a fresh registry; nothing is merged.
pub struct Histogrammer {
    /// The histogram names, each used once.
    pub names: Vec<Vec<char>>,
    /// The histograms, one per name, in the same order.
    pub entries: Vec<HistogramTypes>,
}

/// Compares two character strings.
pub fn chars_eq(a: &Vec<char>, b: &Vec<char>) -> (r: bool)
    ensures
        r == (a@ == b@),
{
    if a.len() != b.len() {
        return false;
    }
    let mut i: usize = 0;
    while i < a.len()
        invariant
            i <= a@.len(),
            a@.len() == b@.len(),
            forall|j: int| 0 <= j < i ==> a@[j] == b@[j],
        decreases a@.len() - i,
    {
        if a[i] != b[i] {
            return false;
        }
        i = i + 1;
    }
    proof {
        assert(a@ =~= b@);
    }
    true
}

/// Copies a character string.
pub fn clone_chars(v: &Vec<char>) -> (r: Vec<char>)
    ensures
        r@ == v@,
{
    let mut r: Vec<char> = Vec::new();
    let mut i: usize = 0;
    while i < v.len()
        invariant
            i <= v@.len(),
            r@ == v@.subrange(0, i as int),
        decreases v@.len() - i,
    {
        r.push(v[i]);
        proof {
            assert(r@ =~= v@.subrange(0, i + 1));
        }
        i = i + 1;
    }
    proof {
        assert(v@.subrange(0, v@.len() as int) =~= v@);
    }
    r
}

impl Histogrammer {
    /// Structural invariant: one entry per name, unique names, every
    /// entry well formed.
    pub open spec fn wf(self) -> bool {
        &&& self.names@.len() == self.entries@.len()
        &&& forall|i: int, j: int|
            #![trigger self.names@[i], self.names@[j]]
            0 <= i < j < self.names@.len() ==> self.names@[i]@ != self.names@[j]@
        &&& forall|i: int| 0 <= i < self.entries@.len() ==> entry_wf(#[trigger] self.entries@[i])
    }

    /// Whether a histogram is registered under `n`.
    pub open spec fn has_name(self, n: Seq<char>) -> bool {
        exists|i: int| 0 <= i < self.names@.len() && self.names@[i]@ == n
    }

    /// The index of the histogram registered under `n` (unique when the
    /// registry is well formed and the name is present).
    pub open spec fn name_index(self, n: Seq<char>) -> int {
        choose|i: int| 0 <= i < self.names@.len() && self.names@[i]@ == n
    }

    /// Relates two registry states that differ at most at the entry
    /// registered under `n`: when `pre` already has the name, every other
    /// entry and all names stay untouched; when it does not, the name and
    /// its entry are appended and all prior entries stay untouched.
    pub open spec fn updated_at(pre: Histogrammer, post: Histogrammer, n: Seq<char>) -> bool {
        if pre.has_name(n) {
            &&& post.names@ == pre.names@
            &&& post.entries@ == pre.entries@.update(
                pre.name_index(n),
                post.entries@[pre.name_index(n)],
            )
        } else {
            &&& post.names@.len() == pre.names@.len() + 1
            &&& (forall|j: int|
                0 <= j < pre.names@.len() ==> post.names@[j] == #[trigger] pre.names@[j])
            &&& post.names@[pre.names@.len() as int]@ == n
            &&& post.entries@ == pre.entries@.push(post.entries@[pre.entries@.len() as int])
        }
    }

    /// Two single-name updates under the same name compose to one.
    proof fn lemma_updated_at_compose(a: Histogrammer, b: Histogrammer, c: Histogrammer, n: Seq<
        char,
    >)
        requires
            a.names@.len() == a.entries@.len(),
            b.wf(),
            Self::updated_at(a, b, n),
            b.has_name(n),
            Self::updated_at(b, c, n),
        ensures
            Self::updated_at(a, c, n),
    {
        if a.has_name(n) {
            let j = a.name_index(n);
            assert(a.names@[j]@ == n);
            b.lemma_name_index(n, j);
            assert(c.entries@ =~= a.entries@.update(j, c.entries@[j]));
        } else {
            let j = a.names@.len() as int;
            b.lemma_name_index(n, j);
            assert(c.entries@ =~= a.entries@.push(c.entries@[j]));
        }
    }

    /// An index holding a matching name is the registered index.
    pub proof fn lemma_name_index(self, n: Seq<char>, i: int)
        requires
            self.wf(),
            0 <= i < self.names@.len(),
            self.names@[i]@ == n,
        ensures
            self.has_name(n),
            self.name_index(n) == i,
    {
        assert(self.has_name(n));
        let j = self.name_index(n);
        if i < j {
            assert(self.names@[i]@ != self.names@[j]@);
        }
        if j < i {
            assert(self.names@[j]@ != self.names@[i]@);
        }
    }

    /// Creates an empty registry.
    pub fn new() -> (r: Histogrammer)
        ensures
            r.wf(),
            r.names@.len() == 0,
            r.entries@.len() == 0,
    {
        Histogrammer { names: Vec::new(), entries: Vec::new() }
    }

    /// The index of the histogram registered under `name`, if any.
    fn find(&self, name: &Vec<char>) -> (r: Option<usize>)
        requires
            self.wf(),
        ensures
            match r {
                Some(i) => {
                    &&& i < self.names@.len()
                    &&& self.names@[i as int]@ == name@
                    &&& self.has_name(name@)
                    &&& self.name_index(name@) == i
                },
                None => !self.has_name(name@),
            },
    {
        let mut i: usize = 0;
        while i < self.names.len()
            invariant
                i <= self.names@.len(),
                self.wf(),
                forall|j: int| 0 <= j < i ==> self.names@[j]@ != name@,
            decreases self.names@.len() - i,
        {
            if chars_eq(&self.names[i], name) {
                proof {
                    self.lemma_name_index(name@, i as int);
                }
                return Some(i);
            }
            i = i + 1;
        }
        None
    }

    /// Reads the histogram registered under `name`, if any.
    pub fn get(&self, name: &Vec<char>) -> (r: Option<&HistogramTypes>)
        requires
            self.wf(),
        ensures
            match r {
                Some(e) => self.has_name(name@) && *e == self.entries@[self.name_index(name@)],
                None => !self.has_name(name@),
            },
    {
        match self.find(name) {
            Some(i) => Some(&self.entries[i]),
            None => None,
        }
    }

    /// Registers a fresh one-dimensional histogram under `name`,
    /// overwriting any prior entry of that name.
    ///
    /// Fails with `InvalidConfiguration`, changing nothing, exactly when
    /// [`Histogram::new`] rejects the configuration.
    pub fn add_hist1d(&mut self, name: &Vec<char>, bins: usize, range: (i64, i64)) -> (r: Result<
        (),
        CoreError,
    >)
        requires
            old(self).wf(),
        ensures
            final(self).wf(),
            r is Ok <==> {
                &&& 1 <= bins <= MAX_BINS
                &&& -COORD_LIMIT <= range.0 < range.1 <= COORD_LIMIT
            },
            match r {
                Ok(()) => {
                    &&& final(self).has_name(name@)
                    &&& match final(self).entries@[final(self).name_index(name@)] {
                        HistogramTypes::Hist1D(h) => {
                            &&& h.wf()
                            &&& h.min == range.0
                            &&& h.max == range.1
                            &&& h.total == 0
                            &&& h.bins@.len() == bins
                            &&& forall|b: int| 0 <= b < bins ==> h.bins@[b] == 0u64
                        },
                        HistogramTypes::Hist2D(_) => false,
                    }
                    &&& Self::updated_at(*old(self), *final(self), name@)
                },
                Err(e) => e == CoreError::InvalidConfiguration && *final(self) == *old(self),
            },
    {
        let hist = match Histogram::new(bins, range) {
            Ok(h) => h,
            Err(e) => {
                return Err(e);
            },
        };
        self.put(name, HistogramTypes::Hist1D(hist));
        Ok(())
    }

    /// Registers a fresh sparse two-dimensional histogram under `name`,
    /// overwriting any prior entry of that name.
    ///
    /// Fails with `InvalidConfiguration`, changing nothing, exactly when
    /// [`Histogram2D::new`] rejects the configuration.
    pub fn add_hist2d(
        &mut self,
        name: &Vec<char>,
        x_bins: usize,
        x_range: (i64, i64),
        y_bins: usize,
        y_range: (i64, i64),
    ) -> (r: Result<(), CoreError>)
        requires
            old(self).wf(),
        ensures
            final(self).wf(),
            r is Ok <==> {
                &&& 1 <= x_bins <= MAX_BINS
                &&& 1 <= y_bins <= MAX_BINS
                &&& -COORD_LIMIT <= x_range.0 < x_range.1 <= COORD_LIMIT
                &&& -COORD_LIMIT <= y_range.0 < y_range.1 <= COORD_LIMIT
            },
            match r {
                Ok(()) => {
                    &&& final(self).has_name(name@)
                    &&& match final(self).entries@[final(self).name_index(name@)] {
                        HistogramTypes::Hist2D(h) => {
                            &&& h.wf()
                            &&& h.x_min == x_range.0
                            &&& h.x_max == x_range.1
                            &&& h.y_min == y_range.0
                            &&& h.y_max == y_range.1
                            &&& h.x_bins == x_bins
                            &&& h.y_bins == y_bins
                            &&& h@.counts == Map::<u64, u64>::empty()
                            &&& h.keys@.len() == 0
                            &&& h.total == 0
                            &&& h.min_count == u64::MAX
                            &&& h.max_count == 0
                        },
                        HistogramTypes::Hist1D(_) => false,
                    }
                    &&& Self::updated_at(*old(self), *final(self), name@)
                },
                Err(e) => e == CoreError::InvalidConfiguration && *final(self) == *old(self),
            },
    {
        let hist = match Histogram2D::new(x_bins, x_range, y_bins, y_range) {
            Ok(h) => h,
            Err(e) => {
                return Err(e);
            },
        };
        self.put(name, HistogramTypes::Hist2D(hist));
        Ok(())
    }

    /// Stores `entry` under `name`, overwriting any prior entry.
    fn put(&mut self, name: &Vec<char>, entry: HistogramTypes)
        requires
            old(self).wf(),
            entry_wf(entry),
        ensures
            final(self).wf(),
            final(self).has_name(name@),
            final(self).entries@[final(self).name_index(name@)] == entry,
            Self::updated_at(*old(self), *final(self), name@),
    {
        match self.find(name) {
            Some(i) => {
                self.entries.set(i, entry);
                proof {
                    self.lemma_name_index(name@, i as int);
                }
            },
            None => {
                let owned = clone_chars(name);
                self.names.push(owned);
                self.entries.push(entry);
                proof {
                    assert forall|i: int, j: int|
                        #![trigger self.names@[i], self.names@[j]]
                        0 <= i < j < self.names@.len() implies self.names@[i]@
                        != self.names@[j]@ by {
                        if j < old(self).names@.len() {
                            assert(old(self).names@[i]@ != old(self).names@[j]@);
                        } else {
                            assert(!old(self).has_name(name@));
                            assert(old(self).names@[i]@ != name@);
                        }
                    }
                    self.lemma_name_index(name@, old(self).names@.len() as int);
                }
            },
        }
    }

    /// Fills the one-dimensional histogram registered under `name` with a
    /// column of values, each subject to [`Histogram::fill`]'s sentinel,
    /// range and capacity rules.
    ///
    /// Fails with `NotFound`, changing nothing, exactly when no
    /// one-dimensional histogram is registered under `name`.  Other
    /// histograms are never touched.
    pub fn fill_hist1d(&mut self, name: &Vec<char>, values: &Vec<i64>) -> (r: Result<
        (),
        CoreError,
    >)
        requires
            old(self).wf(),
        ensures
            final(self).wf(),
            r is Ok <==> (old(self).has_name(name@) && old(self).entries@[old(self).name_index(
                name@,
            )] is Hist1D),
            match r {
                Ok(()) => {
                    &&& Self::updated_at(*old(self), *final(self), name@)
                    &&& match (
                        old(self).entries@[old(self).name_index(name@)],
                        final(self).entries@[old(self).name_index(name@)],
                    ) {
                        (HistogramTypes::Hist1D(h0), HistogramTypes::Hist1D(h1)) => {
                            &&& h1.wf()
                            &&& h1@ == h0@.filled_all(values@)
                        },
                        _ => false,
                    }
                },
                Err(e) => {
                    &&& e == CoreError::NotFound
                    &&& final(self).names@ == old(self).names@
                    &&& final(self).entries@ == old(self).entries@
                },
            },
    {
        let i: usize = match self.find(name) {
            Some(i) => i,
            None => {
                return Err(CoreError::NotFound);
            },
        };
        let slot = &mut self.entries[i];
        match slot {
            HistogramTypes::Hist1D(hist) => {
                hist.fill_many(values);
            },
            HistogramTypes::Hist2D(_) => {
                proof {
                    assert(self.entries@ =~= old(self).entries@);
                }
                return Err(CoreError::NotFound);
            },
        }
        proof {
            assert(self.entries@ =~= old(self).entries@.update(
                i as int,
                self.entries@[i as int],
            ));
        }
        Ok(())
    }

    /// Fills the two-dimensional histogram registered under `name` from
    /// two equally long columns, then rescans its extrema once.
    ///
    /// Fails with `NotFound` when no two-dimensional histogram is
    /// registered under `name`, and with `LengthMismatch` when the columns
    /// differ in length; either way nothing is changed.
    pub fn fill_hist2d(&mut self, name: &Vec<char>, xs: &Vec<i64>, ys: &Vec<i64>) -> (r: Result<
        (),
        CoreError,
    >)
        requires
            old(self).wf(),
        ensures
            final(self).wf(),
            r is Ok <==> {
                &&& old(self).has_name(name@)
                &&& old(self).entries@[old(self).name_index(name@)] is Hist2D
                &&& xs@.len() == ys@.len()
            },
            match r {
                Ok(()) => {
                    &&& Self::updated_at(*old(self), *final(self), name@)
                    &&& match (
                        old(self).entries@[old(self).name_index(name@)],
                        final(self).entries@[old(self).name_index(name@)],
                    ) {
                        (HistogramTypes::Hist2D(h0), HistogramTypes::Hist2D(h1)) => {
                            &&& h1.wf()
                            &&& h1@ == h0@.filled_upto(xs@, ys@, xs@.len() as int).rescanned()
                        },
                        _ => false,
                    }
                },
                Err(e) => {
                    &&& final(self).names@ == old(self).names@
                    &&& final(self).entries@ == old(self).entries@
                    &&& (e == CoreError::NotFound || e == CoreError::LengthMismatch)
                    &&& (e == CoreError::NotFound <==> !(old(self).has_name(name@) && old(
                        self,
                    ).entries@[old(self).name_index(name@)] is Hist2D))
                },
            },
    {
        let i: usize = match self.find(name) {
            Some(i) => i,
            None => {
                return Err(CoreError::NotFound);
            },
        };
        let slot = &mut self.entries[i];
        match slot {
            HistogramTypes::Hist2D(hist) => {
                match hist.fill_many(xs, ys) {
                    Ok(()) => {
                    },
                    Err(e) => {
                        proof {
                            assert(self.entries@ =~= old(self).entries@);
                        }
                        return Err(e);
                    },
                }
            },
            HistogramTypes::Hist1D(_) => {
                proof {
                    assert(self.entries@ =~= old(self).entries@);
                }
                return Err(CoreError::NotFound);
            },
        }
        proof {
            assert(self.entries@ =~= old(self).entries@.update(
                i as int,
                self.entries@[i as int],
            ));
        }
        Ok(())
    }

    /// Registers a fresh one-dimensional histogram and fills it at once.
    pub fn add_fill_hist1d(
        &mut self,
        name: &Vec<char>,
        values: &Vec<i64>,
        bins: usize,
        range: (i64, i64),
    ) -> (r: Result<(), CoreError>)
        requires
            old(self).wf(),
        ensures
            final(self).wf(),
            r is Ok <==> {
                &&& 1 <= bins <= MAX_BINS
                &&& -COORD_LIMIT <= range.0 < range.1 <= COORD_LIMIT
            },
            match r {
                Ok(()) => {
                    &&& final(self).has_name(name@)
                    &&& Self::updated_at(*old(self), *final(self), name@)
                    &&& match final(self).entries@[final(self).name_index(name@)] {
                        HistogramTypes::Hist1D(h) => {
                            &&& h.wf()
                            &&& h.min == range.0
                            &&& h.max == range.1
                            &&& h.bins@.len() == bins
                            &&& exists|h0: Histogram|
                                {
                                    &&& #[trigger] h0.wf()
                                    &&& h0.min == range.0
                                    &&& h0.max == range.1
                                    &&& h0.total == 0
                                    &&& h0.bins@.len() == bins
                                    &&& (forall|b: int| 0 <= b < bins ==> h0.bins@[b] == 0u64)
                                    &&& h@ == h0@.filled_all(values@)
                                }
                        },
                        HistogramTypes::Hist2D(_) => false,
                    }
                },
                Err(e) => e == CoreError::InvalidConfiguration && *final(self) == *old(self),
            },
    {
        match self.add_hist1d(name, bins, range) {
            Ok(()) => {
            },
            Err(e) => {
                return Err(e);
            },
        }
        let ghost mid = *self;
        match self.fill_hist1d(name, values) {
            Ok(()) => {
                proof {
                    let j = mid.name_index(name@);
                    self.lemma_name_index(name@, j);
                    Self::lemma_updated_at_compose(*old(self), mid, *self, name@);
                    match mid.entries@[j] {
                        HistogramTypes::Hist1D(h0) => {
                            lemma_filled_all_frame(h0@, values@);
                            assert(h0.wf());
                        },
                        HistogramTypes::Hist2D(_) => {
                            assert(false);
                        },
                    }
                }
                Ok(())
            },
            Err(_) => {
                proof {
                    assert(false);
                }
                Err(CoreError::NotFound)
            },
        }
    }

    /// Registers a fresh sparse two-dimensional histogram and fills it at
    /// once.  The columns must be equally long; otherwise the fresh, empty
    /// histogram stays registered and `LengthMismatch` is reported.
    pub fn add_fill_hist2d(
        &mut self,
        name: &Vec<char>,
        xs: &Vec<i64>,
        ys: &Vec<i64>,
        x_bins: usize,
        x_range: (i64, i64),
        y_bins: usize,
        y_range: (i64, i64),
    ) -> (r: Result<(), CoreError>)
        requires
            old(self).wf(),
        ensures
            final(self).wf(),
            r is Ok <==> {
                &&& 1 <= x_bins <= MAX_BINS
                &&& 1 <= y_bins <= MAX_BINS
                &&& -COORD_LIMIT <= x_range.0 < x_range.1 <= COORD_LIMIT
                &&& -COORD_LIMIT <= y_range.0 < y_range.1 <= COORD_LIMIT
                &&& xs@.len() == ys@.len()
            },
            match r {
                Ok(()) => {
                    &&& final(self).has_name(name@)
                    &&& Self::updated_at(*old(self), *final(self), name@)
                    &&& match final(self).entries@[final(self).name_index(name@)] {
                        HistogramTypes::Hist2D(h) => {
                            &&& h.wf()
                            &&& h.x_min == x_range.0
                            &&& h.x_max == x_range.1
                            &&& h.y_min == y_range.0
                            &&& h.y_max == y_range.1
                            &&& h.x_bins == x_bins
                            &&& h.y_bins == y_bins
                            &&& exists|h0: Histogram2D|
                                {
                                    &&& #[trigger] h0.wf()
                                    &&& h0@.counts == Map::<u64, u64>::empty()
                                    &&& h0.keys@.len() == 0
                                    &&& h0.total == 0
                                    &&& h0.x_min == x_range.0
                                    &&& h0.x_max == x_range.1
                                    &&& h0.y_min == y_range.0
                                    &&& h0.y_max == y_range.1
                                    &&& h0.x_bins == x_bins
                                    &&& h0.y_bins == y_bins
                                    &&& h@ == h0@.filled_upto(
                                        xs@,
                                        ys@,
                                        xs@.len() as int,
                                    ).rescanned()
                                }
                        },
                        HistogramTypes::Hist1D(_) => false,
                    }
                },
                Err(e) => {
                    &&& (e == CoreError::InvalidConfiguration || e == CoreError::LengthMismatch)
                    &&& (e == CoreError::InvalidConfiguration <==> !(1 <= x_bins <= MAX_BINS && 1
                        <= y_bins <= MAX_BINS && -COORD_LIMIT <= x_range.0 < x_range.1
                        <= COORD_LIMIT && -COORD_LIMIT <= y_range.0 < y_range.1 <= COORD_LIMIT))
                    &&& (e == CoreError::InvalidConfiguration ==> *final(self) == *old(self))
                    &&& (e == CoreError::LengthMismatch ==> {
                        &&& xs@.len() != ys@.len()
                        &&& final(self).has_name(name@)
                        &&& Self::updated_at(*old(self), *final(self), name@)
                        &&& match final(self).entries@[final(self).name_index(name@)] {
                            HistogramTypes::Hist2D(h) => {
                                &&& h.wf()
                                &&& h.x_min == x_range.0
                                &&& h.x_max == x_range.1
                                &&& h.y_min == y_range.0
                                &&& h.y_max == y_range.1
                                &&& h.x_bins == x_bins
                                &&& h.y_bins == y_bins
                                &&& h@.counts == Map::<u64, u64>::empty()
                                &&& h.keys@.len() == 0
                                &&& h.total == 0
                                &&& h.min_count == u64::MAX
                                &&& h.max_count == 0
                            },
                            HistogramTypes::Hist1D(_) => false,
                        }
                    })
                },
            },
    {
        match self.add_hist2d(name, x_bins, x_range, y_bins, y_range) {
            Ok(()) => {
            },
            Err(e) => {
                return Err(e);
            },
        }
        let ghost mid = *self;
        match self.fill_hist2d(name, xs, ys) {
            Ok(()) => {
                proof {
                    let j = mid.name_index(name@);
                    self.lemma_name_index(name@, j);
                    Self::lemma_updated_at_compose(*old(self), mid, *self, name@);
                    match mid.entries@[j] {
                        HistogramTypes::Hist2D(h0) => {
                            lemma_filled_upto_frame(h0@, xs@, ys@, xs@.len() as int);
                            assert(h0.wf());
                        },
                        HistogramTypes::Hist1D(_) => {
                            assert(false);
                        },
                    }
                }
                Ok(())
            },
            Err(e) => {
                proof {
                    assert(e == CoreError::LengthMismatch);
                    let j = mid.name_index(name@);
                    self.lemma_name_index(name@, j);
                    assert(Self::updated_at(*old(self), *self, name@));
                }
                Err(e)
            },
        }
    }
}

} // verus!
