//! Named polygon cuts over column tables: a combined row-selection mask
//! (the union of all bound cuts), and mask-based table filtering.

use vstd::prelude::*;

use crate::polygon::{coord_ok, polygon_contains, PolyView, Polygon};
use crate::registry::{chars_eq, clone_chars};
use crate::{CoreError, SENTINEL};

verus! {

/// The entries of `col` kept by the first `k` mask bits, in order.
pub open spec fn filter_upto(col: Seq<i64>, mask: Seq<bool>, k: int) -> Seq<i64>
    decreases k,
{
    if k <= 0 {
        Seq::empty()
    } else {
        filter_upto(col, mask, k - 1) + if mask[k - 1] {
            seq![col[k - 1]]
        } else {
            Seq::empty()
        }
    }
}

/// How many of the first `k` mask bits are set.
pub open spec fn kept_count(mask: Seq<bool>, k: int) -> int
    decreases k,
{
    if k <= 0 {
        0
    } else {
        kept_count(mask, k - 1) + if mask[k - 1] {
            1int
        } else {
            0int
        }
    }
}

/// Filtering keeps exactly as many entries as there are set mask bits,
/// whatever the column.
pub proof fn lemma_filter_upto_len(col: Seq<i64>, mask: Seq<bool>, k: int)
    ensures
        filter_upto(col, mask, k).len() == kept_count(mask, k),
        kept_count(mask, k) >= 0,
    decreases k,
{
    if k > 0 {
        lemma_filter_upto_len(col, mask, k - 1);
    }
}

/// A columnar table: named columns of equal length.
#[derive(Debug)]
pub struct Table {
    /// The column names, each used once.
    pub names: Vec<Vec<char>>,
    /// The columns, one per name, in the same order, in micro-units.
    pub columns: Vec<Vec<i64>>,
}

impl Table {
    /// The number of rows (zero for a table without columns).
    pub open spec fn row_count(self) -> int {
        if self.columns@.len() == 0 {
            0
        } else {
            self.columns@[0]@.len() as int
        }
    }

    /// Structural invariant: one column per name, unique names, all
    /// columns equally long.
    pub open spec fn wf(self) -> bool {
        &&& self.names@.len() == self.columns@.len()
        &&& forall|i: int, j: int|
            #![trigger self.names@[i], self.names@[j]]
            0 <= i < j < self.names@.len() ==> self.names@[i]@ != self.names@[j]@
        &&& forall|i: int|
            0 <= i < self.columns@.len() ==> (#[trigger] self.columns@[i])@.len()
                == self.row_count()
    }

    /// Whether a column is named `n`.
    pub open spec fn has_col(self, n: Seq<char>) -> bool {
        exists|i: int| 0 <= i < self.names@.len() && self.names@[i]@ == n
    }

    /// The index of the column named `n` (unique when the table is well
    /// formed and the name is present).
    pub open spec fn col_index(self, n: Seq<char>) -> int {
        choose|i: int| 0 <= i < self.names@.len() && self.names@[i]@ == n
    }

    /// The column named `n`.
    pub open spec fn col_at(self, n: Seq<char>) -> Seq<i64> {
        self.columns@[self.col_index(n)]@
    }

    /// An index holding a matching name is the column's index.
    pub proof fn lemma_col_index(self, n: Seq<char>, i: int)
        requires
            self.wf(),
            0 <= i < self.names@.len(),
            self.names@[i]@ == n,
        ensures
            self.has_col(n),
            self.col_index(n) == i,
    {
        assert(self.has_col(n));
        let j = self.col_index(n);
        if i < j {
            assert(self.names@[i]@ != self.names@[j]@);
        }
        if j < i {
            assert(self.names@[j]@ != self.names@[i]@);
        }
    }

    /// Creates a table without columns.
    pub fn new() -> (r: Table)
        ensures
            r.wf(),
            r.names@.len() == 0,
            r.columns@.len() == 0,
    {
        Table { names: Vec::new(), columns: Vec::new() }
    }

    /// The number of rows.
    pub fn num_rows(&self) -> (r: usize)
        requires
            self.wf(),
        ensures
            r == self.row_count(),
    {
        if self.columns.len() == 0 {
            0
        } else {
            self.columns[0].len()
        }
    }

    /// Appends a named column.
    ///
    /// Fails with `InvalidConfiguration` when the name is already taken,
    /// and otherwise with `LengthMismatch` when the table has columns and
    /// the new one differs from them in length; either way nothing
    /// changes.
    pub fn add_column(&mut self, name: Vec<char>, values: Vec<i64>) -> (r: Result<(), CoreError>)
        requires
            old(self).wf(),
        ensures
            final(self).wf(),
            r is Ok <==> (!old(self).has_col(name@) && (old(self).columns@.len() == 0 || values@.len()
                == old(self).row_count())),
            match r {
                Ok(()) => {
                    &&& final(self).names@ == old(self).names@.push(name)
                    &&& final(self).columns@ == old(self).columns@.push(values)
                },
                Err(e) => {
                    &&& final(self).names@ == old(self).names@
                    &&& final(self).columns@ == old(self).columns@
                    &&& (e == CoreError::InvalidConfiguration <==> old(self).has_col(name@))
                    &&& (e == CoreError::InvalidConfiguration || e == CoreError::LengthMismatch)
                },
            },
    {
        let mut i: usize = 0;
        while i < self.names.len()
            invariant
                i <= self.names@.len(),
                self.wf(),
                forall|j: int| 0 <= j < i ==> self.names@[j]@ != name@,
            decreases self.names@.len() - i,
        {
            if chars_eq(&self.names[i], &name) {
                proof {
                    self.lemma_col_index(name@, i as int);
                }
                return Err(CoreError::InvalidConfiguration);
            }
            i = i + 1;
        }
        if self.columns.len() > 0 && values.len() != self.columns[0].len() {
            return Err(CoreError::LengthMismatch);
        }
        self.names.push(name);
        self.columns.push(values);
        proof {
            assert forall|i2: int, j2: int|
                #![trigger self.names@[i2], self.names@[j2]]
                0 <= i2 < j2 < self.names@.len() implies self.names@[i2]@ != self.names@[j2]@ by {
                if j2 < old(self).names@.len() {
                    assert(old(self).names@[i2]@ != old(self).names@[j2]@);
                } else {
                    assert(old(self).names@[i2]@ != name@);
                }
            }
        }
        Ok(())
    }

    /// Reads the column named `name`, if any.
    pub fn column(&self, name: &Vec<char>) -> (r: Option<&Vec<i64>>)
        requires
            self.wf(),
        ensures
            match r {
                Some(c) => self.has_col(name@) && c@ == self.col_at(name@),
                None => !self.has_col(name@),
            },
    {
        let mut i: usize = 0;
        while i < self.names.len()
            invariant
                i <= self.names@.len(),
                self.wf(),
                forall|j: int| 0 <= j < i ==> self.names@[j]@ != name@,
            decreases self.names@.len() - i,
        {
            if chars_eq(&self.names[i], name) {
                proof {
                    self.lemma_col_index(name@, i as int);
                }
                return Some(&self.columns[i]);
            }
            i = i + 1;
        }
        None
    }

    /// Keeps the rows whose mask bit is set, in order, in every column.
    ///
    /// Fails with `LengthMismatch`, producing nothing, exactly when the
    /// mask's length is not the table's row count.
    #[verifier::loop_isolation(false)]
    pub fn filter_rows(&self, mask: &Vec<bool>) -> (r: Result<Table, CoreError>)
        requires
            self.wf(),
        ensures
            r is Ok <==> mask@.len() == self.row_count(),
            match r {
                Ok(t) => {
                    &&& t.wf()
                    &&& t.names@.len() == self.names@.len()
                    &&& forall|c: int|
                        0 <= c < t.names@.len() ==> (#[trigger] t.names@[c])@ == self.names@[c]@
                    &&& t.columns@.len() == self.columns@.len()
                    &&& forall|c: int|
                        0 <= c < t.columns@.len() ==> (#[trigger] t.columns@[c])@ == filter_upto(
                            self.columns@[c]@,
                            mask@,
                            self.row_count(),
                        )
                },
                Err(e) => e == CoreError::LengthMismatch,
            },
    {
        if mask.len() != self.num_rows() {
            return Err(CoreError::LengthMismatch);
        }
        let mut names: Vec<Vec<char>> = Vec::new();
        let mut columns: Vec<Vec<i64>> = Vec::new();
        let mut c: usize = 0;
        while c < self.columns.len()
            invariant
                c <= self.columns@.len(),
                names@.len() == c,
                columns@.len() == c,
                forall|k: int| 0 <= k < c ==> (#[trigger] names@[k])@ == self.names@[k]@,
                forall|k: int|
                    0 <= k < c ==> (#[trigger] columns@[k])@ == filter_upto(
                        self.columns@[k]@,
                        mask@,
                        self.row_count(),
                    ),
            decreases self.columns@.len() - c,
        {
            let kept_name = clone_chars(&self.names[c]);
            let col = &self.columns[c];
            let mut kept: Vec<i64> = Vec::new();
            let mut r: usize = 0;
            while r < col.len()
                invariant
                    r <= col@.len(),
                    col@.len() == self.row_count(),
                    kept@ == filter_upto(col@, mask@, r as int),
                decreases col@.len() - r,
            {
                if mask[r] {
                    kept.push(col[r]);
                    proof {
                        assert(kept@ =~= filter_upto(col@, mask@, r + 1));
                    }
                } else {
                    proof {
                        assert(kept@ =~= filter_upto(col@, mask@, r + 1));
                    }
                }
                r = r + 1;
            }
            names.push(kept_name);
            columns.push(kept);
            c = c + 1;
        }
        let t = Table { names, columns };
        proof {
            assert forall|i2: int, j2: int|
                #![trigger t.names@[i2], t.names@[j2]]
                0 <= i2 < j2 < t.names@.len() implies t.names@[i2]@ != t.names@[j2]@ by {
                assert(self.names@[i2]@ != self.names@[j2]@);
            }
            assert forall|k: int|
                0 <= k < t.columns@.len() implies (#[trigger] t.columns@[k])@.len()
                == t.row_count() by {
                lemma_filter_upto_len(self.columns@[k]@, mask@, self.row_count());
                if t.columns@.len() > 0 {
                    lemma_filter_upto_len(self.columns@[0]@, mask@, self.row_count());
                }
            }
        }
        Ok(t)
    }
}

/// Whether the pair `(x, y)` is selected by a polygon: both coordinates
/// real measurements (non-sentinel), within the exact-arithmetic bounds,
/// and inside the polygon.
pub open spec fn row_selected(p: PolyView, x: i64, y: i64) -> bool {
    &&& x != SENTINEL
    &&& y != SENTINEL
    &&& coord_ok(x as int, y as int)
    &&& polygon_contains(p.vertices, x as int, y as int)
}

/// Whether a cut selects row `r` of a table: the cut is bound to two
/// columns the table has, and the row's pair is selected by its polygon.
pub open spec fn cut_selects(t: Table, p: PolyView, r: int) -> bool {
    &&& p.x_col is Some
    &&& p.y_col is Some
    &&& t.has_col(p.x_col.unwrap())
    &&& t.has_col(p.y_col.unwrap())
    &&& row_selected(p, t.col_at(p.x_col.unwrap())[r], t.col_at(p.y_col.unwrap())[r])
}

/// The mask a single polygon draws over two named columns: one bit per
/// row, set when the row's pair is a real measurement inside the polygon.
pub open spec fn polygon_mask_spec(t: Table, p: PolyView, xn: Seq<char>, yn: Seq<char>) -> Seq<
    bool,
> {
    Seq::new(
        t.row_count() as nat,
        |r: int| row_selected(p, t.col_at(xn)[r], t.col_at(yn)[r]),
    )
}

impl Polygon {
    /// Filters a table through this polygon alone, against an explicitly
    /// named column pair: rows whose pair is non-sentinel and inside the
    /// polygon are kept, in order, in every column.
    ///
    /// Fails with `NotFound`, producing nothing, exactly when the table
    /// lacks one of the named columns.
    #[verifier::loop_isolation(false)]
    pub fn filter_dataframe(&self, table: &Table, x_column: &Vec<char>, y_column: &Vec<char>) -> (r:
        Result<Table, CoreError>)
        requires
            self.wf(),
            table.wf(),
        ensures
            r is Ok <==> (table.has_col(x_column@) && table.has_col(y_column@)),
            match r {
                Ok(t) => {
                    &&& t.wf()
                    &&& t.names@.len() == table.names@.len()
                    &&& forall|c: int|
                        0 <= c < t.names@.len() ==> (#[trigger] t.names@[c])@ == table.names@[c]@
                    &&& t.columns@.len() == table.columns@.len()
                    &&& forall|c: int|
                        0 <= c < t.columns@.len() ==> (#[trigger] t.columns@[c])@ == filter_upto(
                            table.columns@[c]@,
                            polygon_mask_spec(*table, self@, x_column@, y_column@),
                            table.row_count(),
                        )
                },
                Err(e) => e == CoreError::NotFound,
            },
    {
        let xcol: &Vec<i64> = match table.column(x_column) {
            Some(col) => col,
            None => {
                return Err(CoreError::NotFound);
            },
        };
        let ycol: &Vec<i64> = match table.column(y_column) {
            Some(col) => col,
            None => {
                return Err(CoreError::NotFound);
            },
        };
        let n: usize = table.num_rows();
        let ghost mspec = polygon_mask_spec(*table, self@, x_column@, y_column@);
        let mut mask: Vec<bool> = Vec::new();
        let mut r: usize = 0;
        while r < n
            invariant
                r <= n,
                mask@.len() == r,
                forall|rr: int| 0 <= rr < r ==> mask@[rr] == mspec[rr],
            decreases n - r,
        {
            let x: i64 = xcol[r];
            let y: i64 = ycol[r];
            let hit: bool = if x != SENTINEL && y != SENTINEL {
                self.contains(x, y)
            } else {
                false
            };
            mask.push(hit);
            r = r + 1;
        }
        proof {
            assert(mask@ =~= mspec);
        }
        match table.filter_rows(&mask) {
            Ok(t) => Ok(t),
            Err(_) => {
                proof {
                    assert(false);
                }
                Err(CoreError::NotFound)
            },
        }
    }
}

/// A named collection of polygon cuts.  Identifiers are handed out by a
/// counter that never decreases, so an identifier is never reused within
/// a session.
pub struct CutHandler {
    /// The cuts, oldest first, each with its identifier.
    pub cuts: Vec<(u64, Polygon)>,
    /// The cut current edits apply to, if any.
    pub active_cut_id: Option<u64>,
    /// The identifier the next cut will get.
    pub next_id: u64,
}

impl CutHandler {
    /// Structural invariant: identifiers unique and below the counter,
    /// every polygon well formed.
    pub open spec fn wf(self) -> bool {
        &&& forall|i: int|
            0 <= i < self.cuts@.len() ==> (#[trigger] self.cuts@[i]).0 < self.next_id
        &&& forall|i: int, j: int|
            #![trigger self.cuts@[i], self.cuts@[j]]
            0 <= i < j < self.cuts@.len() ==> self.cuts@[i].0 != self.cuts@[j].0
        &&& forall|i: int| 0 <= i < self.cuts@.len() ==> (#[trigger] self.cuts@[i]).1.wf()
    }

    /// Whether any of the first `c` cuts selects row `r` of the table.
    pub open spec fn selects_row_upto(self, t: Table, r: int, c: int) -> bool {
        exists|cc: int| 0 <= cc < c && cut_selects(t, (#[trigger] self.cuts@[cc]).1@, r)
    }

    /// Whether any cut selects row `r` of the table.
    pub open spec fn selects_row(self, t: Table, r: int) -> bool {
        self.selects_row_upto(t, r, self.cuts@.len() as int)
    }

    /// The combined mask: one bit per row, set exactly when some bound
    /// cut's polygon contains that row's pair.  With no bound cuts the
    /// mask is all false: no cuts select nothing.
    pub open spec fn mask_spec(self, t: Table) -> Seq<bool> {
        Seq::new(t.row_count() as nat, |r: int| self.selects_row(t, r))
    }

    /// Whether some cut is bound to a column the table does not have.
    pub open spec fn missing_column(self, t: Table) -> bool {
        exists|c: int|
            0 <= c < self.cuts@.len() && {
                let p = (#[trigger] self.cuts@[c]).1@;
                &&& p.x_col is Some
                &&& p.y_col is Some
                &&& (!t.has_col(p.x_col.unwrap()) || !t.has_col(p.y_col.unwrap()))
            }
    }

    /// Creates a handler without cuts.
    pub fn new() -> (r: CutHandler)
        ensures
            r.wf(),
            r.cuts@.len() == 0,
            r.active_cut_id is None,
            r.next_id == 1,
    {
        CutHandler { cuts: Vec::new(), active_cut_id: None, next_id: 1 }
    }

    /// Adds a new empty cut, makes it the active one, and returns its
    /// identifier.
    pub fn add_new_cut(&mut self) -> (id: u64)
        requires
            old(self).wf(),
            old(self).next_id < u64::MAX,
        ensures
            final(self).wf(),
            id == old(self).next_id,
            final(self).next_id == old(self).next_id + 1,
            final(self).active_cut_id == Some(id),
            final(self).cuts@.len() == old(self).cuts@.len() + 1,
            forall|i: int|
                0 <= i < old(self).cuts@.len() ==> final(self).cuts@[i] == #[trigger] old(
                    self,
                ).cuts@[i],
            final(self).cuts@.last().0 == id,
            final(self).cuts@.last().1@.vertices.len() == 0,
            final(self).cuts@.last().1@.x_col is None,
            final(self).cuts@.last().1@.y_col is None,
    {
        let id: u64 = self.next_id;
        self.cuts.push((id, Polygon::new()));
        self.active_cut_id = Some(id);
        self.next_id = self.next_id + 1;
        id
    }

    /// Removes the cut with the given identifier, if present; a removed
    /// active cut leaves no cut active.
    pub fn remove(&mut self, id: u64)
        requires
            old(self).wf(),
        ensures
            final(self).wf(),
            final(self).next_id == old(self).next_id,
            (exists|i: int| 0 <= i < old(self).cuts@.len() && (#[trigger] old(self).cuts@[i]).0
                == id) ==> exists|i: int|
                {
                    &&& 0 <= i < old(self).cuts@.len()
                    &&& (#[trigger] old(self).cuts@[i]).0 == id
                    &&& final(self).cuts@ == old(self).cuts@.remove(i)
                },
            (forall|i: int| 0 <= i < old(self).cuts@.len() ==> (#[trigger] old(self).cuts@[i]).0
                != id) ==> final(self).cuts@ == old(self).cuts@,
            final(self).active_cut_id == if old(self).active_cut_id == Some(id) {
                None::<u64>
            } else {
                old(self).active_cut_id
            },
    {
        let mut i: usize = 0;
        while i < self.cuts.len()
            invariant
                i <= self.cuts@.len(),
                self.wf(),
                *self == *old(self),
                forall|j: int| 0 <= j < i ==> (#[trigger] self.cuts@[j]).0 != id,
            decreases self.cuts@.len() - i,
        {
            if self.cuts[i].0 == id {
                self.cuts.remove(i);
                proof {
                    assert forall|a: int, b: int|
                        #![trigger self.cuts@[a], self.cuts@[b]]
                        0 <= a < b < self.cuts@.len() implies self.cuts@[a].0
                        != self.cuts@[b].0 by {
                        let a0 = if a < i {
                            a
                        } else {
                            a + 1
                        };
                        let b0 = if b < i {
                            b
                        } else {
                            b + 1
                        };
                        assert(old(self).cuts@[a0].0 != old(self).cuts@[b0].0);
                    }
                }
                match self.active_cut_id {
                    Some(active) => {
                        if active == id {
                            self.active_cut_id = None;
                        }
                    },
                    None => {
                    },
                }
                return ;
            }
            i = i + 1;
        }
        match self.active_cut_id {
            Some(active) => {
                if active == id {
                    self.active_cut_id = None;
                }
            },
            None => {
            },
        }
    }

    /// Makes the given cut (or none) the active one.
    pub fn set_active(&mut self, id: Option<u64>)
        requires
            old(self).wf(),
        ensures
            final(self).wf(),
            final(self).active_cut_id == id,
            final(self).cuts@ == old(self).cuts@,
            final(self).next_id == old(self).next_id,
    {
        self.active_cut_id = id;
    }

    /// Extending the union by one more cut adds exactly that cut's
    /// selection.
    proof fn lemma_selects_row_step(self, t: Table, r: int, c: int)
        requires
            0 <= c < self.cuts@.len(),
        ensures
            self.selects_row_upto(t, r, c + 1) == (self.selects_row_upto(t, r, c) || cut_selects(
                t,
                self.cuts@[c].1@,
                r,
            )),
    {
        if self.selects_row_upto(t, r, c + 1) {
            let cc = choose|cc: int|
                0 <= cc < c + 1 && cut_selects(t, (#[trigger] self.cuts@[cc]).1@, r);
            if cc < c {
                assert(self.selects_row_upto(t, r, c));
            }
        }
        if self.selects_row_upto(t, r, c) {
            let cc = choose|cc: int|
                0 <= cc < c && cut_selects(t, (#[trigger] self.cuts@[cc]).1@, r);
            assert(cut_selects(t, self.cuts@[cc].1@, r));
            assert(self.selects_row_upto(t, r, c + 1));
        }
        if cut_selects(t, self.cuts@[c].1@, r) {
            assert(self.selects_row_upto(t, r, c + 1));
        }
    }

    /// Builds the combined row mask for a table: bit `r` is set exactly
    /// when at least one cut with both columns bound, both present in the
    /// table, contains the row's non-sentinel pair.  Cuts without both
    /// bindings contribute nothing.  With no cuts at all, every bit is
    /// false.
    ///
    /// Fails with `NotFound`, producing nothing, exactly when some fully
    /// bound cut names a column the table does not have.
    #[verifier::loop_isolation(false)]
    pub fn row_mask(&self, table: &Table) -> (r: Result<Vec<bool>, CoreError>)
        requires
            self.wf(),
            table.wf(),
        ensures
            r is Ok <==> !self.missing_column(*table),
            match r {
                Ok(mask) => mask@ == self.mask_spec(*table),
                Err(e) => e == CoreError::NotFound,
            },
    {
        let mut c: usize = 0;
        while c < self.cuts.len()
            invariant
                c <= self.cuts@.len(),
                forall|cc: int|
                    0 <= cc < c ==> {
                        let p = (#[trigger] self.cuts@[cc]).1@;
                        (p.x_col is Some && p.y_col is Some) ==> (table.has_col(p.x_col.unwrap())
                            && table.has_col(p.y_col.unwrap()))
                    },
            decreases self.cuts@.len() - c,
        {
            let p: &Polygon = &self.cuts[c].1;
            match (&p.selected_x_column, &p.selected_y_column) {
                (Some(xn), Some(yn)) => {
                    let x_missing = match table.column(xn) {
                        Some(_) => false,
                        None => true,
                    };
                    let y_missing = match table.column(yn) {
                        Some(_) => false,
                        None => true,
                    };
                    if x_missing || y_missing {
                        proof {
                            assert(self.missing_column(*table));
                        }
                        return Err(CoreError::NotFound);
                    }
                },
                _ => {
                },
            }
            c = c + 1;
        }
        let n: usize = table.num_rows();
        let mut mask: Vec<bool> = Vec::new();
        let mut r: usize = 0;
        while r < n
            invariant
                r <= n,
                mask@.len() == r,
                forall|rr: int| 0 <= rr < r ==> mask@[rr] == false,
            decreases n - r,
        {
            mask.push(false);
            r = r + 1;
        }
        let mut c: usize = 0;
        while c < self.cuts.len()
            invariant
                c <= self.cuts@.len(),
                mask@.len() == n,
                forall|rr: int|
                    0 <= rr < n ==> mask@[rr] == self.selects_row_upto(*table, rr, c as int),
            decreases self.cuts@.len() - c,
        {
            let p: &Polygon = &self.cuts[c].1;
            match (&p.selected_x_column, &p.selected_y_column) {
                (Some(xn), Some(yn)) => {
                    let xcol: &Vec<i64> = match table.column(xn) {
                        Some(col) => col,
                        None => {
                            proof {
                                assert(false);
                            }
                            return Err(CoreError::NotFound);
                        },
                    };
                    let ycol: &Vec<i64> = match table.column(yn) {
                        Some(col) => col,
                        None => {
                            proof {
                                assert(false);
                            }
                            return Err(CoreError::NotFound);
                        },
                    };
                    let mut r: usize = 0;
                    while r < n
                        invariant
                            r <= n,
                            mask@.len() == n,
                            forall|rr: int|
                                0 <= rr < r ==> mask@[rr] == self.selects_row_upto(
                                    *table,
                                    rr,
                                    c as int + 1,
                                ),
                            forall|rr: int|
                                r <= rr < n ==> mask@[rr] == self.selects_row_upto(
                                    *table,
                                    rr,
                                    c as int,
                                ),
                        decreases n - r,
                    {
                        let x: i64 = xcol[r];
                        let y: i64 = ycol[r];
                        let hit: bool = if x != SENTINEL && y != SENTINEL {
                            p.contains(x, y)
                        } else {
                            false
                        };
                        proof {
                            assert(hit == cut_selects(*table, p@, r as int));
                            self.lemma_selects_row_step(*table, r as int, c as int);
                        }
                        let prior: bool = mask[r];
                        mask.set(r, prior || hit);
                        r = r + 1;
                    }
                },
                _ => {
                    proof {
                        assert forall|rr: int| 0 <= rr < n implies mask@[rr]
                            == self.selects_row_upto(*table, rr, c as int + 1) by {
                            self.lemma_selects_row_step(*table, rr, c as int);
                            assert(!cut_selects(*table, self.cuts@[c as int].1@, rr));
                        }
                    }
                },
            }
            c = c + 1;
        }
        proof {
            assert(mask@ =~= self.mask_spec(*table));
        }
        Ok(mask)
    }

    /// Filters a table down to the rows its combined mask selects.
    ///
    /// Fails with `NotFound`, producing nothing, exactly when some fully
    /// bound cut names a column the table does not have.
    pub fn filter_table(&self, table: &Table) -> (r: Result<Table, CoreError>)
        requires
            self.wf(),
            table.wf(),
        ensures
            r is Ok <==> !self.missing_column(*table),
            match r {
                Ok(t) => {
                    &&& t.wf()
                    &&& t.names@.len() == table.names@.len()
                    &&& forall|c: int|
                        0 <= c < t.names@.len() ==> (#[trigger] t.names@[c])@ == table.names@[c]@
                    &&& t.columns@.len() == table.columns@.len()
                    &&& forall|c: int|
                        0 <= c < t.columns@.len() ==> (#[trigger] t.columns@[c])@ == filter_upto(
                            table.columns@[c]@,
                            self.mask_spec(*table),
                            table.row_count(),
                        )
                },
                Err(e) => e == CoreError::NotFound,
            },
    {
        let mask: Vec<bool> = match self.row_mask(table) {
            Ok(m) => m,
            Err(e) => {
                return Err(e);
            },
        };
        match table.filter_rows(&mask) {
            Ok(t) => Ok(t),
            Err(_) => {
                proof {
                    assert(false);
                }
                Err(CoreError::NotFound)
            },
        }
    }
}

} // verus!
