//! Polygon regions over fixed-point coordinates, with an exact
//! point-containment test and interactive vertex edits.

use vstd::prelude::*;

use crate::COORD_LIMIT;

verus! {

/// Whether a point lies inside the coordinate bounds the geometry
/// arithmetic is exact for.
pub open spec fn coord_ok(x: int, y: int) -> bool {
    &&& -COORD_LIMIT <= x <= COORD_LIMIT
    &&& -COORD_LIMIT <= y <= COORD_LIMIT
}

/// Whether the directed edge from `(ax, ay)` to `(bx, by)` crosses the
/// horizontal ray going left from `(px, py)`.
///
/// The edge counts only if it straddles the ray's height with the strict
/// rule `(ay > py) != (by > py)`, so each edge owns its lower endpoint's
/// height and not its upper one; the crossing must lie strictly right of
/// the point.  Both comparisons are exact integer cross products: no
/// rounding, and the same verdict for identical inputs everywhere.
pub open spec fn edge_crosses(ax: int, ay: int, bx: int, by: int, px: int, py: int) -> bool {
    &&& (ay > py) != (by > py)
    &&& if by > ay {
        (px - ax) * (by - ay) < (py - ay) * (bx - ax)
    } else {
        (px - ax) * (by - ay) > (py - ay) * (bx - ax)
    }
}

/// The parity of ray crossings among the first `k` boundary edges, where
/// edge `i` runs from the previous vertex (the last one for `i == 0`) to
/// vertex `i`.
pub open spec fn crossings_upto(vs: Seq<(i64, i64)>, px: int, py: int, k: int) -> bool
    decreases k,
{
    if k <= 0 {
        false
    } else {
        let j = if k == 1 {
            vs.len() - 1
        } else {
            k - 2
        };
        crossings_upto(vs, px, py, k - 1) != edge_crosses(
            vs[j].0 as int,
            vs[j].1 as int,
            vs[k - 1].0 as int,
            vs[k - 1].1 as int,
            px,
            py,
        )
    }
}

/// The containment rule of this crate: even-odd ray casting over the full
/// boundary.  A polygon with fewer than three vertices contains no point.
pub open spec fn polygon_contains(vs: Seq<(i64, i64)>, px: int, py: int) -> bool {
    vs.len() >= 3 && crossings_upto(vs, px, py, vs.len() as int)
}

/// The mathematical model of a polygon cut: its vertices in order and its
/// two optional column bindings, as plain sequences.
#[verifier::ext_equal]
pub struct PolyView {
    pub vertices: Seq<(i64, i64)>,
    pub x_col: Option<Seq<char>>,
    pub y_col: Option<Seq<char>>,
}

impl PolyView {
    /// A model some well-formed polygon could have: every vertex within
    /// [`COORD_LIMIT`].
    pub open spec fn valid(self) -> bool {
        forall|i: int|
            0 <= i < self.vertices.len() ==> #[trigger] coord_ok(
                self.vertices[i].0 as int,
                self.vertices[i].1 as int,
            )
    }
}

/// A simple polygon given by its ordered vertex list, optionally bound to
/// a pair of data columns whose rows it selects.
///
/// The vertex order defines the boundary.  Containment follows the
/// even-odd ray-casting rule of [`polygon_contains`]; it handles convex
/// and non-convex simple polygons, and never fails on self-intersecting
/// ones (their inside is whatever the parity rule yields).  A point
/// exactly on an edge is classified by the same exact integer rule:
/// deterministic, but either side is possible depending on the edge's
/// direction.
pub struct Polygon {
    /// The vertices, in boundary order, in micro-units.
    pub vertices: Vec<(i64, i64)>,
    /// The name of the column providing x values, once bound.
    pub selected_x_column: Option<Vec<char>>,
    /// The name of the column providing y values, once bound.
    pub selected_y_column: Option<Vec<char>>,
}

impl View for Polygon {
    type V = PolyView;

    open spec fn view(&self) -> PolyView {
        PolyView {
            vertices: self.vertices@,
            x_col: match self.selected_x_column {
                Some(ref n) => Some(n@),
                None => None,
            },
            y_col: match self.selected_y_column {
                Some(ref n) => Some(n@),
                None => None,
            },
        }
    }
}

impl Polygon {
    /// Structural invariant: every vertex lies within [`COORD_LIMIT`], so
    /// every cross product of the containment test stays exact.
    pub open spec fn wf(self) -> bool {
        self@.valid()
    }

    /// Creates a polygon with no vertices and no column bindings.
    pub fn new() -> (r: Polygon)
        ensures
            r.wf(),
            r.vertices@.len() == 0,
            r.selected_x_column is None,
            r.selected_y_column is None,
    {
        Polygon { vertices: Vec::new(), selected_x_column: None, selected_y_column: None }
    }

    /// Appends a vertex to the boundary.
    pub fn add_vertex(&mut self, x: i64, y: i64)
        requires
            old(self).wf(),
            coord_ok(x as int, y as int),
        ensures
            final(self).wf(),
            final(self).vertices@ == old(self).vertices@.push((x, y)),
            final(self).selected_x_column == old(self).selected_x_column,
            final(self).selected_y_column == old(self).selected_y_column,
    {
        self.vertices.push((x, y));
        proof {
            assert forall|i: int| 0 <= i < self@.vertices.len() implies #[trigger] coord_ok(
                self@.vertices[i].0 as int,
                self@.vertices[i].1 as int,
            ) by {
                if i < old(self)@.vertices.len() {
                    assert(coord_ok(
                        old(self)@.vertices[i].0 as int,
                        old(self)@.vertices[i].1 as int,
                    ));
                }
            }
        }
    }

    /// Removes the vertex at `index`, closing the boundary over the gap.
    pub fn remove_vertex(&mut self, index: usize)
        requires
            old(self).wf(),
            index < old(self).vertices@.len(),
        ensures
            final(self).wf(),
            final(self).vertices@ == old(self).vertices@.remove(index as int),
            final(self).selected_x_column == old(self).selected_x_column,
            final(self).selected_y_column == old(self).selected_y_column,
    {
        self.vertices.remove(index);
        proof {
            assert forall|i: int| 0 <= i < self@.vertices.len() implies #[trigger] coord_ok(
                self@.vertices[i].0 as int,
                self@.vertices[i].1 as int,
            ) by {
                let k = if i < index {
                    i
                } else {
                    i + 1
                };
                assert(coord_ok(old(self)@.vertices[k].0 as int, old(self)@.vertices[k].1 as int));
            }
        }
    }

    /// Removes every vertex, keeping the column bindings.
    pub fn clear(&mut self)
        ensures
            final(self).wf(),
            final(self).vertices@.len() == 0,
            final(self).selected_x_column == old(self).selected_x_column,
            final(self).selected_y_column == old(self).selected_y_column,
    {
        self.vertices.clear();
    }

    /// Whether both column bindings are set.
    pub fn is_bound(&self) -> (r: bool)
        ensures
            r == (self.selected_x_column is Some && self.selected_y_column is Some),
    {
        self.selected_x_column.is_some() && self.selected_y_column.is_some()
    }

    /// Whether the polygon contains `(x, y)` under the crate's even-odd
    /// ray-casting rule.  A point outside the exact-arithmetic coordinate
    /// bounds is never contained.
    pub fn contains(&self, x: i64, y: i64) -> (r: bool)
        requires
            self.wf(),
        ensures
            r == (coord_ok(x as int, y as int) && polygon_contains(
                self.vertices@,
                x as int,
                y as int,
            )),
    {
        if x < -COORD_LIMIT || x > COORD_LIMIT || y < -COORD_LIMIT || y > COORD_LIMIT {
            return false;
        }
        let n: usize = self.vertices.len();
        if n < 3 {
            return false;
        }
        let mut inside: bool = false;
        let mut i: usize = 0;
        let mut j: usize = n - 1;
        while i < n
            invariant
                self.wf(),
                3 <= n == self.vertices@.len(),
                i <= n,
                j as int == if i == 0 {
                    n as int - 1
                } else {
                    i as int - 1
                },
                coord_ok(x as int, y as int),
                inside == crossings_upto(self.vertices@, x as int, y as int, i as int),
            decreases n - i,
        {
            let (ax, ay) = self.vertices[j];
            let (bx, by) = self.vertices[i];
            if (ay > y) != (by > y) {
                proof {
                    assert(coord_ok(
                        self@.vertices[j as int].0 as int,
                        self@.vertices[j as int].1 as int,
                    ));
                    assert(coord_ok(
                        self@.vertices[i as int].0 as int,
                        self@.vertices[i as int].1 as int,
                    ));
                    assert((x - ax) * (by - ay) <= 4000000000000000 * 4000000000000000
                        && (x - ax) * (by - ay) >= -(4000000000000000 * 4000000000000000))
                        by (nonlinear_arith)
                        requires
                            -2000000000000000 <= x - ax <= 2000000000000000,
                            -2000000000000000 <= by - ay <= 2000000000000000,
                    ;
                    assert((y - ay) * (bx - ax) <= 4000000000000000 * 4000000000000000
                        && (y - ay) * (bx - ax) >= -(4000000000000000 * 4000000000000000))
                        by (nonlinear_arith)
                        requires
                            -2000000000000000 <= y - ay <= 2000000000000000,
                            -2000000000000000 <= bx - ax <= 2000000000000000,
                    ;
                }
                let lhs: i128 = (x as i128 - ax as i128) * (by as i128 - ay as i128);
                let rhs: i128 = (y as i128 - ay as i128) * (bx as i128 - ax as i128);
                let crossed: bool = if by > ay {
                    lhs < rhs
                } else {
                    lhs > rhs
                };
                if crossed {
                    inside = !inside;
                }
            }
            j = i;
            i = i + 1;
        }
        inside
    }

    /// The squared distance from a vertex to a query point.
    pub open spec fn dist2(v: (i64, i64), px: int, py: int) -> int {
        (v.0 - px) * (v.0 - px) + (v.1 - py) * (v.1 - py)
    }

    /// The vertex closest to `(x, y)`: the one with the smallest squared
    /// distance, the earliest on ties.  `None` only for an empty polygon.
    pub fn get_closest_vertex_index(&self, x: i64, y: i64) -> (r: Option<usize>)
        requires
            self.wf(),
            coord_ok(x as int, y as int),
        ensures
            match r {
                None => self.vertices@.len() == 0,
                Some(b) => {
                    &&& self.vertices@.len() > 0
                    &&& b < self.vertices@.len()
                    &&& forall|j: int|
                        0 <= j < self.vertices@.len() ==> Self::dist2(
                            self.vertices@[b as int],
                            x as int,
                            y as int,
                        ) <= #[trigger] Self::dist2(self.vertices@[j], x as int, y as int)
                    &&& forall|j: int|
                        0 <= j < b ==> Self::dist2(self.vertices@[b as int], x as int, y as int)
                            < #[trigger] Self::dist2(self.vertices@[j], x as int, y as int)
                },
            },
    {
        let n: usize = self.vertices.len();
        if n == 0 {
            return None;
        }
        let mut best: usize = 0;
        proof {
            assert(coord_ok(self@.vertices[0].0 as int, self@.vertices[0].1 as int));
        }
        let mut best_d: i128 = Self::dist2_exec(self.vertices[0], x, y);
        let mut i: usize = 1;
        while i < n
            invariant
                self.wf(),
                coord_ok(x as int, y as int),
                n == self.vertices@.len(),
                1 <= i <= n,
                best < i,
                best_d == Self::dist2(self.vertices@[best as int], x as int, y as int),
                forall|j: int|
                    0 <= j < i ==> best_d <= #[trigger] Self::dist2(
                        self.vertices@[j],
                        x as int,
                        y as int,
                    ),
                forall|j: int|
                    0 <= j < best ==> best_d < #[trigger] Self::dist2(
                        self.vertices@[j],
                        x as int,
                        y as int,
                    ),
            decreases n - i,
        {
            proof {
                assert(coord_ok(self@.vertices[i as int].0 as int, self@.vertices[i as int].1 as int));
            }
            let d: i128 = Self::dist2_exec(self.vertices[i], x, y);
            if d < best_d {
                best = i;
                best_d = d;
            }
            i = i + 1;
        }
        Some(best)
    }

    /// The shared squared-distance computation.
    fn dist2_exec(v: (i64, i64), x: i64, y: i64) -> (r: i128)
        requires
            coord_ok(v.0 as int, v.1 as int),
            coord_ok(x as int, y as int),
        ensures
            r == Self::dist2(v, x as int, y as int),
    {
        proof {
            assert(0 <= (v.0 - x) * (v.0 - x) <= 4000000000000000 * 4000000000000000
                && 0 <= (v.1 - y) * (v.1 - y) <= 4000000000000000 * 4000000000000000)
                by (nonlinear_arith)
                requires
                    -2000000000000000 <= v.0 - x <= 2000000000000000,
                    -2000000000000000 <= v.1 - y <= 2000000000000000,
            ;
        }
        let dx: i128 = v.0 as i128 - x as i128;
        let dy: i128 = v.1 as i128 - y as i128;
        dx * dx + dy * dy
    }
}

} // verus!
