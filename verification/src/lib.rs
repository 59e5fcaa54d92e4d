//! A verified histogram and polygon-cut engine for columnar datasets.
//!
//! Sample values and geometric coordinates are fixed-point numbers: one
//! unit is a millionth of the physical unit ("micro-units").  A reserved
//! value, [`SENTINEL`], marks a missing measurement; every aggregation and
//! every geometric test drops sentinel-valued entries.
//!
//! The crate offers dense one-dimensional histograms with windowed
//! statistics ([`hist1d`]), sparse two-dimensional histograms ([`hist2d`]),
//! polygon regions with an exact point-containment test ([`polygon`]), a
//! textual snapshot format for polygons with a proved round trip
//! ([`codec`]), named collections of polygon cuts that filter row tables
//! ([`cuts`]), and a name-keyed histogram registry ([`registry`]).

use vstd::prelude::*;

pub mod seqsum;
pub mod intmath;
pub mod hist1d;
pub mod hist2d;
pub mod polygon;
pub mod codec;
pub mod registry;
pub mod cuts;

verus! {

/// Reserved value standing for a missing measurement: -1 000 000 physical
/// units, expressed in micro-units.
pub const SENTINEL: i64 = -1000000000000;

/// Largest magnitude a coordinate, a range endpoint or a polygon vertex may
/// have, in micro-units (a billion physical units).  The bound keeps every
/// intermediate product of the bin and geometry arithmetic inside `i128`.
pub const COORD_LIMIT: i64 = 1000000000000000;

/// Most samples one histogram accumulates (2^40).  Together with
/// [`MAX_BINS`] and [`COORD_LIMIT`] this keeps the windowed-statistics
/// arithmetic exact in `i128`.  Fills beyond the bound are dropped.
pub const MAX_TOTAL: u64 = 1099511627776;

/// Most bins a histogram axis may have (2^20).
pub const MAX_BINS: usize = 1048576;

/// The error kinds the engine reports.  Every error is recoverable at the
/// call site; construction and fill operations leave their target unchanged
/// when they report one.
#[derive(Clone, Copy, Debug, PartialEq, Eq, Structural)]
pub enum CoreError {
    /// A histogram was requested with zero bins, too many bins, an empty or
    /// inverted range, or endpoints beyond [`COORD_LIMIT`].
    InvalidConfiguration,
    /// A fill or query named a histogram (or a table column) that is not
    /// registered under that name with the required dimensionality.
    NotFound,
    /// Paired sequences (x/y columns, or a mask and a table) differ in
    /// length; the operation was aborted with no partial mutation.
    LengthMismatch,
}

} // verus!
