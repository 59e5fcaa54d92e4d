use histocuts::hist1d::Histogram;
use histocuts::CoreError;
use histocuts::MAX_BINS;
use histocuts::SENTINEL;

/// Micro-units per physical unit.
const M: i64 = 1_000_000;

#[test]
fn fill_classifies_half_open_range() {
    let mut h = Histogram::new(10, (0, 10 * M)).unwrap();
    for v in [M / 2, 9_900_000, 10 * M, SENTINEL, 5 * M] {
        h.fill(v);
    }
    assert_eq!(h.bins[0], 1);
    assert_eq!(h.bins[5], 1);
    assert_eq!(h.bins[9], 1);
    for (i, &b) in h.bins.iter().enumerate() {
        if i != 0 && i != 5 && i != 9 {
            assert_eq!(b, 0, "bin {} should be empty", i);
        }
    }
    assert_eq!(h.total, 3);
}

#[test]
fn sum_of_bins_counts_in_range_values() {
    let mut h = Histogram::new(7, (-3 * M, 4 * M)).unwrap();
    let values = vec![-3 * M, -2 * M, 0, M, 2 * M, 4 * M - 1, 4 * M, 5 * M, -4 * M];
    h.fill_many(&values);
    let in_range = values
        .iter()
        .filter(|&&v| -3 * M <= v && v < 4 * M && v != SENTINEL)
        .count() as u64;
    let sum: u64 = h.bins.iter().sum();
    assert_eq!(sum, in_range);
    assert_eq!(sum, 6);
}

#[test]
fn sentinel_is_dropped_even_inside_the_range() {
    let mut h = Histogram::new(4, (-2_000_000 * M, 0)).unwrap();
    h.fill(SENTINEL);
    assert_eq!(h.total, 0);
    h.fill(SENTINEL + 1);
    assert_eq!(h.total, 1);
}

#[test]
fn full_range_stats_count_equals_total_fills() {
    let mut h = Histogram::new(10, (0, 10 * M)).unwrap();
    h.fill_many(&vec![0, M, 2 * M, 3 * M, 9_999_999, 5 * M]);
    let (count, _, _) = h.stats(0, 10 * M);
    assert_eq!(count, h.total);
    assert_eq!(count, 6);
}

#[test]
fn stats_mean_and_stdev_use_bin_centers() {
    let mut h = Histogram::new(10, (0, 10 * M)).unwrap();
    h.fill(M);
    h.fill(5 * M);
    let (count, mean, stdev) = h.stats(0, 10 * M);
    assert_eq!(count, 2);
    // Bin centers 1.5 and 5.5: mean 3.5, population stdev 2.0.
    assert_eq!(mean, 3_500_000);
    assert_eq!(stdev, 2_000_000);
}

#[test]
fn stats_of_a_single_bin_has_zero_spread() {
    let mut h = Histogram::new(10, (0, 10 * M)).unwrap();
    h.fill(5 * M);
    h.fill(5 * M + 1);
    let (count, mean, stdev) = h.stats(5 * M, 5 * M + M / 2);
    assert_eq!(count, 2);
    assert_eq!(mean, 5_500_000);
    assert_eq!(stdev, 0);
}

#[test]
fn degenerate_window_yields_zeros() {
    let mut h = Histogram::new(10, (0, 10 * M)).unwrap();
    h.fill(5 * M);
    let (count, mean, stdev) = h.stats(8 * M, 2 * M);
    assert_eq!((count, mean, stdev), (0, 0, 0));
}

#[test]
fn empty_window_yields_zeros() {
    let h = Histogram::new(10, (0, 10 * M)).unwrap();
    let (count, mean, stdev) = h.stats(0, 10 * M);
    assert_eq!((count, mean, stdev), (0, 0, 0));
}

#[test]
fn get_bin_includes_the_upper_edge() {
    let h = Histogram::new(10, (0, 10 * M)).unwrap();
    assert_eq!(h.get_bin(0), Some(0));
    assert_eq!(h.get_bin(9_999_999), Some(9));
    // The upper edge maps one past the last bin: it locates a cursor, not
    // a sample.
    assert_eq!(h.get_bin(10 * M), Some(10));
    assert_eq!(h.get_bin(10 * M + 1), None);
    assert_eq!(h.get_bin(-1), None);
}

#[test]
fn invalid_configurations_are_rejected() {
    assert!(matches!(
        Histogram::new(0, (0, 10 * M)),
        Err(CoreError::InvalidConfiguration)
    ));
    assert!(matches!(
        Histogram::new(10, (10 * M, 0)),
        Err(CoreError::InvalidConfiguration)
    ));
    assert!(matches!(
        Histogram::new(10, (0, 0)),
        Err(CoreError::InvalidConfiguration)
    ));
    assert!(matches!(
        Histogram::new(MAX_BINS + 1, (0, 10 * M)),
        Err(CoreError::InvalidConfiguration)
    ));
    assert!(Histogram::new(MAX_BINS, (0, 10 * M)).is_ok());
}

#[test]
fn step_points_outline_the_bins() {
    let mut h = Histogram::new(4, (0, 4 * M)).unwrap();
    h.fill(0);
    h.fill(3 * M + 1);
    h.fill(3 * M + 2);
    let pts = h.step_histogram_points();
    assert_eq!(pts.len(), 8);
    assert_eq!(pts[0], (0, 1));
    assert_eq!(pts[1], (M, 1));
    assert_eq!(pts[2], (M, 0));
    assert_eq!(pts[6], (3 * M, 2));
    assert_eq!(pts[7], (4 * M, 2));
}
