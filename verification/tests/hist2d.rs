use histocuts::hist2d::Histogram2D;
use histocuts::CoreError;
use histocuts::SENTINEL;

/// Micro-units per physical unit.
const M: i64 = 1_000_000;

#[test]
fn sparse_storage_holds_only_populated_bins() {
    // A nominal 4096 x 4096 grid: nearly seventeen million bins.
    let mut h = Histogram2D::new(4096, (0, 4096 * M), 4096, (0, 4096 * M)).unwrap();
    h.fill(M, M);
    h.fill(100 * M, 2000 * M);
    h.fill(4000 * M, 7 * M);
    let cells = h.populated_bins();
    assert_eq!(cells.len(), 3);
    assert_eq!(cells[0], (1, 1, 1));
    assert_eq!(cells[1], (100, 2000, 1));
    assert_eq!(cells[2], (4000, 7, 1));
}

#[test]
fn filling_one_bin_twice_keeps_one_cell() {
    let mut h = Histogram2D::new(10, (0, 10 * M), 10, (0, 10 * M)).unwrap();
    h.fill(5 * M, 5 * M);
    h.fill(5 * M + 1, 5 * M + 2);
    let cells = h.populated_bins();
    assert_eq!(cells.len(), 1);
    assert_eq!(cells[0], (5, 5, 2));
    assert_eq!(h.total, 2);
}

#[test]
fn out_of_range_and_sentinel_pairs_are_dropped() {
    let mut h = Histogram2D::new(10, (0, 10 * M), 10, (0, 10 * M)).unwrap();
    h.fill(10 * M, 5 * M);
    h.fill(5 * M, -1);
    h.fill(SENTINEL, 5 * M);
    h.fill(5 * M, SENTINEL);
    assert_eq!(h.total, 0);
    assert_eq!(h.populated_bins().len(), 0);
}

#[test]
fn mismatched_columns_report_and_leave_bins_unchanged() {
    let mut h = Histogram2D::new(10, (0, 10 * M), 10, (0, 10 * M)).unwrap();
    h.fill(M, M);
    let xs = vec![2 * M, 3 * M];
    let ys = vec![2 * M];
    assert_eq!(h.fill_many(&xs, &ys).unwrap_err(), CoreError::LengthMismatch);
    let cells = h.populated_bins();
    assert_eq!(cells.len(), 1);
    assert_eq!(cells[0], (1, 1, 1));
    assert_eq!(h.total, 1);
}

#[test]
fn bulk_fill_rescans_the_extrema() {
    let mut h = Histogram2D::new(10, (0, 10 * M), 10, (0, 10 * M)).unwrap();
    let xs = vec![M, M, M, 2 * M, 3 * M];
    let ys = vec![M, M, M, 2 * M, 3 * M];
    h.fill_many(&xs, &ys).unwrap();
    assert_eq!(h.min_count, 1);
    assert_eq!(h.max_count, 3);
    assert_eq!(h.total, 5);
}

#[test]
fn single_fills_update_extrema_incrementally() {
    let mut h = Histogram2D::new(10, (0, 10 * M), 10, (0, 10 * M)).unwrap();
    h.fill(M, M);
    h.fill(M, M);
    // The running minimum saw the count pass through one and stays there
    // until a bulk fill rescans.
    assert_eq!(h.min_count, 1);
    assert_eq!(h.max_count, 2);
    h.fill_many(&vec![], &vec![]).unwrap();
    assert_eq!(h.min_count, 2);
    assert_eq!(h.max_count, 2);
}

#[test]
fn bin_rect_gives_centers_and_extents() {
    let h = Histogram2D::new(10, (0, 10 * M), 5, (-5 * M, 5 * M)).unwrap();
    let (xc, yc, w, ht) = h.bin_rect(0, 0);
    assert_eq!(xc, M / 2);
    assert_eq!(yc, -4 * M);
    assert_eq!(w, M);
    assert_eq!(ht, 2 * M);
    let (xc9, yc4, _, _) = h.bin_rect(9, 4);
    assert_eq!(xc9, 9 * M + M / 2);
    assert_eq!(yc4, 4 * M);
}

#[test]
fn bar_data_matches_populated_bins() {
    let mut h = Histogram2D::new(10, (0, 10 * M), 10, (0, 10 * M)).unwrap();
    h.fill(M, 2 * M);
    h.fill(M, 2 * M);
    let bars = h.generate_bar_data();
    assert_eq!(bars.len(), 1);
    assert_eq!(bars[0].x, M + M / 2);
    assert_eq!(bars[0].y, 2 * M + M / 2);
    assert_eq!(bars[0].bar_width, M);
    assert_eq!(bars[0].height, M);
    assert_eq!(bars[0].count, 2);
}

#[test]
fn invalid_axis_configurations_are_rejected() {
    assert!(matches!(
        Histogram2D::new(0, (0, M), 10, (0, M)),
        Err(CoreError::InvalidConfiguration)
    ));
    assert!(matches!(
        Histogram2D::new(10, (0, M), 0, (0, M)),
        Err(CoreError::InvalidConfiguration)
    ));
    assert!(matches!(
        Histogram2D::new(10, (M, 0), 10, (0, M)),
        Err(CoreError::InvalidConfiguration)
    ));
    assert!(matches!(
        Histogram2D::new(10, (0, M), 10, (M, M)),
        Err(CoreError::InvalidConfiguration)
    ));
}
