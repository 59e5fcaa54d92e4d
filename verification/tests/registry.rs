use histocuts::registry::{HistogramTypes, Histogrammer};
use histocuts::CoreError;

/// Micro-units per physical unit.
const M: i64 = 1_000_000;

fn chars(s: &str) -> Vec<char> {
    s.chars().collect()
}

#[test]
fn histograms_fill_and_read_back_by_name() {
    let mut reg = Histogrammer::new();
    reg.add_hist1d(&chars("xavg"), 10, (0, 10 * M)).unwrap();
    reg.fill_hist1d(&chars("xavg"), &vec![M / 2, 5 * M, 20 * M]).unwrap();
    match reg.get(&chars("xavg")).unwrap() {
        HistogramTypes::Hist1D(h) => {
            assert_eq!(h.total, 2);
            assert_eq!(h.bins[0], 1);
            assert_eq!(h.bins[5], 1);
        },
        HistogramTypes::Hist2D(_) => panic!("expected a 1D histogram"),
    }
}

#[test]
fn unknown_names_report_not_found() {
    let mut reg = Histogrammer::new();
    assert!(reg.get(&chars("missing")).is_none());
    assert_eq!(
        reg.fill_hist1d(&chars("missing"), &vec![M]).unwrap_err(),
        CoreError::NotFound
    );
    assert_eq!(
        reg.fill_hist2d(&chars("missing"), &vec![M], &vec![M]).unwrap_err(),
        CoreError::NotFound
    );
}

#[test]
fn filling_with_the_wrong_dimensionality_reports_not_found() {
    let mut reg = Histogrammer::new();
    reg.add_hist1d(&chars("one"), 10, (0, 10 * M)).unwrap();
    reg.add_hist2d(&chars("two"), 10, (0, 10 * M), 10, (0, 10 * M)).unwrap();
    assert_eq!(
        reg.fill_hist2d(&chars("one"), &vec![M], &vec![M]).unwrap_err(),
        CoreError::NotFound
    );
    assert_eq!(
        reg.fill_hist1d(&chars("two"), &vec![M]).unwrap_err(),
        CoreError::NotFound
    );
}

#[test]
fn fill_2d_length_mismatch_leaves_bins_unchanged() {
    let mut reg = Histogrammer::new();
    reg.add_hist2d(&chars("grid"), 10, (0, 10 * M), 10, (0, 10 * M)).unwrap();
    reg.fill_hist2d(&chars("grid"), &vec![M, 2 * M], &vec![M, 2 * M]).unwrap();
    assert_eq!(
        reg.fill_hist2d(&chars("grid"), &vec![3 * M], &vec![3 * M, 4 * M]).unwrap_err(),
        CoreError::LengthMismatch
    );
    match reg.get(&chars("grid")).unwrap() {
        HistogramTypes::Hist2D(h) => {
            assert_eq!(h.total, 2);
            assert_eq!(h.populated_bins().len(), 2);
        },
        HistogramTypes::Hist1D(_) => panic!("expected a 2D histogram"),
    }
}

#[test]
fn registering_a_taken_name_overwrites_the_entry() {
    let mut reg = Histogrammer::new();
    reg.add_fill_hist1d(&chars("e"), &vec![M, 2 * M], 10, (0, 10 * M)).unwrap();
    match reg.get(&chars("e")).unwrap() {
        HistogramTypes::Hist1D(h) => assert_eq!(h.total, 2),
        HistogramTypes::Hist2D(_) => panic!("expected a 1D histogram"),
    }
    // Re-registering under the same name discards the old counts.
    reg.add_hist1d(&chars("e"), 20, (0, 20 * M)).unwrap();
    match reg.get(&chars("e")).unwrap() {
        HistogramTypes::Hist1D(h) => {
            assert_eq!(h.total, 0);
            assert_eq!(h.bins.len(), 20);
        },
        HistogramTypes::Hist2D(_) => panic!("expected a 1D histogram"),
    }
}

#[test]
fn add_fill_2d_builds_and_fills_in_one_step() {
    let mut reg = Histogrammer::new();
    reg.add_fill_hist2d(
        &chars("pid"),
        &vec![M, M, 9 * M],
        &vec![2 * M, 2 * M, 9 * M],
        10,
        (0, 10 * M),
        10,
        (0, 10 * M),
    )
    .unwrap();
    match reg.get(&chars("pid")).unwrap() {
        HistogramTypes::Hist2D(h) => {
            assert_eq!(h.total, 3);
            assert_eq!(h.min_count, 1);
            assert_eq!(h.max_count, 2);
            let cells = h.populated_bins();
            assert_eq!(cells.len(), 2);
            assert_eq!(cells[0], (1, 2, 2));
            assert_eq!(cells[1], (9, 9, 1));
        },
        HistogramTypes::Hist1D(_) => panic!("expected a 2D histogram"),
    }
}

#[test]
fn add_fill_leaves_other_entries_unchanged() {
    let mut reg = Histogrammer::new();
    reg.add_fill_hist1d(&chars("first"), &vec![M, 2 * M], 10, (0, 10 * M)).unwrap();
    reg.add_fill_hist1d(&chars("second"), &vec![3 * M], 10, (0, 10 * M)).unwrap();
    reg.add_fill_hist2d(
        &chars("third"),
        &vec![M],
        &vec![M],
        10,
        (0, 10 * M),
        10,
        (0, 10 * M),
    )
    .unwrap();
    match reg.get(&chars("first")).unwrap() {
        HistogramTypes::Hist1D(h) => {
            assert_eq!(h.total, 2);
            assert_eq!(h.bins[1], 1);
            assert_eq!(h.bins[2], 1);
        },
        HistogramTypes::Hist2D(_) => panic!("expected a 1D histogram"),
    }
    match reg.get(&chars("second")).unwrap() {
        HistogramTypes::Hist1D(h) => assert_eq!(h.total, 1),
        HistogramTypes::Hist2D(_) => panic!("expected a 1D histogram"),
    }
}

#[test]
fn add_fill_2d_length_mismatch_keeps_the_fresh_histogram() {
    let mut reg = Histogrammer::new();
    reg.add_fill_hist2d(
        &chars("pid"),
        &vec![M, 2 * M],
        &vec![M, 2 * M],
        10,
        (0, 10 * M),
        10,
        (0, 10 * M),
    )
    .unwrap();
    // Re-registering under the same name with ragged columns overwrites
    // the entry with a fresh empty histogram and then reports the
    // mismatch.
    assert_eq!(
        reg.add_fill_hist2d(
            &chars("pid"),
            &vec![3 * M],
            &vec![3 * M, 4 * M],
            20,
            (0, 20 * M),
            20,
            (0, 20 * M),
        )
        .unwrap_err(),
        CoreError::LengthMismatch
    );
    match reg.get(&chars("pid")).unwrap() {
        HistogramTypes::Hist2D(h) => {
            assert_eq!(h.total, 0);
            assert_eq!(h.populated_bins().len(), 0);
            assert_eq!(h.x_bins, 20);
            assert_eq!(h.min_count, u64::MAX);
            assert_eq!(h.max_count, 0);
        },
        HistogramTypes::Hist1D(_) => panic!("expected a 2D histogram"),
    }
}

#[test]
fn add_fill_2d_invalid_configuration_changes_nothing() {
    let mut reg = Histogrammer::new();
    reg.add_fill_hist1d(&chars("kept"), &vec![M], 10, (0, 10 * M)).unwrap();
    assert_eq!(
        reg.add_fill_hist2d(
            &chars("bad"),
            &vec![M],
            &vec![M],
            0,
            (0, 10 * M),
            10,
            (0, 10 * M),
        )
        .unwrap_err(),
        CoreError::InvalidConfiguration
    );
    assert!(reg.get(&chars("bad")).is_none());
    match reg.get(&chars("kept")).unwrap() {
        HistogramTypes::Hist1D(h) => assert_eq!(h.total, 1),
        HistogramTypes::Hist2D(_) => panic!("expected a 1D histogram"),
    }
}

#[test]
fn invalid_configurations_do_not_register() {
    let mut reg = Histogrammer::new();
    assert_eq!(
        reg.add_hist1d(&chars("bad"), 0, (0, 10 * M)).unwrap_err(),
        CoreError::InvalidConfiguration
    );
    assert_eq!(
        reg.add_hist2d(&chars("bad"), 10, (10 * M, 0), 10, (0, 10 * M)).unwrap_err(),
        CoreError::InvalidConfiguration
    );
    assert!(reg.get(&chars("bad")).is_none());
}
