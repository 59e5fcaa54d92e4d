use histocuts::cuts::{CutHandler, Table};
use histocuts::CoreError;
use histocuts::SENTINEL;

/// Micro-units per physical unit.
const M: i64 = 1_000_000;

fn chars(s: &str) -> Vec<char> {
    s.chars().collect()
}

/// A table with one row holding the point (5, 5) in columns "x" and "y".
fn point_table() -> Table {
    let mut t = Table::new();
    t.add_column(chars("x"), vec![5 * M]).unwrap();
    t.add_column(chars("y"), vec![5 * M]).unwrap();
    t
}

/// Binds a square cut covering [lo, lo+10) in both axes to "x" and "y".
fn add_square_cut(h: &mut CutHandler, lo: i64) -> u64 {
    let id = h.add_new_cut();
    let n = h.cuts.len();
    let p = &mut h.cuts[n - 1].1;
    p.add_vertex(lo, lo);
    p.add_vertex(lo + 10 * M, lo);
    p.add_vertex(lo + 10 * M, lo + 10 * M);
    p.add_vertex(lo, lo + 10 * M);
    p.selected_x_column = Some(chars("x"));
    p.selected_y_column = Some(chars("y"));
    id
}

#[test]
fn one_containing_cut_selects_the_row() {
    let t = point_table();
    let mut h = CutHandler::new();
    add_square_cut(&mut h, 0);
    // A second cut far away does not contain the point.
    add_square_cut(&mut h, 100 * M);
    assert_eq!(h.row_mask(&t).unwrap(), vec![true]);
}

#[test]
fn excluding_cuts_select_nothing() {
    let t = point_table();
    let mut h = CutHandler::new();
    add_square_cut(&mut h, 100 * M);
    add_square_cut(&mut h, -100 * M);
    assert_eq!(h.row_mask(&t).unwrap(), vec![false]);
}

#[test]
fn no_cuts_select_nothing() {
    let t = point_table();
    let h = CutHandler::new();
    assert_eq!(h.row_mask(&t).unwrap(), vec![false]);
}

#[test]
fn unbound_cuts_contribute_nothing() {
    let t = point_table();
    let mut h = CutHandler::new();
    let id = add_square_cut(&mut h, 0);
    let n = h.cuts.len();
    h.cuts[n - 1].1.selected_y_column = None;
    assert_eq!(h.row_mask(&t).unwrap(), vec![false]);
    assert_eq!(id, 1);
}

#[test]
fn sentinel_rows_are_never_selected() {
    let mut t = Table::new();
    t.add_column(chars("x"), vec![5 * M, SENTINEL, 5 * M]).unwrap();
    t.add_column(chars("y"), vec![5 * M, 5 * M, SENTINEL]).unwrap();
    let mut h = CutHandler::new();
    // A cut wide enough to contain even the sentinel's numeric value.
    let id = h.add_new_cut();
    let n = h.cuts.len();
    let p = &mut h.cuts[n - 1].1;
    p.add_vertex(-2_000_000 * M, -2_000_000 * M);
    p.add_vertex(2_000_000 * M, -2_000_000 * M);
    p.add_vertex(2_000_000 * M, 2_000_000 * M);
    p.add_vertex(-2_000_000 * M, 2_000_000 * M);
    p.selected_x_column = Some(chars("x"));
    p.selected_y_column = Some(chars("y"));
    assert_eq!(id, 1);
    assert_eq!(h.row_mask(&t).unwrap(), vec![true, false, false]);
}

#[test]
fn missing_columns_are_reported() {
    let t = point_table();
    let mut h = CutHandler::new();
    add_square_cut(&mut h, 0);
    let n = h.cuts.len();
    h.cuts[n - 1].1.selected_y_column = Some(chars("nope"));
    assert_eq!(h.row_mask(&t).unwrap_err(), CoreError::NotFound);
    assert_eq!(h.filter_table(&t).unwrap_err(), CoreError::NotFound);
}

#[test]
fn filter_table_keeps_selected_rows_in_every_column() {
    let mut t = Table::new();
    t.add_column(chars("x"), vec![5 * M, 50 * M, 7 * M]).unwrap();
    t.add_column(chars("y"), vec![5 * M, 5 * M, 2 * M]).unwrap();
    t.add_column(chars("extra"), vec![11, 22, 33]).unwrap();
    let mut h = CutHandler::new();
    add_square_cut(&mut h, 0);
    let filtered = h.filter_table(&t).unwrap();
    assert_eq!(filtered.num_rows(), 2);
    assert_eq!(filtered.column(&chars("x")).unwrap(), &vec![5 * M, 7 * M]);
    assert_eq!(filtered.column(&chars("y")).unwrap(), &vec![5 * M, 2 * M]);
    assert_eq!(filtered.column(&chars("extra")).unwrap(), &vec![11, 33]);
}

#[test]
fn one_polygon_filters_against_named_columns() {
    let mut t = Table::new();
    t.add_column(chars("a"), vec![5 * M, 50 * M, SENTINEL]).unwrap();
    t.add_column(chars("b"), vec![5 * M, 5 * M, 5 * M]).unwrap();
    let mut p = histocuts::polygon::Polygon::new();
    p.add_vertex(0, 0);
    p.add_vertex(10 * M, 0);
    p.add_vertex(10 * M, 10 * M);
    p.add_vertex(0, 10 * M);
    let kept = p.filter_dataframe(&t, &chars("a"), &chars("b")).unwrap();
    assert_eq!(kept.num_rows(), 1);
    assert_eq!(kept.column(&chars("a")).unwrap(), &vec![5 * M]);
    assert_eq!(
        p.filter_dataframe(&t, &chars("a"), &chars("nope")).unwrap_err(),
        CoreError::NotFound
    );
}

#[test]
fn filter_rows_rejects_a_mask_of_the_wrong_length() {
    let t = point_table();
    assert_eq!(
        t.filter_rows(&vec![true, false]).unwrap_err(),
        CoreError::LengthMismatch
    );
    assert!(t.filter_rows(&vec![false]).is_ok());
}

#[test]
fn table_rejects_duplicate_names_and_ragged_columns() {
    let mut t = Table::new();
    t.add_column(chars("x"), vec![1, 2]).unwrap();
    assert_eq!(
        t.add_column(chars("x"), vec![3, 4]).unwrap_err(),
        CoreError::InvalidConfiguration
    );
    assert_eq!(
        t.add_column(chars("y"), vec![3]).unwrap_err(),
        CoreError::LengthMismatch
    );
    t.add_column(chars("y"), vec![3, 4]).unwrap();
    assert_eq!(t.num_rows(), 2);
}

#[test]
fn cut_identifiers_are_never_reused() {
    let mut h = CutHandler::new();
    let a = h.add_new_cut();
    let b = h.add_new_cut();
    assert_ne!(a, b);
    assert_eq!(h.active_cut_id, Some(b));
    h.remove(b);
    assert_eq!(h.active_cut_id, None);
    let c = h.add_new_cut();
    assert_ne!(c, b);
    assert_eq!(h.cuts.len(), 2);
    h.set_active(Some(a));
    assert_eq!(h.active_cut_id, Some(a));
    h.remove(a);
    assert_eq!(h.cuts.len(), 1);
    assert_eq!(h.active_cut_id, None);
}
