use histocuts::polygon::Polygon;

/// Micro-units per physical unit.
const M: i64 = 1_000_000;

#[test]
fn snapshot_round_trips_a_bound_polygon() {
    let mut p = Polygon::new();
    p.add_vertex(0, 0);
    p.add_vertex(10 * M, 0);
    p.add_vertex(10 * M, 10 * M);
    p.add_vertex(5 * M, 15 * M);
    p.add_vertex(0, 10 * M);
    p.selected_x_column = Some("ScintLeftEnergy".chars().collect());
    p.selected_y_column = Some("AnodeBackEnergy".chars().collect());

    let text = p.to_snapshot();
    let q = Polygon::from_snapshot(&text).unwrap();
    assert_eq!(q.vertices, p.vertices);
    assert_eq!(q.selected_x_column, p.selected_x_column);
    assert_eq!(q.selected_y_column, p.selected_y_column);
}

#[test]
fn snapshot_round_trips_negative_coordinates() {
    let mut p = Polygon::new();
    p.add_vertex(-300 * M, -1);
    p.add_vertex(0, 7);
    p.add_vertex(299 * M, -299 * M);
    let text = p.to_snapshot();
    let q = Polygon::from_snapshot(&text).unwrap();
    assert_eq!(q.vertices, p.vertices);
    assert_eq!(q.selected_x_column, None);
    assert_eq!(q.selected_y_column, None);
}

#[test]
fn snapshot_round_trips_an_empty_polygon() {
    let p = Polygon::new();
    let text = p.to_snapshot();
    let q = Polygon::from_snapshot(&text).unwrap();
    assert_eq!(q.vertices.len(), 0);
    assert_eq!(q.selected_x_column, None);
    assert_eq!(q.selected_y_column, None);
}

#[test]
fn snapshot_round_trips_awkward_column_names() {
    let mut p = Polygon::new();
    p.add_vertex(M, M);
    p.add_vertex(2 * M, M);
    p.add_vertex(M, 2 * M);
    // Names with digits, signs and separators exercise the length
    // prefixing: nothing needs escaping.
    p.selected_x_column = Some("x 1;-+s09".chars().collect());
    p.selected_y_column = Some("".chars().collect());
    let text = p.to_snapshot();
    let q = Polygon::from_snapshot(&text).unwrap();
    assert_eq!(q.vertices, p.vertices);
    assert_eq!(q.selected_x_column, p.selected_x_column);
    assert_eq!(q.selected_y_column, p.selected_y_column);
}

#[test]
fn malformed_snapshots_are_rejected() {
    assert!(Polygon::from_snapshot(&vec![]).is_none());
    assert!(Polygon::from_snapshot(&"x".chars().collect()).is_none());
    assert!(Polygon::from_snapshot(&"C".chars().collect()).is_none());
    assert!(Polygon::from_snapshot(&"C--".chars().collect()).is_none());
    // A truncated but well-started snapshot.
    let p = Polygon::new();
    let mut text = p.to_snapshot();
    text.pop();
    assert!(Polygon::from_snapshot(&text).is_none());
    // Trailing garbage after a complete snapshot.
    let mut text2 = p.to_snapshot();
    text2.push(' ');
    assert!(Polygon::from_snapshot(&text2).is_none());
}
