use histocuts::polygon::Polygon;

/// Micro-units per physical unit.
const M: i64 = 1_000_000;

fn square() -> Polygon {
    let mut p = Polygon::new();
    p.add_vertex(0, 0);
    p.add_vertex(10 * M, 0);
    p.add_vertex(10 * M, 10 * M);
    p.add_vertex(0, 10 * M);
    p
}

#[test]
fn square_contains_its_center_not_the_outside() {
    let p = square();
    assert!(p.contains(5 * M, 5 * M));
    assert!(!p.contains(15 * M, 5 * M));
    assert!(!p.contains(-M, 5 * M));
    assert!(!p.contains(5 * M, -M));
    assert!(!p.contains(5 * M, 11 * M));
}

#[test]
fn fewer_than_three_vertices_contain_nothing() {
    let mut p = Polygon::new();
    assert!(!p.contains(0, 0));
    p.add_vertex(0, 0);
    assert!(!p.contains(0, 0));
    p.add_vertex(10 * M, 0);
    assert!(!p.contains(5 * M, 0));
}

#[test]
fn concave_polygon_is_handled() {
    // An L shape: the notch around (7, 7) lies outside.
    let mut p = Polygon::new();
    p.add_vertex(0, 0);
    p.add_vertex(10 * M, 0);
    p.add_vertex(10 * M, 4 * M);
    p.add_vertex(4 * M, 4 * M);
    p.add_vertex(4 * M, 10 * M);
    p.add_vertex(0, 10 * M);
    assert!(p.contains(2 * M, 2 * M));
    assert!(p.contains(8 * M, 2 * M));
    assert!(p.contains(2 * M, 8 * M));
    assert!(!p.contains(7 * M, 7 * M));
    assert!(!p.contains(11 * M, 2 * M));
}

#[test]
fn removing_a_vertex_reshapes_the_boundary() {
    let mut p = square();
    assert!(p.contains(M / 2, 9 * M));
    // Dropping the top-left corner turns the square into a triangle that
    // no longer covers the upper-left region.
    p.remove_vertex(3);
    assert_eq!(p.vertices.len(), 3);
    assert!(!p.contains(M / 2, 9 * M));
    assert!(p.contains(8 * M, 5 * M));
}

#[test]
fn clear_removes_every_vertex_but_keeps_bindings() {
    let mut p = square();
    p.selected_x_column = Some("x".chars().collect());
    p.selected_y_column = Some("y".chars().collect());
    p.clear();
    assert_eq!(p.vertices.len(), 0);
    assert!(!p.contains(5 * M, 5 * M));
    assert!(p.is_bound());
}

#[test]
fn is_bound_requires_both_columns() {
    let mut p = Polygon::new();
    assert!(!p.is_bound());
    p.selected_x_column = Some("a".chars().collect());
    assert!(!p.is_bound());
    p.selected_y_column = Some("b".chars().collect());
    assert!(p.is_bound());
}

#[test]
fn closest_vertex_prefers_smallest_distance_then_first() {
    let mut p = Polygon::new();
    assert_eq!(p.get_closest_vertex_index(0, 0), None);
    p.add_vertex(0, 0);
    p.add_vertex(10 * M, 0);
    p.add_vertex(10 * M, 10 * M);
    assert_eq!(p.get_closest_vertex_index(M, M), Some(0));
    assert_eq!(p.get_closest_vertex_index(9 * M, 2 * M), Some(1));
    // Equidistant from the first two vertices: the earlier one wins.
    assert_eq!(p.get_closest_vertex_index(5 * M, 0), Some(0));
}
