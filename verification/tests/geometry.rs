use ferride::fixed::{Coordinate, FixedNumber, Point, SCALE};
use ferride::names::EntityName;
use ferride::polygon::{Cord, DoubleBoundaryPoint, Edge, Polygon as CordPolygon};
use ferride::simple_polygon::{is_point_in_triangle, triangle_sign, Polygon};

fn p(x: i128, y: i128) -> Point {
    Point::from_i128(x, y)
}

#[test]
fn fixed_point_arithmetic() {
    let two = FixedNumber::from_integer(2);
    let three = FixedNumber::from_integer(3);
    assert_eq!(two.0, 2 * SCALE);
    assert_eq!(two.add(three).0, 5 * SCALE);
    assert_eq!(two.sub(three).0, -SCALE);
    assert_eq!(two.mul(three).0, 6 * SCALE);
    assert_eq!(FixedNumber::from_integer(6).div(three).0, 2 * SCALE);
    // Division rounds toward zero: -7 / 2 in raw units is -3.5, giving -3.
    assert_eq!(FixedNumber(-7).div(FixedNumber(2 * SCALE)).0, -3);
    assert_eq!(FixedNumber(7).div(FixedNumber(-2 * SCALE)).0, -3);
    // Multiplication rounds toward zero too: 3 * 0.5 in raw units is 1.5, giving 1.
    assert_eq!(FixedNumber(3).mul(FixedNumber(SCALE / 2)).0, 1);
    assert_eq!(FixedNumber(-3).mul(FixedNumber(SCALE / 2)).0, -1);
}

#[test]
fn coordinate_order_breaks_ties() {
    let a = p(1, 2);
    let b = p(1, 5);
    // Equal x values: the coordinate of the point with the larger index comes first.
    assert!(!a.x.smaller(0, &b.x, 1));
    assert!(b.x.smaller(1, &a.x, 0));
    // Different values: the smaller value comes first.
    assert!(a.y.smaller(0, &b.y, 1));
    assert!(!b.y.smaller(1, &a.y, 0));
    // The same point: the x axis comes before the y axis.
    let c = Point { x: Coordinate { value: FixedNumber(4), index: 0 }, y: Coordinate { value: FixedNumber(4), index: 1 } };
    assert!(c.x.smaller(3, &c.y, 3));
    assert!(!c.y.smaller(3, &c.x, 3));
    assert!(!c.x.smaller(3, &c.x, 3));
}

#[test]
fn point_accessors() {
    let q = Point::new(FixedNumber(-5), FixedNumber(9));
    assert_eq!(q.x(), -5);
    assert_eq!(q.y(), 9);
    assert_eq!(q.x.index, 0);
    assert_eq!(q.y.index, 1);
}

#[test]
fn triangle_sign_is_twice_the_signed_area() {
    let a = p(0, 0);
    let b = p(4, 0);
    let c = p(0, 4);
    assert_eq!(triangle_sign([&a, &b, &c]), 16);
    assert_eq!(triangle_sign([&a, &c, &b]), -16);
    assert_eq!(triangle_sign([&a, &a, &b]), 0);
}

#[test]
fn points_in_triangles() {
    let a = p(0, 0);
    let b = p(4, 0);
    let c = p(0, 4);
    assert!(is_point_in_triangle(&p(1, 1), &[&a, &b, &c]));
    assert!(is_point_in_triangle(&p(2, 2), &[&a, &b, &c]));
    assert!(is_point_in_triangle(&p(0, 0), &[&a, &c, &b]));
    assert!(!is_point_in_triangle(&p(3, 3), &[&a, &b, &c]));
    assert!(!is_point_in_triangle(&p(-1, 1), &[&a, &b, &c]));
}

#[test]
fn square_is_cut_into_two_triangles() {
    let square = vec![p(0, 0), p(10, 0), p(10, 10), p(0, 10)];
    let polygon = Polygon::from_vertices(EntityName::from_str("polygon"), square).unwrap();
    assert_eq!(polygon.triangles(), &vec![(2, 3, 0), (0, 1, 2)]);
    assert_eq!(polygon.remaining_vertices(), &vec![0, 1, 2]);
    assert_eq!(polygon.edges().len(), 4);
    assert_eq!(polygon.edges()[3].start, 3);
    assert_eq!(polygon.edges()[3].end, 0);
    assert_eq!(polygon.name().as_str(), "polygon");
}

#[test]
fn notched_polygon_is_clipped_around_its_reflex_vertex() {
    let notched = vec![p(0, 0), p(10, 0), p(10, 10), p(5, 3), p(0, 10)];
    let polygon = Polygon::from_vertices(EntityName::from_str("notch"), notched).unwrap();
    assert_eq!(polygon.triangles(), &vec![(3, 4, 0), (3, 0, 1), (1, 2, 3)]);
}

#[test]
fn too_few_or_too_far_vertices_are_refused() {
    let two = vec![p(0, 0), p(1, 1)];
    assert!(Polygon::from_vertices(EntityName::from_str("line"), two).is_none());
    let far = vec![p(0, 0), p(SCALE, 0), p(0, 1)];
    assert!(Polygon::from_vertices(EntityName::from_str("far"), far).is_none());
}

fn triangle_with_cords() -> CordPolygon {
    CordPolygon::from_parts(
        EntityName::from_str("polygon"),
        vec![p(0, 0), p(10, 0), p(0, 10)],
        vec![Edge::new(0, 1), Edge::new(1, 2), Edge::new(2, 0)],
    )
    .unwrap()
}

#[test]
fn cord_meets_an_edge() {
    let polygon = triangle_with_cords();
    let hit = polygon.cord_edge_intersection(0, &Edge::new(1, 2));
    assert_eq!((hit.x(), hit.y()), (10, 0));
    // A vertical edge is met at its start's x, at the height of the origin.
    let vertical = CordPolygon::from_parts(
        EntityName::from_str("v"),
        vec![p(3, 4), p(7, -5), p(7, 5)],
        vec![Edge::new(1, 2)],
    )
    .unwrap();
    let hit = vertical.cord_edge_intersection(0, &Edge::new(1, 2));
    assert_eq!((hit.x(), hit.y()), (7, 4));
}

#[test]
fn edges_a_cord_may_cross() {
    let polygon = triangle_with_cords();
    let origin = p(0, 0);
    assert_eq!(polygon.find_possible_cord_intersecting_edges(&origin, 0, true), vec![1]);
    assert_eq!(polygon.find_possible_cord_intersecting_edges(&origin, 0, false), vec![1]);
    let top = p(0, 10);
    assert!(polygon.find_possible_cord_intersecting_edges(&top, 2, true).is_empty());
}

fn view(c: &Cord) -> (usize, Option<(usize, i128, i128)>, bool) {
    (c.origin_vertex, c.intersection.as_ref().map(|(e, q)| (*e, q.x(), q.y())), c.wrap_around)
}

#[test]
fn cords_of_a_triangle() {
    let polygon = triangle_with_cords();
    let cords: Vec<_> = polygon.create_cords().iter().map(view).collect();
    assert_eq!(
        cords,
        vec![
            (0, Some((1, 10, 0)), false),
            // Nothing is met on the left: the left cord wraps around to the rightmost hit.
            (0, Some((1, 10, 0)), true),
            (1, None, true),
            (2, None, true),
        ]
    );
}

#[test]
fn a_vertex_with_nothing_on_its_left_wraps_its_left_cord() {
    let polygon = CordPolygon::from_parts(
        EntityName::from_str("wedge"),
        vec![p(-5, 0), p(5, -5), p(5, 5)],
        vec![Edge::new(0, 1), Edge::new(1, 2), Edge::new(2, 0)],
    )
    .unwrap();
    assert!(polygon.cords_computable_check());
    let cords: Vec<_> = polygon.create_cords().iter().map(view).collect();
    assert_eq!(
        cords,
        vec![
            (0, Some((1, 5, 0)), false),
            (0, Some((1, 5, 0)), true),
            (1, None, true),
            (2, None, true),
        ]
    );
}

#[test]
fn boundary_without_edges_is_the_last_vertex() {
    let mut polygon =
        CordPolygon::from_parts(EntityName::from_str("points"), vec![p(0, 0), p(5, 5), p(9, 1)], vec![])
            .unwrap();
    let order = polygon.triangulate();
    assert_eq!(order, vec![DoubleBoundaryPoint::Vertex(2)]);
    assert_eq!(polygon.cords().len(), 3);
    assert!(polygon.triangles().is_empty());
}

#[test]
fn parts_must_name_existing_vertices() {
    assert!(CordPolygon::from_parts(
        EntityName::from_str("bad"),
        vec![p(0, 0), p(5, 5)],
        vec![Edge::new(0, 2)]
    )
    .is_none());
}

#[test]
fn flat_edge_at_a_vertex_height_cannot_be_intersected() {
    let mut flat = CordPolygon::from_parts(
        EntityName::from_str("flat"),
        vec![p(0, 0), p(5, 0), p(10, 0)],
        vec![Edge::new(0, 2)],
    )
    .unwrap();
    assert!(!flat.cords_computable_check());
    assert!(flat.try_create_visibility_map().is_none());
    assert!(flat.cords().is_empty());
}

#[test]
fn a_boundary_order_that_cannot_be_computed_is_refused() {
    let mut polygon = triangle_with_cords();
    assert!(polygon.cords_computable_check());
    let cords = polygon.create_cords();
    assert!(!polygon.boundary_computable_check(&cords));
    assert!(polygon.try_create_visibility_map().is_none());
}

#[test]
fn boundary_order_of_points_without_edges() {
    let mut polygon =
        CordPolygon::from_parts(EntityName::from_str("points"), vec![p(0, 0), p(5, 5)], vec![]).unwrap();
    assert_eq!(polygon.try_create_visibility_map(), Some(vec![DoubleBoundaryPoint::Vertex(1)]));
}

#[test]
fn stale_ear_entries_can_cut_more_than_n_minus_two_triangles() {
    // A star-shaped polygon of 11 vertices: ears listed twice are clipped again
    // after their vertex is gone, so clipping cuts 11 triangles rather than 9.
    let raw: Vec<(i128, i128)> = vec![
        (257, 106), (162, 477), (155, 763), (-40, 717), (-628, 492), (-415, -30),
        (-304, -397), (-126, -771), (-326, -431), (285, -637), (721, -290),
    ];
    let points: Vec<Point> =
        raw.iter().map(|&(x, y)| Point::from_i128(x * (SCALE / 1000), y * (SCALE / 1000))).collect();
    let polygon = Polygon::from_vertices(EntityName::from_str("star"), points).unwrap();
    assert_eq!(polygon.remaining_vertices().len(), 3);
    assert_eq!(polygon.triangles().len(), 11);
}
