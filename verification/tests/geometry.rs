use ooze::geometry::{Dimensions, Point, Rect};

#[test]
fn basic() {
    assert_eq!(true, true);
}

#[test]
fn point_plus_adds_like_vectors() {
    assert_eq!(Point::new(2, 3).plus(Point::new(10, 20)), Point::new(12, 23));
    assert_eq!(Point::new(0, 0).plus(Point::new(0, 0)), Point::new(0, 0));
}

#[test]
fn point_plus_saturates() {
    assert_eq!(Point::new(u32::MAX, 5).plus(Point::new(1, 1)), Point::new(u32::MAX, 6));
    assert_eq!(Point::new(u32::MAX - 1, u32::MAX).plus(Point::new(1, u32::MAX)), Point::new(u32::MAX, u32::MAX));
}

#[test]
fn rect_of_size_starts_at_the_origin() {
    let rect = Rect::of_size(Point::new(3, 2));
    assert_eq!(rect.bottom_left, Point::new(0, 0));
    assert_eq!(rect.size, Point::new(3, 2));
    assert_eq!(Rect::new(Point::new(1, 2), Point::new(3, 4)).size, Point::new(3, 4));
}

#[test]
fn rect_points_go_column_by_column() {
    let rect = Rect::new(Point::new(2, 5), Point::new(2, 3));
    assert_eq!(
        rect.points(),
        vec![
            Point::new(2, 5),
            Point::new(2, 6),
            Point::new(2, 7),
            Point::new(3, 5),
            Point::new(3, 6),
            Point::new(3, 7),
        ]
    );
}

#[test]
fn rect_points_of_a_rect_without_area_are_none() {
    assert!(Rect::new(Point::new(2, 5), Point::new(0, 3)).points().is_empty());
    assert!(Rect::new(Point::new(2, 5), Point::new(3, 0)).points().is_empty());
}

#[test]
fn rect_points_stop_at_the_largest_coordinate() {
    let rect = Rect::new(Point::new(u32::MAX - 1, 0), Point::new(5, 1));
    assert_eq!(rect.points(), vec![Point::new(u32::MAX - 1, 0), Point::new(u32::MAX, 0)]);
}

#[test]
fn rect_contains_each_of_its_points_and_none_outside() {
    let rect = Rect::new(Point::new(2, 5), Point::new(4, 3));
    for point in rect.points() {
        assert!(rect.contains_point(point));
    }
    assert_eq!(rect.points().len(), 12);
    assert!(rect.contains_point(Point::new(2, 5)));
    assert!(rect.contains_point(Point::new(5, 7)));
    assert!(!rect.contains_point(Point::new(6, 7)));
    assert!(!rect.contains_point(Point::new(5, 8)));
    assert!(!rect.contains_point(Point::new(1, 5)));
    assert!(!rect.contains_point(Point::new(2, 4)));
}

#[test]
fn rect_contains_point_is_exact_near_the_largest_coordinate() {
    let rect = Rect::new(Point::new(u32::MAX - 1, u32::MAX - 1), Point::new(10, 10));
    assert!(rect.contains_point(Point::new(u32::MAX, u32::MAX)));
    assert!(!rect.contains_point(Point::new(0, 0)));
}

#[test]
fn rect_contains_rect_tests_both_corners() {
    let outer = Rect::of_size(Point::new(10, 10));
    assert!(outer.contains_rect(Rect::new(Point::new(2, 2), Point::new(4, 4))));
    assert!(outer.contains_rect(Rect::new(Point::new(0, 0), Point::new(10, 10))));
    assert!(outer.contains_rect(Rect::new(Point::new(9, 9), Point::new(1, 1))));
    assert!(!outer.contains_rect(Rect::new(Point::new(8, 8), Point::new(5, 5))));
    assert!(!outer.contains_rect(Rect::new(Point::new(0, 0), Point::new(11, 1))));
    assert!(!outer.contains_rect(Rect::new(Point::new(10, 0), Point::new(1, 1))));
    let inner = Rect::new(Point::new(3, 3), Point::new(2, 2));
    assert!(!inner.contains_rect(Rect::new(Point::new(2, 3), Point::new(2, 2))));
}

#[test]
fn rect_without_area_is_contained_in_none() {
    let outer = Rect::of_size(Point::new(10, 10));
    assert!(!outer.contains_rect(Rect::new(Point::new(2, 2), Point::new(0, 4))));
    assert!(!outer.contains_rect(Rect::new(Point::new(2, 2), Point::new(4, 0))));
    assert!(!outer.contains_rect(Rect::new(Point::new(0, 0), Point::new(0, 0))));
}

#[test]
fn dimensions_builders() {
    let dims = Dimensions::new(8, 16, 80, 50, 1, 2);
    assert_eq!(dims.glyph_size, Point::new(8, 16));
    assert_eq!(dims.term_size, Point::new(80, 50));
    assert_eq!(dims.offset, Point::new(1, 2));
    assert_eq!(dims, Dimensions::from_sizes(Point::new(8, 16), Point::new(80, 50), Point::new(1, 2)));
    assert_eq!(dims.rect(), Rect::new(Point::new(1, 2), Point::new(80, 50)));
    assert_eq!(dims.with_glyph_size(Point::new(4, 4)), Dimensions::new(4, 4, 80, 50, 1, 2));
    assert_eq!(dims.with_term_size(Point::new(4, 4)), Dimensions::new(8, 16, 4, 4, 1, 2));
    assert_eq!(dims.with_offset(Point::new(4, 4)), Dimensions::new(8, 16, 80, 50, 4, 4));
    assert_eq!(
        dims.copy_for_panel(Point::new(60, 30), Point::new(10, 10)),
        Dimensions::new(8, 16, 60, 30, 10, 10)
    );
}
