use slidmk::{ConfigBuilder, HorOrientation, Orientation, Point, Rectangle, VertOrientation};

#[test]
fn point_map_applies_to_both_coordinates() {
    let p = Point { x: 3, y: -4 };
    assert_eq!(p.map(|v: i32| v * 2), Point { x: 6, y: -8 });
}

#[test]
fn rectangle_contains_its_borders() {
    let r = Rectangle { orig: Point { x: 10, y: 20 }, size: Point { x: 5, y: 5 } };
    assert!(r.is_inside_inclusive(Point { x: 10, y: 20 }));
    assert!(r.is_inside_inclusive(Point { x: 15, y: 25 }));
    assert!(r.is_inside_inclusive(Point { x: 12, y: 21 }));
    assert!(!r.is_inside_inclusive(Point { x: 16, y: 21 }));
    assert!(!r.is_inside_inclusive(Point { x: 12, y: 19 }));
    let wide = Rectangle { orig: Point { x: i64::MAX - 1, y: 0 }, size: Point { x: i64::MAX, y: 0 } };
    assert!(wide.is_inside_inclusive(Point { x: i64::MAX, y: 0 }));
}

#[test]
fn default_orientation_is_top_left() {
    let o = Orientation::default();
    assert_eq!(o.vertical, VertOrientation::Top);
    assert_eq!(o.horizontal, HorOrientation::Left);
}

#[test]
fn config_builder_records_paths() {
    let mut b = ConfigBuilder::default();
    assert!(b.style.is_none() && b.templates.is_none());
    b.with_style("style.hjson".to_string());
    b.with_templates(vec!["a.hjson".to_string(), "b.hjson".to_string()]);
    assert_eq!(b.style.as_deref(), Some("style.hjson"));
    assert_eq!(b.templates.as_ref().map(|t| t.len()), Some(2));
}
