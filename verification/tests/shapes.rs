use shapes::circle::Circle;
use shapes::fixed::Fixed;
use shapes::shape::Shape;
use shapes::triangle::Triangle;
use std::cmp::Ordering;

#[test]
fn fixed_from_parts_and_accessors() {
    let v = Fixed::from_parts(2, 200000);
    assert_eq!(v.as_units(), 2_200_000);
    assert_eq!(v.whole(), 2);
    assert_eq!(v.micros(), 200_000);
    assert_eq!(Fixed::zero().as_units(), 0);
    assert_eq!(Fixed::from_units(7).as_units(), 7);
}

#[test]
fn default_circle_fields() {
    let c = Circle::default();
    assert_eq!(c.get_radius().as_units(), 1_000_000);
    assert_eq!(c.get_name(), "Circle1");
}

#[test]
fn default_circle_area_and_perimeter() {
    let c = Circle::default();
    // area of the unit circle: pi, to six fractional digits
    assert_eq!(c.area().as_units(), 3_141_593);
    // perimeter of the unit circle: 2 * pi, to six fractional digits
    assert_eq!(c.perimeter().as_units(), 6_283_186);
}

#[test]
fn default_triangle_fields() {
    let t = Triangle::default();
    assert_eq!(t.get_a().as_units(), 1_000_000);
    assert_eq!(t.get_b().as_units(), 1_000_000);
    assert_eq!(t.get_c().as_units(), 1_000_000);
    assert_eq!(t.get_base().as_units(), 1_000_000);
    assert_eq!(t.get_height().as_units(), 1_000_000);
    assert_eq!(t.get_name(), "triangle1");
}

#[test]
fn default_triangle_area_and_perimeter() {
    let t = Triangle::default();
    // 1/2 * base * height = 0.5
    assert_eq!(t.area().as_units(), 500_000);
    // a + b + c = 3.0
    assert_eq!(t.perimeter().as_units(), 3_000_000);
}

#[test]
fn circle_area_scales_with_radius() {
    let c = Circle::new(Fixed::from_parts(2, 0), String::from("big"));
    // pi * 4 exactly, in micro-units
    assert_eq!(c.area().as_units(), 4 * 3_141_593);
    assert_eq!(c.perimeter().as_units(), 2 * 6_283_186);
}

#[test]
fn setters_replace_only_their_field() {
    let mut c = Circle::default();
    c.set_radius(Fixed::from_parts(3, 500000));
    assert_eq!(c.get_radius().as_units(), 3_500_000);
    assert_eq!(c.get_name(), "Circle1");
    c.set_name(String::from("renamed"));
    assert_eq!(c.get_name(), "renamed");
    assert_eq!(c.get_radius().as_units(), 3_500_000);

    let mut t = Triangle::default();
    t.set_a(Fixed::from_units(1));
    t.set_b(Fixed::from_units(2));
    t.set_c(Fixed::from_units(3));
    t.set_base(Fixed::from_units(4));
    t.set_height(Fixed::from_units(5));
    t.set_name(String::from("edited"));
    assert_eq!(t.get_a().as_units(), 1);
    assert_eq!(t.get_b().as_units(), 2);
    assert_eq!(t.get_c().as_units(), 3);
    assert_eq!(t.get_base().as_units(), 4);
    assert_eq!(t.get_height().as_units(), 5);
    assert_eq!(t.get_name(), "edited");
}

#[test]
fn equality_is_perimeter_equality() {
    // different sides, same perimeter: equal under the policy
    let x = Triangle::new(
        Fixed::from_parts(1, 0),
        Fixed::from_parts(2, 0),
        Fixed::from_parts(3, 0),
        Fixed::from_parts(1, 0),
        Fixed::from_parts(1, 0),
        String::from("first"),
    );
    let y = Triangle::new(
        Fixed::from_parts(3, 0),
        Fixed::from_parts(2, 0),
        Fixed::from_parts(1, 0),
        Fixed::from_parts(9, 0),
        Fixed::from_parts(9, 0),
        String::from("second"),
    );
    assert!(x == y);
    let z = Triangle::new(
        Fixed::from_parts(1, 0),
        Fixed::from_parts(2, 0),
        Fixed::from_parts(3, 1),
        Fixed::from_parts(1, 0),
        Fixed::from_parts(1, 0),
        String::from("third"),
    );
    assert!(x != z);
}

#[test]
fn inequality_is_negated_equality() {
    let a = Circle::new(Fixed::from_parts(1, 0), String::from("one"));
    let b = Circle::new(Fixed::from_parts(2, 0), String::from("two"));
    let c = Circle::new(Fixed::from_parts(1, 0), String::from("alias"));
    assert!(a.ne(&b));
    assert!(!a.eq(&b));
    assert!(a.eq(&c));
    assert!(!a.ne(&c));
}

#[test]
fn partial_cmp_orders_by_perimeter() {
    let small = Circle::new(Fixed::from_parts(1, 0), String::from("small"));
    let large = Circle::new(Fixed::from_parts(2, 300000), String::from("large"));
    assert_eq!(small.partial_cmp(&large), Some(Ordering::Less));
    assert_eq!(large.partial_cmp(&small), Some(Ordering::Greater));
    assert_eq!(small.partial_cmp(&small), Some(Ordering::Equal));
    assert!(small < large);
    assert!(small.le(&large));
    assert!(!large.le(&small));
}

#[test]
fn partial_cmp_equal_only_on_equal_perimeter() {
    let x = Triangle::new(
        Fixed::from_parts(2, 0),
        Fixed::from_parts(2, 0),
        Fixed::from_parts(2, 0),
        Fixed::from_parts(1, 0),
        Fixed::from_parts(1, 0),
        String::from("even"),
    );
    let y = Triangle::new(
        Fixed::from_parts(1, 0),
        Fixed::from_parts(2, 0),
        Fixed::from_parts(3, 0),
        Fixed::from_parts(8, 0),
        Fixed::from_parts(8, 0),
        String::from("uneven"),
    );
    // same perimeter 6.0, wholly different geometry
    assert_eq!(x.partial_cmp(&y), Some(Ordering::Equal));
    assert!(x == y);
}
