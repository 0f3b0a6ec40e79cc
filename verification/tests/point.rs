use ecc::coordinate::Coordinate;
use ecc::error::EccError;
use ecc::finite_field::FiniteField;
use ecc::point::Point;

#[test]
fn initialize_point_works() {
    let point = Point::new(1, 2, 0, 3);

    assert_eq!(point, Ok(Point { coordinates: Some((1, 2)), a: 0, b: 3 }))
}

#[test]
fn point_implements_display() {
    let point = Point::new(1, 2, 0, 3).unwrap();

    let subject = point.display();

    assert_eq!(&subject, "Point(1, 2)_0_3")
}

#[test]
fn point_on_infinity_exists() {
    let point = Point::infinity(0, 3);
    let point_display = point.display();

    assert_eq!(point, Point { coordinates: None, a: 0, b: 3 });
    assert_eq!(&point_display, "Point(Infinity)_0_3")
}

#[test]
fn point_satisfies_identity() {
    let point = Point::new(1, 2, 0, 3).unwrap();
    let infinity = Point::infinity(0, 3);

    assert_eq!(point.add(infinity), Ok(point));
    assert_eq!(infinity.add(point), Ok(point));
}

#[test]
fn point_off_the_curve_is_refused() {
    assert_eq!(Point::new(-1, 1, 0, 3), Err(EccError::NotOnCurve));
}

fn on_223(x: usize, y: usize) -> Point<FiniteField> {
    Point::new(f223(x), f223(y), f223(0), f223(7)).unwrap()
}

fn f223(num: usize) -> FiniteField {
    FiniteField::new(num, 223).unwrap()
}

#[test]
fn infinity_is_never_curve_checked() {
    let point = Point::infinity(5, 7);

    assert!(point.is_infinity());
    assert!(!Point::new(-1, -1, 5, 7).unwrap().is_infinity());
}

#[test]
fn points_are_equal_when_all_parts_are() {
    let point = Point::new(-1, -1, 5, 7).unwrap();

    assert!(point.equals(Point::new(-1, -1, 5, 7).unwrap()));
    assert!(!point.equals(Point::new(-1, 1, 5, 7).unwrap()));
    assert!(!point.equals(Point::infinity(5, 7)));
    assert!(Point::infinity(5, 7).equals(Point::infinity(5, 7)));
    assert!(!Point::infinity(5, 7).equals(Point::infinity(5, 8)));
    assert!(!Point::infinity(5, 7).equals(Point::infinity(4, 7)));
    assert!(!Point::new(0, 0, 0, 0).unwrap().equals(Point::new(0, 0, -1, 0).unwrap()));
}

#[test]
fn points_of_different_curves_do_not_add() {
    let point_a = Point::new(1, 2, 0, 3).unwrap();
    let point_b = Point::new(-1, 1, 5, 7).unwrap();

    assert_eq!(point_a.add(point_b), Err(EccError::DifferentCurve));
    assert_eq!(point_a.add(Point::infinity(0, 4)), Err(EccError::DifferentCurve));
    assert_eq!(Point::infinity(1, 3).add(point_a), Err(EccError::DifferentCurve));
}

#[test]
fn infinity_added_to_itself_is_infinity() {
    let infinity = Point::infinity(5isize, 7);

    assert_eq!(infinity.add(infinity), Ok(infinity));
}

#[test]
fn mirror_images_add_up_to_infinity() {
    let above = Point::new(-1, 1, 5, 7).unwrap();
    let below = Point::new(-1, -1, 5, 7).unwrap();

    assert_eq!(above.add(below), Ok(Point::infinity(5, 7)));
    assert_eq!(below.add(above), Ok(Point::infinity(5, 7)));
}

#[test]
fn point_with_ordinate_zero_doubles_to_infinity() {
    // y^2 = x^3 - x meets the axis in -1, 0 and 1
    let point = Point::new(1, 0, -1, 0).unwrap();

    assert_eq!(point.add(point), Ok(Point::infinity(-1, 0)));
}

#[test]
fn distinct_integer_points_add_along_the_chord() {
    // slope (-1 - 5) / (-1 - 2) = 2, x3 = 4 - 2 + 1 = 3, y3 = 2 * (2 - 3) - 5 = -7
    let first = Point::new(2, 5, 5, 7).unwrap();
    let second = Point::new(-1, -1, 5, 7).unwrap();

    assert_eq!(first.add(second), Point::new(3, -7, 5, 7));
    assert_eq!(second.add(first), Point::new(3, -7, 5, 7));
    assert_eq!(first.add(second).unwrap().coordinates, Some((3, -7)));
}

#[test]
fn integer_point_doubles_along_the_tangent() {
    // slope (3 + 5) / -2 = -4, x3 = 16 + 2 = 18, y3 = -4 * (-1 - 18) + 1 = 77
    let point = Point::new(-1, -1, 5, 7).unwrap();

    assert_eq!(point.add(point), Point::new(18, 77, 5, 7));
    assert_eq!(point.add(point).unwrap().coordinates, Some((18, 77)));
}

#[test]
fn integer_sum_with_a_fractional_slope_is_out_of_the_domain() {
    // both on y^2 = x^3 - 6x - 3; the chord has slope 47 / 15
    let first = Point::new(-2, -1, -6, -3).unwrap();
    let second = Point::new(13, 46, -6, -3).unwrap();

    assert_eq!(first.add(second), Err(EccError::Domain));
    assert_eq!(second.add(first), Err(EccError::Domain));
}

#[test]
fn integer_point_whose_equation_overflows_is_out_of_the_domain() {
    assert_eq!(Point::new(isize::MAX, 1, 0, 3), Err(EccError::Domain));
    assert_eq!(Point::new(1, isize::MAX, 0, 3), Err(EccError::Domain));
    assert_eq!(Point::new(1, 2, isize::MAX, isize::MAX), Err(EccError::Domain));
}

#[test]
fn field_points_are_checked_against_the_curve() {
    assert!(Point::new(f223(192), f223(105), f223(0), f223(7)).is_ok());
    assert!(Point::new(f223(17), f223(56), f223(0), f223(7)).is_ok());
    assert!(Point::new(f223(1), f223(193), f223(0), f223(7)).is_ok());
    assert_eq!(
        Point::new(f223(200), f223(119), f223(0), f223(7)),
        Err(EccError::NotOnCurve)
    );
    assert_eq!(
        Point::new(f223(42), f223(99), f223(0), f223(7)),
        Err(EccError::NotOnCurve)
    );
}

#[test]
fn field_point_over_mixed_moduli_is_incompatible() {
    let other = FiniteField::new(7, 227).unwrap();

    assert_eq!(
        Point::new(f223(192), f223(105), f223(0), other),
        Err(EccError::IncompatibleField)
    );
    assert_eq!(
        Point::new(f223(192), other, f223(0), f223(7)),
        Err(EccError::NotOnCurve)
    );
}

#[test]
fn distinct_field_points_add_along_the_chord() {
    assert_eq!(on_223(192, 105).add(on_223(17, 56)), Ok(on_223(170, 142)));
    assert_eq!(on_223(47, 71).add(on_223(117, 141)), Ok(on_223(60, 139)));
    assert_eq!(on_223(143, 98).add(on_223(76, 66)), Ok(on_223(47, 71)));
}

#[test]
fn field_point_doubles_along_the_tangent() {
    assert_eq!(on_223(192, 105).add(on_223(192, 105)), Ok(on_223(49, 71)));
    assert_eq!(on_223(143, 98).add(on_223(143, 98)), Ok(on_223(64, 168)));
    assert_eq!(on_223(47, 71).add(on_223(47, 71)), Ok(on_223(36, 111)));
}

#[test]
fn field_mirror_images_add_up_to_infinity() {
    let infinity = Point::infinity(f223(0), f223(7));

    assert_eq!(on_223(47, 71).add(on_223(47, 152)), Ok(infinity));
    assert_eq!(on_223(47, 71).add(infinity), Ok(on_223(47, 71)));
    assert_eq!(infinity.add(on_223(47, 71)), Ok(on_223(47, 71)));
}

fn points_of_curve(prime: usize, a: usize, b: usize) -> Vec<Point<FiniteField>> {
    let e = |num: usize| FiniteField::new(num, prime).unwrap();
    let mut points = vec![Point::infinity(e(a), e(b))];
    for x in 0..prime {
        for y in 0..prime {
            if let Ok(point) = Point::new(e(x), e(y), e(a), e(b)) {
                points.push(point);
            }
        }
    }
    points
}

#[test]
fn addition_over_a_prime_field_is_closed_and_commutative() {
    for (prime, a, b) in [(5, 1, 1), (7, 0, 3), (13, 2, 6), (31, 0, 7)] {
        let points = points_of_curve(prime, a, b);
        assert!(points.len() > 3);
        for &p in &points {
            for &q in &points {
                let sum = p.add(q);
                assert!(sum.is_ok());
                assert_eq!(sum, q.add(p));
                assert!(points.contains(&sum.unwrap()));
            }
        }
    }
}

#[test]
fn addition_of_integer_points_is_commutative() {
    let mut points = vec![Point::infinity(5isize, 7)];
    for x in -20..=20isize {
        for y in -100..=100isize {
            if let Ok(point) = Point::new(x, y, 5, 7) {
                points.push(point);
            }
        }
    }
    assert!(points.len() > 5);
    for &p in &points {
        for &q in &points {
            let sum = p.add(q);
            assert_eq!(sum, q.add(p));
            assert_ne!(sum, Err(EccError::NotOnCurve));
        }
    }
}

#[test]
fn doubling_over_the_field_of_two_is_out_of_the_domain() {
    let e = |num: usize| FiniteField::new(num, 2).unwrap();
    let first = Point::new(e(0), e(1), e(1), e(1)).unwrap();
    let second = Point::new(e(1), e(1), e(1), e(1)).unwrap();

    assert_eq!(first.add(first), Err(EccError::Domain));
    // slope 0, x3 = 0 - 0 - 1 = 1, y3 = 0 - 1 = 1: the second point doubled
    // would be the first, were there a tangent; the chord leads to a sum
    assert!(first.add(second).is_ok());
    assert_eq!(first.add(second), second.add(first));
}

#[test]
fn chord_over_a_composite_modulus_depends_on_the_order() {
    let e = |num: usize| FiniteField::new(num, 4).unwrap();
    let first = Point::new(e(0), e(0), e(0), e(0)).unwrap();
    let second = Point::new(e(1), e(1), e(0), e(0)).unwrap();

    assert_eq!(first.add(second), Point::new(e(0), e(0), e(0), e(0)));
    assert_eq!(second.add(first), Point::new(e(0), e(2), e(0), e(0)));
}

#[test]
fn field_points_display_their_elements() {
    assert_eq!(
        on_223(192, 105).display(),
        "Point(FieldElement_223(192), FieldElement_223(105))_FieldElement_223(0)_FieldElement_223(7)"
    );
    assert_eq!(
        Point::infinity(f223(0), f223(7)).display(),
        "Point(Infinity)_FieldElement_223(0)_FieldElement_223(7)"
    );
    assert_eq!(Point::new(-1, -1, 5, 7).unwrap().display(), "Point(-1, -1)_5_7");
}

#[test]
fn adding_a_field_point_to_itself_follows_the_doubling_formula() {
    for (prime, a, b) in [(13, 2, 6), (31, 0, 7), (223, 0, 7)] {
        for point in points_of_curve(prime, a, b) {
            let Some((x, y)) = point.coordinates else {
                continue;
            };
            if y.is_zero() {
                continue;
            }
            let square = x.mul(x).unwrap();
            let triple = square.add(square).unwrap().add(square).unwrap();
            let slope = triple.add(point.a).unwrap().div(y.add(y).unwrap()).unwrap();
            let x3 = slope.mul(slope).unwrap().sub(x).unwrap().sub(x).unwrap();
            let y3 = slope.mul(x.sub(x3).unwrap()).unwrap().sub(y).unwrap();

            assert_eq!(point.add(point), Point::new(x3, y3, point.a, point.b));
            assert!(point.add(point).is_ok());
        }
    }
}
