use ecc::coordinate::Coordinate;
use ecc::error::EccError;
use ecc::finite_field::FiniteField;

#[test]
fn finite_field_initialize_field_element_works() {
    let subject = FiniteField::new(3, 5);

    assert_eq!(subject, Ok(FiniteField { num: 3, prime: 5 }))
}

#[test]
fn finite_field_field_element_implements_display() {
    let field_element = FiniteField::new(3, 5).unwrap();

    let subject = field_element.display();

    assert_eq!(&subject, "FieldElement_5(3)")
}

#[test]
fn field_elements_can_be_added() {
    let a = FiniteField::new(1, 5).unwrap();
    let b = FiniteField::new(2, 5).unwrap();

    let result = a.add(b);

    let expected = FiniteField::new(3, 5);
    assert_eq!(result, expected);
}

#[test]
fn field_elements_with_sum_greater_than_range_can_be_added() {
    let a = FiniteField::new(2, 5).unwrap();
    let b = FiniteField::new(4, 5).unwrap();

    let result = a.add(b);

    let expected = FiniteField::new(1, 5);
    assert_eq!(result, expected);
}

#[test]
fn field_elements_can_be_subtracted() {
    let a = FiniteField::new(3, 5).unwrap();
    let b = FiniteField::new(2, 5).unwrap();

    let result = a.sub(b);

    let expected = FiniteField::new(1, 5);
    assert_eq!(result, expected);
}

#[test]
fn field_elements_with_a_negative_result_can_be_calculated() {
    let a = FiniteField::new(2, 5).unwrap();
    let b = FiniteField::new(3, 5).unwrap();

    let result = a.sub(b);

    let expected = FiniteField::new(4, 5); // -1 % 5 = 4
    assert_eq!(result, expected);
}

#[test]
fn field_elements_can_be_multiplied() {
    let a = FiniteField::new(2, 7).unwrap();
    let b = FiniteField::new(3, 7).unwrap();

    let result = a.mul(b);

    let expected = FiniteField::new(6, 7);
    assert_eq!(result, expected);
}

#[test]
fn field_elements_with_product_greater_than_range_can_be_calculated() {
    let a = FiniteField::new(2, 5).unwrap();
    let b = FiniteField::new(3, 5).unwrap();

    let result = a.mul(b);

    let expected = FiniteField::new(1, 5);
    assert_eq!(result, expected);
}

#[test]
fn exponent_of_a_field_can_be_calculated() {
    let a = FiniteField::new(2, 3).unwrap();

    let result = FiniteField::pow(a.clone(), 3);

    let expected = FiniteField::new(2, 3).unwrap();
    assert_eq!(result, expected);
}

#[test]
fn negative_exponent_of_a_field_can_be_calculated() {
    let a = FiniteField::new(7, 13).unwrap();

    let result = FiniteField::pow(a.clone(), -3);

    let expected = FiniteField::new(8, 13).unwrap();
    assert_eq!(result, expected);
}

#[test]
fn field_elements_can_be_divided() {
    // For a field of 5
    // 2 * 3 = 6 = 6 % 5 = 1
    // 1 / 3 = 2
    let a = FiniteField::new(1, 5).unwrap();
    let b = FiniteField::new(3, 5).unwrap();

    let result = a.div(b);

    let expected = FiniteField::new(2, 5);
    assert_eq!(result, expected);
}

#[test]
fn value_at_or_above_the_modulus_is_out_of_the_domain() {
    assert_eq!(FiniteField::new(6, 5), Err(EccError::Domain));
    assert_eq!(FiniteField::new(5, 5), Err(EccError::Domain));
}

#[test]
fn modulus_below_two_is_out_of_the_domain() {
    assert_eq!(FiniteField::new(0, 0), Err(EccError::Domain));
    assert_eq!(FiniteField::new(0, 1), Err(EccError::Domain));
    assert_eq!(FiniteField::new(0, 2), Ok(FiniteField { num: 0, prime: 2 }));
}

#[test]
fn elements_of_different_fields_do_not_combine() {
    let a = FiniteField::new(2, 5).unwrap();
    let b = FiniteField::new(3, 7).unwrap();

    assert_eq!(a.add(b), Err(EccError::IncompatibleField));
    assert_eq!(a.sub(b), Err(EccError::IncompatibleField));
    assert_eq!(a.mul(b), Err(EccError::IncompatibleField));
    assert_eq!(a.div(b), Err(EccError::IncompatibleField));
}

#[test]
fn division_by_zero_is_out_of_the_domain() {
    let a = FiniteField::new(2, 5).unwrap();
    let zero = FiniteField::new(0, 5).unwrap();

    assert_eq!(a.div(zero), Err(EccError::Domain));
    assert_eq!(zero.div(a), Ok(zero));
}

fn element(num: usize, prime: usize) -> FiniteField {
    FiniteField::new(num, prime).unwrap()
}

#[test]
fn every_value_below_the_modulus_is_an_element() {
    for prime in 2..40usize {
        for num in 0..prime {
            let e = FiniteField::new(num, prime);
            assert_eq!(e, Ok(FiniteField { num, prime }));
            assert_eq!(e, FiniteField::new(num, prime));
            assert!(e.unwrap().equals(FiniteField { num, prime }));
        }
    }
}

#[test]
fn equality_compares_value_and_modulus() {
    assert!(element(3, 5).equals(element(3, 5)));
    assert!(!element(3, 5).equals(element(2, 5)));
    assert!(!element(3, 5).equals(element(3, 7)));
    assert_ne!(element(3, 5), element(3, 7));
}

#[test]
fn zero_test_sees_the_additive_identity_only() {
    assert!(element(0, 5).is_zero());
    assert!(!element(1, 5).is_zero());
    assert!(!element(4, 5).is_zero());
}

#[test]
fn nonzero_element_to_the_order_less_one_is_one() {
    for prime in [2usize, 3, 5, 7, 11, 13, 31, 223] {
        for num in 1..prime {
            let e = element(num, prime);
            assert_eq!(e.pow((prime - 1) as i32), element(1, prime));
        }
    }
}

#[test]
fn subtraction_undoes_addition() {
    for prime in [2usize, 5, 9, 13] {
        for a in 0..prime {
            for b in 0..prime {
                let sum = element(a, prime).add(element(b, prime)).unwrap();
                assert_eq!(sum.sub(element(b, prime)), Ok(element(a, prime)));
            }
        }
    }
}

#[test]
fn division_undoes_multiplication_in_a_prime_field() {
    for prime in [2usize, 5, 13, 31] {
        for a in 0..prime {
            for b in 1..prime {
                let product = element(a, prime).mul(element(b, prime)).unwrap();
                assert_eq!(product.div(element(b, prime)), Ok(element(a, prime)));
            }
        }
    }
}

#[test]
fn division_is_not_exact_with_a_composite_modulus() {
    let product = element(1, 4).mul(element(2, 4)).unwrap();

    assert_eq!(product.div(element(2, 4)), Ok(element(0, 4)));
}

#[test]
fn addition_and_multiplication_commute() {
    for a in 0..7 {
        for b in 0..7 {
            let (x, y) = (element(a, 7), element(b, 7));
            assert_eq!(x.add(y), y.add(x));
            assert_eq!(x.mul(y), y.mul(x));
        }
    }
}

#[test]
fn addition_and_multiplication_associate() {
    for a in 0..7 {
        for b in 0..7 {
            for c in 0..7 {
                let (x, y, z) = (element(a, 7), element(b, 7), element(c, 7));
                assert_eq!(x.add(y).unwrap().add(z), x.add(y.add(z).unwrap()));
                assert_eq!(x.mul(y).unwrap().mul(z), x.mul(y.mul(z).unwrap()));
            }
        }
    }
}

#[test]
fn power_with_exponent_zero_is_one() {
    assert_eq!(element(3, 7).pow(0), element(1, 7));
    assert_eq!(element(0, 7).pow(0), element(1, 7));
}

#[test]
fn power_of_zero_is_zero() {
    assert_eq!(element(0, 7).pow(1), element(0, 7));
    assert_eq!(element(0, 7).pow(5), element(0, 7));
    assert_eq!(element(0, 7).pow(-1), element(0, 7));
}

#[test]
fn power_follows_repeated_multiplication() {
    // 3^4 = 81 = 6 * 13 + 3
    assert_eq!(element(3, 13).pow(4), element(3, 13));
    // 2^10 = 1024 = 4 * 223 + 132
    assert_eq!(element(2, 223).pow(10), element(132, 223));
    // 5^117 mod 223, far beyond what fits a machine word before reduction
    let mut expected = element(1, 223);
    for _ in 0..117 {
        expected = expected.mul(element(5, 223)).unwrap();
    }
    assert_eq!(element(5, 223).pow(117), expected);
}

#[test]
fn negative_exponent_is_raised_by_the_order_less_one() {
    // -3 + 12 = 9, and 7^9 = 8 modulo 13
    assert_eq!(element(7, 13).pow(-3), element(7, 13).pow(9));
    // -12 + 12 = 0
    assert_eq!(element(7, 13).pow(-12), element(1, 13));
    // -25 + 3 * 12 = 11
    assert_eq!(element(7, 13).pow(-25), element(7, 13).pow(11));
    // modulo 2 every negative exponent becomes 0
    assert_eq!(element(1, 2).pow(-5), element(1, 2));
    assert_eq!(element(0, 2).pow(-5), element(1, 2));
}

#[test]
fn power_minus_one_is_the_inverse() {
    for num in 1..31 {
        let e = element(num, 31);
        assert_eq!(e.mul(e.pow(-1)), Ok(element(1, 31)));
    }
}

#[test]
fn extreme_exponents_are_handled() {
    // 2^31 - 1 = 12 * 178956970 + 7, and 7^7 = 6 modulo 13
    assert_eq!(element(7, 13).pow(i32::MAX), element(6, 13));
    // -2^31 = -12 * 178956971 + 4, and 7^4 = 9 modulo 13
    assert_eq!(element(7, 13).pow(i32::MIN), element(9, 13));
}

#[test]
fn arithmetic_near_the_largest_machine_word_does_not_overflow() {
    // the largest prime below 2^64
    let prime = 18446744073709551557usize;
    let top = element(prime - 1, prime);

    assert_eq!(top.add(top), Ok(element(prime - 2, prime)));
    assert_eq!(top.mul(top), Ok(element(1, prime)));
    assert_eq!(element(0, prime).sub(top), Ok(element(1, prime)));
    assert_eq!(top.div(top), Ok(element(1, prime)));
    assert_eq!(top.pow(-1), top);
    // 2^64 = prime + 59
    assert_eq!(element(2, prime).pow(64), element(59, prime));
}

#[test]
fn display_shows_modulus_then_value() {
    assert_eq!(element(0, 2).display(), "FieldElement_2(0)");
    assert_eq!(element(192, 223).display(), "FieldElement_223(192)");
    assert_eq!(
        element(10, 18446744073709551557).display(),
        "FieldElement_18446744073709551557(10)"
    );
}

#[test]
fn powers_with_opposite_exponents_are_inverse() {
    for prime in [2usize, 3, 13] {
        for num in 1..prime {
            for k in -30..=30 {
                let e = element(num, prime);
                assert_eq!(e.pow(k).mul(e.pow(-k)), Ok(element(1, prime)));
            }
        }
    }
}
