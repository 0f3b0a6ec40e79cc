use ecc::coordinate::Coordinate;
use ecc::decimal::{append_decimal, append_signed_decimal};
use ecc::error::EccError;
use ecc::modular::{add_mod, mul_mod, pow_mod, sub_mod};

#[test]
fn integers_add_subtract_and_multiply_exactly() {
    assert_eq!(2isize.add(3), Ok(5));
    assert_eq!(2isize.sub(3), Ok(-1));
    assert_eq!((-4isize).mul(6), Ok(-24));
}

#[test]
fn integer_results_that_do_not_fit_are_out_of_the_domain() {
    assert_eq!(isize::MAX.add(1), Err(EccError::Domain));
    assert_eq!(isize::MIN.sub(1), Err(EccError::Domain));
    assert_eq!(isize::MAX.mul(2), Err(EccError::Domain));
    assert_eq!(isize::MIN.mul(-1), Err(EccError::Domain));
    assert_eq!(isize::MIN.div(-1), Err(EccError::Domain));
    assert_eq!(isize::MAX.add(0), Ok(isize::MAX));
    assert_eq!(isize::MIN.div(1), Ok(isize::MIN));
}

#[test]
fn integer_division_is_exact_or_refused() {
    assert_eq!(6isize.div(3), Ok(2));
    assert_eq!((-6isize).div(3), Ok(-2));
    assert_eq!(6isize.div(-3), Ok(-2));
    assert_eq!((-6isize).div(-3), Ok(2));
    assert_eq!(0isize.div(5), Ok(0));
    assert_eq!(7isize.div(2), Err(EccError::Domain));
    assert_eq!((-7isize).div(2), Err(EccError::Domain));
    assert_eq!(1isize.div(-3), Err(EccError::Domain));
    assert_eq!(5isize.div(0), Err(EccError::Domain));
    assert_eq!(0isize.div(0), Err(EccError::Domain));
}

#[test]
fn integer_zero_test_and_equality() {
    assert!(0isize.is_zero());
    assert!(!1isize.is_zero());
    assert!(!(-1isize).is_zero());
    assert!(5isize.equals(5));
    assert!(!5isize.equals(-5));
}

#[test]
fn integers_display_in_decimal() {
    assert_eq!(0isize.display(), "0");
    assert_eq!(7isize.display(), "7");
    assert_eq!((-1isize).display(), "-1");
    assert_eq!(1234567890isize.display(), "1234567890");
    assert_eq!(isize::MAX.display(), isize::MAX.to_string());
    assert_eq!(isize::MIN.display(), isize::MIN.to_string());
}

#[test]
fn decimal_digits_are_appended_in_order() {
    let mut out = String::from("n=");
    append_decimal(&mut out, 0);
    assert_eq!(out, "n=0");
    append_decimal(&mut out, 9);
    append_decimal(&mut out, 10);
    append_decimal(&mut out, 109);
    assert_eq!(out, "n=0910109");

    let mut most = String::new();
    append_decimal(&mut most, usize::MAX);
    assert_eq!(most, usize::MAX.to_string());

    let mut signed = String::new();
    append_signed_decimal(&mut signed, -120);
    append_signed_decimal(&mut signed, 45);
    assert_eq!(signed, "-12045");
}

#[test]
fn residues_are_combined_modulo_the_modulus() {
    assert_eq!(add_mod(2, 4, 5), 1);
    assert_eq!(add_mod(1, 2, 5), 3);
    assert_eq!(add_mod(usize::MAX - 1, usize::MAX - 1, usize::MAX), usize::MAX - 2);
    assert_eq!(sub_mod(2, 3, 5), 4);
    assert_eq!(sub_mod(3, 2, 5), 1);
    assert_eq!(sub_mod(0, usize::MAX - 1, usize::MAX), 1);
    assert_eq!(mul_mod(2, 3, 5), 1);
    assert_eq!(mul_mod(usize::MAX, usize::MAX, usize::MAX - 1), 1);
    assert_eq!(mul_mod(7, 8, 1), 0);
}

#[test]
fn powers_are_reduced_modulo_the_modulus() {
    assert_eq!(pow_mod(2, 10, 1000), 24);
    assert_eq!(pow_mod(2, 10, 1025), 1024);
    assert_eq!(pow_mod(7, 0, 13), 1);
    assert_eq!(pow_mod(0, 0, 13), 1);
    assert_eq!(pow_mod(7, 0, 1), 0);
    assert_eq!(pow_mod(0, 5, 13), 0);
    assert_eq!(pow_mod(20, 3, 13), 5);
    assert_eq!(pow_mod(3, usize::MAX, 7), 3 * 3 * 3 % 7);
}
