use ecc::coordinate::Coordinate;
use ecc::FiniteField;

#[test]
fn lib_initialize_field_element_works() {
    let subject = FiniteField::new(3, 5);

    assert_eq!(subject, Ok(FiniteField { num: 3, prime: 5 }))
}

#[test]
fn lib_field_element_implements_display() {
    let field_element = FiniteField::new(3, 5).unwrap();

    let subject = format!("{}", field_element.display());

    assert_eq!(&subject, "FieldElement_5(3)")
}
