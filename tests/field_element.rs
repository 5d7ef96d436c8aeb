use honest::field_element::FieldElement;
use honest::galois_fields::DomainError;
use honest::traits::GaloisField;

#[test]
fn element_operations() {
    let a = FieldElement(0x57);
    let b = FieldElement(0x83);
    assert_eq!(a.add(b), FieldElement(0x57 ^ 0x83));
    assert_eq!(a.sub(b), a.add(b));
    assert_eq!(a.bitxor(b), a.add(b));
    assert_eq!(a.mul(b), FieldElement(0xC1));
    assert_eq!(FieldElement::from(7u8), FieldElement(7));
}

#[test]
fn element_inverse_and_division() {
    assert_eq!(FieldElement(0x53).inv(), Ok(FieldElement(0xCA)));
    assert_eq!(FieldElement(0).inv(), Err(DomainError::ZeroHasNoInverse));
    assert_eq!(FieldElement(5).div(FieldElement(0)), Err(DomainError::ZeroHasNoInverse));
    for a in 0..=255u8 {
        for b in 1..=255u8 {
            let q = FieldElement(a).div(FieldElement(b)).unwrap();
            assert_eq!(q.mul(FieldElement(b)), FieldElement(a));
        }
    }
}

#[test]
fn field_capability() {
    let a = FieldElement(0x57);
    let b = FieldElement(0x83);
    assert_eq!(FieldElement::zero(), FieldElement(0));
    assert_eq!(FieldElement::one(), FieldElement(1));
    assert_eq!(a.run_add(b), a.add(b));
    assert_eq!(a.run_sub(b), a.add(b));
    assert_eq!(a.run_mul(b), FieldElement(0xC1));
    assert_eq!(a.run_mul(a.run_inv().unwrap()), FieldElement::one());
    assert_eq!(a.run_inv(), a.inv());
    assert_eq!(FieldElement::zero().run_inv(), Err(DomainError::ZeroHasNoInverse));
}
