use whir::field::{FieldElement, P};

#[test]
fn field_arithmetic_reduces_modulo_p() {
    let a = FieldElement::from_u64(P as u64 - 1);
    let one = FieldElement::one();
    assert_eq!(a.add(one), FieldElement::zero());
    assert_eq!(FieldElement::zero().sub(one), a);
    assert_eq!(a.mul(a), one);
    assert_eq!(FieldElement::from_u64(P as u64 + 5).as_canonical_u32(), 5);
    assert_eq!(FieldElement::from_u64(7).double().as_canonical_u32(), 14);
}

#[test]
fn field_inverse_and_power() {
    let two = FieldElement::from_u64(2);
    let inv = two.inverse();
    assert_ne!(inv, two);
    assert_eq!(two.mul(inv), FieldElement::one());
    assert_eq!(inv.as_canonical_u32(), (P + 1) / 2);
    assert_eq!(two.exp_u64(10).as_canonical_u32(), 1024);
    assert_eq!(two.exp_u64(0), FieldElement::one());
}

#[test]
fn field_two_adic_generator_orders() {
    assert_eq!(FieldElement::two_adic_generator(0), FieldElement::one());
    let g1 = FieldElement::two_adic_generator(1);
    assert_eq!(g1.as_canonical_u32(), P - 1);
    let g = FieldElement::two_adic_generator(27);
    assert_eq!(g.exp_u64(1 << 27), FieldElement::one());
    assert_ne!(g.exp_u64(1 << 26), FieldElement::one());
}
