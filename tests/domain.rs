use whir::domain::Radix2EvaluationDomain;
use whir::field::{FieldElement, TWO_ADICITY};

#[test]
fn test_domain_creation() {
    let domain = Radix2EvaluationDomain::new(8).unwrap();
    assert_eq!(domain.size(), 8);
    assert_eq!(domain.log_size_of_group, 3);
}

#[test]
fn test_invalid_domain() {
    // BabyBear has TWO_ADICITY = 27: a size of 2^28 has no subgroup.
    let invalid_size = 1 << (TWO_ADICITY + 1);
    assert!(Radix2EvaluationDomain::new(invalid_size).is_none());
}

#[test]
fn test_root_of_unity() {
    let domain = Radix2EvaluationDomain::new(8).unwrap();
    let root = domain.group_gen();

    let expected = root.exp_u64(8);
    assert_eq!(expected, FieldElement::one());
}

#[test]
fn test_size_conversion() {
    let domain = Radix2EvaluationDomain::new(16).unwrap();
    assert_eq!(domain.size(), 16);
}

#[test]
fn test_group_gen_inverse() {
    let domain = Radix2EvaluationDomain::new(16).unwrap();
    assert_eq!(domain.group_gen().mul(domain.group_gen_inv()), FieldElement::one());
}

#[test]
fn test_size_inv() {
    let domain = Radix2EvaluationDomain::new(16).unwrap();
    assert_eq!(
        domain.size_as_field_element.mul(domain.size_inv()),
        FieldElement::one()
    );
}

#[test]
fn test_coset_offset() {
    let domain = Radix2EvaluationDomain::new(16).unwrap();
    assert_eq!(domain.coset_offset(), FieldElement::one());
    assert_eq!(domain.coset_offset_inv(), FieldElement::one());
    assert_eq!(domain.coset_offset_pow_size(), FieldElement::one());
}

#[test]
fn domain_generator_has_exact_order_for_every_size() {
    for log in 0..=TWO_ADICITY {
        let n = 1usize << log;
        let domain = Radix2EvaluationDomain::new(n).unwrap();
        assert_eq!(domain.size(), n);
        assert_eq!(domain.log_size_of_group() as usize, log);
        let g = domain.group_gen();
        assert_eq!(g.exp_u64(n as u64), FieldElement::one());
        if log > 0 {
            assert_ne!(g.exp_u64((n / 2) as u64), FieldElement::one());
        }
        assert_eq!(
            domain.size_as_field_element.mul(domain.size_inv()),
            FieldElement::one()
        );
    }
}

#[test]
fn domain_rounds_size_up_to_power_of_two() {
    assert_eq!(Radix2EvaluationDomain::new(0).unwrap().size(), 1);
    assert_eq!(Radix2EvaluationDomain::new(1).unwrap().size(), 1);
    assert_eq!(Radix2EvaluationDomain::new(5).unwrap().size(), 8);
    assert_eq!(Radix2EvaluationDomain::new(9).unwrap().log_size_of_group(), 4);
}

#[test]
fn domain_largest_size_and_one_beyond() {
    let largest = 1usize << TWO_ADICITY;
    assert_eq!(Radix2EvaluationDomain::new(largest).unwrap().size(), largest);
    assert!(Radix2EvaluationDomain::new(largest + 1).is_none());
    assert!(Radix2EvaluationDomain::new(usize::MAX).is_none());
}

#[test]
fn domain_generator_of_size_four_is_a_fourth_root() {
    let g = Radix2EvaluationDomain::new(4).unwrap().group_gen();
    assert_ne!(g, FieldElement::one());
    assert_eq!(g.mul(g), FieldElement::from_u64(0x78000000));
}
