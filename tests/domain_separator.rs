use whir::domain_separator::{DomainSeparator, OODDomainSeparator};

#[test]
fn test_add_ood() {
    let iop: DomainSeparator = DomainSeparator::new("test_protocol");

    // Apply OOD query addition
    let updated_iop = iop.clone().add_ood(3);

    // Convert to a string for inspection
    let pattern_str = String::from_utf8(updated_iop.as_bytes().to_vec()).unwrap();

    // Check if "ood_query" and "ood_ans" were correctly appended
    assert!(pattern_str.contains("ood_query"));
    assert!(pattern_str.contains("ood_ans"));

    // Test case where num_samples = 0 (should not modify anything)
    let unchanged_iop = iop.add_ood(0);
    let unchanged_str = String::from_utf8(unchanged_iop.as_bytes().to_vec()).unwrap();
    assert_eq!(unchanged_str, "test_protocol"); // Should remain the same
}

#[test]
fn add_ood_appends_exact_entries() {
    let iop = DomainSeparator::new("p");
    let updated = iop.add_ood(12);
    assert_eq!(updated.as_bytes(), b"p\0S12ood_query\0A12ood_ans");
}

#[test]
fn add_ood_keeps_existing_pattern_as_prefix() {
    let base = DomainSeparator::new("proto").add_scalars(4, "coeffs");
    let before = base.as_bytes().to_vec();
    let after = base.add_ood(1);
    assert!(after.as_bytes().len() > before.len());
    assert_eq!(&after.as_bytes()[..before.len()], &before[..]);
}

#[test]
fn entries_of_each_kind() {
    let iop = DomainSeparator::new("")
        .add_scalars(0, "a")
        .challenge_scalars(105, "b")
        .challenge_pow("pow_queries");
    assert_eq!(iop.as_bytes(), b"\0A0a\0S105b\0P32pow_queries");
}
