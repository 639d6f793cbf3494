use bysqr::invoice::models::{Date, Decimal, DocumentType, PaymentMean, PaymentMeans, Percentage};

#[test]
fn normalizes_signed_decimals_without_losing_string_precision() {
    assert_eq!(Decimal::new("+0012.3400").unwrap().as_str(), "12.34");
    assert_eq!(Decimal::new("-.500").unwrap().as_str(), "-0.5");
    assert_eq!(Decimal::new("-0.000").unwrap().as_str(), "0");
    assert!(Decimal::new("1e2").is_err());
}

#[test]
fn exact_decimal_addition_and_subtraction_are_scale_independent() {
    let left = Decimal::new("999999999999999999.999").unwrap();
    let right = Decimal::new("0.001").unwrap();
    assert_eq!(left.add_exact(&right).as_str(), "1000000000000000000");
    assert_eq!(
        right.subtract_exact(&left).as_str(),
        "-999999999999999999.998"
    );
}

#[test]
fn exact_decimal_multiplication_handles_sign_scale_and_carry() {
    let left = Decimal::new("12.34").unwrap();
    let right = Decimal::new("-2.5").unwrap();
    assert_eq!(left.multiply_exact(&right).as_str(), "-30.85");

    let left = Decimal::new("999999999999999999.9").unwrap();
    let right = Decimal::new("99").unwrap();
    assert_eq!(
        left.multiply_exact(&right).as_str(),
        "98999999999999999990.1"
    );
    assert_eq!(
        left.multiply_exact(&Decimal::new("0").unwrap()).as_str(),
        "0"
    );
}

#[test]
fn vat_percentage_is_normalized_and_bounded() {
    assert_eq!(Percentage::new("0.200").unwrap().as_str(), "0.2");
    assert!(Percentage::new("-0.1").is_err());
    assert!(Percentage::new("1.01").is_err());
    assert!(Percentage::new("20").is_err());
}

#[test]
fn document_types_have_stable_classifiers() {
    for (classifier, document_type) in [
        (0, DocumentType::Invoice),
        (1, DocumentType::ProformaInvoice),
        (2, DocumentType::CreditNote),
        (3, DocumentType::DebitNote),
        (4, DocumentType::AdvanceInvoice),
    ] {
        assert_eq!(document_type.classifier(), classifier);
        assert_eq!(
            DocumentType::from_classifier(classifier).unwrap(),
            document_type
        );
    }
}

#[test]
fn decimal_sum_then_difference_gives_back_the_value() {
    let a = Decimal::new("12.345").unwrap();
    let b = Decimal::new("-0.5").unwrap();
    assert_eq!(a.add_exact(&b).as_str(), "11.845");
    assert_eq!(a.add_exact(&b).subtract_exact(&b).as_str(), a.as_str());
    assert!(Decimal::new("0.000").unwrap().is_zero());
}

#[test]
fn document_type_names_round_trip() {
    for document_type in [
        DocumentType::Invoice,
        DocumentType::ProformaInvoice,
        DocumentType::CreditNote,
        DocumentType::DebitNote,
        DocumentType::AdvanceInvoice,
    ] {
        assert_eq!(
            DocumentType::from_xsi_type(document_type.as_xsi_type()).unwrap(),
            document_type
        );
    }
    assert_eq!(DocumentType::from_classifier(5).unwrap_err().field(), "DocumentType");
}

#[test]
fn dates_must_name_a_real_day() {
    assert_eq!(Date::new("2024-02-29").unwrap().as_str(), "2024-02-29");
    assert!(Date::new("2023-02-29").is_err());
    assert!(Date::new("2023-2-28").is_err());
}

#[test]
fn percentage_errors_name_the_rule_they_break() {
    assert_eq!(Percentage::new("1.01").unwrap_err().field(), "Percentage");
    assert_eq!(Percentage::new("-0.1").unwrap_err().field(), "Percentage");
    assert_eq!(Percentage::new("abc").unwrap_err().field(), "Decimal");
}

#[test]
fn xsi_type_names_read_back_bare_or_prefixed() {
    for t in [
        DocumentType::Invoice,
        DocumentType::ProformaInvoice,
        DocumentType::CreditNote,
        DocumentType::DebitNote,
        DocumentType::AdvanceInvoice,
    ] {
        assert_eq!(t.as_xsi_type().parse::<DocumentType>().unwrap(), t);
        assert_eq!(format!("bsqr:{}", t.as_xsi_type()).parse::<DocumentType>().unwrap(), t);
    }
}

#[test]
fn payment_means_hold_exactly_the_listed_means() {
    let means = PaymentMeans::new(&[PaymentMean::Cash, PaymentMean::Other]).unwrap();
    assert!(means.contains(PaymentMean::Cash));
    assert!(means.contains(PaymentMean::Other));
    assert!(!means.contains(PaymentMean::CreditCard));
    assert!(!means.contains(PaymentMean::MoneyTransfer));
}
