use bysqr::pay::models::{
    normalize_number, Amount, DirectDebitScheme, DirectDebitType, Month, Months, PaymentOption,
    PaymentOptions, Periodicity,
};

#[test]
fn models_normalizes_decimal_without_losing_precision() {
    assert_eq!(Amount::new("0012.34567800").unwrap().as_str(), "12.345678");
    assert_eq!(Amount::new("+1.20").unwrap().as_str(), "1.2");
    assert!(Amount::new("1e-8").is_err());
    assert_eq!(normalize_number("1e-8", true).unwrap(), "0.00000001");
    assert_eq!(normalize_number("1.2e3", true).unwrap(), "1200");
}

#[test]
fn maps_payment_options_to_classifier() {
    let options: PaymentOptions = "directdebit paymentorder standingorder".parse().unwrap();

    assert_eq!(options.classifier(), 7);
    assert!(options.contains(PaymentOption::PaymentOrder));
    assert!(options.contains(PaymentOption::StandingOrder));
    assert!(options.contains(PaymentOption::DirectDebit));
    assert_eq!(options.names(), "paymentorder standingorder directdebit");
    assert!("paymentorder paymentorder"
        .parse::<PaymentOptions>()
        .is_err());
}

#[test]
fn maps_periodicities_to_classifiers() {
    for (value, classifier) in [
        ("Daily", 'd'),
        ("Weekly", 'w'),
        ("Biweekly", 'b'),
        ("Monthly", 'm'),
        ("Bimonthly", 'B'),
        ("Quarterly", 'q'),
        ("Annually", 'a'),
        ("Semiannually", 's'),
    ] {
        assert_eq!(
            value.parse::<Periodicity>().unwrap().classifier(),
            classifier
        );
    }
    assert!("monthly".parse::<Periodicity>().is_err());
}

#[test]
fn sums_month_classifiers() {
    let months: Months = "January April July October".parse().unwrap();

    assert_eq!(months.classifier(), 585);
    assert!(months.contains(Month::January));
    assert!(months.contains(Month::October));
    assert_eq!(months.names(), "January April July October");
    assert!("January January".parse::<Months>().is_err());
}

#[test]
fn maps_direct_debit_classifiers() {
    assert_eq!(
        "other".parse::<DirectDebitScheme>().unwrap().classifier(),
        0
    );
    assert_eq!("SEPA".parse::<DirectDebitScheme>().unwrap().classifier(), 1);
    assert_eq!(
        "one-off".parse::<DirectDebitType>().unwrap().classifier(),
        0
    );
    assert_eq!(
        "recurrent".parse::<DirectDebitType>().unwrap().classifier(),
        1
    );
    assert!("sepa".parse::<DirectDebitScheme>().is_err());
    assert!("recurring".parse::<DirectDebitType>().is_err());
}

#[test]
fn classifiers_read_back_as_the_same_sets() {
    for classifier in 1..=7u8 {
        assert_eq!(PaymentOptions::from_classifier(classifier).unwrap().classifier(), classifier);
    }
    assert!(PaymentOptions::from_classifier(0).is_err());
    assert!(PaymentOptions::from_classifier(8).is_err());
    assert_eq!(Months::from_classifier(4095).unwrap().classifier(), 4095);
    assert!(Months::from_classifier(4096).is_err());
    assert_eq!(Periodicity::from_classifier('q').unwrap().name(), "Quarterly");
    assert!(Periodicity::from_classifier('x').is_err());
}

#[test]
fn normalize_number_handles_signs_and_exponents() {
    assert_eq!(normalize_number("  +0012.500 ", false).unwrap(), "12.5");
    assert!(normalize_number("-0", false).is_err());
    assert!(normalize_number("1e2", false).is_err());
    assert!(normalize_number("", true).is_err());
    assert!(Amount::new("-1").is_err());
    assert!(Amount::new("0").unwrap().is_zero());
}
