use bysqr::codec::decode_payload;
use bysqr::error::Error;
use bysqr::pay::models::{
    Amount, BankAccount, BankAccounts, DirectDebitExt, DirectDebitScheme, DirectDebitType, Months,
    Pay, Payment, PaymentOptions, Payments, Periodicity, StandingOrderExt,
};
use bysqr::pay::{decoder, encoder};

const DEMO_IBAN: &str = "SK7700000000000000000000";

fn minimal_payment() -> Payment {
    Payment {
        payment_options: PaymentOptions::from_names("paymentorder").unwrap(),
        amount: Some(Amount::new("1").unwrap()),
        currency_code: "EUR".to_owned(),
        payment_due_date: None,
        variable_symbol: None,
        constant_symbol: None,
        specific_symbol: None,
        originators_reference_information: None,
        payment_note: None,
        bank_accounts: BankAccounts {
            bank_account: vec![BankAccount { iban: DEMO_IBAN.to_owned(), bic: None }],
        },
        standing_order_ext: None,
        direct_debit_ext: None,
        beneficiary_name: None,
        beneficiary_address_line1: None,
        beneficiary_address_line2: None,
    }
}

fn pay_with(payments: Vec<Payment>) -> Pay {
    Pay { invoice_id: None, payments: Payments { payment: payments } }
}

fn standing(day: Option<u8>, months: Option<&str>, periodicity: &str, last: Option<&str>) -> StandingOrderExt {
    StandingOrderExt {
        day,
        month: months.map(|m| Months::from_names(m).unwrap()),
        periodicity: Periodicity::from_name(periodicity).unwrap(),
        last_date: last.map(str::to_owned),
    }
}

fn debit(scheme: DirectDebitScheme, kind: DirectDebitType) -> DirectDebitExt {
    DirectDebitExt {
        direct_debit_scheme: scheme,
        direct_debit_type: kind,
        variable_symbol: None,
        specific_symbol: None,
        originators_reference_information: None,
        mandate_id: None,
        creditor_id: None,
        contract_id: None,
        max_amount: None,
        valid_till_date: None,
    }
}

fn invalid_field(pay: &Pay) -> Option<&'static str> {
    match encoder::encode(pay) {
        Err(Error::InvalidInput { field, .. }) => Some(field),
        _ => None,
    }
}

#[test]
fn tabs_in_values_are_replaced_with_spaces() {
    let mut payment = minimal_payment();
    payment.payment_note = Some("left\tright".to_owned());
    payment.beneficiary_name = Some("Fixture\tRecipient".to_owned());
    let sequence = encoder::encode_sequence(&pay_with(vec![payment])).unwrap();

    assert!(sequence.contains("left right"));
    assert!(sequence.contains("Fixture Recipient"));
    assert!(!sequence.contains("left\tright"));
}

#[test]
fn payload_length_uses_both_little_endian_bytes() {
    let mut payment = minimal_payment();
    payment.payment_note = Some("Ž".repeat(140));
    payment.beneficiary_name = Some("Č".repeat(140));
    payment.beneficiary_address_line1 = Some("Ľ".repeat(70));
    payment.beneficiary_address_line2 = Some("Š".repeat(70));
    let pay = pay_with(vec![payment]);
    let sequence = encoder::encode_sequence(&pay).unwrap();
    assert!(sequence.len() + 4 > u8::MAX as usize);
    assert!(sequence.chars().count() <= encoder::MAX_SEQUENCE_CHARACTERS);

    let payload = encoder::encode(&pay).unwrap();
    assert_eq!(decode_payload(&payload).unwrap().sequence, sequence);
}

#[test]
fn rejects_values_outside_xsd_constraints() {
    let mut currency = minimal_payment();
    currency.currency_code = "EURX".to_owned();
    let mut zero = minimal_payment();
    zero.amount = Some(Amount::new("0.00").unwrap());
    let mut accounts = minimal_payment();
    accounts.bank_accounts.bank_account.clear();
    let mut reference = minimal_payment();
    reference.variable_symbol = Some("1".to_owned());
    reference.originators_reference_information = Some("RF00".to_owned());

    for (name, payment) in [
        ("currency", currency),
        ("zero amount", zero),
        ("empty accounts", accounts),
        ("reference choice", reference),
    ] {
        let pay = pay_with(vec![payment]);
        assert!(
            matches!(encoder::encode(&pay), Err(Error::InvalidInput { .. })),
            "{name} was accepted"
        );
    }
}

#[test]
fn rejects_empty_and_oversized_payment_collections() {
    let empty = pay_with(vec![]);
    assert!(matches!(
        encoder::encode(&empty),
        Err(Error::InvalidInput { field: "Payments", .. })
    ));

    let payments = (0..4)
        .map(|_| {
            let mut payment = minimal_payment();
            payment.payment_note = Some("x".repeat(140));
            payment
        })
        .collect();
    let oversized = pay_with(payments);
    assert!(matches!(encoder::encode(&oversized), Err(Error::SequenceTooLong { .. })));

    let sequence =
        encoder::encode_sequence_with_limit(&oversized, encoder::SequenceLimit::Unbounded).unwrap();
    assert!(sequence.chars().count() > encoder::MAX_SEQUENCE_CHARACTERS);

    let payload = encoder::encode_with_limit(&oversized, encoder::SequenceLimit::Unbounded).unwrap();
    assert_eq!(decoder::decode(&payload).unwrap(), oversized);
}

#[test]
fn unbounded_mode_still_enforces_the_protocol_size_limit() {
    let payments = (0..2_000).map(|_| minimal_payment()).collect();
    let pay = pay_with(payments);

    assert!(matches!(
        encoder::encode_with_limit(&pay, encoder::SequenceLimit::Unbounded),
        Err(Error::PayloadTooLong(_))
    ));
}

#[test]
fn validates_standing_order_option_and_extension_pair() {
    let mut missing_extension = minimal_payment();
    missing_extension.payment_options = PaymentOptions::from_names("standingorder").unwrap();
    assert_eq!(invalid_field(&pay_with(vec![missing_extension])), Some("StandingOrderExt"));

    let mut missing_option = minimal_payment();
    missing_option.standing_order_ext = Some(standing(None, None, "Daily", None));
    assert_eq!(invalid_field(&pay_with(vec![missing_option])), Some("PaymentOptions"));
}

#[test]
fn validates_standing_order_day_and_month_rules() {
    let cases = [
        ("daily day", standing(Some(1), None, "Daily", None), "Day"),
        ("weekly day", standing(Some(8), None, "Weekly", None), "Day"),
        ("monthly day", standing(Some(32), None, "Monthly", None), "Day"),
        ("quarterly months", standing(None, Some("January April"), "Quarterly", None), "Month"),
        ("invalid last date", standing(None, None, "Daily", Some("2026-02-30")), "LastDate"),
    ];

    for (name, extension, expected_field) in cases {
        let mut payment = minimal_payment();
        payment.payment_options = PaymentOptions::from_names("standingorder").unwrap();
        payment.standing_order_ext = Some(extension);
        assert_eq!(invalid_field(&pay_with(vec![payment])), Some(expected_field), "{name} was accepted");
    }
}

#[test]
fn accepts_weekly_day_and_month_selection() {
    let mut payment = minimal_payment();
    payment.payment_options = PaymentOptions::from_names("standingorder paymentorder").unwrap();
    payment.standing_order_ext = Some(standing(Some(7), Some("January December"), "Weekly", None));
    let sequence = encoder::encode_sequence(&pay_with(vec![payment])).unwrap();
    let fields: Vec<_> = sequence.split('\t').collect();

    assert_eq!(fields[2], "3");
    assert_eq!(&fields[14..20], &["1", "7", "2049", "w", "", "0"]);
}

#[test]
fn validates_direct_debit_option_and_extension_pair() {
    let mut missing_extension = minimal_payment();
    missing_extension.payment_options = PaymentOptions::from_names("directdebit").unwrap();
    assert_eq!(invalid_field(&pay_with(vec![missing_extension])), Some("DirectDebitExt"));

    let mut missing_option = minimal_payment();
    missing_option.direct_debit_ext = Some(debit(DirectDebitScheme::Other, DirectDebitType::OneOff));
    assert_eq!(invalid_field(&pay_with(vec![missing_option])), Some("PaymentOptions"));
}

#[test]
fn validates_direct_debit_reference_choice() {
    let mut mixed = debit(DirectDebitScheme::Other, DirectDebitType::OneOff);
    mixed.variable_symbol = Some("1".to_owned());
    mixed.originators_reference_information = Some("RF00".to_owned());
    let sepa = debit(DirectDebitScheme::Sepa, DirectDebitType::Recurrent);
    let mut other_with_ids = debit(DirectDebitScheme::Other, DirectDebitType::Recurrent);
    other_with_ids.mandate_id = Some("MANDATE-1".to_owned());
    other_with_ids.creditor_id = Some("CREDITOR-1".to_owned());
    let mut zero = debit(DirectDebitScheme::Other, DirectDebitType::Recurrent);
    zero.max_amount = Some(Amount::new("0").unwrap());
    let mut date = debit(DirectDebitScheme::Other, DirectDebitType::Recurrent);
    date.valid_till_date = Some("not-a-date".to_owned());

    for (name, extension) in [
        ("mixed other references", mixed),
        ("missing SEPA identifiers", sepa),
        ("other with SEPA identifiers", other_with_ids),
        ("zero maximum", zero),
        ("invalid validity date", date),
    ] {
        let mut payment = minimal_payment();
        payment.payment_options = PaymentOptions::from_names("directdebit").unwrap();
        payment.direct_debit_ext = Some(extension);
        assert!(
            matches!(encoder::encode(&pay_with(vec![payment])), Err(Error::InvalidInput { .. })),
            "{name} was accepted"
        );
    }
}

#[test]
fn combines_standing_order_and_direct_debit_extensions() {
    let mut payment = minimal_payment();
    payment.payment_options = PaymentOptions::from_names("paymentorder standingorder directdebit").unwrap();
    payment.standing_order_ext = Some(standing(None, None, "Daily", None));
    let mut extension = debit(DirectDebitScheme::Other, DirectDebitType::Recurrent);
    extension.originators_reference_information = Some("RF18539007547034".to_owned());
    payment.direct_debit_ext = Some(extension);
    let pay = pay_with(vec![payment]);
    let sequence = encoder::encode_sequence(&pay).unwrap();
    let fields: Vec<_> = sequence.split('\t').collect();

    assert_eq!(fields[2], "7");
    assert_eq!(&fields[14..20], &["1", "", "", "d", "", "1"]);
    assert_eq!(&fields[20..30], &["0", "1", "", "", "RF18539007547034", "", "", "", "", ""]);

    let payload = encoder::encode(&pay).unwrap();
    assert_eq!(decoder::decode(&payload).unwrap(), pay);
}
