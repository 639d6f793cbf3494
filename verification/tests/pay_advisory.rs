use bysqr::diagnostic::AdvisoryDiagnostic;
use bysqr::pay::decoder;
use bysqr::pay::encoder;
use bysqr::pay::models::{Amount, BankAccount, BankAccounts, Pay, Payment, PaymentOptions, Payments};

fn payment(amount: &str, note: Option<String>) -> Payment {
    Payment {
        payment_options: "paymentorder".parse::<PaymentOptions>().unwrap(),
        amount: Some(Amount::new(amount).unwrap()),
        currency_code: "EUR".to_owned(),
        payment_due_date: None,
        variable_symbol: None,
        constant_symbol: None,
        specific_symbol: None,
        originators_reference_information: None,
        payment_note: note,
        bank_accounts: BankAccounts {
            bank_account: vec![BankAccount { iban: "SK7700000000000000000000".to_owned(), bic: None }],
        },
        standing_order_ext: None,
        direct_debit_ext: None,
        beneficiary_name: None,
        beneficiary_address_line1: None,
        beneficiary_address_line2: None,
    }
}

#[test]
fn bsqr_max_lengths_are_advisory_in_schema_model_and_encoder() {
    let pay = Pay {
        invoice_id: Some("12345678901".to_owned()),
        payments: Payments {
            payment: vec![payment("1234567890123456", Some("x".repeat(141)))],
        },
    };
    assert_eq!(
        pay.advisory_diagnostics(),
        [
            AdvisoryDiagnostic {
                field_path: "InvoiceID".to_owned(),
                actual_character_count: 11,
                recommended_maximum: 10,
            },
            AdvisoryDiagnostic {
                field_path: "Payments.Payment[0].Amount".to_owned(),
                actual_character_count: 16,
                recommended_maximum: 15,
            },
            AdvisoryDiagnostic {
                field_path: "Payments.Payment[0].PaymentNote".to_owned(),
                actual_character_count: 141,
                recommended_maximum: 140,
            },
        ]
    );
    encoder::encode(&pay).unwrap();
}

#[test]
fn fields_within_their_advisory_lengths_give_no_diagnostic() {
    let pay = Pay {
        invoice_id: Some("1234567890".to_owned()),
        payments: Payments { payment: vec![payment("12.5", Some("x".repeat(140)))] },
    };
    assert!(pay.advisory_diagnostics().is_empty());
}

#[test]
fn second_payment_beneficiary_overflow_is_reported_by_index() {
    let mut second = payment("1", None);
    second.beneficiary_address_line1 = Some("a".repeat(71));
    let pay = Pay {
        invoice_id: None,
        payments: Payments { payment: vec![payment("2", None), second] },
    };
    assert_eq!(
        pay.advisory_diagnostics(),
        [AdvisoryDiagnostic {
            field_path: "Payments.Payment[1].BeneficiaryAddressLine1".to_owned(),
            actual_character_count: 71,
            recommended_maximum: 70,
        }]
    );
}

#[test]
fn over_long_fields_round_trip_unchanged() {
    let pay = Pay {
        invoice_id: Some("12345678901".to_owned()),
        payments: Payments {
            payment: vec![payment("1234567890123456", Some("x".repeat(141)))],
        },
    };
    let payload = encoder::encode(&pay).unwrap();
    assert_eq!(decoder::decode(&payload).unwrap(), pay);
}
