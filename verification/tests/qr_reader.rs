use bysqr::document::Document;
use bysqr::error::Error;
use bysqr::pay::encoder::encode;
use bysqr::pay::models::{Amount, BankAccount, BankAccounts, Pay, Payment, PaymentOptions, Payments};
use bysqr::qr_reader::{
    decode_document_payloads, decode_pay_payloads, extract_payloads_from_bytes, payloads_from_grids,
};

fn valid_payload() -> String {
    let pay = Pay {
        invoice_id: None,
        payments: Payments {
            payment: vec![Payment {
                payment_options: PaymentOptions::from_names("paymentorder").unwrap(),
                amount: Some(Amount::new("12.34").unwrap()),
                currency_code: "EUR".to_owned(),
                payment_due_date: None,
                variable_symbol: Some("123".to_owned()),
                constant_symbol: None,
                specific_symbol: None,
                originators_reference_information: None,
                payment_note: Some("Invoice 123".to_owned()),
                bank_accounts: BankAccounts {
                    bank_account: vec![BankAccount {
                        iban: "SK7700000000000000000000".to_owned(),
                        bic: None,
                    }],
                },
                standing_order_ext: None,
                direct_debit_ext: None,
                beneficiary_name: Some("Example".to_owned()),
                beneficiary_address_line1: None,
                beneficiary_address_line2: None,
            }],
        },
    };
    encode(&pay).unwrap()
}

#[test]
fn selects_the_only_pay_payload_from_multiple_codes() {
    assert!(decode_pay_payloads(vec!["HELLO".to_owned(), valid_payload()]).is_ok());
}

#[test]
fn rejects_zero_or_multiple_pay_payloads() {
    assert!(matches!(
        decode_pay_payloads(vec!["HELLO".to_owned(), "WORLD".to_owned()]),
        Err(Error::PayQrNotFound { decoded: 2 })
    ));

    let payload = valid_payload();
    assert!(matches!(
        decode_pay_payloads(vec![payload.clone(), payload]),
        Err(Error::MultiplePayQrCodes(2))
    ));
}

#[test]
fn selects_or_rejects_generic_by_square_payloads() {
    let payload = valid_payload();
    assert!(matches!(
        decode_document_payloads(vec!["HELLO".to_owned(), payload.clone()]),
        Ok(Document::Pay(_))
    ));
    assert!(matches!(
        decode_document_payloads(vec!["HELLO".to_owned()]),
        Err(Error::BySquareQrNotFound { decoded: 1 })
    ));
    assert!(matches!(
        decode_document_payloads(vec![payload.clone(), payload]),
        Err(Error::MultipleBySquareQrCodes(2))
    ));
}

#[test]
fn surrounding_white_space_of_a_payload_is_ignored() {
    let payload = format!("  {}\n", valid_payload());
    assert!(matches!(decode_document_payloads(vec![payload]), Ok(Document::Pay(_))));
}

#[test]
fn grids_that_cannot_be_read_are_reported() {
    assert!(matches!(payloads_from_grids(Vec::new()), Err(Error::QrNotFound)));
    assert!(matches!(
        payloads_from_grids(vec![(false, "bad format".to_owned())]),
        Err(Error::QrDecode(_))
    ));
    assert_eq!(
        payloads_from_grids(vec![(false, "bad".to_owned()), (true, "TEXT".to_owned())]).unwrap(),
        vec!["TEXT".to_owned()]
    );
    assert!(matches!(
        extract_payloads_from_bytes(b"not an image"),
        Err(Error::ImageDecode(_))
    ));
}

#[test]
fn unread_grids_are_reported_with_their_number_and_messages() {
    match payloads_from_grids(vec![(false, "format error".to_owned()), (false, "ecc".to_owned())]) {
        Err(Error::QrDecode(message)) => {
            assert_eq!(message, "detected 2 candidate grids; format error; ecc")
        },
        other => panic!("unexpected {other:?}"),
    }
}

#[test]
fn every_document_among_the_payloads_is_counted() {
    let payload = valid_payload();
    assert!(matches!(
        decode_document_payloads(vec![payload.clone(), "HELLO".to_owned(), payload.clone(), payload.clone()]),
        Err(Error::MultipleBySquareQrCodes(3))
    ));
    assert!(matches!(
        decode_pay_payloads(vec![payload.clone(), payload.clone(), payload]),
        Err(Error::MultiplePayQrCodes(3))
    ));
    assert!(matches!(decode_pay_payloads(vec!["HELLO".to_owned()]), Err(Error::InvalidPayload(_))));
}
