use bysqr::codec::{encode_payload, Header};
use bysqr::error::Error;
use bysqr::invoice::models::Percentage;
use bysqr::pay::decoder;
use bysqr::wasm::{model_wasm_error, wasm_error};

#[test]
fn rejects_non_pay_headers_and_invalid_base32() {
    let payload = encode_payload(
        Header { by_square_type: 1, version: 0, document_type: 0, reserved: 0 },
        "\t1",
    )
    .unwrap();
    assert!(matches!(decoder::decode(&payload), Err(Error::InvalidPayload(_))));
    assert!(matches!(decoder::decode("NOT-A-BASE32-PAYLOAD!"), Err(Error::InvalidPayload(_))));
}

#[test]
fn error_messages_name_the_fault_and_its_values() {
    assert_eq!(
        Error::InvalidInput { field: "IBAN", message: "must match".to_owned() }.message(),
        "invalid IBAN: must match"
    );
    assert_eq!(
        Error::SequenceTooLong { actual: 551, maximum: 550 }.message(),
        "PAY by square sequence has 551 characters; the maximum is 550"
    );
    assert_eq!(
        Error::PayloadTooLong(70000).message(),
        "uncompressed payload has 70000 bytes; the 16-bit limit is 65535"
    );
    assert_eq!(
        Error::ChecksumMismatch { expected: 0x1234abcd, actual: 7 }.message(),
        "CRC32 mismatch: payload contains 0x1234abcd, calculated 0x00000007"
    );
    assert_eq!(Error::Compression("data error".to_owned()).message(), "LZMA error: data error");
    assert_eq!(
        Error::InvalidPayload("short".to_owned()).message(),
        "invalid by square payload: short"
    );
    assert_eq!(
        Error::Deserialize { format: "JSON", message: "eof".to_owned() }.message(),
        "unable to deserialize JSON: eof"
    );
    assert_eq!(Error::Unsupported("later".to_owned()).message(), "later");
}

#[test]
fn structured_errors_carry_stable_codes_and_values() {
    let invalid = wasm_error(&Error::InvalidInput { field: "Amount", message: "zero".to_owned() });
    assert_eq!(invalid.code, "INVALID_INPUT");
    assert_eq!(invalid.message, "invalid Amount: zero");
    assert_eq!(invalid.field.as_deref(), Some("Amount"));
    assert_eq!(invalid.actual, None);

    let long = wasm_error(&Error::SequenceTooLong { actual: 600, maximum: 550 });
    assert_eq!(long.code, "SEQUENCE_TOO_LONG");
    assert_eq!((long.actual, long.maximum), (Some(600), Some(550)));

    let payload = wasm_error(&Error::PayloadTooLong(70000));
    assert_eq!(payload.code, "PAYLOAD_TOO_LONG");
    assert_eq!((payload.actual, payload.maximum), (Some(70000), Some(65535)));

    let checksum = wasm_error(&Error::ChecksumMismatch { expected: 1, actual: 2 });
    assert_eq!(checksum.code, "CHECKSUM_MISMATCH");
    assert_eq!((checksum.expected, checksum.actual), (Some(1), Some(2)));

    let sequence = wasm_error(&Error::InvalidSequence {
        position: 3,
        field: "Amount",
        message: "bad".to_owned(),
    });
    assert_eq!(sequence.code, "INVALID_SEQUENCE");
    assert_eq!((sequence.position, sequence.field.as_deref()), (Some(3), Some("Amount")));

    let format = wasm_error(&Error::Deserialize { format: "XML", message: "eof".to_owned() });
    assert_eq!((format.code, format.format.as_deref()), ("DESERIALIZE", Some("XML")));

    let many = wasm_error(&Error::MultiplePayQrCodes(3));
    assert_eq!((many.code, many.count), ("MULTIPLE_PAY_QR_CODES", Some(3)));
    let none = wasm_error(&Error::BySquareQrNotFound { decoded: 2 });
    assert_eq!((none.code, none.decoded), ("BY_SQUARE_QR_NOT_FOUND", Some(2)));

    for (error, code) in [
        (Error::Unsupported(String::new()), "UNSUPPORTED"),
        (Error::InvalidPayload(String::new()), "INVALID_PAYLOAD"),
        (Error::Compression(String::new()), "COMPRESSION"),
        (Error::Utf8(String::new()), "UTF8"),
    ] {
        assert_eq!(wasm_error(&error).code, code);
    }
}

#[test]
fn model_errors_become_invalid_input_with_their_field() {
    let error = Percentage::new("2").unwrap_err();
    let structured = model_wasm_error(&error);
    assert_eq!(structured.code, "INVALID_INPUT");
    assert_eq!(structured.field.as_deref(), Some("Percentage"));
    assert!(structured.message.starts_with("invalid Percentage: "));
}

#[test]
fn core_and_model_errors_have_stable_codes_and_fields() {
    let invalid = wasm_error(&Error::InvalidSequence {
        position: 7,
        field: "Amount",
        message: "bad decimal".to_owned(),
    });
    assert_eq!(invalid.code, "INVALID_SEQUENCE");
    assert_eq!(invalid.field.as_deref(), Some("Amount"));
    assert_eq!(invalid.position, Some(7));

    let checksum = wasm_error(&Error::ChecksumMismatch { expected: 10, actual: 20 });
    assert_eq!(checksum.code, "CHECKSUM_MISMATCH");
    assert_eq!(checksum.expected, Some(10));
    assert_eq!(checksum.actual, Some(20));

    let model = model_wasm_error(&bysqr::invoice::models::InvoiceModelError::invalid(
        "Invoice JSON",
        "missing field",
    ));
    assert_eq!(model.code, "INVALID_INPUT");
    assert_eq!(model.field.as_deref(), Some("Invoice JSON"));
    assert_eq!(model.message, "invalid Invoice JSON: missing field");
}
