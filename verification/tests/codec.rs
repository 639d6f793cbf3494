use bysqr::codec::{base32hex_decode, base32hex_encode, decode_payload, encode_payload, Header};
use bysqr::document::{decode, Document};
use bysqr::error::Error;

#[test]
fn base32hex_round_trip() {
    let data = b"\x00\x00\x61\x00PAY by square";
    let encoded = base32hex_encode(data);
    assert_eq!(base32hex_decode(encoded.as_bytes()).unwrap(), data);
}

#[test]
fn base32hex_uses_the_extended_hex_alphabet() {
    assert_eq!(base32hex_encode(b""), "");
    assert_eq!(base32hex_encode(b"f"), "CO");
    assert_eq!(base32hex_encode(b"foobar"), "CPNMUOJ1E8");
    assert!(base32hex_decode(b"W").is_none());
}

#[test]
fn payload_round_trip() {
    let sequence = "\t1\t1\t12.34\tEUR";
    let encoded = encode_payload(Header::pay(), sequence).unwrap();
    let decoded = decode_payload(&encoded).unwrap();

    assert_eq!(decoded.header, Header::pay());
    assert_eq!(decoded.sequence, sequence);
}

#[test]
fn rejects_incorrect_declared_length() {
    let encoded = encode_payload(Header::pay(), "\t1\t1\t12.34\tEUR").unwrap();
    let mut payload = base32hex_decode(encoded.as_bytes()).unwrap();
    let length = u16::from_le_bytes([payload[2], payload[3]]);
    payload[2..4].copy_from_slice(&(length - 1).to_le_bytes());

    assert!(matches!(
        decode_payload(&base32hex_encode(&payload)),
        Err(Error::InvalidPayload(_))
    ));
}

#[test]
fn rejects_trailing_compressed_data() {
    let encoded = encode_payload(Header::pay(), "\t1\t1\t12.34\tEUR").unwrap();
    let mut payload = base32hex_decode(encoded.as_bytes()).unwrap();
    payload.push(0);

    assert!(matches!(
        decode_payload(&base32hex_encode(&payload)),
        Err(Error::InvalidPayload(_))
    ));
}

#[test]
fn generic_decoder_dispatches_on_the_header() {
    let sequence = "\t1\t1\t12.34\tEUR";
    let unknown = encode_payload(
        Header { by_square_type: 3, version: 0, document_type: 0, reserved: 0 },
        sequence,
    )
    .unwrap();
    assert!(matches!(decode(&unknown), Err(Error::Unsupported(_))));
    let bad_type = encode_payload(
        Header { by_square_type: 1, version: 0, document_type: 9, reserved: 0 },
        sequence,
    )
    .unwrap();
    assert!(matches!(decode(&bad_type), Err(Error::InvalidPayload(_))));
    assert!(decode("not base32").is_err());
    let items = "400AG00014R2FDVNG9S0VU46DJBOAIN8NDM4OMOTDGO08G2JNI84ME2TMG49NFI4K7NQEANVLOIIIGKKN8F6S1CA6PUPF20GHUQR8QRMMAJRMEB21ACNQG8VLMSBKORCHA3RRJDNEN3ILAR0B7Q7L85RQI8QHOT8G6DD2OGCPMOE81JAADR5JBB68JK8Q1BNQ2A0KA1NIK4V6NOK6A07C00";
    let document = decode(items).unwrap();
    assert!(matches!(document, Document::InvoiceItems(_)));
    assert_eq!(decode(&document.encode().unwrap()).unwrap(), document);
}
