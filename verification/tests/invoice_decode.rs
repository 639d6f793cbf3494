use bysqr::codec::{decode_payload, encode_payload, Header};
use bysqr::error::Error;
use bysqr::invoice::decode::{decode, decode_sequence};
use bysqr::invoice::encode::{encode, encode_sequence};
use bysqr::invoice::models::{DocumentType, Invoice};

/// The 45 fields of the Forsys sample invoice, in transport order.
fn legacy_fields() -> Vec<String> {
    [
        "201300001",
        "20130227",
        "20130227",
        "",
        "",
        "EUR",
        "",
        "",
        "",
        "Forsys a. s.",
        "2022683003",
        "SK2022683003",
        "44232730",
        "Zochova",
        "6",
        "Bratislava",
        "81103",
        "",
        "SVK",
        "",
        "",
        "info@bysquare.com",
        "Slovenská banková asociácia",
        "2020809978",
        "SK2020809978",
        "30813182",
        "",
        "",
        "",
        "",
        "",
        "Vzorová faktúra pre štandard by square",
        "",
        "",
        "",
        "1",
        "1",
        "0.2",
        "1",
        "0.2",
        "0",
        "0",
        "0",
        "0",
        "1",
    ]
    .iter()
    .map(|field| field.to_string())
    .collect()
}

fn legacy_sequence() -> String {
    legacy_fields().join("\t")
}

fn legacy_payload() -> String {
    encode_payload(
        Header {
            by_square_type: 1,
            version: 0,
            document_type: 0,
            reserved: 0,
        },
        &legacy_sequence(),
    )
    .unwrap()
}

fn decode_fields(fields: &[String]) -> Result<Invoice, Error> {
    decode_sequence(&fields.join("\t"), DocumentType::Invoice)
}

#[test]
fn encoder_and_decoder_round_trip_known_vectors_semantically() {
    for payload in [legacy_payload()] {
        let invoice = decode(&payload).unwrap();
        let canonical_payload = encode(&invoice).unwrap();

        assert_eq!(decode(&canonical_payload).unwrap(), invoice);
    }
}

#[test]
fn normalizes_decimal_percent_points_without_floating_point() {
    let mut fields = legacy_fields();
    fields[37] = "20.5".to_owned();
    let invoice = decode_fields(&fields).unwrap();
    assert_eq!(
        invoice.data.tax_category_summaries.tax_category_summary[0]
            .classified_tax_category
            .as_str(),
        "0.205"
    );

    fields[37] = "100".to_owned();
    let invoice = decode_fields(&fields).unwrap();
    assert_eq!(
        invoice.data.tax_category_summaries.tax_category_summary[0]
            .classified_tax_category
            .as_str(),
        "1"
    );
}

#[test]
fn rejects_malformed_counts_and_wrong_field_counts() {
    for value in ["", "-1", "one", "184467440737095516160"] {
        let mut fields = legacy_fields();
        fields[36] = value.to_owned();
        assert!(matches!(
            decode_fields(&fields),
            Err(Error::InvalidSequence { .. })
        ));
    }

    let mut fields = legacy_fields();
    fields[36] = "0".to_owned();
    assert!(matches!(
        decode_fields(&fields),
        Err(Error::InvalidSequence { .. })
    ));

    let mut fields = legacy_fields();
    fields[36] = "2".to_owned();
    assert!(matches!(
        decode_fields(&fields),
        Err(Error::InvalidSequence { .. })
    ));

    let mut fields = legacy_fields();
    fields.pop();
    assert!(matches!(
        decode_fields(&fields),
        Err(Error::InvalidSequence { .. })
    ));

    let mut fields = legacy_fields();
    fields.push("trailing".to_owned());
    assert!(matches!(
        decode_fields(&fields),
        Err(Error::InvalidSequence { .. })
    ));
}

#[test]
fn rejects_invalid_dates_decimals_vat_and_payment_classifier() {
    for (index, value) in [
        (1, "20250230"),
        (7, "not-a-decimal"),
        (37, "-0.2"),
        (37, "100.1"),
        (44, "0"),
        (44, "128"),
    ] {
        let mut fields = legacy_fields();
        fields[index] = value.to_owned();
        assert!(matches!(
            decode_fields(&fields),
            Err(Error::InvalidSequence { .. })
        ));
    }
}

#[test]
fn rejects_invoice_line_choice_violations() {
    let mut both_choices = legacy_fields();
    both_choices[27] = "1".to_owned();
    assert!(matches!(
        decode_fields(&both_choices),
        Err(Error::InvalidSequence { .. })
    ));

    let mut neither_choice = legacy_fields();
    neither_choice[31] = String::new();
    neither_choice[35] = String::new();
    assert!(matches!(
        decode_fields(&neither_choice),
        Err(Error::InvalidSequence { .. })
    ));

    let mut invalid_item_choice = legacy_fields();
    invalid_item_choice[32] = "1234567890123".to_owned();
    assert!(matches!(
        decode_fields(&invalid_item_choice),
        Err(Error::InvalidSequence { .. })
    ));
}

#[test]
fn legacy_sequence_decodes_and_encodes_back_to_the_same_fields() {
    let invoice = decode_sequence(&legacy_sequence(), DocumentType::Invoice).unwrap();
    assert_eq!(invoice.data.invoice_id, "201300001");
    assert_eq!(invoice.data.issue_date.as_str(), "2013-02-27");
    assert_eq!(invoice.data.supplier_party.party_name, "Forsys a. s.");
    assert_eq!(encode_sequence(&invoice).unwrap(), legacy_sequence());
}

#[test]
fn decodes_all_five_document_type_classifiers() {
    for classifier in 0..=4u8 {
        let expected = DocumentType::from_classifier(classifier).unwrap();
        let payload = encode_payload(
            Header {
                by_square_type: 1,
                version: 0,
                document_type: classifier,
                reserved: 0,
            },
            &legacy_sequence(),
        )
        .unwrap();
        assert_eq!(decode(&payload).unwrap().document_type, expected);
        assert_eq!(decode_payload(&encode(&decode(&payload).unwrap()).unwrap()).unwrap().header.document_type, classifier);
    }
}

#[test]
fn rejects_non_invoice_headers_and_unknown_document_types() {
    for header in [
        Header { by_square_type: 0, version: 0, document_type: 0, reserved: 0 },
        Header { by_square_type: 1, version: 1, document_type: 0, reserved: 0 },
        Header { by_square_type: 1, version: 0, document_type: 0, reserved: 1 },
        Header { by_square_type: 1, version: 0, document_type: 5, reserved: 0 },
    ] {
        let payload = encode_payload(header, &legacy_sequence()).unwrap();
        assert!(matches!(decode(&payload), Err(Error::InvalidPayload(_))));
    }
}

#[test]
fn generic_decoder_accepts_the_valid_current_invoice_fixture() {
    let payload = legacy_payload();
    let bysqr::document::Document::Invoice(invoice) = bysqr::document::decode(payload.trim()).unwrap() else {
        panic!("fixture was not classified as INVOICE by square");
    };

    assert_eq!(invoice.document_type, DocumentType::Invoice);
    assert_eq!(
        invoice.data.tax_category_summaries.tax_category_summary[0]
            .classified_tax_category
            .as_str(),
        "0.2"
    );
}

struct WholeDivision;

impl bysqr::invoice::models::DecimalDivision for WholeDivision {
    type Error = String;

    fn quotient(
        &self,
        dividend: bysqr::invoice::models::Decimal,
        divisor: bysqr::invoice::models::Decimal,
    ) -> Result<bysqr::invoice::models::Decimal, String> {
        self.divide(&dividend, &divisor)
    }

    fn divide(
        &self,
        dividend: &bysqr::invoice::models::Decimal,
        divisor: &bysqr::invoice::models::Decimal,
    ) -> Result<bysqr::invoice::models::Decimal, String> {
        if divisor.as_str() == "1" {
            Ok(dividend.clone())
        } else {
            Err(format!("{} / {}", dividend.as_str(), divisor.as_str()))
        }
    }
}

#[test]
fn unit_prices_are_the_totals_divided_by_the_quantity() {
    let invoice = decode_sequence(&legacy_sequence(), DocumentType::Invoice).unwrap();
    let line = invoice.data.single_invoice_line.as_ref().expect("the sample has one line");
    assert_eq!(line.invoiced_quantity.as_str(), "1");
    let calculation = invoice.calculate_with_division(&WholeDivision).unwrap();
    let totals = invoice.calculate_totals();
    let unit = calculation.single_invoice_line.unwrap();
    assert_eq!(unit.unit_price_tax_exclusive_amount, totals.monetary_summary.tax_exclusive_amount);
    assert_eq!(unit.unit_price_tax_inclusive_amount, totals.monetary_summary.tax_inclusive_amount);
    assert_eq!(unit.unit_price_tax_amount, totals.monetary_summary.tax_amount);
    assert_eq!(calculation.totals, totals);
}

#[test]
fn the_first_failing_division_is_reported() {
    let mut fields = legacy_fields();
    fields[35] = "3".to_owned();
    let invoice = decode_fields(&fields).unwrap();
    let error = invoice.calculate_with_division(&WholeDivision).unwrap_err();
    let totals = invoice.calculate_totals();
    assert_eq!(error, format!("{} / 3", totals.monetary_summary.tax_exclusive_amount.as_str()));
}

fn legacy_invoice() -> Invoice {
    decode_sequence(&legacy_sequence(), DocumentType::Invoice).unwrap()
}

fn decimal(value: &str) -> bysqr::invoice::models::Decimal {
    bysqr::invoice::models::Decimal::new(value).unwrap()
}

#[test]
fn uses_exact_fixed_positions_and_five_fields_per_tax_summary() {
    let mut invoice = legacy_invoice();
    let sequence = encode_sequence(&invoice).unwrap();
    assert_eq!(sequence, legacy_sequence());

    let fields = sequence.split('\t').collect::<Vec<_>>();
    assert_eq!(fields.len(), 45);
    assert_eq!(fields[0], "201300001");
    assert_eq!(fields[1], "20130227");
    assert_eq!(fields[9], "Forsys a. s.");
    assert_eq!(fields[22], "Slovenská banková asociácia");
    assert_eq!(
        &fields[29..36],
        ["", "", "Vzorová faktúra pre štandard by square", "", "", "", "1"]
    );
    assert_eq!(&fields[36..42], ["1", "0.2", "1", "0.2", "0", "0"]);
    assert_eq!(&fields[42..45], ["0", "0", "1"]);

    let mut second = invoice.data.tax_category_summaries.tax_category_summary[0].clone();
    second.classified_tax_category = bysqr::invoice::models::Percentage::new("0.1").unwrap();
    second.tax_exclusive_amount = decimal("2");
    second.tax_amount = decimal("0.2");
    second.already_claimed_tax_exclusive_amount = decimal("1");
    second.already_claimed_tax_amount = decimal("0.1");
    invoice.data.tax_category_summaries.tax_category_summary.push(second);

    let sequence = encode_sequence(&invoice).unwrap();
    let fields = sequence.split('\t').collect::<Vec<_>>();
    assert_eq!(fields.len(), 50);
    assert_eq!(fields[36], "2");
    assert_eq!(&fields[37..42], ["0.2", "1", "0.2", "0", "0"]);
    assert_eq!(&fields[42..47], ["0.1", "2", "0.2", "1", "0.1"]);
    assert_eq!(&fields[47..50], ["0", "0", "1"]);
}

#[test]
fn omits_every_computed_model_field() {
    let mut invoice = legacy_invoice();
    let expected = encode_sequence(&invoice).unwrap();
    let computed = || Some(decimal("987654321.123"));

    let line = invoice.data.single_invoice_line.as_mut().unwrap();
    line.unit_price_tax_exclusive_amount = computed();
    line.unit_price_tax_inclusive_amount = computed();
    line.unit_price_tax_amount = computed();

    let tax = &mut invoice.data.tax_category_summaries.tax_category_summary[0];
    tax.tax_inclusive_amount = computed();
    tax.already_claimed_tax_inclusive_amount = computed();
    tax.difference_tax_exclusive_amount = computed();
    tax.difference_tax_inclusive_amount = computed();
    tax.difference_tax_amount = computed();

    let monetary = &mut invoice.data.monetary_summary;
    monetary.tax_exclusive_amount = computed();
    monetary.tax_inclusive_amount = computed();
    monetary.tax_amount = computed();
    monetary.already_claimed_tax_exclusive_amount = computed();
    monetary.already_claimed_tax_inclusive_amount = computed();
    monetary.already_claimed_tax_amount = computed();
    monetary.difference_tax_exclusive_amount = computed();
    monetary.difference_tax_inclusive_amount = computed();
    monetary.difference_tax_amount = computed();
    monetary.payable_amount = computed();

    assert_eq!(encode_sequence(&invoice).unwrap(), expected);
}

#[test]
fn replaces_user_tabs_in_textual_fields_with_spaces() {
    let mut invoice = legacy_invoice();
    invoice.data.invoice_id = "left\tright".to_owned();
    invoice.data.supplier_party.party_name = "supplier\tname".to_owned();
    invoice.data.supplier_party.postal_address.street_name = "main\tstreet".to_owned();
    invoice.data.supplier_party.contact.as_mut().unwrap().name = Some("contact\tname".to_owned());
    invoice.data.customer_party.party_name = "customer\tname".to_owned();
    invoice.data.single_invoice_line.as_mut().unwrap().item_name = Some("item\tname".to_owned());

    let sequence = encode_sequence(&invoice).unwrap();
    let fields = sequence.split('\t').collect::<Vec<_>>();
    assert_eq!(fields.len(), 45);
    assert_eq!(fields[0], "left right");
    assert_eq!(fields[9], "supplier name");
    assert_eq!(fields[13], "main street");
    assert_eq!(fields[19], "contact name");
    assert_eq!(fields[22], "customer name");
    assert_eq!(fields[31], "item name");
}

#[test]
fn unbounded_sequence_defers_the_protocol_byte_limit_to_the_codec() {
    let mut invoice = legacy_invoice();
    invoice.data.invoice_id = "x".repeat(u16::MAX as usize);

    let sequence = bysqr::invoice::encode::encode_sequence_with_limit(
        &invoice,
        bysqr::invoice::encode::SequenceLimit::Unbounded,
    )
    .unwrap();
    assert!(sequence.len() > u16::MAX as usize);
    assert!(matches!(
        bysqr::invoice::encode::encode_with_limit(&invoice, bysqr::invoice::encode::SequenceLimit::Unbounded),
        Err(Error::PayloadTooLong(_))
    ));
}

#[test]
fn rejects_hard_model_rule_violations_but_not_advisories() {
    let mut invoice = legacy_invoice();
    invoice.data.curr_rate = Some(decimal("1"));
    assert!(matches!(
        encode_sequence(&invoice),
        Err(Error::InvalidInput { field: "ForeignCurrencyCode", .. })
    ));
}
