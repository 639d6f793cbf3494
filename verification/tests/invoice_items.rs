use bysqr::codec::{encode_payload, Header};
use bysqr::error::Error;
use bysqr::invoice::models::{Date, Decimal, Percentage};
use bysqr::invoice_items::decode::{decode, decode_chunks, decode_sequence};
use bysqr::invoice_items::encode::{
    chunk_invoice_items_list, chunk_invoice_lines, encode, encode_chunks,
    encode_invoice_items_list, encode_sequence, reassemble_invoice_lines,
};
use bysqr::invoice_items::models::{
    DeliveryNoteReference, InvoiceItems, InvoiceItemsList, InvoiceLine, InvoiceLines,
    OrderReference,
};

const VERIFIED_PAYLOAD: &str = "400AG00014R2FDVNG9S0VU46DJBOAIN8NDM4OMOTDGO08G2JNI84ME2TMG49NFI4K7NQEANVLOIIIGKKN8F6S1CA6PUPF20GHUQR8QRMMAJRMEB21ACNQG8VLMSBKORCHA3RRJDNEN3ILAR0B7Q7L85RQI8QHOT8G6DD2OGCPMOE81JAADR5JBB68JK8Q1BNQ2A0KA1NIK4V6NOK6A07C00";

fn line(index: usize) -> InvoiceLine {
    InvoiceLine {
        order_reference: None,
        delivery_note_reference: None,
        item_name: Some(format!("Item {index}")),
        item_ean_code: None,
        period_from_date: None,
        period_to_date: None,
        invoiced_quantity: Decimal::new("1").unwrap(),
        unit_price_tax_exclusive_amount: Decimal::new("10").unwrap(),
        unit_price_tax_inclusive_amount: None,
        unit_price_tax_amount: Decimal::new("2").unwrap(),
        line_tax_exclusive_amount: None,
        line_tax_inclusive_amount: None,
        line_tax_amount: None,
        classified_tax_category: Percentage::new("0.2").unwrap(),
    }
}

fn service_line() -> InvoiceLine {
    InvoiceLine {
        order_reference: None,
        delivery_note_reference: None,
        item_name: Some("Service".to_owned()),
        item_ean_code: None,
        period_from_date: None,
        period_to_date: None,
        invoiced_quantity: Decimal::new("2.5").unwrap(),
        unit_price_tax_exclusive_amount: Decimal::new("10.2").unwrap(),
        unit_price_tax_inclusive_amount: None,
        unit_price_tax_amount: Decimal::new("2.04").unwrap(),
        line_tax_exclusive_amount: None,
        line_tax_inclusive_amount: None,
        line_tax_amount: None,
        classified_tax_category: Percentage::new("0.2").unwrap(),
    }
}

fn list(invoice_id: &str, count: usize) -> InvoiceItemsList {
    InvoiceItemsList::new(
        invoice_id,
        InvoiceLines::new((1..=count).map(line).collect()),
    )
    .unwrap()
}

#[test]
fn decodes_verified_three_line_payload_and_round_trips_semantics() {
    let document = decode(VERIFIED_PAYLOAD).unwrap();
    assert_eq!(document.invoice_id, "INV-MULTI-2026");
    assert_eq!(document.first_invoice_line_id, "1");
    assert_eq!(document.invoice_lines.invoice_line.len(), 3);
    assert_eq!(
        document.invoice_lines.invoice_line[1].item_ean_code.as_deref(),
        Some("8581234567890")
    );
    assert_eq!(
        document.invoice_lines.invoice_line[2]
            .unit_price_tax_exclusive_amount
            .as_str(),
        "-20"
    );
    assert_eq!(decode(&encode(&document).unwrap()).unwrap(), document);
}

#[test]
fn rejects_wrong_header_and_field_count() {
    let document = decode(VERIFIED_PAYLOAD).unwrap();
    let sequence = encode_sequence(&document).unwrap();
    assert!(decode_sequence(&format!("{sequence}\textra")).is_err());

    let mut fields = sequence.split('\t').collect::<Vec<_>>();
    fields[2] = "4";
    assert!(decode_sequence(&fields.join("\t")).is_err());

    let wrong = encode_payload(
        Header {
            by_square_type: 2,
            version: 0,
            document_type: 1,
            reserved: 0,
        },
        &sequence,
    )
    .unwrap();
    assert!(matches!(decode(&wrong), Err(Error::Unsupported(_))));
}

#[test]
fn accepts_deployed_percent_point_vat_but_normalizes_it() {
    let document = decode(VERIFIED_PAYLOAD).unwrap();
    let sequence = encode_sequence(&document).unwrap();
    let mut fields = sequence.split('\t').collect::<Vec<_>>();
    fields[14] = "20";
    let decoded = decode_sequence(&fields.join("\t")).unwrap();
    assert_eq!(
        decoded.invoice_lines.invoice_line[0]
            .classified_tax_category
            .as_str(),
        "0.2"
    );
}

#[test]
fn chunks_four_lines_and_reassembles_out_of_order() {
    let lines = (1..=10).map(line).collect::<Vec<_>>();
    let chunks = chunk_invoice_lines("INV-1", lines.clone()).unwrap();
    assert_eq!(
        chunks
            .iter()
            .map(|item| item.invoice_lines.invoice_line.len())
            .collect::<Vec<_>>(),
        vec![4, 4, 2]
    );
    assert_eq!(
        chunks
            .iter()
            .map(|item| item.first_invoice_line_id.as_str())
            .collect::<Vec<_>>(),
        vec!["1", "5", "9"]
    );

    let merged = reassemble_invoice_lines(chunks.into_iter().rev().collect()).unwrap();
    assert_eq!(merged.invoice_id, "INV-1");
    assert_eq!(merged.invoice_lines, lines);
}

#[test]
fn rejects_gaps_and_mixed_invoice_ids() {
    let mut chunks = chunk_invoice_lines("INV-1", (1..=5).map(line).collect()).unwrap();
    chunks[1].first_invoice_line_id = "6".to_owned();
    assert_eq!(
        reassemble_invoice_lines(chunks).unwrap_err().field(),
        "FirstInvoiceLineID"
    );

    let mut chunks = chunk_invoice_lines("INV-1", (1..=5).map(line).collect()).unwrap();
    chunks[1].invoice_id = "INV-2".to_owned();
    assert_eq!(
        reassemble_invoice_lines(chunks).unwrap_err().field(),
        "InvoiceID"
    );
}

#[test]
fn encoded_chunks_round_trip_as_one_line_set() {
    let lines = (1..=9).map(line).collect::<Vec<_>>();
    let payloads = encode_chunks("INV-1", lines.clone()).unwrap();
    assert_eq!(payloads.len(), 3);
    let decoded = decode_chunks(&payloads).unwrap();
    assert_eq!(decoded.invoice_id, "INV-1");
    assert_eq!(decoded.invoice_lines.invoice_line, lines);
}

#[test]
fn transports_periods_partial_references_and_sanitized_text() {
    let mut item = line(1);
    item.item_name = Some("Monthly\tservice".to_owned());
    item.order_reference = Some(OrderReference {
        order_id: None,
        order_line_id: Some("OL-1".to_owned()),
    });
    item.delivery_note_reference = Some(DeliveryNoteReference {
        delivery_note_id: Some("DN-1".to_owned()),
        delivery_note_line_id: None,
    });
    item.period_from_date = Some(Date::new("2026-08-01").unwrap());
    item.period_to_date = Some(Date::new("2026-08-31").unwrap());
    let document = InvoiceItems::new("INV\t1", "1", InvoiceLines::new(vec![item])).unwrap();

    let sequence = encode_sequence(&document).unwrap();
    assert_eq!(sequence.split('\t').count(), 15);
    let decoded = decode_sequence(&sequence).unwrap();
    assert_eq!(decoded.invoice_id, "INV 1");
    assert_eq!(
        decoded.invoice_lines.invoice_line[0].item_name.as_deref(),
        Some("Monthly service")
    );
    assert_eq!(
        decoded.invoice_lines.invoice_line[0]
            .period_to_date
            .as_ref()
            .unwrap()
            .as_str(),
        "2026-08-31"
    );
}

#[test]
fn computed_fields_are_not_part_of_the_sequence() {
    let mut item = line(1);
    item.unit_price_tax_inclusive_amount = Some(Decimal::new("12").unwrap());
    item.line_tax_exclusive_amount = Some(Decimal::new("10").unwrap());
    item.line_tax_inclusive_amount = Some(Decimal::new("12").unwrap());
    item.line_tax_amount = Some(Decimal::new("2").unwrap());
    let document = InvoiceItems::new("INV-1", "1", InvoiceLines::new(vec![item])).unwrap();

    let decoded = decode_sequence(&encode_sequence(&document).unwrap()).unwrap();
    let line = &decoded.invoice_lines.invoice_line[0];
    assert!(line.unit_price_tax_inclusive_amount.is_none());
    assert!(line.line_tax_exclusive_amount.is_none());
    assert!(line.line_tax_inclusive_amount.is_none());
    assert!(line.line_tax_amount.is_none());
}

#[test]
fn calculates_computed_line_values_exactly() {
    let calculated = service_line().calculate();
    assert_eq!(calculated.unit_price_tax_inclusive_amount.as_str(), "12.24");
    assert_eq!(calculated.line_tax_exclusive_amount.as_str(), "25.5");
    assert_eq!(calculated.line_tax_inclusive_amount.as_str(), "30.6");
    assert_eq!(calculated.line_tax_amount.as_str(), "5.1");
}

#[test]
fn validates_choices_and_period_pair() {
    let mut invalid = service_line();
    invalid.item_ean_code = Some("8580000000000".to_owned());
    assert_eq!(invalid.validate().unwrap_err().field(), "InvoiceLine");

    let mut invalid = service_line();
    invalid.period_from_date = Some(Date::new("2026-08-01").unwrap());
    assert_eq!(invalid.validate().unwrap_err().field(), "InvoiceLine");
}

#[test]
fn aggregate_chunk_boundaries_have_exact_first_line_ids_and_unchanged_payloads() {
    for (count, expected_sizes, expected_first_ids) in [
        (1, vec![1], vec!["1"]),
        (4, vec![4], vec!["1"]),
        (5, vec![4, 1], vec!["1", "5"]),
        (9, vec![4, 4, 1], vec!["1", "5", "9"]),
    ] {
        let document = list("INV-BOUND", count);
        let blocks = chunk_invoice_items_list(&document).unwrap();

        assert_eq!(
            blocks
                .iter()
                .map(|block| block.invoice_lines.invoice_line.len())
                .collect::<Vec<_>>(),
            expected_sizes,
            "wrong block sizes for {count} lines"
        );
        assert_eq!(
            blocks
                .iter()
                .map(|block| block.first_invoice_line_id.as_str())
                .collect::<Vec<_>>(),
            expected_first_ids,
            "wrong first IDs for {count} lines"
        );

        let aggregate_payloads = document.encode_chunks().unwrap();
        assert_eq!(
            aggregate_payloads,
            encode_invoice_items_list(&document).unwrap()
        );
        assert_eq!(
            aggregate_payloads,
            encode_chunks(
                document.invoice_id.as_str(),
                document.invoice_lines.invoice_line.clone()
            )
            .unwrap(),
            "aggregate API changed the established block payload for {count} lines"
        );
        let reversed = aggregate_payloads.iter().rev().cloned().collect::<Vec<_>>();
        assert_eq!(
            decode_chunks(&reversed).unwrap(),
            document,
            "out-of-order round trip failed for {count} lines"
        );
    }
}

#[test]
fn reassembly_rejects_gaps_overlaps_duplicates_and_mixed_invoice_ids() {
    let blocks = chunk_invoice_items_list(&list("INV-A", 9)).unwrap();

    let mut gap = blocks.clone();
    gap[1].first_invoice_line_id = "6".to_owned();
    assert_eq!(
        reassemble_invoice_lines(gap).unwrap_err().field(),
        "FirstInvoiceLineID"
    );

    let mut overlap = blocks.clone();
    overlap[1].first_invoice_line_id = "4".to_owned();
    assert_eq!(
        reassemble_invoice_lines(overlap).unwrap_err().field(),
        "FirstInvoiceLineID"
    );

    let mut duplicate = blocks.clone();
    duplicate.push(blocks[0].clone());
    assert_eq!(
        reassemble_invoice_lines(duplicate).unwrap_err().field(),
        "FirstInvoiceLineID"
    );

    let mut mixed = blocks;
    mixed[2].invoice_id = "INV-B".to_owned();
    assert_eq!(
        reassemble_invoice_lines(mixed).unwrap_err().field(),
        "InvoiceID"
    );
}

#[test]
fn reassembly_rejects_malformed_first_line_ids() {
    for malformed in ["", "0", "-1", "one", "１２", "184467440737095516160"] {
        let mut block = chunk_invoice_items_list(&list("INV-A", 1))
            .unwrap()
            .pop()
            .unwrap();
        block.first_invoice_line_id = malformed.to_owned();
        let error = reassemble_invoice_lines(vec![block]).unwrap_err();
        assert_eq!(
            error.field(),
            "FirstInvoiceLineID",
            "accepted {malformed:?}"
        );
    }
}

#[test]
fn empty_block_set_and_empty_line_lists_are_rejected() {
    assert_eq!(reassemble_invoice_lines(Vec::new()).unwrap_err().field(), "InvoiceItems");
    assert_eq!(chunk_invoice_lines("INV-1", Vec::new()).unwrap_err().field(), "InvoiceLines");
    assert!(matches!(
        encode_chunks("INV-1", Vec::new()),
        Err(Error::InvalidInput { field: "InvoiceLines", .. })
    ));
    let empty: Vec<String> = Vec::new();
    assert!(matches!(
        decode_chunks(&empty),
        Err(Error::InvalidInput { field: "InvoiceItems", .. })
    ));
}

#[test]
fn chunking_then_reassembly_gives_back_the_lines() {
    for count in [1usize, 3, 4, 8, 13] {
        let lines = (1..=count).map(line).collect::<Vec<_>>();
        let blocks = chunk_invoice_lines("INV-R", lines.clone()).unwrap();
        assert_eq!(blocks.len(), (count + 3) / 4);
        let merged = reassemble_invoice_lines(blocks).unwrap();
        assert_eq!(merged.invoice_id, "INV-R");
        assert_eq!(merged.invoice_lines, lines);
    }
}
