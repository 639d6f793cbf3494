use bysqr::error::Error;
use bysqr::invoice::models::{Decimal, DocumentType, Percentage};
use bysqr::invoice_items::models::{InvoiceItems, InvoiceLine, InvoiceLines};
use bysqr::xml::{
    check_items_xml_root, insert_root_attributes, invoice_xml_type, json_family, source_format, xml_family,
    DocumentFamily, SourceFormat,
};

fn items() -> InvoiceItems {
    let line = InvoiceLine {
        order_reference: None,
        delivery_note_reference: None,
        item_name: Some("Item".to_owned()),
        item_ean_code: None,
        period_from_date: None,
        period_to_date: None,
        invoiced_quantity: Decimal::new("1").unwrap(),
        unit_price_tax_exclusive_amount: Decimal::new("10").unwrap(),
        unit_price_tax_inclusive_amount: None,
        unit_price_tax_amount: Decimal::new("2").unwrap(),
        line_tax_exclusive_amount: None,
        line_tax_inclusive_amount: None,
        line_tax_amount: None,
        classified_tax_category: Percentage::new("0.2").unwrap(),
    };
    InvoiceItems::new("FV1", "1", InvoiceLines::new(vec![line])).unwrap()
}

#[test]
fn tells_json_from_xml_by_the_first_character() {
    assert_eq!(source_format("  \n{\"a\": 1}"), Some(SourceFormat::Json));
    assert_eq!(source_format("\t<Pay/>"), Some(SourceFormat::Xml));
    assert_eq!(source_format("Pay"), None);
    assert_eq!(source_format("   "), None);
}

#[test]
fn picks_the_json_family_by_keys() {
    assert_eq!(json_family(true, true, true), DocumentFamily::Invoice);
    assert_eq!(json_family(false, true, true), DocumentFamily::InvoiceItems);
    assert_eq!(json_family(false, true, false), DocumentFamily::Pay);
    assert_eq!(json_family(false, false, false), DocumentFamily::Pay);
}

#[test]
fn picks_the_xml_family_by_root() {
    assert_eq!(xml_family("Pay").unwrap(), DocumentFamily::Pay);
    assert_eq!(xml_family("Invoice").unwrap(), DocumentFamily::Invoice);
    assert_eq!(xml_family("InvoiceItems").unwrap(), DocumentFamily::InvoiceItems);
    assert!(matches!(xml_family("InvoiceItemsList"), Err(Error::Unsupported(_))));
}

#[test]
fn reads_the_invoice_type_from_the_root() {
    assert_eq!(invoice_xml_type("Invoice", Some("xsi:ProformaInvoice")).unwrap(), DocumentType::ProformaInvoice);
    assert_eq!(invoice_xml_type("Invoice", Some("CreditNote")).unwrap(), DocumentType::CreditNote);
    assert_eq!(invoice_xml_type("Invoice", None).unwrap_err().field(), "DocumentType");
    assert_eq!(invoice_xml_type("Invoice", Some("xsi:Receipt")).unwrap_err().field(), "DocumentType");
    assert_eq!(invoice_xml_type("Pay", Some("Invoice")).unwrap_err().field(), "Invoice XML");
}

#[test]
fn checks_the_items_root() {
    assert!(check_items_xml_root("InvoiceItems", None).is_ok());
    assert!(check_items_xml_root("InvoiceItems", Some("bsqr:InvoiceItems")).is_ok());
    assert_eq!(check_items_xml_root("InvoiceItems", Some("Invoice")).unwrap_err().field(), "InvoiceItems XML");
    assert_eq!(check_items_xml_root("Invoice", None).unwrap_err().field(), "InvoiceItems XML");
}

#[test]
fn writes_attributes_into_the_root_start_tag() {
    assert_eq!(
        insert_root_attributes("<Invoice><A>1</A></Invoice>", "Invoice", " x=\"1\""),
        Some("<Invoice x=\"1\"><A>1</A></Invoice>".to_owned())
    );
    assert_eq!(insert_root_attributes("<Invoice", "Invoice", " x"), None);
    assert_eq!(insert_root_attributes("<Pay><A/></Pay>", "Invoice", " x"), None);
}

#[test]
fn items_xml_document_carries_namespaces_and_type() {
    let document = items().xml_document("<InvoiceItems><InvoiceID>FV1</InvoiceID></InvoiceItems>").unwrap();
    assert_eq!(
        document,
        "<InvoiceItems xmlns=\"http://www.bysquare.com/bysquare\" xmlns:xsi=\"http://www.w3.org/2001/XMLSchema-instance\" xsi:type=\"InvoiceItems\"><InvoiceID>FV1</InvoiceID></InvoiceItems>"
    );
    assert_eq!(items().xml_document("<Items/>").unwrap_err().field(), "InvoiceItems XML");
}
