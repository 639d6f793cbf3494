//! A by square document of any family, encoded to or decoded from its QR
//! payload according to the payload header.

use vstd::prelude::*;
use crate::codec::{decode_payload, fault_error, lemma_fault_decoded, pay_header, payload_decoded, payload_fault, uncompressed_payload, Header,
    MAX_UNCOMPRESSED_BYTES};
use crate::error::{text, Error, Result};
use crate::fields::split_tabs;
use crate::invoice::decode::{invoice_acceptable, invoice_decoded, invoice_header_ok};
use crate::invoice::encode::{invoice_header, invoice_sequence};
use crate::invoice::models::{document_type_of, invoice_data_error, DocumentType, Invoice};
use crate::invoice_items::decode::{items_acceptable, items_decoded};
use crate::invoice_items::encode::{items_header, items_sequence};
use crate::invoice_items::models::{lines_error, InvoiceItems};
use crate::pay::decoder::{pay_decodable, pay_decoded, pay_read};
use crate::pay::encoder::{pay_error, pay_sequence};
use crate::pay::models::Pay;

verus! {

/// A by square document decoded from data or a QR payload.
#[derive(Clone, Debug, PartialEq)]
pub enum Document {
    Pay(Pay),
    Invoice(Box<Invoice>),
    InvoiceItems(Box<InvoiceItems>),
}

/// The first rule of its family that a document breaks, if any.
pub open spec fn document_error(d: Document) -> Option<&'static str> {
    match d {
        Document::Pay(p) => pay_error(p),
        Document::Invoice(i) => invoice_data_error(i.data),
        Document::InvoiceItems(b) => lines_error(b.invoice_lines.invoice_line@),
    }
}

/// The header and sequence a document's payload carries.
pub open spec fn document_payload(d: Document) -> (Header, Seq<char>) {
    match d {
        Document::Pay(p) => (pay_header(), pay_sequence(p)),
        Document::Invoice(i) => (invoice_header(*i), invoice_sequence(*i)),
        Document::InvoiceItems(b) => (items_header(), items_sequence(*b)),
    }
}

/// The header of an INVOICE payload: type 1, version 0, reserved 0.
pub open spec fn invoice_family(h: Header) -> bool {
    h.by_square_type == 1 && h.version == 0 && h.reserved == 0
}

/// What a payload's header and sequence fields decode to.
pub open spec fn document_decoded(h: Header, raw: Seq<Seq<char>>, d: Document) -> bool {
    match d {
        Document::Pay(p) => h == pay_header() && pay_decoded(raw, p),
        Document::Invoice(i) => invoice_family(h) && document_type_of(h.document_type) == Some(
            i.document_type,
        ) && invoice_decoded(raw, i.document_type, *i),
        Document::InvoiceItems(b) => h == items_header() && items_decoded(raw, *b),
    }
}

impl Document {
    /// Encode this document into its Base32hex QR payload.
    pub fn encode(&self) -> (res: Result<String>)
        ensures
            document_error(*self) matches Some(f) ==> res matches Err(Error::InvalidInput { field, .. })
                && field == f,
            document_error(*self) is None && document_payload(*self).1.len() <= 550 && uncompressed_payload(
                document_payload(*self).1,
            ).len() <= MAX_UNCOMPRESSED_BYTES ==> res is Ok,
            res matches Ok(t) ==> payload_decoded(t@) == Some(document_payload(*self)),
            res matches Err(e) ==> e is InvalidInput || e is SequenceTooLong || e is PayloadTooLong,
    {
        match self {
            Document::Pay(pay) => crate::pay::encoder::encode(pay),
            Document::Invoice(invoice) => crate::invoice::encode::encode(invoice),
            Document::InvoiceItems(items) => crate::invoice_items::encode::encode(items),
        }
    }
}

fn decode_pay(sequence: &str) -> (res: Result<Document>)
    ensures
        res matches Ok(d) ==> document_decoded(pay_header(), split_tabs(sequence@), d),
        res matches Err(e) ==> e is InvalidSequence || e is InvalidPayload,
        res is Ok <==> pay_decodable(split_tabs(sequence@)),
        (exists|d: Pay| pay_read(split_tabs(sequence@), d)) && res is Err ==> res->Err_0 is InvalidPayload,
        res is Err && res->Err_0 is InvalidPayload ==> exists|d: Pay|
            pay_read(split_tabs(sequence@), d) && pay_error(d) is Some,
{
    match crate::pay::decoder::decode_sequence(sequence) {
        Ok(pay) => Ok(Document::Pay(pay)),
        Err(e) => Err(e),
    }
}

fn decode_invoice(header: Header, sequence: &str) -> (res: Result<Document>)
    requires
        invoice_family(header),
    ensures
        res matches Ok(d) ==> document_decoded(header, split_tabs(sequence@), d),
        document_type_of(header.document_type) is None ==> (res matches Err(e) && e is InvalidPayload),
        res matches Err(e) ==> e is InvalidSequence || e is InvalidPayload,
        document_type_of(header.document_type) is Some && invoice_acceptable(split_tabs(sequence@)) ==> res is Ok,
        document_type_of(header.document_type) is Some && !invoice_acceptable(split_tabs(sequence@)) ==> res matches Err(
            Error::InvalidSequence { .. },
        ),
        document_type_of(header.document_type) is None ==> res matches Err(Error::InvalidPayload(_)),
{
    let document_type = match DocumentType::from_classifier(header.document_type) {
        Ok(t) => t,
        Err(_) => return Err(Error::InvalidPayload(text("invalid INVOICE document type classifier"))),
    };
    match crate::invoice::decode::decode_sequence(sequence, document_type) {
        Ok(invoice) => Ok(Document::Invoice(Box::new(invoice))),
        Err(e) => Err(e),
    }
}

fn decode_items(sequence: &str) -> (res: Result<Document>)
    ensures
        res matches Ok(d) ==> document_decoded(items_header(), split_tabs(sequence@), d),
        res matches Err(e) ==> e is InvalidSequence,
        res is Ok <==> items_acceptable(split_tabs(sequence@)),
{
    match crate::invoice_items::decode::decode_sequence(sequence) {
        Ok(items) => Ok(Document::InvoiceItems(Box::new(items))),
        Err(e) => Err(e),
    }
}

/// Whether payload text decodes to a document of one of the three families:
/// a PAY, INVOICE or INVOICE ITEMS header over a sequence that its family
/// accepts.
pub open spec fn document_decodable(payload: Seq<char>) -> bool {
    match payload_decoded(payload) {
        Some((h, s)) => (h == pay_header() && pay_decodable(split_tabs(s))) || (invoice_header_ok(h)
            && invoice_acceptable(split_tabs(s))) || (h == items_header() && items_acceptable(split_tabs(s))),
        None => false,
    }
}

/// Decode a payload and dispatch it according to its by square header:
/// PAY, INVOICE of any document type, or INVOICE ITEMS.
pub fn decode(payload: &str) -> (res: Result<Document>)
    ensures
        res matches Ok(d) ==> exists|h: Header, s: Seq<char>|
            payload_decoded(payload@) == Some((h, s)) && document_decoded(h, split_tabs(s), d),
        res is Ok <==> document_decodable(payload@),
        payload_fault(payload@) matches Some(f) ==> (res matches Err(e) && fault_error(f, e)),
        payload_decoded(payload@) matches Some((h, s)) && h != pay_header() && !invoice_family(h)
            && h != items_header() ==> res matches Err(Error::Unsupported(_)),
        payload_decoded(payload@) matches Some((h, s)) && invoice_family(h) && document_type_of(
            h.document_type,
        ) is None ==> res matches Err(Error::InvalidPayload(_)),
        (payload_decoded(payload@) matches Some((h, s)) && h == pay_header() && (exists|d: Pay|
            pay_read(split_tabs(s), d))) ==> (res is Err ==> res->Err_0 is InvalidPayload),
        (payload_decoded(payload@) matches Some((h, s)) && h == pay_header() && !(exists|d: Pay|
            pay_read(split_tabs(s), d))) ==> res matches Err(Error::InvalidSequence { .. }),
        (payload_decoded(payload@) matches Some((h, s)) && invoice_header_ok(h) && !invoice_acceptable(
            split_tabs(s),
        )) ==> res matches Err(Error::InvalidSequence { .. }),
        (payload_decoded(payload@) matches Some((h, s)) && h == items_header() && !items_acceptable(split_tabs(s)))
            ==> res matches Err(Error::InvalidSequence { .. }),
{
    let decoded = match decode_payload(payload) {
        Ok(d) => d,
        Err(e) => {
            proof {
                lemma_fault_decoded(payload@);
            }
            return Err(e);
        },
    };
    let header = decoded.header;
    if header.by_square_type == 0 && header.version == 0 && header.document_type == 0
        && header.reserved == 0 {
        assert(header == pay_header());
        return decode_pay(decoded.sequence.as_str());
    }
    if header.by_square_type == 1 && header.version == 0 && header.reserved == 0 {
        return decode_invoice(header, decoded.sequence.as_str());
    }
    if header.by_square_type == 2 && header.version == 0 && header.document_type == 0
        && header.reserved == 0 {
        assert(header == items_header());
        return decode_items(decoded.sequence.as_str());
    }
    Err(Error::Unsupported(text("unsupported by square header")))
}

} // verus!
