//! INVOICE by square sequence and payload encoding.

use vstd::prelude::*;
use super::models::{
    dashless, invoice_data_error, document_type_classifier, CustomerParty, Date, Decimal, Invoice,
    InvoiceData, SingleInvoiceLine, SupplierParty, TaxCategorySummary,
};
use crate::codec::{encode_payload, payload_decoded, uncompressed_payload, Header, MAX_UNCOMPRESSED_BYTES};
use crate::error::{Error, Result};
use crate::fields::{char_count, join_fields, joined, sanitized, sanitized_text, texts};
use crate::numeral::{i64_string, int_text, nat_text, u64_string};
use crate::text::{chars_of, string_from_chars};

verus! {

/// Maximum number of Unicode characters in an INVOICE QR sequence.
pub const MAX_SEQUENCE_CHARACTERS: usize = 550;

/// Length policy for the uncompressed sequence.
#[derive(Clone, Copy, Debug, PartialEq, Eq, Structural)]
pub enum SequenceLimit {
    /// Enforce the 550-character limit required for a reliably readable QR code.
    QrCode,
    /// Disable the QR-oriented character limit for non-QR transports; the
    /// payload's 16-bit uncompressed byte limit still applies.
    Unbounded,
}

impl Default for SequenceLimit {
    fn default() -> (r: Self)
        ensures
            r == SequenceLimit::QrCode,
    {
        SequenceLimit::QrCode
    }
}

/// Optional user text as transported: empty when absent, tabs as spaces.
pub open spec fn optional_field(value: Option<String>) -> Seq<char> {
    match value {
        Some(v) => sanitized_text(v@),
        None => seq![],
    }
}

/// An optional date as transported: `YYYYMMDD`, or empty.
pub open spec fn optional_date_field(value: Option<Date>) -> Seq<char> {
    match value {
        Some(d) => dashless(d@),
        None => seq![],
    }
}

/// An optional decimal as transported: its canonical text, or empty.
pub open spec fn optional_decimal_field(value: Option<Decimal>) -> Seq<char> {
    match value {
        Some(d) => d@,
        None => seq![],
    }
}

/// The header fields of the sequence, up to the reference exchange rate.
pub open spec fn header_fields(d: InvoiceData) -> Seq<Seq<char>> {
    seq![
        sanitized_text(d.invoice_id@),
        dashless(d.issue_date@),
        optional_date_field(d.tax_point_date),
        optional_field(d.order_id),
        optional_field(d.delivery_note_id),
        d.local_currency_code@,
        match d.foreign_currency_code {
            Some(c) => c@,
            None => seq![],
        },
        optional_decimal_field(d.curr_rate),
        optional_decimal_field(d.reference_curr_rate),
    ]
}

/// The supplier fields of the sequence.
pub open spec fn supplier_fields(p: SupplierParty) -> Seq<Seq<char>> {
    let a = p.postal_address;
    seq![
        sanitized_text(p.party_name@),
        optional_field(p.company_tax_id),
        optional_field(p.company_vat_id),
        optional_field(p.company_register_id),
        sanitized_text(a.street_name@),
        optional_field(a.building_number),
        sanitized_text(a.city_name@),
        sanitized_text(a.postal_zone@),
        optional_field(a.state),
        a.country@,
        match p.contact {
            Some(c) => optional_field(c.name),
            None => seq![],
        },
        match p.contact {
            Some(c) => optional_field(c.telephone),
            None => seq![],
        },
        match p.contact {
            Some(c) => optional_field(c.email),
            None => seq![],
        },
    ]
}

/// The customer fields of the sequence.
pub open spec fn customer_fields(p: CustomerParty) -> Seq<Seq<char>> {
    seq![
        sanitized_text(p.party_name@),
        optional_field(p.company_tax_id),
        optional_field(p.company_vat_id),
        optional_field(p.company_register_id),
        optional_field(p.party_identification),
    ]
}

/// The seven single-line fields of the sequence; all empty without a line.
pub open spec fn line_fields(line: Option<SingleInvoiceLine>) -> Seq<Seq<char>> {
    match line {
        Some(l) => seq![
            optional_field(l.order_line_id),
            optional_field(l.delivery_note_line_id),
            optional_field(l.item_name),
            optional_field(l.item_ean_code),
            optional_date_field(l.period_from_date),
            optional_date_field(l.period_to_date),
            l.invoiced_quantity@,
        ],
        None => Seq::new(7, |i: int| Seq::<char>::empty()),
    }
}

/// The five transported fields of a tax category summary.
pub open spec fn summary_fields(s: TaxCategorySummary) -> Seq<Seq<char>> {
    seq![
        s.classified_tax_category@,
        s.tax_exclusive_amount@,
        s.tax_amount@,
        s.already_claimed_tax_exclusive_amount@,
        s.already_claimed_tax_amount@,
    ]
}

/// The fields of the tax category summaries, in order.
pub open spec fn summaries_fields(ss: Seq<TaxCategorySummary>) -> Seq<Seq<char>>
    decreases ss.len(),
{
    if ss.len() == 0 {
        seq![]
    } else {
        summaries_fields(ss.drop_last()) + summary_fields(ss.last())
    }
}

/// The fields of the summaries: five per summary, in order.
pub proof fn lemma_summaries_fields_shape(ss: Seq<TaxCategorySummary>)
    ensures
        summaries_fields(ss).len() == 5 * ss.len(),
        forall|k: int|
            0 <= k < ss.len() ==> summaries_fields(ss).subrange(5 * k, 5 * k + 5) == summary_fields(
                #[trigger] ss[k],
            ),
    decreases ss.len(),
{
    if ss.len() > 0 {
        let init = ss.drop_last();
        lemma_summaries_fields_shape(init);
        let all = summaries_fields(ss);
        assert forall|k: int| 0 <= k < ss.len() implies all.subrange(5 * k, 5 * k + 5) == summary_fields(
            #[trigger] ss[k],
        ) by {
            if k < ss.len() - 1 {
                assert(init[k] == ss[k]);
                assert(all.subrange(5 * k, 5 * k + 5) =~= summaries_fields(init).subrange(5 * k, 5 * k + 5));
            } else {
                assert(all.subrange(5 * k, 5 * k + 5) =~= summary_fields(ss.last()));
            }
        }
    }
}

/// Every field of an INVOICE sequence, in the specification's fixed order:
/// 40 fields and five more per tax category summary. Computed amounts are
/// not transported.
pub open spec fn invoice_fields(invoice: Invoice) -> Seq<Seq<char>> {
    let d = invoice.data;
    let ss = d.tax_category_summaries.tax_category_summary@;
    header_fields(d) + supplier_fields(d.supplier_party) + customer_fields(d.customer_party) + seq![
        match d.number_of_invoice_lines {
            Some(v) => int_text(v as int),
            None => seq![],
        },
        optional_field(d.invoice_description),
    ] + line_fields(d.single_invoice_line) + seq![nat_text(ss.len())] + summaries_fields(ss)
        + seq![
        d.monetary_summary.payable_rounding_amount@,
        d.monetary_summary.paid_deposits_amount@,
        match d.payment_means {
            Some(m) => nat_text(m@ as nat),
            None => seq![],
        },
    ]
}

/// The INVOICE sequence of a document: its fields joined by tabs.
pub open spec fn invoice_sequence(invoice: Invoice) -> Seq<char> {
    joined(invoice_fields(invoice))
}

/// The payload header of an INVOICE document.
pub open spec fn invoice_header(invoice: Invoice) -> Header {
    Header {
        by_square_type: 1,
        version: 0,
        document_type: document_type_classifier(invoice.document_type),
        reserved: 0,
    }
}

fn push_field(fields: &mut Vec<String>, value: String)
    ensures
        texts(final(fields)@) == texts(old(fields)@).push(value@),
{
    let ghost before = fields@;
    fields.push(value);
    assert(texts(fields@) =~= texts(before).push(value@));
}

fn optional_text(value: &Option<String>) -> (r: String)
    ensures
        r@ == optional_field(*value),
{
    match value {
        Some(v) => sanitized(v.as_str()),
        None => String::new(),
    }
}

fn compact_date(date: &Date) -> (r: String)
    ensures
        r@ == dashless(date@),
{
    let chars = chars_of(date.as_str());
    let mut out: Vec<char> = Vec::new();
    let mut i: usize = 0;
    assert(chars@.take(0) =~= Seq::<char>::empty());
    while i < chars.len()
        invariant
            i <= chars@.len(),
            chars@ == date@,
            out@ == dashless(chars@.take(i as int)),
        decreases chars.len() - i,
    {
        assert(chars@.take(i + 1).drop_last() =~= chars@.take(i as int));
        if chars[i] != '-' {
            out.push(chars[i]);
        }
        i = i + 1;
    }
    assert(chars@.take(chars@.len() as int) =~= chars@);
    string_from_chars(out.as_slice())
}

fn optional_date(value: &Option<Date>) -> (r: String)
    ensures
        r@ == optional_date_field(*value),
{
    match value {
        Some(d) => compact_date(d),
        None => String::new(),
    }
}

fn optional_decimal(value: &Option<Decimal>) -> (r: String)
    ensures
        r@ == optional_decimal_field(*value),
{
    match value {
        Some(d) => d.as_str().to_owned(),
        None => String::new(),
    }
}

fn push_header(fields: &mut Vec<String>, d: &InvoiceData)
    ensures
        texts(final(fields)@) == texts(old(fields)@) + header_fields(*d),
{
    let ghost start = texts(fields@);
    push_field(fields, sanitized(d.invoice_id.as_str()));
    push_field(fields, compact_date(&d.issue_date));
    push_field(fields, optional_date(&d.tax_point_date));
    push_field(fields, optional_text(&d.order_id));
    push_field(fields, optional_text(&d.delivery_note_id));
    push_field(fields, d.local_currency_code.as_str().to_owned());
    let foreign = match &d.foreign_currency_code {
        Some(c) => c.as_str().to_owned(),
        None => String::new(),
    };
    push_field(fields, foreign);
    push_field(fields, optional_decimal(&d.curr_rate));
    push_field(fields, optional_decimal(&d.reference_curr_rate));
    assert(texts(fields@) =~= start + header_fields(*d));
}

fn push_supplier(fields: &mut Vec<String>, p: &SupplierParty)
    ensures
        texts(final(fields)@) == texts(old(fields)@) + supplier_fields(*p),
{
    let ghost start = texts(fields@);
    let a = &p.postal_address;
    push_field(fields, sanitized(p.party_name.as_str()));
    push_field(fields, optional_text(&p.company_tax_id));
    push_field(fields, optional_text(&p.company_vat_id));
    push_field(fields, optional_text(&p.company_register_id));
    push_field(fields, sanitized(a.street_name.as_str()));
    push_field(fields, optional_text(&a.building_number));
    push_field(fields, sanitized(a.city_name.as_str()));
    push_field(fields, sanitized(a.postal_zone.as_str()));
    push_field(fields, optional_text(&a.state));
    push_field(fields, a.country.as_str().to_owned());
    match &p.contact {
        Some(c) => {
            push_field(fields, optional_text(&c.name));
            push_field(fields, optional_text(&c.telephone));
            push_field(fields, optional_text(&c.email));
        },
        None => {
            push_field(fields, String::new());
            push_field(fields, String::new());
            push_field(fields, String::new());
        },
    }
    assert(texts(fields@) =~= start + supplier_fields(*p));
}

fn push_customer(fields: &mut Vec<String>, p: &CustomerParty)
    ensures
        texts(final(fields)@) == texts(old(fields)@) + customer_fields(*p),
{
    let ghost start = texts(fields@);
    push_field(fields, sanitized(p.party_name.as_str()));
    push_field(fields, optional_text(&p.company_tax_id));
    push_field(fields, optional_text(&p.company_vat_id));
    push_field(fields, optional_text(&p.company_register_id));
    push_field(fields, optional_text(&p.party_identification));
    assert(texts(fields@) =~= start + customer_fields(*p));
}

fn push_line(fields: &mut Vec<String>, line: &Option<SingleInvoiceLine>)
    ensures
        texts(final(fields)@) == texts(old(fields)@) + line_fields(*line),
{
    let ghost start = texts(fields@);
    match line {
        Some(l) => {
            push_field(fields, optional_text(&l.order_line_id));
            push_field(fields, optional_text(&l.delivery_note_line_id));
            push_field(fields, optional_text(&l.item_name));
            push_field(fields, optional_text(&l.item_ean_code));
            push_field(fields, optional_date(&l.period_from_date));
            push_field(fields, optional_date(&l.period_to_date));
            push_field(fields, l.invoiced_quantity.as_str().to_owned());
        },
        None => {
            let mut k: usize = 0;
            while k < 7
                invariant
                    k <= 7,
                    texts(fields@) == start + Seq::new(k as nat, |i: int| Seq::<char>::empty()),
                decreases 7 - k,
            {
                push_field(fields, String::new());
                k = k + 1;
                assert(texts(fields@) =~= start + Seq::new(k as nat, |i: int| Seq::<char>::empty()));
            }
        },
    }
    assert(texts(fields@) =~= start + line_fields(*line));
}

fn push_summaries(fields: &mut Vec<String>, summaries: &Vec<TaxCategorySummary>)
    ensures
        texts(final(fields)@) == texts(old(fields)@) + summaries_fields(summaries@),
{
    let ghost start = texts(fields@);
    let mut i: usize = 0;
    assert(summaries@.take(0) =~= Seq::<TaxCategorySummary>::empty());
    assert(start + summaries_fields(summaries@.take(0)) =~= start);
    while i < summaries.len()
        invariant
            i <= summaries@.len(),
            texts(fields@) == start + summaries_fields(summaries@.take(i as int)),
        decreases summaries.len() - i,
    {
        let s = &summaries[i];
        let ghost before = texts(fields@);
        push_field(fields, s.classified_tax_category.as_str().to_owned());
        push_field(fields, s.tax_exclusive_amount.as_str().to_owned());
        push_field(fields, s.tax_amount.as_str().to_owned());
        push_field(fields, s.already_claimed_tax_exclusive_amount.as_str().to_owned());
        push_field(fields, s.already_claimed_tax_amount.as_str().to_owned());
        assert(texts(fields@) =~= before + summary_fields(*s));
        assert(summaries@.take(i + 1).drop_last() =~= summaries@.take(i as int));
        i = i + 1;
    }
    assert(summaries@.take(summaries@.len() as int) =~= summaries@);
}

/// The fields of an INVOICE sequence.
fn invoice_field_list(invoice: &Invoice) -> (r: Vec<String>)
    ensures
        texts(r@) == invoice_fields(*invoice),
{
    let d = &invoice.data;
    let summaries = &d.tax_category_summaries.tax_category_summary;
    let mut fields: Vec<String> = Vec::new();
    push_header(&mut fields, d);
    push_supplier(&mut fields, &d.supplier_party);
    push_customer(&mut fields, &d.customer_party);
    let ghost middle = texts(fields@);
    let lines = match d.number_of_invoice_lines {
        Some(v) => i64_string(v),
        None => String::new(),
    };
    push_field(&mut fields, lines);
    push_field(&mut fields, optional_text(&d.invoice_description));
    push_line(&mut fields, &d.single_invoice_line);
    push_field(&mut fields, u64_string(summaries.len() as u64));
    push_summaries(&mut fields, summaries);
    push_field(&mut fields, d.monetary_summary.payable_rounding_amount.as_str().to_owned());
    push_field(&mut fields, d.monetary_summary.paid_deposits_amount.as_str().to_owned());
    let means = match d.payment_means {
        Some(m) => u64_string(m.classifier() as u64),
        None => String::new(),
    };
    push_field(&mut fields, means);
    assert(texts(fields@) =~= invoice_fields(*invoice));
    fields
}

/// Serialize an INVOICE document into its tab-delimited sequence under the
/// given length policy.
///
/// A document that breaks a model rule is rejected with that rule's field;
/// under [`SequenceLimit::QrCode`] a sequence of more than 550 characters is
/// rejected with its length.
pub fn encode_sequence_with_limit(invoice: &Invoice, limit: SequenceLimit) -> (res: Result<String>)
    ensures
        invoice_data_error(invoice.data) matches Some(f) ==> res matches Err(
            Error::InvalidInput { field, .. },
        ) && field == f,
        invoice_data_error(invoice.data) is None && limit == SequenceLimit::QrCode
            && invoice_sequence(*invoice).len() > 550 ==> (res matches Err(
            Error::SequenceTooLong { actual, maximum },
        ) && actual == invoice_sequence(*invoice).len() && maximum == 550),
        invoice_data_error(invoice.data) is None && (limit == SequenceLimit::Unbounded
            || invoice_sequence(*invoice).len() <= 550) ==> res is Ok,
        res matches Ok(s) ==> s@ == invoice_sequence(*invoice),
{
    match invoice.validate() {
        Ok(()) => {},
        Err(error) => {
            return Err(Error::invalid(error.field(), error.message()));
        },
    }
    let fields = invoice_field_list(invoice);
    let sequence = join_fields(&fields);
    let count = char_count(sequence.as_str());
    if limit == SequenceLimit::QrCode && count > MAX_SEQUENCE_CHARACTERS {
        return Err(Error::SequenceTooLong { actual: count, maximum: MAX_SEQUENCE_CHARACTERS });
    }
    Ok(sequence)
}

/// Serialize an INVOICE document into its sequence under the QR limit.
pub fn encode_sequence(invoice: &Invoice) -> (res: Result<String>)
    ensures
        invoice_data_error(invoice.data) matches Some(f) ==> res matches Err(
            Error::InvalidInput { field, .. },
        ) && field == f,
        invoice_data_error(invoice.data) is None && invoice_sequence(*invoice).len() > 550
            ==> (res matches Err(Error::SequenceTooLong { actual, maximum }) && actual
            == invoice_sequence(*invoice).len() && maximum == 550),
        invoice_data_error(invoice.data) is None && invoice_sequence(*invoice).len() <= 550
            ==> res is Ok,
        res matches Ok(s) ==> s@ == invoice_sequence(*invoice),
{
    encode_sequence_with_limit(invoice, SequenceLimit::QrCode)
}

/// Encode an INVOICE document into its Base32hex payload under the given
/// length policy: the sequence, compressed behind the INVOICE header whose
/// document type is the document's classifier.
pub fn encode_with_limit(invoice: &Invoice, limit: SequenceLimit) -> (res: Result<String>)
    ensures
        invoice_data_error(invoice.data) matches Some(f) ==> res matches Err(
            Error::InvalidInput { field, .. },
        ) && field == f,
        invoice_data_error(invoice.data) is None && limit == SequenceLimit::QrCode
            && invoice_sequence(*invoice).len() > 550 ==> (res matches Err(
            Error::SequenceTooLong { actual, maximum },
        ) && actual == invoice_sequence(*invoice).len() && maximum == 550),
        invoice_data_error(invoice.data) is None && (limit == SequenceLimit::Unbounded
            || invoice_sequence(*invoice).len() <= 550) && uncompressed_payload(
            invoice_sequence(*invoice),
        ).len() > MAX_UNCOMPRESSED_BYTES ==> res matches Err(Error::PayloadTooLong(_)),
        invoice_data_error(invoice.data) is None && (limit == SequenceLimit::Unbounded
            || invoice_sequence(*invoice).len() <= 550) && uncompressed_payload(
            invoice_sequence(*invoice),
        ).len() <= MAX_UNCOMPRESSED_BYTES ==> res is Ok,
        res matches Ok(t) ==> payload_decoded(t@) == Some(
            (invoice_header(*invoice), invoice_sequence(*invoice)),
        ),
        res matches Err(e) ==> e is InvalidInput || e is SequenceTooLong || e is PayloadTooLong,
{
    let sequence = encode_sequence_with_limit(invoice, limit)?;
    let header = Header {
        by_square_type: 1,
        version: 0,
        document_type: invoice.document_type.classifier(),
        reserved: 0,
    };
    encode_payload(header, sequence.as_str())
}

/// Encode an INVOICE document into its Base32hex payload under the QR limit.
pub fn encode(invoice: &Invoice) -> (res: Result<String>)
    ensures
        invoice_data_error(invoice.data) matches Some(f) ==> res matches Err(
            Error::InvalidInput { field, .. },
        ) && field == f,
        invoice_data_error(invoice.data) is None && invoice_sequence(*invoice).len() > 550
            ==> (res matches Err(Error::SequenceTooLong { actual, maximum }) && actual
            == invoice_sequence(*invoice).len() && maximum == 550),
        invoice_data_error(invoice.data) is None && invoice_sequence(*invoice).len() <= 550
            && uncompressed_payload(invoice_sequence(*invoice)).len() > MAX_UNCOMPRESSED_BYTES
            ==> res matches Err(Error::PayloadTooLong(_)),
        invoice_data_error(invoice.data) is None && invoice_sequence(*invoice).len() <= 550
            && uncompressed_payload(invoice_sequence(*invoice)).len() <= MAX_UNCOMPRESSED_BYTES
            ==> res is Ok,
        res matches Ok(t) ==> payload_decoded(t@) == Some(
            (invoice_header(*invoice), invoice_sequence(*invoice)),
        ),
        res matches Err(e) ==> e is InvalidInput || e is SequenceTooLong || e is PayloadTooLong,
{
    encode_with_limit(invoice, SequenceLimit::QrCode)
}

} // verus!
