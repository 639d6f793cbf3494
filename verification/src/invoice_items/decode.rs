//! INVOICE ITEMS by square payload and sequence decoding, one block or a
//! complete set of blocks.

use vstd::prelude::*;
use super::encode::{items_header, reassemble_invoice_lines, reassembly};
use super::models::{
    line_error, lines_error, DeliveryNoteReference, InvoiceItems, InvoiceItemsList, InvoiceLine, InvoiceLines,
    OrderReference,
};
use crate::codec::{decode_payload, fault_error, lemma_fault_decoded, payload_decoded, payload_fault};
use crate::decimal::{decimal_canonical, digits_value};
use crate::error::{text, Error, Result};
use crate::fields::{lemma_split_joined, split_tabs, texts};
use crate::invoice::decode::{
    advanced, date_transportable, decimal_decoded, decimal_transportable, lemma_decimal_field,
    lemma_optional_date_field, lemma_optional_text_field, lemma_vat_field, next_optional, next_text,
    opt_date, opt_text, optional_date_acceptable, optional_date_decoded, optional_decoded,
    parse_decimal, parse_optional_date, parse_vat_percentage, text_transportable, vat_acceptable,
    vat_decoded, window,
};
use crate::decimal::is_canonical_decimal;
use crate::fields::{lemma_sanitized_identity, tab_free};
use crate::invoice::encode::optional_field;
use crate::invoice::models::percentage_text;
use crate::numeral::is_numeral;
use crate::reader::{field_at, parse_unsigned, SequenceReader};
use super::encode::{items_fields, items_sequence, lemma_lines_fields_shape, line_fields, lines_fields};

verus! {

/// A reference made of two optional fields: present when either is.
pub open spec fn reference_decoded(first: Seq<char>, second: Seq<char>, a: Option<String>, b: Option<String>, present: bool) -> bool {
    &&& present == (first.len() > 0 || second.len() > 0)
    &&& optional_decoded(first, a)
    &&& optional_decoded(second, b)
}

/// The twelve transported fields of one line; computed amounts are absent.
pub open spec fn item_line_decoded(raw: Seq<Seq<char>>, l: InvoiceLine) -> bool {
    &&& match l.order_reference {
        Some(r) => reference_decoded(raw[0], raw[1], r.order_id, r.order_line_id, true),
        None => raw[0].len() == 0 && raw[1].len() == 0,
    }
    &&& match l.delivery_note_reference {
        Some(r) => reference_decoded(raw[2], raw[3], r.delivery_note_id, r.delivery_note_line_id, true),
        None => raw[2].len() == 0 && raw[3].len() == 0,
    }
    &&& optional_decoded(raw[4], l.item_name)
    &&& optional_decoded(raw[5], l.item_ean_code)
    &&& optional_date_decoded(raw[6], l.period_from_date)
    &&& optional_date_decoded(raw[7], l.period_to_date)
    &&& decimal_decoded(raw[8], l.invoiced_quantity)
    &&& decimal_decoded(raw[9], l.unit_price_tax_exclusive_amount)
    &&& decimal_decoded(raw[10], l.unit_price_tax_amount)
    &&& vat_decoded(raw[11], l.classified_tax_category)
    &&& l.unit_price_tax_inclusive_amount is None
    &&& l.line_tax_exclusive_amount is None
    &&& l.line_tax_inclusive_amount is None
    &&& l.line_tax_amount is None
}

/// Whether the twelve fields of a line can be read: dates, decimals and the
/// VAT rate in a form the decoder accepts.
pub open spec fn item_line_parsable(raw: Seq<Seq<char>>) -> bool {
    &&& optional_date_acceptable(raw[6])
    &&& optional_date_acceptable(raw[7])
    &&& decimal_canonical(raw[8], false) is Some
    &&& decimal_canonical(raw[9], false) is Some
    &&& decimal_canonical(raw[10], false) is Some
    &&& vat_acceptable(raw[11])
}

/// Whether a line's fields can be read and give a line that keeps the line
/// rules: exactly one of item name and EAN code, and both period dates or
/// neither.
pub open spec fn item_line_acceptable(raw: Seq<Seq<char>>) -> bool {
    &&& item_line_parsable(raw)
    &&& (raw[4].len() > 0) != (raw[5].len() > 0)
    &&& (raw[6].len() > 0) == (raw[7].len() > 0)
}

/// Whether the fields of a block decode: a positive line count and exactly
/// twelve acceptable fields per line.
pub open spec fn items_acceptable(raw: Seq<Seq<char>>) -> bool {
    &&& raw.len() >= 3
    &&& is_numeral(raw[2])
    &&& 0 < digits_value(raw[2]) <= u64::MAX
    &&& raw.len() == 3 + 12 * digits_value(raw[2])
    &&& forall|j: int|
        0 <= j < digits_value(raw[2]) ==> item_line_acceptable(
            #[trigger] raw.subrange(3 + 12 * j, 15 + 12 * j),
        )
}

/// What a block's fields decode to: the invoice and first line numbers as
/// written, a positive line count, exactly twelve fields per line, and a
/// block that keeps the line rules.
pub open spec fn items_decoded(raw: Seq<Seq<char>>, d: InvoiceItems) -> bool {
    let lines = d.invoice_lines.invoice_line@;
    &&& raw.len() == 3 + 12 * lines.len()
    &&& d.invoice_id@ == raw[0]
    &&& d.first_invoice_line_id@ == raw[1]
    &&& is_numeral(raw[2])
    &&& digits_value(raw[2]) == lines.len()
    &&& lines.len() > 0
    &&& forall|j: int|
        0 <= j < lines.len() ==> item_line_decoded(
            #[trigger] raw.subrange(3 + 12 * j, 15 + 12 * j),
            lines[j],
        )
    &&& lines_error(lines) is None
}

fn parse_reference(reader: &mut SequenceReader, first: &'static str, second: &'static str) -> (r: Result<
    (Option<String>, Option<String>),
>)
    requires
        old(reader).position <= old(reader).fields@.len(),
    ensures
        r matches Ok((a, b)) ==> advanced(*old(reader), *final(reader), 2) && optional_decoded(
            field_at(*old(reader), old(reader).position as int),
            a,
        ) && optional_decoded(field_at(*old(reader), old(reader).position + 1), b),
        old(reader).position + 2 <= old(reader).fields@.len() ==> r is Ok,
        final(reader).position <= final(reader).fields@.len(),
        final(reader).fields@ == old(reader).fields@,
        r matches Err(e) ==> e is InvalidSequence,
{
    let a = next_optional(reader, first)?;
    let b = next_optional(reader, second)?;
    Ok((a, b))
}

fn parse_item_line(reader: &mut SequenceReader) -> (r: Result<InvoiceLine>)
    requires
        old(reader).position <= old(reader).fields@.len(),
    ensures
        r matches Ok(l) ==> advanced(*old(reader), *final(reader), 12) && item_line_decoded(
            window(*old(reader), old(reader).position as int, 12),
            l,
        ),
        old(reader).position + 12 <= old(reader).fields@.len() && item_line_parsable(
            window(*old(reader), old(reader).position as int, 12),
        ) ==> r is Ok,
        r is Ok ==> item_line_parsable(window(*old(reader), old(reader).position as int, 12)),
        final(reader).position <= final(reader).fields@.len(),
        final(reader).fields@ == old(reader).fields@,
        r matches Err(e) ==> e is InvalidSequence,
{
    let ghost start = *reader;
    let ghost p0 = reader.position as int;
    proof {
        let raw = window(start, p0, 12);
        if p0 + 12 <= start.fields@.len() {
            assert forall|k: int| 0 <= k < 12 implies raw[k] == field_at(start, p0 + k) by {}
        }
    }
    let (order_id, order_line_id) = parse_reference(reader, "OrderID", "OrderLineID")?;
    let (delivery_note_id, delivery_note_line_id) = parse_reference(
        reader,
        "DeliveryNoteID",
        "DeliveryNoteLineID",
    )?;
    let item_name = next_optional(reader, "ItemName")?;
    let item_ean_code = next_optional(reader, "ItemEANCode")?;
    let period_from_date = parse_optional_date(reader, "PeriodFromDate")?;
    let period_to_date = parse_optional_date(reader, "PeriodToDate")?;
    let invoiced_quantity = parse_decimal(reader, "InvoicedQuantity")?;
    let unit_price_tax_exclusive_amount = parse_decimal(reader, "UnitPriceTaxExclusiveAmount")?;
    let unit_price_tax_amount = parse_decimal(reader, "UnitPriceTaxAmount")?;
    let classified_tax_category = parse_vat_percentage(reader, "ClassifiedTaxCategory")?;
    let order_reference = if order_id.is_some() || order_line_id.is_some() {
        Some(OrderReference { order_id, order_line_id })
    } else {
        None
    };
    let delivery_note_reference = if delivery_note_id.is_some() || delivery_note_line_id.is_some() {
        Some(DeliveryNoteReference { delivery_note_id, delivery_note_line_id })
    } else {
        None
    };
    let line = InvoiceLine {
        order_reference,
        delivery_note_reference,
        item_name,
        item_ean_code,
        period_from_date,
        period_to_date,
        invoiced_quantity,
        unit_price_tax_exclusive_amount,
        unit_price_tax_inclusive_amount: None,
        unit_price_tax_amount,
        line_tax_exclusive_amount: None,
        line_tax_inclusive_amount: None,
        line_tax_amount: None,
        classified_tax_category,
    };
    proof {
        let raw = window(start, p0, 12);
        assert forall|k: int| 0 <= k < 12 implies raw[k] == field_at(start, p0 + k) by {}
    }
    Ok(line)
}

/// Decode and validate the tab-delimited sequence of one INVOICE ITEMS
/// block.
pub fn decode_sequence(sequence: &str) -> (res: Result<InvoiceItems>)
    ensures
        res matches Ok(d) ==> items_decoded(split_tabs(sequence@), d),
        res is Ok <==> items_acceptable(split_tabs(sequence@)),
        res matches Err(e) ==> e is InvalidSequence,
{
    let mut reader = SequenceReader::new(sequence);
    let ghost raw = texts(reader.fields@);
    let ghost start = reader;
    let invoice_id = next_text(&mut reader, "InvoiceID")?;
    let first_invoice_line_id = next_text(&mut reader, "FirstInvoiceLineID")?;
    let count_field = reader.next("InvoiceLines")?;
    let count = parse_unsigned(count_field.as_str(), "InvoiceLines", reader.position, 18446744073709551615)?;
    if count == 0 {
        return Err(reader.invalid("InvoiceLines", "must be a positive ASCII integer"));
    }
    let mut lines: Vec<InvoiceLine> = Vec::new();
    let mut k: u64 = 0;
    while k < count
        invariant
            k <= count,
            reader.fields@ == start.fields@,
            raw == texts(start.fields@),
            reader.position == 3 + 12 * k,
            reader.position <= reader.fields@.len(),
            lines@.len() == k,
            count == digits_value(raw[2]),
            is_numeral(raw[2]),
            raw == split_tabs(sequence@),
            forall|j: int|
                0 <= j < k ==> item_line_decoded(
                    #[trigger] raw.subrange(3 + 12 * j, 15 + 12 * j),
                    lines@[j],
                ) && item_line_parsable(raw.subrange(3 + 12 * j, 15 + 12 * j)),
        decreases count - k,
    {
        let ghost before = reader;
        proof {
            assert(raw.len() == before.fields@.len());
            if 3 + 12 * k + 12 <= raw.len() {
                assert(window(before, before.position as int, 12) =~= raw.subrange(3 + 12 * k, 15 + 12 * k));
            }
            if items_acceptable(raw) {
                assert(item_line_acceptable(raw.subrange(3 + 12 * k, 15 + 12 * k)));
                assert(item_line_parsable(window(before, before.position as int, 12)));
            }
        }
        let line = parse_item_line(&mut reader)?;
        assert(window(before, before.position as int, 12) =~= raw.subrange(3 + 12 * k, 15 + 12 * k));
        lines.push(line);
        k = k + 1;
    }
    reader.finish()?;
    let position = reader.position;
    let ghost decoded_lines = lines@;
    proof {
        if items_acceptable(raw) {
            assert forall|j: int| 0 <= j < decoded_lines.len() implies line_error(#[trigger] decoded_lines[j]) is None by {
                let w = raw.subrange(3 + 12 * j, 15 + 12 * j);
                assert(item_line_decoded(w, decoded_lines[j]));
                assert(item_line_acceptable(w));
            }
            assert(lines_error(decoded_lines) is None);
        }
    }
    match InvoiceItems::new(invoice_id.as_str(), first_invoice_line_id.as_str(), InvoiceLines::new(lines)) {
        Ok(d) => {
            assert(items_decoded(raw, d));
            proof {
                assert forall|j: int| 0 <= j < decoded_lines.len() implies item_line_acceptable(
                    #[trigger] raw.subrange(3 + 12 * j, 15 + 12 * j),
                ) by {
                    let w = raw.subrange(3 + 12 * j, 15 + 12 * j);
                    assert(item_line_decoded(w, decoded_lines[j]));
                    assert(line_error(d.invoice_lines.invoice_line@[j]) is None);
                }
                assert(items_acceptable(raw));
            }
            Ok(d)
        },
        Err(error) => Err(
            Error::InvalidSequence {
                position,
                field: error.field(),
                message: error.message().to_owned(),
            },
        ),
    }
}

/// Whether payload text decodes to an acceptable INVOICE ITEMS sequence under
/// the INVOICE ITEMS header.
pub open spec fn items_payload_ok(payload: Seq<char>) -> bool {
    payload_decoded(payload) matches Some((h, s)) && h == items_header() && items_acceptable(split_tabs(s))
}

/// Decode and validate one Base32hex INVOICE ITEMS payload; its header must
/// be 2/0/0/0.
pub fn decode(payload: &str) -> (res: Result<InvoiceItems>)
    ensures
        res matches Ok(d) ==> exists|s: Seq<char>|
            payload_decoded(payload@) == Some((items_header(), s)) && items_decoded(split_tabs(s), d),
        res is Ok <==> items_payload_ok(payload@),
        payload_fault(payload@) matches Some(f) ==> (res matches Err(e) && fault_error(f, e)),
        payload_decoded(payload@) matches Some((h, s)) && h != items_header() ==> res matches Err(
            Error::Unsupported(_),
        ),
        (payload_decoded(payload@) matches Some((h, s)) && h == items_header() && !items_acceptable(split_tabs(s)))
            ==> res matches Err(Error::InvalidSequence { .. }),
        res matches Err(e) ==> e is InvalidPayload || e is Compression || e is ChecksumMismatch
            || e is Utf8 || e is Unsupported || e is InvalidSequence,
{
    let decoded = match decode_payload(payload) {
        Ok(d) => d,
        Err(e) => {
            proof {
                lemma_fault_decoded(payload@);
            }
            return Err(e);
        },
    };
    let header = decoded.header;
    if header.by_square_type != 2 || header.version != 0 || header.document_type != 0
        || header.reserved != 0 {
        return Err(Error::Unsupported(text("expected INVOICE ITEMS header 2/0/0/0")));
    }
    assert(header == items_header());
    match decode_sequence(decoded.sequence.as_str()) {
        Ok(document) => Ok(document),
        Err(e) => Err(e),
    }
}

/// What one payload decodes to as an INVOICE ITEMS block.
pub open spec fn block_decoded(payload: Seq<char>, d: InvoiceItems) -> bool {
    exists|s: Seq<char>| payload_decoded(payload) == Some((items_header(), s)) && items_decoded(split_tabs(s), d)
}

/// Decode every payload of a complete set and reassemble their lines into
/// one ordered list; see [`reassembly`]. The payloads may come in any
/// order.
pub fn decode_chunks(payloads: &[String]) -> (res: Result<InvoiceItemsList>)
    ensures
        res matches Ok(list) ==> exists|docs: Seq<InvoiceItems>|
            docs.len() == payloads@.len() && (forall|k: int|
                0 <= k < docs.len() ==> block_decoded((#[trigger] payloads@[k])@, docs[k]))
                && reassembly(docs) == Ok::<(Seq<char>, Seq<InvoiceLine>), &'static str>(
                (list.invoice_id@, list.invoice_lines.invoice_line@),
            ),
        res matches Err(Error::InvalidInput { field, .. }) ==> exists|docs: Seq<InvoiceItems>|
            docs.len() == payloads@.len() && (forall|k: int|
                0 <= k < docs.len() ==> block_decoded((#[trigger] payloads@[k])@, docs[k]))
                && reassembly(docs) == Err::<(Seq<char>, Seq<InvoiceLine>), &'static str>(field),
        (exists|k: int| 0 <= k < payloads@.len() && !items_payload_ok((#[trigger] payloads@[k])@)) ==> res is Err,
        (forall|k: int| 0 <= k < payloads@.len() ==> items_payload_ok((#[trigger] payloads@[k])@)) ==> (res is Ok
            || res matches Err(Error::InvalidInput { .. })),
        res matches Err(e) && !(e is InvalidInput) ==> exists|k: int|
            0 <= k < payloads@.len() && !items_payload_ok((#[trigger] payloads@[k])@),
{
    let mut documents: Vec<InvoiceItems> = Vec::new();
    let mut i: usize = 0;
    while i < payloads.len()
        invariant
            i <= payloads@.len(),
            documents@.len() == i,
            forall|k: int| 0 <= k < i ==> block_decoded((#[trigger] payloads@[k])@, documents@[k]),
            forall|k: int| 0 <= k < i ==> items_payload_ok((#[trigger] payloads@[k])@),
        decreases payloads.len() - i,
    {
        let document = match decode(payloads[i].as_str()) {
            Ok(d) => d,
            Err(e) => {
                assert(!items_payload_ok(payloads@[i as int]@));
                return Err(e);
            },
        };
        documents.push(document);
        i = i + 1;
    }
    let ghost docs = documents@;
    match reassemble_invoice_lines(documents) {
        Ok(r) => Ok(InvoiceItemsList { invoice_id: r.invoice_id, invoice_lines: InvoiceLines::new(r.invoice_lines) }),
        Err(error) => Err(Error::invalid(error.field(), error.message())),
    }
}

// ---------------------------------------------------------------------------
// What decoding gives back of an encoded block
// ---------------------------------------------------------------------------

/// An order reference as compared after transport.
pub open spec fn order_view(o: Option<OrderReference>) -> Option<(Option<Seq<char>>, Option<Seq<char>>)> {
    match o {
        Some(r) => Some((opt_text(r.order_id), opt_text(r.order_line_id))),
        None => None,
    }
}

/// A delivery note reference as compared after transport.
pub open spec fn delivery_view(o: Option<DeliveryNoteReference>) -> Option<(Option<Seq<char>>, Option<Seq<char>>)> {
    match o {
        Some(r) => Some((opt_text(r.delivery_note_id), opt_text(r.delivery_note_line_id))),
        None => None,
    }
}

/// Whether a line crosses transport unchanged: its references, when present,
/// hold some text; its texts are absent or non-empty without tabs; its
/// values are well formed; and it keeps the line rules.
pub open spec fn line_transportable(l: InvoiceLine) -> bool {
    &&& match l.order_reference {
        Some(r) => (r.order_id is Some || r.order_line_id is Some) && text_transportable(r.order_id)
            && text_transportable(r.order_line_id),
        None => true,
    }
    &&& match l.delivery_note_reference {
        Some(r) => (r.delivery_note_id is Some || r.delivery_note_line_id is Some) && text_transportable(
            r.delivery_note_id,
        ) && text_transportable(r.delivery_note_line_id),
        None => true,
    }
    &&& text_transportable(l.item_name)
    &&& text_transportable(l.item_ean_code)
    &&& date_transportable(l.period_from_date)
    &&& date_transportable(l.period_to_date)
    &&& decimal_transportable(l.invoiced_quantity@)
    &&& decimal_transportable(l.unit_price_tax_exclusive_amount@)
    &&& decimal_transportable(l.unit_price_tax_amount@)
    &&& is_canonical_decimal(l.classified_tax_category@)
    &&& percentage_text(l.classified_tax_category@)
    &&& line_error(l) is None
}

/// Whether two lines agree on every transported field.
pub open spec fn same_transported_line(a: InvoiceLine, b: InvoiceLine) -> bool {
    &&& order_view(a.order_reference) == order_view(b.order_reference)
    &&& delivery_view(a.delivery_note_reference) == delivery_view(b.delivery_note_reference)
    &&& opt_text(a.item_name) == opt_text(b.item_name)
    &&& opt_text(a.item_ean_code) == opt_text(b.item_ean_code)
    &&& opt_date(a.period_from_date) == opt_date(b.period_from_date)
    &&& opt_date(a.period_to_date) == opt_date(b.period_to_date)
    &&& a.invoiced_quantity@ == b.invoiced_quantity@
    &&& a.unit_price_tax_exclusive_amount@ == b.unit_price_tax_exclusive_amount@
    &&& a.unit_price_tax_amount@ == b.unit_price_tax_amount@
    &&& a.classified_tax_category@ == b.classified_tax_category@
}

/// Whether a block crosses transport unchanged: invoice and first line
/// numbers without tabs, and every line transportable.
pub open spec fn items_transportable(d: InvoiceItems) -> bool {
    let lines = d.invoice_lines.invoice_line@;
    &&& tab_free(d.invoice_id@)
    &&& tab_free(d.first_invoice_line_id@)
    &&& 0 < lines.len() <= u64::MAX
    &&& forall|j: int| 0 <= j < lines.len() ==> line_transportable(#[trigger] lines[j])
}

/// Whether two blocks agree on every transported field.
pub open spec fn same_transported_block(a: InvoiceItems, b: InvoiceItems) -> bool {
    let la = a.invoice_lines.invoice_line@;
    let lb = b.invoice_lines.invoice_line@;
    &&& a.invoice_id@ == b.invoice_id@
    &&& a.first_invoice_line_id@ == b.first_invoice_line_id@
    &&& la.len() == lb.len()
    &&& forall|j: int| 0 <= j < la.len() ==> same_transported_line(#[trigger] la[j], lb[j])
}

/// A transportable line is written as twelve tab-free fields that decode,
/// and every line decoded from them agrees with it on each transported
/// field.
pub proof fn lemma_line_round_trip(l: InvoiceLine)
    requires
        line_transportable(l),
    ensures
        forall|k: int| 0 <= k < 12 ==> tab_free(#[trigger] line_fields(l)[k]),
        item_line_acceptable(line_fields(l)),
        forall|l2: InvoiceLine| item_line_decoded(line_fields(l), l2) ==> same_transported_line(l2, l),
{
    let raw = line_fields(l);
    let (a, b) = match l.order_reference {
        Some(r) => (r.order_id, r.order_line_id),
        None => (None, None),
    };
    let (c, e) = match l.delivery_note_reference {
        Some(r) => (r.delivery_note_id, r.delivery_note_line_id),
        None => (None, None),
    };
    lemma_optional_text_field(a);
    lemma_optional_text_field(b);
    lemma_optional_text_field(c);
    lemma_optional_text_field(e);
    assert(raw[0] == optional_field(a));
    assert(raw[1] == optional_field(b));
    assert(raw[2] == optional_field(c));
    assert(raw[3] == optional_field(e));
    lemma_optional_text_field(l.item_name);
    lemma_optional_text_field(l.item_ean_code);
    lemma_optional_date_field(l.period_from_date);
    lemma_optional_date_field(l.period_to_date);
    lemma_decimal_field(l.invoiced_quantity@);
    lemma_decimal_field(l.unit_price_tax_exclusive_amount@);
    lemma_decimal_field(l.unit_price_tax_amount@);
    lemma_vat_field(l.classified_tax_category@);
    assert forall|l2: InvoiceLine| item_line_decoded(raw, l2) implies same_transported_line(l2, l) by {
        match l2.order_reference {
            Some(r2) => {
                assert(l.order_reference is Some);
            },
            None => {
                assert(l.order_reference is None);
            },
        }
        match l2.delivery_note_reference {
            Some(r2) => {
                assert(l.delivery_note_reference is Some);
            },
            None => {
                assert(l.delivery_note_reference is None);
            },
        }
    }
}

/// What decoding gives back of an encoded block: a transportable block is
/// written as fields that split back apart, that decode, and from which
/// every decoded block agrees with it on each transported field (computed
/// line amounts are not transported and come back absent).
pub proof fn lemma_items_round_trip(d: InvoiceItems)
    requires
        items_transportable(d),
    ensures
        split_tabs(items_sequence(d)) == items_fields(d),
        items_acceptable(items_fields(d)),
        forall|d2: InvoiceItems| items_decoded(items_fields(d), d2) ==> same_transported_block(d2, d),
{
    let lines = d.invoice_lines.invoice_line@;
    let n = lines.len();
    let raw = items_fields(d);
    lemma_lines_fields_shape(lines);
    crate::numeral::lemma_nat_text(n);
    lemma_sanitized_identity(d.invoice_id@);
    lemma_sanitized_identity(d.first_invoice_line_id@);
    assert(raw.len() == 3 + 12 * n);
    assert forall|j: int| 0 <= j < n implies raw.subrange(3 + 12 * j, 15 + 12 * j) == line_fields(#[trigger] lines[j]) by {
        assert(raw.subrange(3 + 12 * j, 15 + 12 * j) =~= lines_fields(lines).subrange(12 * j, 12 * j + 12));
    }
    assert forall|j: int| 0 <= j < n implies item_line_acceptable(#[trigger] raw.subrange(3 + 12 * j, 15 + 12 * j)) by {
        assert(raw.subrange(3 + 12 * j, 15 + 12 * j) == line_fields(lines[j]));
        lemma_line_round_trip(lines[j]);
    }
    assert forall|i: int| 0 <= i < raw.len() implies tab_free(#[trigger] raw[i]) by {
        if i == 2 {
            assert forall|k: int| 0 <= k < raw[2].len() implies raw[2][k] != '\t' by {
                assert(crate::decimal::is_digit(raw[2][k]));
            }
        } else if i >= 3 {
            let j = (i - 3) / 12;
            assert(0 <= j < n);
            assert(raw[i] == raw.subrange(3 + 12 * j, 15 + 12 * j)[i - 3 - 12 * j]);
            lemma_line_round_trip(lines[j]);
        }
    }
    lemma_split_joined(raw);
    assert forall|d2: InvoiceItems| items_decoded(raw, d2) implies same_transported_block(d2, d) by {
        let l2 = d2.invoice_lines.invoice_line@;
        assert(l2.len() == n);
        assert forall|j: int| 0 <= j < n implies same_transported_line(#[trigger] l2[j], lines[j]) by {
            let w = raw.subrange(3 + 12 * j, 15 + 12 * j);
            assert(item_line_decoded(w, l2[j]));
            assert(w == line_fields(lines[j]));
            lemma_line_round_trip(lines[j]);
        }
    }
}

/// What decoding an INVOICE ITEMS payload gives back: the payload text of a
/// transportable block carries its sequence under the INVOICE ITEMS header,
/// so that decoding it succeeds, and every block it decodes to agrees with it
/// on each transported field.
pub proof fn lemma_items_payload_round_trip(d: InvoiceItems, text: Seq<char>)
    requires
        items_transportable(d),
        payload_decoded(text) == Some((items_header(), items_sequence(d))),
    ensures
        items_payload_ok(text),
        forall|d2: InvoiceItems| block_decoded(text, d2) ==> same_transported_block(d2, d),
{
    lemma_items_round_trip(d);
}

} // verus!
