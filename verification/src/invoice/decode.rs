//! INVOICE by square payload and sequence decoding.

use vstd::prelude::*;
use super::models::{
    code_text, dashless, lemma_dashless_concat, lemma_dashless_free, date_text, invoice_data_error, document_type_of, percentage_text, Contact, CountryCode, CurrencyCode,
    CustomerParty, Date, Decimal, DocumentType, Invoice, InvoiceData, MonetarySummary, PaymentMeans,
    Percentage, PostalAddress, SingleInvoiceLine, SupplierParty, TaxCategorySummaries,
    TaxCategorySummary,
};
use crate::calendar::{compact_date_shape, iso_date_shape};
use crate::codec::{decode_payload, fault_error, lemma_fault_decoded, payload_decoded, payload_fault};
use crate::decimal::{
    all_ascii_digits, decimal_canonical, digits_value, extend_chars, find_char, index_of,
    is_canonical_decimal, is_white, lemma_canonical_chars, lemma_decimal_canonical_fixed,
    lemma_index_of_bound, slice_chars, text_fraction, text_integer, text_unsigned, trim_chars,
    trim_end, trim_start, trimmed,
};
use crate::error::{text, Error, Result};
use crate::fields::{lemma_sanitized_identity, sanitized_text, split_tabs, tab_free, texts};
use super::encode::{
    customer_fields, header_fields, invoice_fields, invoice_sequence, lemma_summaries_fields_shape,
    line_fields, optional_date_field, optional_decimal_field, optional_field, summaries_fields,
    summary_fields, supplier_fields,
};
use crate::numeral::{int_text, nat_text};
use crate::fields::lemma_split_joined;
use crate::numeral::is_numeral;
use crate::reader::{field_at, parse_unsigned, SequenceReader};
use crate::text::{chars_of, string_from_chars};

verus! {

/// Whether a reader moved on by `k` fields without running past the end.
pub open spec fn advanced(before: SequenceReader, after: SequenceReader, k: int) -> bool {
    &&& after.fields@ == before.fields@
    &&& after.position == before.position + k
    &&& after.position <= after.fields@.len()
}

/// An optional text field: absent when the field is empty.
pub open spec fn optional_decoded(raw: Seq<char>, v: Option<String>) -> bool {
    match v {
        Some(s) => s@ == raw && raw.len() > 0,
        None => raw.len() == 0,
    }
}

/// The `YYYY-MM-DD` form of a compact `YYYYMMDD` date.
pub open spec fn expanded_date(raw: Seq<char>) -> Seq<char> {
    raw.take(4) + seq!['-'] + raw.subrange(4, 6) + seq!['-'] + raw.subrange(6, 8)
}

/// A `YYYY-MM-DD` date without its dashes is eight digits, and putting the
/// dashes back gives the date again.
pub proof fn lemma_dashless_date(s: Seq<char>)
    requires
        iso_date_shape(s),
    ensures
        compact_date_shape(dashless(s)),
        expanded_date(dashless(s)) == s,
{
    let y = s.take(4);
    let m = s.subrange(5, 7);
    let d = s.subrange(8, 10);
    assert(s =~= y + seq!['-'] + m + seq!['-'] + d);
    assert forall|k: int| 0 <= k < y.len() implies y[k] != '-' by {
        assert(crate::decimal::is_digit(y[k]));
    }
    assert forall|k: int| 0 <= k < m.len() implies m[k] != '-' by {
        assert(crate::decimal::is_digit(m[k]));
    }
    assert forall|k: int| 0 <= k < d.len() implies d[k] != '-' by {
        assert(crate::decimal::is_digit(d[k]));
    }
    lemma_dashless_free(y);
    lemma_dashless_free(m);
    lemma_dashless_free(d);
    assert(seq!['-'].drop_last() =~= Seq::<char>::empty());
    assert(seq!['-'].last() == '-');
    assert(dashless(seq!['-']) == dashless(seq!['-'].drop_last()));
    assert(dashless(seq!['-']) =~= Seq::<char>::empty());
    lemma_dashless_concat(y + seq!['-'] + m + seq!['-'], d);
    lemma_dashless_concat(y + seq!['-'] + m, seq!['-']);
    lemma_dashless_concat(y + seq!['-'], m);
    lemma_dashless_concat(y, seq!['-']);
    let c = dashless(s);
    assert(c =~= y + m + d);
    assert forall|k: int| 0 <= k < 8 implies crate::decimal::is_digit(#[trigger] c[k]) by {
        if k < 4 {
            assert(c[k] == y[k]);
        } else if k < 6 {
            assert(c[k] == m[k - 4]);
        } else {
            assert(c[k] == d[k - 6]);
        }
    }
    assert(expanded_date(c) =~= s);
}

/// A date field: eight digits naming a valid date.
pub open spec fn date_decoded(raw: Seq<char>, d: Date) -> bool {
    compact_date_shape(raw) && d@ == expanded_date(raw)
}

/// An optional date field.
pub open spec fn optional_date_decoded(raw: Seq<char>, v: Option<Date>) -> bool {
    match v {
        Some(d) => date_decoded(raw, d),
        None => raw.len() == 0,
    }
}

/// A decimal field: the normalized decimal it writes.
pub open spec fn decimal_decoded(raw: Seq<char>, d: Decimal) -> bool {
    decimal_canonical(raw, false) == Some(d@)
}

/// An optional decimal field.
pub open spec fn optional_decimal_decoded(raw: Seq<char>, v: Option<Decimal>) -> bool {
    match v {
        Some(d) => raw.len() > 0 && decimal_decoded(raw, d),
        None => raw.len() == 0,
    }
}

/// An optional currency field.
pub open spec fn optional_currency_decoded(raw: Seq<char>, v: Option<CurrencyCode>) -> bool {
    match v {
        Some(c) => raw.len() > 0 && c@ == raw,
        None => raw.len() == 0,
    }
}

/// A canonical decimal divided by one hundred, written by moving its point
/// two places (`20.5` gives `0.205`).
pub open spec fn hundredth(value: Seq<char>) -> Seq<char> {
    let d = index_of(value, '.');
    let integer = value.take(d);
    let fraction = if d < value.len() { value.skip(d + 1) } else { seq![] };
    let digits = integer + fraction;
    if integer.len() == 0 {
        seq!['0', '.', '0', '0'] + digits
    } else if integer.len() == 1 {
        seq!['0', '.', '0'] + digits
    } else if integer.len() == 2 {
        seq!['0', '.'] + digits
    } else {
        digits.take(integer.len() - 2) + seq!['.'] + digits.skip(integer.len() - 2)
    }
}

/// Canonical non-negative decimal text divided by one hundred reads, as it
/// stands, as the same number over one hundred: the same numerator, with
/// two more fraction digits.
pub proof fn lemma_hundredth_fraction(c: Seq<char>)
    requires
        is_canonical_decimal(c),
        !crate::decimal::text_negative(c),
    ensures
        trimmed(hundredth(c)) == hundredth(c),
        crate::decimal::written_fraction(hundredth(c)) == (
            crate::decimal::text_numerator(c),
            (crate::decimal::text_scale(c) + 2) as nat,
        ),
{
    crate::canonical::lemma_canonical_parts(c);
    let d = index_of(c, '.');
    lemma_index_of_bound(c, '.');
    let i = text_integer(c);
    let f = text_fraction(c);
    assert(text_unsigned(c) == c);
    assert(i == c.take(d));
    assert(f == (if d < c.len() { c.skip(d + 1) } else { seq![] }));
    let dg = i + f;
    let len = i.len();
    assert(len > 0);
    let h = hundredth(c);
    assert(crate::decimal::is_digit(dg[0]));
    assert(crate::decimal::is_digit(dg.last()));
    crate::numeral::lemma_zeros_value(2);
    crate::numeral::lemma_zeros_value(1);
    assert(crate::decimal::zeros(2) =~= seq!['0', '0']);
    assert(crate::decimal::zeros(1) =~= seq!['0']);
    if len == 1 {
        assert(h =~= seq!['0'] + (seq!['.', '0'] + dg));
        crate::decimal::lemma_index_of_concat(seq!['0'], seq!['.', '0'] + dg, '.');
        assert(index_of(h, '.') == 1);
        assert(crate::decimal::mantissa_digits(h) =~= seq!['0', '0'] + dg);
        crate::decimal::lemma_digits_value_concat(seq!['0', '0'], dg);
        assert(h.last() == dg.last());
    } else if len == 2 {
        assert(h =~= seq!['0'] + (seq!['.'] + dg));
        crate::decimal::lemma_index_of_concat(seq!['0'], seq!['.'] + dg, '.');
        assert(index_of(h, '.') == 1);
        assert(crate::decimal::mantissa_digits(h) =~= seq!['0'] + dg);
        crate::decimal::lemma_digits_value_concat(seq!['0'], dg);
        assert(h.last() == dg.last());
    } else {
        let head = dg.take(len - 2);
        assert(forall|k: int| 0 <= k < head.len() ==> head[k] == i[k]);
        assert(forall|k: int| 0 <= k < head.len() ==> #[trigger] head[k] != '.') by {
            assert forall|k: int| 0 <= k < head.len() implies #[trigger] head[k] != '.' by {
                assert(head[k] == i[k]);
                assert(crate::decimal::is_digit(i[k]));
            }
        }
        assert(h =~= head + (seq!['.'] + dg.skip(len - 2)));
        crate::decimal::lemma_index_of_concat(head, seq!['.'] + dg.skip(len - 2), '.');
        assert(index_of(h, '.') == len - 2);
        assert(crate::decimal::mantissa_digits(h) =~= dg);
        assert(h.last() == dg.last());
        assert(h[0] == dg[0]);
    }
    assert(!is_white(h[0]));
    assert(trim_start(h) == h);
    assert(!is_white(h.last()));
    assert(trim_end(h) == h);
}

/// A VAT field written as a deployed percentage above 1 and up to 100 is
/// decoded as exactly that number divided by one hundred (`5` gives `0.05`,
/// `20.5` gives `0.205`).
pub proof fn lemma_vat_deployed_value(raw: Seq<char>, p: Percentage)
    requires
        vat_decoded(raw, p),
        !percentage_text(decimal_canonical(raw, false)->0),
    ensures
        crate::decimal::same_value(
            crate::decimal::text_numerator(p@),
            crate::decimal::text_scale(p@),
            crate::decimal::text_numerator(decimal_canonical(raw, false)->0),
            (crate::decimal::text_scale(decimal_canonical(raw, false)->0) + 2) as nat,
        ),
{
    let c = decimal_canonical(raw, false)->0;
    crate::decimal::lemma_decimal_canonical_shape(raw, false);
    let v = trimmed(raw);
    let body = if v[0] == '-' || v[0] == '+' { v.drop_first() } else { v };
    crate::decimal::lemma_unsigned_canonical_shape(body, false, 100000);
    assert(c == crate::decimal::unsigned_canonical(body, false, 100000)->0);
    lemma_hundredth_fraction(c);
    crate::decimal::lemma_decimal_canonical_value(hundredth(c));
}

/// A VAT field: a non-negative decimal that is either a rate from 0 to 1 or
/// a deployed percentage above 1 and up to 100, which is divided by 100.
pub open spec fn vat_decoded(raw: Seq<char>, p: Percentage) -> bool {
    let c = decimal_canonical(raw, false);
    &&& !(trimmed(raw).len() > 0 && trimmed(raw)[0] == '-')
    &&& c is Some
    &&& if percentage_text(c->0) {
        p@ == c->0
    } else {
        decimal_canonical(hundredth(c->0), false) == Some(p@)
    }
}

/// An optional date field that decodes: empty, or eight digits naming a
/// valid date.
pub open spec fn optional_date_acceptable(raw: Seq<char>) -> bool {
    raw.len() == 0 || (compact_date_shape(raw) && date_text(expanded_date(raw)))
}

/// A VAT field that decodes: not negative, a decimal, and a rate from 0 to
/// 1 either as written or divided by 100.
pub open spec fn vat_acceptable(raw: Seq<char>) -> bool {
    let c = decimal_canonical(raw, false);
    &&& !(trimmed(raw).len() > 0 && trimmed(raw)[0] == '-')
    &&& c is Some
    &&& (percentage_text(c->0) || (decimal_canonical(hundredth(c->0), false) is Some
        && percentage_text(decimal_canonical(hundredth(c->0), false)->0)))
}

/// A date field that decodes: eight digits naming a valid date.
pub open spec fn date_acceptable(raw: Seq<char>) -> bool {
    compact_date_shape(raw) && date_text(expanded_date(raw))
}

/// An optional decimal field that decodes: empty or a decimal.
pub open spec fn optional_decimal_acceptable(raw: Seq<char>) -> bool {
    raw.len() == 0 || decimal_canonical(raw, false) is Some
}

/// An optional code field that decodes: empty or three uppercase letters.
pub open spec fn optional_code_acceptable(raw: Seq<char>) -> bool {
    raw.len() == 0 || code_text(raw)
}

/// An optional count field that decodes: empty or a numeral of an `i64`.
pub open spec fn count_acceptable(raw: Seq<char>) -> bool {
    raw.len() == 0 || (is_numeral(raw) && digits_value(raw) <= i64::MAX)
}

/// A payment means field that decodes: empty or a numeral from 1 to 127.
pub open spec fn means_acceptable(raw: Seq<char>) -> bool {
    raw.len() == 0 || (is_numeral(raw) && 1 <= digits_value(raw) <= 127)
}

/// Header fields that decode.
pub open spec fn header_acceptable(raw: Seq<Seq<char>>) -> bool {
    &&& date_acceptable(raw[1])
    &&& optional_date_acceptable(raw[2])
    &&& code_text(raw[5])
    &&& optional_code_acceptable(raw[6])
    &&& optional_decimal_acceptable(raw[7])
    &&& optional_decimal_acceptable(raw[8])
}

/// Supplier fields that decode: the country is a three-letter code.
pub open spec fn supplier_acceptable(raw: Seq<Seq<char>>) -> bool {
    code_text(raw[9])
}

/// Single-line fields that decode: all empty, or valid dates and a
/// quantity.
pub open spec fn single_line_acceptable(raw: Seq<Seq<char>>) -> bool {
    &&& optional_date_acceptable(raw[4])
    &&& optional_date_acceptable(raw[5])
    &&& (raw[6].len() > 0 ==> decimal_canonical(raw[6], false) is Some)
    &&& (raw[6].len() == 0 ==> raw[0].len() == 0 && raw[1].len() == 0 && raw[2].len() == 0
        && raw[3].len() == 0 && raw[4].len() == 0 && raw[5].len() == 0)
}

/// Summary fields that decode.
pub open spec fn summary_acceptable(raw: Seq<Seq<char>>) -> bool {
    &&& vat_acceptable(raw[0])
    &&& decimal_canonical(raw[1], false) is Some
    &&& decimal_canonical(raw[2], false) is Some
    &&& decimal_canonical(raw[3], false) is Some
    &&& decimal_canonical(raw[4], false) is Some
}

/// The invoice rules, read off the fields: the foreign currency fields
/// together, a line count other than one, either a count or a single line
/// without description, and the single line's choices.
pub open spec fn invoice_rules_acceptable(raw: Seq<Seq<char>>) -> bool {
    let foreign = raw[6].len() > 0;
    let rate = raw[7].len() > 0;
    let reference = raw[8].len() > 0;
    let count = raw[27].len() > 0;
    let line = raw[35].len() > 0;
    &&& foreign == rate && rate == reference
    &&& (count ==> digits_value(raw[27]) != 1)
    &&& ((count && !line) || (!count && line && raw[28].len() == 0))
    &&& (line ==> (raw[31].len() > 0) != (raw[32].len() > 0) && (raw[33].len() > 0) == (raw[34].len() > 0))
}

/// Whether the fields of an INVOICE sequence decode: 40 fields and five per
/// summary, each in a form its position accepts, and the invoice rules kept.
pub open spec fn invoice_acceptable(raw: Seq<Seq<char>>) -> bool {
    let n = digits_value(raw[36]) as int;
    &&& raw.len() >= 37
    &&& is_numeral(raw[36])
    &&& 0 < n <= u64::MAX
    &&& raw.len() == 40 + 5 * n
    &&& header_acceptable(raw.take(9))
    &&& supplier_acceptable(raw.subrange(9, 22))
    &&& count_acceptable(raw[27])
    &&& single_line_acceptable(raw.subrange(29, 36))
    &&& forall|k: int| 0 <= k < n ==> summary_acceptable(#[trigger] raw.subrange(37 + 5 * k, 42 + 5 * k))
    &&& decimal_canonical(raw[37 + 5 * n], false) is Some
    &&& decimal_canonical(raw[38 + 5 * n], false) is Some
    &&& means_acceptable(raw[39 + 5 * n])
    &&& invoice_rules_acceptable(raw)
}

/// The supplier's thirteen fields.
pub open spec fn supplier_decoded(raw: Seq<Seq<char>>, p: SupplierParty) -> bool {
    let a = p.postal_address;
    &&& p.party_name@ == raw[0]
    &&& optional_decoded(raw[1], p.company_tax_id)
    &&& optional_decoded(raw[2], p.company_vat_id)
    &&& optional_decoded(raw[3], p.company_register_id)
    &&& a.street_name@ == raw[4]
    &&& optional_decoded(raw[5], a.building_number)
    &&& a.city_name@ == raw[6]
    &&& a.postal_zone@ == raw[7]
    &&& optional_decoded(raw[8], a.state)
    &&& a.country@ == raw[9]
    &&& match p.contact {
        Some(c) => (raw[10].len() > 0 || raw[11].len() > 0 || raw[12].len() > 0) && optional_decoded(
            raw[10],
            c.name,
        ) && optional_decoded(raw[11], c.telephone) && optional_decoded(raw[12], c.email),
        None => raw[10].len() == 0 && raw[11].len() == 0 && raw[12].len() == 0,
    }
}

/// The customer's five fields.
pub open spec fn customer_decoded(raw: Seq<Seq<char>>, p: CustomerParty) -> bool {
    &&& p.party_name@ == raw[0]
    &&& optional_decoded(raw[1], p.company_tax_id)
    &&& optional_decoded(raw[2], p.company_vat_id)
    &&& optional_decoded(raw[3], p.company_register_id)
    &&& optional_decoded(raw[4], p.party_identification)
}

/// The seven single-line fields: no line when all are empty.
pub open spec fn line_decoded(raw: Seq<Seq<char>>, line: Option<SingleInvoiceLine>) -> bool {
    let present = raw[0].len() > 0 || raw[1].len() > 0 || raw[2].len() > 0 || raw[3].len() > 0
        || raw[4].len() > 0 || raw[5].len() > 0 || raw[6].len() > 0;
    match line {
        Some(l) => {
            &&& present
            &&& optional_decoded(raw[0], l.order_line_id)
            &&& optional_decoded(raw[1], l.delivery_note_line_id)
            &&& optional_decoded(raw[2], l.item_name)
            &&& optional_decoded(raw[3], l.item_ean_code)
            &&& optional_date_decoded(raw[4], l.period_from_date)
            &&& optional_date_decoded(raw[5], l.period_to_date)
            &&& raw[6].len() > 0
            &&& decimal_decoded(raw[6], l.invoiced_quantity)
            &&& l.unit_price_tax_exclusive_amount is None
            &&& l.unit_price_tax_inclusive_amount is None
            &&& l.unit_price_tax_amount is None
        },
        None => !present,
    }
}

/// A tax category summary's five fields; computed amounts are absent.
pub open spec fn summary_decoded(raw: Seq<Seq<char>>, s: TaxCategorySummary) -> bool {
    &&& vat_decoded(raw[0], s.classified_tax_category)
    &&& decimal_decoded(raw[1], s.tax_exclusive_amount)
    &&& decimal_decoded(raw[2], s.tax_amount)
    &&& decimal_decoded(raw[3], s.already_claimed_tax_exclusive_amount)
    &&& decimal_decoded(raw[4], s.already_claimed_tax_amount)
    &&& s.tax_inclusive_amount is None
    &&& s.already_claimed_tax_inclusive_amount is None
    &&& s.difference_tax_exclusive_amount is None
    &&& s.difference_tax_inclusive_amount is None
    &&& s.difference_tax_amount is None
}

/// The monetary summary's transported fields; computed amounts are absent.
pub open spec fn monetary_decoded(raw: Seq<Seq<char>>, m: MonetarySummary) -> bool {
    &&& decimal_decoded(raw[0], m.payable_rounding_amount)
    &&& decimal_decoded(raw[1], m.paid_deposits_amount)
    &&& m.tax_exclusive_amount is None
    &&& m.tax_inclusive_amount is None
    &&& m.tax_amount is None
    &&& m.already_claimed_tax_exclusive_amount is None
    &&& m.already_claimed_tax_inclusive_amount is None
    &&& m.already_claimed_tax_amount is None
    &&& m.difference_tax_exclusive_amount is None
    &&& m.difference_tax_inclusive_amount is None
    &&& m.difference_tax_amount is None
    &&& m.payable_amount is None
}

/// The header fields, up to the reference exchange rate.
pub open spec fn header_decoded(raw: Seq<Seq<char>>, d: InvoiceData) -> bool {
    &&& d.invoice_id@ == raw[0]
    &&& date_decoded(raw[1], d.issue_date)
    &&& optional_date_decoded(raw[2], d.tax_point_date)
    &&& optional_decoded(raw[3], d.order_id)
    &&& optional_decoded(raw[4], d.delivery_note_id)
    &&& d.local_currency_code@ == raw[5]
    &&& optional_currency_decoded(raw[6], d.foreign_currency_code)
    &&& optional_decimal_decoded(raw[7], d.curr_rate)
    &&& optional_decimal_decoded(raw[8], d.reference_curr_rate)
}

/// Whether `invoice` is what the fields `raw` of a sequence decode to under
/// document type `t`: 40 fields and five per tax category summary, each read
/// as the specification lays out, no computed amount present, and the
/// invoice valid.
pub open spec fn invoice_decoded(raw: Seq<Seq<char>>, t: DocumentType, invoice: Invoice) -> bool {
    let d = invoice.data;
    let ss = d.tax_category_summaries.tax_category_summary@;
    let n = ss.len() as int;
    &&& raw.len() == 40 + 5 * n
    &&& n > 0
    &&& invoice.document_type == t
    &&& header_decoded(raw.take(9), d)
    &&& supplier_decoded(raw.subrange(9, 22), d.supplier_party)
    &&& customer_decoded(raw.subrange(22, 27), d.customer_party)
    &&& match d.number_of_invoice_lines {
        Some(v) => is_numeral(raw[27]) && v == digits_value(raw[27]),
        None => raw[27].len() == 0,
    }
    &&& optional_decoded(raw[28], d.invoice_description)
    &&& line_decoded(raw.subrange(29, 36), d.single_invoice_line)
    &&& is_numeral(raw[36]) && digits_value(raw[36]) == n
    &&& forall|k: int|
        0 <= k < n ==> summary_decoded(raw.subrange(37 + 5 * k, 42 + 5 * k), #[trigger] ss[k])
    &&& monetary_decoded(raw.subrange(37 + 5 * n, 39 + 5 * n), d.monetary_summary)
    &&& match d.payment_means {
        Some(m) => is_numeral(raw[39 + 5 * n]) && m@ == digits_value(raw[39 + 5 * n]),
        None => raw[39 + 5 * n].len() == 0,
    }
    &&& invoice_data_error(d) is None
}

fn optional_string(value: String) -> (r: Option<String>)
    ensures
        optional_decoded(value@, r),
{
    if value.as_str().is_empty() {
        None
    } else {
        Some(value)
    }
}

pub fn next_optional(reader: &mut SequenceReader, field: &'static str) -> (r: Result<Option<String>>)
    requires
        old(reader).position <= old(reader).fields@.len(),
    ensures
        r matches Ok(v) ==> advanced(*old(reader), *final(reader), 1) && optional_decoded(
            field_at(*old(reader), old(reader).position as int),
            v,
        ),
        final(reader).position <= final(reader).fields@.len(),
        final(reader).fields@ == old(reader).fields@,
        r matches Err(e) ==> e is InvalidSequence,
        old(reader).position < old(reader).fields@.len() ==> r is Ok,
{
    let value = reader.next(field)?;
    Ok(optional_string(value))
}

pub fn next_text(reader: &mut SequenceReader, field: &'static str) -> (r: Result<String>)
    requires
        old(reader).position <= old(reader).fields@.len(),
    ensures
        r matches Ok(v) ==> advanced(*old(reader), *final(reader), 1) && v@ == field_at(
            *old(reader),
            old(reader).position as int,
        ),
        final(reader).position <= final(reader).fields@.len(),
        final(reader).fields@ == old(reader).fields@,
        r matches Err(e) ==> e is InvalidSequence,
        old(reader).position < old(reader).fields@.len() ==> r is Ok,
{
    reader.next(field)
}

/// The `len` fields of a reader from `from` on.
pub open spec fn window(r: SequenceReader, from: int, len: int) -> Seq<Seq<char>> {
    texts(r.fields@).subrange(from, from + len)
}

fn parse_date_value(value: &str, field: &'static str, reader: &SequenceReader) -> (r: Result<Date>)
    ensures
        r matches Ok(d) ==> date_decoded(value@, d),
        r matches Err(e) ==> e is InvalidSequence,
        compact_date_shape(value@) && date_text(expanded_date(value@)) ==> r is Ok,
        r is Ok ==> compact_date_shape(value@) && date_text(expanded_date(value@)),
{
    let chars = chars_of(value);
    if chars.len() != 8 || !all_ascii_digits(&chars) {
        return Err(reader.invalid(field, "must use YYYYMMDD format"));
    }
    let mut expanded = slice_chars(&chars, 0, 4);
    expanded.push('-');
    let month = slice_chars(&chars, 4, 6);
    extend_chars(&mut expanded, &month);
    expanded.push('-');
    let day = slice_chars(&chars, 6, 8);
    extend_chars(&mut expanded, &day);
    assert(chars@.subrange(0, 4) =~= chars@.take(4));
    assert(expanded@ =~= expanded_date(value@));
    let canonical = string_from_chars(expanded.as_slice());
    match Date::new(canonical.as_str()) {
        Ok(date) => Ok(date),
        Err(error) => Err(reader.invalid(field, error.message())),
    }
}

fn parse_date(reader: &mut SequenceReader, field: &'static str) -> (r: Result<Date>)
    requires
        old(reader).position <= old(reader).fields@.len(),
    ensures
        r matches Ok(d) ==> advanced(*old(reader), *final(reader), 1) && date_decoded(
            field_at(*old(reader), old(reader).position as int),
            d,
        ),
        final(reader).position <= final(reader).fields@.len(),
        final(reader).fields@ == old(reader).fields@,
        r matches Err(e) ==> e is InvalidSequence,
        old(reader).position < old(reader).fields@.len() && date_acceptable(field_at(*old(reader), old(reader).position as int)) ==> r is Ok,
        r is Ok ==> date_acceptable(field_at(*old(reader), old(reader).position as int)),
{
    let value = reader.next(field)?;
    parse_date_value(value.as_str(), field, reader)
}

pub(crate) fn parse_optional_date(reader: &mut SequenceReader, field: &'static str) -> (r: Result<Option<Date>>)
    requires
        old(reader).position <= old(reader).fields@.len(),
    ensures
        r matches Ok(d) ==> advanced(*old(reader), *final(reader), 1) && optional_date_decoded(
            field_at(*old(reader), old(reader).position as int),
            d,
        ),
        final(reader).position <= final(reader).fields@.len(),
        final(reader).fields@ == old(reader).fields@,
        r matches Err(e) ==> e is InvalidSequence,
        old(reader).position < old(reader).fields@.len() && optional_date_acceptable(
            field_at(*old(reader), old(reader).position as int),
        ) ==> r is Ok,
        r is Ok ==> optional_date_acceptable(field_at(*old(reader), old(reader).position as int)),
{
    let value = reader.next(field)?;
    if value.as_str().is_empty() {
        Ok(None)
    } else {
        let date = parse_date_value(value.as_str(), field, reader)?;
        Ok(Some(date))
    }
}

pub(crate) fn parse_decimal(reader: &mut SequenceReader, field: &'static str) -> (r: Result<Decimal>)
    requires
        old(reader).position <= old(reader).fields@.len(),
    ensures
        r matches Ok(d) ==> advanced(*old(reader), *final(reader), 1) && decimal_decoded(
            field_at(*old(reader), old(reader).position as int),
            d,
        ),
        final(reader).position <= final(reader).fields@.len(),
        final(reader).fields@ == old(reader).fields@,
        r matches Err(e) ==> e is InvalidSequence,
        old(reader).position < old(reader).fields@.len() && decimal_canonical(
            field_at(*old(reader), old(reader).position as int),
            false,
        ) is Some ==> r is Ok,
        r is Ok ==> decimal_canonical(field_at(*old(reader), old(reader).position as int), false) is Some,
{
    let value = reader.next(field)?;
    match Decimal::new(value.as_str()) {
        Ok(d) => Ok(d),
        Err(error) => Err(reader.invalid(field, error.message())),
    }
}

fn parse_optional_decimal(reader: &mut SequenceReader, field: &'static str) -> (r: Result<Option<Decimal>>)
    requires
        old(reader).position <= old(reader).fields@.len(),
    ensures
        r matches Ok(d) ==> advanced(*old(reader), *final(reader), 1) && optional_decimal_decoded(
            field_at(*old(reader), old(reader).position as int),
            d,
        ),
        final(reader).position <= final(reader).fields@.len(),
        final(reader).fields@ == old(reader).fields@,
        r matches Err(e) ==> e is InvalidSequence,
        old(reader).position < old(reader).fields@.len() && optional_decimal_acceptable(field_at(*old(reader), old(reader).position as int)) ==> r is Ok,
        r is Ok ==> optional_decimal_acceptable(field_at(*old(reader), old(reader).position as int)),
{
    let value = reader.next(field)?;
    if value.as_str().is_empty() {
        return Ok(None);
    }
    match Decimal::new(value.as_str()) {
        Ok(d) => Ok(Some(d)),
        Err(error) => Err(reader.invalid(field, error.message())),
    }
}

fn parse_currency_code(reader: &mut SequenceReader, field: &'static str) -> (r: Result<CurrencyCode>)
    requires
        old(reader).position <= old(reader).fields@.len(),
    ensures
        r matches Ok(c) ==> advanced(*old(reader), *final(reader), 1) && c@ == field_at(
            *old(reader),
            old(reader).position as int,
        ),
        final(reader).position <= final(reader).fields@.len(),
        final(reader).fields@ == old(reader).fields@,
        r matches Err(e) ==> e is InvalidSequence,
        old(reader).position < old(reader).fields@.len() && code_text(field_at(*old(reader), old(reader).position as int)) ==> r is Ok,
        r is Ok ==> code_text(field_at(*old(reader), old(reader).position as int)),
{
    let value = reader.next(field)?;
    match CurrencyCode::new(value.as_str()) {
        Ok(c) => Ok(c),
        Err(error) => Err(reader.invalid(field, error.message())),
    }
}

fn parse_optional_currency_code(reader: &mut SequenceReader, field: &'static str) -> (r: Result<
    Option<CurrencyCode>,
>)
    requires
        old(reader).position <= old(reader).fields@.len(),
    ensures
        r matches Ok(c) ==> advanced(*old(reader), *final(reader), 1) && optional_currency_decoded(
            field_at(*old(reader), old(reader).position as int),
            c,
        ),
        final(reader).position <= final(reader).fields@.len(),
        final(reader).fields@ == old(reader).fields@,
        r matches Err(e) ==> e is InvalidSequence,
        old(reader).position < old(reader).fields@.len() && optional_code_acceptable(field_at(*old(reader), old(reader).position as int)) ==> r is Ok,
        r is Ok ==> optional_code_acceptable(field_at(*old(reader), old(reader).position as int)),
{
    let value = reader.next(field)?;
    if value.as_str().is_empty() {
        return Ok(None);
    }
    match CurrencyCode::new(value.as_str()) {
        Ok(c) => Ok(Some(c)),
        Err(error) => Err(reader.invalid(field, error.message())),
    }
}

fn parse_country_code(reader: &mut SequenceReader, field: &'static str) -> (r: Result<CountryCode>)
    requires
        old(reader).position <= old(reader).fields@.len(),
    ensures
        r matches Ok(c) ==> advanced(*old(reader), *final(reader), 1) && c@ == field_at(
            *old(reader),
            old(reader).position as int,
        ),
        final(reader).position <= final(reader).fields@.len(),
        final(reader).fields@ == old(reader).fields@,
        r matches Err(e) ==> e is InvalidSequence,
        old(reader).position < old(reader).fields@.len() && code_text(field_at(*old(reader), old(reader).position as int)) ==> r is Ok,
        r is Ok ==> code_text(field_at(*old(reader), old(reader).position as int)),
{
    let value = reader.next(field)?;
    match CountryCode::new(value.as_str()) {
        Ok(c) => Ok(c),
        Err(error) => Err(reader.invalid(field, error.message())),
    }
}

/// A canonical decimal divided by one hundred.
fn divide_by_hundred(value: &str) -> (r: String)
    ensures
        r@ == hundredth(value@),
{
    let chars = chars_of(value);
    let d = find_char(&chars, '.');
    let integer = slice_chars(&chars, 0, d);
    let fraction = if d < chars.len() {
        slice_chars(&chars, d + 1, chars.len())
    } else {
        Vec::new()
    };
    assert(integer@ =~= value@.take(index_of(value@, '.')));
    assert(d < chars@.len() ==> fraction@ =~= value@.skip(d + 1));
    let mut digits = integer.clone();
    extend_chars(&mut digits, &fraction);
    let length = integer.len();
    let mut out: Vec<char> = Vec::new();
    if length == 0 {
        out.push('0');
        out.push('.');
        out.push('0');
        out.push('0');
        extend_chars(&mut out, &digits);
    } else if length == 1 {
        out.push('0');
        out.push('.');
        out.push('0');
        extend_chars(&mut out, &digits);
    } else if length == 2 {
        out.push('0');
        out.push('.');
        extend_chars(&mut out, &digits);
    } else {
        out = slice_chars(&digits, 0, length - 2);
        out.push('.');
        let rest = slice_chars(&digits, length - 2, digits.len());
        extend_chars(&mut out, &rest);
        assert(digits@.subrange(0, length - 2) =~= digits@.take(length - 2));
        assert(digits@.subrange(length - 2, digits@.len() as int) =~= digits@.skip(length - 2));
    }
    assert(out@ =~= hundredth(value@));
    string_from_chars(out.as_slice())
}

pub(crate) fn parse_vat_percentage(reader: &mut SequenceReader, field: &'static str) -> (r: Result<Percentage>)
    requires
        old(reader).position <= old(reader).fields@.len(),
    ensures
        r matches Ok(p) ==> advanced(*old(reader), *final(reader), 1) && vat_decoded(
            field_at(*old(reader), old(reader).position as int),
            p,
        ),
        final(reader).position <= final(reader).fields@.len(),
        final(reader).fields@ == old(reader).fields@,
        r matches Err(e) ==> e is InvalidSequence,
        old(reader).position < old(reader).fields@.len() && vat_acceptable(
            field_at(*old(reader), old(reader).position as int),
        ) ==> r is Ok,
        r is Ok ==> vat_acceptable(field_at(*old(reader), old(reader).position as int)),
        r matches Ok(p) ==> (!percentage_text(decimal_canonical(field_at(*old(reader), old(reader).position as int), false)->0)
            ==> crate::decimal::same_value(
            crate::decimal::text_numerator(p@),
            crate::decimal::text_scale(p@),
            crate::decimal::text_numerator(decimal_canonical(field_at(*old(reader), old(reader).position as int), false)->0),
            (crate::decimal::text_scale(decimal_canonical(field_at(*old(reader), old(reader).position as int), false)->0) + 2) as nat,
        )),
{
    let raw = reader.next(field)?;
    let chars = chars_of(raw.as_str());
    let trimmed_chars = trim_chars(&chars);
    if trimmed_chars.len() > 0 && trimmed_chars[0] == '-' {
        return Err(reader.invalid(field, "VAT percentage must not be negative"));
    }
    let value = match Decimal::new(raw.as_str()) {
        Ok(d) => d,
        Err(error) => return Err(reader.invalid(field, error.message())),
    };
    let copy = value.clone();
    match Percentage::from_decimal(copy) {
        Ok(p) => return Ok(p),
        Err(_) => {},
    }
    let deployed = divide_by_hundred(value.as_str());
    match Percentage::new(deployed.as_str()) {
        Ok(p) => {
            assert(vat_decoded(raw@, p));
            proof {
                lemma_vat_deployed_value(raw@, p);
            }
            Ok(p)
        },
        Err(_) => Err(
            reader.invalid(
                field,
                "must be in canonical range [0,1] or deployed percent-point range (1,100]",
            ),
        ),
    }
}

fn parse_optional_count(reader: &mut SequenceReader, field: &'static str) -> (r: Result<Option<i64>>)
    requires
        old(reader).position <= old(reader).fields@.len(),
    ensures
        r matches Ok(c) ==> advanced(*old(reader), *final(reader), 1) && match c {
            Some(v) => is_numeral(field_at(*old(reader), old(reader).position as int)) && v
                == digits_value(field_at(*old(reader), old(reader).position as int)),
            None => field_at(*old(reader), old(reader).position as int).len() == 0,
        },
        final(reader).position <= final(reader).fields@.len(),
        final(reader).fields@ == old(reader).fields@,
        r matches Err(e) ==> e is InvalidSequence,
        old(reader).position < old(reader).fields@.len() && count_acceptable(field_at(*old(reader), old(reader).position as int)) ==> r is Ok,
        r is Ok ==> count_acceptable(field_at(*old(reader), old(reader).position as int)),
{
    let value = reader.next(field)?;
    if value.as_str().is_empty() {
        return Ok(None);
    }
    let n = parse_unsigned(value.as_str(), field, reader.position, 9223372036854775807)?;
    Ok(Some(n as i64))
}

fn parse_optional_payment_means(reader: &mut SequenceReader) -> (r: Result<Option<PaymentMeans>>)
    requires
        old(reader).position <= old(reader).fields@.len(),
    ensures
        r matches Ok(c) ==> advanced(*old(reader), *final(reader), 1) && match c {
            Some(m) => is_numeral(field_at(*old(reader), old(reader).position as int)) && m@
                == digits_value(field_at(*old(reader), old(reader).position as int)),
            None => field_at(*old(reader), old(reader).position as int).len() == 0,
        },
        final(reader).position <= final(reader).fields@.len(),
        final(reader).fields@ == old(reader).fields@,
        r matches Err(e) ==> e is InvalidSequence,
        old(reader).position < old(reader).fields@.len() && means_acceptable(field_at(*old(reader), old(reader).position as int)) ==> r is Ok,
        r is Ok ==> means_acceptable(field_at(*old(reader), old(reader).position as int)),
{
    let field = "PaymentMeans";
    let value = reader.next(field)?;
    if value.as_str().is_empty() {
        return Ok(None);
    }
    let classifier = parse_unsigned(value.as_str(), field, reader.position, 18446744073709551615)?;
    if classifier > 255 {
        return Err(reader.invalid(field, "classifier does not fit in u8"));
    }
    match PaymentMeans::from_classifier(classifier as u8) {
        Ok(m) => Ok(Some(m)),
        Err(error) => Err(reader.invalid(field, error.message())),
    }
}

fn parse_supplier_party(reader: &mut SequenceReader) -> (r: Result<SupplierParty>)
    requires
        old(reader).position <= old(reader).fields@.len(),
    ensures
        r matches Ok(p) ==> advanced(*old(reader), *final(reader), 13) && supplier_decoded(
            window(*old(reader), old(reader).position as int, 13),
            p,
        ),
        final(reader).position <= final(reader).fields@.len(),
        final(reader).fields@ == old(reader).fields@,
        r matches Err(e) ==> e is InvalidSequence,
        old(reader).position + 13 <= old(reader).fields@.len() && supplier_acceptable(window(*old(reader), old(reader).position as int, 13)) ==> r is Ok,
        r is Ok ==> supplier_acceptable(window(*old(reader), old(reader).position as int, 13)),
{
    let ghost start = *reader;
    let ghost p0 = reader.position as int;
    let party_name = next_text(reader, "SupplierParty.PartyName")?;
    let company_tax_id = next_optional(reader, "SupplierParty.CompanyTaxID")?;
    let company_vat_id = next_optional(reader, "SupplierParty.CompanyVATID")?;
    let company_register_id = next_optional(reader, "SupplierParty.CompanyRegisterID")?;
    let street_name = next_text(reader, "SupplierParty.PostalAddress.StreetName")?;
    let building_number = next_optional(reader, "SupplierParty.PostalAddress.BuildingNumber")?;
    let city_name = next_text(reader, "SupplierParty.PostalAddress.CityName")?;
    let postal_zone = next_text(reader, "SupplierParty.PostalAddress.PostalZone")?;
    let state = next_optional(reader, "SupplierParty.PostalAddress.State")?;
    let country = parse_country_code(reader, "SupplierParty.PostalAddress.Country")?;
    let contact_name = next_optional(reader, "SupplierParty.Contact.Name")?;
    let contact_telephone = next_optional(reader, "SupplierParty.Contact.Telephone")?;
    let contact_email = next_optional(reader, "SupplierParty.Contact.EMail")?;
    let contact = if contact_name.is_some() || contact_telephone.is_some() || contact_email.is_some() {
        Some(Contact { name: contact_name, telephone: contact_telephone, email: contact_email })
    } else {
        None
    };
    let party = SupplierParty {
        party_name,
        company_tax_id,
        company_vat_id,
        company_register_id,
        postal_address: PostalAddress {
            street_name,
            building_number,
            city_name,
            postal_zone,
            state,
            country,
        },
        contact,
    };
    assert(supplier_decoded(window(start, p0, 13), party));
    Ok(party)
}

fn parse_customer_party(reader: &mut SequenceReader) -> (r: Result<CustomerParty>)
    requires
        old(reader).position <= old(reader).fields@.len(),
    ensures
        r matches Ok(p) ==> advanced(*old(reader), *final(reader), 5) && customer_decoded(
            window(*old(reader), old(reader).position as int, 5),
            p,
        ),
        final(reader).position <= final(reader).fields@.len(),
        final(reader).fields@ == old(reader).fields@,
        r matches Err(e) ==> e is InvalidSequence,
        old(reader).position + 5 <= old(reader).fields@.len() ==> r is Ok,
{
    let ghost start = *reader;
    let ghost p0 = reader.position as int;
    let party_name = next_text(reader, "CustomerParty.PartyName")?;
    let company_tax_id = next_optional(reader, "CustomerParty.CompanyTaxID")?;
    let company_vat_id = next_optional(reader, "CustomerParty.CompanyVATID")?;
    let company_register_id = next_optional(reader, "CustomerParty.CompanyRegisterID")?;
    let party_identification = next_optional(reader, "CustomerParty.PartyIdentification")?;
    let party = CustomerParty {
        party_name,
        company_tax_id,
        company_vat_id,
        company_register_id,
        party_identification,
    };
    assert(customer_decoded(window(start, p0, 5), party));
    Ok(party)
}

fn parse_single_invoice_line(reader: &mut SequenceReader) -> (r: Result<Option<SingleInvoiceLine>>)
    requires
        old(reader).position <= old(reader).fields@.len(),
    ensures
        r matches Ok(l) ==> advanced(*old(reader), *final(reader), 7) && line_decoded(
            window(*old(reader), old(reader).position as int, 7),
            l,
        ),
        final(reader).position <= final(reader).fields@.len(),
        final(reader).fields@ == old(reader).fields@,
        r matches Err(e) ==> e is InvalidSequence,
        old(reader).position + 7 <= old(reader).fields@.len() && single_line_acceptable(window(*old(reader), old(reader).position as int, 7)) ==> r is Ok,
        r is Ok ==> single_line_acceptable(window(*old(reader), old(reader).position as int, 7)),
{
    let ghost start = *reader;
    let ghost p0 = reader.position as int;
    let order_line_id = next_optional(reader, "SingleInvoiceLine.OrderLineID")?;
    let delivery_note_line_id = next_optional(reader, "SingleInvoiceLine.DeliveryNoteLineID")?;
    let item_name = next_optional(reader, "SingleInvoiceLine.ItemName")?;
    let item_ean_code = next_optional(reader, "SingleInvoiceLine.ItemEANCode")?;
    let period_from_date = parse_optional_date(reader, "SingleInvoiceLine.PeriodFromDate")?;
    let period_to_date = parse_optional_date(reader, "SingleInvoiceLine.PeriodToDate")?;
    let quantity = next_text(reader, "SingleInvoiceLine.InvoicedQuantity")?;
    let empty_quantity = quantity.as_str().is_empty();
    let present = order_line_id.is_some() || delivery_note_line_id.is_some() || item_name.is_some()
        || item_ean_code.is_some() || period_from_date.is_some() || period_to_date.is_some()
        || !empty_quantity;
    let ghost raw = window(start, p0, 7);
    assert(raw[6] == quantity@);
    if !present {
        assert(line_decoded(raw, None));
        return Ok(None);
    }
    if empty_quantity {
        return Err(
            reader.invalid(
                "SingleInvoiceLine.InvoicedQuantity",
                "must not be empty when SingleInvoiceLine is present",
            ),
        );
    }
    let invoiced_quantity = match Decimal::new(quantity.as_str()) {
        Ok(d) => d,
        Err(error) => return Err(reader.invalid("SingleInvoiceLine.InvoicedQuantity", error.message())),
    };
    let line = SingleInvoiceLine {
        order_line_id,
        delivery_note_line_id,
        item_name,
        item_ean_code,
        period_from_date,
        period_to_date,
        invoiced_quantity,
        unit_price_tax_exclusive_amount: None,
        unit_price_tax_inclusive_amount: None,
        unit_price_tax_amount: None,
    };
    assert(line_decoded(raw, Some(line)));
    Ok(Some(line))
}

fn parse_tax_category_summary(reader: &mut SequenceReader) -> (r: Result<TaxCategorySummary>)
    requires
        old(reader).position <= old(reader).fields@.len(),
    ensures
        r matches Ok(s) ==> advanced(*old(reader), *final(reader), 5) && summary_decoded(
            window(*old(reader), old(reader).position as int, 5),
            s,
        ),
        final(reader).position <= final(reader).fields@.len(),
        final(reader).fields@ == old(reader).fields@,
        r matches Err(e) ==> e is InvalidSequence,
        old(reader).position + 5 <= old(reader).fields@.len() && summary_acceptable(window(*old(reader), old(reader).position as int, 5)) ==> r is Ok,
        r is Ok ==> summary_acceptable(window(*old(reader), old(reader).position as int, 5)),
{
    let ghost start = *reader;
    let ghost p0 = reader.position as int;
    let classified_tax_category = parse_vat_percentage(reader, "ClassifiedTaxCategory")?;
    let tax_exclusive_amount = parse_decimal(reader, "TaxExclusiveAmount")?;
    let tax_amount = parse_decimal(reader, "TaxAmount")?;
    let already_claimed_tax_exclusive_amount = parse_decimal(reader, "AlreadyClaimedTaxExclusiveAmount")?;
    let already_claimed_tax_amount = parse_decimal(reader, "AlreadyClaimedTaxAmount")?;
    let summary = TaxCategorySummary {
        classified_tax_category,
        tax_exclusive_amount,
        tax_inclusive_amount: None,
        tax_amount,
        already_claimed_tax_exclusive_amount,
        already_claimed_tax_inclusive_amount: None,
        already_claimed_tax_amount,
        difference_tax_exclusive_amount: None,
        difference_tax_inclusive_amount: None,
        difference_tax_amount: None,
    };
    assert(summary_decoded(window(start, p0, 5), summary));
    Ok(summary)
}

/// The header part of the data: the fields up to the reference exchange rate.
struct HeaderPart {
    invoice_id: String,
    issue_date: Date,
    tax_point_date: Option<Date>,
    order_id: Option<String>,
    delivery_note_id: Option<String>,
    local_currency_code: CurrencyCode,
    foreign_currency_code: Option<CurrencyCode>,
    curr_rate: Option<Decimal>,
    reference_curr_rate: Option<Decimal>,
}

spec fn header_part_decoded(raw: Seq<Seq<char>>, h: HeaderPart) -> bool {
    &&& h.invoice_id@ == raw[0]
    &&& date_decoded(raw[1], h.issue_date)
    &&& optional_date_decoded(raw[2], h.tax_point_date)
    &&& optional_decoded(raw[3], h.order_id)
    &&& optional_decoded(raw[4], h.delivery_note_id)
    &&& h.local_currency_code@ == raw[5]
    &&& optional_currency_decoded(raw[6], h.foreign_currency_code)
    &&& optional_decimal_decoded(raw[7], h.curr_rate)
    &&& optional_decimal_decoded(raw[8], h.reference_curr_rate)
}

fn parse_header_part(reader: &mut SequenceReader) -> (r: Result<HeaderPart>)
    requires
        old(reader).position <= old(reader).fields@.len(),
    ensures
        r matches Ok(h) ==> advanced(*old(reader), *final(reader), 9) && header_part_decoded(
            window(*old(reader), old(reader).position as int, 9),
            h,
        ),
        final(reader).position <= final(reader).fields@.len(),
        final(reader).fields@ == old(reader).fields@,
        r matches Err(e) ==> e is InvalidSequence,
        old(reader).position + 9 <= old(reader).fields@.len() && header_acceptable(window(*old(reader), old(reader).position as int, 9)) ==> r is Ok,
        r is Ok ==> header_acceptable(window(*old(reader), old(reader).position as int, 9)),
{
    let ghost start = *reader;
    let ghost p0 = reader.position as int;
    let invoice_id = next_text(reader, "InvoiceID")?;
    let issue_date = parse_date(reader, "IssueDate")?;
    let tax_point_date = parse_optional_date(reader, "TaxPointDate")?;
    let order_id = next_optional(reader, "OrderID")?;
    let delivery_note_id = next_optional(reader, "DeliveryNoteID")?;
    let local_currency_code = parse_currency_code(reader, "LocalCurrencyCode")?;
    let foreign_currency_code = parse_optional_currency_code(reader, "ForeignCurrencyCode")?;
    let curr_rate = parse_optional_decimal(reader, "CurrRate")?;
    let reference_curr_rate = parse_optional_decimal(reader, "ReferenceCurrRate")?;
    let h = HeaderPart {
        invoice_id,
        issue_date,
        tax_point_date,
        order_id,
        delivery_note_id,
        local_currency_code,
        foreign_currency_code,
        curr_rate,
        reference_curr_rate,
    };
    assert(header_part_decoded(window(start, p0, 9), h));
    Ok(h)
}

/// Decode and validate an uncompressed tab-delimited INVOICE sequence; the
/// document type travels in the payload header and is passed in.
pub fn decode_sequence(sequence: &str, document_type: DocumentType) -> (res: Result<Invoice>)
    ensures
        res matches Ok(invoice) ==> invoice_decoded(split_tabs(sequence@), document_type, invoice),
        res is Ok <==> invoice_acceptable(split_tabs(sequence@)),
        res matches Err(e) ==> e is InvalidSequence,
{
    let mut reader = SequenceReader::new(sequence);
    let ghost raw = texts(reader.fields@);
    let ghost start = reader;
    let h = parse_header_part(&mut reader)?;
    let supplier_party = parse_supplier_party(&mut reader)?;
    let customer_party = parse_customer_party(&mut reader)?;
    let ghost at27 = reader;
    let number_of_invoice_lines = parse_optional_count(&mut reader, "NumberOfInvoiceLines")?;
    let invoice_description = next_optional(&mut reader, "InvoiceDescription")?;
    let single_invoice_line = parse_single_invoice_line(&mut reader)?;
    let ghost at36 = reader;
    let count_field = reader.next("TaxCategorySummaries")?;
    let summary_count = parse_unsigned(count_field.as_str(), "TaxCategorySummaries", reader.position, 18446744073709551615)?;
    if summary_count == 0 {
        return Err(
            reader.invalid("TaxCategorySummaries", "must contain at least one TaxCategorySummary"),
        );
    }
    let mut summaries: Vec<TaxCategorySummary> = Vec::new();
    let mut k: u64 = 0;
    while k < summary_count
        invariant
            k <= summary_count,
            reader.fields@ == start.fields@,
            raw == texts(start.fields@),
            reader.position == 37 + 5 * k,
            reader.position <= reader.fields@.len(),
            summaries@.len() == k,
            raw == split_tabs(sequence@),
            is_numeral(raw[36]),
            summary_count == digits_value(raw[36]),
            forall|j: int|
                0 <= j < k ==> summary_decoded(raw.subrange(37 + 5 * j, 42 + 5 * j), #[trigger] summaries@[j]),
            forall|j: int| 0 <= j < k ==> summary_acceptable(#[trigger] raw.subrange(37 + 5 * j, 42 + 5 * j)),
        decreases summary_count - k,
    {
        let ghost before = reader;
        proof {
            assert(raw.len() == before.fields@.len());
            if 37 + 5 * k + 5 <= raw.len() {
                assert(window(before, before.position as int, 5) =~= raw.subrange(37 + 5 * k, 42 + 5 * k));
            }
            if invoice_acceptable(raw) {
                assert(summary_acceptable(raw.subrange(37 + 5 * k, 42 + 5 * k)));
            }
        }
        let summary = parse_tax_category_summary(&mut reader)?;
        assert(window(before, before.position as int, 5) =~= raw.subrange(37 + 5 * k, 42 + 5 * k));
        summaries.push(summary);
        k = k + 1;
    }
    let ghost tail = reader;
    let payable_rounding_amount = parse_decimal(&mut reader, "PayableRoundingAmount")?;
    let ghost at_deposits = reader;
    let paid_deposits_amount = parse_decimal(&mut reader, "PaidDepositsAmount")?;
    let ghost at_means = reader;
    let payment_means = parse_optional_payment_means(&mut reader)?;
    reader.finish()?;
    let data = InvoiceData {
        invoice_id: h.invoice_id,
        issue_date: h.issue_date,
        tax_point_date: h.tax_point_date,
        order_id: h.order_id,
        delivery_note_id: h.delivery_note_id,
        local_currency_code: h.local_currency_code,
        foreign_currency_code: h.foreign_currency_code,
        curr_rate: h.curr_rate,
        reference_curr_rate: h.reference_curr_rate,
        supplier_party,
        customer_party,
        number_of_invoice_lines,
        invoice_description,
        single_invoice_line,
        tax_category_summaries: TaxCategorySummaries { tax_category_summary: summaries },
        monetary_summary: MonetarySummary {
            tax_exclusive_amount: None,
            tax_inclusive_amount: None,
            tax_amount: None,
            already_claimed_tax_exclusive_amount: None,
            already_claimed_tax_inclusive_amount: None,
            already_claimed_tax_amount: None,
            difference_tax_exclusive_amount: None,
            difference_tax_inclusive_amount: None,
            difference_tax_amount: None,
            payable_rounding_amount,
            paid_deposits_amount,
            payable_amount: None,
        },
        payment_means,
    };
    let position = reader.position;
    match Invoice::new(document_type, data) {
        Ok(invoice) => {
            proof {
                let n = summary_count as int;
                assert(raw.len() == 40 + 5 * n);
                assert(window(start, 0, 9) =~= raw.take(9));
                assert(window(start, 9, 13) =~= raw.subrange(9, 22));
                assert(window(start, 22, 5) =~= raw.subrange(22, 27));
                assert(window(start, 29, 7) =~= raw.subrange(29, 36));
                assert(raw.subrange(37 + 5 * n, 39 + 5 * n)[0] == raw[37 + 5 * n]);
                assert(raw.subrange(37 + 5 * n, 39 + 5 * n)[1] == raw[38 + 5 * n]);
                assert(invoice_decoded(raw, document_type, invoice));
                assert(field_at(at27, 27) == raw[27]);
                assert(field_at(tail, 37 + 5 * n) == raw[37 + 5 * n]);
                assert(field_at(at_deposits, 38 + 5 * n) == raw[38 + 5 * n]);
                assert(field_at(at_means, 39 + 5 * n) == raw[39 + 5 * n]);
                assert(invoice_rules_acceptable(raw));
                assert(invoice_acceptable(raw));
            }
            Ok(invoice)
        },
        Err(error) => Err(
            Error::InvalidSequence {
                position,
                field: error.field(),
                message: error.message().to_owned(),
            },
        ),
    }
}

/// Whether a header names INVOICE: type 1, version 0, reserved 0 and one of
/// the five document types.
pub open spec fn invoice_header_ok(h: crate::codec::Header) -> bool {
    h.by_square_type == 1 && h.version == 0 && h.reserved == 0 && document_type_of(h.document_type) is Some
}

/// Whether payload text decodes to an acceptable INVOICE sequence under an
/// INVOICE header.
pub open spec fn invoice_payload_ok(payload: Seq<char>) -> bool {
    payload_decoded(payload) matches Some((h, s)) && invoice_header_ok(h) && invoice_acceptable(split_tabs(s))
}

/// Decode and validate a Base32hex INVOICE by square payload.
///
/// The header must name INVOICE (type 1, version 0, reserved 0) and one of
/// the five document types; otherwise the payload is rejected.
pub fn decode(payload: &str) -> (res: Result<Invoice>)
    ensures
        res matches Ok(invoice) ==> exists|h: crate::codec::Header, s: Seq<char>|
            payload_decoded(payload@) == Some((h, s)) && invoice_header_ok(h) && document_type_of(
                h.document_type,
            ) == Some(invoice.document_type) && invoice_decoded(split_tabs(s), invoice.document_type, invoice),
        res is Ok <==> invoice_payload_ok(payload@),
        payload_fault(payload@) matches Some(f) ==> (res matches Err(e) && fault_error(f, e)),
        payload_decoded(payload@) matches Some((h, s)) && !invoice_header_ok(h) ==> res matches Err(
            Error::InvalidPayload(_),
        ),
        payload_decoded(payload@) matches Some((h, s)) && invoice_header_ok(h) && !invoice_acceptable(
            split_tabs(s),
        ) ==> res matches Err(Error::InvalidSequence { .. }),
{
    let decoded = match decode_payload(payload) {
        Ok(d) => d,
        Err(e) => {
            proof {
                lemma_fault_decoded(payload@);
            }
            return Err(e);
        },
    };
    let header = decoded.header;
    if header.by_square_type != 1 || header.version != 0 || header.reserved != 0 {
        return Err(Error::InvalidPayload(text("expected INVOICE header type=1, version=0, reserved=0")));
    }
    let document_type = match DocumentType::from_classifier(header.document_type) {
        Ok(t) => t,
        Err(_) => return Err(Error::InvalidPayload(text("invalid INVOICE document type classifier"))),
    };
    assert(payload_decoded(payload@) == Some((header, decoded.sequence@)));
    match decode_sequence(decoded.sequence.as_str(), document_type) {
        Ok(invoice) => Ok(invoice),
        Err(e) => Err(e),
    }
}

// ---------------------------------------------------------------------------
// Fields that cross transport unchanged
// ---------------------------------------------------------------------------

/// Optional text as compared after transport.
pub open spec fn opt_text(o: Option<String>) -> Option<Seq<char>> {
    match o {
        Some(s) => Some(s@),
        None => None,
    }
}

/// An optional date as compared after transport.
pub open spec fn opt_date(o: Option<Date>) -> Option<Seq<char>> {
    match o {
        Some(d) => Some(d@),
        None => None,
    }
}

/// Whether optional text crosses transport unchanged: absent, or not empty
/// and without tabs.
pub open spec fn text_transportable(o: Option<String>) -> bool {
    match o {
        Some(s) => s@.len() > 0 && tab_free(s@),
        None => true,
    }
}

/// Whether a decimal's text is canonical and its point lies within the
/// normalization range; every `Decimal` built from text is.
pub open spec fn decimal_transportable(s: Seq<char>) -> bool {
    is_canonical_decimal(s) && text_integer(s).len() <= 100000
}

/// Whether an optional date is a valid `YYYY-MM-DD` date; every `Date` is.
pub open spec fn date_transportable(o: Option<Date>) -> bool {
    match o {
        Some(d) => date_text(d@),
        None => true,
    }
}

pub proof fn lemma_optional_text_field(o: Option<String>)
    requires
        text_transportable(o),
    ensures
        tab_free(optional_field(o)),
        forall|v: Option<String>| optional_decoded(optional_field(o), v) ==> opt_text(v) == opt_text(o),
        (optional_field(o).len() > 0) == (o is Some),
{
    match o {
        Some(s) => {
            lemma_sanitized_identity(s@);
        },
        None => {},
    }
}

pub proof fn lemma_optional_date_field(o: Option<Date>)
    requires
        date_transportable(o),
    ensures
        tab_free(optional_date_field(o)),
        optional_date_acceptable(optional_date_field(o)),
        forall|v: Option<Date>| optional_date_decoded(optional_date_field(o), v) ==> opt_date(v) == opt_date(o),
        (optional_date_field(o).len() > 0) == (o is Some),
{
    match o {
        Some(d) => {
            lemma_dashless_date(d@);
            let c = dashless(d@);
            assert forall|k: int| 0 <= k < c.len() implies c[k] != '\t' by {
                assert(crate::decimal::is_digit(c[k]));
            }
        },
        None => {},
    }
}

pub proof fn lemma_decimal_field(s: Seq<char>)
    requires
        is_canonical_decimal(s),
        text_integer(s).len() <= 100000,
    ensures
        tab_free(s),
        decimal_canonical(s, false) == Some(s),
{
    lemma_canonical_chars(s);
    lemma_decimal_canonical_fixed(s);
    assert forall|k: int| 0 <= k < s.len() implies s[k] != '\t' by {
        assert(crate::decimal::is_digit(s[k]) || s[k] == '.' || s[k] == '-');
    }
}

pub proof fn lemma_vat_field(s: Seq<char>)
    requires
        is_canonical_decimal(s),
        percentage_text(s),
    ensures
        tab_free(s),
        vat_acceptable(s),
        forall|p: Percentage| vat_decoded(s, p) ==> p@ == s,
{
    assert(text_unsigned(s) == s);
    lemma_index_of_bound(s, '.');
    assert(text_integer(s).len() <= 1);
    lemma_decimal_field(s);
    assert(!is_white(s[0]));
    assert(trim_start(s) == s);
    assert(s.last() == s[s.len() - 1]);
    assert(crate::decimal::is_digit(s[s.len() - 1]) || s[s.len() - 1] == '.' || s[s.len() - 1] == '-');
    assert(s[s.len() - 1] != '.' && s[s.len() - 1] != '-') by {
        lemma_canonical_chars(s);
        if s.len() > 2 {
            assert(index_of(s, '.') == 1) by {
                assert(s[0] != '.');
                assert(s.drop_first()[0] == '.');
            }
            assert(text_fraction(s).len() > 0);
            assert(s.last() == text_fraction(s).last());
        }
    }
    assert(!is_white(s.last()));
    assert(trim_end(s) == s);
}

// ---------------------------------------------------------------------------
// What decoding gives back of an encoded invoice
// ---------------------------------------------------------------------------

/// An optional code as compared after transport.
pub open spec fn opt_code(o: Option<CurrencyCode>) -> Option<Seq<char>> {
    match o {
        Some(c) => Some(c@),
        None => None,
    }
}

/// An optional decimal as compared after transport.
pub open spec fn opt_decimal(o: Option<Decimal>) -> Option<Seq<char>> {
    match o {
        Some(d) => Some(d@),
        None => None,
    }
}

/// Whether an optional decimal is absent or transportable.
pub open spec fn optional_decimal_transportable(o: Option<Decimal>) -> bool {
    match o {
        Some(d) => decimal_transportable(d@),
        None => true,
    }
}

/// Whether the header fields cross transport unchanged.
pub open spec fn header_transportable(d: InvoiceData) -> bool {
    &&& tab_free(d.invoice_id@)
    &&& date_text(d.issue_date@)
    &&& date_transportable(d.tax_point_date)
    &&& text_transportable(d.order_id)
    &&& text_transportable(d.delivery_note_id)
    &&& code_text(d.local_currency_code@)
    &&& match d.foreign_currency_code {
        Some(c) => code_text(c@),
        None => true,
    }
    &&& optional_decimal_transportable(d.curr_rate)
    &&& optional_decimal_transportable(d.reference_curr_rate)
}

/// Whether the supplier fields cross transport unchanged.
pub open spec fn supplier_transportable(p: SupplierParty) -> bool {
    let a = p.postal_address;
    &&& tab_free(p.party_name@)
    &&& text_transportable(p.company_tax_id)
    &&& text_transportable(p.company_vat_id)
    &&& text_transportable(p.company_register_id)
    &&& tab_free(a.street_name@)
    &&& text_transportable(a.building_number)
    &&& tab_free(a.city_name@)
    &&& tab_free(a.postal_zone@)
    &&& text_transportable(a.state)
    &&& code_text(a.country@)
    &&& match p.contact {
        Some(c) => (c.name is Some || c.telephone is Some || c.email is Some) && text_transportable(
            c.name,
        ) && text_transportable(c.telephone) && text_transportable(c.email),
        None => true,
    }
}

/// Whether the customer fields cross transport unchanged.
pub open spec fn customer_transportable(p: CustomerParty) -> bool {
    &&& tab_free(p.party_name@)
    &&& text_transportable(p.company_tax_id)
    &&& text_transportable(p.company_vat_id)
    &&& text_transportable(p.company_register_id)
    &&& text_transportable(p.party_identification)
}

/// Whether the single line crosses transport unchanged.
pub open spec fn single_line_transportable(o: Option<SingleInvoiceLine>) -> bool {
    match o {
        Some(l) => {
            &&& text_transportable(l.order_line_id)
            &&& text_transportable(l.delivery_note_line_id)
            &&& text_transportable(l.item_name)
            &&& text_transportable(l.item_ean_code)
            &&& date_transportable(l.period_from_date)
            &&& date_transportable(l.period_to_date)
            &&& decimal_transportable(l.invoiced_quantity@)
        },
        None => true,
    }
}

/// Whether a summary crosses transport unchanged.
pub open spec fn summary_transportable(s: TaxCategorySummary) -> bool {
    &&& is_canonical_decimal(s.classified_tax_category@)
    &&& percentage_text(s.classified_tax_category@)
    &&& decimal_transportable(s.tax_exclusive_amount@)
    &&& decimal_transportable(s.tax_amount@)
    &&& decimal_transportable(s.already_claimed_tax_exclusive_amount@)
    &&& decimal_transportable(s.already_claimed_tax_amount@)
}

/// Whether an invoice crosses transport unchanged: texts without tabs,
/// optional texts absent or not empty, a contact only with some text,
/// well-formed values (as every value built through the model is), and a
/// valid invoice.
pub open spec fn invoice_transportable(invoice: Invoice) -> bool {
    let d = invoice.data;
    let ss = d.tax_category_summaries.tax_category_summary@;
    &&& header_transportable(d)
    &&& supplier_transportable(d.supplier_party)
    &&& customer_transportable(d.customer_party)
    &&& text_transportable(d.invoice_description)
    &&& single_line_transportable(d.single_invoice_line)
    &&& ss.len() <= u64::MAX
    &&& forall|k: int| 0 <= k < ss.len() ==> summary_transportable(#[trigger] ss[k])
    &&& decimal_transportable(d.monetary_summary.payable_rounding_amount@)
    &&& decimal_transportable(d.monetary_summary.paid_deposits_amount@)
    &&& match d.payment_means {
        Some(m) => 1 <= m@ <= 127,
        None => true,
    }
    &&& invoice_data_error(d) is None
}

/// Whether two invoices agree on their transported header fields.
pub open spec fn same_header(x: InvoiceData, y: InvoiceData) -> bool {
    &&& x.invoice_id@ == y.invoice_id@
    &&& x.issue_date@ == y.issue_date@
    &&& opt_date(x.tax_point_date) == opt_date(y.tax_point_date)
    &&& opt_text(x.order_id) == opt_text(y.order_id)
    &&& opt_text(x.delivery_note_id) == opt_text(y.delivery_note_id)
    &&& x.local_currency_code@ == y.local_currency_code@
    &&& opt_code(x.foreign_currency_code) == opt_code(y.foreign_currency_code)
    &&& opt_decimal(x.curr_rate) == opt_decimal(y.curr_rate)
    &&& opt_decimal(x.reference_curr_rate) == opt_decimal(y.reference_curr_rate)
}

/// Whether two suppliers agree on their transported fields.
pub open spec fn same_supplier(sx: SupplierParty, sy: SupplierParty) -> bool {
    &&& sx.party_name@ == sy.party_name@
    &&& opt_text(sx.company_tax_id) == opt_text(sy.company_tax_id)
    &&& opt_text(sx.company_vat_id) == opt_text(sy.company_vat_id)
    &&& opt_text(sx.company_register_id) == opt_text(sy.company_register_id)
    &&& sx.postal_address.street_name@ == sy.postal_address.street_name@
    &&& opt_text(sx.postal_address.building_number) == opt_text(sy.postal_address.building_number)
    &&& sx.postal_address.city_name@ == sy.postal_address.city_name@
    &&& sx.postal_address.postal_zone@ == sy.postal_address.postal_zone@
    &&& opt_text(sx.postal_address.state) == opt_text(sy.postal_address.state)
    &&& sx.postal_address.country@ == sy.postal_address.country@
    &&& (sx.contact is Some) == (sy.contact is Some)
    &&& (sx.contact is Some ==> opt_text(sx.contact->0.name) == opt_text(sy.contact->0.name)
        && opt_text(sx.contact->0.telephone) == opt_text(sy.contact->0.telephone)
        && opt_text(sx.contact->0.email) == opt_text(sy.contact->0.email))
}

/// Whether two customers agree on their transported fields.
pub open spec fn same_customer(cx: CustomerParty, cy: CustomerParty) -> bool {
    &&& cx.party_name@ == cy.party_name@
    &&& opt_text(cx.company_tax_id) == opt_text(cy.company_tax_id)
    &&& opt_text(cx.company_vat_id) == opt_text(cy.company_vat_id)
    &&& opt_text(cx.company_register_id) == opt_text(cy.company_register_id)
    &&& opt_text(cx.party_identification) == opt_text(cy.party_identification)
}

/// Whether two single lines agree on their transported fields.
pub open spec fn same_single_line(x: Option<SingleInvoiceLine>, y: Option<SingleInvoiceLine>) -> bool {
    &&& (x is Some) == (y is Some)
    &&& (x is Some ==> {
        let lx = x->0;
        let ly = y->0;
        &&& opt_text(lx.order_line_id) == opt_text(ly.order_line_id)
        &&& opt_text(lx.delivery_note_line_id) == opt_text(ly.delivery_note_line_id)
        &&& opt_text(lx.item_name) == opt_text(ly.item_name)
        &&& opt_text(lx.item_ean_code) == opt_text(ly.item_ean_code)
        &&& opt_date(lx.period_from_date) == opt_date(ly.period_from_date)
        &&& opt_date(lx.period_to_date) == opt_date(ly.period_to_date)
        &&& lx.invoiced_quantity@ == ly.invoiced_quantity@
    })
}

/// Whether two summaries agree on their transported fields.
pub open spec fn same_summary(x: TaxCategorySummary, y: TaxCategorySummary) -> bool {
    &&& x.classified_tax_category@ == y.classified_tax_category@
    &&& x.tax_exclusive_amount@ == y.tax_exclusive_amount@
    &&& x.tax_amount@ == y.tax_amount@
    &&& x.already_claimed_tax_exclusive_amount@ == y.already_claimed_tax_exclusive_amount@
    &&& x.already_claimed_tax_amount@ == y.already_claimed_tax_amount@
}

/// Whether two invoices agree on every transported field.
pub open spec fn same_transported_invoice(a: Invoice, b: Invoice) -> bool {
    let x = a.data;
    let y = b.data;
    let ssx = x.tax_category_summaries.tax_category_summary@;
    let ssy = y.tax_category_summaries.tax_category_summary@;
    &&& a.document_type == b.document_type
    &&& same_header(x, y)
    &&& same_supplier(x.supplier_party, y.supplier_party)
    &&& same_customer(x.customer_party, y.customer_party)
    &&& x.number_of_invoice_lines == y.number_of_invoice_lines
    &&& opt_text(x.invoice_description) == opt_text(y.invoice_description)
    &&& same_single_line(x.single_invoice_line, y.single_invoice_line)
    &&& ssx.len() == ssy.len()
    &&& forall|k: int| 0 <= k < ssx.len() ==> same_summary(#[trigger] ssx[k], ssy[k])
    &&& x.monetary_summary.payable_rounding_amount@ == y.monetary_summary.payable_rounding_amount@
    &&& x.monetary_summary.paid_deposits_amount@ == y.monetary_summary.paid_deposits_amount@
    &&& (x.payment_means is Some) == (y.payment_means is Some)
    &&& (x.payment_means is Some ==> x.payment_means->0@ == y.payment_means->0@)
}

proof fn lemma_required_text(s: Seq<char>)
    requires
        tab_free(s),
    ensures
        sanitized_text(s) == s,
{
    lemma_sanitized_identity(s);
}

proof fn lemma_code_field(s: Seq<char>)
    requires
        code_text(s),
    ensures
        tab_free(s),
{
    assert forall|k: int| 0 <= k < s.len() implies s[k] != '\t' by {
        assert('A' <= s[k] <= 'Z');
    }
}

proof fn lemma_optional_decimal_field(o: Option<Decimal>)
    requires
        optional_decimal_transportable(o),
    ensures
        tab_free(optional_decimal_field(o)),
        optional_decimal_acceptable(optional_decimal_field(o)),
        forall|v: Option<Decimal>| optional_decimal_decoded(optional_decimal_field(o), v) ==> opt_decimal(v)
            == opt_decimal(o),
        (optional_decimal_field(o).len() > 0) == (o is Some),
{
    match o {
        Some(d) => {
            lemma_decimal_field(d@);
            lemma_canonical_chars(d@);
        },
        None => {},
    }
}

proof fn lemma_numeral_tab_free(s: Seq<char>)
    requires
        is_numeral(s),
    ensures
        tab_free(s),
{
    assert forall|k: int| 0 <= k < s.len() implies s[k] != '\t' by {
        assert(crate::decimal::is_digit(s[k]));
    }
}

proof fn lemma_header_part(d: InvoiceData)
    requires
        header_transportable(d),
    ensures
        forall|i: int| 0 <= i < 9 ==> tab_free(#[trigger] header_fields(d)[i]),
        header_acceptable(header_fields(d)),
        header_fields(d).len() == 9,
        (header_fields(d)[6].len() > 0) == (d.foreign_currency_code is Some),
        (header_fields(d)[7].len() > 0) == (d.curr_rate is Some),
        (header_fields(d)[8].len() > 0) == (d.reference_curr_rate is Some),
        forall|y: InvoiceData| header_decoded(header_fields(d), y) ==> same_header(y, d),
{
    lemma_required_text(d.invoice_id@);
    lemma_dashless_date(d.issue_date@);
    let c = dashless(d.issue_date@);
    assert forall|k: int| 0 <= k < c.len() implies c[k] != '\t' by {
        assert(crate::decimal::is_digit(c[k]));
    }
    lemma_optional_date_field(d.tax_point_date);
    lemma_optional_text_field(d.order_id);
    lemma_optional_text_field(d.delivery_note_id);
    lemma_code_field(d.local_currency_code@);
    match d.foreign_currency_code {
        Some(c) => {
            lemma_code_field(c@);
        },
        None => {},
    }
    lemma_optional_decimal_field(d.curr_rate);
    lemma_optional_decimal_field(d.reference_curr_rate);
}

proof fn lemma_supplier_part(p: SupplierParty)
    requires
        supplier_transportable(p),
    ensures
        forall|i: int| 0 <= i < 13 ==> tab_free(#[trigger] supplier_fields(p)[i]),
        supplier_acceptable(supplier_fields(p)),
        supplier_fields(p).len() == 13,
        forall|y: SupplierParty| supplier_decoded(supplier_fields(p), y) ==> same_supplier(y, p),
{
    let a = p.postal_address;
    lemma_required_text(p.party_name@);
    lemma_optional_text_field(p.company_tax_id);
    lemma_optional_text_field(p.company_vat_id);
    lemma_optional_text_field(p.company_register_id);
    lemma_required_text(a.street_name@);
    lemma_optional_text_field(a.building_number);
    lemma_required_text(a.city_name@);
    lemma_required_text(a.postal_zone@);
    lemma_optional_text_field(a.state);
    lemma_code_field(a.country@);
    let (cn, ct, ce) = match p.contact {
        Some(c) => (c.name, c.telephone, c.email),
        None => (None, None, None),
    };
    lemma_optional_text_field(cn);
    lemma_optional_text_field(ct);
    lemma_optional_text_field(ce);
    let raw = supplier_fields(p);
    assert(raw[10] == optional_field(cn));
    assert(raw[11] == optional_field(ct));
    assert(raw[12] == optional_field(ce));
    assert forall|y: SupplierParty| supplier_decoded(raw, y) implies same_supplier(y, p) by {
        match y.contact {
            Some(c) => {
                assert(p.contact is Some);
            },
            None => {
                assert(p.contact is None);
            },
        }
    }
}

proof fn lemma_customer_part(p: CustomerParty)
    requires
        customer_transportable(p),
    ensures
        forall|i: int| 0 <= i < 5 ==> tab_free(#[trigger] customer_fields(p)[i]),
        customer_fields(p).len() == 5,
        forall|y: CustomerParty| customer_decoded(customer_fields(p), y) ==> same_customer(y, p),
{
    lemma_required_text(p.party_name@);
    lemma_optional_text_field(p.company_tax_id);
    lemma_optional_text_field(p.company_vat_id);
    lemma_optional_text_field(p.company_register_id);
    lemma_optional_text_field(p.party_identification);
}

proof fn lemma_single_line_part(o: Option<SingleInvoiceLine>)
    requires
        single_line_transportable(o),
    ensures
        forall|i: int| 0 <= i < 7 ==> tab_free(#[trigger] line_fields(o)[i]),
        single_line_acceptable(line_fields(o)),
        line_fields(o).len() == 7,
        (line_fields(o)[6].len() > 0) == (o is Some),
        o matches Some(l) ==> (line_fields(o)[2].len() > 0) == (l.item_name is Some) && (line_fields(
            o,
        )[3].len() > 0) == (l.item_ean_code is Some) && (line_fields(o)[4].len() > 0) == (
        l.period_from_date is Some) && (line_fields(o)[5].len() > 0) == (l.period_to_date is Some),
        forall|y: Option<SingleInvoiceLine>| line_decoded(line_fields(o), y) ==> same_single_line(y, o),
{
    match o {
        Some(l) => {
            lemma_optional_text_field(l.order_line_id);
            lemma_optional_text_field(l.delivery_note_line_id);
            lemma_optional_text_field(l.item_name);
            lemma_optional_text_field(l.item_ean_code);
            lemma_optional_date_field(l.period_from_date);
            lemma_optional_date_field(l.period_to_date);
            lemma_decimal_field(l.invoiced_quantity@);
            lemma_canonical_chars(l.invoiced_quantity@);
        },
        None => {
            let raw = line_fields(o);
            assert forall|i: int| 0 <= i < 7 implies tab_free(#[trigger] raw[i]) by {
                assert(raw[i].len() == 0);
            }
        },
    }
}

proof fn lemma_summary_part(s: TaxCategorySummary)
    requires
        summary_transportable(s),
    ensures
        forall|i: int| 0 <= i < 5 ==> tab_free(#[trigger] summary_fields(s)[i]),
        summary_acceptable(summary_fields(s)),
        summary_fields(s).len() == 5,
        forall|y: TaxCategorySummary| summary_decoded(summary_fields(s), y) ==> same_summary(y, s),
{
    lemma_vat_field(s.classified_tax_category@);
    lemma_decimal_field(s.tax_exclusive_amount@);
    lemma_decimal_field(s.tax_amount@);
    lemma_decimal_field(s.already_claimed_tax_exclusive_amount@);
    lemma_decimal_field(s.already_claimed_tax_amount@);
}

proof fn lemma_tail_part(d: InvoiceData)
    requires
        decimal_transportable(d.monetary_summary.payable_rounding_amount@),
        decimal_transportable(d.monetary_summary.paid_deposits_amount@),
        match d.payment_means {
            Some(m) => 1 <= m@ <= 127,
            None => true,
        },
        match d.number_of_invoice_lines {
            Some(v) => v >= 0 && v != 1,
            None => true,
        },
        text_transportable(d.invoice_description),
    ensures
        tab_free(d.monetary_summary.payable_rounding_amount@),
        tab_free(d.monetary_summary.paid_deposits_amount@),
        decimal_canonical(d.monetary_summary.payable_rounding_amount@, false) == Some(
            d.monetary_summary.payable_rounding_amount@,
        ),
        decimal_canonical(d.monetary_summary.paid_deposits_amount@, false) == Some(
            d.monetary_summary.paid_deposits_amount@,
        ),
        d.payment_means matches Some(m) ==> is_numeral(nat_text(m@ as nat)) && digits_value(nat_text(m@ as nat)) == m@
            && tab_free(nat_text(m@ as nat)),
        d.number_of_invoice_lines matches Some(v) ==> int_text(v as int) == nat_text(v as nat)
            && is_numeral(nat_text(v as nat)) && digits_value(nat_text(v as nat)) == v && tab_free(
            nat_text(v as nat),
        ),
        tab_free(optional_field(d.invoice_description)),
        (optional_field(d.invoice_description).len() > 0) == (d.invoice_description is Some),
        forall|v: Option<String>| optional_decoded(optional_field(d.invoice_description), v) ==> opt_text(v)
            == opt_text(d.invoice_description),
{
    lemma_decimal_field(d.monetary_summary.payable_rounding_amount@);
    lemma_decimal_field(d.monetary_summary.paid_deposits_amount@);
    match d.payment_means {
        Some(m) => {
            crate::numeral::lemma_nat_text(m@ as nat);
            lemma_numeral_tab_free(nat_text(m@ as nat));
        },
        None => {},
    }
    match d.number_of_invoice_lines {
        Some(v) => {
            crate::numeral::lemma_nat_text(v as nat);
            lemma_numeral_tab_free(nat_text(v as nat));
        },
        None => {},
    }
    lemma_optional_text_field(d.invoice_description);
}

/// What decoding gives back of an encoded invoice: a transportable invoice
/// is written as fields that split back apart, that decode, and from which
/// every decoded invoice of the same document type agrees with it on each
/// transported field (computed amounts are not transported and come back
/// absent).
#[verifier::rlimit(60)]
pub proof fn lemma_invoice_round_trip(invoice: Invoice)
    requires
        invoice_transportable(invoice),
    ensures
        split_tabs(invoice_sequence(invoice)) == invoice_fields(invoice),
        invoice_acceptable(invoice_fields(invoice)),
        forall|other: Invoice|
            invoice_decoded(invoice_fields(invoice), invoice.document_type, other)
                ==> same_transported_invoice(other, invoice),
{
    let d = invoice.data;
    let ss = d.tax_category_summaries.tax_category_summary@;
    let n = ss.len() as int;
    let raw = invoice_fields(invoice);
    let hf = header_fields(d);
    let sf = supplier_fields(d.supplier_party);
    let cf = customer_fields(d.customer_party);
    let lf = line_fields(d.single_invoice_line);
    lemma_summaries_fields_shape(ss);
    crate::numeral::lemma_nat_text(n as nat);
    lemma_numeral_tab_free(nat_text(n as nat));
    lemma_header_part(d);
    lemma_supplier_part(d.supplier_party);
    lemma_customer_part(d.customer_party);
    lemma_single_line_part(d.single_invoice_line);
    assert(d.number_of_invoice_lines matches Some(v) ==> v >= 0 && v != 1);
    lemma_tail_part(d);
    assert(raw.len() == 40 + 5 * n);
    assert(raw.take(9) =~= hf);
    assert(raw.subrange(9, 22) =~= sf);
    assert(raw.subrange(22, 27) =~= cf);
    assert(raw.subrange(29, 36) =~= lf);
    assert(raw[36] == nat_text(n as nat));
    assert forall|k: int| 0 <= k < n implies raw.subrange(37 + 5 * k, 42 + 5 * k) == summary_fields(#[trigger] ss[k]) by {
        assert(raw.subrange(37 + 5 * k, 42 + 5 * k) =~= summaries_fields(ss).subrange(5 * k, 5 * k + 5));
    }
    assert forall|i: int| 0 <= i < raw.len() implies tab_free(#[trigger] raw[i]) by {
        if i < 9 {
            assert(raw[i] == hf[i]);
        } else if i < 22 {
            assert(raw[i] == sf[i - 9]);
        } else if i < 27 {
            assert(raw[i] == cf[i - 22]);
        } else if i < 29 {
        } else if i < 36 {
            assert(raw[i] == lf[i - 29]);
        } else if i == 36 {
        } else if i < 37 + 5 * n {
            let k = (i - 37) / 5;
            assert(0 <= k < n);
            assert(raw[i] == raw.subrange(37 + 5 * k, 42 + 5 * k)[i - 37 - 5 * k]);
            assert(raw.subrange(37 + 5 * k, 42 + 5 * k) == summary_fields(ss[k]));
            lemma_summary_part(ss[k]);
        }
    }
    lemma_split_joined(raw);
    assert forall|k: int| 0 <= k < n implies summary_acceptable(#[trigger] raw.subrange(37 + 5 * k, 42 + 5 * k)) by {
        assert(raw.subrange(37 + 5 * k, 42 + 5 * k) == summary_fields(ss[k]));
        lemma_summary_part(ss[k]);
    }
    assert(raw[6] == hf[6]);
    assert(raw[7] == hf[7]);
    assert(raw[8] == hf[8]);
    assert(raw[35] == lf[6]);
    assert(raw[31] == lf[2]);
    assert(raw[32] == lf[3]);
    assert(raw[33] == lf[4]);
    assert(raw[34] == lf[5]);
    assert(invoice_rules_acceptable(raw));
    assert(invoice_acceptable(raw));
    assert forall|other: Invoice| invoice_decoded(raw, invoice.document_type, other) implies same_transported_invoice(
        other,
        invoice,
    ) by {
        let y = other.data;
        let ssy = y.tax_category_summaries.tax_category_summary@;
        assert(ssy.len() == n);
        assert forall|k: int| 0 <= k < n implies same_summary(#[trigger] ssy[k], ss[k]) by {
            let w = raw.subrange(37 + 5 * k, 42 + 5 * k);
            assert(summary_decoded(w, ssy[k]));
            assert(w == summary_fields(ss[k]));
            lemma_summary_part(ss[k]);
        }
        assert(raw.subrange(37 + 5 * n, 39 + 5 * n)[0] == raw[37 + 5 * n]);
        assert(raw.subrange(37 + 5 * n, 39 + 5 * n)[1] == raw[38 + 5 * n]);
        match y.number_of_invoice_lines {
            Some(v) => {
                assert(d.number_of_invoice_lines is Some);
            },
            None => {},
        }
        match y.payment_means {
            Some(m) => {
                assert(d.payment_means is Some);
            },
            None => {},
        }
    }
}

/// What decoding an INVOICE payload gives back: the payload text of a
/// transportable invoice carries its sequence under its own INVOICE header,
/// so that decoding it succeeds with the invoice's document type, and every
/// invoice it decodes to agrees with it on each transported field.
pub proof fn lemma_invoice_payload_round_trip(invoice: Invoice, text: Seq<char>)
    requires
        invoice_transportable(invoice),
        payload_decoded(text) == Some((
            crate::invoice::encode::invoice_header(invoice),
            crate::invoice::encode::invoice_sequence(invoice),
        )),
    ensures
        invoice_payload_ok(text),
        document_type_of(crate::invoice::encode::invoice_header(invoice).document_type) == Some(
            invoice.document_type,
        ),
        forall|other: Invoice|
            invoice_decoded(split_tabs(crate::invoice::encode::invoice_sequence(invoice)), invoice.document_type, other)
                ==> same_transported_invoice(other, invoice),
{
    crate::invoice::models::lemma_document_type_classifier_round_trip(invoice.document_type, 0);
    lemma_invoice_round_trip(invoice);
}

/// Every INVOICE sequence has forty fields and five more per tax category
/// summary; for a transportable invoice, splitting its sequence at tabs
/// gives exactly that many fields, since user tabs are written as spaces.
pub proof fn lemma_invoice_field_count(invoice: Invoice)
    ensures
        invoice_fields(invoice).len() == 40 + 5 * invoice.data.tax_category_summaries.tax_category_summary@.len(),
        invoice_transportable(invoice) ==> split_tabs(crate::invoice::encode::invoice_sequence(invoice)).len()
            == 40 + 5 * invoice.data.tax_category_summaries.tax_category_summary@.len(),
{
    lemma_summaries_fields_shape(invoice.data.tax_category_summaries.tax_category_summary@);
    if invoice_transportable(invoice) {
        lemma_invoice_round_trip(invoice);
    }
}

} // verus!
