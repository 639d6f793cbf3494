//! INVOICE ITEMS by square sequence, payload and chunk encoding, and the
//! reassembly of blocks into one ordered line set.

use vstd::prelude::*;
use super::models::{
    check_against_invoice, line_error, lines_error, parent_error, validate_lines, InvoiceItems,
    InvoiceItemsList, InvoiceLine, InvoiceLines,
};
use crate::codec::{encode_payload, payload_decoded, uncompressed_payload, Header, MAX_UNCOMPRESSED_BYTES};
use crate::decimal::digits_value;
use crate::error::{Error, Result};
use crate::fields::{join_fields, joined, sanitized, sanitized_text, texts};
use crate::invoice::encode::{optional_date_field, optional_field};
use crate::invoice::models::{dashless, Date, Invoice, InvoiceModelError, ModelResult};
use crate::numeral::{is_numeral, nat_text, u64_string};
use crate::text::{chars_of, string_from_chars};

verus! {

/// The number of lines per QR block that the specification recommends.
pub const RECOMMENDED_INVOICE_LINES_PER_QR: usize = 4;

/// The payload header of INVOICE ITEMS: type 2, all else zero.
pub open spec fn items_header() -> Header {
    Header { by_square_type: 2, version: 0, document_type: 0, reserved: 0 }
}

/// The twelve transported fields of one line; computed amounts are not
/// transported.
pub open spec fn line_fields(l: InvoiceLine) -> Seq<Seq<char>> {
    seq![
        match l.order_reference {
            Some(r) => optional_field(r.order_id),
            None => seq![],
        },
        match l.order_reference {
            Some(r) => optional_field(r.order_line_id),
            None => seq![],
        },
        match l.delivery_note_reference {
            Some(r) => optional_field(r.delivery_note_id),
            None => seq![],
        },
        match l.delivery_note_reference {
            Some(r) => optional_field(r.delivery_note_line_id),
            None => seq![],
        },
        optional_field(l.item_name),
        optional_field(l.item_ean_code),
        optional_date_field(l.period_from_date),
        optional_date_field(l.period_to_date),
        l.invoiced_quantity@,
        l.unit_price_tax_exclusive_amount@,
        l.unit_price_tax_amount@,
        l.classified_tax_category@,
    ]
}

/// The fields of a list of lines, in order.
pub open spec fn lines_fields(lines: Seq<InvoiceLine>) -> Seq<Seq<char>>
    decreases lines.len(),
{
    if lines.len() == 0 {
        seq![]
    } else {
        lines_fields(lines.drop_last()) + line_fields(lines.last())
    }
}

/// The fields of a line list: twelve per line, in order.
pub proof fn lemma_lines_fields_shape(lines: Seq<InvoiceLine>)
    ensures
        lines_fields(lines).len() == 12 * lines.len(),
        forall|j: int|
            0 <= j < lines.len() ==> lines_fields(lines).subrange(12 * j, 12 * j + 12) == line_fields(
                #[trigger] lines[j],
            ),
    decreases lines.len(),
{
    if lines.len() > 0 {
        let init = lines.drop_last();
        lemma_lines_fields_shape(init);
        let all = lines_fields(lines);
        assert(all == lines_fields(init) + line_fields(lines.last()));
        assert forall|j: int| 0 <= j < lines.len() implies all.subrange(12 * j, 12 * j + 12) == line_fields(
            #[trigger] lines[j],
        ) by {
            if j < lines.len() - 1 {
                assert(init[j] == lines[j]);
                assert(all.subrange(12 * j, 12 * j + 12) =~= lines_fields(init).subrange(12 * j, 12 * j + 12));
            } else {
                assert(all.subrange(12 * j, 12 * j + 12) =~= line_fields(lines.last()));
            }
        }
    }
}

/// Every field of a block's sequence: the invoice and first line numbers,
/// the number of lines, then twelve fields per line.
pub open spec fn items_fields(d: InvoiceItems) -> Seq<Seq<char>> {
    let lines = d.invoice_lines.invoice_line@;
    seq![sanitized_text(d.invoice_id@), sanitized_text(d.first_invoice_line_id@), nat_text(lines.len())]
        + lines_fields(lines)
}

/// The sequence of a block: its fields joined by tabs.
pub open spec fn items_sequence(d: InvoiceItems) -> Seq<char> {
    joined(items_fields(d))
}

fn push_field(fields: &mut Vec<String>, value: String)
    ensures
        texts(final(fields)@) == texts(old(fields)@).push(value@),
{
    let ghost before = fields@;
    fields.push(value);
    assert(texts(fields@) =~= texts(before).push(value@));
}

fn optional_text(value: &Option<String>) -> (r: String)
    ensures
        r@ == optional_field(*value),
{
    match value {
        Some(v) => sanitized(v.as_str()),
        None => String::new(),
    }
}

fn optional_date(value: &Option<Date>) -> (r: String)
    ensures
        r@ == optional_date_field(*value),
{
    match value {
        Some(d) => {
            let chars = chars_of(d.as_str());
            let mut out: Vec<char> = Vec::new();
            let mut i: usize = 0;
            assert(chars@.take(0) =~= Seq::<char>::empty());
            while i < chars.len()
                invariant
                    i <= chars@.len(),
                    chars@ == d@,
                    out@ == dashless(chars@.take(i as int)),
                decreases chars.len() - i,
            {
                assert(chars@.take(i + 1).drop_last() =~= chars@.take(i as int));
                if chars[i] != '-' {
                    out.push(chars[i]);
                }
                i = i + 1;
            }
            assert(chars@.take(chars@.len() as int) =~= chars@);
            string_from_chars(out.as_slice())
        },
        None => String::new(),
    }
}

fn push_line(fields: &mut Vec<String>, line: &InvoiceLine)
    ensures
        texts(final(fields)@) == texts(old(fields)@) + line_fields(*line),
{
    let ghost start = texts(fields@);
    let (order_id, order_line_id) = match &line.order_reference {
        Some(r) => (optional_text(&r.order_id), optional_text(&r.order_line_id)),
        None => (String::new(), String::new()),
    };
    let (note_id, note_line_id) = match &line.delivery_note_reference {
        Some(r) => (optional_text(&r.delivery_note_id), optional_text(&r.delivery_note_line_id)),
        None => (String::new(), String::new()),
    };
    push_field(fields, order_id);
    push_field(fields, order_line_id);
    push_field(fields, note_id);
    push_field(fields, note_line_id);
    push_field(fields, optional_text(&line.item_name));
    push_field(fields, optional_text(&line.item_ean_code));
    push_field(fields, optional_date(&line.period_from_date));
    push_field(fields, optional_date(&line.period_to_date));
    push_field(fields, line.invoiced_quantity.as_str().to_owned());
    push_field(fields, line.unit_price_tax_exclusive_amount.as_str().to_owned());
    push_field(fields, line.unit_price_tax_amount.as_str().to_owned());
    push_field(fields, line.classified_tax_category.as_str().to_owned());
    assert(texts(fields@) =~= start + line_fields(*line));
}

/// Serialize one block into its tab-delimited sequence; a block that breaks
/// a model rule is rejected with that rule's field.
pub fn encode_sequence(document: &InvoiceItems) -> (res: Result<String>)
    ensures
        lines_error(document.invoice_lines.invoice_line@) matches Some(f) ==> res matches Err(
            Error::InvalidInput { field, .. },
        ) && field == f,
        lines_error(document.invoice_lines.invoice_line@) is None ==> (res matches Ok(s) && s@
            == items_sequence(*document)),
{
    match document.validate() {
        Ok(()) => {},
        Err(error) => return Err(Error::invalid(error.field(), error.message())),
    }
    let lines = &document.invoice_lines.invoice_line;
    let mut fields: Vec<String> = Vec::new();
    push_field(&mut fields, sanitized(document.invoice_id.as_str()));
    push_field(&mut fields, sanitized(document.first_invoice_line_id.as_str()));
    push_field(&mut fields, u64_string(lines.len() as u64));
    let ghost head = texts(fields@);
    let mut i: usize = 0;
    assert(lines@.take(0) =~= Seq::<InvoiceLine>::empty());
    assert(head + lines_fields(lines@.take(0)) =~= head);
    while i < lines.len()
        invariant
            i <= lines@.len(),
            texts(fields@) == head + lines_fields(lines@.take(i as int)),
        decreases lines.len() - i,
    {
        push_line(&mut fields, &lines[i]);
        assert(lines@.take(i + 1).drop_last() =~= lines@.take(i as int));
        i = i + 1;
    }
    assert(lines@.take(lines@.len() as int) =~= lines@);
    assert(texts(fields@) =~= items_fields(*document));
    Ok(join_fields(&fields))
}

/// Encode one block into its Base32hex payload behind the INVOICE ITEMS
/// header.
pub fn encode(document: &InvoiceItems) -> (res: Result<String>)
    ensures
        lines_error(document.invoice_lines.invoice_line@) matches Some(f) ==> res matches Err(
            Error::InvalidInput { field, .. },
        ) && field == f,
        lines_error(document.invoice_lines.invoice_line@) is None && uncompressed_payload(
            items_sequence(*document),
        ).len() > MAX_UNCOMPRESSED_BYTES ==> res matches Err(Error::PayloadTooLong(_)),
        lines_error(document.invoice_lines.invoice_line@) is None && uncompressed_payload(
            items_sequence(*document),
        ).len() <= MAX_UNCOMPRESSED_BYTES ==> res is Ok,
        res matches Ok(t) ==> payload_decoded(t@) == Some((items_header(), items_sequence(*document))),
        res matches Err(e) ==> e is InvalidInput || e is PayloadTooLong,
{
    let sequence = encode_sequence(document)?;
    let header = Header { by_square_type: 2, version: 0, document_type: 0, reserved: 0 };
    encode_payload(header, sequence.as_str())
}

/// Whether `blocks` are the four-line blocks of `lines` under `invoice_id`:
/// block `k` holds lines `4k` up to `4k + 4` and names line `4k + 1` first.
pub open spec fn chunked(invoice_id: Seq<char>, lines: Seq<InvoiceLine>, blocks: Seq<InvoiceItems>) -> bool {
    &&& blocks.len() == (lines.len() + 3) / 4
    &&& forall|k: int|
        0 <= k < blocks.len() ==> {
            &&& (#[trigger] blocks[k]).invoice_id@ == invoice_id
            &&& blocks[k].first_invoice_line_id@ == nat_text((4 * k + 1) as nat)
            &&& blocks[k].invoice_lines.invoice_line@ == lines.subrange(
                4 * k,
                if 4 * k + 4 <= lines.len() { 4 * k + 4 } else { lines.len() as int },
            )
        }
}

/// Split a complete ordered line list into blocks of four lines (the last
/// may hold fewer), numbering each block's first line.
pub fn chunk_invoice_lines(invoice_id: &str, invoice_lines: Vec<InvoiceLine>) -> (r: ModelResult<Vec<InvoiceItems>>)
    ensures
        r is Ok <==> lines_error(invoice_lines@) is None,
        r matches Err(e) ==> lines_error(invoice_lines@) == Some(e.field_spec()),
        r matches Ok(blocks) ==> chunked(invoice_id@, invoice_lines@, blocks@),
{
    validate_lines(&invoice_lines)?;
    let ghost all = invoice_lines@;
    let n = invoice_lines.len();
    let mut rest = invoice_lines;
    let mut blocks: Vec<InvoiceItems> = Vec::new();
    let mut taken: usize = 0;
    while rest.len() > 0
        invariant
            taken <= n == all.len(),
            rest@ == all.skip(taken as int),
            rest@.len() > 0 ==> taken == 4 * blocks@.len(),
            taken == (if 4 * blocks@.len() <= n { 4 * blocks@.len() as int } else { n as int }),
            blocks@.len() == 0 || 4 * (blocks@.len() - 1) < taken,
            forall|k: int|
                0 <= k < blocks@.len() ==> {
                    &&& (#[trigger] blocks@[k]).invoice_id@ == invoice_id@
                    &&& blocks@[k].first_invoice_line_id@ == nat_text((4 * k + 1) as nat)
                    &&& blocks@[k].invoice_lines.invoice_line@ == all.subrange(
                        4 * k,
                        if 4 * k + 4 <= all.len() { 4 * k + 4 } else { all.len() as int },
                    )
                },
        decreases rest.len(),
    {
        let mut chunk: Vec<InvoiceLine> = Vec::new();
        while chunk.len() < 4 && rest.len() > 0
            invariant
                taken + chunk@.len() <= n,
                chunk@.len() <= 4,
                rest@ == all.skip(taken + chunk@.len()),
                chunk@ == all.subrange(taken as int, taken + chunk@.len()),
                taken <= n == all.len(),
            decreases rest.len(),
        {
            let line = rest.remove(0);
            chunk.push(line);
            assert(chunk@ =~= all.subrange(taken as int, taken + chunk@.len()));
            assert(rest@ =~= all.skip(taken + chunk@.len()));
        }
        let length = chunk.len();
        let first = u64_string((taken + 1) as u64);
        let ghost b = blocks@.len();
        assert(taken == 4 * b);
        assert(length == 4 || rest@.len() == 0);
        assert(length == (if 4 * b + 4 <= n { 4 } else { n - 4 * b as int }));
        let block = InvoiceItems {
            invoice_id: invoice_id.to_owned(),
            first_invoice_line_id: first,
            invoice_lines: InvoiceLines::new(chunk),
        };
        blocks.push(block);
        taken = taken + length;
    }
    proof {
        let b = blocks@.len() as int;
        assert(taken == n);
        let m = n as int + 3;
        assert(b > 0 ==> 4 * b <= m && m < 4 * b + 4);
        assert(b == 0 ==> m == 3);
        vstd::arithmetic::div_mod::lemma_fundamental_div_mod(m, 4);
        assert(b == m / 4);
    }
    Ok(blocks)
}

/// The four-line blocks of a complete list.
pub fn chunk_invoice_items_list(list: &InvoiceItemsList) -> (r: ModelResult<Vec<InvoiceItems>>)
    ensures
        r is Ok <==> lines_error(list.invoice_lines.invoice_line@) is None,
        r matches Err(e) ==> lines_error(list.invoice_lines.invoice_line@) == Some(e.field_spec()),
        r matches Ok(blocks) ==> chunked(list.invoice_id@, list.invoice_lines.invoice_line@, blocks@),
{
    let lines = list.invoice_lines.invoice_line.clone();
    assert(lines@ =~= list.invoice_lines.invoice_line@);
    chunk_invoice_lines(list.invoice_id.as_str(), lines)
}

/// Whether every block's payload fits the 16-bit length field.
pub open spec fn blocks_fit(blocks: Seq<InvoiceItems>) -> bool {
    forall|k: int|
        0 <= k < blocks.len() ==> uncompressed_payload(items_sequence(#[trigger] blocks[k])).len()
            <= MAX_UNCOMPRESSED_BYTES
}

/// Chunk a complete ordered line list and encode every block, in order.
pub fn encode_chunks(invoice_id: &str, invoice_lines: Vec<InvoiceLine>) -> (res: Result<Vec<String>>)
    ensures
        lines_error(invoice_lines@) matches Some(f) ==> res matches Err(Error::InvalidInput { field, .. })
            && field == f,
        res matches Ok(payloads) ==> exists|blocks: Seq<InvoiceItems>|
            chunked(invoice_id@, invoice_lines@, blocks) && payloads@.len() == blocks.len() && forall|k: int|
                0 <= k < blocks.len() ==> payload_decoded((#[trigger] payloads@[k])@) == Some(
                    (items_header(), items_sequence(blocks[k])),
                ),
        res matches Err(e) ==> e is InvalidInput || e is PayloadTooLong,
        lines_error(invoice_lines@) is None ==> !(res matches Err(Error::InvalidInput { .. })),
        lines_error(invoice_lines@) is None && (forall|blocks: Seq<InvoiceItems>|
            chunked(invoice_id@, invoice_lines@, blocks) ==> blocks_fit(blocks)) ==> res is Ok,
        res matches Err(Error::PayloadTooLong(_)) ==> exists|blocks: Seq<InvoiceItems>|
            chunked(invoice_id@, invoice_lines@, blocks) && !blocks_fit(blocks),
{
    let ghost input = invoice_lines@;
    let blocks = match chunk_invoice_lines(invoice_id, invoice_lines) {
        Ok(b) => b,
        Err(error) => return Err(Error::invalid(error.field(), error.message())),
    };
    let mut payloads: Vec<String> = Vec::new();
    let mut i: usize = 0;
    while i < blocks.len()
        invariant
            i <= blocks@.len(),
            input == invoice_lines@,
            lines_error(input) is None,
            chunked(invoice_id@, input, blocks@),
            payloads@.len() == i,
            forall|k: int| 0 <= k < blocks@.len() ==> lines_error((#[trigger] blocks@[k]).invoice_lines.invoice_line@) is None,
            forall|k: int|
                0 <= k < i ==> payload_decoded((#[trigger] payloads@[k])@) == Some(
                    (items_header(), items_sequence(blocks@[k])),
                ),
        decreases blocks.len() - i,
    {
        let payload = match encode(&blocks[i]) {
            Ok(p) => p,
            Err(e) => {
                assert(lines_error(blocks@[i as int].invoice_lines.invoice_line@) is None);
                assert(!blocks_fit(blocks@));
                return Err(e);
            },
        };
        payloads.push(payload);
        i = i + 1;
    }
    Ok(payloads)
}

/// Chunk and encode a complete list.
pub fn encode_invoice_items_list(list: &InvoiceItemsList) -> (res: Result<Vec<String>>)
    ensures
        lines_error(list.invoice_lines.invoice_line@) matches Some(f) ==> res matches Err(
            Error::InvalidInput { field, .. },
        ) && field == f,
        res matches Ok(payloads) ==> exists|blocks: Seq<InvoiceItems>|
            chunked(list.invoice_id@, list.invoice_lines.invoice_line@, blocks) && payloads@.len() == blocks.len()
                && forall|k: int|
                0 <= k < blocks.len() ==> payload_decoded((#[trigger] payloads@[k])@) == Some(
                    (items_header(), items_sequence(blocks[k])),
                ),
        res matches Err(e) ==> e is InvalidInput || e is PayloadTooLong,
        lines_error(list.invoice_lines.invoice_line@) is None ==> !(res matches Err(Error::InvalidInput { .. })),
        lines_error(list.invoice_lines.invoice_line@) is None && (forall|blocks: Seq<InvoiceItems>|
            chunked(list.invoice_id@, list.invoice_lines.invoice_line@, blocks) ==> blocks_fit(blocks)) ==> res is Ok,
        res matches Err(Error::PayloadTooLong(_)) ==> exists|blocks: Seq<InvoiceItems>|
            chunked(list.invoice_id@, list.invoice_lines.invoice_line@, blocks) && !blocks_fit(blocks),
{
    let lines = list.invoice_lines.invoice_line.clone();
    assert(lines@ =~= list.invoice_lines.invoice_line@);
    encode_chunks(list.invoice_id.as_str(), lines)
}

impl InvoiceItemsList {
    /// Chunk and encode the list; see [`encode_invoice_items_list`].
    pub fn encode_chunks(&self) -> (res: Result<Vec<String>>)
        ensures
            lines_error(self.invoice_lines.invoice_line@) matches Some(f) ==> res matches Err(
                Error::InvalidInput { field, .. },
            ) && field == f,
            res matches Ok(payloads) ==> exists|blocks: Seq<InvoiceItems>|
                chunked(self.invoice_id@, self.invoice_lines.invoice_line@, blocks) && payloads@.len()
                    == blocks.len() && forall|k: int|
                    0 <= k < blocks.len() ==> payload_decoded((#[trigger] payloads@[k])@) == Some(
                        (items_header(), items_sequence(blocks[k])),
                    ),
            res matches Err(e) ==> e is InvalidInput || e is PayloadTooLong,
            lines_error(self.invoice_lines.invoice_line@) is None ==> !(res matches Err(Error::InvalidInput { .. })),
            lines_error(self.invoice_lines.invoice_line@) is None && (forall|blocks: Seq<InvoiceItems>|
                chunked(self.invoice_id@, self.invoice_lines.invoice_line@, blocks) ==> blocks_fit(blocks))
                ==> res is Ok,
            res matches Err(Error::PayloadTooLong(_)) ==> exists|blocks: Seq<InvoiceItems>|
                chunked(self.invoice_id@, self.invoice_lines.invoice_line@, blocks) && !blocks_fit(blocks),
    {
        encode_invoice_items_list(self)
    }
}

// ---------------------------------------------------------------------------
// Reassembly
// ---------------------------------------------------------------------------

/// A reassembled line set shared by one parent invoice.
#[derive(Clone, Debug, Eq, PartialEq)]
pub struct ReassembledInvoiceLines {
    pub invoice_id: String,
    pub invoice_lines: Vec<InvoiceLine>,
}

impl ReassembledInvoiceLines {
    /// Checks the line set against its parent multi-line invoice; see
    /// [`parent_error`].
    pub fn validate_against_invoice(&self, invoice: &Invoice) -> (r: ModelResult<()>)
        ensures
            r is Ok <==> parent_error(self.invoice_id@, self.invoice_lines@.len(), *invoice) is None,
            r matches Err(e) ==> parent_error(self.invoice_id@, self.invoice_lines@.len(), *invoice)
                == Some(e.field_spec()),
    {
        check_against_invoice(&self.invoice_id, self.invoice_lines.len(), invoice)
    }
}

/// The number a block gives its first line.
pub open spec fn first_number(d: InvoiceItems) -> int {
    digits_value(d.first_invoice_line_id@) as int
}

/// Whether a block's first line number is a positive ASCII integer that
/// fits a `usize`.
pub open spec fn first_ok(d: InvoiceItems) -> bool {
    is_numeral(d.first_invoice_line_id@) && 0 < first_number(d) <= usize::MAX
}

/// The index of the first block that starts at line `expected`, or the
/// number of blocks.
pub open spec fn find_first(docs: Seq<InvoiceItems>, expected: int) -> int
    decreases docs.len(),
{
    if docs.len() == 0 {
        0
    } else if first_number(docs[0]) == expected {
        0
    } else {
        1 + find_first(docs.drop_first(), expected)
    }
}

/// The lines of blocks chained from line `expected` on: the block starting
/// there, then the rest from the line after its last; every block must be
/// used exactly once and the numbering must fit a `usize`.
pub open spec fn chained(docs: Seq<InvoiceItems>, expected: int) -> core::result::Result<
    Seq<InvoiceLine>,
    &'static str,
>
    decreases docs.len(),
{
    if docs.len() == 0 {
        Ok(seq![])
    } else {
        let i = find_first(docs, expected);
        if i < 0 || i >= docs.len() {
            Err("FirstInvoiceLineID")
        } else {
            let d = docs[i];
            let next = expected + d.invoice_lines.invoice_line@.len();
            if next > usize::MAX {
                Err("InvoiceLines")
            } else {
                match chained(docs.remove(i), next) {
                    Ok(rest) => Ok(d.invoice_lines.invoice_line@ + rest),
                    Err(f) => Err(f),
                }
            }
        }
    }
}

/// The first block rule broken by a list of blocks.
pub open spec fn blocks_error(docs: Seq<InvoiceItems>) -> Option<&'static str>
    decreases docs.len(),
{
    if docs.len() == 0 {
        None
    } else if blocks_error(docs.drop_last()) is Some {
        blocks_error(docs.drop_last())
    } else {
        lines_error(docs.last().invoice_lines.invoice_line@)
    }
}

/// What reassembling blocks yields: the shared invoice number and the lines
/// in numbering order, or the field of the first rule broken. Blocks may
/// come in any order; there must be at least one, each valid, all of one
/// invoice, each with a positive first line number, and their numbers must
/// chain from line 1 without gaps or overlaps.
pub open spec fn reassembly(docs: Seq<InvoiceItems>) -> core::result::Result<
    (Seq<char>, Seq<InvoiceLine>),
    &'static str,
> {
    if docs.len() == 0 {
        Err("InvoiceItems")
    } else if blocks_error(docs) is Some {
        Err(blocks_error(docs)->0)
    } else if exists|k: int| 0 <= k < docs.len() && (#[trigger] docs[k]).invoice_id@ != docs[0].invoice_id@ {
        Err("InvoiceID")
    } else if exists|k: int| 0 <= k < docs.len() && !first_ok(#[trigger] docs[k]) {
        Err("FirstInvoiceLineID")
    } else {
        match chained(docs, 1) {
            Ok(lines) => Ok((docs[0].invoice_id@, lines)),
            Err(f) => Err(f),
        }
    }
}

proof fn lemma_blocks_error_prefix(docs: Seq<InvoiceItems>, k: int)
    requires
        0 <= k <= docs.len(),
        blocks_error(docs.take(k)) is Some,
    ensures
        blocks_error(docs) == blocks_error(docs.take(k)),
    decreases docs.len() - k,
{
    if k < docs.len() {
        assert(docs.take(k + 1).drop_last() =~= docs.take(k));
        lemma_blocks_error_prefix(docs, k + 1);
    } else {
        assert(docs.take(k) =~= docs);
    }
}

/// `find_first` finds the first block numbered `expected`.
proof fn lemma_find_first(docs: Seq<InvoiceItems>, expected: int, i: int)
    requires
        0 <= i <= docs.len(),
        forall|k: int| 0 <= k < i ==> first_number(#[trigger] docs[k]) != expected,
        i < docs.len() ==> first_number(docs[i]) == expected,
    ensures
        find_first(docs, expected) == i,
    decreases i,
{
    if i > 0 {
        assert forall|k: int| 0 <= k < i - 1 implies first_number(#[trigger] docs.drop_first()[k]) != expected by {
            assert(docs.drop_first()[k] == docs[k + 1]);
        }
        if i < docs.len() {
            assert(docs.drop_first()[i - 1] == docs[i]);
        }
        lemma_find_first(docs.drop_first(), expected, i - 1);
        assert(first_number(docs[0]) != expected);
    } else if docs.len() > 0 {
        assert(first_number(docs[0]) == expected);
    }
}

/// Blocks whose line lists each keep the line rules break no block rule.
proof fn lemma_blocks_valid(blocks: Seq<InvoiceItems>)
    requires
        forall|k: int|
            0 <= k < blocks.len() ==> lines_error((#[trigger] blocks[k]).invoice_lines.invoice_line@) is None,
    ensures
        blocks_error(blocks) is None,
    decreases blocks.len(),
{
    if blocks.len() > 0 {
        let init = blocks.drop_last();
        assert forall|k: int| 0 <= k < init.len() implies lines_error((#[trigger] init[k]).invoice_lines.invoice_line@) is None by {
            assert(init[k] == blocks[k]);
        }
        lemma_blocks_valid(init);
        assert(blocks.last() == blocks[blocks.len() - 1]);
    }
}

/// The blocks of a chunking, taken from the `j`-th on, chain from line
/// `4j + 1` to the lines from there on.
proof fn lemma_chain_from(id: Seq<char>, lines: Seq<InvoiceLine>, blocks: Seq<InvoiceItems>, j: int)
    requires
        chunked(id, lines, blocks),
        0 <= j <= blocks.len(),
        lines.len() < usize::MAX,
    ensures
        chained(blocks.skip(j), 4 * j + 1) == Ok::<Seq<InvoiceLine>, &'static str>(
            lines.subrange(if 4 * j <= lines.len() { 4 * j } else { lines.len() as int }, lines.len() as int),
        ),
    decreases blocks.len() - j,
{
    let n = lines.len() as int;
    vstd::arithmetic::div_mod::lemma_fundamental_div_mod(n + 3, 4);
    let docs = blocks.skip(j);
    if j == blocks.len() {
        assert(docs.len() == 0);
        assert(4 * j >= n);
        assert(lines.subrange(n, n) =~= Seq::<InvoiceLine>::empty());
    } else {
        let d = blocks[j];
        assert(docs[0] == d);
        crate::numeral::lemma_nat_text((4 * j + 1) as nat);
        assert(first_number(d) == 4 * j + 1);
        assert(find_first(docs, 4 * j + 1) == 0);
        let end = if 4 * j + 4 <= n { 4 * j + 4 } else { n };
        assert(4 * j < n);
        assert(d.invoice_lines.invoice_line@ == lines.subrange(4 * j, end));
        let next = 4 * j + 1 + d.invoice_lines.invoice_line@.len();
        assert(next == end + 1);
        assert(docs.remove(0) =~= blocks.skip(j + 1));
        if j + 1 < blocks.len() {
            assert(4 * j + 4 <= n);
            lemma_chain_from(id, lines, blocks, j + 1);
            assert(chained(docs.remove(0), next) == Ok::<Seq<InvoiceLine>, &'static str>(lines.subrange(end, n)));
            assert(lines.subrange(4 * j, end) + lines.subrange(end, n) =~= lines.subrange(4 * j, n));
            assert(chained(docs, 4 * j + 1) == Ok::<Seq<InvoiceLine>, &'static str>(lines.subrange(4 * j, end) + lines.subrange(end, n)));
        } else {
            assert(end == n);
            assert(blocks.skip(j + 1).len() == 0);
            assert(chained(docs.remove(0), next) == Ok::<Seq<InvoiceLine>, &'static str>(Seq::<InvoiceLine>::empty()));
            assert(lines.subrange(4 * j, end) + Seq::<InvoiceLine>::empty() =~= lines.subrange(4 * j, n));
            assert(chained(docs, 4 * j + 1) == Ok::<Seq<InvoiceLine>, &'static str>(lines.subrange(4 * j, end) + Seq::<InvoiceLine>::empty()));
        }
    }
}

/// Reassembling the blocks of a chunking gives back the invoice number and
/// every line in order: the blocks that `chunk_invoice_lines` makes
/// reassemble to its input.
pub proof fn lemma_chunks_reassemble(id: Seq<char>, lines: Seq<InvoiceLine>, blocks: Seq<InvoiceItems>)
    requires
        chunked(id, lines, blocks),
        lines_error(lines) is None,
        lines.len() < usize::MAX,
    ensures
        reassembly(blocks) == Ok::<(Seq<char>, Seq<InvoiceLine>), &'static str>((id, lines)),
{
    let n = lines.len() as int;
    vstd::arithmetic::div_mod::lemma_fundamental_div_mod(n + 3, 4);
    assert(n > 0);
    assert(blocks.len() > 0);
    assert forall|k: int| 0 <= k < blocks.len() implies lines_error((#[trigger] blocks[k]).invoice_lines.invoice_line@) is None by {
        let end = if 4 * k + 4 <= n { 4 * k + 4 } else { n };
        let part = lines.subrange(4 * k, end);
        assert(part.len() > 0);
        assert forall|i: int| 0 <= i < part.len() implies line_error(#[trigger] part[i]) is None by {
            assert(part[i] == lines[4 * k + i]);
        }
    }
    lemma_blocks_valid(blocks);
    assert forall|k: int| 0 <= k < blocks.len() implies first_ok(#[trigger] blocks[k]) by {
        crate::numeral::lemma_nat_text((4 * k + 1) as nat);
    }
    assert(!(exists|k: int| 0 <= k < blocks.len() && (#[trigger] blocks[k]).invoice_id@ != blocks[0].invoice_id@));
    assert(!(exists|k: int| 0 <= k < blocks.len() && !first_ok(#[trigger] blocks[k])));
    lemma_chain_from(id, lines, blocks, 0);
    assert(blocks.skip(0) =~= blocks);
    assert(lines.subrange(0, n) =~= lines);
}

/// No block rule is broken exactly when every block keeps the line rules.
proof fn lemma_blocks_error_none(docs: Seq<InvoiceItems>)
    ensures
        blocks_error(docs) is None <==> forall|k: int|
            0 <= k < docs.len() ==> lines_error((#[trigger] docs[k]).invoice_lines.invoice_line@) is None,
    decreases docs.len(),
{
    if docs.len() > 0 {
        let init = docs.drop_last();
        lemma_blocks_error_none(init);
        if blocks_error(docs) is None {
            assert forall|k: int| 0 <= k < docs.len() implies lines_error(
                (#[trigger] docs[k]).invoice_lines.invoice_line@,
            ) is None by {
                if k < init.len() {
                    assert(init[k] == docs[k]);
                }
            }
        } else if forall|k: int|
            0 <= k < docs.len() ==> lines_error((#[trigger] docs[k]).invoice_lines.invoice_line@) is None {
            lemma_blocks_valid(docs);
        }
    }
}

/// Blocks chained from line `expected` on all start there or later.
proof fn lemma_chained_from(docs: Seq<InvoiceItems>, expected: int)
    requires
        chained(docs, expected) is Ok,
        forall|k: int| 0 <= k < docs.len() ==> (#[trigger] docs[k]).invoice_lines.invoice_line@.len() > 0,
    ensures
        forall|k: int| 0 <= k < docs.len() ==> first_number(#[trigger] docs[k]) >= expected,
    decreases docs.len(),
{
    if docs.len() > 0 {
        let i = find_first(docs, expected);
        let d = docs[i];
        let next = expected + d.invoice_lines.invoice_line@.len();
        let rest = docs.remove(i);
        assert forall|k: int| 0 <= k < rest.len() implies (#[trigger] rest[k]).invoice_lines.invoice_line@.len() > 0 by {
            if k < i {
                assert(rest[k] == docs[k]);
            } else {
                assert(rest[k] == docs[k + 1]);
            }
        }
        lemma_chained_from(rest, next);
        lemma_find_first_found(docs, expected);
        assert forall|k: int| 0 <= k < docs.len() implies first_number(#[trigger] docs[k]) >= expected by {
            if k < i {
                assert(rest[k] == docs[k]);
            } else if k > i {
                assert(rest[k - 1] == docs[k]);
            }
        }
    }
}

/// `find_first` gives a block numbered `expected` when it gives one.
proof fn lemma_find_first_found(docs: Seq<InvoiceItems>, expected: int)
    ensures
        0 <= find_first(docs, expected) <= docs.len(),
        find_first(docs, expected) < docs.len() ==> first_number(docs[find_first(docs, expected)]) == expected,
        forall|k: int| 0 <= k < find_first(docs, expected) ==> first_number(#[trigger] docs[k]) != expected,
    decreases docs.len(),
{
    if docs.len() > 0 && first_number(docs[0]) != expected {
        let rest = docs.drop_first();
        lemma_find_first_found(rest, expected);
        assert forall|k: int| 0 <= k < find_first(docs, expected) implies first_number(#[trigger] docs[k]) != expected by {
            if k > 0 {
                assert(docs[k] == rest[k - 1]);
            }
        }
    }
}

/// Chaining does not depend on the order of the blocks.
proof fn lemma_chained_reordered(a: Seq<InvoiceItems>, b: Seq<InvoiceItems>, expected: int)
    requires
        a.to_multiset() == b.to_multiset(),
        chained(a, expected) is Ok,
        forall|k: int| 0 <= k < a.len() ==> (#[trigger] a[k]).invoice_lines.invoice_line@.len() > 0,
    ensures
        chained(b, expected) == chained(a, expected),
    decreases a.len(),
{
    broadcast use vstd::seq_lib::to_multiset_len, vstd::seq_lib::to_multiset_contains, vstd::seq_lib::to_multiset_remove;

    assert(a.len() == a.to_multiset().len());
    assert(b.len() == b.to_multiset().len());
    if a.len() > 0 {
        let i = find_first(a, expected);
        lemma_find_first_found(a, expected);
        let d = a[i];
        let next = expected + d.invoice_lines.invoice_line@.len();
        let ra = a.remove(i);
        assert(chained(ra, next) is Ok);
        assert forall|k: int| 0 <= k < ra.len() implies (#[trigger] ra[k]).invoice_lines.invoice_line@.len() > 0 by {
            if k < i {
                assert(ra[k] == a[k]);
            } else {
                assert(ra[k] == a[k + 1]);
            }
        }
        lemma_chained_from(ra, next);
        assert(a.contains(d));
        assert(a.to_multiset().count(d) > 0);
        assert(b.contains(d));
        let j = find_first(b, expected);
        lemma_find_first_found(b, expected);
        let jd = choose|m: int| 0 <= m < b.len() && b[m] == d;
        assert(first_number(b[jd]) == expected);
        assert(j <= jd);
        let e = b[j];
        assert(b.contains(e));
        assert(b.to_multiset().count(e) > 0);
        assert(a.contains(e));
        let m = choose|m: int| 0 <= m < a.len() && a[m] == e;
        if m != i {
            let km = if m < i { m } else { m - 1 };
            assert(ra[km] == a[m]);
            assert(first_number(ra[km]) >= next);
            assert(false);
        }
        assert(e == d);
        let rb = b.remove(j);
        assert(rb.to_multiset() == b.to_multiset().remove(e));
        assert(ra.to_multiset() == a.to_multiset().remove(d));
        lemma_chained_reordered(ra, rb, next);
    }
}

/// Blocks may come in any order: reassembling a reordering of blocks that
/// reassemble gives the same invoice number and lines.
pub proof fn lemma_reassembly_reordered(docs: Seq<InvoiceItems>, other: Seq<InvoiceItems>)
    requires
        other.to_multiset() == docs.to_multiset(),
        reassembly(docs) is Ok,
    ensures
        reassembly(other) == reassembly(docs),
{
    broadcast use vstd::seq_lib::to_multiset_len, vstd::seq_lib::to_multiset_contains;

    assert(docs.len() == docs.to_multiset().len());
    assert(other.len() == other.to_multiset().len());
    lemma_blocks_error_none(docs);
    lemma_blocks_error_none(other);
    assert forall|k: int| 0 <= k < other.len() implies exists|m: int| 0 <= m < docs.len() && docs[m] == #[trigger] other[k] by {
        assert(other.contains(other[k]));
        assert(other.to_multiset().count(other[k]) > 0);
        assert(docs.contains(other[k]));
    }
    assert(docs.contains(other[0]));
    let m0 = choose|m: int| 0 <= m < docs.len() && docs[m] == other[0];
    assert(docs[m0].invoice_id@ == docs[0].invoice_id@);
    assert forall|k: int| 0 <= k < other.len() implies lines_error((#[trigger] other[k]).invoice_lines.invoice_line@) is None
        && other[k].invoice_id@ == other[0].invoice_id@ && first_ok(other[k]) by {
        let m = choose|m: int| 0 <= m < docs.len() && docs[m] == other[k];
        assert(docs[m].invoice_id@ == docs[0].invoice_id@);
        assert(first_ok(docs[m]));
    }
    assert forall|k: int| 0 <= k < docs.len() implies (#[trigger] docs[k]).invoice_lines.invoice_line@.len() > 0 by {
        assert(lines_error(docs[k].invoice_lines.invoice_line@) is None);
    }
    lemma_chained_reordered(docs, other, 1);
}

/// Reassemble blocks into the complete line set of one invoice; see
/// [`reassembly`].
pub fn reassemble_invoice_lines(documents: Vec<InvoiceItems>) -> (r: ModelResult<ReassembledInvoiceLines>)
    ensures
        reassembly(documents@) matches Ok((id, lines)) ==> (r matches Ok(x) && x.invoice_id@ == id
            && x.invoice_lines@ == lines),
        reassembly(documents@) matches Err(f) ==> (r matches Err(e) && e.field_spec() == f),
{
    let ghost all = documents@;
    let n = documents.len();
    if n == 0 {
        return Err(InvoiceModelError::invalid("InvoiceItems", "at least one block is required"));
    }
    let mut i: usize = 0;
    assert(all.take(0) =~= Seq::<InvoiceItems>::empty());
    while i < n
        invariant
            i <= n == all.len(),
            documents@ == all,
            blocks_error(all.take(i as int)) is None,
        decreases n - i,
    {
        assert(all.take(i + 1).drop_last() =~= all.take(i as int));
        match documents[i].validate() {
            Ok(()) => {},
            Err(e) => {
                proof {
                    lemma_blocks_error_prefix(all, i + 1);
                }
                return Err(e);
            },
        }
        i = i + 1;
    }
    assert(all.take(n as int) =~= all);
    let invoice_id = documents[0].invoice_id.clone();
    let mut j: usize = 0;
    while j < n
        invariant
            j <= n == all.len(),
            0 < n,
            documents@ == all,
            blocks_error(all) is None,
            invoice_id@ == all[0].invoice_id@,
            forall|k: int| 0 <= k < j ==> (#[trigger] all[k]).invoice_id@ == all[0].invoice_id@,
        decreases n - j,
    {
        if !crate::text::same_text(documents[j].invoice_id.as_str(), invoice_id.as_str()) {
            assert((all[j as int]).invoice_id@ != all[0].invoice_id@);
            return Err(InvoiceModelError::invalid("InvoiceID", "all blocks must belong to the same invoice"));
        }
        j = j + 1;
    }
    let mut numbers: Vec<usize> = Vec::new();
    let mut m: usize = 0;
    while m < n
        invariant
            m <= n == all.len(),
            0 < n,
            documents@ == all,
            blocks_error(all) is None,
            invoice_id@ == all[0].invoice_id@,
            forall|k: int| 0 <= k < n ==> (#[trigger] all[k]).invoice_id@ == all[0].invoice_id@,
            numbers@.len() == m,
            forall|k: int| 0 <= k < m ==> first_ok(#[trigger] all[k]) && numbers@[k] == first_number(all[k]),
        decreases n - m,
    {
        let chars = chars_of(documents[m].first_invoice_line_id.as_str());
        match crate::numeral::parse_numeral(&chars, usize::MAX as u64) {
            Some(v) => {
                if v == 0 {
                    assert(!first_ok(all[m as int]));
                    return Err(InvoiceModelError::invalid("FirstInvoiceLineID", "reassembly requires a positive ASCII integer"));
                }
                numbers.push(v as usize);
            },
            None => {
                assert(!first_ok(all[m as int]));
                return Err(InvoiceModelError::invalid("FirstInvoiceLineID", "reassembly requires a positive ASCII integer"));
            },
        }
        m = m + 1;
    }
    proof {
        assert(!(exists|k: int| 0 <= k < all.len() && (#[trigger] all[k]).invoice_id@ != all[0].invoice_id@));
        assert(!(exists|k: int| 0 <= k < all.len() && !first_ok(#[trigger] all[k])));
        assert(reassembly(all) == match chained(all, 1) {
            Ok(l) => core::result::Result::<(Seq<char>, Seq<InvoiceLine>), &'static str>::Ok((all[0].invoice_id@, l)),
            Err(f) => Err(f),
        });
    }
    let mut remaining = documents;
    let mut expected: usize = 1;
    let mut lines: Vec<InvoiceLine> = Vec::new();
    assert(chained(all, 1) == match chained(remaining@, expected as int) {
        Ok(rest) => core::result::Result::<Seq<InvoiceLine>, &'static str>::Ok(lines@ + rest),
        Err(f) => Err(f),
    }) by {
        match chained(all, 1) {
            Ok(rest) => { assert(lines@ + rest =~= rest); },
            Err(_) => {},
        }
    }
    while remaining.len() > 0
        invariant
            documents@ == all,
            invoice_id@ == all[0].invoice_id@,
            reassembly(all) == match chained(all, 1) {
                Ok(l) => core::result::Result::<(Seq<char>, Seq<InvoiceLine>), &'static str>::Ok((all[0].invoice_id@, l)),
                Err(f) => Err(f),
            },
            numbers@.len() == remaining@.len(),
            forall|k: int| 0 <= k < remaining@.len() ==> numbers@[k] == first_number(#[trigger] remaining@[k]),
            chained(all, 1) == match chained(remaining@, expected as int) {
                Ok(rest) => core::result::Result::<Seq<InvoiceLine>, &'static str>::Ok(lines@ + rest),
                Err(f) => Err(f),
            },
        decreases remaining.len(),
    {
        let mut found: usize = 0;
        while found < numbers.len() && numbers[found] != expected
            invariant
                found <= numbers@.len() == remaining@.len(),
                forall|k: int| 0 <= k < remaining@.len() ==> numbers@[k] == first_number(#[trigger] remaining@[k]),
                forall|k: int| 0 <= k < found ==> first_number(#[trigger] remaining@[k]) != expected,
            decreases numbers.len() - found,
        {
            found = found + 1;
        }
        proof {
            lemma_find_first(remaining@, expected as int, found as int);
        }
        if found == numbers.len() {
            assert(chained(remaining@, expected as int) == Err::<Seq<InvoiceLine>, &'static str>("FirstInvoiceLineID"));
            assert(chained(all, 1) == Err::<Seq<InvoiceLine>, &'static str>("FirstInvoiceLineID"));
            assert(reassembly(all) == Err::<(Seq<char>, Seq<InvoiceLine>), &'static str>("FirstInvoiceLineID"));
            return Err(InvoiceModelError::invalid("FirstInvoiceLineID", "blocks do not continue the line numbering"));
        }
        let ghost before = remaining@;
        let ghost prior = lines@;
        let mut document = remaining.remove(found);
        numbers.remove(found);
        let count = document.invoice_lines.invoice_line.len();
        if count > usize::MAX - expected {
            assert(chained(before, expected as int) == Err::<Seq<InvoiceLine>, &'static str>("InvoiceLines"));
            assert(chained(all, 1) == Err::<Seq<InvoiceLine>, &'static str>("InvoiceLines"));
            assert(reassembly(all) == Err::<(Seq<char>, Seq<InvoiceLine>), &'static str>("InvoiceLines"));
            return Err(InvoiceModelError::invalid("InvoiceLines", "line count is too large"));
        }
        let next = expected + count;
        let ghost block_lines = document.invoice_lines.invoice_line@;
        lines.append(&mut document.invoice_lines.invoice_line);
        proof {
            assert(lines@ == prior + block_lines);
            match chained(remaining@, next as int) {
                Ok(rest) => {
                    assert(prior + (block_lines + rest) =~= lines@ + rest);
                },
                Err(_) => {},
            }
            assert forall|k: int| 0 <= k < remaining@.len() implies numbers@[k] == first_number(#[trigger] remaining@[k]) by {
                if k < found {
                    assert(remaining@[k] == before[k]);
                } else {
                    assert(remaining@[k] == before[k + 1]);
                }
            }
        }
        expected = next;
    }
    proof {
        assert(lines@ + Seq::<InvoiceLine>::empty() =~= lines@);
    }
    Ok(ReassembledInvoiceLines { invoice_id, invoice_lines: lines })
}

} // verus!
