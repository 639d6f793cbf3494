//! The INVOICE ITEMS by square data model: invoice lines, one QR block of
//! them, a complete ordered list, and their computed values and advisory
//! length diagnostics.

use vstd::prelude::*;
use crate::decimal::text_scale;
use crate::diagnostic::{
    checks_of, exceeding, exceeding_checks, optional_text_check, push_count, push_optional_text,
    push_text, text_check, AdvisoryDiagnostic,
};
use crate::invoice::models::{
    optional_date_check, push_optional_date, dashless, frac_add, frac_mul, frac_of, same_frac, Date, Decimal, Invoice, InvoiceModelError,
    ModelResult, Percentage,
};
use crate::numeral::{nat_text, u64_string};
use crate::text::{chars_of, concat};

verus! {

/// One INVOICE ITEMS by square document: one independently encoded QR block
/// of lines, with the number of its first line.
#[derive(Clone, Debug, Eq, PartialEq)]
pub struct InvoiceItems {
    pub invoice_id: String,
    pub first_invoice_line_id: String,
    pub invoice_lines: InvoiceLines,
}

/// The lines of a block or list.
#[derive(Clone, Debug, Eq, PartialEq)]
pub struct InvoiceLines {
    pub invoice_line: Vec<InvoiceLine>,
}

/// One invoice line.
#[derive(Debug, Eq, PartialEq)]
pub struct InvoiceLine {
    pub order_reference: Option<OrderReference>,
    pub delivery_note_reference: Option<DeliveryNoteReference>,
    pub item_name: Option<String>,
    pub item_ean_code: Option<String>,
    pub period_from_date: Option<Date>,
    pub period_to_date: Option<Date>,
    pub invoiced_quantity: Decimal,
    pub unit_price_tax_exclusive_amount: Decimal,
    pub unit_price_tax_inclusive_amount: Option<Decimal>,
    pub unit_price_tax_amount: Decimal,
    pub line_tax_exclusive_amount: Option<Decimal>,
    pub line_tax_inclusive_amount: Option<Decimal>,
    pub line_tax_amount: Option<Decimal>,
    pub classified_tax_category: Percentage,
}

/// A line's reference to an order.
#[derive(Debug, Eq, PartialEq)]
pub struct OrderReference {
    pub order_id: Option<String>,
    pub order_line_id: Option<String>,
}

/// A line's reference to a delivery note.
#[derive(Debug, Eq, PartialEq)]
pub struct DeliveryNoteReference {
    pub delivery_note_id: Option<String>,
    pub delivery_note_line_id: Option<String>,
}

impl Clone for OrderReference {
    fn clone(&self) -> (r: Self)
        ensures
            r == *self,
    {
        OrderReference { order_id: self.order_id.clone(), order_line_id: self.order_line_id.clone() }
    }
}

impl Clone for DeliveryNoteReference {
    fn clone(&self) -> (r: Self)
        ensures
            r == *self,
    {
        DeliveryNoteReference {
            delivery_note_id: self.delivery_note_id.clone(),
            delivery_note_line_id: self.delivery_note_line_id.clone(),
        }
    }
}

impl Clone for InvoiceLine {
    fn clone(&self) -> (r: Self)
        ensures
            r == *self,
    {
        InvoiceLine {
            order_reference: self.order_reference.clone(),
            delivery_note_reference: self.delivery_note_reference.clone(),
            item_name: self.item_name.clone(),
            item_ean_code: self.item_ean_code.clone(),
            period_from_date: self.period_from_date.clone(),
            period_to_date: self.period_to_date.clone(),
            invoiced_quantity: self.invoiced_quantity.clone(),
            unit_price_tax_exclusive_amount: self.unit_price_tax_exclusive_amount.clone(),
            unit_price_tax_inclusive_amount: self.unit_price_tax_inclusive_amount.clone(),
            unit_price_tax_amount: self.unit_price_tax_amount.clone(),
            line_tax_exclusive_amount: self.line_tax_exclusive_amount.clone(),
            line_tax_inclusive_amount: self.line_tax_inclusive_amount.clone(),
            line_tax_amount: self.line_tax_amount.clone(),
            classified_tax_category: self.classified_tax_category.clone(),
        }
    }
}

/// The computed values of one line.
#[derive(Clone, Debug, Eq, PartialEq)]
pub struct InvoiceLineCalculation {
    pub unit_price_tax_inclusive_amount: Decimal,
    pub line_tax_exclusive_amount: Decimal,
    pub line_tax_inclusive_amount: Decimal,
    pub line_tax_amount: Decimal,
}

/// A complete ordered list of an invoice's lines, before it is split into
/// QR blocks.
#[derive(Clone, Debug, Eq, PartialEq)]
pub struct InvoiceItemsList {
    pub invoice_id: String,
    pub invoice_lines: InvoiceLines,
}

/// Which rule of a line is broken, if any.
pub open spec fn line_error(line: InvoiceLine) -> Option<&'static str> {
    if (line.item_name is Some) == (line.item_ean_code is Some) {
        Some("InvoiceLine")
    } else if (line.period_from_date is Some) != (line.period_to_date is Some) {
        Some("InvoiceLine")
    } else {
        None
    }
}

/// The first rule broken by a list of lines: it must not be empty, and each
/// line must keep its own rules.
pub open spec fn lines_error(lines: Seq<InvoiceLine>) -> Option<&'static str> {
    if lines.len() == 0 {
        Some("InvoiceLines")
    } else if exists|k: int| 0 <= k < lines.len() && line_error(#[trigger] lines[k]) is Some {
        Some("InvoiceLine")
    } else {
        None
    }
}

impl InvoiceLines {
    /// Lines in the given order.
    pub fn new(invoice_line: Vec<InvoiceLine>) -> (r: Self)
        ensures
            r.invoice_line@ == invoice_line@,
    {
        InvoiceLines { invoice_line }
    }
}

impl InvoiceLine {
    /// Exactly one of item name and EAN code, and both or neither period
    /// bound.
    pub fn validate(&self) -> (r: ModelResult<()>)
        ensures
            r is Ok <==> line_error(*self) is None,
            r matches Err(e) ==> line_error(*self) == Some(e.field_spec()),
    {
        if self.item_name.is_some() == self.item_ean_code.is_some() {
            return Err(
                InvoiceModelError::invalid(
                    "InvoiceLine",
                    "exactly one of ItemName and ItemEANCode is required",
                ),
            );
        }
        if self.period_from_date.is_some() != self.period_to_date.is_some() {
            return Err(
                InvoiceModelError::invalid(
                    "InvoiceLine",
                    "PeriodFromDate and PeriodToDate must occur together",
                ),
            );
        }
        Ok(())
    }

    /// The computed values of the line, exactly: the tax-inclusive unit
    /// price, and the tax-exclusive, tax-inclusive and tax amounts of the
    /// whole line.
    pub fn calculate(&self) -> (r: InvoiceLineCalculation)
        requires
            text_scale(self.unit_price_tax_exclusive_amount@) + text_scale(self.invoiced_quantity@)
                < usize::MAX,
            text_scale(self.unit_price_tax_amount@) + text_scale(self.invoiced_quantity@)
                < usize::MAX,
        ensures
            same_frac(
                frac_of(r.unit_price_tax_inclusive_amount@),
                frac_add(
                    frac_of(self.unit_price_tax_exclusive_amount@),
                    frac_of(self.unit_price_tax_amount@),
                ),
            ),
            same_frac(
                frac_of(r.line_tax_exclusive_amount@),
                frac_mul(frac_of(self.unit_price_tax_exclusive_amount@), frac_of(self.invoiced_quantity@)),
            ),
            same_frac(
                frac_of(r.line_tax_inclusive_amount@),
                frac_mul(frac_of(r.unit_price_tax_inclusive_amount@), frac_of(self.invoiced_quantity@)),
            ),
            same_frac(
                frac_of(r.line_tax_amount@),
                frac_mul(frac_of(self.unit_price_tax_amount@), frac_of(self.invoiced_quantity@)),
            ),
    {
        let unit_price_tax_inclusive_amount = self.unit_price_tax_exclusive_amount.add_exact(
            &self.unit_price_tax_amount,
        );
        let line_tax_exclusive_amount = self.unit_price_tax_exclusive_amount.multiply_exact(
            &self.invoiced_quantity,
        );
        let line_tax_inclusive_amount = unit_price_tax_inclusive_amount.multiply_exact(
            &self.invoiced_quantity,
        );
        let line_tax_amount = self.unit_price_tax_amount.multiply_exact(&self.invoiced_quantity);
        InvoiceLineCalculation {
            unit_price_tax_inclusive_amount,
            line_tax_exclusive_amount,
            line_tax_inclusive_amount,
            line_tax_amount,
        }
    }
}

/// Checks that a list of lines is not empty and that every line keeps its
/// rules.
pub fn validate_lines(lines: &Vec<InvoiceLine>) -> (r: ModelResult<()>)
    ensures
        r is Ok <==> lines_error(lines@) is None,
        r matches Err(e) ==> lines_error(lines@) == Some(e.field_spec()),
{
    if lines.len() == 0 {
        return Err(InvoiceModelError::invalid("InvoiceLines", "must contain at least one InvoiceLine"));
    }
    let mut i: usize = 0;
    while i < lines.len()
        invariant
            i <= lines@.len(),
            lines@.len() > 0,
            forall|k: int| 0 <= k < i ==> line_error(#[trigger] lines@[k]) is None,
        decreases lines.len() - i,
    {
        match lines[i].validate() {
            Ok(()) => {},
            Err(e) => {
                assert(line_error(lines@[i as int]) is Some);
                return Err(e);
            },
        }
        i = i + 1;
    }
    Ok(())
}

impl InvoiceItems {
    /// A validated block.
    pub fn new(invoice_id: &str, first_invoice_line_id: &str, invoice_lines: InvoiceLines) -> (r: ModelResult<Self>)
        ensures
            r matches Ok(d) ==> d.invoice_id@ == invoice_id@ && d.first_invoice_line_id@
                == first_invoice_line_id@ && d.invoice_lines == invoice_lines,
            r is Ok <==> lines_error(invoice_lines.invoice_line@) is None,
            r matches Err(e) ==> lines_error(invoice_lines.invoice_line@) == Some(e.field_spec()),
    {
        let document = InvoiceItems {
            invoice_id: invoice_id.to_owned(),
            first_invoice_line_id: first_invoice_line_id.to_owned(),
            invoice_lines,
        };
        document.validate()?;
        Ok(document)
    }

    /// At least one line, and every line keeps its rules.
    pub fn validate(&self) -> (r: ModelResult<()>)
        ensures
            r is Ok <==> lines_error(self.invoice_lines.invoice_line@) is None,
            r matches Err(e) ==> lines_error(self.invoice_lines.invoice_line@) == Some(e.field_spec()),
    {
        validate_lines(&self.invoice_lines.invoice_line)
    }
}

impl InvoiceItemsList {
    /// A validated list.
    pub fn new(invoice_id: &str, invoice_lines: InvoiceLines) -> (r: ModelResult<Self>)
        ensures
            r matches Ok(d) ==> d.invoice_id@ == invoice_id@ && d.invoice_lines == invoice_lines,
            r is Ok <==> lines_error(invoice_lines.invoice_line@) is None,
            r matches Err(e) ==> lines_error(invoice_lines.invoice_line@) == Some(e.field_spec()),
    {
        let document = InvoiceItemsList { invoice_id: invoice_id.to_owned(), invoice_lines };
        document.validate()?;
        Ok(document)
    }

    /// At least one line, and every line keeps its rules.
    pub fn validate(&self) -> (r: ModelResult<()>)
        ensures
            r is Ok <==> lines_error(self.invoice_lines.invoice_line@) is None,
            r matches Err(e) ==> lines_error(self.invoice_lines.invoice_line@) == Some(e.field_spec()),
    {
        validate_lines(&self.invoice_lines.invoice_line)
    }
}

/// Which check against the parent invoice fails, by field: the invoice
/// identifiers must match, the parent must declare its line count, and the
/// count must be the number of lines.
pub open spec fn parent_error(invoice_id: Seq<char>, line_count: nat, invoice: Invoice) -> Option<&'static str> {
    if invoice_id != invoice.data.invoice_id@ {
        Some("InvoiceID")
    } else if invoice.data.number_of_invoice_lines is None {
        Some("NumberOfInvoiceLines")
    } else if invoice.data.number_of_invoice_lines->0 < 0 {
        Some("NumberOfInvoiceLines")
    } else if invoice.data.number_of_invoice_lines->0 != line_count {
        Some("InvoiceLines")
    } else {
        None
    }
}

/// Checks a reassembled line set against its parent multi-line invoice.
pub fn check_against_invoice(invoice_id: &String, line_count: usize, invoice: &Invoice) -> (r: ModelResult<()>)
    ensures
        r is Ok <==> parent_error(invoice_id@, line_count as nat, *invoice) is None,
        r matches Err(e) ==> parent_error(invoice_id@, line_count as nat, *invoice) == Some(e.field_spec()),
{
    if !crate::text::same_text(invoice_id.as_str(), invoice.data.invoice_id.as_str()) {
        return Err(InvoiceModelError::invalid("InvoiceID", "Items blocks do not belong to the supplied Invoice"));
    }
    let expected = match invoice.data.number_of_invoice_lines {
        Some(v) => v,
        None => return Err(InvoiceModelError::invalid("NumberOfInvoiceLines", "parent Invoice does not declare a multi-line item count")),
    };
    if expected < 0 {
        return Err(InvoiceModelError::invalid("NumberOfInvoiceLines", "must be a non-negative count that fits usize"));
    }
    if (line_count as u64) != (expected as u64) {
        return Err(InvoiceModelError::invalid("InvoiceLines", "parent Invoice declares a different number of lines"));
    }
    Ok(())
}

impl InvoiceItemsList {
    /// Checks the list against its parent multi-line invoice; see
    /// [`parent_error`].
    pub fn validate_against_invoice(&self, invoice: &Invoice) -> (r: ModelResult<()>)
        ensures
            r is Ok <==> parent_error(self.invoice_id@, self.invoice_lines.invoice_line@.len(), *invoice) is None,
            r matches Err(e) ==> parent_error(self.invoice_id@, self.invoice_lines.invoice_line@.len(), *invoice)
                == Some(e.field_spec()),
    {
        check_against_invoice(&self.invoice_id, self.invoice_lines.invoice_line.len(), invoice)
    }
}

/// The path of the `index`-th line of a block.
pub open spec fn line_path(index: nat) -> Seq<char> {
    "InvoiceLines.InvoiceLine["@ + nat_text(index) + "]"@
}

/// The checks of a line's references, under path `p`.
pub open spec fn line_reference_checks(p: Seq<char>, l: InvoiceLine) -> Seq<(Seq<char>, nat, nat)> {
    (match l.order_reference {
        Some(r) => optional_text_check(p + ".OrderReference.OrderID"@, r.order_id, 10)
            + optional_text_check(p + ".OrderReference.OrderLineID"@, r.order_line_id, 10),
        None => seq![],
    }) + (match l.delivery_note_reference {
        Some(r) => optional_text_check(
            p + ".DeliveryNoteReference.DeliveryNoteID"@,
            r.delivery_note_id,
            10,
        ) + optional_text_check(
            p + ".DeliveryNoteReference.DeliveryNoteLineID"@,
            r.delivery_note_line_id,
            10,
        ),
        None => seq![],
    })
}

/// The checks of a line's item and period, under path `p`.
pub open spec fn line_item_checks(p: Seq<char>, l: InvoiceLine) -> Seq<(Seq<char>, nat, nat)> {
    optional_text_check(p + ".ItemName"@, l.item_name, 30)
        + optional_text_check(p + ".ItemEANCode"@, l.item_ean_code, 30)
        + optional_date_check(p + ".PeriodFromDate"@, l.period_from_date, 8)
        + optional_date_check(p + ".PeriodToDate"@, l.period_to_date, 8)
}

/// The checks of a line's amounts and rate, under path `p`.
pub open spec fn line_amount_checks(p: Seq<char>, l: InvoiceLine) -> Seq<(Seq<char>, nat, nat)> {
    text_check(p + ".InvoicedQuantity"@, l.invoiced_quantity@, 15)
        + text_check(p + ".UnitPriceTaxExclusiveAmount"@, l.unit_price_tax_exclusive_amount@, 15)
        + text_check(p + ".UnitPriceTaxAmount"@, l.unit_price_tax_amount@, 15)
        + text_check(p + ".ClassifiedTaxCategory"@, l.classified_tax_category@, 15)
}

/// The checks of the `index`-th line of a block.
pub open spec fn line_checks(index: nat, l: InvoiceLine) -> Seq<(Seq<char>, nat, nat)> {
    let p = line_path(index);
    line_reference_checks(p, l) + line_item_checks(p, l) + line_amount_checks(p, l)
}

/// The checks of a block's lines, in order.
pub open spec fn lines_checks(lines: Seq<InvoiceLine>) -> Seq<(Seq<char>, nat, nat)>
    decreases lines.len(),
{
    if lines.len() == 0 {
        seq![]
    } else {
        lines_checks(lines.drop_last()) + line_checks((lines.len() - 1) as nat, lines.last())
    }
}

/// Every length check of a block, in transport order.
pub open spec fn items_checks(d: InvoiceItems) -> Seq<(Seq<char>, nat, nat)> {
    text_check("InvoiceID"@, d.invoice_id@, 10) + text_check(
        "FirstInvoiceLineID"@,
        d.first_invoice_line_id@,
        10,
    ) + lines_checks(d.invoice_lines.invoice_line@)
}

fn push_line_references(checks: &mut Vec<AdvisoryDiagnostic>, prefix: &str, l: &InvoiceLine)
    ensures
        checks_of(final(checks)@) == checks_of(old(checks)@) + line_reference_checks(prefix@, *l),
{
    let ghost start = checks_of(checks@);
    match &l.order_reference {
        Some(r) => {
            let p0 = concat(prefix, ".OrderReference.OrderID");
            push_optional_text(checks, p0.as_str(), &r.order_id, 10);
            let p1 = concat(prefix, ".OrderReference.OrderLineID");
            push_optional_text(checks, p1.as_str(), &r.order_line_id, 10);
        },
        None => {},
    }
    match &l.delivery_note_reference {
        Some(r) => {
            let p2 = concat(prefix, ".DeliveryNoteReference.DeliveryNoteID");
            push_optional_text(checks, p2.as_str(), &r.delivery_note_id, 10);
            let p3 = concat(prefix, ".DeliveryNoteReference.DeliveryNoteLineID");
            push_optional_text(checks, p3.as_str(), &r.delivery_note_line_id, 10);
        },
        None => {},
    }
    assert(checks_of(checks@) =~= start + line_reference_checks(prefix@, *l));
}

fn push_line_item(checks: &mut Vec<AdvisoryDiagnostic>, prefix: &str, l: &InvoiceLine)
    ensures
        checks_of(final(checks)@) == checks_of(old(checks)@) + line_item_checks(prefix@, *l),
{
    let ghost start = checks_of(checks@);
    let p4 = concat(prefix, ".ItemName");
    push_optional_text(checks, p4.as_str(), &l.item_name, 30);
    let p5 = concat(prefix, ".ItemEANCode");
    push_optional_text(checks, p5.as_str(), &l.item_ean_code, 30);
    let p6 = concat(prefix, ".PeriodFromDate");
    push_optional_date(checks, p6.as_str(), &l.period_from_date, 8);
    let p7 = concat(prefix, ".PeriodToDate");
    push_optional_date(checks, p7.as_str(), &l.period_to_date, 8);
    assert(checks_of(checks@) =~= start + line_item_checks(prefix@, *l));
}

fn push_line_amounts(checks: &mut Vec<AdvisoryDiagnostic>, prefix: &str, l: &InvoiceLine)
    ensures
        checks_of(final(checks)@) == checks_of(old(checks)@) + line_amount_checks(prefix@, *l),
{
    let ghost start = checks_of(checks@);
    let p8 = concat(prefix, ".InvoicedQuantity");
    push_text(checks, p8.as_str(), l.invoiced_quantity.as_str(), 15);
    let p9 = concat(prefix, ".UnitPriceTaxExclusiveAmount");
    push_text(checks, p9.as_str(), l.unit_price_tax_exclusive_amount.as_str(), 15);
    let p10 = concat(prefix, ".UnitPriceTaxAmount");
    push_text(checks, p10.as_str(), l.unit_price_tax_amount.as_str(), 15);
    let p11 = concat(prefix, ".ClassifiedTaxCategory");
    push_text(checks, p11.as_str(), l.classified_tax_category.as_str(), 15);
    assert(checks_of(checks@) =~= start + line_amount_checks(prefix@, *l));
}

fn push_line(checks: &mut Vec<AdvisoryDiagnostic>, index: usize, l: &InvoiceLine)
    ensures
        checks_of(final(checks)@) == checks_of(old(checks)@) + line_checks(index as nat, *l),
{
    let ghost start = checks_of(checks@);
    let number = u64_string(index as u64);
    let opened = concat("InvoiceLines.InvoiceLine[", number.as_str());
    let prefix = concat(opened.as_str(), "]");
    assert(prefix@ == line_path(index as nat));
    push_line_references(checks, prefix.as_str(), l);
    push_line_item(checks, prefix.as_str(), l);
    push_line_amounts(checks, prefix.as_str(), l);
    assert(checks_of(checks@) =~= start + line_checks(index as nat, *l));
}

impl InvoiceItems {
    /// The transported fields that exceed their advisory `bsqr:maxLength`,
    /// in transport order; the block is never changed or rejected for them.
    pub fn advisory_diagnostics(&self) -> (r: Vec<AdvisoryDiagnostic>)
        ensures
            checks_of(r@) == exceeding(items_checks(*self)),
    {
        let mut checks: Vec<AdvisoryDiagnostic> = Vec::new();
        push_text(&mut checks, "InvoiceID", self.invoice_id.as_str(), 10);
        push_text(&mut checks, "FirstInvoiceLineID", self.first_invoice_line_id.as_str(), 10);
        let ghost head = checks_of(checks@);
        let lines = &self.invoice_lines.invoice_line;
        let mut i: usize = 0;
        assert(lines@.take(0) =~= Seq::<InvoiceLine>::empty());
        assert(head + lines_checks(lines@.take(0)) =~= head);
        while i < lines.len()
            invariant
                i <= lines@.len(),
                checks_of(checks@) == head + lines_checks(lines@.take(i as int)),
            decreases lines.len() - i,
        {
            push_line(&mut checks, i, &lines[i]);
            assert(lines@.take(i + 1).drop_last() =~= lines@.take(i as int));
            i = i + 1;
        }
        assert(lines@.take(lines@.len() as int) =~= lines@);
        assert(checks_of(checks@) =~= items_checks(*self));
        exceeding_checks(checks)
    }
}

} // verus!
