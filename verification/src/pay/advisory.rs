//! Advisory `bsqr:maxLength` diagnostics of a PAY document.

use vstd::prelude::*;
use super::models::{Amount, DirectDebitExt, Pay, Payment};
use crate::diagnostic::{
    checks_of, exceeding, exceeding_checks, optional_text_check, push_count,
    push_optional_text, AdvisoryDiagnostic,
};
use crate::numeral::{nat_text, u64_string};
use crate::text::{chars_of, concat};

verus! {

/// The path of the `index`-th payment of a document.
pub open spec fn payment_path(index: nat) -> Seq<char> {
    "Payments.Payment["@ + nat_text(index) + "]"@
}

/// The check of an optional amount: none when it is absent.
pub open spec fn optional_amount_check(path: Seq<char>, amount: Option<Amount>, maximum: nat) -> Seq<
    (Seq<char>, nat, nat),
> {
    match amount {
        Some(a) => seq![(path, a@.len(), maximum)],
        None => seq![],
    }
}

/// The checks of a payment's direct debit terms, under payment path `p`.
pub open spec fn direct_debit_checks(p: Seq<char>, dd: Option<DirectDebitExt>) -> Seq<(Seq<char>, nat, nat)> {
    match dd {
        Some(d) => optional_text_check(
            p + ".DirectDebitExt.OriginatorsReferenceInformation"@,
            d.originators_reference_information,
            35,
        ) + optional_text_check(p + ".DirectDebitExt.MandateID"@, d.mandate_id, 35)
            + optional_text_check(p + ".DirectDebitExt.CreditorID"@, d.creditor_id, 35)
            + optional_text_check(p + ".DirectDebitExt.ContractID"@, d.contract_id, 35)
            + optional_amount_check(p + ".DirectDebitExt.MaxAmount"@, d.max_amount, 15),
        None => seq![],
    }
}

/// The checks of a payment's beneficiary, under payment path `p`.
pub open spec fn beneficiary_checks(p: Seq<char>, pm: Payment) -> Seq<(Seq<char>, nat, nat)> {
    optional_text_check(p + ".BeneficiaryName"@, pm.beneficiary_name, 140)
        + optional_text_check(p + ".BeneficiaryAddressLine1"@, pm.beneficiary_address_line1, 70)
        + optional_text_check(p + ".BeneficiaryAddressLine2"@, pm.beneficiary_address_line2, 70)
}

/// The checks of the `index`-th payment of a document.
pub open spec fn payment_checks(index: nat, pm: Payment) -> Seq<(Seq<char>, nat, nat)> {
    let p = payment_path(index);
    optional_amount_check(p + ".Amount"@, pm.amount, 15) + optional_text_check(
        p + ".OriginatorsReferenceInformation"@,
        pm.originators_reference_information,
        35,
    ) + optional_text_check(p + ".PaymentNote"@, pm.payment_note, 140) + direct_debit_checks(
        p,
        pm.direct_debit_ext,
    ) + beneficiary_checks(p, pm)
}

/// The checks of a document's payments, in order.
pub open spec fn payments_checks(ps: Seq<Payment>) -> Seq<(Seq<char>, nat, nat)>
    decreases ps.len(),
{
    if ps.len() == 0 {
        seq![]
    } else {
        payments_checks(ps.drop_last()) + payment_checks((ps.len() - 1) as nat, ps.last())
    }
}

/// Every advisory length check of a document: its invoice reference, then
/// each payment's amount, references, note, direct debit terms and
/// beneficiary.
pub open spec fn pay_checks(d: Pay) -> Seq<(Seq<char>, nat, nat)> {
    optional_text_check("InvoiceID"@, d.invoice_id, 10) + payments_checks(d.payments.payment@)
}

fn push_optional_amount(
    checks: &mut Vec<AdvisoryDiagnostic>,
    path: &str,
    amount: &Option<Amount>,
    maximum: usize,
)
    ensures
        checks_of(final(checks)@) == checks_of(old(checks)@) + optional_amount_check(
            path@,
            *amount,
            maximum as nat,
        ),
{
    let ghost start = checks_of(checks@);
    match amount {
        Some(a) => {
            let count = chars_of(a.as_str()).len();
            push_count(checks, path, count, maximum);
        },
        None => {},
    }
    assert(checks_of(checks@) =~= start + optional_amount_check(path@, *amount, maximum as nat));
}

fn push_direct_debit(checks: &mut Vec<AdvisoryDiagnostic>, prefix: &str, dd: &Option<DirectDebitExt>)
    ensures
        checks_of(final(checks)@) == checks_of(old(checks)@) + direct_debit_checks(prefix@, *dd),
{
    let ghost start = checks_of(checks@);
    match dd {
        Some(d) => {
            let p0 = concat(prefix, ".DirectDebitExt.OriginatorsReferenceInformation");
            push_optional_text(checks, p0.as_str(), &d.originators_reference_information, 35);
            let p1 = concat(prefix, ".DirectDebitExt.MandateID");
            push_optional_text(checks, p1.as_str(), &d.mandate_id, 35);
            let p2 = concat(prefix, ".DirectDebitExt.CreditorID");
            push_optional_text(checks, p2.as_str(), &d.creditor_id, 35);
            let p3 = concat(prefix, ".DirectDebitExt.ContractID");
            push_optional_text(checks, p3.as_str(), &d.contract_id, 35);
            let p4 = concat(prefix, ".DirectDebitExt.MaxAmount");
            push_optional_amount(checks, p4.as_str(), &d.max_amount, 15);
        },
        None => {},
    }
    assert(checks_of(checks@) =~= start + direct_debit_checks(prefix@, *dd));
}

fn push_beneficiary(checks: &mut Vec<AdvisoryDiagnostic>, prefix: &str, pm: &Payment)
    ensures
        checks_of(final(checks)@) == checks_of(old(checks)@) + beneficiary_checks(prefix@, *pm),
{
    let ghost start = checks_of(checks@);
    let p0 = concat(prefix, ".BeneficiaryName");
    push_optional_text(checks, p0.as_str(), &pm.beneficiary_name, 140);
    let p1 = concat(prefix, ".BeneficiaryAddressLine1");
    push_optional_text(checks, p1.as_str(), &pm.beneficiary_address_line1, 70);
    let p2 = concat(prefix, ".BeneficiaryAddressLine2");
    push_optional_text(checks, p2.as_str(), &pm.beneficiary_address_line2, 70);
    assert(checks_of(checks@) =~= start + beneficiary_checks(prefix@, *pm));
}

fn push_payment(checks: &mut Vec<AdvisoryDiagnostic>, index: usize, pm: &Payment)
    ensures
        checks_of(final(checks)@) == checks_of(old(checks)@) + payment_checks(index as nat, *pm),
{
    let ghost start = checks_of(checks@);
    let number = u64_string(index as u64);
    let opened = concat("Payments.Payment[", number.as_str());
    let prefix = concat(opened.as_str(), "]");
    assert(prefix@ == payment_path(index as nat));
    let p0 = concat(prefix.as_str(), ".Amount");
    push_optional_amount(checks, p0.as_str(), &pm.amount, 15);
    let p1 = concat(prefix.as_str(), ".OriginatorsReferenceInformation");
    push_optional_text(checks, p1.as_str(), &pm.originators_reference_information, 35);
    let p2 = concat(prefix.as_str(), ".PaymentNote");
    push_optional_text(checks, p2.as_str(), &pm.payment_note, 140);
    push_direct_debit(checks, prefix.as_str(), &pm.direct_debit_ext);
    push_beneficiary(checks, prefix.as_str(), pm);
    assert(checks_of(checks@) =~= start + payment_checks(index as nat, *pm));
}

impl Pay {
    /// The transported fields that exceed their advisory `bsqr:maxLength`,
    /// in document order; the document is never changed or rejected for
    /// them.
    pub fn advisory_diagnostics(&self) -> (r: Vec<AdvisoryDiagnostic>)
        ensures
            checks_of(r@) == exceeding(pay_checks(*self)),
    {
        let mut checks: Vec<AdvisoryDiagnostic> = Vec::new();
        push_optional_text(&mut checks, "InvoiceID", &self.invoice_id, 10);
        let ghost head = checks_of(checks@);
        let payments = &self.payments.payment;
        let mut i: usize = 0;
        assert(payments@.take(0) =~= Seq::<Payment>::empty());
        assert(head + payments_checks(payments@.take(0)) =~= head);
        while i < payments.len()
            invariant
                i <= payments@.len(),
                checks_of(checks@) == head + payments_checks(payments@.take(i as int)),
            decreases payments.len() - i,
        {
            push_payment(&mut checks, i, &payments[i]);
            assert(payments@.take(i + 1).drop_last() =~= payments@.take(i as int));
            i = i + 1;
        }
        assert(payments@.take(payments@.len() as int) =~= payments@);
        assert(checks_of(checks@) =~= pay_checks(*self));
        exceeding_checks(checks)
    }
}

} // verus!
