//! What decoding gives back of an encoded PAY document.

use vstd::prelude::*;
use super::decoder::{
    iso_written, lemma_core_self, lemma_date_self, lemma_optional_self, opt_amount, payment_canonical,
    same_direct_debit, same_standing_order, transported_date, beneficiary_decoded, core_transported,
    direct_debit_decoded, standing_order_decoded, standing_order_width, lemma_beneficiaries_fields_shape, lemma_core_width,
    lemma_payment_part, lemma_payments_fields_shape, lemma_payments_tab_free, lemma_width_nonneg,
    lemma_width_prefix, lemma_width_step, pay_decodable, pay_decoded, pay_read, pay_transportable, pay_transported,
    payment_core_decoded, payment_transportable, payment_width, payments_width, pay_payload_sequence,
};
use super::encoder::{
    account_error, accounts_error, direct_debit_error, optional_date_ok,
    pay_error, payment_error, payments_error, standing_order_error, beneficiary_fields, beneficiaries_fields, optional_field, pay_fields, pay_sequence, payment_fields, payments_fields,
};
use super::models::{BankAccount, DirectDebitExt, Pay, Payment, StandingOrderExt};
use crate::codec::{pay_header, payload_decoded};
use crate::fields::{lemma_split_joined, split_tabs, tab_free};
use crate::decimal::digits_value;
use crate::invoice::decode::{lemma_optional_text_field, opt_text, optional_decoded, text_transportable};
use crate::numeral::{is_numeral, lemma_nat_text, nat_text};

verus! {

/// Each payment's core fields lie after the invoice reference and count,
/// one payment after another.
#[verifier::opaque]
spec fn laid_out(raw: Seq<Seq<char>>, ps: Seq<Payment>) -> bool {
    forall|j: int|
        0 <= j < ps.len() ==> raw.subrange(2 + payments_width(ps.take(j)), 2 + payments_width(ps.take(j + 1)))
            == payment_fields(#[trigger] ps[j])
}

/// Each decoded payment's core data is read from where the payments before
/// it end.
#[verifier::opaque]
spec fn located(raw: Seq<Seq<char>>, qs: Seq<Payment>) -> bool {
    forall|j: int|
        0 <= j < qs.len() ==> payment_core_decoded(
            raw.subrange(2 + payments_width(qs.take(j)), 2 + payments_width(qs.take(j + 1))),
            #[trigger] qs[j],
        )
}

/// Decoded payments lie where the encoded payments' fields lie.
#[verifier::spinoff_prover]
#[verifier::rlimit(30)]
proof fn lemma_align(raw: Seq<Seq<char>>, ps: Seq<Payment>, qs: Seq<Payment>, k: int)
    requires
        laid_out(raw, ps),
        located(raw, qs),
        forall|j: int| 0 <= j < ps.len() ==> payment_transportable(#[trigger] ps[j]),
        qs.len() == ps.len(),
        2 + payments_width(ps) <= raw.len(),
        2 + payments_width(qs) <= raw.len(),
        0 <= k <= ps.len(),
    ensures
        payments_width(qs.take(k)) == payments_width(ps.take(k)),
    decreases k,
{
    if k == 0 {
        assert(qs.take(0) =~= Seq::<Payment>::empty());
        assert(ps.take(0) =~= Seq::<Payment>::empty());
    } else {
        let j = k - 1;
        lemma_align(raw, ps, qs, j);
        lemma_width_step(ps, j);
        lemma_width_step(qs, j);
        lemma_width_prefix(ps, k);
        lemma_width_prefix(qs, k);
        reveal(laid_out);
        reveal(located);
        assert(payment_transportable(ps[j]));
        let start = 2 + payments_width(ps.take(j));
        assert(raw.subrange(start, start + payment_width(ps[j])) == payment_fields(ps[j]));
        assert(payment_core_decoded(raw.subrange(start, start + payment_width(qs[j])), qs[j]));
        lemma_core_width(raw, start, ps[j], qs[j]);
    }
}

/// Whether a document is what fields decode to, kept folded.
#[verifier::opaque]
spec fn decoded_from(raw: Seq<Seq<char>>, decoded: Pay) -> bool {
    pay_read(raw, decoded)
}

/// What a decoded document's relation to its fields gives, in small
/// pieces.
proof fn lemma_decoded_facts(raw: Seq<Seq<char>>, decoded: Pay)
    requires
        decoded_from(raw, decoded),
    ensures
        located(raw, decoded.payments.payment@),
        2 + payments_width(decoded.payments.payment@) + 3 * decoded.payments.payment@.len() == raw.len(),
        is_numeral(raw[1]) && digits_value(raw[1]) == decoded.payments.payment@.len(),
        optional_decoded(raw[0], decoded.invoice_id),
        forall|k: int|
            0 <= k < decoded.payments.payment@.len() ==> beneficiary_decoded(
                raw.subrange(
                    2 + payments_width(decoded.payments.payment@) + 3 * k,
                    2 + payments_width(decoded.payments.payment@) + 3 * k + 3,
                ),
                #[trigger] decoded.payments.payment@[k],
            ),
{
    reveal(decoded_from);
    reveal(pay_read);
    reveal(located);
}

/// The core data of the `k`-th decoded payment is what the `k`-th payment's
/// transport gives.
#[verifier::spinoff_prover]
proof fn lemma_payment_k(raw: Seq<Seq<char>>, ps: Seq<Payment>, qs: Seq<Payment>, k: int)
    requires
        laid_out(raw, ps),
        located(raw, qs),
        forall|j: int| 0 <= j < ps.len() ==> payment_transportable(#[trigger] ps[j]),
        qs.len() == ps.len(),
        2 + payments_width(ps) <= raw.len(),
        2 + payments_width(qs) <= raw.len(),
        0 <= k < ps.len(),
    ensures
        core_transported(qs[k], ps[k]),
{
    lemma_align(raw, ps, qs, k);
    lemma_align(raw, ps, qs, k + 1);
    assert(payment_transportable(ps[k]));
    lemma_payment_part(ps[k]);
    reveal(laid_out);
    reveal(located);
    assert(payment_core_decoded(
        raw.subrange(2 + payments_width(qs.take(k)), 2 + payments_width(qs.take(k + 1))),
        qs[k],
    ));
    assert(raw.subrange(2 + payments_width(ps.take(k)), 2 + payments_width(ps.take(k + 1))) == payment_fields(ps[k]));
}

/// The beneficiary of a decoded payment is that of the payment written.
proof fn lemma_beneficiary_k(window: Seq<Seq<char>>, p: Payment, q: Payment)
    requires
        window == beneficiary_fields(p),
        beneficiary_decoded(window, q),
        text_transportable(p.beneficiary_name),
        text_transportable(p.beneficiary_address_line1),
        text_transportable(p.beneficiary_address_line2),
    ensures
        opt_text(q.beneficiary_name) == opt_text(p.beneficiary_name),
        opt_text(q.beneficiary_address_line1) == opt_text(p.beneficiary_address_line1),
        opt_text(q.beneficiary_address_line2) == opt_text(p.beneficiary_address_line2),
{
    lemma_optional_text_field(p.beneficiary_name);
    lemma_optional_text_field(p.beneficiary_address_line1);
    lemma_optional_text_field(p.beneficiary_address_line2);
}

/// A decoded document carries what a transportable document's transport
/// gives.
#[verifier::spinoff_prover]
#[verifier::rlimit(40)]
proof fn lemma_pay_decoded_transported(pay: Pay, decoded: Pay)
    requires
        pay_transportable(pay),
        decoded_from(pay_fields(pay), decoded),
    ensures
        pay_transported(decoded, pay),
{
    let ps = pay.payments.payment@;
    let qs = decoded.payments.payment@;
    let n = ps.len() as int;
    let raw = pay_fields(pay);
    let pf = payments_fields(ps);
    let bf = beneficiaries_fields(ps);
    lemma_decoded_facts(raw, decoded);
    assert(raw == seq![optional_field(pay.invoice_id), nat_text(n as nat)] + pf + bf);
    lemma_nat_text(n as nat);
    assert(raw[1] == nat_text(n as nat));
    assert(qs.len() == n);
    lemma_payments_fields_shape(ps);
    lemma_beneficiaries_fields_shape(ps);
    lemma_optional_text_field(pay.invoice_id);
    assert(raw[0] == optional_field(pay.invoice_id));
    assert(laid_out(raw, ps)) by {
        reveal(laid_out);
        assert forall|j: int| 0 <= j < ps.len() implies raw.subrange(
            2 + payments_width(ps.take(j)),
            2 + payments_width(ps.take(j + 1)),
        ) == payment_fields(#[trigger] ps[j]) by {
            lemma_width_step(ps, j);
            lemma_width_prefix(ps, j + 1);
            assert(raw.subrange(2 + payments_width(ps.take(j)), 2 + payments_width(ps.take(j + 1))) =~= pf.subrange(
                payments_width(ps.take(j)),
                payments_width(ps.take(j + 1)),
            ));
        }
    }
    lemma_width_nonneg(qs);
    lemma_align(raw, ps, qs, n);
    assert(ps.take(n) =~= ps);
    assert(qs.take(n) =~= qs);
    let b = 2 + payments_width(ps);
    assert forall|k: int| 0 <= k < n implies {
        &&& core_transported(#[trigger] qs[k], ps[k])
        &&& opt_text(qs[k].beneficiary_name) == opt_text(ps[k].beneficiary_name)
        &&& opt_text(qs[k].beneficiary_address_line1) == opt_text(ps[k].beneficiary_address_line1)
        &&& opt_text(qs[k].beneficiary_address_line2) == opt_text(ps[k].beneficiary_address_line2)
    } by {
        lemma_payment_k(raw, ps, qs, k);
        assert(payment_transportable(ps[k]));
        assert(raw.subrange(b + 3 * k, b + 3 * k + 3) =~= bf.subrange(3 * k, 3 * k + 3));
        lemma_beneficiary_k(raw.subrange(b + 3 * k, b + 3 * k + 3), ps[k], qs[k]);
    }
}

/// Whether every payment of a document has its dates written `YYYY-MM-DD`
/// with four-digit years and its classifiers in their ranges.
pub open spec fn pay_canonical(pay: Pay) -> bool {
    forall|k: int| 0 <= k < pay.payments.payment@.len() ==> payment_canonical(#[trigger] pay.payments.payment@[k])
}

/// A document breaks no rule when none of its payments does.
proof fn lemma_payments_valid(ps: Seq<Payment>)
    requires
        payments_error(ps) is None,
    ensures
        forall|k: int| 0 <= k < ps.len() ==> payment_error(#[trigger] ps[k]) is None,
    decreases ps.len(),
{
    if ps.len() > 0 {
        let init = ps.drop_last();
        lemma_payments_valid(init);
        assert forall|k: int| 0 <= k < ps.len() implies payment_error(#[trigger] ps[k]) is None by {
            if k < init.len() {
                assert(ps[k] == init[k]);
            }
        }
    }
}

/// A valid, transportable document with canonical dates is what its own
/// fields read as.
#[verifier::spinoff_prover]
#[verifier::rlimit(40)]
proof fn lemma_pay_self(pay: Pay)
    requires
        pay_transportable(pay),
        pay_error(pay) is None,
        pay_canonical(pay),
    ensures
        pay_read(pay_fields(pay), pay),
{
    let ps = pay.payments.payment@;
    let n = ps.len() as int;
    let raw = pay_fields(pay);
    let pf = payments_fields(ps);
    let bf = beneficiaries_fields(ps);
    assert(raw == seq![optional_field(pay.invoice_id), nat_text(n as nat)] + pf + bf);
    lemma_payments_fields_shape(ps);
    lemma_beneficiaries_fields_shape(ps);
    lemma_payments_valid(ps);
    lemma_optional_self(pay.invoice_id);
    lemma_nat_text(n as nat);
    lemma_width_nonneg(ps);
    let b = 2 + payments_width(ps);
    assert forall|k: int| 0 <= k < n implies payment_core_decoded(
        raw.subrange(2 + payments_width(ps.take(k)), 2 + payments_width(ps.take(k + 1))),
        #[trigger] ps[k],
    ) by {
        lemma_width_step(ps, k);
        lemma_width_prefix(ps, k + 1);
        assert(raw.subrange(2 + payments_width(ps.take(k)), 2 + payments_width(ps.take(k + 1))) =~= pf.subrange(
            payments_width(ps.take(k)),
            payments_width(ps.take(k + 1)),
        ));
        assert(payment_transportable(ps[k]) && payment_canonical(ps[k]));
        lemma_core_self(ps[k]);
    }
    assert forall|k: int| 0 <= k < n implies beneficiary_decoded(raw.subrange(b + 3 * k, b + 3 * k + 3), #[trigger] ps[k])
        by {
        assert(raw.subrange(b + 3 * k, b + 3 * k + 3) =~= bf.subrange(3 * k, 3 * k + 3));
        assert(payment_transportable(ps[k]) && payment_canonical(ps[k]));
        lemma_core_self(ps[k]);
    }
    reveal(pay_read);
}

/// Optional texts that agree agree in every rule that reads them.
proof fn lemma_text_same(x: Option<String>, y: Option<String>)
    requires
        opt_text(x) == opt_text(y),
    ensures
        optional_field(x) == optional_field(y),
        (x is Some) == (y is Some),
        optional_date_ok(x) == optional_date_ok(y),
{
}

/// Accounts that agree break the same rule.
proof fn lemma_accounts_error_same(x: Seq<BankAccount>, y: Seq<BankAccount>)
    requires
        x.len() == y.len(),
        forall|k: int| 0 <= k < x.len() ==> (#[trigger] x[k]).iban@ == y[k].iban@ && opt_text(x[k].bic) == opt_text(y[k].bic),
    ensures
        accounts_error(x) == accounts_error(y),
    decreases x.len(),
{
    if x.len() > 0 {
        lemma_accounts_error_same(x.drop_last(), y.drop_last());
        let k = x.len() - 1;
        assert(x[k].iban@ == y[k].iban@);
        lemma_text_same(x.last().bic, y.last().bic);
        assert(account_error(x.last()) == account_error(y.last()));
    }
}

/// Standing orders that agree break the same rule.
proof fn lemma_standing_order_error_same(x: StandingOrderExt, y: StandingOrderExt)
    requires
        same_standing_order(Some(x), Some(y)),
        opt_text(x.last_date) == opt_text(y.last_date),
    ensures
        standing_order_error(x) == standing_order_error(y),
{
    lemma_text_same(x.last_date, y.last_date);
}

/// Direct debits that agree break the same rule.
proof fn lemma_direct_debit_error_same(x: DirectDebitExt, y: DirectDebitExt)
    requires
        same_direct_debit(Some(x), Some(y)),
        opt_text(x.valid_till_date) == opt_text(y.valid_till_date),
    ensures
        direct_debit_error(x) == direct_debit_error(y),
{
    lemma_text_same(x.variable_symbol, y.variable_symbol);
    lemma_text_same(x.specific_symbol, y.specific_symbol);
    lemma_text_same(x.originators_reference_information, y.originators_reference_information);
    lemma_text_same(x.mandate_id, y.mandate_id);
    lemma_text_same(x.creditor_id, y.creditor_id);
    lemma_text_same(x.contract_id, y.contract_id);
    lemma_text_same(x.valid_till_date, y.valid_till_date);
}

/// Whether two payments carry the same core values: classifiers, amounts,
/// texts, accounts, dates, standing order and direct debit.
pub open spec fn cores_agree(q: Payment, p: Payment) -> bool {
    let aq = q.bank_accounts.bank_account@;
    let ap = p.bank_accounts.bank_account@;
    &&& q.payment_options@ == p.payment_options@
    &&& opt_amount(q.amount) == opt_amount(p.amount)
    &&& q.currency_code@ == p.currency_code@
    &&& opt_text(q.payment_due_date) == opt_text(p.payment_due_date)
    &&& opt_text(q.variable_symbol) == opt_text(p.variable_symbol)
    &&& opt_text(q.constant_symbol) == opt_text(p.constant_symbol)
    &&& opt_text(q.specific_symbol) == opt_text(p.specific_symbol)
    &&& opt_text(q.originators_reference_information) == opt_text(p.originators_reference_information)
    &&& opt_text(q.payment_note) == opt_text(p.payment_note)
    &&& aq.len() == ap.len()
    &&& forall|k: int| 0 <= k < aq.len() ==> (#[trigger] aq[k]).iban@ == ap[k].iban@ && opt_text(aq[k].bic) == opt_text(ap[k].bic)
    &&& same_standing_order(q.standing_order_ext, p.standing_order_ext)
    &&& (q.standing_order_ext is Some ==> opt_text(q.standing_order_ext->0.last_date) == opt_text(
        p.standing_order_ext->0.last_date,
    ))
    &&& same_direct_debit(q.direct_debit_ext, p.direct_debit_ext)
    &&& (q.direct_debit_ext is Some ==> opt_text(q.direct_debit_ext->0.valid_till_date) == opt_text(
        p.direct_debit_ext->0.valid_till_date,
    ))
}

/// Whether two payments carry the same values, beneficiary included.
pub open spec fn payments_agree(q: Payment, p: Payment) -> bool {
    &&& cores_agree(q, p)
    &&& opt_text(q.beneficiary_name) == opt_text(p.beneficiary_name)
    &&& opt_text(q.beneficiary_address_line1) == opt_text(p.beneficiary_address_line1)
    &&& opt_text(q.beneficiary_address_line2) == opt_text(p.beneficiary_address_line2)
}

/// Payments that carry the same values break the same rules.
#[verifier::spinoff_prover]
#[verifier::rlimit(40)]
proof fn lemma_payment_error_agree(q: Payment, p: Payment)
    requires
        payments_agree(q, p),
    ensures
        payment_error(q) == payment_error(p),
{
    lemma_text_same(q.payment_due_date, p.payment_due_date);
    lemma_text_same(q.variable_symbol, p.variable_symbol);
    lemma_text_same(q.constant_symbol, p.constant_symbol);
    lemma_text_same(q.specific_symbol, p.specific_symbol);
    lemma_text_same(q.originators_reference_information, p.originators_reference_information);
    lemma_text_same(q.payment_note, p.payment_note);
    lemma_accounts_error_same(q.bank_accounts.bank_account@, p.bank_accounts.bank_account@);
    if p.standing_order_ext is Some {
        lemma_standing_order_error_same(q.standing_order_ext->0, p.standing_order_ext->0);
    }
    if p.direct_debit_ext is Some {
        lemma_direct_debit_error_same(q.direct_debit_ext->0, p.direct_debit_ext->0);
    }
}

/// A payment that carries what a canonical payment's transport gives breaks
/// the same rule.
proof fn lemma_payment_error_same(q: Payment, p: Payment)
    requires
        core_transported(q, p),
        payment_canonical(p),
        opt_text(q.beneficiary_name) == opt_text(p.beneficiary_name),
        opt_text(q.beneficiary_address_line1) == opt_text(p.beneficiary_address_line1),
        opt_text(q.beneficiary_address_line2) == opt_text(p.beneficiary_address_line2),
        optional_date_ok(p.payment_due_date),
        p.standing_order_ext is Some ==> optional_date_ok(p.standing_order_ext->0.last_date),
        p.direct_debit_ext is Some ==> optional_date_ok(p.direct_debit_ext->0.valid_till_date),
    ensures
        payment_error(q) == payment_error(p),
{
    lemma_date_self(p.payment_due_date);
    if p.standing_order_ext is Some {
        lemma_date_self(p.standing_order_ext->0.last_date);
    }
    if p.direct_debit_ext is Some {
        lemma_date_self(p.direct_debit_ext->0.valid_till_date);
    }
    assert(payments_agree(q, p));
    lemma_payment_error_agree(q, p);
}

/// Two payments read from the same place are as wide and carry the same core
/// values.
#[verifier::spinoff_prover]
#[verifier::rlimit(60)]
proof fn lemma_cores_agree(raw: Seq<Seq<char>>, start: int, q: Payment, p: Payment)
    requires
        0 <= start,
        start + payment_width(q) <= raw.len(),
        start + payment_width(p) <= raw.len(),
        payment_core_decoded(raw.subrange(start, start + payment_width(q)), q),
        payment_core_decoded(raw.subrange(start, start + payment_width(p)), p),
    ensures
        payment_width(q) == payment_width(p),
        cores_agree(q, p),
{
    let wq = raw.subrange(start, start + payment_width(q));
    let wp = raw.subrange(start, start + payment_width(p));
    let a = p.bank_accounts.bank_account@.len() as int;
    assert(wq[9] == raw[start + 9]);
    assert(wp[9] == raw[start + 9]);
    assert(q.bank_accounts.bank_account@.len() == a);
    let so = 10 + 2 * a;
    assert(wq.subrange(so, so + standing_order_width(q.standing_order_ext))[0] == wq[so]);
    assert(wp.subrange(so, so + standing_order_width(p.standing_order_ext))[0] == wp[so]);
    assert(wq[so] == raw[start + so]);
    assert(wp[so] == raw[start + so]);
    assert(seq!['1'][0] != seq!['0'][0]);
    assert((q.standing_order_ext is Some) == (p.standing_order_ext is Some));
    let dd = so + standing_order_width(p.standing_order_ext);
    assert(wq.subrange(dd, wq.len() as int)[0] == wq[dd]);
    assert(wp.subrange(dd, wp.len() as int)[0] == wp[dd]);
    assert(wq[dd] == raw[start + dd]);
    assert(wp[dd] == raw[start + dd]);
    assert((q.direct_debit_ext is Some) == (p.direct_debit_ext is Some));
    assert(payment_width(q) == payment_width(p));
    assert(wq == wp);
    let w = wp;
    let aq = q.bank_accounts.bank_account@;
    let ap = p.bank_accounts.bank_account@;
    assert forall|k: int| 0 <= k < aq.len() implies (#[trigger] aq[k]).iban@ == ap[k].iban@ && opt_text(aq[k].bic) == opt_text(
        ap[k].bic,
    ) by {
        assert(aq[k].iban@ == w[10 + 2 * k]);
        assert(ap[k].iban@ == w[10 + 2 * k]);
    }
    if p.standing_order_ext is Some {
        let x = q.standing_order_ext->0;
        let y = p.standing_order_ext->0;
        let sr = w.subrange(so, dd);
        assert(standing_order_decoded(sr, Some(x)));
        assert(standing_order_decoded(sr, Some(y)));
        match (x.day, y.day) {
            (Some(d1), Some(d2)) => { assert(d1 == d2); },
            (None, Some(d2)) => { assert(sr[1].len() == 0); },
            (Some(d1), None) => { assert(sr[1].len() == 0); },
            (None, None) => {},
        }
        match (x.month, y.month) {
            (Some(m1), Some(m2)) => { assert(m1@ == m2@); },
            (None, Some(m2)) => { assert(sr[2].len() == 0); },
            (Some(m1), None) => { assert(sr[2].len() == 0); },
            (None, None) => {},
        }
    }
    if p.direct_debit_ext is Some {
        let x = q.direct_debit_ext->0;
        let y = p.direct_debit_ext->0;
        let dr = w.subrange(dd, w.len() as int);
        assert(direct_debit_decoded(dr, Some(x)));
        assert(direct_debit_decoded(dr, Some(y)));
        assert(super::models::scheme_classifier(x.direct_debit_scheme) == super::models::scheme_classifier(
            y.direct_debit_scheme,
        ));
        assert(super::models::debit_type_classifier(x.direct_debit_type) == super::models::debit_type_classifier(
            y.direct_debit_type,
        ));
    }
}

/// The core data of the `j`-th of located payments is read from its place.
#[verifier::spinoff_prover]
#[verifier::rlimit(30)]
proof fn lemma_located_at(raw: Seq<Seq<char>>, a: Seq<Payment>, j: int)
    requires
        located(raw, a),
        0 <= j < a.len(),
    ensures
        payment_core_decoded(
            raw.subrange(2 + payments_width(a.take(j)), 2 + payments_width(a.take(j)) + payment_width(a[j])),
            a[j],
        ),
{
    reveal(located);
    lemma_width_step(a, j);
}

/// Payments read one after another from the same fields lie where each
/// other's lie.
#[verifier::spinoff_prover]
#[verifier::rlimit(30)]
proof fn lemma_reads_align(raw: Seq<Seq<char>>, a: Seq<Payment>, b: Seq<Payment>, k: int)
    requires
        located(raw, a),
        located(raw, b),
        a.len() == b.len(),
        2 + payments_width(a) <= raw.len(),
        2 + payments_width(b) <= raw.len(),
        0 <= k <= a.len(),
    ensures
        payments_width(a.take(k)) == payments_width(b.take(k)),
    decreases k,
{
    if k == 0 {
        assert(a.take(0) =~= Seq::<Payment>::empty());
        assert(b.take(0) =~= Seq::<Payment>::empty());
    } else {
        let j = k - 1;
        lemma_reads_align(raw, a, b, j);
        lemma_width_step(a, j);
        lemma_width_step(b, j);
        lemma_width_prefix(a, k);
        lemma_width_prefix(b, k);
        lemma_located_at(raw, a, j);
        lemma_located_at(raw, b, j);
        let start = 2 + payments_width(a.take(j));
        lemma_cores_agree(raw, start, a[j], b[j]);
    }
}

/// Documents read from the same fields carry the same values.
#[verifier::spinoff_prover]
proof fn lemma_reads_agree(raw: Seq<Seq<char>>, d1: Pay, d2: Pay)
    requires
        pay_read(raw, d1),
        pay_read(raw, d2),
    ensures
        opt_text(d1.invoice_id) == opt_text(d2.invoice_id),
        d1.payments.payment@.len() == d2.payments.payment@.len(),
        forall|k: int|
            0 <= k < d1.payments.payment@.len() ==> payments_agree(
                #[trigger] d1.payments.payment@[k],
                d2.payments.payment@[k],
            ),
{
    let a = d1.payments.payment@;
    let b = d2.payments.payment@;
    assert(decoded_from(raw, d1) && decoded_from(raw, d2)) by {
        reveal(decoded_from);
    }
    lemma_decoded_facts(raw, d1);
    lemma_decoded_facts(raw, d2);
    lemma_width_nonneg(a);
    lemma_width_nonneg(b);
    assert(a.len() == b.len());
    let n = a.len() as int;
    lemma_reads_align(raw, a, b, n);
    assert(a.take(n) =~= a);
    assert(b.take(n) =~= b);
    let base = 2 + payments_width(a);
    assert forall|k: int| 0 <= k < n implies payments_agree(#[trigger] a[k], b[k]) by {
        lemma_reads_align(raw, a, b, k);
        lemma_width_step(a, k);
        lemma_width_step(b, k);
        lemma_width_prefix(a, k + 1);
        lemma_width_prefix(b, k + 1);
        lemma_located_at(raw, a, k);
        lemma_located_at(raw, b, k);
        let start = 2 + payments_width(a.take(k));
        lemma_cores_agree(raw, start, a[k], b[k]);
        let w = raw.subrange(base + 3 * k, base + 3 * k + 3);
        assert(beneficiary_decoded(w, a[k]));
        assert(beneficiary_decoded(w, b[k]));
    }
}

/// Documents read from the same fields break the same rules.
#[verifier::spinoff_prover]
pub proof fn lemma_reads_same_error(raw: Seq<Seq<char>>, d1: Pay, d2: Pay)
    requires
        pay_read(raw, d1),
        pay_read(raw, d2),
    ensures
        pay_error(d1) == pay_error(d2),
{
    lemma_reads_agree(raw, d1, d2);
    let a = d1.payments.payment@;
    let b = d2.payments.payment@;
    assert forall|k: int| 0 <= k < a.len() implies payment_error(#[trigger] a[k]) == payment_error(b[k]) by {
        lemma_payment_error_agree(a[k], b[k]);
    }
    lemma_payments_error_same(a, b);
    lemma_text_same(d1.invoice_id, d2.invoice_id);
}

/// Where a document read from fields breaks a rule, every document read from
/// them does.
pub(crate) proof fn lemma_no_valid_read(raw: Seq<Seq<char>>, pay: Pay)
    requires
        pay_read(raw, pay),
        pay_error(pay) is Some,
    ensures
        !pay_decodable(raw),
{
    reveal(pay_decodable);
    assert forall|d: Pay| !pay_decoded(raw, d) by {
        if pay_read(raw, d) {
            lemma_reads_same_error(raw, pay, d);
        }
    }
}

/// Payments that agree one by one break the same rules.
proof fn lemma_payments_error_same(qs: Seq<Payment>, ps: Seq<Payment>)
    requires
        qs.len() == ps.len(),
        forall|k: int|
            0 <= k < qs.len() ==> payment_error(#[trigger] qs[k]) == payment_error(ps[k]),
    ensures
        payments_error(qs) == payments_error(ps),
    decreases qs.len(),
{
    if qs.len() > 0 {
        let k = qs.len() - 1;
        assert(payment_error(qs[k]) == payment_error(ps[k]));
        lemma_payments_error_same(qs.drop_last(), ps.drop_last());
    }
}

/// Every document read from the fields of a valid, transportable document
/// with canonical dates is valid.
#[verifier::spinoff_prover]
proof fn lemma_read_valid(pay: Pay, decoded: Pay)
    requires
        pay_transportable(pay),
        pay_error(pay) is None,
        pay_canonical(pay),
        pay_transported(decoded, pay),
    ensures
        pay_error(decoded) is None,
{
    let ps = pay.payments.payment@;
    let qs = decoded.payments.payment@;
    lemma_payments_valid(ps);
    assert forall|k: int| 0 <= k < qs.len() implies payment_error(#[trigger] qs[k]) == payment_error(ps[k]) by {
        assert(payment_canonical(ps[k]));
        assert(core_transported(qs[k], ps[k]));
        lemma_payment_error_same(qs[k], ps[k]);
    }
    lemma_payments_error_same(qs, ps);
    lemma_text_same(decoded.invoice_id, pay.invoice_id);
}

/// What decoding gives back of an encoded PAY document: a transportable
/// document is written as fields that split back apart; every document read
/// from them carries its values, its dates as the `YYYYMMDD` text written for
/// them reads back; and a document that the encoder accepts, with its dates
/// written `YYYY-MM-DD`, is itself what its fields decode to, and every
/// document read from them is accepted too, so that decoding them succeeds.
#[verifier::spinoff_prover]
pub proof fn lemma_pay_round_trip(pay: Pay)
    requires
        pay_transportable(pay),
    ensures
        split_tabs(pay_sequence(pay)) == pay_fields(pay),
        forall|decoded: Pay| pay_read(pay_fields(pay), decoded) ==> pay_transported(decoded, pay),
        pay_error(pay) is None && pay_canonical(pay) ==> pay_decoded(pay_fields(pay), pay) && pay_decodable(
            pay_fields(pay),
        ),
        pay_error(pay) is None && pay_canonical(pay) ==> forall|decoded: Pay|
            pay_read(pay_fields(pay), decoded) ==> pay_error(decoded) is None,
{
    let ps = pay.payments.payment@;
    let n = ps.len() as int;
    let raw = pay_fields(pay);
    let pf = payments_fields(ps);
    let bf = beneficiaries_fields(ps);
    assert(raw == seq![optional_field(pay.invoice_id), nat_text(n as nat)] + pf + bf);
    lemma_payments_tab_free(ps);
    lemma_optional_text_field(pay.invoice_id);
    lemma_nat_text(n as nat);
    assert forall|i: int| 0 <= i < raw.len() implies tab_free(#[trigger] raw[i]) by {
        if i == 1 {
            let t = raw[1];
            assert forall|k: int| 0 <= k < t.len() implies t[k] != '\t' by {
                assert(crate::decimal::is_digit(t[k]));
            }
        } else if 2 <= i < 2 + pf.len() {
            assert(raw[i] == pf[i - 2]);
        } else if i >= 2 + pf.len() {
            assert(raw[i] == bf[i - 2 - pf.len()]);
        }
    }
    lemma_split_joined(raw);
    assert forall|decoded: Pay| pay_read(raw, decoded) implies pay_transported(decoded, pay) by {
        assert(decoded_from(raw, decoded)) by {
            reveal(decoded_from);
        }
        lemma_pay_decoded_transported(pay, decoded);
    }
    if pay_error(pay) is None && pay_canonical(pay) {
        lemma_pay_self(pay);
        reveal(pay_decodable);
        assert forall|decoded: Pay| pay_read(raw, decoded) implies pay_error(decoded) is None by {
            lemma_read_valid(pay, decoded);
        }
    }
}

/// What decoding a PAY payload gives back: the payload text of a valid,
/// transportable document with its dates written `YYYY-MM-DD` carries its
/// sequence under the PAY header, that sequence decodes, and every document
/// it decodes to carries the document's values.
pub proof fn lemma_pay_payload_round_trip(pay: Pay, text: Seq<char>)
    requires
        pay_transportable(pay),
        pay_error(pay) is None,
        pay_canonical(pay),
        payload_decoded(text) == Some((pay_header(), pay_sequence(pay))),
    ensures
        pay_payload_sequence(text) == Some(pay_sequence(pay)),
        pay_decodable(split_tabs(pay_sequence(pay))),
        forall|d: Pay| pay_decoded(split_tabs(pay_sequence(pay)), d) ==> pay_transported(d, pay),
{
    lemma_pay_round_trip(pay);
}

} // verus!
