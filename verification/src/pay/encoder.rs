//! PAY by square sequence and payload encoding.

use vstd::prelude::*;
use super::models::{
    option_bit, periodicity_allows_months, periodicity_char, scheme_classifier,
    debit_type_classifier, BankAccount, DirectDebitExt, DirectDebitScheme, Pay, Payment,
    PaymentOption, Periodicity, StandingOrderExt,
};
use crate::calendar::{chrono_parsed_date, compact_date_text, compact_text, parse_date, valid_ymd};
use crate::codec::{encode_payload, pay_header, payload_decoded, uncompressed_payload, Header, MAX_UNCOMPRESSED_BYTES};
use crate::decimal::all_digit_chars;
use crate::error::{Error, Result};
use crate::fields::{char_count, join_fields, joined, sanitized, sanitized_text, texts};
use crate::numeral::{nat_text, u64_string};
use crate::text::chars_of;

pub use crate::invoice::encode::{optional_field, SequenceLimit};

verus! {

/// Maximum number of Unicode characters in a PAY QR sequence.
pub const MAX_SEQUENCE_CHARACTERS: usize = 550;

// ---------------------------------------------------------------------------
// Field rules
// ---------------------------------------------------------------------------


/// Whether an optional payment symbol is at most `maximum` ASCII digits once
/// transported, the pattern that the data model makes binding.
pub open spec fn optional_digits_ok(value: Option<String>, maximum: nat) -> bool {
    optional_field(value).len() <= maximum && all_digit_chars(optional_field(value))
}

/// An ASCII uppercase letter.
pub open spec fn upper(c: char) -> bool {
    'A' <= c <= 'Z'
}

/// An ASCII digit.
pub open spec fn digit(c: char) -> bool {
    '0' <= c <= '9'
}

/// `[A-Z]{2}[0-9]{2}[A-Z0-9]{0,30}`.
pub open spec fn iban_ok(s: Seq<char>) -> bool {
    &&& 4 <= s.len() <= 34
    &&& upper(s[0]) && upper(s[1]) && digit(s[2]) && digit(s[3])
    &&& forall|i: int| 4 <= i < s.len() ==> upper(#[trigger] s[i]) || digit(s[i])
}

/// `[A-Z]{6}[A-Z0-9]{2}([A-Z0-9]{3})?`.
pub open spec fn bic_ok(s: Seq<char>) -> bool {
    &&& (s.len() == 8 || s.len() == 11)
    &&& forall|i: int| 0 <= i < 6 ==> upper(#[trigger] s[i])
    &&& forall|i: int| 6 <= i < s.len() ==> upper(#[trigger] s[i]) || digit(s[i])
}

/// The strftime format under which date text of its length is read.
pub open spec fn date_format(t: Seq<char>) -> Seq<char> {
    if t.len() == 8 {
        "%Y%m%d"@
    } else {
        "%Y-%m-%d"@
    }
}

/// Whether date text, once transported, is `YYYYMMDD` or `YYYY-MM-DD` text
/// that chrono reads as a date, a day of the calendar.
pub open spec fn date_ok(value: Seq<char>) -> bool {
    let t = sanitized_text(value);
    &&& t.len() == 8 || t.len() == 10
    &&& chrono_parsed_date(t, date_format(t)) matches Some(ymd) && valid_ymd(ymd.0, ymd.1, ymd.2)
}

/// The transported form of valid date text: chrono's `%Y%m%d` of what it
/// read.
pub open spec fn date_text_field(value: Seq<char>) -> Seq<char> {
    let t = sanitized_text(value);
    let ymd = chrono_parsed_date(t, date_format(t))->0;
    compact_text(ymd.0, ymd.1, ymd.2)
}

/// The transported form of an optional date.
pub open spec fn date_field(value: Option<String>) -> Seq<char> {
    match value {
        Some(v) => date_text_field(v@),
        None => seq![],
    }
}

/// Whether an optional date is absent or valid.
pub open spec fn optional_date_ok(value: Option<String>) -> bool {
    match value {
        Some(v) => date_ok(v@),
        None => true,
    }
}

/// The rule that a bank account breaks, by field.
pub open spec fn account_error(a: BankAccount) -> Option<&'static str> {
    if !iban_ok(sanitized_text(a.iban@)) {
        Some("IBAN")
    } else if a.bic is Some && !bic_ok(sanitized_text(a.bic->0@)) {
        Some("BIC")
    } else {
        None
    }
}

/// The first bank account rule broken in a list of accounts.
pub open spec fn accounts_error(accounts: Seq<BankAccount>) -> Option<&'static str>
    decreases accounts.len(),
{
    if accounts.len() == 0 {
        None
    } else if accounts_error(accounts.drop_last()) is Some {
        accounts_error(accounts.drop_last())
    } else {
        account_error(accounts.last())
    }
}

/// The rule of a standing order's schedule that is broken, by field.
pub open spec fn standing_order_error(so: StandingOrderExt) -> Option<&'static str> {
    if so.day is Some && so.periodicity == Periodicity::Daily {
        Some("Day")
    } else if so.day is Some && (so.periodicity == Periodicity::Weekly || so.periodicity
        == Periodicity::Biweekly) && !(1 <= so.day->0 <= 7) {
        Some("Day")
    } else if so.day is Some && !(1 <= so.day->0 <= 31) {
        Some("Day")
    } else if so.month is Some && !periodicity_allows_months(so.periodicity) {
        Some("Month")
    } else if !optional_date_ok(so.last_date) {
        Some("LastDate")
    } else {
        None
    }
}

/// Whether an optional amount is valid: absent, or greater than zero. Its
/// length is only advisory.
pub open spec fn amount_ok(amount: Option<super::models::Amount>) -> bool {
    match amount {
        Some(a) => a@ != seq!['0'],
        None => true,
    }
}

/// The rule of a direct debit's terms that is broken, by field.
pub open spec fn direct_debit_error(dd: DirectDebitExt) -> Option<&'static str> {
    if (dd.variable_symbol is Some || dd.specific_symbol is Some)
        && dd.originators_reference_information is Some {
        Some("DirectDebitExt.OriginatorsReferenceInformation")
    } else if dd.direct_debit_scheme == DirectDebitScheme::Sepa && (dd.mandate_id is None
        || dd.creditor_id is None) {
        Some("DirectDebitExt.MandateID")
    } else if dd.direct_debit_scheme == DirectDebitScheme::Other && (dd.mandate_id is Some
        || dd.creditor_id is Some) {
        Some("DirectDebitExt.MandateID")
    } else if !optional_digits_ok(dd.variable_symbol, 10) {
        Some("DirectDebitExt.VariableSymbol")
    } else if !optional_digits_ok(dd.specific_symbol, 10) {
        Some("DirectDebitExt.SpecificSymbol")
    } else if !amount_ok(dd.max_amount) {
        Some("DirectDebitExt.MaxAmount")
    } else if !optional_date_ok(dd.valid_till_date) {
        Some("DirectDebitExt.ValidTillDate")
    } else {
        None
    }
}

/// The rule of a payment's core data that is broken, by field.
pub open spec fn payment_error(p: Payment) -> Option<&'static str> {
    let options = p.payment_options@;
    let standing = options & option_bit(PaymentOption::StandingOrder) != 0;
    let debit = options & option_bit(PaymentOption::DirectDebit) != 0;
    let currency = sanitized_text(p.currency_code@);
    if standing && p.standing_order_ext is None {
        Some("StandingOrderExt")
    } else if !standing && p.standing_order_ext is Some {
        Some("PaymentOptions")
    } else if debit && p.direct_debit_ext is None {
        Some("DirectDebitExt")
    } else if !debit && p.direct_debit_ext is Some {
        Some("PaymentOptions")
    } else if !amount_ok(p.amount) {
        Some("Amount")
    } else if !(currency.len() == 3 && upper(currency[0]) && upper(currency[1]) && upper(
        currency[2],
    )) {
        Some("CurrencyCode")
    } else if !optional_date_ok(p.payment_due_date) {
        Some("PaymentDueDate")
    } else if (p.variable_symbol is Some || p.constant_symbol is Some || p.specific_symbol is Some)
        && p.originators_reference_information is Some {
        Some("payment reference")
    } else if !optional_digits_ok(p.variable_symbol, 10) {
        Some("VariableSymbol")
    } else if !optional_digits_ok(p.constant_symbol, 4) {
        Some("ConstantSymbol")
    } else if !optional_digits_ok(p.specific_symbol, 10) {
        Some("SpecificSymbol")
    } else if p.bank_accounts.bank_account@.len() == 0 {
        Some("BankAccounts")
    } else if accounts_error(p.bank_accounts.bank_account@) is Some {
        accounts_error(p.bank_accounts.bank_account@)
    } else if p.standing_order_ext is Some && standing_order_error(p.standing_order_ext->0) is Some {
        standing_order_error(p.standing_order_ext->0)
    } else if p.direct_debit_ext is Some && direct_debit_error(p.direct_debit_ext->0) is Some {
        direct_debit_error(p.direct_debit_ext->0)
    } else {
        None
    }
}

/// The first rule broken by a list of payments' core data.
pub open spec fn payments_error(ps: Seq<Payment>) -> Option<&'static str>
    decreases ps.len(),
{
    if ps.len() == 0 {
        None
    } else if payments_error(ps.drop_last()) is Some {
        payments_error(ps.drop_last())
    } else {
        payment_error(ps.last())
    }
}

/// The first rule of the PAY data model that a document breaks, by field;
/// `None` when it can be encoded.
pub open spec fn pay_error(pay: Pay) -> Option<&'static str> {
    let ps = pay.payments.payment@;
    if ps.len() == 0 {
        Some("Payments")
    } else {
        payments_error(ps)
    }
}

// ---------------------------------------------------------------------------
// Fields
// ---------------------------------------------------------------------------

/// The fields of one bank account.
pub open spec fn account_fields(a: BankAccount) -> Seq<Seq<char>> {
    seq![sanitized_text(a.iban@), optional_field(a.bic)]
}

/// The fields of a list of bank accounts.
pub open spec fn accounts_fields(accounts: Seq<BankAccount>) -> Seq<Seq<char>>
    decreases accounts.len(),
{
    if accounts.len() == 0 {
        seq![]
    } else {
        accounts_fields(accounts.drop_last()) + account_fields(accounts.last())
    }
}

/// The fields of an optional standing order: its occurrence, then its
/// schedule.
pub open spec fn standing_order_fields(so: Option<StandingOrderExt>) -> Seq<Seq<char>> {
    match so {
        None => seq![seq!['0']],
        Some(s) => seq![
            seq!['1'],
            match s.day {
                Some(d) => nat_text(d as nat),
                None => seq![],
            },
            match s.month {
                Some(m) => nat_text(m@ as nat),
                None => seq![],
            },
            seq![periodicity_char(s.periodicity)],
            date_field(s.last_date),
        ],
    }
}

/// The transported form of an optional amount.
pub open spec fn amount_field(amount: Option<super::models::Amount>) -> Seq<char> {
    match amount {
        Some(a) => a@,
        None => seq![],
    }
}

/// The fields of an optional direct debit: its occurrence, then its terms.
pub open spec fn direct_debit_fields(dd: Option<DirectDebitExt>) -> Seq<Seq<char>> {
    match dd {
        None => seq![seq!['0']],
        Some(d) => seq![
            seq!['1'],
            nat_text(scheme_classifier(d.direct_debit_scheme) as nat),
            nat_text(debit_type_classifier(d.direct_debit_type) as nat),
            optional_field(d.variable_symbol),
            optional_field(d.specific_symbol),
            optional_field(d.originators_reference_information),
            optional_field(d.mandate_id),
            optional_field(d.creditor_id),
            optional_field(d.contract_id),
            amount_field(d.max_amount),
            date_field(d.valid_till_date),
        ],
    }
}

/// The core fields of one payment.
pub open spec fn payment_fields(p: Payment) -> Seq<Seq<char>> {
    seq![
        nat_text(p.payment_options@ as nat),
        amount_field(p.amount),
        sanitized_text(p.currency_code@),
        date_field(p.payment_due_date),
        optional_field(p.variable_symbol),
        optional_field(p.constant_symbol),
        optional_field(p.specific_symbol),
        optional_field(p.originators_reference_information),
        optional_field(p.payment_note),
        nat_text(p.bank_accounts.bank_account@.len()),
    ] + accounts_fields(p.bank_accounts.bank_account@) + standing_order_fields(
        p.standing_order_ext,
    ) + direct_debit_fields(p.direct_debit_ext)
}

/// The core fields of a list of payments.
pub open spec fn payments_fields(ps: Seq<Payment>) -> Seq<Seq<char>>
    decreases ps.len(),
{
    if ps.len() == 0 {
        seq![]
    } else {
        payments_fields(ps.drop_last()) + payment_fields(ps.last())
    }
}

/// The beneficiary fields of one payment.
pub open spec fn beneficiary_fields(p: Payment) -> Seq<Seq<char>> {
    seq![
        optional_field(p.beneficiary_name),
        optional_field(p.beneficiary_address_line1),
        optional_field(p.beneficiary_address_line2),
    ]
}

/// The beneficiary fields of a list of payments.
pub open spec fn beneficiaries_fields(ps: Seq<Payment>) -> Seq<Seq<char>>
    decreases ps.len(),
{
    if ps.len() == 0 {
        seq![]
    } else {
        beneficiaries_fields(ps.drop_last()) + beneficiary_fields(ps.last())
    }
}

/// Every field of a PAY sequence: the invoice reference, the number of
/// payments, the core data of every payment, then the beneficiary of every
/// payment.
pub open spec fn pay_fields(pay: Pay) -> Seq<Seq<char>> {
    let ps = pay.payments.payment@;
    seq![optional_field(pay.invoice_id), nat_text(ps.len())] + payments_fields(ps)
        + beneficiaries_fields(ps)
}

/// The PAY sequence of a document: its fields joined by tabs.
pub open spec fn pay_sequence(pay: Pay) -> Seq<char> {
    joined(pay_fields(pay))
}

// ---------------------------------------------------------------------------
// Encoding
// ---------------------------------------------------------------------------

fn push_field(fields: &mut Vec<String>, value: String)
    ensures
        texts(final(fields)@) == texts(old(fields)@).push(value@),
{
    let ghost before = fields@;
    fields.push(value);
    assert(texts(fields@) =~= texts(before).push(value@));
}

fn optional_text(value: &Option<String>) -> (s: String)
    ensures
        s@ == optional_field(*value),
{
    match value {
        Some(v) => sanitized(v.as_str()),
        None => String::new(),
    }
}

fn optional_digits(field: &'static str, value: &Option<String>, maximum: usize) -> (r: Result<String>)
    ensures
        r matches Ok(s) ==> s@ == optional_field(*value) && optional_digits_ok(*value, maximum as nat),
        r is Err <==> !optional_digits_ok(*value, maximum as nat),
        r matches Err(e) ==> (e matches Error::InvalidInput { field: f, .. } && f == field),
{
    let text = optional_text(value);
    if char_count(text.as_str()) > maximum {
        return Err(Error::invalid(field, "contains more ASCII digits than the maximum"));
    }
    let chars = chars_of(text.as_str());
    if !crate::decimal::all_ascii_digits(&chars) {
        return Err(Error::invalid(field, "must contain only ASCII digits"));
    }
    Ok(text)
}

fn valid_date(field: &'static str, value: &str) -> (r: Result<String>)
    ensures
        r matches Ok(s) ==> date_ok(value@) && s@ == date_text_field(value@),
        r is Err <==> !date_ok(value@),
        r matches Err(e) ==> (e matches Error::InvalidInput { field: f, .. } && f == field),
{
    let text = sanitized(value);
    let length = char_count(text.as_str());
    let parsed = if length == 8 {
        parse_date(text.as_str(), "%Y%m%d")
    } else if length == 10 {
        parse_date(text.as_str(), "%Y-%m-%d")
    } else {
        return Err(Error::invalid(field, "must use YYYY-MM-DD or YYYYMMDD format"));
    };
    match parsed {
        Some((y, m, d)) => Ok(compact_date_text(y, m, d)),
        None => Err(Error::invalid(field, "is not a valid date")),
    }
}

fn amount_text(field: &'static str, amount: &Option<super::models::Amount>) -> (r: Result<String>)
    ensures
        r matches Ok(t) ==> t@ == amount_field(*amount) && amount_ok(*amount),
        r is Err <==> !amount_ok(*amount),
        r matches Err(e) ==> (e matches Error::InvalidInput { field: f, .. } && f == field),
{
    match amount {
        None => Ok(String::new()),
        Some(a) => {
            if a.is_zero() {
                return Err(Error::invalid(field, "must be greater than zero"));
            }
            Ok(a.as_str().to_owned())
        },
    }
}

fn optional_date(field: &'static str, value: &Option<String>) -> (r: Result<String>)
    ensures
        r matches Ok(t) ==> t@ == date_field(*value) && optional_date_ok(*value),
        r is Err <==> !optional_date_ok(*value),
        r matches Err(e) ==> (e matches Error::InvalidInput { field: f, .. } && f == field),
{
    match value {
        Some(v) => valid_date(field, v.as_str()),
        None => Ok(String::new()),
    }
}

fn is_iban(s: &Vec<char>) -> (r: bool)
    ensures
        r == iban_ok(s@),
{
    let n = s.len();
    if n < 4 || n > 34 {
        return false;
    }
    if !('A' <= s[0] && s[0] <= 'Z' && 'A' <= s[1] && s[1] <= 'Z' && '0' <= s[2] && s[2] <= '9'
        && '0' <= s[3] && s[3] <= '9') {
        return false;
    }
    let mut i: usize = 4;
    while i < n
        invariant
            4 <= i <= n == s@.len(),
            forall|k: int| 4 <= k < i ==> upper(#[trigger] s@[k]) || digit(s@[k]),
        decreases n - i,
    {
        let c = s[i];
        if !(('A' <= c && c <= 'Z') || ('0' <= c && c <= '9')) {
            return false;
        }
        i = i + 1;
    }
    true
}

fn is_bic(s: &Vec<char>) -> (r: bool)
    ensures
        r == bic_ok(s@),
{
    let n = s.len();
    if n != 8 && n != 11 {
        return false;
    }
    let mut i: usize = 0;
    while i < n
        invariant
            i <= n == s@.len(),
            n == 8 || n == 11,
            forall|k: int| 0 <= k < i && k < 6 ==> upper(#[trigger] s@[k]),
            forall|k: int| 6 <= k < i ==> upper(#[trigger] s@[k]) || digit(s@[k]),
        decreases n - i,
    {
        let c = s[i];
        if i < 6 {
            if !('A' <= c && c <= 'Z') {
                return false;
            }
        } else if !(('A' <= c && c <= 'Z') || ('0' <= c && c <= '9')) {
            return false;
        }
        i = i + 1;
    }
    true
}

fn append_bank_account(fields: &mut Vec<String>, account: &BankAccount) -> (r: Result<()>)
    ensures
        r is Ok <==> account_error(*account) is None,
        r is Ok ==> texts(final(fields)@) == texts(old(fields)@) + account_fields(*account),
        r matches Err(e) ==> (e matches Error::InvalidInput { field, .. } && Some(field) == account_error(*account)),
        account_error(*account) == Some("IBAN") ==> texts(final(fields)@) == texts(old(fields)@),
        account_error(*account) == Some("BIC") ==> texts(final(fields)@) == texts(old(fields)@).push(
            sanitized_text(account.iban@),
        ),
{
    let iban = sanitized(account.iban.as_str());
    if !is_iban(&chars_of(iban.as_str())) {
        return Err(Error::invalid("IBAN", "must match [A-Z]{2}[0-9]{2}[A-Z0-9]{0,30}"));
    }
    let ghost start = texts(fields@);
    push_field(fields, iban);
    let bic = match &account.bic {
        None => String::new(),
        Some(v) => {
            let value = sanitized(v.as_str());
            if !is_bic(&chars_of(value.as_str())) {
                return Err(Error::invalid("BIC", "must match [A-Z]{6}[A-Z0-9]{2}([A-Z0-9]{3})?"));
            }
            value
        },
    };
    push_field(fields, bic);
    assert(texts(fields@) =~= start + account_fields(*account));
    Ok(())
}

fn append_bank_accounts(fields: &mut Vec<String>, accounts: &Vec<BankAccount>) -> (r: Result<()>)
    ensures
        r is Ok <==> accounts_error(accounts@) is None,
        r is Ok ==> texts(final(fields)@) == texts(old(fields)@) + accounts_fields(accounts@),
        r matches Err(e) ==> (e matches Error::InvalidInput { field, .. } && Some(field) == accounts_error(accounts@)),
{
    let ghost start = texts(fields@);
    let mut i: usize = 0;
    assert(accounts@.take(0) =~= Seq::<BankAccount>::empty());
    assert(start + accounts_fields(accounts@.take(0)) =~= start);
    while i < accounts.len()
        invariant
            i <= accounts@.len(),
            accounts_error(accounts@.take(i as int)) is None,
            texts(fields@) == start + accounts_fields(accounts@.take(i as int)),
        decreases accounts.len() - i,
    {
        assert(accounts@.take(i + 1).drop_last() =~= accounts@.take(i as int));
        let ghost before = texts(fields@);
        match append_bank_account(fields, &accounts[i]) {
            Ok(()) => {},
            Err(e) => {
                proof {
                    lemma_accounts_error_prefix(accounts@, i as int + 1);
                }
                return Err(e);
            },
        }
        assert(texts(fields@) =~= start + accounts_fields(accounts@.take(i + 1)));
        i = i + 1;
    }
    assert(accounts@.take(accounts@.len() as int) =~= accounts@);
    Ok(())
}

/// The first broken account rule in a prefix is the first in the whole list.
proof fn lemma_accounts_error_prefix(accounts: Seq<BankAccount>, k: int)
    requires
        0 <= k <= accounts.len(),
        accounts_error(accounts.take(k)) is Some,
    ensures
        accounts_error(accounts) == accounts_error(accounts.take(k)),
    decreases accounts.len() - k,
{
    if k < accounts.len() {
        assert(accounts.take(k + 1).drop_last() =~= accounts.take(k));
        lemma_accounts_error_prefix(accounts, k + 1);
    } else {
        assert(accounts.take(k) =~= accounts);
    }
}

fn append_standing_order(fields: &mut Vec<String>, standing_order: &Option<StandingOrderExt>) -> (r: Result<()>)
    ensures
        r is Ok <==> (standing_order.is_none() || standing_order_error(standing_order->0) is None),
        r is Ok ==> texts(final(fields)@) == texts(old(fields)@) + standing_order_fields(*standing_order),
        r matches Err(e) ==> standing_order is Some && (e matches Error::InvalidInput { field, .. } && Some(field) == standing_order_error(standing_order->0)),
        *standing_order matches Some(so) && standing_order_error(so) matches Some(f) && f != "LastDate"
            ==> texts(final(fields)@) == texts(old(fields)@),
        *standing_order matches Some(so) && standing_order_error(so) == Some("LastDate") ==> texts(
            final(fields)@,
        ) == texts(old(fields)@) + standing_order_fields(*standing_order).take(4),
{
    let ghost start = texts(fields@);
    let so = match standing_order {
        None => {
            push_field(fields, "0".to_owned());
            proof {
                reveal_strlit("0");
                assert("0"@ =~= seq!['0']);
            }
            assert(texts(fields@) =~= start + standing_order_fields(*standing_order));
            return Ok(());
        },
        Some(so) => so,
    };
    let day = match so.day {
        None => String::new(),
        Some(d) => {
            if so.periodicity == Periodicity::Daily {
                return Err(Error::invalid("Day", "must not be specified for Daily periodicity"));
            }
            if (so.periodicity == Periodicity::Weekly || so.periodicity == Periodicity::Biweekly)
                && !(1 <= d && d <= 7) {
                return Err(Error::invalid("Day", "must be between 1 and 7 for Weekly or Biweekly periodicity"));
            }
            if !(1 <= d && d <= 31) {
                return Err(Error::invalid("Day", "must be between 1 and 31"));
            }
            u64_string(d as u64)
        },
    };
    let month = match so.month {
        None => String::new(),
        Some(m) => {
            if !so.periodicity.allows_months() {
                return Err(Error::invalid("Month", "is allowed only for Weekly, Biweekly, Monthly, or Bimonthly periodicity"));
            }
            u64_string(m.classifier() as u64)
        },
    };
    let mut classifier: Vec<char> = Vec::new();
    classifier.push(so.periodicity.classifier());
    push_field(fields, "1".to_owned());
    push_field(fields, day);
    push_field(fields, month);
    push_field(fields, crate::text::string_from_chars(classifier.as_slice()));
    proof {
        reveal_strlit("1");
        assert("1"@ =~= seq!['1']);
    }
    let last_date = match optional_date("LastDate", &so.last_date) {
        Ok(t) => t,
        Err(e) => {
            assert(texts(fields@) =~= start + standing_order_fields(*standing_order).take(4));
            return Err(e);
        },
    };
    push_field(fields, last_date);
    assert(texts(fields@) =~= start + standing_order_fields(*standing_order));
    Ok(())
}

fn append_direct_debit(fields: &mut Vec<String>, direct_debit: &Option<DirectDebitExt>) -> (r: Result<()>)
    ensures
        r is Ok <==> (direct_debit.is_none() || direct_debit_error(direct_debit->0) is None),
        r is Ok ==> texts(final(fields)@) == texts(old(fields)@) + direct_debit_fields(*direct_debit),
        r matches Err(e) ==> direct_debit is Some && (e matches Error::InvalidInput { field, .. } && Some(field) == direct_debit_error(direct_debit->0)),
{
    let ghost start = texts(fields@);
    let dd = match direct_debit {
        None => {
            push_field(fields, "0".to_owned());
            proof {
                reveal_strlit("0");
                assert("0"@ =~= seq!['0']);
            }
            assert(texts(fields@) =~= start + direct_debit_fields(*direct_debit));
            return Ok(());
        },
        Some(dd) => dd,
    };
    if (dd.variable_symbol.is_some() || dd.specific_symbol.is_some())
        && dd.originators_reference_information.is_some() {
        return Err(Error::invalid("DirectDebitExt.OriginatorsReferenceInformation", "cannot be combined with payment symbols"));
    }
    if dd.direct_debit_scheme == DirectDebitScheme::Sepa && (dd.mandate_id.is_none()
        || dd.creditor_id.is_none()) {
        return Err(Error::invalid("DirectDebitExt.MandateID", "MandateID and CreditorID are required for SEPA direct debit"));
    }
    if dd.direct_debit_scheme == DirectDebitScheme::Other && (dd.mandate_id.is_some()
        || dd.creditor_id.is_some()) {
        return Err(Error::invalid("DirectDebitExt.MandateID", "MandateID and CreditorID are only valid for SEPA direct debit"));
    }
    let variable_symbol = optional_digits("DirectDebitExt.VariableSymbol", &dd.variable_symbol, 10)?;
    let specific_symbol = optional_digits("DirectDebitExt.SpecificSymbol", &dd.specific_symbol, 10)?;
    let reference = optional_text(&dd.originators_reference_information);
    let mandate_id = optional_text(&dd.mandate_id);
    let creditor_id = optional_text(&dd.creditor_id);
    let contract_id = optional_text(&dd.contract_id);
    let max_amount = amount_text("DirectDebitExt.MaxAmount", &dd.max_amount)?;
    let valid_till_date = optional_date("DirectDebitExt.ValidTillDate", &dd.valid_till_date)?;
    push_field(fields, "1".to_owned());
    push_field(fields, u64_string(dd.direct_debit_scheme.classifier() as u64));
    push_field(fields, u64_string(dd.direct_debit_type.classifier() as u64));
    push_field(fields, variable_symbol);
    push_field(fields, specific_symbol);
    push_field(fields, reference);
    push_field(fields, mandate_id);
    push_field(fields, creditor_id);
    push_field(fields, contract_id);
    push_field(fields, max_amount);
    push_field(fields, valid_till_date);
    proof {
        reveal_strlit("1");
        assert("1"@ =~= seq!['1']);
    }
    assert(texts(fields@) =~= start + direct_debit_fields(*direct_debit));
    Ok(())
}

fn append_payment_core(fields: &mut Vec<String>, payment: &Payment) -> (r: Result<()>)
    ensures
        r is Ok <==> payment_error(*payment) is None,
        r is Ok ==> texts(final(fields)@) == texts(old(fields)@) + payment_fields(*payment),
        r matches Err(e) ==> (e matches Error::InvalidInput { field, .. } && Some(field) == payment_error(*payment)),
{
    let options = payment.payment_options;
    let standing = options.contains(PaymentOption::StandingOrder);
    let debit = options.contains(PaymentOption::DirectDebit);
    if standing && payment.standing_order_ext.is_none() {
        return Err(Error::invalid("StandingOrderExt", "is required when PaymentOptions contains standingorder"));
    }
    if !standing && payment.standing_order_ext.is_some() {
        return Err(Error::invalid("PaymentOptions", "must contain standingorder when StandingOrderExt is present"));
    }
    if debit && payment.direct_debit_ext.is_none() {
        return Err(Error::invalid("DirectDebitExt", "is required when PaymentOptions contains directdebit"));
    }
    if !debit && payment.direct_debit_ext.is_some() {
        return Err(Error::invalid("PaymentOptions", "must contain directdebit when DirectDebitExt is present"));
    }
    let amount = amount_text("Amount", &payment.amount)?;
    let currency = sanitized(payment.currency_code.as_str());
    let code = chars_of(currency.as_str());
    if !(code.len() == 3 && 'A' <= code[0] && code[0] <= 'Z' && 'A' <= code[1] && code[1] <= 'Z'
        && 'A' <= code[2] && code[2] <= 'Z') {
        return Err(Error::invalid("CurrencyCode", "must contain exactly three ASCII uppercase letters"));
    }
    let due_date = optional_date("PaymentDueDate", &payment.payment_due_date)?;
    let has_symbols = payment.variable_symbol.is_some() || payment.constant_symbol.is_some()
        || payment.specific_symbol.is_some();
    if has_symbols && payment.originators_reference_information.is_some() {
        return Err(Error::invalid("payment reference", "OriginatorsReferenceInformation cannot be combined with payment symbols"));
    }
    let variable_symbol = optional_digits("VariableSymbol", &payment.variable_symbol, 10)?;
    let constant_symbol = optional_digits("ConstantSymbol", &payment.constant_symbol, 4)?;
    let specific_symbol = optional_digits("SpecificSymbol", &payment.specific_symbol, 10)?;
    let reference = optional_text(&payment.originators_reference_information);
    let note = optional_text(&payment.payment_note);
    let accounts = &payment.bank_accounts.bank_account;
    if accounts.len() == 0 {
        return Err(Error::invalid("BankAccounts", "must contain at least one BankAccount"));
    }
    let ghost start = texts(fields@);
    push_field(fields, u64_string(options.classifier() as u64));
    push_field(fields, amount);
    push_field(fields, currency);
    push_field(fields, due_date);
    push_field(fields, variable_symbol);
    push_field(fields, constant_symbol);
    push_field(fields, specific_symbol);
    push_field(fields, reference);
    push_field(fields, note);
    push_field(fields, u64_string(accounts.len() as u64));
    let ghost head = texts(fields@);
    assert(head =~= start + seq![
        nat_text(payment.payment_options@ as nat),
        amount_field(payment.amount),
        sanitized_text(payment.currency_code@),
        date_field(payment.payment_due_date),
        optional_field(payment.variable_symbol),
        optional_field(payment.constant_symbol),
        optional_field(payment.specific_symbol),
        optional_field(payment.originators_reference_information),
        optional_field(payment.payment_note),
        nat_text(payment.bank_accounts.bank_account@.len()),
    ]);
    append_bank_accounts(fields, accounts)?;
    append_standing_order(fields, &payment.standing_order_ext)?;
    append_direct_debit(fields, &payment.direct_debit_ext)?;
    assert(texts(fields@) =~= start + payment_fields(*payment));
    Ok(())
}

/// The first broken rule in a prefix of payments is the first in the whole
/// list.
proof fn lemma_payments_error_prefix(ps: Seq<Payment>, k: int)
    requires
        0 <= k <= ps.len(),
        payments_error(ps.take(k)) is Some,
    ensures
        payments_error(ps) == payments_error(ps.take(k)),
    decreases ps.len() - k,
{
    if k < ps.len() {
        assert(ps.take(k + 1).drop_last() =~= ps.take(k));
        lemma_payments_error_prefix(ps, k + 1);
    } else {
        assert(ps.take(k) =~= ps);
    }
}

fn append_payments(fields: &mut Vec<String>, payments: &Vec<Payment>) -> (r: Result<()>)
    ensures
        r is Ok <==> payments_error(payments@) is None,
        r is Ok ==> texts(final(fields)@) == texts(old(fields)@) + payments_fields(payments@),
        r matches Err(e) ==> (e matches Error::InvalidInput { field, .. } && Some(field) == payments_error(payments@)),
{
    let ghost start = texts(fields@);
    let mut i: usize = 0;
    assert(payments@.take(0) =~= Seq::<Payment>::empty());
    assert(start + payments_fields(payments@.take(0)) =~= start);
    while i < payments.len()
        invariant
            i <= payments@.len(),
            payments_error(payments@.take(i as int)) is None,
            texts(fields@) == start + payments_fields(payments@.take(i as int)),
        decreases payments.len() - i,
    {
        assert(payments@.take(i + 1).drop_last() =~= payments@.take(i as int));
        match append_payment_core(fields, &payments[i]) {
            Ok(()) => {},
            Err(e) => {
                proof {
                    lemma_payments_error_prefix(payments@, i as int + 1);
                }
                return Err(e);
            },
        }
        assert(texts(fields@) =~= start + payments_fields(payments@.take(i + 1)));
        i = i + 1;
    }
    assert(payments@.take(payments@.len() as int) =~= payments@);
    Ok(())
}

fn append_beneficiaries(fields: &mut Vec<String>, payments: &Vec<Payment>)
    ensures
        texts(final(fields)@) == texts(old(fields)@) + beneficiaries_fields(payments@),
{
    let ghost start = texts(fields@);
    let mut i: usize = 0;
    assert(payments@.take(0) =~= Seq::<Payment>::empty());
    assert(start + beneficiaries_fields(payments@.take(0)) =~= start);
    while i < payments.len()
        invariant
            i <= payments@.len(),
            texts(fields@) == start + beneficiaries_fields(payments@.take(i as int)),
        decreases payments.len() - i,
    {
        assert(payments@.take(i + 1).drop_last() =~= payments@.take(i as int));
        let payment = &payments[i];
        let ghost before = texts(fields@);
        push_field(fields, optional_text(&payment.beneficiary_name));
        push_field(fields, optional_text(&payment.beneficiary_address_line1));
        push_field(fields, optional_text(&payment.beneficiary_address_line2));
        assert(texts(fields@) =~= before + beneficiary_fields(*payment));
        assert(texts(fields@) =~= start + beneficiaries_fields(payments@.take(i + 1)));
        i = i + 1;
    }
    assert(payments@.take(payments@.len() as int) =~= payments@);
}

/// Serialize a PAY document into its tab-delimited sequence under the given
/// length policy: the invoice reference, the number of payments, the core
/// data of every payment, then every payment's beneficiary. Text longer
/// than its advisory `bsqr:maxLength` is written whole, neither rejected nor
/// cut; `Pay::advisory_diagnostics` reports it.
pub fn encode_sequence_with_limit(pay: &Pay, limit: SequenceLimit) -> (res: Result<String>)
    ensures
        pay_error(*pay) matches Some(f) ==> res matches Err(Error::InvalidInput { field, .. })
            && field == f,
        pay_error(*pay) is None && limit == SequenceLimit::QrCode && pay_sequence(*pay).len()
            > 550 ==> (res matches Err(Error::SequenceTooLong { actual, maximum }) && actual
            == pay_sequence(*pay).len() && maximum == 550),
        pay_error(*pay) is None && (limit == SequenceLimit::Unbounded || pay_sequence(*pay).len()
            <= 550) ==> res is Ok,
        res matches Ok(s) ==> s@ == pay_sequence(*pay),
{
    let payments = &pay.payments.payment;
    if payments.len() == 0 {
        return Err(Error::invalid("Payments", "must contain at least one Payment"));
    }
    let mut fields: Vec<String> = Vec::new();
    push_field(&mut fields, optional_text(&pay.invoice_id));
    push_field(&mut fields, u64_string(payments.len() as u64));
    let ghost head = texts(fields@);
    append_payments(&mut fields, payments)?;
    append_beneficiaries(&mut fields, payments);
    assert(texts(fields@) =~= pay_fields(*pay));
    let sequence = join_fields(&fields);
    let count = char_count(sequence.as_str());
    if limit == SequenceLimit::QrCode && count > MAX_SEQUENCE_CHARACTERS {
        return Err(Error::SequenceTooLong { actual: count, maximum: MAX_SEQUENCE_CHARACTERS });
    }
    Ok(sequence)
}

/// Serialize a PAY document into its sequence under the QR limit.
pub fn encode_sequence(pay: &Pay) -> (res: Result<String>)
    ensures
        pay_error(*pay) matches Some(f) ==> res matches Err(Error::InvalidInput { field, .. })
            && field == f,
        pay_error(*pay) is None && pay_sequence(*pay).len() > 550 ==> (res matches Err(
            Error::SequenceTooLong { actual, maximum },
        ) && actual == pay_sequence(*pay).len() && maximum == 550),
        pay_error(*pay) is None && pay_sequence(*pay).len() <= 550 ==> res is Ok,
        res matches Ok(s) ==> s@ == pay_sequence(*pay),
{
    encode_sequence_with_limit(pay, SequenceLimit::QrCode)
}

/// Encode a PAY document into its Base32hex payload under the given length
/// policy: the sequence, compressed behind the all-zero PAY header.
pub fn encode_with_limit(pay: &Pay, limit: SequenceLimit) -> (res: Result<String>)
    ensures
        pay_error(*pay) matches Some(f) ==> res matches Err(Error::InvalidInput { field, .. })
            && field == f,
        pay_error(*pay) is None && limit == SequenceLimit::QrCode && pay_sequence(*pay).len()
            > 550 ==> (res matches Err(Error::SequenceTooLong { actual, maximum }) && actual
            == pay_sequence(*pay).len() && maximum == 550),
        pay_error(*pay) is None && (limit == SequenceLimit::Unbounded || pay_sequence(*pay).len()
            <= 550) && uncompressed_payload(pay_sequence(*pay)).len() > MAX_UNCOMPRESSED_BYTES
            ==> res matches Err(Error::PayloadTooLong(_)),
        pay_error(*pay) is None && (limit == SequenceLimit::Unbounded || pay_sequence(*pay).len()
            <= 550) && uncompressed_payload(pay_sequence(*pay)).len() <= MAX_UNCOMPRESSED_BYTES
            ==> res is Ok,
        res matches Ok(t) ==> payload_decoded(t@) == Some((pay_header(), pay_sequence(*pay))),
        res matches Err(e) ==> e is InvalidInput || e is SequenceTooLong || e is PayloadTooLong,
{
    let sequence = encode_sequence_with_limit(pay, limit)?;
    encode_payload(Header::pay(), sequence.as_str())
}

/// Encode a PAY document into its Base32hex payload under the QR limit.
pub fn encode(pay: &Pay) -> (res: Result<String>)
    ensures
        pay_error(*pay) matches Some(f) ==> res matches Err(Error::InvalidInput { field, .. })
            && field == f,
        pay_error(*pay) is None && pay_sequence(*pay).len() > 550 ==> (res matches Err(
            Error::SequenceTooLong { actual, maximum },
        ) && actual == pay_sequence(*pay).len() && maximum == 550),
        pay_error(*pay) is None && pay_sequence(*pay).len() <= 550 && uncompressed_payload(
            pay_sequence(*pay),
        ).len() > MAX_UNCOMPRESSED_BYTES ==> res matches Err(Error::PayloadTooLong(_)),
        pay_error(*pay) is None && pay_sequence(*pay).len() <= 550 && uncompressed_payload(
            pay_sequence(*pay),
        ).len() <= MAX_UNCOMPRESSED_BYTES ==> res is Ok,
        res matches Ok(t) ==> payload_decoded(t@) == Some((pay_header(), pay_sequence(*pay))),
        res matches Err(e) ==> e is InvalidInput || e is SequenceTooLong || e is PayloadTooLong,
{
    encode_with_limit(pay, SequenceLimit::QrCode)
}

} // verus!
