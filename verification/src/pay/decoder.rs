//! PAY by square payload and sequence decoding.

use vstd::prelude::*;
use super::encoder::{
    direct_debit_error, optional_date_ok, payment_error, standing_order_error,
    account_fields, accounts_fields, amount_field, beneficiaries_fields, beneficiary_fields,
    date_field, date_format, date_text_field, direct_debit_fields, encode_sequence_with_limit,
    optional_field, pay_error, pay_fields, pay_sequence, payment_fields, payments_fields,
    standing_order_fields, SequenceLimit,
};
use super::models::{
    lemma_periodicity_round_trip, periodicity_char, periodicity_of, Amount, BankAccount, BankAccounts, DirectDebitExt, DirectDebitScheme,
    DirectDebitType, Months, Pay, Payment, PaymentOptions, Payments, Periodicity, StandingOrderExt,
};
use crate::calendar::{
    chrono_parsed_date, compact_date_shape, compact_text, compact_ymd, iso_date_text, iso_text, lemma_compact_text,
    lemma_iso_text, parse_date, valid_ymd, year_text,
};
use crate::codec::{decode_payload, fault_error, lemma_fault_decoded, pay_header, payload_decoded, payload_fault, Header};
use crate::decimal::{
    all_ascii_digits, amount_canonical, digits_value, is_canonical_decimal, lemma_amount_canonical_fixed,
    lemma_canonical_chars, text_integer, text_negative,
};
use crate::error::{text, Error, Result};
use crate::fields::{lemma_sanitized_identity, lemma_split_joined, sanitized_text, split_tabs, tab_free, texts};
use crate::invoice::decode::{
    advanced, lemma_optional_text_field, next_optional, next_text, opt_text, optional_decoded,
    text_transportable, window,
};
use crate::numeral::{is_numeral, lemma_nat_text, lemma_padded_text, nat_text, padded_text};
use crate::reader::{field_at, parse_unsigned, SequenceReader};
use crate::text::{chars_of, same_text};

verus! {

/// The `YYYY-MM-DD` text of the date that eight digits `YYYYMMDD` write.
pub open spec fn compact_iso(raw: Seq<char>) -> Seq<char> {
    let ymd = compact_ymd(raw);
    iso_text(ymd.0, ymd.1, ymd.2)
}

/// A date field that decodes: empty, or eight digits `YYYYMMDD` that write a
/// day of the calendar.
pub open spec fn date_field_ok(raw: Seq<char>) -> bool {
    let ymd = compact_ymd(raw);
    raw.len() == 0 || (compact_date_shape(raw) && valid_ymd(ymd.0, ymd.1, ymd.2))
}

/// A date field: empty for no date, otherwise eight digits that write a day
/// of the calendar, kept as `YYYY-MM-DD`.
pub open spec fn pay_date_decoded(raw: Seq<char>, v: Option<String>) -> bool {
    match v {
        None => raw.len() == 0,
        Some(t) => raw.len() > 0 && date_field_ok(raw) && t@ == compact_iso(raw),
    }
}

/// An amount field that decodes: empty, or a non-negative decimal.
pub open spec fn amount_field_ok(raw: Seq<char>) -> bool {
    raw.len() == 0 || amount_canonical(raw, false) is Some
}

/// A numeral of at most `max`.
pub open spec fn numeral_within(raw: Seq<char>, max: int) -> bool {
    is_numeral(raw) && digits_value(raw) <= max
}

/// An optional numeral field that decodes: empty, or a numeral of at most
/// `max`.
pub open spec fn optional_numeral_within(raw: Seq<char>, max: int) -> bool {
    raw.len() == 0 || numeral_within(raw, max)
}

/// An occurrence flag: `0` or `1`.
pub open spec fn occurrence_ok(raw: Seq<char>) -> bool {
    raw == seq!['0'] || raw == seq!['1']
}

/// An amount field: empty for no amount, otherwise the normalized amount.
pub open spec fn amount_decoded(raw: Seq<char>, v: Option<Amount>) -> bool {
    match v {
        None => raw.len() == 0,
        Some(a) => raw.len() > 0 && amount_canonical(raw, false) == Some(a@),
    }
}

/// A numeral of at most `max` whose number is `v`.
pub open spec fn numeral_of(raw: Seq<char>, v: int, max: int) -> bool {
    is_numeral(raw) && digits_value(raw) == v && v <= max
}

/// The number of fields a standing order occupies.
pub open spec fn standing_order_width(so: Option<StandingOrderExt>) -> int {
    if so is Some {
        5
    } else {
        1
    }
}

/// The number of fields a direct debit occupies.
pub open spec fn direct_debit_width(dd: Option<DirectDebitExt>) -> int {
    if dd is Some {
        11
    } else {
        1
    }
}

/// The number of fields a payment's core data occupies.
pub open spec fn payment_width(p: Payment) -> int {
    10 + 2 * p.bank_accounts.bank_account@.len() + standing_order_width(p.standing_order_ext)
        + direct_debit_width(p.direct_debit_ext)
}

/// The number of fields the core data of a list of payments occupies.
pub open spec fn payments_width(ps: Seq<Payment>) -> int
    decreases ps.len(),
{
    if ps.len() == 0 {
        0
    } else {
        payments_width(ps.drop_last()) + payment_width(ps.last())
    }
}

/// A standing order's fields: its occurrence, day, months, periodicity and
/// last date.
pub open spec fn standing_order_decoded(raw: Seq<Seq<char>>, so: Option<StandingOrderExt>) -> bool {
    match so {
        None => raw[0] == seq!['0'],
        Some(s) => {
            &&& raw[0] == seq!['1']
            &&& match s.day {
                Some(d) => numeral_of(raw[1], d as int, 255),
                None => raw[1].len() == 0,
            }
            &&& match s.month {
                Some(m) => numeral_of(raw[2], m@ as int, 65535) && 1 <= m@ <= 4095,
                None => raw[2].len() == 0,
            }
            &&& raw[3].len() == 1 && periodicity_of(raw[3][0]) == Some(s.periodicity)
            &&& pay_date_decoded(raw[4], s.last_date)
        },
    }
}

/// A direct debit's fields: its occurrence, then its terms.
pub open spec fn direct_debit_decoded(raw: Seq<Seq<char>>, dd: Option<DirectDebitExt>) -> bool {
    match dd {
        None => raw[0] == seq!['0'],
        Some(d) => {
            &&& raw[0] == seq!['1']
            &&& numeral_of(raw[1], super::models::scheme_classifier(d.direct_debit_scheme) as int, 255)
            &&& numeral_of(raw[2], super::models::debit_type_classifier(d.direct_debit_type) as int, 255)
            &&& optional_decoded(raw[3], d.variable_symbol)
            &&& optional_decoded(raw[4], d.specific_symbol)
            &&& optional_decoded(raw[5], d.originators_reference_information)
            &&& optional_decoded(raw[6], d.mandate_id)
            &&& optional_decoded(raw[7], d.creditor_id)
            &&& optional_decoded(raw[8], d.contract_id)
            &&& amount_decoded(raw[9], d.max_amount)
            &&& pay_date_decoded(raw[10], d.valid_till_date)
        },
    }
}

/// The fields of a payment's core data; beneficiaries are not among them.
pub open spec fn payment_core_decoded(raw: Seq<Seq<char>>, p: Payment) -> bool {
    let accounts = p.bank_accounts.bank_account@;
    let a = accounts.len() as int;
    let so_end = 10 + 2 * a + standing_order_width(p.standing_order_ext);
    &&& raw.len() == payment_width(p)
    &&& numeral_of(raw[0], p.payment_options@ as int, 255) && 1 <= p.payment_options@ <= 7
    &&& amount_decoded(raw[1], p.amount)
    &&& p.currency_code@ == raw[2]
    &&& pay_date_decoded(raw[3], p.payment_due_date)
    &&& optional_decoded(raw[4], p.variable_symbol)
    &&& optional_decoded(raw[5], p.constant_symbol)
    &&& optional_decoded(raw[6], p.specific_symbol)
    &&& optional_decoded(raw[7], p.originators_reference_information)
    &&& optional_decoded(raw[8], p.payment_note)
    &&& a > 0 && is_numeral(raw[9]) && digits_value(raw[9]) == a
    &&& forall|k: int|
        0 <= k < a ==> (#[trigger] accounts[k]).iban@ == raw[10 + 2 * k] && optional_decoded(
            raw[11 + 2 * k],
            accounts[k].bic,
        )
    &&& standing_order_decoded(raw.subrange(10 + 2 * a, so_end), p.standing_order_ext)
    &&& direct_debit_decoded(raw.subrange(so_end, raw.len() as int), p.direct_debit_ext)
}

/// A payment's three beneficiary fields.
pub open spec fn beneficiary_decoded(raw: Seq<Seq<char>>, p: Payment) -> bool {
    &&& optional_decoded(raw[0], p.beneficiary_name)
    &&& optional_decoded(raw[1], p.beneficiary_address_line1)
    &&& optional_decoded(raw[2], p.beneficiary_address_line2)
}

/// Whether `pay` is what the fields `raw` of a sequence read as: the
/// invoice reference, the number of payments, each payment's core data, each
/// payment's beneficiary, and nothing more.
#[verifier::opaque]
pub open spec fn pay_read(raw: Seq<Seq<char>>, pay: Pay) -> bool {
    let ps = pay.payments.payment@;
    let n = ps.len() as int;
    let b = 2 + payments_width(ps);
    &&& n > 0
    &&& optional_decoded(raw[0], pay.invoice_id)
    &&& is_numeral(raw[1]) && digits_value(raw[1]) == n
    &&& raw.len() == b + 3 * n
    &&& forall|k: int|
        0 <= k < n ==> payment_core_decoded(
            raw.subrange(2 + payments_width(ps.take(k)), 2 + payments_width(ps.take(k + 1))),
            #[trigger] ps[k],
        )
    &&& forall|k: int| 0 <= k < n ==> beneficiary_decoded(raw.subrange(b + 3 * k, b + 3 * k + 3), #[trigger] ps[k])
}

/// Whether `pay` is what the fields `raw` of a sequence decode to: what they
/// read as, and a document the encoder accepts.
pub open spec fn pay_decoded(raw: Seq<Seq<char>>, pay: Pay) -> bool {
    pay_read(raw, pay) && pay_error(pay) is None
}

/// Whether the fields of a sequence decode to some document.
#[verifier::opaque]
pub open spec fn pay_decodable(raw: Seq<Seq<char>>) -> bool {
    exists|d: Pay| pay_decoded(raw, d)
}

fn parse_pay_date(reader: &mut SequenceReader, field: &'static str) -> (r: Result<Option<String>>)
    requires
        old(reader).position <= old(reader).fields@.len(),
    ensures
        r matches Ok(d) ==> advanced(*old(reader), *final(reader), 1) && pay_date_decoded(
            field_at(*old(reader), old(reader).position as int),
            d,
        ),
        final(reader).position <= final(reader).fields@.len(),
        final(reader).fields@ == old(reader).fields@,
        r matches Err(e) ==> e is InvalidSequence,
        old(reader).position < old(reader).fields@.len() && date_field_ok(
            field_at(*old(reader), old(reader).position as int),
        ) ==> r is Ok,
{
    let value = reader.next(field)?;
    if value.as_str().is_empty() {
        return Ok(None);
    }
    let chars = chars_of(value.as_str());
    if chars.len() != 8 || !all_ascii_digits(&chars) {
        return Err(reader.invalid(field, "must use YYYYMMDD format"));
    }
    assert(compact_date_shape(value@));
    match parse_date(value.as_str(), "%Y%m%d") {
        Some((y, m, d)) => Ok(Some(iso_date_text(y, m, d))),
        None => Err(reader.invalid(field, "is not a valid date")),
    }
}

fn parse_amount(reader: &mut SequenceReader, field: &'static str) -> (r: Result<Option<Amount>>)
    requires
        old(reader).position <= old(reader).fields@.len(),
    ensures
        r matches Ok(a) ==> advanced(*old(reader), *final(reader), 1) && amount_decoded(
            field_at(*old(reader), old(reader).position as int),
            a,
        ),
        final(reader).position <= final(reader).fields@.len(),
        final(reader).fields@ == old(reader).fields@,
        r matches Err(e) ==> e is InvalidSequence,
        old(reader).position < old(reader).fields@.len() && amount_field_ok(
            field_at(*old(reader), old(reader).position as int),
        ) ==> r is Ok,
{
    let value = reader.next(field)?;
    if value.as_str().is_empty() {
        return Ok(None);
    }
    match Amount::new(value.as_str()) {
        Ok(a) => Ok(Some(a)),
        Err(_) => Err(reader.invalid(field, "must be a non-negative decimal number")),
    }
}

fn parse_number(reader: &mut SequenceReader, field: &'static str, max: u64) -> (r: Result<u64>)
    requires
        old(reader).position <= old(reader).fields@.len(),
    ensures
        r matches Ok(v) ==> advanced(*old(reader), *final(reader), 1) && numeral_of(
            field_at(*old(reader), old(reader).position as int),
            v as int,
            max as int,
        ),
        final(reader).position <= final(reader).fields@.len(),
        final(reader).fields@ == old(reader).fields@,
        r matches Err(e) ==> e is InvalidSequence,
        old(reader).position < old(reader).fields@.len() && numeral_within(
            field_at(*old(reader), old(reader).position as int),
            max as int,
        ) ==> r is Ok,
{
    let value = reader.next(field)?;
    parse_unsigned(value.as_str(), field, reader.position, max)
}

fn parse_optional_number(reader: &mut SequenceReader, field: &'static str, max: u64) -> (r: Result<Option<u64>>)
    requires
        old(reader).position <= old(reader).fields@.len(),
    ensures
        r matches Ok(v) ==> advanced(*old(reader), *final(reader), 1) && match v {
            Some(n) => numeral_of(field_at(*old(reader), old(reader).position as int), n as int, max as int),
            None => field_at(*old(reader), old(reader).position as int).len() == 0,
        },
        final(reader).position <= final(reader).fields@.len(),
        final(reader).fields@ == old(reader).fields@,
        r matches Err(e) ==> e is InvalidSequence,
        old(reader).position < old(reader).fields@.len() && optional_numeral_within(
            field_at(*old(reader), old(reader).position as int),
            max as int,
        ) ==> r is Ok,
{
    let value = reader.next(field)?;
    if value.as_str().is_empty() {
        return Ok(None);
    }
    let n = parse_unsigned(value.as_str(), field, reader.position, max)?;
    Ok(Some(n))
}

fn parse_occurrence(reader: &mut SequenceReader, field: &'static str) -> (r: Result<bool>)
    requires
        old(reader).position <= old(reader).fields@.len(),
    ensures
        r matches Ok(b) ==> advanced(*old(reader), *final(reader), 1) && field_at(
            *old(reader),
            old(reader).position as int,
        ) == (if b { seq!['1'] } else { seq!['0'] }),
        final(reader).position <= final(reader).fields@.len(),
        final(reader).fields@ == old(reader).fields@,
        r matches Err(e) ==> e is InvalidSequence,
        old(reader).position < old(reader).fields@.len() && occurrence_ok(
            field_at(*old(reader), old(reader).position as int),
        ) ==> r is Ok,
{
    let value = reader.next(field)?;
    proof {
        reveal_strlit("0");
        reveal_strlit("1");
        assert("0"@ =~= seq!['0']);
        assert("1"@ =~= seq!['1']);
    }
    if same_text(value.as_str(), "0") {
        Ok(false)
    } else if same_text(value.as_str(), "1") {
        Ok(true)
    } else {
        Err(reader.invalid(field, "occurrence must be 0 or 1"))
    }
}

/// A standing order's schedule fields that decode.
spec fn schedule_ok(w: Seq<Seq<char>>) -> bool {
    &&& optional_numeral_within(w[0], 255)
    &&& (w[1].len() == 0 || (numeral_within(w[1], 65535) && 1 <= digits_value(w[1]) <= 4095))
    &&& w[2].len() == 1 && periodicity_of(w[2][0]) is Some
    &&& date_field_ok(w[3])
}

/// A direct debit's term fields that decode.
spec fn terms_ok(w: Seq<Seq<char>>) -> bool {
    &&& numeral_within(w[0], 1)
    &&& numeral_within(w[1], 1)
    &&& amount_field_ok(w[8])
    &&& date_field_ok(w[9])
}

fn parse_standing_order(reader: &mut SequenceReader) -> (r: Result<StandingOrderExt>)
    requires
        old(reader).position <= old(reader).fields@.len(),
    ensures
        r matches Ok(so) ==> advanced(*old(reader), *final(reader), 4) && standing_order_decoded(
            seq![seq!['1']] + window(*old(reader), old(reader).position as int, 4),
            Some(so),
        ),
        final(reader).position <= final(reader).fields@.len(),
        final(reader).fields@ == old(reader).fields@,
        r matches Err(e) ==> e is InvalidSequence,
        old(reader).position + 4 <= old(reader).fields@.len() && schedule_ok(
            window(*old(reader), old(reader).position as int, 4),
        ) ==> r is Ok,
{
    let ghost start = *reader;
    let ghost p0 = reader.position as int;
    let ghost ok = p0 + 4 <= start.fields@.len() && schedule_ok(window(start, p0, 4));
    proof {
        if ok {
            let w = window(start, p0, 4);
            assert(w[0] == field_at(start, p0));
            assert(w[1] == field_at(start, p0 + 1));
            assert(w[2] == field_at(start, p0 + 2));
            assert(w[3] == field_at(start, p0 + 3));
        }
    }
    let day = match parse_optional_number(reader, "Day", 255)? {
        Some(d) => Some(d as u8),
        None => None,
    };
    let month = match parse_optional_number(reader, "Month", 65535)? {
        None => None,
        Some(c) => match Months::from_classifier(c as u16) {
            Ok(m) => Some(m),
            Err(_) => return Err(reader.invalid("Month", "unknown classifier")),
        },
    };
    let value = reader.next("Periodicity")?;
    assert(ok ==> value@ == field_at(start, p0 + 2));
    let characters = chars_of(value.as_str());
    if characters.len() != 1 {
        return Err(reader.invalid("Periodicity", "must be one classifier character"));
    }
    let periodicity = match Periodicity::from_classifier(characters[0]) {
        Ok(p) => p,
        Err(_) => return Err(reader.invalid("Periodicity", "unknown classifier")),
    };
    let last_date = parse_pay_date(reader, "LastDate")?;
    let so = StandingOrderExt { day, month, periodicity, last_date };
    proof {
        let raw = seq![seq!['1']] + window(start, p0, 4);
        assert(raw[1] == field_at(start, p0));
        assert(raw[2] == field_at(start, p0 + 1));
        assert(raw[3] == field_at(start, p0 + 2));
        assert(raw[4] == field_at(start, p0 + 3));
        assert(standing_order_decoded(raw, Some(so)));
    }
    Ok(so)
}

fn parse_direct_debit(reader: &mut SequenceReader) -> (r: Result<DirectDebitExt>)
    requires
        old(reader).position <= old(reader).fields@.len(),
    ensures
        r matches Ok(dd) ==> advanced(*old(reader), *final(reader), 10) && direct_debit_decoded(
            seq![seq!['1']] + window(*old(reader), old(reader).position as int, 10),
            Some(dd),
        ),
        final(reader).position <= final(reader).fields@.len(),
        final(reader).fields@ == old(reader).fields@,
        r matches Err(e) ==> e is InvalidSequence,
        old(reader).position + 10 <= old(reader).fields@.len() && terms_ok(
            window(*old(reader), old(reader).position as int, 10),
        ) ==> r is Ok,
{
    let ghost start = *reader;
    let ghost p0 = reader.position as int;
    let ghost ok = p0 + 10 <= start.fields@.len() && terms_ok(window(start, p0, 10));
    proof {
        if ok {
            let w = window(start, p0, 10);
            assert(w[0] == field_at(start, p0));
            assert(w[1] == field_at(start, p0 + 1));
            assert(w[8] == field_at(start, p0 + 8));
            assert(w[9] == field_at(start, p0 + 9));
        }
    }
    let scheme = parse_number(reader, "DirectDebitScheme", 255)?;
    let direct_debit_scheme = match DirectDebitScheme::from_classifier(scheme as u8) {
        Ok(s) => s,
        Err(_) => return Err(reader.invalid("DirectDebitScheme", "unknown classifier")),
    };
    let kind = parse_number(reader, "DirectDebitType", 255)?;
    let direct_debit_type = match DirectDebitType::from_classifier(kind as u8) {
        Ok(t) => t,
        Err(_) => return Err(reader.invalid("DirectDebitType", "unknown classifier")),
    };
    let variable_symbol = next_optional(reader, "DirectDebitExt.VariableSymbol")?;
    let specific_symbol = next_optional(reader, "DirectDebitExt.SpecificSymbol")?;
    let originators_reference_information = next_optional(reader, "DirectDebitExt.OriginatorsReferenceInformation")?;
    let mandate_id = next_optional(reader, "DirectDebitExt.MandateID")?;
    let creditor_id = next_optional(reader, "DirectDebitExt.CreditorID")?;
    let contract_id = next_optional(reader, "DirectDebitExt.ContractID")?;
    let max_amount = parse_amount(reader, "DirectDebitExt.MaxAmount")?;
    let valid_till_date = parse_pay_date(reader, "DirectDebitExt.ValidTillDate")?;
    let dd = DirectDebitExt {
        direct_debit_scheme,
        direct_debit_type,
        variable_symbol,
        specific_symbol,
        originators_reference_information,
        mandate_id,
        creditor_id,
        contract_id,
        max_amount,
        valid_till_date,
    };
    proof {
        let raw = seq![seq!['1']] + window(start, p0, 10);
        assert forall|k: int| 1 <= k < 11 implies raw[k] == field_at(start, p0 + k - 1) by {}
        assert(direct_debit_decoded(raw, Some(dd)));
    }
    Ok(dd)
}

fn parse_accounts(reader: &mut SequenceReader, count: u64) -> (r: Result<Vec<BankAccount>>)
    requires
        old(reader).position <= old(reader).fields@.len(),
    ensures
        r matches Ok(v) ==> v@.len() == count && advanced(*old(reader), *final(reader), 2 * count)
            && forall|k: int|
            0 <= k < count ==> (#[trigger] v@[k]).iban@ == field_at(
                *old(reader),
                old(reader).position + 2 * k,
            ) && optional_decoded(field_at(*old(reader), old(reader).position + 2 * k + 1), v@[k].bic),
        final(reader).position <= final(reader).fields@.len(),
        final(reader).fields@ == old(reader).fields@,
        r matches Err(e) ==> e is InvalidSequence,
        old(reader).position + 2 * count <= old(reader).fields@.len() ==> r is Ok,
{
    let ghost start = *reader;
    let ghost p0 = reader.position as int;
    let mut accounts: Vec<BankAccount> = Vec::new();
    let mut k: u64 = 0;
    while k < count
        invariant
            k <= count,
            reader.fields@ == start.fields@,
            start.fields@ == old(reader).fields@,
            p0 == old(reader).position,
            reader.position == p0 + 2 * k,
            reader.position <= reader.fields@.len(),
            accounts@.len() == k,
            forall|j: int|
                0 <= j < k ==> (#[trigger] accounts@[j]).iban@ == field_at(start, p0 + 2 * j)
                    && optional_decoded(field_at(start, p0 + 2 * j + 1), accounts@[j].bic),
        decreases count - k,
    {
        let iban = next_text(reader, "IBAN")?;
        let bic = next_optional(reader, "BIC")?;
        accounts.push(BankAccount { iban, bic });
        k = k + 1;
    }
    Ok(accounts)
}

/// Whether the core data of `e` is what the fields of `r` from `p0` on
/// decode to.
#[verifier::opaque]
spec fn core_at(raw: Seq<Seq<char>>, p0: int, e: Payment) -> bool {
    p0 + payment_width(e) <= raw.len() && payment_core_decoded(raw.subrange(p0, p0 + payment_width(e)), e)
}

/// Whether the core data of each of `ps` is what the fields `raw` decode to,
/// one payment after another from the third field on.
#[verifier::opaque]
spec fn cores_at(raw: Seq<Seq<char>>, ps: Seq<Payment>) -> bool {
    forall|j: int| 0 <= j < ps.len() ==> core_at(raw, 2 + payments_width(ps.take(j)), #[trigger] ps[j])
}

/// A payment read from its place among the fields is read from the fields
/// as wide as it is.
proof fn lemma_core_at(raw: Seq<Seq<char>>, ps: Seq<Payment>, j: int)
    requires
        0 <= j < ps.len(),
        2 + payments_width(ps.take(j + 1)) <= raw.len(),
        payment_core_decoded(raw.subrange(2 + payments_width(ps.take(j)), 2 + payments_width(ps.take(j + 1))), ps[j]),
    ensures
        core_at(raw, 2 + payments_width(ps.take(j)), ps[j]),
{
    lemma_width_step(ps, j);
    reveal(core_at);
}

/// What a document read from fields says of their layout.
#[verifier::spinoff_prover]
proof fn lemma_read_layout(raw: Seq<Seq<char>>, d: Pay)
    requires
        pay_read(raw, d),
    ensures
        cores_at(raw, d.payments.payment@),
        raw.len() == 2 + payments_width(d.payments.payment@) + 3 * d.payments.payment@.len(),
        payments_width(d.payments.payment@) >= 0,
        d.payments.payment@.len() > 0,
        is_numeral(raw[1]) && digits_value(raw[1]) == d.payments.payment@.len(),
{
    let ps = d.payments.payment@;
    lemma_width_nonneg(ps);
    reveal(pay_read);
    reveal(cores_at);
    assert forall|j: int| 0 <= j < ps.len() implies core_at(raw, 2 + payments_width(ps.take(j)), #[trigger] ps[j]) by {
        lemma_width_prefix(ps, j + 1);
        lemma_core_at(raw, ps, j);
    }
}

/// The fields of a payment's core data, read one by one, each decode.
proof fn lemma_expected_fields(start: SequenceReader, p0: int, e: Payment)
    requires
        0 <= p0,
        core_at(texts(start.fields@), p0, e),
    ensures
        ({
            let ea = e.bank_accounts.bank_account@.len() as int;
            let so_end = 10 + 2 * ea + standing_order_width(e.standing_order_ext);
            &&& p0 + payment_width(e) <= start.fields@.len()
            &&& numeral_within(field_at(start, p0), 255) && 1 <= digits_value(field_at(start, p0)) <= 7
            &&& amount_field_ok(field_at(start, p0 + 1))
            &&& date_field_ok(field_at(start, p0 + 3))
            &&& numeral_within(field_at(start, p0 + 9), u64::MAX as int) && digits_value(field_at(start, p0 + 9)) == ea
            &&& ea > 0
            &&& field_at(start, p0 + 10 + 2 * ea) == (if e.standing_order_ext is Some { seq!['1'] } else { seq!['0'] })
            &&& e.standing_order_ext is Some ==> schedule_ok(window(start, p0 + 11 + 2 * ea, 4))
            &&& field_at(start, p0 + so_end) == (if e.direct_debit_ext is Some { seq!['1'] } else { seq!['0'] })
            &&& e.direct_debit_ext is Some ==> terms_ok(window(start, p0 + so_end + 1, 10))
        }),
{
    reveal(core_at);
    let ea = e.bank_accounts.bank_account@.len() as int;
    let so_end = 10 + 2 * ea + standing_order_width(e.standing_order_ext);
    let ew = window(start, p0, payment_width(e));
    assert(ew =~= texts(start.fields@).subrange(p0, p0 + payment_width(e)));
    assert forall|k: int| 0 <= k < payment_width(e) implies #[trigger] ew[k] == field_at(start, p0 + k) by {}
    assert(start.fields@.len() == start.fields.len());
    assert(ew[0] == field_at(start, p0));
    assert(ew[1] == field_at(start, p0 + 1));
    assert(ew[3] == field_at(start, p0 + 3));
    assert(ew[9] == field_at(start, p0 + 9));
    let so_raw = ew.subrange(10 + 2 * ea, so_end);
    assert(so_raw[0] == ew[10 + 2 * ea]);
    assert(ew[10 + 2 * ea] == field_at(start, p0 + 10 + 2 * ea));
    if e.standing_order_ext is Some {
        let w = window(start, p0 + 11 + 2 * ea, 4);
        assert forall|k: int| 0 <= k < 4 implies #[trigger] w[k] == so_raw[k + 1] by {
            assert(so_raw[k + 1] == ew[11 + 2 * ea + k]);
        }
        assert(schedule_ok(w)) by {
            assert(w[0] == so_raw[1]);
            assert(w[1] == so_raw[2]);
            assert(w[2] == so_raw[3]);
            assert(w[3] == so_raw[4]);
        }
    }
    let dd_raw = ew.subrange(so_end, payment_width(e));
    assert(dd_raw[0] == ew[so_end]);
    assert(ew[so_end] == field_at(start, p0 + so_end));
    if e.direct_debit_ext is Some {
        let w = window(start, p0 + so_end + 1, 10);
        assert forall|k: int| 0 <= k < 10 implies #[trigger] w[k] == dd_raw[k + 1] by {
            assert(dd_raw[k + 1] == ew[so_end + 1 + k]);
        }
        assert(terms_ok(w)) by {
            assert(w[0] == dd_raw[1]);
            assert(w[1] == dd_raw[2]);
            assert(w[8] == dd_raw[9]);
            assert(w[9] == dd_raw[10]);
        }
    }
}

#[verifier::spinoff_prover]
#[verifier::rlimit(40)]
fn parse_payment(reader: &mut SequenceReader, Ghost(expected): Ghost<Option<Payment>>) -> (r: Result<Payment>)
    requires
        old(reader).position <= old(reader).fields@.len(),
    ensures
        expected is Some && core_at(texts(old(reader).fields@), old(reader).position as int, expected->0) ==> (r matches Ok(p)
            && payment_width(p) == payment_width(expected->0)),
        r matches Ok(p) ==> advanced(*old(reader), *final(reader), payment_width(p))
            && payment_core_decoded(
            window(*old(reader), old(reader).position as int, payment_width(p)),
            p,
        ) && p.beneficiary_name is None && p.beneficiary_address_line1 is None
            && p.beneficiary_address_line2 is None,
        final(reader).position <= final(reader).fields@.len(),
        final(reader).fields@ == old(reader).fields@,
        r matches Err(e) ==> e is InvalidSequence,
{
    let ghost start = *reader;
    let ghost p0 = reader.position as int;
    let ghost e = expected->0;
    let ghost ok = expected is Some && core_at(texts(start.fields@), p0, e);
    let ghost ea = e.bank_accounts.bank_account@.len() as int;
    let ghost so_end = 10 + 2 * ea + standing_order_width(e.standing_order_ext);
    proof {
        if ok {
            lemma_expected_fields(start, p0, e);
        }
    }
    let options = parse_number(reader, "PaymentOptions", 255)?;
    let payment_options = match PaymentOptions::from_classifier(options as u8) {
        Ok(o) => o,
        Err(_) => return Err(reader.invalid("PaymentOptions", "unknown classifier")),
    };
    let amount = parse_amount(reader, "Amount")?;
    let currency_code = next_text(reader, "CurrencyCode")?;
    let payment_due_date = parse_pay_date(reader, "PaymentDueDate")?;
    let variable_symbol = next_optional(reader, "VariableSymbol")?;
    let constant_symbol = next_optional(reader, "ConstantSymbol")?;
    let specific_symbol = next_optional(reader, "SpecificSymbol")?;
    let originators_reference_information = next_optional(reader, "OriginatorsReferenceInformation")?;
    let payment_note = next_optional(reader, "PaymentNote")?;
    let count = parse_number(reader, "BankAccounts", 18446744073709551615)?;
    if count == 0 {
        return Err(reader.invalid("BankAccounts", "must contain at least one BankAccount"));
    }
    let bank_account = parse_accounts(reader, count)?;
    let ghost at_so = *reader;
    let standing = parse_occurrence(reader, "StandingOrderExt")?;
    assert(ok ==> standing == (e.standing_order_ext is Some)) by {
        assert(seq!['1'][0] != seq!['0'][0]);
    }
    let standing_order_ext = if standing {
        Some(parse_standing_order(reader)?)
    } else {
        None
    };
    let ghost at_dd = *reader;
    let debit = parse_occurrence(reader, "DirectDebitExt")?;
    assert(ok ==> debit == (e.direct_debit_ext is Some)) by {
        assert(seq!['1'][0] != seq!['0'][0]);
    }
    let direct_debit_ext = if debit {
        Some(parse_direct_debit(reader)?)
    } else {
        None
    };
    let payment = Payment {
        payment_options,
        amount,
        currency_code,
        payment_due_date,
        variable_symbol,
        constant_symbol,
        specific_symbol,
        originators_reference_information,
        payment_note,
        bank_accounts: BankAccounts { bank_account },
        standing_order_ext,
        direct_debit_ext,
        beneficiary_name: None,
        beneficiary_address_line1: None,
        beneficiary_address_line2: None,
    };
    proof {
        let w = payment_width(payment);
        let raw = window(start, p0, w);
        let a = count as int;
        let so_end = 10 + 2 * a + standing_order_width(standing_order_ext);
        assert(at_so.position == p0 + 10 + 2 * a);
        assert(at_dd.position == p0 + so_end);
        assert forall|k: int| 0 <= k < w implies raw[k] == field_at(start, p0 + k) by {}
        let so_raw = raw.subrange(10 + 2 * a, so_end);
        if standing {
            assert(so_raw =~= seq![seq!['1']] + window(start, p0 + 11 + 2 * a, 4));
        }
        assert(standing_order_decoded(so_raw, standing_order_ext));
        let dd_raw = raw.subrange(so_end, w);
        if debit {
            assert(dd_raw =~= seq![seq!['1']] + window(start, p0 + so_end + 1, 10));
        }
        assert(direct_debit_decoded(dd_raw, direct_debit_ext));
        assert(payment_core_decoded(raw, payment));
    }
    Ok(payment)
}

/// Payments whose widths agree one by one occupy the same number of fields.
proof fn lemma_same_widths(a: Seq<Payment>, b: Seq<Payment>)
    requires
        a.len() == b.len(),
        forall|k: int| 0 <= k < a.len() ==> payment_width(#[trigger] a[k]) == payment_width(b[k]),
    ensures
        payments_width(a) == payments_width(b),
    decreases a.len(),
{
    if a.len() > 0 {
        lemma_same_widths(a.drop_last(), b.drop_last());
    }
}

/// Decode and validate an uncompressed tab-delimited PAY sequence. It fails
/// with `InvalidSequence` exactly where no document reads from the fields,
/// and with `InvalidPayload` where the document read breaks a rule of the
/// data model.
#[verifier::spinoff_prover]
#[verifier::rlimit(60)]
pub fn decode_sequence(sequence: &str) -> (res: Result<Pay>)
    ensures
        res matches Ok(pay) ==> pay_decoded(split_tabs(sequence@), pay),
        res is Ok <==> pay_decodable(split_tabs(sequence@)),
        res matches Err(e) ==> e is InvalidSequence || e is InvalidPayload,
        (exists|d: Pay| pay_read(split_tabs(sequence@), d)) && res is Err ==> res->Err_0 is InvalidPayload,
        res is Err && res->Err_0 is InvalidPayload ==> exists|d: Pay|
            pay_read(split_tabs(sequence@), d) && pay_error(d) is Some,
{
    let mut reader = SequenceReader::new(sequence);
    let ghost raw = texts(reader.fields@);
    let ghost start = reader;
    let ghost has = exists|d: Pay| pay_read(raw, d);
    let ghost has_valid = pay_decodable(raw);
    let ghost d = choose|d: Pay| pay_read(raw, d);
    let ghost dps = d.payments.payment@;
    assert(has_valid ==> has) by {
        reveal(pay_decodable);
    }
    proof {
        if has {
            assert(reader.fields@.len() == reader.fields.len());
            assert(raw.len() == reader.fields@.len());
            lemma_read_layout(raw, d);
            assert(raw[1] == field_at(start, 1));
        }
    }
    let invoice_id = next_optional(&mut reader, "InvoiceID")?;
    let count = parse_number(&mut reader, "Payments", 18446744073709551615)?;
    if count == 0 {
        return Err(reader.invalid("Payments", "must contain at least one Payment"));
    }
    assert(has ==> count == dps.len());
    let mut cores: Vec<Payment> = Vec::new();
    let mut k: u64 = 0;
    while k < count
        invariant
            k <= count,
            reader.fields@ == start.fields@,
            raw == texts(start.fields@),
            reader.position == 2 + payments_width(cores@),
            reader.position <= reader.fields@.len(),
            cores@.len() == k,
            forall|j: int|
                0 <= j < k ==> payment_core_decoded(
                    raw.subrange(2 + payments_width(cores@.take(j)), 2 + payments_width(cores@.take(j + 1))),
                    #[trigger] cores@[j],
                ) && cores@[j].beneficiary_name is None && cores@[j].beneficiary_address_line1 is None
                    && cores@[j].beneficiary_address_line2 is None,
            raw == split_tabs(sequence@),
            has == (exists|d: Pay| pay_read(raw, d)),
            has_valid == pay_decodable(raw),
            has_valid ==> has,
            has ==> cores_at(raw, dps) && count == dps.len() && raw.len() == 2 + payments_width(dps) + 3 * count,
            has ==> forall|j: int| 0 <= j < k ==> payment_width(#[trigger] cores@[j]) == payment_width(dps[j]),
        decreases count - k,
    {
        let ghost before = reader;
        let ghost prior = cores@;
        let ghost expected = if has {
            Some(dps[k as int])
        } else {
            None
        };
        proof {
            if has {
                let j = k as int;
                assert forall|i: int| 0 <= i < prior.len() implies payment_width(#[trigger] prior[i]) == payment_width(
                    dps.take(j)[i],
                ) by {}
                lemma_same_widths(prior, dps.take(j));
                reveal(cores_at);
                assert(core_at(raw, 2 + payments_width(dps.take(j)), dps[j]));
                assert(raw == texts(reader.fields@));
            }
        }
        let payment = parse_payment(&mut reader, Ghost(expected))?;
        cores.push(payment);
        proof {
            assert(cores@.take(k as int) =~= prior);
            assert(cores@.take(k + 1) =~= cores@);
            assert(cores@.drop_last() =~= prior);
            assert(window(before, before.position as int, payment_width(payment)) =~= raw.subrange(
                2 + payments_width(prior),
                2 + payments_width(cores@),
            ));
            assert forall|j: int| 0 <= j < k implies #[trigger] cores@.take(j) == prior.take(j) && cores@.take(j + 1)
                == prior.take(j + 1) by {
                assert(cores@.take(j) =~= prior.take(j));
                assert(cores@.take(j + 1) =~= prior.take(j + 1));
            }
        }
        k = k + 1;
    }
    let ghost all = cores@;
    let ghost b = reader.position as int;
    assert(b == 2 + payments_width(all));
    proof {
        if has {
            lemma_same_widths(all, dps);
        }
    }
    let mut payments: Vec<Payment> = Vec::new();
    let mut k: u64 = 0;
    while k < count
        invariant
            k <= count == all.len(),
            reader.fields@ == start.fields@,
            raw == texts(start.fields@),
            reader.position == b + 3 * k,
            reader.position <= reader.fields@.len(),
            cores@ == all.skip(k as int),
            payments@.len() == k,
            forall|j: int|
                0 <= j < k ==> payment_core_decoded(
                    raw.subrange(2 + payments_width(all.take(j)), 2 + payments_width(all.take(j + 1))),
                    #[trigger] payments@[j],
                ) && payment_width(payments@[j]) == payment_width(all[j]) && beneficiary_decoded(
                    raw.subrange(b + 3 * j, b + 3 * j + 3),
                    payments@[j],
                ),
            forall|j: int|
                0 <= j < count ==> payment_core_decoded(
                    raw.subrange(2 + payments_width(all.take(j)), 2 + payments_width(all.take(j + 1))),
                    #[trigger] all[j],
                ),
            raw == split_tabs(sequence@),
            has == (exists|d: Pay| pay_read(raw, d)),
            has_valid == pay_decodable(raw),
            has_valid ==> has,
            has ==> start.fields@.len() == b + 3 * count,
        decreases count - k,
    {
        let ghost before = reader;
        let beneficiary_name = next_optional(&mut reader, "BeneficiaryName")?;
        let beneficiary_address_line1 = next_optional(&mut reader, "BeneficiaryAddressLine1")?;
        let beneficiary_address_line2 = next_optional(&mut reader, "BeneficiaryAddressLine2")?;
        assert(cores@.len() > 0);
        let mut payment = cores.remove(0);
        assert(payment == all[k as int]);
        payment.beneficiary_name = beneficiary_name;
        payment.beneficiary_address_line1 = beneficiary_address_line1;
        payment.beneficiary_address_line2 = beneficiary_address_line2;
        proof {
            let j = k as int;
            assert(payment_core_decoded(
                raw.subrange(2 + payments_width(all.take(j)), 2 + payments_width(all.take(j + 1))),
                all[j],
            ));
            let w = raw.subrange(b + 3 * j, b + 3 * j + 3);
            assert(w[0] == field_at(start, b + 3 * j));
            assert(w[1] == field_at(start, b + 3 * j + 1));
            assert(w[2] == field_at(start, b + 3 * j + 2));
            assert(all.skip(j).drop_first() =~= all.skip(j + 1));
        }
        payments.push(payment);
        k = k + 1;
    }
    reader.finish()?;
    let pay = Pay { invoice_id, payments: Payments { payment: payments } };
    proof {
        let ps = pay.payments.payment@;
        assert(ps.len() == all.len());
        assert forall|j: int| 0 <= j <= ps.len() implies payments_width(ps.take(j)) == payments_width(all.take(j)) by {
            lemma_same_widths(ps.take(j), all.take(j));
        }
        assert(raw[0] == field_at(start, 0));
        assert(raw[1] == field_at(start, 1));
        assert(ps.take(ps.len() as int) =~= ps);
        assert(all.take(all.len() as int) =~= all);
        reveal(pay_read);
        assert(pay_read(raw, pay));
    }
    match encode_sequence_with_limit(&pay, SequenceLimit::Unbounded) {
        Ok(_) => {},
        Err(_) => {
            proof {
                super::transport::lemma_no_valid_read(raw, pay);
            }
            return Err(Error::InvalidPayload(text("decoded PAY sequence violates the data model")));
        },
    }
    assert(pay_decodable(raw)) by {
        reveal(pay_decodable);
        assert(pay_decoded(raw, pay));
    }
    Ok(pay)
}

/// The sequence a payload carries under the PAY header; `None` where it
/// carries none or carries it under another header.
pub open spec fn pay_payload_sequence(payload: Seq<char>) -> Option<Seq<char>> {
    match payload_decoded(payload) {
        Some((h, s)) => if h == pay_header() {
            Some(s)
        } else {
            None
        },
        None => None,
    }
}

/// Decode and validate a Base32hex PAY by square payload; the header must be
/// the all-zero PAY header.
#[verifier::spinoff_prover]
pub fn decode(payload: &str) -> (res: Result<Pay>)
    ensures
        res matches Ok(pay) ==> exists|s: Seq<char>|
            payload_decoded(payload@) == Some((pay_header(), s)) && pay_decoded(split_tabs(s), pay),
        res is Ok <==> (pay_payload_sequence(payload@) matches Some(s) && pay_decodable(split_tabs(s))),
        payload_fault(payload@) matches Some(f) ==> (res matches Err(e) && fault_error(f, e)),
        payload_decoded(payload@) matches Some((h, s)) && h != pay_header() ==> res matches Err(
            Error::InvalidPayload(_),
        ),
        (pay_payload_sequence(payload@) matches Some(s) && (exists|d: Pay| pay_read(split_tabs(s), d)))
            ==> (res is Err ==> res->Err_0 is InvalidPayload),
        res is Err && res->Err_0 is InvalidPayload && pay_payload_sequence(payload@) is Some ==> exists|d: Pay|
            pay_read(split_tabs(pay_payload_sequence(payload@)->0), d) && pay_error(d) is Some,
        (pay_payload_sequence(payload@) matches Some(s) && !(exists|d: Pay| pay_read(split_tabs(s), d)))
            ==> res matches Err(Error::InvalidSequence { .. }),
        res matches Err(e) ==> e is InvalidPayload || e is Compression || e is ChecksumMismatch || e is Utf8
            || e is InvalidSequence,
{
    let decoded = match decode_payload(payload) {
        Ok(d) => d,
        Err(e) => {
            proof {
                lemma_fault_decoded(payload@);
            }
            return Err(e);
        },
    };
    let header = decoded.header;
    if !(header.by_square_type == 0 && header.version == 0 && header.document_type == 0
        && header.reserved == 0) {
        return Err(Error::InvalidPayload(text("expected PAY header 0/0/0/0")));
    }
    assert(header == pay_header());
    assert(payload_decoded(payload@) == Some((pay_header(), decoded.sequence@)));
    assert(pay_payload_sequence(payload@) == Some(decoded.sequence@));
    let pay = match decode_sequence(decoded.sequence.as_str()) {
        Ok(p) => p,
        Err(e) => {
            proof {
                if e is InvalidPayload {
                    let d = choose|d: Pay| pay_read(split_tabs(decoded.sequence@), d) && pay_error(d) is Some;
                    assert(pay_read(split_tabs(pay_payload_sequence(payload@)->0), d));
                }
            }
            return Err(e);
        },
    };
    Ok(pay)
}

// ---------------------------------------------------------------------------
// What decoding gives back of an encoded PAY document
// ---------------------------------------------------------------------------

/// The fields of a list of accounts: two per account.
proof fn lemma_accounts_fields_shape(accounts: Seq<BankAccount>)
    ensures
        accounts_fields(accounts).len() == 2 * accounts.len(),
        forall|k: int|
            0 <= k < accounts.len() ==> accounts_fields(accounts)[2 * k] == sanitized_text(
                (#[trigger] accounts[k]).iban@,
            ) && accounts_fields(accounts)[2 * k + 1] == optional_field(accounts[k].bic),
    decreases accounts.len(),
{
    if accounts.len() > 0 {
        let init = accounts.drop_last();
        lemma_accounts_fields_shape(init);
        assert forall|k: int| 0 <= k < accounts.len() implies accounts_fields(accounts)[2 * k] == sanitized_text(
            (#[trigger] accounts[k]).iban@,
        ) && accounts_fields(accounts)[2 * k + 1] == optional_field(accounts[k].bic) by {
            if k < accounts.len() - 1 {
                assert(init[k] == accounts[k]);
            }
        }
    }
}

/// The fields of a list of payments' core data, one payment after another.
#[verifier::spinoff_prover]
#[verifier::rlimit(40)]
pub(crate) proof fn lemma_payments_fields_shape(ps: Seq<Payment>)
    ensures
        payments_fields(ps).len() == payments_width(ps),
        forall|k: int|
            0 <= k < ps.len() ==> payments_fields(ps).subrange(
                payments_width(ps.take(k)),
                payments_width(ps.take(k + 1)),
            ) == payment_fields(#[trigger] ps[k]),
    decreases ps.len(),
{
    if ps.len() > 0 {
        let init = ps.drop_last();
        let last = ps.last();
        lemma_payments_fields_shape(init);
        lemma_payment_fields_len(last);
        let front = payments_fields(init);
        let back = payment_fields(last);
        let all = payments_fields(ps);
        assert(all == front + back);
        assert forall|k: int| 0 <= k < ps.len() implies all.subrange(
            payments_width(ps.take(k)),
            payments_width(ps.take(k + 1)),
        ) == payment_fields(#[trigger] ps[k]) by {
            if k < ps.len() - 1 {
                assert(ps.take(k) =~= init.take(k));
                assert(ps.take(k + 1) =~= init.take(k + 1));
                assert(init[k] == ps[k]);
                let a = payments_width(init.take(k));
                let b = payments_width(init.take(k + 1));
                lemma_width_step(init, k);
                lemma_width_prefix(init, k + 1);
                lemma_front_slice(front, back, a, b);
            } else {
                assert(ps.take(k) =~= init);
                assert(ps.take(k + 1) =~= ps);
                assert(all.subrange(front.len() as int, all.len() as int) =~= back);
            }
        }
    }
}

proof fn lemma_front_slice(front: Seq<Seq<char>>, back: Seq<Seq<char>>, a: int, b: int)
    requires
        0 <= a <= b <= front.len(),
    ensures
        (front + back).subrange(a, b) == front.subrange(a, b),
{
    assert((front + back).subrange(a, b) =~= front.subrange(a, b));
}

/// One more payment widens a prefix by that payment's width.
pub(crate) proof fn lemma_width_step(ps: Seq<Payment>, k: int)
    requires
        0 <= k < ps.len(),
    ensures
        payments_width(ps.take(k + 1)) == payments_width(ps.take(k)) + payment_width(ps[k]),
        0 <= payments_width(ps.take(k)),
        payment_width(ps[k]) > 0,
{
    assert(ps.take(k + 1).drop_last() =~= ps.take(k));
    assert(ps.take(k + 1).last() == ps[k]);
    lemma_width_nonneg(ps.take(k));
}

/// A prefix of payments is no wider than the whole.
pub(crate) proof fn lemma_width_prefix(ps: Seq<Payment>, k: int)
    requires
        0 <= k <= ps.len(),
    ensures
        0 <= payments_width(ps.take(k)) <= payments_width(ps),
    decreases ps.len() - k,
{
    if k < ps.len() {
        lemma_width_prefix(ps, k + 1);
        assert(ps.take(k + 1).drop_last() =~= ps.take(k));
    } else {
        assert(ps.take(k) =~= ps);
    }
    lemma_width_nonneg(ps.take(k));
}

pub(crate) proof fn lemma_width_nonneg(ps: Seq<Payment>)
    ensures
        payments_width(ps) >= 0,
    decreases ps.len(),
{
    if ps.len() > 0 {
        lemma_width_nonneg(ps.drop_last());
    }
}

/// A payment's core fields number as many as its width.
proof fn lemma_payment_fields_len(p: Payment)
    ensures
        payment_fields(p).len() == payment_width(p),
{
    lemma_accounts_fields_shape(p.bank_accounts.bank_account@);
}

/// The beneficiary fields of a list of payments: three per payment.
pub(crate) proof fn lemma_beneficiaries_fields_shape(ps: Seq<Payment>)
    ensures
        beneficiaries_fields(ps).len() == 3 * ps.len(),
        forall|k: int|
            0 <= k < ps.len() ==> beneficiaries_fields(ps).subrange(3 * k, 3 * k + 3) == beneficiary_fields(
                #[trigger] ps[k],
            ),
    decreases ps.len(),
{
    if ps.len() > 0 {
        let init = ps.drop_last();
        lemma_beneficiaries_fields_shape(init);
        let all = beneficiaries_fields(ps);
        assert forall|k: int| 0 <= k < ps.len() implies all.subrange(3 * k, 3 * k + 3) == beneficiary_fields(
            #[trigger] ps[k],
        ) by {
            if k < ps.len() - 1 {
                assert(init[k] == ps[k]);
                assert(all.subrange(3 * k, 3 * k + 3) =~= beneficiaries_fields(init).subrange(3 * k, 3 * k + 3));
            } else {
                assert(all.subrange(3 * k, 3 * k + 3) =~= beneficiary_fields(ps.last()));
            }
        }
    }
}

/// An optional amount as compared after transport.
pub open spec fn opt_amount(o: Option<Amount>) -> Option<Seq<char>> {
    match o {
        Some(a) => Some(a@),
        None => None,
    }
}

/// Whether an optional amount crosses transport unchanged: canonical,
/// non-negative and within the amount range, as every `Amount` built from
/// text is.
pub open spec fn amount_transportable(o: Option<Amount>) -> bool {
    match o {
        Some(a) => is_canonical_decimal(a@) && !text_negative(a@) && text_integer(a@).len() <= 1000,
        None => true,
    }
}

/// What a date field decodes to: the `YYYY-MM-DD` text of the date that the
/// `YYYYMMDD` text written for it writes.
pub open spec fn transported_date(o: Option<String>) -> Option<Seq<char>> {
    match o {
        Some(v) => Some(compact_iso(date_text_field(v@))),
        None => None,
    }
}

/// Whether the core data of a payment crosses transport unchanged.
pub open spec fn payment_transportable(p: Payment) -> bool {
    let accounts = p.bank_accounts.bank_account@;
    &&& amount_transportable(p.amount)
    &&& tab_free(p.currency_code@)
    &&& text_transportable(p.variable_symbol)
    &&& text_transportable(p.constant_symbol)
    &&& text_transportable(p.specific_symbol)
    &&& text_transportable(p.originators_reference_information)
    &&& text_transportable(p.payment_note)
    &&& accounts.len() <= u64::MAX
    &&& forall|k: int| 0 <= k < accounts.len() ==> tab_free((#[trigger] accounts[k]).iban@) && text_transportable(accounts[k].bic)
    &&& match p.direct_debit_ext {
        Some(d) => {
            &&& text_transportable(d.variable_symbol)
            &&& text_transportable(d.specific_symbol)
            &&& text_transportable(d.originators_reference_information)
            &&& text_transportable(d.mandate_id)
            &&& text_transportable(d.creditor_id)
            &&& text_transportable(d.contract_id)
            &&& amount_transportable(d.max_amount)
        },
        None => true,
    }
    &&& text_transportable(p.beneficiary_name)
    &&& text_transportable(p.beneficiary_address_line1)
    &&& text_transportable(p.beneficiary_address_line2)
}

/// Whether two standing orders agree on their transported fields.
pub open spec fn same_standing_order(x: Option<StandingOrderExt>, y: Option<StandingOrderExt>) -> bool {
    &&& (x is Some) == (y is Some)
    &&& (x is Some ==> {
        let a = x->0;
        let b = y->0;
        &&& a.day == b.day
        &&& (a.month is Some) == (b.month is Some)
        &&& (a.month is Some ==> a.month->0@ == b.month->0@)
        &&& a.periodicity == b.periodicity
    })
}

/// Whether two direct debits agree on their transported fields.
pub open spec fn same_direct_debit(x: Option<DirectDebitExt>, y: Option<DirectDebitExt>) -> bool {
    &&& (x is Some) == (y is Some)
    &&& (x is Some ==> {
        let a = x->0;
        let b = y->0;
        &&& a.direct_debit_scheme == b.direct_debit_scheme
        &&& a.direct_debit_type == b.direct_debit_type
        &&& opt_text(a.variable_symbol) == opt_text(b.variable_symbol)
        &&& opt_text(a.specific_symbol) == opt_text(b.specific_symbol)
        &&& opt_text(a.originators_reference_information) == opt_text(b.originators_reference_information)
        &&& opt_text(a.mandate_id) == opt_text(b.mandate_id)
        &&& opt_text(a.creditor_id) == opt_text(b.creditor_id)
        &&& opt_text(a.contract_id) == opt_text(b.contract_id)
        &&& opt_amount(a.max_amount) == opt_amount(b.max_amount)
    })
}

/// Whether a decoded payment's core data is what a payment's transport
/// gives: the same values, its dates as chrono reads back the written
/// dates.
pub open spec fn core_transported(decoded: Payment, p: Payment) -> bool {
    let ad = decoded.bank_accounts.bank_account@;
    let ap = p.bank_accounts.bank_account@;
    &&& decoded.payment_options@ == p.payment_options@
    &&& opt_amount(decoded.amount) == opt_amount(p.amount)
    &&& decoded.currency_code@ == p.currency_code@
    &&& opt_text(decoded.payment_due_date) == transported_date(p.payment_due_date)
    &&& opt_text(decoded.variable_symbol) == opt_text(p.variable_symbol)
    &&& opt_text(decoded.constant_symbol) == opt_text(p.constant_symbol)
    &&& opt_text(decoded.specific_symbol) == opt_text(p.specific_symbol)
    &&& opt_text(decoded.originators_reference_information) == opt_text(p.originators_reference_information)
    &&& opt_text(decoded.payment_note) == opt_text(p.payment_note)
    &&& ad.len() == ap.len()
    &&& forall|k: int| 0 <= k < ad.len() ==> (#[trigger] ad[k]).iban@ == ap[k].iban@ && opt_text(ad[k].bic) == opt_text(ap[k].bic)
    &&& same_standing_order(decoded.standing_order_ext, p.standing_order_ext)
    &&& (decoded.standing_order_ext is Some ==> opt_text(decoded.standing_order_ext->0.last_date)
        == transported_date(p.standing_order_ext->0.last_date))
    &&& same_direct_debit(decoded.direct_debit_ext, p.direct_debit_ext)
    &&& (decoded.direct_debit_ext is Some ==> opt_text(decoded.direct_debit_ext->0.valid_till_date)
        == transported_date(p.direct_debit_ext->0.valid_till_date))
}

proof fn lemma_amount_field(o: Option<Amount>)
    requires
        amount_transportable(o),
    ensures
        tab_free(amount_field(o)),
        (amount_field(o).len() > 0) == (o is Some),
        forall|v: Option<Amount>| amount_decoded(amount_field(o), v) ==> opt_amount(v) == opt_amount(o),
{
    match o {
        Some(a) => {
            lemma_canonical_chars(a@);
            lemma_amount_canonical_fixed(a@);
            assert forall|k: int| 0 <= k < a@.len() implies a@[k] != '\t' by {
                assert(crate::decimal::is_digit(a@[k]) || a@[k] == '.' || a@[k] == '-');
            }
        },
        None => {},
    }
}

proof fn lemma_padded_tab_free(n: nat, w: nat)
    ensures
        tab_free(padded_text(n, w)),
        padded_text(n, w).len() >= w,
        padded_text(n, w).len() > 0,
{
    lemma_padded_text(n, w);
    let t = padded_text(n, w);
    assert forall|k: int| 0 <= k < t.len() implies t[k] != '\t' by {
        assert(crate::decimal::is_digit(t[k]));
    }
    lemma_nat_text(n);
}

proof fn lemma_date_field(o: Option<String>)
    ensures
        tab_free(date_field(o)),
        (date_field(o).len() > 0) == (o is Some),
        forall|v: Option<String>| pay_date_decoded(date_field(o), v) ==> opt_text(v) == transported_date(o),
{
    match o {
        Some(x) => {
            let t = sanitized_text(x@);
            let ymd = chrono_parsed_date(t, date_format(t))->0;
            let y = ymd.0;
            lemma_padded_tab_free(ymd.1 as nat, 2);
            lemma_padded_tab_free(ymd.2 as nat, 2);
            let yt = year_text(y);
            if 0 <= y <= 9999 {
                lemma_padded_tab_free(y as nat, 4);
            } else if y < 0 {
                lemma_padded_tab_free((-y) as nat, 4);
                assert forall|k: int| 0 <= k < yt.len() implies yt[k] != '\t' by {
                    if k > 0 {
                        assert(yt[k] == padded_text((-y) as nat, 4)[k - 1]);
                    }
                }
            } else {
                lemma_padded_tab_free(y as nat, 4);
                assert forall|k: int| 0 <= k < yt.len() implies yt[k] != '\t' by {
                    if k > 0 {
                        assert(yt[k] == padded_text(y as nat, 4)[k - 1]);
                    }
                }
            }
            let c = compact_text(ymd.0, ymd.1, ymd.2);
            let m = padded_text(ymd.1 as nat, 2);
            let d = padded_text(ymd.2 as nat, 2);
            assert(c == yt + m + d);
            assert forall|k: int| 0 <= k < c.len() implies c[k] != '\t' by {
                if k < yt.len() {
                    assert(c[k] == yt[k]);
                } else if k < yt.len() + m.len() {
                    assert(c[k] == m[k - yt.len()]);
                } else {
                    assert(c[k] == d[k - yt.len() - m.len()]);
                }
            }
        },
        None => {},
    }
}

proof fn lemma_standing_order_part(o: Option<StandingOrderExt>)
    ensures
        forall|i: int| 0 <= i < standing_order_fields(o).len() ==> tab_free(#[trigger] standing_order_fields(o)[i]),
        standing_order_fields(o).len() == standing_order_width(o),
        standing_order_fields(o)[0] == (if o is Some { seq!['1'] } else { seq!['0'] }),
        forall|q: Option<StandingOrderExt>|
            standing_order_decoded(standing_order_fields(o), q) ==> same_standing_order(q, o) && (q is Some
                ==> opt_text(q->0.last_date) == transported_date(o->0.last_date)),
{
    let raw = standing_order_fields(o);
    match o {
        Some(s) => {
            match s.day {
                Some(d) => { lemma_nat_text(d as nat); },
                None => {},
            }
            match s.month {
                Some(m) => { lemma_nat_text(m@ as nat); },
                None => {},
            }
            lemma_periodicity_round_trip(s.periodicity);
            lemma_date_field(s.last_date);
            assert forall|i: int| 0 <= i < raw.len() implies tab_free(#[trigger] raw[i]) by {
                if i == 3 {
                    assert(raw[3] == seq![periodicity_char(s.periodicity)]);
                    assert(periodicity_of(periodicity_char(s.periodicity)) is Some);
                    assert(periodicity_char(s.periodicity) != '\t');
                }
                if i == 1 {
                    match s.day {
                        Some(d) => {
                            let t = nat_text(d as nat);
                            assert forall|k: int| 0 <= k < t.len() implies t[k] != '\t' by {
                                assert(crate::decimal::is_digit(t[k]));
                            }
                        },
                        None => {},
                    }
                }
                if i == 2 {
                    match s.month {
                        Some(m) => {
                            let t = nat_text(m@ as nat);
                            assert forall|k: int| 0 <= k < t.len() implies t[k] != '\t' by {
                                assert(crate::decimal::is_digit(t[k]));
                            }
                        },
                        None => {},
                    }
                }
            }
            assert forall|q: Option<StandingOrderExt>| standing_order_decoded(raw, q) implies same_standing_order(q, o) && (
            q is Some ==> opt_text(q->0.last_date) == transported_date(o->0.last_date)) by {
                match q {
                    Some(t) => {
                        match t.day {
                            Some(d2) => { assert(s.day is Some); },
                            None => { assert(s.day is None); },
                        }
                        match t.month {
                            Some(m2) => { assert(s.month is Some); },
                            None => { assert(s.month is None); },
                        }
                    },
                    None => {
                        assert(raw[0] == seq!['1']);
                        assert(seq!['1'] != seq!['0']) by {
                            assert(seq!['1'][0] != seq!['0'][0]);
                        }
                    },
                }
            }
        },
        None => {
            assert forall|q: Option<StandingOrderExt>| standing_order_decoded(raw, q) implies same_standing_order(q, o) by {
                if q is Some {
                    assert(seq!['1'][0] != seq!['0'][0]);
                }
            }
            assert forall|i: int| 0 <= i < raw.len() implies tab_free(#[trigger] raw[i]) by {}
        },
    }
}

proof fn lemma_direct_debit_part(o: Option<DirectDebitExt>)
    requires
        match o {
            Some(d) => {
                &&& text_transportable(d.variable_symbol)
                &&& text_transportable(d.specific_symbol)
                &&& text_transportable(d.originators_reference_information)
                &&& text_transportable(d.mandate_id)
                &&& text_transportable(d.creditor_id)
                &&& text_transportable(d.contract_id)
                &&& amount_transportable(d.max_amount)
            },
            None => true,
        },
    ensures
        forall|i: int| 0 <= i < direct_debit_fields(o).len() ==> tab_free(#[trigger] direct_debit_fields(o)[i]),
        direct_debit_fields(o).len() == direct_debit_width(o),
        direct_debit_fields(o)[0] == (if o is Some { seq!['1'] } else { seq!['0'] }),
        forall|q: Option<DirectDebitExt>|
            direct_debit_decoded(direct_debit_fields(o), q) ==> same_direct_debit(q, o) && (q is Some
                ==> opt_text(q->0.valid_till_date) == transported_date(o->0.valid_till_date)),
{
    let raw = direct_debit_fields(o);
    match o {
        Some(d) => {
            lemma_nat_text(super::models::scheme_classifier(d.direct_debit_scheme) as nat);
            lemma_nat_text(super::models::debit_type_classifier(d.direct_debit_type) as nat);
            lemma_optional_text_field(d.variable_symbol);
            lemma_optional_text_field(d.specific_symbol);
            lemma_optional_text_field(d.originators_reference_information);
            lemma_optional_text_field(d.mandate_id);
            lemma_optional_text_field(d.creditor_id);
            lemma_optional_text_field(d.contract_id);
            lemma_amount_field(d.max_amount);
            lemma_date_field(d.valid_till_date);
            assert forall|i: int| 0 <= i < raw.len() implies tab_free(#[trigger] raw[i]) by {
                if i == 1 || i == 2 {
                    let t = raw[i];
                    assert(is_numeral(t));
                    assert forall|k: int| 0 <= k < t.len() implies t[k] != '\t' by {
                        assert(crate::decimal::is_digit(t[k]));
                    }
                }
            }
            assert forall|q: Option<DirectDebitExt>| direct_debit_decoded(raw, q) implies same_direct_debit(q, o) && (
            q is Some ==> opt_text(q->0.valid_till_date) == transported_date(o->0.valid_till_date)) by {
                match q {
                    Some(e) => {
                        assert(super::models::scheme_classifier(e.direct_debit_scheme)
                            == super::models::scheme_classifier(d.direct_debit_scheme));
                        assert(super::models::debit_type_classifier(e.direct_debit_type)
                            == super::models::debit_type_classifier(d.direct_debit_type));
                    },
                    None => {
                        assert(seq!['1'][0] != seq!['0'][0]);
                    },
                }
            }
        },
        None => {
            assert forall|q: Option<DirectDebitExt>| direct_debit_decoded(raw, q) implies same_direct_debit(q, o) by {
                if q is Some {
                    assert(seq!['1'][0] != seq!['0'][0]);
                }
            }
            assert forall|i: int| 0 <= i < raw.len() implies tab_free(#[trigger] raw[i]) by {}
        },
    }
}

/// A transportable payment's core fields are tab-free, and every payment
/// decoded from them carries what the payment's transport gives.
#[verifier::rlimit(60)]
pub(crate) proof fn lemma_payment_part(p: Payment)
    requires
        payment_transportable(p),
    ensures
        payment_fields(p).len() == payment_width(p),
        forall|i: int| 0 <= i < payment_fields(p).len() ==> tab_free(#[trigger] payment_fields(p)[i]),
        payment_fields(p)[9] == nat_text(p.bank_accounts.bank_account@.len()),
        payment_fields(p)[10 + 2 * (p.bank_accounts.bank_account@.len() as int)] == (if p.standing_order_ext is Some {
            seq!['1']
        } else {
            seq!['0']
        }),
        payment_fields(p)[10 + 2 * (p.bank_accounts.bank_account@.len() as int) + standing_order_width(p.standing_order_ext)]
            == (if p.direct_debit_ext is Some { seq!['1'] } else { seq!['0'] }),
        forall|q: Payment| payment_core_decoded(payment_fields(p), q) ==> core_transported(q, p),
{
    let raw = payment_fields(p);
    let accounts = p.bank_accounts.bank_account@;
    let a = accounts.len() as int;
    let so_end = 10 + 2 * a + standing_order_width(p.standing_order_ext);
    lemma_accounts_fields_shape(accounts);
    lemma_nat_text(p.payment_options@ as nat);
    lemma_nat_text(a as nat);
    lemma_amount_field(p.amount);
    lemma_sanitized_identity(p.currency_code@);
    lemma_date_field(p.payment_due_date);
    lemma_optional_text_field(p.variable_symbol);
    lemma_optional_text_field(p.constant_symbol);
    lemma_optional_text_field(p.specific_symbol);
    lemma_optional_text_field(p.originators_reference_information);
    lemma_optional_text_field(p.payment_note);
    lemma_standing_order_part(p.standing_order_ext);
    lemma_direct_debit_part(p.direct_debit_ext);
    let head = seq![
        nat_text(p.payment_options@ as nat),
        amount_field(p.amount),
        sanitized_text(p.currency_code@),
        date_field(p.payment_due_date),
        optional_field(p.variable_symbol),
        optional_field(p.constant_symbol),
        optional_field(p.specific_symbol),
        optional_field(p.originators_reference_information),
        optional_field(p.payment_note),
        nat_text(accounts.len()),
    ];
    let af = accounts_fields(accounts);
    let sf = standing_order_fields(p.standing_order_ext);
    let df = direct_debit_fields(p.direct_debit_ext);
    assert(raw == head + af + sf + df);
    assert(raw.subrange(10 + 2 * a, so_end) =~= sf);
    assert(raw.subrange(so_end, raw.len() as int) =~= df);
    assert forall|k: int| 0 <= k < a implies tab_free(#[trigger] af[2 * k]) && tab_free(af[2 * k + 1]) && sanitized_text(
        accounts[k].iban@,
    ) == accounts[k].iban@ by {
        assert(af[2 * k] == sanitized_text(accounts[k].iban@));
        lemma_sanitized_identity(accounts[k].iban@);
        lemma_optional_text_field(accounts[k].bic);
    }
    assert forall|i: int| 0 <= i < raw.len() implies tab_free(#[trigger] raw[i]) by {
        if i < 10 {
            assert(raw[i] == head[i]);
            if i == 0 || i == 9 {
                let t = raw[i];
                assert forall|k: int| 0 <= k < t.len() implies t[k] != '\t' by {
                    assert(crate::decimal::is_digit(t[k]));
                }
            }
        } else if i < 10 + 2 * a {
            let k = (i - 10) / 2;
            assert(raw[i] == af[i - 10]);
            vstd::arithmetic::div_mod::lemma_fundamental_div_mod(i - 10, 2);
            assert(i - 10 == 2 * k || i - 10 == 2 * k + 1);
            assert(0 <= k < a);
            assert(af[2 * k] == sanitized_text((accounts[k]).iban@));
            assert(af[2 * k + 1] == optional_field(accounts[k].bic));
            lemma_sanitized_identity(accounts[k].iban@);
            lemma_optional_text_field(accounts[k].bic);
        } else if i < so_end {
            assert(raw[i] == sf[i - 10 - 2 * a]);
        } else {
            assert(raw[i] == df[i - so_end]);
        }
    }
    assert forall|q: Payment| payment_core_decoded(raw, q) implies core_transported(q, p) by {
        let aq = q.bank_accounts.bank_account@;
        assert(aq.len() == a);
        assert forall|k: int| 0 <= k < aq.len() implies (#[trigger] aq[k]).iban@ == accounts[k].iban@ && opt_text(
            aq[k].bic,
        ) == opt_text(accounts[k].bic) by {
            assert(raw[10 + 2 * k] == af[2 * k]);
            assert(raw[11 + 2 * k] == af[2 * k + 1]);
            lemma_sanitized_identity(accounts[k].iban@);
            lemma_optional_text_field(accounts[k].bic);
        }
        assert((q.standing_order_ext is Some) == (p.standing_order_ext is Some)) by {
            let qs = raw.subrange(10 + 2 * a, 10 + 2 * a + standing_order_width(q.standing_order_ext));
            assert(qs[0] == raw[10 + 2 * a]);
            assert(seq!['1'][0] != seq!['0'][0]);
        }
        assert(raw.subrange(10 + 2 * a, so_end) == sf);
        assert((q.direct_debit_ext is Some) == (p.direct_debit_ext is Some)) by {
            let qd = raw.subrange(so_end, raw.len() as int);
            assert(qd[0] == raw[so_end]);
            assert(seq!['1'][0] != seq!['0'][0]);
        }
    }
}

/// Whether a PAY document crosses transport unchanged, up to its dates:
/// optional texts absent or non-empty without tabs, required texts without
/// tabs, and amounts canonical within the amount range.
pub open spec fn pay_transportable(pay: Pay) -> bool {
    let ps = pay.payments.payment@;
    &&& text_transportable(pay.invoice_id)
    &&& 0 < ps.len() <= u64::MAX
    &&& forall|k: int| 0 <= k < ps.len() ==> payment_transportable(#[trigger] ps[k])
}

/// Whether a decoded PAY document carries what a document's transport
/// gives: the same values, and its dates as chrono reads back the written
/// dates.
pub open spec fn pay_transported(decoded: Pay, pay: Pay) -> bool {
    let pd = decoded.payments.payment@;
    let pp = pay.payments.payment@;
    &&& opt_text(decoded.invoice_id) == opt_text(pay.invoice_id)
    &&& pd.len() == pp.len()
    &&& forall|k: int|
        0 <= k < pd.len() ==> {
            &&& core_transported(#[trigger] pd[k], pp[k])
            &&& opt_text(pd[k].beneficiary_name) == opt_text(pp[k].beneficiary_name)
            &&& opt_text(pd[k].beneficiary_address_line1) == opt_text(pp[k].beneficiary_address_line1)
            &&& opt_text(pd[k].beneficiary_address_line2) == opt_text(pp[k].beneficiary_address_line2)
        }
}

/// The core fields of transportable payments are tab-free.
proof fn lemma_cores_tab_free(ps: Seq<Payment>)
    requires
        forall|k: int| 0 <= k < ps.len() ==> payment_transportable(#[trigger] ps[k]),
    ensures
        forall|i: int| 0 <= i < payments_fields(ps).len() ==> tab_free(#[trigger] payments_fields(ps)[i]),
    decreases ps.len(),
{
    if ps.len() > 0 {
        let init = ps.drop_last();
        assert forall|k: int| 0 <= k < init.len() implies payment_transportable(#[trigger] init[k]) by {
            assert(init[k] == ps[k]);
        }
        lemma_cores_tab_free(init);
        let last = ps.last();
        assert(payment_transportable(ps[ps.len() - 1]));
        let g = payment_fields(last);
        assert(forall|i: int| 0 <= i < g.len() ==> tab_free(#[trigger] g[i])) by {
            lemma_payment_part(last);
        }
        let f = payments_fields(init);
        assert(payments_fields(ps) == f + g);
        assert forall|i: int| 0 <= i < payments_fields(ps).len() implies tab_free(#[trigger] payments_fields(ps)[i]) by {
            if i >= f.len() {
                assert(payments_fields(ps)[i] == g[i - f.len()]);
            } else {
                assert(payments_fields(ps)[i] == f[i]);
            }
        }
    }
}

/// The beneficiary fields of transportable payments are tab-free.
proof fn lemma_beneficiaries_tab_free(ps: Seq<Payment>)
    requires
        forall|k: int| 0 <= k < ps.len() ==> payment_transportable(#[trigger] ps[k]),
    ensures
        forall|i: int| 0 <= i < beneficiaries_fields(ps).len() ==> tab_free(#[trigger] beneficiaries_fields(ps)[i]),
    decreases ps.len(),
{
    if ps.len() > 0 {
        let init = ps.drop_last();
        assert forall|k: int| 0 <= k < init.len() implies payment_transportable(#[trigger] init[k]) by {
            assert(init[k] == ps[k]);
        }
        lemma_beneficiaries_tab_free(init);
        let last = ps.last();
        assert(payment_transportable(ps[ps.len() - 1]));
        lemma_optional_text_field(last.beneficiary_name);
        lemma_optional_text_field(last.beneficiary_address_line1);
        lemma_optional_text_field(last.beneficiary_address_line2);
        let g = beneficiaries_fields(init);
        assert(beneficiaries_fields(ps) == g + beneficiary_fields(last));
        assert forall|i: int| 0 <= i < beneficiaries_fields(ps).len() implies tab_free(#[trigger] beneficiaries_fields(ps)[i]) by {
            if i >= g.len() {
                assert(beneficiaries_fields(ps)[i] == beneficiary_fields(last)[i - g.len()]);
            } else {
                assert(beneficiaries_fields(ps)[i] == g[i]);
            }
        }
    }
}

pub(crate) proof fn lemma_payments_tab_free(ps: Seq<Payment>)
    requires
        forall|k: int| 0 <= k < ps.len() ==> payment_transportable(#[trigger] ps[k]),
    ensures
        forall|i: int| 0 <= i < payments_fields(ps).len() ==> tab_free(#[trigger] payments_fields(ps)[i]),
        forall|i: int| 0 <= i < beneficiaries_fields(ps).len() ==> tab_free(#[trigger] beneficiaries_fields(ps)[i]),
{
    lemma_cores_tab_free(ps);
    lemma_beneficiaries_tab_free(ps);
}

/// Whether a date is written `YYYY-MM-DD` as chrono writes the date that it
/// reads from that text, with a year of four digits.
pub open spec fn iso_written(o: Option<String>) -> bool {
    match o {
        Some(v) => {
            let ymd = chrono_parsed_date(v@, "%Y-%m-%d"@)->0;
            &&& chrono_parsed_date(v@, "%Y-%m-%d"@) is Some
            &&& 0 <= ymd.0 <= 9999
            &&& v@ == iso_text(ymd.0, ymd.1, ymd.2)
        },
        None => true,
    }
}

/// Whether a payment's dates are written `YYYY-MM-DD` with four-digit years
/// and its classifiers lie in their ranges.
pub open spec fn payment_canonical(p: Payment) -> bool {
    &&& 1 <= p.payment_options@ <= 7
    &&& iso_written(p.payment_due_date)
    &&& (p.standing_order_ext is Some ==> iso_written(p.standing_order_ext->0.last_date))
    &&& (p.standing_order_ext is Some && p.standing_order_ext->0.month is Some ==> 1
        <= p.standing_order_ext->0.month->0@ <= 4095)
    &&& (p.direct_debit_ext is Some ==> iso_written(p.direct_debit_ext->0.valid_till_date))
}

/// A valid date written `YYYY-MM-DD` is transported as what decodes back to
/// it.
pub(crate) proof fn lemma_date_self(o: Option<String>)
    requires
        iso_written(o),
        optional_date_ok(o),
    ensures
        pay_date_decoded(date_field(o), o),
        transported_date(o) == opt_text(o),
{
    match o {
        Some(v) => {
            let ymd = chrono_parsed_date(v@, "%Y-%m-%d"@)->0;
            lemma_iso_text(ymd.0, ymd.1, ymd.2);
            lemma_sanitized_identity(v@);
            assert(date_format(v@) == "%Y-%m-%d"@);
            assert(valid_ymd(ymd.0, ymd.1, ymd.2));
            lemma_compact_text(ymd.0, ymd.1, ymd.2);
            assert(date_field(o) == compact_text(ymd.0, ymd.1, ymd.2));
        },
        None => {},
    }
}

/// A standing order with a valid schedule is transported as what decodes
/// back to it.
proof fn lemma_standing_order_self(o: Option<StandingOrderExt>)
    requires
        o is Some ==> standing_order_error(o->0) is None && iso_written(o->0.last_date),
        o is Some && o->0.month is Some ==> 1 <= o->0.month->0@ <= 4095,
    ensures
        standing_order_decoded(standing_order_fields(o), o),
{
    match o {
        Some(s) => {
            match s.day {
                Some(d) => { lemma_nat_text(d as nat); },
                None => {},
            }
            match s.month {
                Some(m) => { lemma_nat_text(m@ as nat); },
                None => {},
            }
            lemma_periodicity_round_trip(s.periodicity);
            lemma_date_self(s.last_date);
        },
        None => {},
    }
}

/// A direct debit with valid terms is transported as what decodes back to
/// it.
proof fn lemma_direct_debit_self(o: Option<DirectDebitExt>)
    requires
        match o {
            Some(d) => {
                &&& text_transportable(d.variable_symbol)
                &&& text_transportable(d.specific_symbol)
                &&& text_transportable(d.originators_reference_information)
                &&& text_transportable(d.mandate_id)
                &&& text_transportable(d.creditor_id)
                &&& text_transportable(d.contract_id)
                &&& amount_transportable(d.max_amount)
                &&& direct_debit_error(d) is None
                &&& iso_written(d.valid_till_date)
            },
            None => true,
        },
    ensures
        direct_debit_decoded(direct_debit_fields(o), o),
{
    match o {
        Some(d) => {
            lemma_nat_text(super::models::scheme_classifier(d.direct_debit_scheme) as nat);
            lemma_nat_text(super::models::debit_type_classifier(d.direct_debit_type) as nat);
            lemma_optional_self(d.variable_symbol);
            lemma_optional_self(d.specific_symbol);
            lemma_optional_self(d.originators_reference_information);
            lemma_optional_self(d.mandate_id);
            lemma_optional_self(d.creditor_id);
            lemma_optional_self(d.contract_id);
            lemma_amount_self(d.max_amount);
            lemma_date_self(d.valid_till_date);
        },
        None => {},
    }
}

/// Transportable optional text is transported as what decodes back to it.
pub(crate) proof fn lemma_optional_self(o: Option<String>)
    requires
        text_transportable(o),
    ensures
        optional_decoded(optional_field(o), o),
{
    match o {
        Some(v) => { lemma_sanitized_identity(v@); },
        None => {},
    }
}

/// A transportable amount is transported as what decodes back to it.
proof fn lemma_amount_self(o: Option<Amount>)
    requires
        amount_transportable(o),
    ensures
        amount_decoded(amount_field(o), o),
{
    lemma_amount_field(o);
    match o {
        Some(a) => { lemma_amount_canonical_fixed(a@); },
        None => {},
    }
}

/// The core fields of a transportable, valid payment with canonical dates
/// decode back to it, and so do its beneficiary fields.
#[verifier::rlimit(40)]
pub(crate) proof fn lemma_core_self(p: Payment)
    requires
        payment_transportable(p),
        payment_error(p) is None,
        payment_canonical(p),
    ensures
        payment_core_decoded(payment_fields(p), p),
        beneficiary_decoded(beneficiary_fields(p), p),
{
    let raw = payment_fields(p);
    let accounts = p.bank_accounts.bank_account@;
    let a = accounts.len() as int;
    let so_end = 10 + 2 * a + standing_order_width(p.standing_order_ext);
    lemma_payment_part(p);
    lemma_accounts_fields_shape(accounts);
    lemma_nat_text(p.payment_options@ as nat);
    lemma_nat_text(a as nat);
    lemma_amount_self(p.amount);
    lemma_sanitized_identity(p.currency_code@);
    lemma_date_self(p.payment_due_date);
    lemma_optional_self(p.variable_symbol);
    lemma_optional_self(p.constant_symbol);
    lemma_optional_self(p.specific_symbol);
    lemma_optional_self(p.originators_reference_information);
    lemma_optional_self(p.payment_note);
    lemma_optional_self(p.beneficiary_name);
    lemma_optional_self(p.beneficiary_address_line1);
    lemma_optional_self(p.beneficiary_address_line2);
    lemma_standing_order_self(p.standing_order_ext);
    lemma_direct_debit_self(p.direct_debit_ext);
    let head = seq![
        nat_text(p.payment_options@ as nat),
        amount_field(p.amount),
        sanitized_text(p.currency_code@),
        date_field(p.payment_due_date),
        optional_field(p.variable_symbol),
        optional_field(p.constant_symbol),
        optional_field(p.specific_symbol),
        optional_field(p.originators_reference_information),
        optional_field(p.payment_note),
        nat_text(accounts.len()),
    ];
    let af = accounts_fields(accounts);
    let sf = standing_order_fields(p.standing_order_ext);
    let df = direct_debit_fields(p.direct_debit_ext);
    assert(raw == head + af + sf + df);
    assert(raw.subrange(10 + 2 * a, so_end) =~= sf);
    assert(raw.subrange(so_end, raw.len() as int) =~= df);
    assert forall|i: int| 0 <= i < 10 implies #[trigger] raw[i] == head[i] by {}
    assert forall|k: int| 0 <= k < a implies (#[trigger] accounts[k]).iban@ == raw[10 + 2 * k] && optional_decoded(
        raw[11 + 2 * k],
        accounts[k].bic,
    ) by {
        assert(raw[10 + 2 * k] == af[2 * k]);
        assert(raw[11 + 2 * k] == af[2 * k + 1]);
        assert(tab_free(accounts[k].iban@) && text_transportable(accounts[k].bic));
        lemma_sanitized_identity(accounts[k].iban@);
        lemma_optional_self(accounts[k].bic);
    }
}

/// A payment decoded from where a transportable payment's fields lie is as
/// wide as that payment.
pub(crate) proof fn lemma_core_width(raw: Seq<Seq<char>>, start: int, p: Payment, q: Payment)
    requires
        payment_transportable(p),
        0 <= start,
        start + payment_width(p) <= raw.len(),
        start + payment_width(q) <= raw.len(),
        raw.subrange(start, start + payment_width(p)) == payment_fields(p),
        payment_core_decoded(raw.subrange(start, start + payment_width(q)), q),
    ensures
        payment_width(q) == payment_width(p),
{
    lemma_payment_part(p);
    let w1 = raw.subrange(start, start + payment_width(p));
    let w2 = raw.subrange(start, start + payment_width(q));
    let a = p.bank_accounts.bank_account@.len() as int;
    let aq = q.bank_accounts.bank_account@.len() as int;
    assert(w2[9] == raw[start + 9]);
    assert(w1[9] == raw[start + 9]);
    lemma_nat_text(a as nat);
    assert(aq == a);
    let so = 10 + 2 * a;
    assert(w2.subrange(so, so + standing_order_width(q.standing_order_ext))[0] == w2[so]);
    assert(w2[so] == raw[start + so]);
    assert(w1[so] == raw[start + so]);
    assert(seq!['1'][0] != seq!['0'][0]);
    assert((q.standing_order_ext is Some) == (p.standing_order_ext is Some));
    let dd = so + standing_order_width(p.standing_order_ext);
    assert(w2.subrange(dd, w2.len() as int)[0] == w2[dd]);
    assert(w2[dd] == raw[start + dd]);
    assert(w1[dd] == raw[start + dd]);
    assert((q.direct_debit_ext is Some) == (p.direct_debit_ext is Some));
}

} // verus!
