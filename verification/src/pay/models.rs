//! The PAY by square data model: payment options, standing-order and
//! direct-debit classifiers, months, exact amounts and the document itself.

use vstd::prelude::*;
use crate::decimal::{
    amount_canonical, lemma_amount_canonical_shape, lemma_amount_canonical_value, normalize_amount,
    same_value, text_integer, text_numerator, text_scale, written_amount, NumberFault,
};
use crate::error::{text, Error, Result};
use crate::fields::{split_words, texts, words};
use crate::text::{chars_of, same_text, string_from_chars};

verus! {

/// Text fragments joined with single spaces.
pub open spec fn spaced(parts: Seq<Seq<char>>) -> Seq<char>
    decreases parts.len(),
{
    if parts.len() == 0 {
        seq![]
    } else if parts.len() == 1 {
        parts[0]
    } else {
        parts[0] + seq![' '] + spaced(parts.drop_first())
    }
}

/// Appending a fragment to spaced fragments.
pub proof fn lemma_spaced_push(parts: Seq<Seq<char>>, f: Seq<char>)
    requires
        parts.len() >= 1,
    ensures
        spaced(parts.push(f)) == spaced(parts) + seq![' '] + f,
    decreases parts.len(),
{
    assert(parts.push(f)[0] == parts[0]);
    if parts.len() == 1 {
        assert(parts.push(f).drop_first() =~= seq![f]);
        assert(spaced(seq![f]) == f);
        assert(spaced(parts.push(f)) =~= spaced(parts) + seq![' '] + f);
    } else {
        lemma_spaced_push(parts.drop_first(), f);
        assert(parts.push(f).drop_first() =~= parts.drop_first().push(f));
        assert(spaced(parts.push(f)) =~= spaced(parts) + seq![' '] + f);
    }
}

/// Appends `name` to `out`, after a space unless it is the first name.
fn append_name(out: &mut Vec<char>, name: &str, first: bool, parts: Ghost<Seq<Seq<char>>>)
    requires
        old(out)@ == spaced(parts@),
        first == (parts@.len() == 0),
    ensures
        final(out)@ == spaced(parts@.push(name@)),
{
    if !first {
        out.push(' ');
        proof {
            lemma_spaced_push(parts@, name@);
        }
    } else {
        proof {
            assert(parts@.push(name@) =~= seq![name@]);
        }
    }
    let ghost before = out@;
    let chars = chars_of(name);
    let mut i: usize = 0;
    while i < chars.len()
        invariant
            i <= chars@.len(),
            out@ == before + chars@.take(i as int),
        decreases chars.len() - i,
    {
        out.push(chars[i]);
        assert(chars@.take(i + 1) =~= chars@.take(i as int).push(chars@[i as int]));
        i = i + 1;
    }
    assert(chars@.take(chars@.len() as int) =~= chars@);
    proof {
        if first {
            assert(before =~= Seq::<char>::empty());
            assert(out@ =~= name@);
        } else {
            assert(out@ =~= spaced(parts@) + seq![' '] + name@);
        }
    }
}

// ---------------------------------------------------------------------------
// Payment options
// ---------------------------------------------------------------------------

/// One kind of payment a PAY document can request.
#[derive(Clone, Copy, Debug, PartialEq, Eq, Structural)]
pub enum PaymentOption {
    PaymentOrder,
    StandingOrder,
    DirectDebit,
}

/// The bit of a payment option in the options classifier.
pub open spec fn option_bit(o: PaymentOption) -> u8 {
    match o {
        PaymentOption::PaymentOrder => 1,
        PaymentOption::StandingOrder => 2,
        PaymentOption::DirectDebit => 4,
    }
}

/// The schema name of a payment option.
pub open spec fn option_name(o: PaymentOption) -> Seq<char> {
    match o {
        PaymentOption::PaymentOrder => "paymentorder"@,
        PaymentOption::StandingOrder => "standingorder"@,
        PaymentOption::DirectDebit => "directdebit"@,
    }
}

/// The payment option named `w`.
pub open spec fn option_named(w: Seq<char>) -> Option<PaymentOption> {
    if w == "paymentorder"@ {
        Some(PaymentOption::PaymentOrder)
    } else if w == "standingorder"@ {
        Some(PaymentOption::StandingOrder)
    } else if w == "directdebit"@ {
        Some(PaymentOption::DirectDebit)
    } else {
        None
    }
}

impl PaymentOption {
    /// The bit of the option in the options classifier.
    pub fn classifier(self) -> (r: u8)
        ensures
            r == option_bit(self),
    {
        match self {
            PaymentOption::PaymentOrder => 1,
            PaymentOption::StandingOrder => 2,
            PaymentOption::DirectDebit => 4,
        }
    }

    /// The schema name of the option.
    pub fn name(self) -> (r: &'static str)
        ensures
            r@ == option_name(self),
    {
        match self {
            PaymentOption::PaymentOrder => "paymentorder",
            PaymentOption::StandingOrder => "standingorder",
            PaymentOption::DirectDebit => "directdebit",
        }
    }
}

/// The classifier bits of a list of options, or-ed together.
pub open spec fn options_mask(options: Seq<PaymentOption>) -> u8
    decreases options.len(),
{
    if options.len() == 0 {
        0
    } else {
        options_mask(options.drop_last()) | option_bit(options.last())
    }
}

/// Whether some word occurs twice.
pub open spec fn repeated_word(ws: Seq<Seq<char>>) -> bool {
    exists|i: int, j: int| 0 <= i < j < ws.len() && ws[i] == ws[j]
}

/// The classifier bits of the options named by words, or-ed together.
pub open spec fn named_options_mask(ws: Seq<Seq<char>>) -> u8
    decreases ws.len(),
{
    if ws.len() == 0 {
        0
    } else {
        named_options_mask(ws.drop_last()) | option_bit(option_named(ws.last())->0)
    }
}

/// The options classifier that white-space separated option names denote:
/// at least one name, each known and none repeated.
pub open spec fn options_from_names(ws: Seq<Seq<char>>) -> Option<u8> {
    if ws.len() > 0 && (forall|i: int| 0 <= i < ws.len() ==> (#[trigger] option_named(ws[i])) is Some)
        && !repeated_word(ws) {
        Some(named_options_mask(ws))
    } else {
        None
    }
}

/// The options in classifier order whose bit is set in `c`.
pub open spec fn present_options(c: u8) -> Seq<Seq<char>> {
    let a = if c & 1 != 0 { seq!["paymentorder"@] } else { seq![] };
    let b = if c & 2 != 0 { seq!["standingorder"@] } else { seq![] };
    let d = if c & 4 != 0 { seq!["directdebit"@] } else { seq![] };
    a + b + d
}

fn option_slot(o: PaymentOption) -> (r: usize)
    ensures
        r < 3,
        r == option_slot_of(o),
{
    match o {
        PaymentOption::PaymentOrder => 0,
        PaymentOption::StandingOrder => 1,
        PaymentOption::DirectDebit => 2,
    }
}

/// A non-empty set of payment options as its classifier, from 1 to 7.
#[derive(Clone, Copy, Debug, PartialEq, Eq)]
pub struct PaymentOptions(u8);

impl View for PaymentOptions {
    type V = u8;

    closed spec fn view(&self) -> u8 {
        self.0
    }
}

impl PaymentOptions {
    #[verifier::type_invariant]
    spec fn in_range(self) -> bool {
        1 <= self.0 <= 7
    }

    /// The set of `options`; at least one is needed, repetitions are merged.
    pub fn new(options: &[PaymentOption]) -> (r: Result<Self>)
        ensures
            r matches Ok(o) ==> o@ == options_mask(options@),
            r is Ok <==> options@.len() > 0,
            r matches Err(e) ==> (e matches Error::InvalidInput { field, .. } && field == "PaymentOptions"),
    {
        let mut classifier: u8 = 0;
        let mut i: usize = 0;
        while i < options.len()
            invariant
                i <= options@.len(),
                classifier == options_mask(options@.take(i as int)),
                classifier <= 7,
                i > 0 ==> classifier >= 1,
            decreases options.len() - i,
        {
            assert(options@.take(i + 1).drop_last() =~= options@.take(i as int));
            let bit = options[i].classifier();
            let old = classifier;
            assert((old | bit) <= 7 && (old | bit) >= bit) by (bit_vector)
                requires
                    old <= 7,
                    bit <= 4,
            ;
            classifier = classifier | bit;
            i = i + 1;
        }
        assert(options@.take(options@.len() as int) =~= options@);
        if classifier == 0 {
            return Err(Error::invalid("PaymentOptions", "must contain at least one option"));
        }
        Ok(PaymentOptions(classifier))
    }

    /// The classifier of the set.
    pub fn classifier(self) -> (r: u8)
        ensures
            r == self@,
            1 <= r <= 7,
    {
        proof {
            use_type_invariant(&self);
        }
        self.0
    }

    /// Whether the set holds `option`.
    pub fn contains(self, option: PaymentOption) -> (r: bool)
        ensures
            r == (self@ & option_bit(option) != 0),
    {
        self.0 & option.classifier() != 0
    }

    /// The set with classifier `classifier`, from 1 to 7.
    pub fn from_classifier(classifier: u8) -> (r: Result<Self>)
        ensures
            r matches Ok(o) ==> o@ == classifier,
            r is Ok <==> 1 <= classifier <= 7,
            r matches Err(e) ==> (e matches Error::InvalidInput { field, .. } && field == "PaymentOptions"),
    {
        if 1 <= classifier && classifier <= 7 {
            Ok(PaymentOptions(classifier))
        } else {
            Err(Error::invalid("PaymentOptions", "unknown classifier"))
        }
    }

    /// The set named by white-space separated option names, each at most
    /// once.
    pub fn from_names(value: &str) -> (r: Result<Self>)
        ensures
            r matches Ok(o) ==> options_from_names(words(value@)) == Some(o@),
            r is Err <==> options_from_names(words(value@)) is None,
            r matches Err(e) ==> (e matches Error::InvalidInput { field, .. } && field == "PaymentOptions"),
    {
        let names = split_words(value);
        let ghost ws = words(value@);
        let mut seen: Vec<bool> = vec![false, false, false];
        let mut classifier: u8 = 0;
        let mut i: usize = 0;
        while i < names.len()
            invariant
                i <= names@.len(),
                texts(names@) == ws,
                ws == words(value@),
                seen@.len() == 3,
                forall|k: int| 0 <= k < i ==> (#[trigger] option_named(ws[k])) is Some,
                !repeated_word(ws.take(i as int)),
                classifier == named_options_mask(ws.take(i as int)),
                classifier <= 7,
                i > 0 ==> classifier >= 1,
                forall|s: int|
                    0 <= s < 3 ==> (#[trigger] seen@[s] <==> exists|j: int|
                        0 <= j < i && option_slot_of(option_named(ws[j])->0) == s),
            decreases names.len() - i,
        {
            let name = names[i].as_str();
            assert(name@ == ws[i as int]);
            let option = if same_text(name, "paymentorder") {
                PaymentOption::PaymentOrder
            } else if same_text(name, "standingorder") {
                PaymentOption::StandingOrder
            } else if same_text(name, "directdebit") {
                PaymentOption::DirectDebit
            } else {
                assert(option_named(ws[i as int]) is None);
                assert(!(forall|k: int| 0 <= k < ws.len() ==> (#[trigger] option_named(ws[k])) is Some));
                assert(options_from_names(ws) is None);
                return Err(Error::invalid("PaymentOptions", "unknown option"));
            };
            assert(option_named(ws[i as int]) == Some(option));
            let slot = option_slot(option);
            if seen[slot] {
                proof {
                    let j = choose|j: int| 0 <= j < i && option_slot_of(option_named(ws[j])->0) == slot;
                    assert(option_named(ws[j])->0 == option);
                    assert(ws[j] == option_name(option));
                    assert(ws[i as int] == option_name(option));
                    assert(0 <= j < i && ws[j] == ws[i as int]);
                    assert(repeated_word(ws));
                    assert(options_from_names(ws) is None);
                }
                return Err(Error::invalid("PaymentOptions", "contains a duplicate option"));
            }
            let bit = option.classifier();
            assert(ws.take(i + 1).drop_last() =~= ws.take(i as int));
            let old = classifier;
            assert((old | bit) <= 7 && (old | bit) >= bit) by (bit_vector)
                requires
                    old <= 7,
                    bit <= 4,
            ;
            classifier = classifier | bit;
            let ghost seen_before = seen@;
            seen.set(slot, true);
            proof {
                let t = ws.take(i + 1);
                if repeated_word(t) {
                    let (a, b) = choose|a: int, b: int| 0 <= a < b < t.len() && t[a] == t[b];
                    if b == i {
                        assert(t[a] == ws[a]);
                        assert(option_slot_of(option_named(ws[a])->0) == slot);
                        assert(seen_before[slot as int]);
                    } else {
                        assert(ws.take(i as int)[a] == t[a]);
                        assert(ws.take(i as int)[b] == t[b]);
                        assert(repeated_word(ws.take(i as int)));
                    }
                }
                assert forall|q: int| 0 <= q < 3 implies (#[trigger] seen@[q] <==> exists|j: int|
                    0 <= j < i + 1 && option_slot_of(option_named(ws[j])->0) == q) by {
                    if q == slot {
                        assert(option_slot_of(option_named(ws[i as int])->0) == q);
                    }
                }
            }
            i = i + 1;
        }
        assert(ws.take(ws.len() as int) =~= ws);
        if classifier == 0 {
            return Err(Error::invalid("PaymentOptions", "must contain at least one option"));
        }
        Ok(PaymentOptions(classifier))
    }

    /// The option names of the set in classifier order, separated by spaces.
    pub fn names(self) -> (r: String)
        ensures
            r@ == spaced(present_options(self@)),
    {
        let mut out: Vec<char> = Vec::new();
        let ghost mut parts: Seq<Seq<char>> = seq![];
        let mut first = true;
        if self.contains(PaymentOption::PaymentOrder) {
            append_name(&mut out, "paymentorder", first, Ghost(parts));
            proof {
                parts = parts.push("paymentorder"@);
            }
            first = false;
        }
        if self.contains(PaymentOption::StandingOrder) {
            append_name(&mut out, "standingorder", first, Ghost(parts));
            proof {
                parts = parts.push("standingorder"@);
            }
            first = false;
        }
        if self.contains(PaymentOption::DirectDebit) {
            append_name(&mut out, "directdebit", first, Ghost(parts));
            proof {
                parts = parts.push("directdebit"@);
            }
        }
        assert(parts =~= present_options(self@));
        string_from_chars(out.as_slice())
    }
}

/// The slot of a payment option among the three.
pub open spec fn option_slot_of(o: PaymentOption) -> int {
    match o {
        PaymentOption::PaymentOrder => 0,
        PaymentOption::StandingOrder => 1,
        PaymentOption::DirectDebit => 2,
    }
}

impl core::str::FromStr for PaymentOptions {
    type Err = Error;

    fn from_str(value: &str) -> (r: Result<Self>)
        ensures
            r matches Ok(o) ==> options_from_names(words(value@)) == Some(o@),
            r is Err <==> options_from_names(words(value@)) is None,
            r matches Err(e) ==> (e matches Error::InvalidInput { field, .. } && field == "PaymentOptions"),
    {
        PaymentOptions::from_names(value)
    }
}

// ---------------------------------------------------------------------------
// Standing orders
// ---------------------------------------------------------------------------

/// How often a standing order repeats.
#[derive(Clone, Copy, Debug, PartialEq, Eq, Structural)]
pub enum Periodicity {
    Daily,
    Weekly,
    Biweekly,
    Monthly,
    Bimonthly,
    Quarterly,
    Annually,
    Semiannually,
}

/// The one-character classifier of a periodicity.
pub open spec fn periodicity_char(p: Periodicity) -> char {
    match p {
        Periodicity::Daily => 'd',
        Periodicity::Weekly => 'w',
        Periodicity::Biweekly => 'b',
        Periodicity::Monthly => 'm',
        Periodicity::Bimonthly => 'B',
        Periodicity::Quarterly => 'q',
        Periodicity::Annually => 'a',
        Periodicity::Semiannually => 's',
    }
}

/// The periodicity with classifier `c`.
pub open spec fn periodicity_of(c: char) -> Option<Periodicity> {
    if c == 'd' {
        Some(Periodicity::Daily)
    } else if c == 'w' {
        Some(Periodicity::Weekly)
    } else if c == 'b' {
        Some(Periodicity::Biweekly)
    } else if c == 'm' {
        Some(Periodicity::Monthly)
    } else if c == 'B' {
        Some(Periodicity::Bimonthly)
    } else if c == 'q' {
        Some(Periodicity::Quarterly)
    } else if c == 'a' {
        Some(Periodicity::Annually)
    } else if c == 's' {
        Some(Periodicity::Semiannually)
    } else {
        None
    }
}

/// The schema name of a periodicity.
pub open spec fn periodicity_name(p: Periodicity) -> Seq<char> {
    match p {
        Periodicity::Daily => "Daily"@,
        Periodicity::Weekly => "Weekly"@,
        Periodicity::Biweekly => "Biweekly"@,
        Periodicity::Monthly => "Monthly"@,
        Periodicity::Bimonthly => "Bimonthly"@,
        Periodicity::Quarterly => "Quarterly"@,
        Periodicity::Annually => "Annually"@,
        Periodicity::Semiannually => "Semiannually"@,
    }
}

/// The periodicity with schema name `w`.
pub open spec fn periodicity_named(w: Seq<char>) -> Option<Periodicity> {
    if w == "Daily"@ {
        Some(Periodicity::Daily)
    } else if w == "Weekly"@ {
        Some(Periodicity::Weekly)
    } else if w == "Biweekly"@ {
        Some(Periodicity::Biweekly)
    } else if w == "Monthly"@ {
        Some(Periodicity::Monthly)
    } else if w == "Bimonthly"@ {
        Some(Periodicity::Bimonthly)
    } else if w == "Quarterly"@ {
        Some(Periodicity::Quarterly)
    } else if w == "Annually"@ {
        Some(Periodicity::Annually)
    } else if w == "Semiannually"@ {
        Some(Periodicity::Semiannually)
    } else {
        None
    }
}

/// Whether a standing order of periodicity `p` may name months.
pub open spec fn periodicity_allows_months(p: Periodicity) -> bool {
    p == Periodicity::Weekly || p == Periodicity::Biweekly || p == Periodicity::Monthly || p
        == Periodicity::Bimonthly
}

impl Periodicity {
    /// The one-character classifier of the periodicity.
    pub fn classifier(self) -> (r: char)
        ensures
            r == periodicity_char(self),
    {
        match self {
            Periodicity::Daily => 'd',
            Periodicity::Weekly => 'w',
            Periodicity::Biweekly => 'b',
            Periodicity::Monthly => 'm',
            Periodicity::Bimonthly => 'B',
            Periodicity::Quarterly => 'q',
            Periodicity::Annually => 'a',
            Periodicity::Semiannually => 's',
        }
    }

    /// Whether a standing order of this periodicity may name months.
    pub fn allows_months(self) -> (r: bool)
        ensures
            r == periodicity_allows_months(self),
    {
        match self {
            Periodicity::Weekly | Periodicity::Biweekly | Periodicity::Monthly
            | Periodicity::Bimonthly => true,
            _ => false,
        }
    }

    /// The periodicity with classifier `classifier`.
    pub fn from_classifier(classifier: char) -> (r: Result<Self>)
        ensures
            r matches Ok(p) ==> periodicity_of(classifier) == Some(p),
            r is Err <==> periodicity_of(classifier) is None,
            r matches Err(e) ==> (e matches Error::InvalidInput { field, .. } && field == "Periodicity"),
    {
        match classifier {
            'd' => Ok(Periodicity::Daily),
            'w' => Ok(Periodicity::Weekly),
            'b' => Ok(Periodicity::Biweekly),
            'm' => Ok(Periodicity::Monthly),
            'B' => Ok(Periodicity::Bimonthly),
            'q' => Ok(Periodicity::Quarterly),
            'a' => Ok(Periodicity::Annually),
            's' => Ok(Periodicity::Semiannually),
            _ => Err(Error::invalid("Periodicity", "unknown classifier")),
        }
    }

    /// The schema name of the periodicity.
    pub fn name(self) -> (r: &'static str)
        ensures
            r@ == periodicity_name(self),
            periodicity_named(r@) == Some(self),
            r@.len() > 0 && ascii_lower(r@[0]) == ascii_lower(periodicity_char(self)),
    {
        proof {
            lemma_periodicity_names(self);
        }
        match self {
            Periodicity::Daily => "Daily",
            Periodicity::Weekly => "Weekly",
            Periodicity::Biweekly => "Biweekly",
            Periodicity::Monthly => "Monthly",
            Periodicity::Bimonthly => "Bimonthly",
            Periodicity::Quarterly => "Quarterly",
            Periodicity::Annually => "Annually",
            Periodicity::Semiannually => "Semiannually",
        }
    }

    /// The periodicity with schema name `value`.
    pub fn from_name(value: &str) -> (r: Result<Self>)
        ensures
            r matches Ok(p) ==> periodicity_named(value@) == Some(p),
            r is Err <==> periodicity_named(value@) is None,
            r matches Err(e) ==> (e matches Error::InvalidInput { field, .. } && field == "Periodicity"),
    {
        if same_text(value, "Daily") {
            Ok(Periodicity::Daily)
        } else if same_text(value, "Weekly") {
            Ok(Periodicity::Weekly)
        } else if same_text(value, "Biweekly") {
            Ok(Periodicity::Biweekly)
        } else if same_text(value, "Monthly") {
            Ok(Periodicity::Monthly)
        } else if same_text(value, "Bimonthly") {
            Ok(Periodicity::Bimonthly)
        } else if same_text(value, "Quarterly") {
            Ok(Periodicity::Quarterly)
        } else if same_text(value, "Annually") {
            Ok(Periodicity::Annually)
        } else if same_text(value, "Semiannually") {
            Ok(Periodicity::Semiannually)
        } else {
            Err(Error::invalid("Periodicity", "unknown value"))
        }
    }
}

/// Each periodicity's classifier and name read back as that periodicity.
pub proof fn lemma_periodicity_round_trip(p: Periodicity)
    ensures
        periodicity_of(periodicity_char(p)) == Some(p),
{
}

/// An ASCII letter in lower case; other characters unchanged.
pub open spec fn ascii_lower(c: char) -> char {
    if 'A' <= c <= 'Z' {
        ((c as u32) + 32) as char
    } else {
        c
    }
}

/// A periodicity's schema name reads back as that periodicity, and its
/// one-character classifier is the initial of that name (`a` for
/// `Annually`, `s` for `Semiannually`; only `B` for `Bimonthly` keeps the
/// capital, to tell it from `b` for `Biweekly`): the name written for a
/// decoded classifier is the periodicity the classifier stands for.
pub proof fn lemma_periodicity_names(p: Periodicity)
    ensures
        periodicity_named(periodicity_name(p)) == Some(p),
        periodicity_name(p).len() > 0,
        ascii_lower(periodicity_char(p)) == ascii_lower(periodicity_name(p)[0]),
        periodicity_of(periodicity_char(p)) == Some(p),
{
    reveal_strlit("Daily");
    reveal_strlit("Weekly");
    reveal_strlit("Biweekly");
    reveal_strlit("Monthly");
    reveal_strlit("Bimonthly");
    reveal_strlit("Quarterly");
    reveal_strlit("Annually");
    reveal_strlit("Semiannually");
    assert("Daily"@.len() == 5 && "Daily"@[0] == 'D' && "Daily"@[2] == 'i');
    assert("Weekly"@.len() == 6 && "Weekly"@[0] == 'W' && "Weekly"@[2] == 'e');
    assert("Biweekly"@.len() == 8 && "Biweekly"@[0] == 'B' && "Biweekly"@[2] == 'w');
    assert("Monthly"@.len() == 7 && "Monthly"@[0] == 'M' && "Monthly"@[2] == 'n');
    assert("Bimonthly"@.len() == 9 && "Bimonthly"@[0] == 'B' && "Bimonthly"@[2] == 'm');
    assert("Quarterly"@.len() == 9 && "Quarterly"@[0] == 'Q' && "Quarterly"@[2] == 'a');
    assert("Annually"@.len() == 8 && "Annually"@[0] == 'A' && "Annually"@[2] == 'n');
    assert("Semiannually"@.len() == 12 && "Semiannually"@[0] == 'S' && "Semiannually"@[2] == 'm');
}

impl core::str::FromStr for Periodicity {
    type Err = Error;

    fn from_str(value: &str) -> (r: Result<Self>)
        ensures
            r matches Ok(p) ==> periodicity_named(value@) == Some(p),
            r is Err <==> periodicity_named(value@) is None,
            r matches Err(e) ==> (e matches Error::InvalidInput { field, .. } && field == "Periodicity"),
    {
        Periodicity::from_name(value)
    }
}

/// A month of the year.
#[derive(Clone, Copy, Debug, PartialEq, Eq, Structural)]
pub enum Month {
    January,
    February,
    March,
    April,
    May,
    June,
    July,
    August,
    September,
    October,
    November,
    December,
}

/// The bit of a month in the months classifier.
pub open spec fn month_bit(m: Month) -> u16 {
    match m {
        Month::January => 1,
        Month::February => 2,
        Month::March => 4,
        Month::April => 8,
        Month::May => 16,
        Month::June => 32,
        Month::July => 64,
        Month::August => 128,
        Month::September => 256,
        Month::October => 512,
        Month::November => 1024,
        Month::December => 2048,
    }
}

/// The schema name of a month.
pub open spec fn month_name(m: Month) -> Seq<char> {
    match m {
        Month::January => "January"@,
        Month::February => "February"@,
        Month::March => "March"@,
        Month::April => "April"@,
        Month::May => "May"@,
        Month::June => "June"@,
        Month::July => "July"@,
        Month::August => "August"@,
        Month::September => "September"@,
        Month::October => "October"@,
        Month::November => "November"@,
        Month::December => "December"@,
    }
}

/// The slot of a month among the twelve.
pub open spec fn month_slot_of(m: Month) -> int {
    match m {
        Month::January => 0,
        Month::February => 1,
        Month::March => 2,
        Month::April => 3,
        Month::May => 4,
        Month::June => 5,
        Month::July => 6,
        Month::August => 7,
        Month::September => 8,
        Month::October => 9,
        Month::November => 10,
        Month::December => 11,
    }
}

/// The month with schema name `w`.
pub open spec fn month_named(w: Seq<char>) -> Option<Month> {
    if w == "January"@ {
        Some(Month::January)
    } else if w == "February"@ {
        Some(Month::February)
    } else if w == "March"@ {
        Some(Month::March)
    } else if w == "April"@ {
        Some(Month::April)
    } else if w == "May"@ {
        Some(Month::May)
    } else if w == "June"@ {
        Some(Month::June)
    } else if w == "July"@ {
        Some(Month::July)
    } else if w == "August"@ {
        Some(Month::August)
    } else if w == "September"@ {
        Some(Month::September)
    } else if w == "October"@ {
        Some(Month::October)
    } else if w == "November"@ {
        Some(Month::November)
    } else if w == "December"@ {
        Some(Month::December)
    } else {
        None
    }
}

fn month_slot(m: Month) -> (r: usize)
    ensures
        r < 12,
        r == month_slot_of(m),
{
    match m {
        Month::January => 0,
        Month::February => 1,
        Month::March => 2,
        Month::April => 3,
        Month::May => 4,
        Month::June => 5,
        Month::July => 6,
        Month::August => 7,
        Month::September => 8,
        Month::October => 9,
        Month::November => 10,
        Month::December => 11,
    }
}

impl Month {
    /// The bit of the month in the months classifier.
    pub fn classifier(self) -> (r: u16)
        ensures
            r == month_bit(self),
            r == 1u16 << (month_slot_of(self) as u16),
    {
        proof {
            lemma_month_slot(self);
        }
        match self {
            Month::January => 1,
            Month::February => 2,
            Month::March => 4,
            Month::April => 8,
            Month::May => 16,
            Month::June => 32,
            Month::July => 64,
            Month::August => 128,
            Month::September => 256,
            Month::October => 512,
            Month::November => 1024,
            Month::December => 2048,
        }
    }

    /// The schema name of the month.
    pub fn name(self) -> (r: &'static str)
        ensures
            r@ == month_name(self),
    {
        match self {
            Month::January => "January",
            Month::February => "February",
            Month::March => "March",
            Month::April => "April",
            Month::May => "May",
            Month::June => "June",
            Month::July => "July",
            Month::August => "August",
            Month::September => "September",
            Month::October => "October",
            Month::November => "November",
            Month::December => "December",
        }
    }

    /// The month with schema name `value`.
    pub fn from_name(value: &str) -> (r: Result<Self>)
        ensures
            r matches Ok(m) ==> month_named(value@) == Some(m),
            r is Err <==> month_named(value@) is None,
            r matches Err(e) ==> (e matches Error::InvalidInput { field, .. } && field == "Month"),
    {
        if same_text(value, "January") {
            Ok(Month::January)
        } else if same_text(value, "February") {
            Ok(Month::February)
        } else if same_text(value, "March") {
            Ok(Month::March)
        } else if same_text(value, "April") {
            Ok(Month::April)
        } else if same_text(value, "May") {
            Ok(Month::May)
        } else if same_text(value, "June") {
            Ok(Month::June)
        } else if same_text(value, "July") {
            Ok(Month::July)
        } else if same_text(value, "August") {
            Ok(Month::August)
        } else if same_text(value, "September") {
            Ok(Month::September)
        } else if same_text(value, "October") {
            Ok(Month::October)
        } else if same_text(value, "November") {
            Ok(Month::November)
        } else if same_text(value, "December") {
            Ok(Month::December)
        } else {
            Err(Error::invalid("Month", "unknown value"))
        }
    }
}

impl core::str::FromStr for Month {
    type Err = Error;

    fn from_str(value: &str) -> (r: Result<Self>)
        ensures
            r matches Ok(m) ==> month_named(value@) == Some(m),
            r is Err <==> month_named(value@) is None,
            r matches Err(e) ==> (e matches Error::InvalidInput { field, .. } && field == "Month"),
    {
        Month::from_name(value)
    }
}

/// The classifier bits of the months named by words, or-ed together.
pub open spec fn named_months_mask(ws: Seq<Seq<char>>) -> u16
    decreases ws.len(),
{
    if ws.len() == 0 {
        0
    } else {
        named_months_mask(ws.drop_last()) | month_bit(month_named(ws.last())->0)
    }
}

/// The classifier bits of a list of months, or-ed together.
pub open spec fn months_mask(months: Seq<Month>) -> u16
    decreases months.len(),
{
    if months.len() == 0 {
        0
    } else {
        months_mask(months.drop_last()) | month_bit(months.last())
    }
}

/// The months classifier that white-space separated month names denote: at
/// least one name, each known and none repeated.
pub open spec fn months_from_names(ws: Seq<Seq<char>>) -> Option<u16> {
    if ws.len() > 0 && (forall|i: int| 0 <= i < ws.len() ==> (#[trigger] month_named(ws[i])) is Some)
        && !repeated_word(ws) {
        Some(named_months_mask(ws))
    } else {
        None
    }
}

/// The month in slot `k` (0 is January).
pub open spec fn month_at(k: int) -> Month {
    if k == 0 {
        Month::January
    } else if k == 1 {
        Month::February
    } else if k == 2 {
        Month::March
    } else if k == 3 {
        Month::April
    } else if k == 4 {
        Month::May
    } else if k == 5 {
        Month::June
    } else if k == 6 {
        Month::July
    } else if k == 7 {
        Month::August
    } else if k == 8 {
        Month::September
    } else if k == 9 {
        Month::October
    } else if k == 10 {
        Month::November
    } else {
        Month::December
    }
}

proof fn lemma_month_shifts()
    by (bit_vector)
    ensures
        1u16 << 0u16 == 1u16,
        1u16 << 1u16 == 2u16,
        1u16 << 2u16 == 4u16,
        1u16 << 3u16 == 8u16,
        1u16 << 4u16 == 16u16,
        1u16 << 5u16 == 32u16,
        1u16 << 6u16 == 64u16,
        1u16 << 7u16 == 128u16,
        1u16 << 8u16 == 256u16,
        1u16 << 9u16 == 512u16,
        1u16 << 10u16 == 1024u16,
        1u16 << 11u16 == 2048u16,
{
}

/// The months in calendar order carry the bits of the classifier in order:
/// the month in slot `k` (January is 0) has bit `1 << k`, its slot is `k`,
/// and its schema name reads back as it; each month lies in its own slot.
pub proof fn lemma_month_bits(k: int)
    requires
        0 <= k < 12,
    ensures
        month_bit(month_at(k)) == 1u16 << (k as u16),
        month_slot_of(month_at(k)) == k,
        month_at(month_slot_of(month_at(k))) == month_at(k),
        month_named(month_name(month_at(k))) == Some(month_at(k)),
{
    lemma_month_shifts();
    reveal_strlit("January");
    reveal_strlit("February");
    reveal_strlit("March");
    reveal_strlit("April");
    reveal_strlit("May");
    reveal_strlit("June");
    reveal_strlit("July");
    reveal_strlit("August");
    reveal_strlit("September");
    reveal_strlit("October");
    reveal_strlit("November");
    reveal_strlit("December");
    assert("January"@.len() == 7 && "January"@[0] == 'J' && "January"@[2] == 'n');
    assert("February"@.len() == 8 && "February"@[0] == 'F' && "February"@[2] == 'b');
    assert("March"@.len() == 5 && "March"@[0] == 'M' && "March"@[2] == 'r');
    assert("April"@.len() == 5 && "April"@[0] == 'A' && "April"@[2] == 'r');
    assert("May"@.len() == 3 && "May"@[0] == 'M' && "May"@[2] == 'y');
    assert("June"@.len() == 4 && "June"@[0] == 'J' && "June"@[2] == 'n');
    assert("July"@.len() == 4 && "July"@[0] == 'J' && "July"@[2] == 'l');
    assert("August"@.len() == 6 && "August"@[0] == 'A' && "August"@[2] == 'g');
    assert("September"@.len() == 9 && "September"@[0] == 'S' && "September"@[2] == 'p');
    assert("October"@.len() == 7 && "October"@[0] == 'O' && "October"@[2] == 't');
    assert("November"@.len() == 8 && "November"@[0] == 'N' && "November"@[2] == 'v');
    assert("December"@.len() == 8 && "December"@[0] == 'D' && "December"@[2] == 'c');
}

/// Every month lies in the slot of the calendar that its classifier bit
/// names: `month_bit(m) == 1 << slot` with `month_at(slot) == m`.
pub proof fn lemma_month_slot(m: Month)
    ensures
        0 <= month_slot_of(m) < 12,
        month_at(month_slot_of(m)) == m,
        month_bit(m) == 1u16 << (month_slot_of(m) as u16),
{
    lemma_month_shifts();
}

fn month_in_slot(k: usize) -> (r: Month)
    ensures
        r == month_at(k as int),
{
    if k == 0 {
        Month::January
    } else if k == 1 {
        Month::February
    } else if k == 2 {
        Month::March
    } else if k == 3 {
        Month::April
    } else if k == 4 {
        Month::May
    } else if k == 5 {
        Month::June
    } else if k == 6 {
        Month::July
    } else if k == 7 {
        Month::August
    } else if k == 8 {
        Month::September
    } else if k == 9 {
        Month::October
    } else if k == 10 {
        Month::November
    } else {
        Month::December
    }
}

/// The names of the months in the first `k` slots whose bit is set in `c`,
/// in calendar order.
pub open spec fn present_months_upto(c: u16, k: nat) -> Seq<Seq<char>>
    decreases k,
{
    if k == 0 {
        seq![]
    } else {
        let before = present_months_upto(c, (k - 1) as nat);
        let m = month_at(k - 1);
        if c & month_bit(m) != 0 {
            before.push(month_name(m))
        } else {
            before
        }
    }
}

/// The month names in calendar order whose bit is set in `c`.
pub open spec fn present_months(c: u16) -> Seq<Seq<char>> {
    present_months_upto(c, 12)
}

/// A non-empty set of months as its classifier, from 1 to 4095.
#[derive(Clone, Copy, Debug, PartialEq, Eq)]
pub struct Months(u16);

impl View for Months {
    type V = u16;

    closed spec fn view(&self) -> u16 {
        self.0
    }
}

impl Months {
    #[verifier::type_invariant]
    spec fn in_range(self) -> bool {
        1 <= self.0 <= 4095
    }

    /// The set of `months`; at least one is needed, repetitions are merged.
    pub fn new(months: &[Month]) -> (r: Result<Self>)
        ensures
            r matches Ok(m) ==> m@ == months_mask(months@),
            r is Ok <==> months@.len() > 0,
            r matches Err(e) ==> (e matches Error::InvalidInput { field, .. } && field == "Month"),
    {
        let mut classifier: u16 = 0;
        let mut i: usize = 0;
        while i < months.len()
            invariant
                i <= months@.len(),
                classifier == months_mask(months@.take(i as int)),
                classifier <= 4095,
                i > 0 ==> classifier >= 1,
            decreases months.len() - i,
        {
            assert(months@.take(i + 1).drop_last() =~= months@.take(i as int));
            let bit = months[i].classifier();
            let old = classifier;
            assert(bit >= 1 && bit <= 2048);
            assert((old | bit) <= 4095 && (old | bit) >= bit) by (bit_vector)
                requires
                    old <= 4095,
                    1 <= bit <= 2048,
            ;
            classifier = classifier | bit;
            i = i + 1;
        }
        assert(months@.take(months@.len() as int) =~= months@);
        if classifier == 0 {
            return Err(Error::invalid("Month", "must contain at least one month"));
        }
        Ok(Months(classifier))
    }

    /// The classifier of the set.
    pub fn classifier(self) -> (r: u16)
        ensures
            r == self@,
            1 <= r <= 4095,
    {
        proof {
            use_type_invariant(&self);
        }
        self.0
    }

    /// Whether the set holds `month`.
    pub fn contains(self, month: Month) -> (r: bool)
        ensures
            r == (self@ & month_bit(month) != 0),
    {
        self.0 & month.classifier() != 0
    }

    /// The set with classifier `classifier`, from 1 to 4095.
    pub fn from_classifier(classifier: u16) -> (r: Result<Self>)
        ensures
            r matches Ok(m) ==> m@ == classifier,
            r is Ok <==> 1 <= classifier <= 4095,
            r matches Err(e) ==> (e matches Error::InvalidInput { field, .. } && field == "Month"),
    {
        if 1 <= classifier && classifier <= 4095 {
            Ok(Months(classifier))
        } else {
            Err(Error::invalid("Month", "unknown classifier"))
        }
    }

    /// The set named by white-space separated month names, each at most once.
    pub fn from_names(value: &str) -> (r: Result<Self>)
        ensures
            r matches Ok(m) ==> months_from_names(words(value@)) == Some(m@),
            r is Err <==> months_from_names(words(value@)) is None,
            r matches Err(e) ==> (e matches Error::InvalidInput { field, .. } && field == "Month"),
    {
        let names = split_words(value);
        let ghost ws = words(value@);
        let mut seen: Vec<bool> = vec![false, false, false, false, false, false, false, false, false, false, false, false];
        let mut classifier: u16 = 0;
        let mut i: usize = 0;
        while i < names.len()
            invariant
                i <= names@.len(),
                texts(names@) == ws,
                ws == words(value@),
                seen@.len() == 12,
                forall|k: int| 0 <= k < i ==> (#[trigger] month_named(ws[k])) is Some,
                !repeated_word(ws.take(i as int)),
                classifier == named_months_mask(ws.take(i as int)),
                classifier <= 4095,
                i > 0 ==> classifier >= 1,
                forall|s: int|
                    0 <= s < 12 ==> (#[trigger] seen@[s] <==> exists|j: int|
                        0 <= j < i && month_slot_of(month_named(ws[j])->0) == s),
            decreases names.len() - i,
        {
            let name = names[i].as_str();
            assert(name@ == ws[i as int]);
            let month = if same_text(name, "January") {
                Month::January
            } else if same_text(name, "February") {
                Month::February
            } else if same_text(name, "March") {
                Month::March
            } else if same_text(name, "April") {
                Month::April
            } else if same_text(name, "May") {
                Month::May
            } else if same_text(name, "June") {
                Month::June
            } else if same_text(name, "July") {
                Month::July
            } else if same_text(name, "August") {
                Month::August
            } else if same_text(name, "September") {
                Month::September
            } else if same_text(name, "October") {
                Month::October
            } else if same_text(name, "November") {
                Month::November
            } else if same_text(name, "December") {
                Month::December
            } else {
                assert(month_named(ws[i as int]) is None);
                assert(!(forall|k: int| 0 <= k < ws.len() ==> (#[trigger] month_named(ws[k])) is Some));
                return Err(Error::invalid("Month", "unknown value"));
            };
            assert(month_named(ws[i as int]) == Some(month));
            let slot = month_slot(month);
            if seen[slot] {
                proof {
                    let j = choose|j: int| 0 <= j < i && month_slot_of(month_named(ws[j])->0) == slot;
                    assert(month_named(ws[j])->0 == month);
                    assert(ws[j] == month_name(month));
                    assert(ws[i as int] == month_name(month));
                    assert(0 <= j < i && ws[j] == ws[i as int]);
                    assert(repeated_word(ws));
                }
                return Err(Error::invalid("Month", "contains a duplicate month"));
            }
            let bit = month.classifier();
            assert(ws.take(i + 1).drop_last() =~= ws.take(i as int));
            let old = classifier;
            assert(bit >= 1 && bit <= 2048);
            assert((old | bit) <= 4095 && (old | bit) >= bit) by (bit_vector)
                requires
                    old <= 4095,
                    1 <= bit <= 2048,
            ;
            classifier = classifier | bit;
            let ghost seen_before = seen@;
            seen.set(slot, true);
            proof {
                let t = ws.take(i + 1);
                if repeated_word(t) {
                    let (a, b) = choose|a: int, b: int| 0 <= a < b < t.len() && t[a] == t[b];
                    if b == i {
                        assert(t[a] == ws[a]);
                        assert(month_slot_of(month_named(ws[a])->0) == slot);
                        assert(seen_before[slot as int]);
                    } else {
                        assert(ws.take(i as int)[a] == t[a]);
                        assert(ws.take(i as int)[b] == t[b]);
                        assert(repeated_word(ws.take(i as int)));
                    }
                }
                assert forall|q: int| 0 <= q < 12 implies (#[trigger] seen@[q] <==> exists|j: int|
                    0 <= j < i + 1 && month_slot_of(month_named(ws[j])->0) == q) by {
                    if q == slot {
                        assert(month_slot_of(month_named(ws[i as int])->0) == q);
                    }
                }
            }
            i = i + 1;
        }
        assert(ws.take(ws.len() as int) =~= ws);
        if classifier == 0 {
            return Err(Error::invalid("Month", "must contain at least one month"));
        }
        Ok(Months(classifier))
    }

    /// The month names of the set in calendar order, separated by spaces.
    pub fn names(self) -> (r: String)
        ensures
            r@ == spaced(present_months(self@)),
    {
        let mut out: Vec<char> = Vec::new();
        let mut first = true;
        let mut k: usize = 0;
        while k < 12
            invariant
                k <= 12,
                out@ == spaced(present_months_upto(self@, k as nat)),
                first == (present_months_upto(self@, k as nat).len() == 0),
            decreases 12 - k,
        {
            let month = month_in_slot(k);
            if self.contains(month) {
                append_name(&mut out, month.name(), first, Ghost(present_months_upto(self@, k as nat)));
                first = false;
            }
            k = k + 1;
        }
        string_from_chars(out.as_slice())
    }
}

impl core::str::FromStr for Months {
    type Err = Error;

    fn from_str(value: &str) -> (r: Result<Self>)
        ensures
            r matches Ok(m) ==> months_from_names(words(value@)) == Some(m@),
            r is Err <==> months_from_names(words(value@)) is None,
            r matches Err(e) ==> (e matches Error::InvalidInput { field, .. } && field == "Month"),
    {
        Months::from_names(value)
    }
}

// ---------------------------------------------------------------------------
// Direct debits
// ---------------------------------------------------------------------------

/// The scheme of a direct debit.
#[derive(Clone, Copy, Debug, PartialEq, Eq, Structural)]
pub enum DirectDebitScheme {
    Other,
    Sepa,
}

/// The classifier of a direct-debit scheme.
pub open spec fn scheme_classifier(s: DirectDebitScheme) -> u8 {
    match s {
        DirectDebitScheme::Other => 0,
        DirectDebitScheme::Sepa => 1,
    }
}

/// The schema name of a direct-debit scheme.
pub open spec fn scheme_name(s: DirectDebitScheme) -> Seq<char> {
    match s {
        DirectDebitScheme::Other => "other"@,
        DirectDebitScheme::Sepa => "SEPA"@,
    }
}

impl DirectDebitScheme {
    /// The classifier of the scheme.
    pub fn classifier(self) -> (r: u8)
        ensures
            r == scheme_classifier(self),
    {
        match self {
            DirectDebitScheme::Other => 0,
            DirectDebitScheme::Sepa => 1,
        }
    }

    /// The scheme with classifier `classifier`: 0 or 1.
    pub fn from_classifier(classifier: u8) -> (r: Result<Self>)
        ensures
            r matches Ok(s) ==> scheme_classifier(s) == classifier,
            r is Ok <==> classifier <= 1,
            r matches Err(e) ==> (e matches Error::InvalidInput { field, .. } && field == "DirectDebitScheme"),
    {
        match classifier {
            0 => Ok(DirectDebitScheme::Other),
            1 => Ok(DirectDebitScheme::Sepa),
            _ => Err(Error::invalid("DirectDebitScheme", "unknown classifier")),
        }
    }

    /// The schema name of the scheme.
    pub fn name(self) -> (r: &'static str)
        ensures
            r@ == scheme_name(self),
    {
        match self {
            DirectDebitScheme::Other => "other",
            DirectDebitScheme::Sepa => "SEPA",
        }
    }

    /// The scheme with schema name `value`.
    pub fn from_name(value: &str) -> (r: Result<Self>)
        ensures
            r matches Ok(s) ==> value@ == scheme_name(s),
            r is Err <==> value@ != "other"@ && value@ != "SEPA"@,
            r matches Err(e) ==> (e matches Error::InvalidInput { field, .. } && field == "DirectDebitScheme"),
    {
        if same_text(value, "other") {
            Ok(DirectDebitScheme::Other)
        } else if same_text(value, "SEPA") {
            Ok(DirectDebitScheme::Sepa)
        } else {
            Err(Error::invalid("DirectDebitScheme", "unknown value"))
        }
    }
}

impl core::str::FromStr for DirectDebitScheme {
    type Err = Error;

    fn from_str(value: &str) -> (r: Result<Self>)
        ensures
            r matches Ok(s) ==> value@ == scheme_name(s),
            r is Err <==> value@ != "other"@ && value@ != "SEPA"@,
            r matches Err(e) ==> (e matches Error::InvalidInput { field, .. } && field == "DirectDebitScheme"),
    {
        DirectDebitScheme::from_name(value)
    }
}

/// Whether a direct debit is one-off or recurrent.
#[derive(Clone, Copy, Debug, PartialEq, Eq, Structural)]
pub enum DirectDebitType {
    OneOff,
    Recurrent,
}

/// The classifier of a direct-debit type.
pub open spec fn debit_type_classifier(t: DirectDebitType) -> u8 {
    match t {
        DirectDebitType::OneOff => 0,
        DirectDebitType::Recurrent => 1,
    }
}

/// The schema name of a direct-debit type.
pub open spec fn debit_type_name(t: DirectDebitType) -> Seq<char> {
    match t {
        DirectDebitType::OneOff => "one-off"@,
        DirectDebitType::Recurrent => "recurrent"@,
    }
}

impl DirectDebitType {
    /// The classifier of the type.
    pub fn classifier(self) -> (r: u8)
        ensures
            r == debit_type_classifier(self),
    {
        match self {
            DirectDebitType::OneOff => 0,
            DirectDebitType::Recurrent => 1,
        }
    }

    /// The type with classifier `classifier`: 0 or 1.
    pub fn from_classifier(classifier: u8) -> (r: Result<Self>)
        ensures
            r matches Ok(t) ==> debit_type_classifier(t) == classifier,
            r is Ok <==> classifier <= 1,
            r matches Err(e) ==> (e matches Error::InvalidInput { field, .. } && field == "DirectDebitType"),
    {
        match classifier {
            0 => Ok(DirectDebitType::OneOff),
            1 => Ok(DirectDebitType::Recurrent),
            _ => Err(Error::invalid("DirectDebitType", "unknown classifier")),
        }
    }

    /// The schema name of the type.
    pub fn name(self) -> (r: &'static str)
        ensures
            r@ == debit_type_name(self),
    {
        match self {
            DirectDebitType::OneOff => "one-off",
            DirectDebitType::Recurrent => "recurrent",
        }
    }

    /// The type with schema name `value`.
    pub fn from_name(value: &str) -> (r: Result<Self>)
        ensures
            r matches Ok(t) ==> value@ == debit_type_name(t),
            r is Err <==> value@ != "one-off"@ && value@ != "recurrent"@,
            r matches Err(e) ==> (e matches Error::InvalidInput { field, .. } && field == "DirectDebitType"),
    {
        if same_text(value, "one-off") {
            Ok(DirectDebitType::OneOff)
        } else if same_text(value, "recurrent") {
            Ok(DirectDebitType::Recurrent)
        } else {
            Err(Error::invalid("DirectDebitType", "unknown value"))
        }
    }
}

impl core::str::FromStr for DirectDebitType {
    type Err = Error;

    fn from_str(value: &str) -> (r: Result<Self>)
        ensures
            r matches Ok(t) ==> value@ == debit_type_name(t),
            r is Err <==> value@ != "one-off"@ && value@ != "recurrent"@,
            r matches Err(e) ==> (e matches Error::InvalidInput { field, .. } && field == "DirectDebitType"),
    {
        DirectDebitType::from_name(value)
    }
}

// ---------------------------------------------------------------------------
// Amounts
// ---------------------------------------------------------------------------

/// The description of each way amount text is rejected.
pub open spec fn amount_fault_text(fault: NumberFault) -> Seq<char> {
    match fault {
        NumberFault::Empty => "must be a non-negative decimal number"@,
        NumberFault::Negative => "must be a non-negative decimal number"@,
        NumberFault::NoDigits => "must be a decimal number"@,
        NumberFault::ExponentNotAllowed => "exponent notation is not valid for an XSD decimal"@,
        NumberFault::BadExponent => "has an invalid exponent"@,
        NumberFault::Syntax => "must be a decimal number"@,
        NumberFault::OutOfRange => "has an exponent outside the supported range"@,
    }
}

/// The description of a rejected amount.
fn fault_message(fault: NumberFault) -> (r: &'static str)
    ensures
        r@ == amount_fault_text(fault),
{
    match fault {
        NumberFault::Empty => "must be a non-negative decimal number",
        NumberFault::Negative => "must be a non-negative decimal number",
        NumberFault::NoDigits => "must be a decimal number",
        NumberFault::ExponentNotAllowed => "exponent notation is not valid for an XSD decimal",
        NumberFault::BadExponent => "has an invalid exponent",
        NumberFault::Syntax => "must be a decimal number",
        NumberFault::OutOfRange => "has an exponent outside the supported range",
    }
}

/// The canonical text of a non-negative decimal amount: surrounding white
/// space ignored, an optional `+`, digits with at most one point, and (when
/// allowed) an exponent.
pub fn normalize_number(value: &str, allow_exponent: bool) -> (r: Result<String>)
    ensures
        r matches Ok(s) ==> amount_canonical(value@, allow_exponent) == Some(s@),
        r is Err <==> amount_canonical(value@, allow_exponent) is None,
        r matches Err(e) ==> (e matches Error::InvalidInput { field, .. } && field == "Amount"),
        r matches Ok(s) ==> same_value(
            text_numerator(s@),
            text_scale(s@),
            written_amount(value@, allow_exponent).0,
            written_amount(value@, allow_exponent).1,
        ),
{
    match normalize_amount(value, allow_exponent) {
        Ok(chars) => {
            proof {
                lemma_amount_canonical_value(value@, allow_exponent);
            }
            Ok(string_from_chars(chars.as_slice()))
        },
        Err(fault) => Err(Error::invalid("Amount", fault_message(fault))),
    }
}

/// A non-negative decimal amount kept in its canonical text, so that no
/// precision is lost.
#[derive(Debug, Eq, PartialEq)]
pub struct Amount(String);

impl View for Amount {
    type V = Seq<char>;

    closed spec fn view(&self) -> Seq<char> {
        self.0@
    }
}

impl Clone for Amount {
    fn clone(&self) -> (r: Self)
        ensures
            r == *self,
    {
        proof {
            use_type_invariant(self);
        }
        Amount(self.0.clone())
    }
}

impl Amount {
    #[verifier::type_invariant]
    spec fn canonical(self) -> bool {
        crate::decimal::is_canonical_decimal(self.0@) && !crate::decimal::text_negative(self.0@)
    }

    /// The amount that `value` writes, without exponent notation.
    pub fn new(value: &str) -> (r: Result<Self>)
        ensures
            r matches Ok(a) ==> amount_canonical(value@, false) == Some(a@),
            r is Err <==> amount_canonical(value@, false) is None,
            r matches Err(e) ==> (e matches Error::InvalidInput { field, .. } && field == "Amount"),
            r matches Ok(a) ==> same_value(
                text_numerator(a@),
                text_scale(a@),
                written_amount(value@, false).0,
                written_amount(value@, false).1,
            ),
            r matches Ok(a) ==> (text_integer(a@).len() <= 1000 ==> amount_canonical(a@, false) == Some(a@)),
    {
        let text = normalize_number(value, false)?;
        proof {
            lemma_amount_canonical_shape(value@, false);
            if text_integer(text@).len() <= 1000 {
                crate::decimal::lemma_amount_canonical_fixed(text@);
            }
        }
        Ok(Amount(text))
    }

    /// The canonical text of the amount.
    pub fn as_str(&self) -> (r: &str)
        ensures
            r@ == self@,
            crate::decimal::is_canonical_decimal(self@),
    {
        proof {
            use_type_invariant(self);
        }
        self.0.as_str()
    }

    /// Whether the amount is zero.
    pub fn is_zero(&self) -> (r: bool)
        ensures
            r == (self@ == seq!['0']),
    {
        proof {
            reveal_strlit("0");
            assert("0"@ =~= seq!['0']);
        }
        same_text(self.0.as_str(), "0")
    }
}

// ---------------------------------------------------------------------------
// The document
// ---------------------------------------------------------------------------

/// A PAY by square document: an optional invoice reference and its payments.
#[derive(Clone, Debug, PartialEq)]
pub struct Pay {
    pub invoice_id: Option<String>,
    pub payments: Payments,
}

/// The payments of a PAY document.
#[derive(Clone, Debug, PartialEq)]
pub struct Payments {
    pub payment: Vec<Payment>,
}

/// One payment of a PAY document.
#[derive(Clone, Debug, PartialEq)]
pub struct Payment {
    pub payment_options: PaymentOptions,
    pub amount: Option<Amount>,
    pub currency_code: String,
    pub payment_due_date: Option<String>,
    pub variable_symbol: Option<String>,
    pub constant_symbol: Option<String>,
    pub specific_symbol: Option<String>,
    pub originators_reference_information: Option<String>,
    pub payment_note: Option<String>,
    pub bank_accounts: BankAccounts,
    pub standing_order_ext: Option<StandingOrderExt>,
    pub direct_debit_ext: Option<DirectDebitExt>,
    pub beneficiary_name: Option<String>,
    pub beneficiary_address_line1: Option<String>,
    pub beneficiary_address_line2: Option<String>,
}

/// The accounts a payment may be made to.
#[derive(Clone, Debug, PartialEq)]
pub struct BankAccounts {
    pub bank_account: Vec<BankAccount>,
}

/// One account: its IBAN and optional BIC.
#[derive(Clone, Debug, PartialEq)]
pub struct BankAccount {
    pub iban: String,
    pub bic: Option<String>,
}

/// The schedule of a standing order.
#[derive(Clone, Debug, PartialEq)]
pub struct StandingOrderExt {
    pub day: Option<u8>,
    pub month: Option<Months>,
    pub periodicity: Periodicity,
    pub last_date: Option<String>,
}

/// The terms of a direct debit.
#[derive(Clone, Debug, PartialEq)]
pub struct DirectDebitExt {
    pub direct_debit_scheme: DirectDebitScheme,
    pub direct_debit_type: DirectDebitType,
    pub variable_symbol: Option<String>,
    pub specific_symbol: Option<String>,
    pub originators_reference_information: Option<String>,
    pub mandate_id: Option<String>,
    pub creditor_id: Option<String>,
    pub contract_id: Option<String>,
    pub max_amount: Option<Amount>,
    pub valid_till_date: Option<String>,
}

} // verus!
