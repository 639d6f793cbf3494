//! The INVOICE by square data model: exact decimals, VAT rates, codes, dates,
//! payment means, the document itself, its validation rules, its computed
//! totals and its advisory length diagnostics.

use vstd::prelude::*;
use crate::calendar::{iso_date_shape, iso_ymd, parse_date, valid_ymd};
use crate::decimal::{
    decimal_canonical, is_canonical_decimal, slice_chars, lemma_decimal_canonical_shape,
    lemma_decimal_canonical_value, normalize_signed, same_value, text_integer, written_fraction, scaled_parts, scaled_text, text_negative, text_numerator, text_scale, NumberFault,
};
use crate::magnitude::{
    add_digits, digits_ok, lemma_pow10_add, lemma_pow10_positive, lsb_value, mul_digits, pow10,
    shift_up, sub_digits,
};
use crate::error::text;
use crate::diagnostic::{
    checks_of, exceeding, exceeding_checks, optional_text_check, push_count, push_optional_text,
    push_text, text_check, AdvisoryDiagnostic,
};
use crate::numeral::{i64_string, int_text, nat_text, u64_string};
use crate::text::{chars_of, concat, same_text, string_from_chars};

verus! {

/// Why an INVOICE or INVOICE ITEMS model value was rejected: the offending
/// field and a description.
#[derive(Clone, Debug, Eq, PartialEq)]
pub struct InvoiceModelError {
    field: &'static str,
    message: String,
}

impl InvoiceModelError {
    /// The field that an error is about.
    pub closed spec fn field_spec(&self) -> &'static str {
        self.field
    }

    /// The description that an error carries.
    pub closed spec fn message_spec(&self) -> Seq<char> {
        self.message@
    }

    /// An error about `field`.
    pub fn invalid(field: &'static str, message: &str) -> (r: Self)
        ensures
            r.field_spec() == field,
            r.message_spec() == message@,
    {
        InvoiceModelError { field, message: text(message) }
    }

    /// The field that the error is about.
    pub fn field(&self) -> (r: &'static str)
        ensures
            r == self.field_spec(),
    {
        self.field
    }

    /// What is wrong with the field.
    pub fn message(&self) -> (r: &str)
        ensures
            r@ == self.message_spec(),
    {
        self.message.as_str()
    }
}

pub type ModelResult<T> = core::result::Result<T, InvoiceModelError>;

// ---------------------------------------------------------------------------
// Document type
// ---------------------------------------------------------------------------

/// The semantic INVOICE document type, carried in the payload header.
#[derive(Clone, Copy, Debug, PartialEq, Eq, Structural)]
pub enum DocumentType {
    Invoice,
    ProformaInvoice,
    CreditNote,
    DebitNote,
    AdvanceInvoice,
}

/// The header classifier of a document type.
pub open spec fn document_type_classifier(t: DocumentType) -> u8 {
    match t {
        DocumentType::Invoice => 0,
        DocumentType::ProformaInvoice => 1,
        DocumentType::CreditNote => 2,
        DocumentType::DebitNote => 3,
        DocumentType::AdvanceInvoice => 4,
    }
}

/// The document type with header classifier `c`.
pub open spec fn document_type_of(c: u8) -> Option<DocumentType> {
    if c == 0 {
        Some(DocumentType::Invoice)
    } else if c == 1 {
        Some(DocumentType::ProformaInvoice)
    } else if c == 2 {
        Some(DocumentType::CreditNote)
    } else if c == 3 {
        Some(DocumentType::DebitNote)
    } else if c == 4 {
        Some(DocumentType::AdvanceInvoice)
    } else {
        None
    }
}

/// The `xsi:type` name of a document type.
pub open spec fn xsi_name(t: DocumentType) -> Seq<char> {
    match t {
        DocumentType::Invoice => "Invoice"@,
        DocumentType::ProformaInvoice => "ProformaInvoice"@,
        DocumentType::CreditNote => "CreditNote"@,
        DocumentType::DebitNote => "DebitNote"@,
        DocumentType::AdvanceInvoice => "AdvanceInvoice"@,
    }
}

/// The document type whose `xsi:type` name is `name`.
pub open spec fn document_type_named(name: Seq<char>) -> Option<DocumentType> {
    if name == "Invoice"@ {
        Some(DocumentType::Invoice)
    } else if name == "ProformaInvoice"@ {
        Some(DocumentType::ProformaInvoice)
    } else if name == "CreditNote"@ {
        Some(DocumentType::CreditNote)
    } else if name == "DebitNote"@ {
        Some(DocumentType::DebitNote)
    } else if name == "AdvanceInvoice"@ {
        Some(DocumentType::AdvanceInvoice)
    } else {
        None
    }
}

/// The text after the last `:` of `s`, or all of `s` (an XML local name).
pub open spec fn local_name(s: Seq<char>) -> Seq<char>
    decreases s.len(),
{
    if s.len() == 0 {
        s
    } else if s.last() == ':' {
        seq![]
    } else {
        local_name(s.drop_last()).push(s.last())
    }
}

/// The text after the last `:` of `value`, or all of it.
pub fn local_name_of(value: &str) -> (r: String)
    ensures
        r@ == local_name(value@),
{
    let chars = chars_of(value);
    let mut start: usize = chars.len();
    assert(chars@.take(start as int) =~= chars@);
    assert(chars@ + chars@.skip(start as int) =~= chars@);
    while start > 0 && chars[start - 1] != ':'
        invariant
            start <= chars@.len(),
            chars@ == value@,
            local_name(chars@) == local_name(chars@.take(start as int)) + chars@.skip(start as int),
        decreases start,
    {
        proof {
            let t = chars@.take(start as int);
            assert(t.drop_last() =~= chars@.take(start - 1));
            assert(chars@.skip(start - 1) =~= seq![t.last()] + chars@.skip(start as int));
            assert(local_name(t) == local_name(t.drop_last()).push(t.last()));
            assert(local_name(t) + chars@.skip(start as int) =~= local_name(t.drop_last()) + chars@.skip(
                start - 1,
            ));
        }
        start = start - 1;
    }
    proof {
        let t = chars@.take(start as int);
        if start > 0 {
            assert(t.last() == ':');
            assert(local_name(t) =~= Seq::<char>::empty());
        } else {
            assert(t =~= Seq::<char>::empty());
        }
        assert(local_name(chars@) =~= chars@.skip(start as int));
    }
    let tail = slice_chars(&chars, start, chars.len());
    string_from_chars(tail.as_slice())
}

impl DocumentType {
    /// The header classifier of the document type.
    pub fn classifier(self) -> (r: u8)
        ensures
            r == document_type_classifier(self),
    {
        match self {
            DocumentType::Invoice => 0,
            DocumentType::ProformaInvoice => 1,
            DocumentType::CreditNote => 2,
            DocumentType::DebitNote => 3,
            DocumentType::AdvanceInvoice => 4,
        }
    }

    /// The document type of a header classifier; classifiers above 4 are
    /// rejected.
    pub fn from_classifier(classifier: u8) -> (r: ModelResult<Self>)
        ensures
            r matches Ok(t) ==> document_type_of(classifier) == Some(t),
            r matches Err(e) ==> document_type_of(classifier) is None && e.field_spec()
                == "DocumentType",
    {
        match classifier {
            0 => Ok(DocumentType::Invoice),
            1 => Ok(DocumentType::ProformaInvoice),
            2 => Ok(DocumentType::CreditNote),
            3 => Ok(DocumentType::DebitNote),
            4 => Ok(DocumentType::AdvanceInvoice),
            _ => Err(InvoiceModelError::invalid("DocumentType", "unknown classifier")),
        }
    }

    /// The root element's `xsi:type` value for the document type.
    pub fn as_xsi_type(self) -> (r: &'static str)
        ensures
            r@ == xsi_name(self),
    {
        match self {
            DocumentType::Invoice => "Invoice",
            DocumentType::ProformaInvoice => "ProformaInvoice",
            DocumentType::CreditNote => "CreditNote",
            DocumentType::DebitNote => "DebitNote",
            DocumentType::AdvanceInvoice => "AdvanceInvoice",
        }
    }

    /// The document type named by an `xsi:type` value, with or without a
    /// namespace prefix.
    pub fn from_xsi_type(value: &str) -> (r: ModelResult<Self>)
        ensures
            r matches Ok(t) ==> document_type_named(local_name(value@)) == Some(t),
            r matches Err(e) ==> document_type_named(local_name(value@)) is None
                && e.field_spec() == "DocumentType",
    {
        let local = local_name_of(value);
        let name = local.as_str();
        if same_text(name, "Invoice") {
            Ok(DocumentType::Invoice)
        } else if same_text(name, "ProformaInvoice") {
            Ok(DocumentType::ProformaInvoice)
        } else if same_text(name, "CreditNote") {
            Ok(DocumentType::CreditNote)
        } else if same_text(name, "DebitNote") {
            Ok(DocumentType::DebitNote)
        } else if same_text(name, "AdvanceInvoice") {
            Ok(DocumentType::AdvanceInvoice)
        } else {
            Err(InvoiceModelError::invalid("DocumentType", "unknown xsi:type"))
        }
    }
}

/// Each document type's classifier reads back as that document type, and
/// exactly the classifiers 0 to 4 name one.
pub proof fn lemma_document_type_classifier_round_trip(t: DocumentType, c: u8)
    ensures
        document_type_of(document_type_classifier(t)) == Some(t),
        document_type_of(c) is Some <==> c <= 4,
        document_type_of(c) matches Some(u) ==> document_type_classifier(u) == c,
{
}

/// Each document type's `xsi:type` name reads back as that document type.
pub proof fn lemma_document_type_name_round_trip(t: DocumentType)
    ensures
        document_type_named(xsi_name(t)) == Some(t),
{
    reveal_strlit("Invoice");
    reveal_strlit("ProformaInvoice");
    reveal_strlit("CreditNote");
    reveal_strlit("DebitNote");
    reveal_strlit("AdvanceInvoice");
    assert("Invoice"@.len() == 7);
    assert("ProformaInvoice"@.len() == 15);
    assert("CreditNote"@.len() == 10);
    assert("DebitNote"@.len() == 9);
    assert("AdvanceInvoice"@.len() == 14);
}

/// Appending text without a `:` appends it to the local name.
proof fn lemma_local_name_plain(a: Seq<char>, b: Seq<char>)
    requires
        forall|k: int| 0 <= k < b.len() ==> b[k] != ':',
    ensures
        local_name(a + b) == local_name(a) + b,
    decreases b.len(),
{
    if b.len() == 0 {
        assert(a + b =~= a);
        assert(local_name(a) + b =~= local_name(a));
    } else {
        lemma_local_name_plain(a, b.drop_last());
        assert((a + b).drop_last() =~= a + b.drop_last());
        assert((a + b).last() == b.last());
        assert(local_name(a) + b =~= (local_name(a) + b.drop_last()).push(b.last()));
    }
}

/// An `xsi:type` name reads back as its document type, written bare or
/// behind any namespace prefix such as `bsqr:`.
pub proof fn lemma_xsi_type_round_trip(t: DocumentType, prefix: Seq<char>)
    ensures
        document_type_named(local_name(xsi_name(t))) == Some(t),
        document_type_named(local_name(prefix + seq![':'] + xsi_name(t))) == Some(t),
{
    lemma_document_type_name_round_trip(t);
    reveal_strlit("Invoice");
    reveal_strlit("ProformaInvoice");
    reveal_strlit("CreditNote");
    reveal_strlit("DebitNote");
    reveal_strlit("AdvanceInvoice");
    let name = xsi_name(t);
    assert forall|k: int| 0 <= k < name.len() implies name[k] != ':' by {
        assert('A' <= name[k] <= 'z');
    }
    lemma_local_name_plain(Seq::<char>::empty(), name);
    assert(Seq::<char>::empty() + name =~= name);
    let head = prefix + seq![':'];
    assert(local_name(head) == Seq::<char>::empty()) by {
        assert(head.last() == ':');
    }
    lemma_local_name_plain(head, name);
    assert(Seq::<char>::empty() + name =~= name);
}

impl core::str::FromStr for DocumentType {
    type Err = InvoiceModelError;

    fn from_str(value: &str) -> (r: ModelResult<Self>)
        ensures
            r matches Ok(t) ==> document_type_named(local_name(value@)) == Some(t),
            r matches Err(e) ==> document_type_named(local_name(value@)) is None
                && e.field_spec() == "DocumentType",
    {
        DocumentType::from_xsi_type(value)
    }
}

// ---------------------------------------------------------------------------
// Exact decimals
// ---------------------------------------------------------------------------

/// An arbitrary-precision XSD decimal kept as canonical text: an optional
/// minus sign, integer digits without leading zeros, and fraction digits
/// without trailing zeros; zero is `0`.
#[derive(Debug, Eq, PartialEq)]
pub struct Decimal(String);

impl Clone for Decimal {
    fn clone(&self) -> (r: Self)
        ensures
            r == *self,
    {
        proof {
            use_type_invariant(self);
        }
        Decimal(self.0.clone())
    }
}

impl View for Decimal {
    type V = Seq<char>;

    closed spec fn view(&self) -> Seq<char> {
        self.0@
    }
}

/// `nr / 10^sr == n / 10^s` and `n / 10^s == m / 10^t` give
/// `nr / 10^sr == m / 10^t`.
proof fn lemma_same_value_trans(nr: int, sr: nat, n: int, s: nat, m: int, t: nat)
    requires
        same_value(nr, sr, n, s),
        same_value(n, s, m, t),
    ensures
        same_value(nr, sr, m, t),
{
    lemma_pow10_positive(s);
    let ps = pow10(s);
    let psr = pow10(sr);
    let pt = pow10(t);
    assert((nr * pt) * ps == (m * psr) * ps) by (nonlinear_arith)
        requires
            nr * ps == n * psr,
            n * pt == m * ps,
    ;
    assert(nr * pt == m * psr) by (nonlinear_arith)
        requires
            (nr * pt) * ps == (m * psr) * ps,
            ps > 0,
    ;
}

/// Two fractions brought to a common scale and added.
proof fn lemma_aligned_sum(na: int, sa: nat, nb: int, sb: nat, scale: nat)
    requires
        sa <= scale,
        sb <= scale,
    ensures
        same_value(
            na * pow10((scale - sa) as nat) + nb * pow10((scale - sb) as nat),
            scale,
            na * pow10(sb) + nb * pow10(sa),
            sa + sb,
        ),
{
    let p1 = pow10((scale - sa) as nat);
    let p2 = pow10((scale - sb) as nat);
    let q = pow10(sa + sb);
    let ps = pow10(scale);
    let pa = pow10(sa);
    let pb = pow10(sb);
    lemma_pow10_add((scale - sa) as nat, sa + sb);
    lemma_pow10_add(scale, sb);
    assert((scale - sa) as nat + (sa + sb) == scale + sb);
    assert(p1 * q == ps * pb);
    lemma_pow10_add((scale - sb) as nat, sa + sb);
    lemma_pow10_add(scale, sa);
    assert((scale - sb) as nat + (sa + sb) == scale + sa);
    assert(p2 * q == ps * pa);
    assert((na * p1 + nb * p2) * q == na * (p1 * q) + nb * (p2 * q)) by (nonlinear_arith);
    assert(na * (ps * pb) + nb * (ps * pa) == (na * pb + nb * pa) * ps) by (nonlinear_arith);
}

/// The fraction `n / 10^s` that decimal text writes, as the pair `(n, s)`.
pub open spec fn frac_of(s: Seq<char>) -> (int, nat) {
    (text_numerator(s), text_scale(s))
}

/// Whether two pairs `(n, s)` denote the same fraction `n / 10^s`.
pub open spec fn same_frac(a: (int, nat), b: (int, nat)) -> bool {
    same_value(a.0, a.1, b.0, b.1)
}

/// The sum of two fractions `n / 10^s`.
pub open spec fn frac_add(a: (int, nat), b: (int, nat)) -> (int, nat) {
    (a.0 * pow10(b.1) + b.0 * pow10(a.1), a.1 + b.1)
}

/// The negation of a fraction `n / 10^s`.
pub open spec fn frac_neg(a: (int, nat)) -> (int, nat) {
    (-a.0, a.1)
}

/// The product of two fractions `n / 10^s`.
pub open spec fn frac_mul(a: (int, nat), b: (int, nat)) -> (int, nat) {
    (a.0 * b.0, a.1 + b.1)
}

/// The fraction zero.
pub open spec fn frac_zero() -> (int, nat) {
    (0, 0)
}

/// Adding equal fractions to the same fraction gives equal sums.
pub proof fn lemma_frac_add_congruent(a: (int, nat), b: (int, nat), c: (int, nat))
    requires
        same_frac(a, b),
    ensures
        same_frac(frac_add(a, c), frac_add(b, c)),
{
    let pa = pow10(a.1);
    let pb = pow10(b.1);
    let pc = pow10(c.1);
    lemma_pow10_add(a.1, c.1);
    lemma_pow10_add(b.1, c.1);
    assert((a.0 * pc + c.0 * pa) * (pb * pc) == (b.0 * pc + c.0 * pb) * (pa * pc)) by (nonlinear_arith)
        requires
            a.0 * pb == b.0 * pa,
    ;
}

/// Equality of fractions is transitive.
pub proof fn lemma_same_frac_trans(a: (int, nat), b: (int, nat), c: (int, nat))
    requires
        same_frac(a, b),
        same_frac(b, c),
    ensures
        same_frac(a, c),
{
    lemma_same_value_trans(a.0, a.1, b.0, b.1, c.0, c.1);
}

/// Canonical decimal texts that write the same fraction are the same text.
pub proof fn lemma_same_frac_text(s1: Seq<char>, s2: Seq<char>)
    requires
        is_canonical_decimal(s1),
        is_canonical_decimal(s2),
        same_frac(frac_of(s1), frac_of(s2)),
    ensures
        s1 == s2,
{
    crate::canonical::lemma_canonical_unique(s1, s2);
}

/// Exact addition commutes: `a + b` and `b + a`, each canonically written,
/// are the same text.
pub proof fn lemma_add_exact_commutative(a: Seq<char>, b: Seq<char>, ab: Seq<char>, ba: Seq<char>)
    requires
        is_canonical_decimal(ab),
        is_canonical_decimal(ba),
        same_frac(frac_of(ab), frac_add(frac_of(a), frac_of(b))),
        same_frac(frac_of(ba), frac_add(frac_of(b), frac_of(a))),
    ensures
        ab == ba,
{
    let fa = frac_of(a);
    let fb = frac_of(b);
    assert(frac_add(fa, fb) == frac_add(fb, fa)) by (nonlinear_arith);
    lemma_same_frac_sym(frac_of(ba), frac_add(fb, fa));
    lemma_same_frac_trans(frac_of(ab), frac_add(fa, fb), frac_of(ba));
    lemma_same_frac_text(ab, ba);
}

/// Zero is the identity of exact addition: `a + 0`, canonically written, is
/// the canonical text `a` itself.
pub proof fn lemma_add_exact_zero(a: Seq<char>, zero: Seq<char>, sum: Seq<char>)
    requires
        is_canonical_decimal(a),
        is_canonical_decimal(sum),
        zero == seq!['0'],
        same_frac(frac_of(sum), frac_add(frac_of(a), frac_of(zero))),
    ensures
        sum == a,
{
    let fa = frac_of(a);
    assert(text_scale(zero) == 0) by {
        crate::decimal::lemma_index_of_bound(zero, '.');
    }
    assert(crate::decimal::text_digits(zero) =~= zero) by {
        crate::decimal::lemma_index_of_bound(zero, '.');
    }
    assert(!text_negative(zero));
    assert(zero.drop_last() =~= Seq::<char>::empty());
    assert(crate::decimal::digit_of(zero.last()) == 0);
    assert(crate::decimal::digits_value(zero.drop_last()) == 0);
    assert(crate::decimal::digits_value(zero) == 0);
    assert(text_numerator(zero) == 0);
    assert(pow10(0) == 1);
    assert(frac_add(fa, frac_of(zero)) == fa) by (nonlinear_arith)
        requires
            frac_of(zero) == (0int, 0nat),
            pow10(0) == 1,
    ;
    lemma_same_frac_text(sum, a);
}

/// Every fraction equals itself.
pub proof fn lemma_same_frac_refl(a: (int, nat))
    ensures
        same_frac(a, a),
{
}

/// Equality of fractions is symmetric.
pub proof fn lemma_same_frac_sym(a: (int, nat), b: (int, nat))
    requires
        same_frac(a, b),
    ensures
        same_frac(b, a),
{
}

impl Decimal {
    #[verifier::type_invariant]
    spec fn canonical(self) -> bool {
        is_canonical_decimal(self.0@)
    }

    /// The normalized decimal that `value` writes: surrounding white space is
    /// ignored, an optional sign, digits with at most one point; exponents are
    /// rejected.
    pub fn new(value: &str) -> (r: ModelResult<Self>)
        ensures
            r matches Ok(d) ==> decimal_canonical(value@, false) == Some(d@),
            r matches Err(e) ==> decimal_canonical(value@, false) is None && e.field_spec()
                == "Decimal",
            r matches Ok(d) ==> same_value(
                text_numerator(d@),
                text_scale(d@),
                written_fraction(value@).0,
                written_fraction(value@).1,
            ),
            r matches Ok(d) ==> (text_integer(d@).len() <= 100000 ==> decimal_canonical(d@, false) == Some(d@)),
    {
        match normalize_signed(value, false) {
            Ok(chars) => {
                proof {
                    lemma_decimal_canonical_shape(value@, false);
                    lemma_decimal_canonical_value(value@);
                    if text_integer(chars@).len() <= 100000 {
                        crate::decimal::lemma_decimal_canonical_fixed(chars@);
                    }
                }
                Ok(Decimal(string_from_chars(chars.as_slice())))
            },
            Err(fault) => Err(InvoiceModelError::invalid("Decimal", fault_message(fault))),
        }
    }

    /// The canonical text of the decimal.
    pub fn as_str(&self) -> (r: &str)
        ensures
            r@ == self@,
            is_canonical_decimal(self@),
    {
        proof {
            use_type_invariant(self);
        }
        self.0.as_str()
    }

    /// Whether the decimal is zero.
    pub fn is_zero(&self) -> (r: bool)
        ensures
            r == (self@ == seq!['0']),
    {
        proof {
            reveal_strlit("0");
            assert("0"@ =~= seq!['0']);
        }
        same_text(self.0.as_str(), "0")
    }

    /// `self + other` or `self - other`, exactly.
    fn combine(&self, other: &Self, negate_other: bool) -> (r: Self)
        ensures
            text_scale(r@) <= text_scale(self@) || text_scale(r@) <= text_scale(other@),
            same_frac(
                frac_of(r@),
                frac_add(
                    frac_of(self@),
                    if negate_other {
                        frac_neg(frac_of(other@))
                    } else {
                        frac_of(other@)
                    },
                ),
            ),
    {
        proof {
            use_type_invariant(self);
            use_type_invariant(other);
        }
        let left = chars_of(self.0.as_str());
        let right = chars_of(other.0.as_str());
        let (na, da, sa) = scaled_parts(&left);
        let (nb0, db, sb) = scaled_parts(&right);
        let nb = if negate_other { !nb0 } else { nb0 };
        let la = da.len();
        let lb = db.len();
        let scale = if sa > sb { sa } else { sb };
        let xa = shift_up(&da, scale - sa);
        let xb = shift_up(&db, scale - sb);
        let ghost va: int = if na { -(lsb_value(xa@) as int) } else { lsb_value(xa@) as int };
        let ghost vb: int = if nb { -(lsb_value(xb@) as int) } else { lsb_value(xb@) as int };
        let (negative, digits) = if na == nb {
            (na, add_digits(&xa, &xb))
        } else {
            match sub_digits(&xa, &xb) {
                Some(v) => (na, v),
                None => match sub_digits(&xb, &xa) {
                    Some(v) => (nb, v),
                    None => (nb, Vec::new()),
                },
            }
        };
        let ghost signed: int = if negative { -(lsb_value(digits@) as int) } else { lsb_value(digits@) as int };
        assert(digits_ok(digits@) && signed == va + vb);
        let r = scaled_text(negative, &digits, scale);
        proof {
            let a = self@;
            let b = other@;
            let ta = text_numerator(a);
            let tb0 = text_numerator(b);
            let tb = if negate_other { -tb0 } else { tb0 };
            let pa = pow10((scale - sa) as nat);
            let pb = pow10((scale - sb) as nat);
            let ma = lsb_value(da@) as int;
            let mb = lsb_value(db@) as int;
            assert(ta == (if na { -ma } else { ma }));
            assert(tb == (if nb { -mb } else { mb }));
            assert(va == ta * pa) by (nonlinear_arith)
                requires
                    va == (if na { -(pa * ma) } else { pa * ma }),
                    ta == (if na { -ma } else { ma }),
            ;
            assert(vb == tb * pb) by (nonlinear_arith)
                requires
                    vb == (if nb { -(pb * mb) } else { pb * mb }),
                    tb == (if nb { -mb } else { mb }),
            ;
            lemma_aligned_sum(ta, sa as nat, tb, sb as nat, scale as nat);
            lemma_same_value_trans(
                text_numerator(r@),
                text_scale(r@),
                signed,
                scale as nat,
                ta * pow10(sb as nat) + tb * pow10(sa as nat),
                (sa + sb) as nat,
            );
        }
        Decimal(string_from_chars(r.as_slice()))
    }

    /// `self + other`, exactly and canonically written.
    pub fn add_exact(&self, other: &Self) -> (r: Self)
        ensures
            text_scale(r@) <= text_scale(self@) || text_scale(r@) <= text_scale(other@),
            same_frac(frac_of(r@), frac_add(frac_of(self@), frac_of(other@))),
            is_canonical_decimal(r@),
    {
        let r = self.combine(other, false);
        proof {
            use_type_invariant(&r);
        }
        r
    }

    /// `self - other`, exactly and canonically written.
    pub fn subtract_exact(&self, other: &Self) -> (r: Self)
        ensures
            text_scale(r@) <= text_scale(self@) || text_scale(r@) <= text_scale(other@),
            same_frac(frac_of(r@), frac_add(frac_of(self@), frac_neg(frac_of(other@)))),
    {
        self.combine(other, true)
    }

    /// `self * other`, exactly and canonically written, without rounding.
    pub fn multiply_exact(&self, other: &Self) -> (r: Self)
        requires
            text_scale(self@) + text_scale(other@) < usize::MAX,
        ensures
            text_scale(r@) <= text_scale(self@) + text_scale(other@),
            same_frac(frac_of(r@), frac_mul(frac_of(self@), frac_of(other@))),
    {
        proof {
            use_type_invariant(self);
            use_type_invariant(other);
        }
        let left = chars_of(self.0.as_str());
        let right = chars_of(other.0.as_str());
        let (na, da, sa) = scaled_parts(&left);
        let (nb, db, sb) = scaled_parts(&right);
        let digits = mul_digits(&da, &db);
        let r = scaled_text(na != nb, &digits, sa + sb);
        proof {
            let ma = lsb_value(da@) as int;
            let mb = lsb_value(db@) as int;
            let ta = text_numerator(self@);
            let tb = text_numerator(other@);
            assert(ta == (if na { -ma } else { ma }));
            assert(tb == (if nb { -mb } else { mb }));
            let p = lsb_value(digits@) as int;
            assert(p == ma * mb);
            assert((if na != nb { -p } else { p }) == ta * tb) by (nonlinear_arith)
                requires
                    p == ma * mb,
                    ta == (if na { -ma } else { ma }),
                    tb == (if nb { -mb } else { mb }),
            ;
        }
        Decimal(string_from_chars(r.as_slice()))
    }
}

/// The description of each way decimal text is rejected.
pub open spec fn decimal_fault_text(fault: NumberFault) -> Seq<char> {
    match fault {
        NumberFault::Empty => "must not be empty"@,
        NumberFault::Negative => "must not be negative"@,
        NumberFault::NoDigits => "must contain digits"@,
        NumberFault::ExponentNotAllowed => "exponent notation is not valid for an XSD decimal string"@,
        NumberFault::BadExponent => "has an invalid exponent"@,
        NumberFault::Syntax => "must use XSD decimal syntax"@,
        NumberFault::OutOfRange => "exponent is outside the supported normalization range"@,
    }
}

/// The description of a rejected decimal.
fn fault_message(fault: NumberFault) -> (r: &'static str)
    ensures
        r@ == decimal_fault_text(fault),
{
    match fault {
        NumberFault::Empty => "must not be empty",
        NumberFault::Negative => "must not be negative",
        NumberFault::NoDigits => "must contain digits",
        NumberFault::ExponentNotAllowed => "exponent notation is not valid for an XSD decimal string",
        NumberFault::BadExponent => "has an invalid exponent",
        NumberFault::Syntax => "must use XSD decimal syntax",
        NumberFault::OutOfRange => "exponent is outside the supported normalization range",
    }
}

// ---------------------------------------------------------------------------
// VAT rates, codes and dates
// ---------------------------------------------------------------------------

/// Canonical decimal text of a VAT rate from 0 to 1 inclusive: `0`, `1`, or
/// `0.` followed by fraction digits.
pub open spec fn percentage_text(s: Seq<char>) -> bool {
    s == seq!['0'] || s == seq!['1'] || (s.len() > 2 && s[0] == '0' && s[1] == '.')
}

/// A VAT rate in canonical form between 0 and 1 inclusive (20% is `0.2`).
#[derive(Debug, Eq, PartialEq)]
pub struct Percentage(Decimal);

impl View for Percentage {
    type V = Seq<char>;

    closed spec fn view(&self) -> Seq<char> {
        self.0@
    }
}

impl Clone for Percentage {
    fn clone(&self) -> (r: Self)
        ensures
            r == *self,
    {
        proof {
            use_type_invariant(self);
        }
        Percentage(self.0.clone())
    }
}

impl Percentage {
    #[verifier::type_invariant]
    spec fn in_range(self) -> bool {
        percentage_text(self.0@)
    }

    /// The VAT rate that `value` writes, when it is a decimal from 0 to 1.
    pub fn new(value: &str) -> (r: ModelResult<Self>)
        ensures
            r matches Ok(p) ==> decimal_canonical(value@, false) == Some(p@) && percentage_text(
                p@,
            ),
            r is Err <==> (decimal_canonical(value@, false) is None || !percentage_text(
                decimal_canonical(value@, false)->0,
            )),
            decimal_canonical(value@, false) is None ==> (r matches Err(e) && e.field_spec() == "Decimal"),
            decimal_canonical(value@, false) matches Some(t) && !percentage_text(t) ==> (r matches Err(e)
                && e.field_spec() == "Percentage"),
    {
        let decimal = match Decimal::new(value) {
            Ok(d) => d,
            Err(e) => return Err(e),
        };
        Percentage::from_decimal(decimal)
    }

    /// A decimal as a VAT rate, when it lies from 0 to 1.
    pub fn from_decimal(value: Decimal) -> (r: ModelResult<Self>)
        ensures
            r matches Ok(p) ==> p@ == value@,
            r is Ok <==> percentage_text(value@),
            r matches Err(e) ==> e.field_spec() == "Percentage",
    {
        let chars = chars_of(value.as_str());
        let valid = (chars.len() == 1 && (chars[0] == '0' || chars[0] == '1')) || (chars.len() > 2
            && chars[0] == '0' && chars[1] == '.');
        if valid {
            proof {
                if chars.len() == 1 {
                    assert(chars@ =~= seq![chars@[0]]);
                }
            }
            Ok(Percentage(value))
        } else {
            Err(
                InvoiceModelError::invalid(
                    "Percentage",
                    "must be in the canonical VAT range from 0 to 1 inclusive",
                ),
            )
        }
    }

    /// The rate as a decimal.
    pub fn as_decimal(&self) -> (r: &Decimal)
        ensures
            r@ == self@,
    {
        &self.0
    }

    /// The canonical text of the rate.
    pub fn as_str(&self) -> (r: &str)
        ensures
            r@ == self@,
            percentage_text(self@),
            is_canonical_decimal(self@),
    {
        proof {
            use_type_invariant(self);
        }
        self.0.as_str()
    }
}

/// Exactly three ASCII uppercase letters.
pub open spec fn code_text(s: Seq<char>) -> bool {
    s.len() == 3 && forall|i: int| 0 <= i < 3 ==> 'A' <= #[trigger] s[i] <= 'Z'
}

/// Whether `value` holds exactly three ASCII uppercase letters.
fn is_code(value: &str) -> (r: bool)
    ensures
        r == code_text(value@),
{
    let chars = chars_of(value);
    if chars.len() != 3 {
        return false;
    }
    let mut i: usize = 0;
    while i < 3
        invariant
            i <= 3,
            chars@ == value@,
            chars@.len() == 3,
            forall|k: int| 0 <= k < i ==> 'A' <= #[trigger] chars@[k] <= 'Z',
        decreases 3 - i,
    {
        if !('A' <= chars[i] && chars[i] <= 'Z') {
            return false;
        }
        i = i + 1;
    }
    true
}

/// An ISO 4217 currency code: three ASCII uppercase letters.
#[derive(Debug, Eq, PartialEq)]
pub struct CurrencyCode(String);

impl View for CurrencyCode {
    type V = Seq<char>;

    closed spec fn view(&self) -> Seq<char> {
        self.0@
    }
}

impl Clone for CurrencyCode {
    fn clone(&self) -> (r: Self)
        ensures
            r == *self,
    {
        proof {
            use_type_invariant(self);
        }
        CurrencyCode(self.0.clone())
    }
}

impl CurrencyCode {
    #[verifier::type_invariant]
    spec fn well_formed(self) -> bool {
        code_text(self.0@)
    }

    /// The currency code `value`, when it is three ASCII uppercase letters.
    pub fn new(value: &str) -> (r: ModelResult<Self>)
        ensures
            r matches Ok(c) ==> c@ == value@,
            r is Ok <==> code_text(value@),
            r matches Err(e) ==> e.field_spec() == "CurrencyCode",
    {
        if is_code(value) {
            Ok(CurrencyCode(value.to_owned()))
        } else {
            Err(
                InvoiceModelError::invalid(
                    "CurrencyCode",
                    "must contain exactly three ASCII uppercase letters",
                ),
            )
        }
    }

    /// The code.
    pub fn as_str(&self) -> (r: &str)
        ensures
            r@ == self@,
            code_text(self@),
    {
        proof {
            use_type_invariant(self);
        }
        self.0.as_str()
    }
}

/// An ISO 3166 alpha-3 country code: three ASCII uppercase letters.
#[derive(Debug, Eq, PartialEq)]
pub struct CountryCode(String);

impl View for CountryCode {
    type V = Seq<char>;

    closed spec fn view(&self) -> Seq<char> {
        self.0@
    }
}

impl Clone for CountryCode {
    fn clone(&self) -> (r: Self)
        ensures
            r == *self,
    {
        proof {
            use_type_invariant(self);
        }
        CountryCode(self.0.clone())
    }
}

impl CountryCode {
    #[verifier::type_invariant]
    spec fn well_formed(self) -> bool {
        code_text(self.0@)
    }

    /// The country code `value`, when it is three ASCII uppercase letters.
    pub fn new(value: &str) -> (r: ModelResult<Self>)
        ensures
            r matches Ok(c) ==> c@ == value@,
            r is Ok <==> code_text(value@),
            r matches Err(e) ==> e.field_spec() == "CountryCode",
    {
        if is_code(value) {
            Ok(CountryCode(value.to_owned()))
        } else {
            Err(
                InvoiceModelError::invalid(
                    "CountryCode",
                    "must contain exactly three ASCII uppercase letters",
                ),
            )
        }
    }

    /// The code.
    pub fn as_str(&self) -> (r: &str)
        ensures
            r@ == self@,
            code_text(self@),
    {
        proof {
            use_type_invariant(self);
        }
        self.0.as_str()
    }
}

/// A valid calendar date written `YYYY-MM-DD`.
pub open spec fn date_text(s: Seq<char>) -> bool {
    iso_date_shape(s) && valid_ymd(iso_ymd(s).0, iso_ymd(s).1, iso_ymd(s).2)
}

/// A calendar date in `YYYY-MM-DD` form.
#[derive(Debug, Eq, PartialEq)]
pub struct Date(String);

impl View for Date {
    type V = Seq<char>;

    closed spec fn view(&self) -> Seq<char> {
        self.0@
    }
}

impl Clone for Date {
    fn clone(&self) -> (r: Self)
        ensures
            r == *self,
    {
        proof {
            use_type_invariant(self);
        }
        Date(self.0.clone())
    }
}

/// Whether the characters `from..to` of `s` are ASCII digits.
fn digits_between(s: &Vec<char>, from: usize, to: usize) -> (r: bool)
    requires
        from <= to <= s@.len(),
    ensures
        r == crate::decimal::all_digit_chars(s@.subrange(from as int, to as int)),
{
    let mut i = from;
    while i < to
        invariant
            from <= i <= to <= s@.len(),
            crate::decimal::all_digit_chars(s@.subrange(from as int, i as int)),
        decreases to - i,
    {
        if !('0' <= s[i] && s[i] <= '9') {
            assert(s@.subrange(from as int, to as int)[i - from] == s@[i as int]);
            return false;
        }
        i = i + 1;
    }
    true
}

impl Date {
    #[verifier::type_invariant]
    spec fn well_formed(self) -> bool {
        date_text(self.0@)
    }

    /// The date `value`, when it is a valid calendar date in `YYYY-MM-DD`
    /// form.
    pub fn new(value: &str) -> (r: ModelResult<Self>)
        ensures
            r matches Ok(d) ==> d@ == value@,
            r is Ok <==> date_text(value@),
            r matches Err(e) ==> e.field_spec() == "Date",
    {
        let chars = chars_of(value);
        if chars.len() != 10 || chars[4] != '-' || chars[7] != '-' || !digits_between(&chars, 0, 4)
            || !digits_between(&chars, 5, 7) || !digits_between(&chars, 8, 10) {
            proof {
                if chars@.len() == 10 {
                    assert(chars@.subrange(0, 4) =~= chars@.take(4));
                }
            }
            return Err(
                InvoiceModelError::invalid("Date", "must be a valid calendar date in YYYY-MM-DD form"),
            );
        }
        assert(chars@.subrange(0, 4) =~= chars@.take(4));
        assert(iso_date_shape(value@));
        match parse_date(value, "%Y-%m-%d") {
            Some(_) => Ok(Date(value.to_owned())),
            None => Err(
                InvoiceModelError::invalid("Date", "must be a valid calendar date in YYYY-MM-DD form"),
            ),
        }
    }

    /// The date as `YYYY-MM-DD`.
    pub fn as_str(&self) -> (r: &str)
        ensures
            r@ == self@,
            date_text(self@),
    {
        proof {
            use_type_invariant(self);
        }
        self.0.as_str()
    }
}

// ---------------------------------------------------------------------------
// Payment means
// ---------------------------------------------------------------------------

/// One way of paying an invoice.
#[derive(Clone, Copy, Debug, PartialEq, Eq, Structural)]
pub enum PaymentMean {
    MoneyTransfer,
    Cash,
    CashOnDelivery,
    CreditCard,
    Advance,
    MutualOffset,
    Other,
}

/// The bit of a payment mean in the payment-means classifier.
pub open spec fn mean_bit(m: PaymentMean) -> u8 {
    match m {
        PaymentMean::MoneyTransfer => 1,
        PaymentMean::Cash => 2,
        PaymentMean::CashOnDelivery => 4,
        PaymentMean::CreditCard => 8,
        PaymentMean::Advance => 16,
        PaymentMean::MutualOffset => 32,
        PaymentMean::Other => 64,
    }
}

/// The schema name of a payment mean.
pub open spec fn mean_name(m: PaymentMean) -> Seq<char> {
    match m {
        PaymentMean::MoneyTransfer => "moneyTransfer"@,
        PaymentMean::Cash => "cash"@,
        PaymentMean::CashOnDelivery => "cashOnDelivery"@,
        PaymentMean::CreditCard => "creditCard"@,
        PaymentMean::Advance => "advance"@,
        PaymentMean::MutualOffset => "mutualOffset"@,
        PaymentMean::Other => "other"@,
    }
}

/// The payment mean whose schema name is `name`.
pub open spec fn mean_named(name: Seq<char>) -> Option<PaymentMean> {
    if name == "moneyTransfer"@ {
        Some(PaymentMean::MoneyTransfer)
    } else if name == "cash"@ {
        Some(PaymentMean::Cash)
    } else if name == "cashOnDelivery"@ {
        Some(PaymentMean::CashOnDelivery)
    } else if name == "creditCard"@ {
        Some(PaymentMean::CreditCard)
    } else if name == "advance"@ {
        Some(PaymentMean::Advance)
    } else if name == "mutualOffset"@ {
        Some(PaymentMean::MutualOffset)
    } else if name == "other"@ {
        Some(PaymentMean::Other)
    } else {
        None
    }
}

impl PaymentMean {
    /// The bit of the payment mean in the payment-means classifier.
    pub fn classifier(self) -> (r: u8)
        ensures
            r == mean_bit(self),
    {
        match self {
            PaymentMean::MoneyTransfer => 1,
            PaymentMean::Cash => 2,
            PaymentMean::CashOnDelivery => 4,
            PaymentMean::CreditCard => 8,
            PaymentMean::Advance => 16,
            PaymentMean::MutualOffset => 32,
            PaymentMean::Other => 64,
        }
    }

    /// The schema name of the payment mean.
    pub fn as_str(self) -> (r: &'static str)
        ensures
            r@ == mean_name(self),
    {
        match self {
            PaymentMean::MoneyTransfer => "moneyTransfer",
            PaymentMean::Cash => "cash",
            PaymentMean::CashOnDelivery => "cashOnDelivery",
            PaymentMean::CreditCard => "creditCard",
            PaymentMean::Advance => "advance",
            PaymentMean::MutualOffset => "mutualOffset",
            PaymentMean::Other => "other",
        }
    }

    /// The payment mean with schema name `value`.
    pub fn from_name(value: &str) -> (r: ModelResult<Self>)
        ensures
            r matches Ok(m) ==> mean_named(value@) == Some(m),
            r matches Err(e) ==> mean_named(value@) is None && e.field_spec() == "PaymentMeans",
    {
        if same_text(value, "moneyTransfer") {
            Ok(PaymentMean::MoneyTransfer)
        } else if same_text(value, "cash") {
            Ok(PaymentMean::Cash)
        } else if same_text(value, "cashOnDelivery") {
            Ok(PaymentMean::CashOnDelivery)
        } else if same_text(value, "creditCard") {
            Ok(PaymentMean::CreditCard)
        } else if same_text(value, "advance") {
            Ok(PaymentMean::Advance)
        } else if same_text(value, "mutualOffset") {
            Ok(PaymentMean::MutualOffset)
        } else if same_text(value, "other") {
            Ok(PaymentMean::Other)
        } else {
            Err(InvoiceModelError::invalid("PaymentMeans", "unknown value"))
        }
    }
}

impl core::str::FromStr for PaymentMean {
    type Err = InvoiceModelError;

    fn from_str(value: &str) -> (r: ModelResult<Self>)
        ensures
            r matches Ok(m) ==> mean_named(value@) == Some(m),
            r matches Err(e) ==> mean_named(value@) is None && e.field_spec() == "PaymentMeans",
    {
        PaymentMean::from_name(value)
    }
}

/// The classifier bits of a list of payment means, or-ed together.
pub open spec fn means_mask(means: Seq<PaymentMean>) -> u8
    decreases means.len(),
{
    if means.len() == 0 {
        0
    } else {
        means_mask(means.drop_last()) | mean_bit(means.last())
    }
}

proof fn lemma_single_bits()
    by (bit_vector)
    ensures
        1u8 << 0u8 == 1u8,
        1u8 << 1u8 == 2u8,
        1u8 << 2u8 == 4u8,
        1u8 << 3u8 == 8u8,
        1u8 << 4u8 == 16u8,
        1u8 << 5u8 == 32u8,
        1u8 << 6u8 == 64u8,
{
}

proof fn lemma_bits_meet(i: u8, j: u8)
    by (bit_vector)
    requires
        i < 8,
        j < 8,
    ensures
        ((1u8 << i) & (1u8 << j) != 0) <==> i == j,
{
}

proof fn lemma_or_meets(x: u8, a: u8, b: u8)
    by (bit_vector)
    ensures
        ((x | a) & b != 0) <==> (x & b != 0 || a & b != 0),
        0u8 & b == 0,
{
}

/// The bits of two payment means meet exactly when they are the same mean.
proof fn lemma_mean_bits_meet(a: PaymentMean, b: PaymentMean)
    ensures
        (mean_bit(a) & mean_bit(b) != 0) <==> a == b,
{
    lemma_single_bits();
    let i = mean_position(a) as u8;
    let j = mean_position(b) as u8;
    assert(mean_bit(a) == 1u8 << i);
    assert(mean_bit(b) == 1u8 << j);
    lemma_bits_meet(i, j);
}

/// The mask of a list of payment means holds a mean's bit exactly when the
/// list holds the mean, so that `PaymentMeans::contains` answers membership
/// in the list the set was made from.
pub proof fn lemma_means_mask_contains(means: Seq<PaymentMean>, m: PaymentMean)
    ensures
        (means_mask(means) & mean_bit(m) != 0) <==> means.contains(m),
    decreases means.len(),
{
    lemma_or_meets(0, 0, mean_bit(m));
    if means.len() > 0 {
        let init = means.drop_last();
        lemma_means_mask_contains(init, m);
        lemma_or_meets(means_mask(init), mean_bit(means.last()), mean_bit(m));
        lemma_mean_bits_meet(means.last(), m);
        assert(means =~= init.push(means.last()));
        if init.contains(m) {
            let k = choose|k: int| 0 <= k < init.len() && init[k] == m;
            assert(means[k] == m);
        }
        if means.contains(m) && means.last() != m {
            let k = choose|k: int| 0 <= k < means.len() && means[k] == m;
            assert(k < init.len());
            assert(init[k] == m);
        }
        if means.last() == m {
            assert(means[means.len() - 1] == m);
        }
    }
}

/// Whether some payment mean occurs twice in `means`.
pub open spec fn has_repeated_mean(means: Seq<PaymentMean>) -> bool {
    exists|i: int, j: int| 0 <= i < j < means.len() && means[i] == means[j]
}

/// The position of a payment mean among the seven.
spec fn mean_position(m: PaymentMean) -> int {
    match m {
        PaymentMean::MoneyTransfer => 0,
        PaymentMean::Cash => 1,
        PaymentMean::CashOnDelivery => 2,
        PaymentMean::CreditCard => 3,
        PaymentMean::Advance => 4,
        PaymentMean::MutualOffset => 5,
        PaymentMean::Other => 6,
    }
}

fn mean_slot(m: PaymentMean) -> (r: usize)
    ensures
        r == mean_position(m),
        r < 7,
{
    match m {
        PaymentMean::MoneyTransfer => 0,
        PaymentMean::Cash => 1,
        PaymentMean::CashOnDelivery => 2,
        PaymentMean::CreditCard => 3,
        PaymentMean::Advance => 4,
        PaymentMean::MutualOffset => 5,
        PaymentMean::Other => 6,
    }
}

/// A non-empty set of payment means as its classifier, from 1 to 127.
#[derive(Clone, Copy, Debug, PartialEq, Eq)]
pub struct PaymentMeans(u8);

impl View for PaymentMeans {
    type V = u8;

    closed spec fn view(&self) -> u8 {
        self.0
    }
}

impl PaymentMeans {
    #[verifier::type_invariant]
    spec fn in_range(self) -> bool {
        1 <= self.0 <= 127
    }

    /// The set of `means`; it must be non-empty and free of repetitions.
    pub fn new(means: &[PaymentMean]) -> (r: ModelResult<Self>)
        ensures
            r matches Ok(p) ==> p@ == means_mask(means@),
            r is Ok <==> means@.len() > 0 && !has_repeated_mean(means@),
            r matches Err(e) ==> e.field_spec() == "PaymentMeans",
    {
        let mut seen: Vec<bool> = vec![false, false, false, false, false, false, false];
        let mut classifier: u8 = 0;
        let mut i: usize = 0;
        while i < means.len()
            invariant
                i <= means@.len(),
                seen@.len() == 7,
                classifier == means_mask(means@.take(i as int)),
                classifier <= 127,
                i > 0 ==> classifier >= 1,
                !has_repeated_mean(means@.take(i as int)),
                forall|k: int| 0 <= k < 7 ==> (#[trigger] seen@[k] <==> exists|j: int|
                    0 <= j < i && mean_position(means@[j]) == k),
            decreases means.len() - i,
        {
            let mean = means[i];
            let slot = mean_slot(mean);
            if seen[slot] {
                proof {
                    let j = choose|j: int| 0 <= j < i && mean_position(means@[j]) == slot;
                    assert(means@[j] == mean);
                    assert(0 <= j < i as int && means@[j] == means@[i as int]);
                }
                return Err(InvoiceModelError::invalid("PaymentMeans", "contains a duplicate value"));
            }
            let bit = mean.classifier();
            assert(means@.take(i + 1).drop_last() =~= means@.take(i as int));
            let old = classifier;
            assert((old | bit) <= 127 && (old | bit) >= bit) by (bit_vector)
                requires
                    old <= 127,
                    bit <= 64,
            ;
            classifier = classifier | bit;
            seen.set(slot, true);
            proof {
                let t = means@.take(i + 1);
                if has_repeated_mean(t) {
                    let (a, b) = choose|a: int, b: int| 0 <= a < b < t.len() && t[a] == t[b];
                    if b == i {
                        assert(mean_position(means@[a]) == slot);
                        assert(seen@[slot as int]);
                    } else {
                        assert(means@.take(i as int)[a] == t[a]);
                        assert(means@.take(i as int)[b] == t[b]);
                        assert(has_repeated_mean(means@.take(i as int)));
                    }
                }
                assert forall|k: int| 0 <= k < 7 implies (#[trigger] seen@[k] <==> exists|j: int|
                    0 <= j < i + 1 && mean_position(means@[j]) == k) by {
                    if k == slot {
                        assert(mean_position(means@[i as int]) == k);
                    }
                }
            }
            i = i + 1;
        }
        assert(means@.take(i as int) =~= means@);
        if classifier == 0 {
            return Err(InvoiceModelError::invalid("PaymentMeans", "must contain at least one value"));
        }
        Ok(PaymentMeans(classifier))
    }

    /// The set with classifier `classifier`, from 1 to 127.
    pub fn from_classifier(classifier: u8) -> (r: ModelResult<Self>)
        ensures
            r matches Ok(p) ==> p@ == classifier,
            r is Ok <==> 1 <= classifier <= 127,
            r matches Err(e) ==> e.field_spec() == "PaymentMeans",
    {
        if 1 <= classifier && classifier <= 127 {
            Ok(PaymentMeans(classifier))
        } else {
            Err(InvoiceModelError::invalid("PaymentMeans", "unknown classifier"))
        }
    }

    /// The classifier of the set.
    pub fn classifier(self) -> (r: u8)
        ensures
            r == self@,
            1 <= r <= 127,
    {
        proof {
            use_type_invariant(&self);
        }
        self.0
    }

    /// Whether the set holds `mean`.
    pub fn contains(self, mean: PaymentMean) -> (r: bool)
        ensures
            r == (self@ & mean_bit(mean) != 0),
    {
        self.0 & mean.classifier() != 0
    }
}

// ---------------------------------------------------------------------------
// The document
// ---------------------------------------------------------------------------

/// An INVOICE by square document: its type and its data.
#[derive(Clone, Debug, Eq, PartialEq)]
pub struct Invoice {
    pub document_type: DocumentType,
    pub data: InvoiceData,
}

/// The data of an INVOICE by square document.
#[derive(Clone, Debug, Eq, PartialEq)]
pub struct InvoiceData {
    pub invoice_id: String,
    pub issue_date: Date,
    pub tax_point_date: Option<Date>,
    pub order_id: Option<String>,
    pub delivery_note_id: Option<String>,
    pub local_currency_code: CurrencyCode,
    pub foreign_currency_code: Option<CurrencyCode>,
    pub curr_rate: Option<Decimal>,
    pub reference_curr_rate: Option<Decimal>,
    pub supplier_party: SupplierParty,
    pub customer_party: CustomerParty,
    pub number_of_invoice_lines: Option<i64>,
    pub invoice_description: Option<String>,
    pub single_invoice_line: Option<SingleInvoiceLine>,
    pub tax_category_summaries: TaxCategorySummaries,
    pub monetary_summary: MonetarySummary,
    pub payment_means: Option<PaymentMeans>,
}

/// The supplier of an invoice.
#[derive(Clone, Debug, Eq, PartialEq)]
pub struct SupplierParty {
    pub party_name: String,
    pub company_tax_id: Option<String>,
    pub company_vat_id: Option<String>,
    pub company_register_id: Option<String>,
    pub postal_address: PostalAddress,
    pub contact: Option<Contact>,
}

/// The customer of an invoice.
#[derive(Clone, Debug, Eq, PartialEq)]
pub struct CustomerParty {
    pub party_name: String,
    pub company_tax_id: Option<String>,
    pub company_vat_id: Option<String>,
    pub company_register_id: Option<String>,
    pub party_identification: Option<String>,
}

/// The supplier's postal address.
#[derive(Clone, Debug, Eq, PartialEq)]
pub struct PostalAddress {
    pub street_name: String,
    pub building_number: Option<String>,
    pub city_name: String,
    pub postal_zone: String,
    pub state: Option<String>,
    pub country: CountryCode,
}

/// The supplier's contact.
#[derive(Clone, Debug, Eq, PartialEq)]
pub struct Contact {
    pub name: Option<String>,
    pub telephone: Option<String>,
    pub email: Option<String>,
}

/// The one line of a single-line invoice.
#[derive(Clone, Debug, Eq, PartialEq)]
pub struct SingleInvoiceLine {
    pub order_line_id: Option<String>,
    pub delivery_note_line_id: Option<String>,
    pub item_name: Option<String>,
    pub item_ean_code: Option<String>,
    pub period_from_date: Option<Date>,
    pub period_to_date: Option<Date>,
    pub invoiced_quantity: Decimal,
    pub unit_price_tax_exclusive_amount: Option<Decimal>,
    pub unit_price_tax_inclusive_amount: Option<Decimal>,
    pub unit_price_tax_amount: Option<Decimal>,
}

/// The tax summaries of an invoice, one per VAT rate.
#[derive(Clone, Debug, Eq, PartialEq)]
pub struct TaxCategorySummaries {
    pub tax_category_summary: Vec<TaxCategorySummary>,
}

/// The amounts taxed at one VAT rate.
#[derive(Clone, Debug, Eq, PartialEq)]
pub struct TaxCategorySummary {
    pub classified_tax_category: Percentage,
    pub tax_exclusive_amount: Decimal,
    pub tax_inclusive_amount: Option<Decimal>,
    pub tax_amount: Decimal,
    pub already_claimed_tax_exclusive_amount: Decimal,
    pub already_claimed_tax_inclusive_amount: Option<Decimal>,
    pub already_claimed_tax_amount: Decimal,
    pub difference_tax_exclusive_amount: Option<Decimal>,
    pub difference_tax_inclusive_amount: Option<Decimal>,
    pub difference_tax_amount: Option<Decimal>,
}

/// The monetary summary of an invoice; only the rounding and paid deposits
/// are transported, the rest are computed.
#[derive(Clone, Debug, Eq, PartialEq)]
pub struct MonetarySummary {
    pub tax_exclusive_amount: Option<Decimal>,
    pub tax_inclusive_amount: Option<Decimal>,
    pub tax_amount: Option<Decimal>,
    pub already_claimed_tax_exclusive_amount: Option<Decimal>,
    pub already_claimed_tax_inclusive_amount: Option<Decimal>,
    pub already_claimed_tax_amount: Option<Decimal>,
    pub difference_tax_exclusive_amount: Option<Decimal>,
    pub difference_tax_inclusive_amount: Option<Decimal>,
    pub difference_tax_amount: Option<Decimal>,
    pub payable_rounding_amount: Decimal,
    pub paid_deposits_amount: Decimal,
    pub payable_amount: Option<Decimal>,
}

/// The computed amounts of one tax category.
#[derive(Clone, Debug, Eq, PartialEq)]
pub struct TaxCategoryCalculation {
    pub tax_exclusive_amount: Decimal,
    pub tax_inclusive_amount: Decimal,
    pub tax_amount: Decimal,
    pub already_claimed_tax_exclusive_amount: Decimal,
    pub already_claimed_tax_inclusive_amount: Decimal,
    pub already_claimed_tax_amount: Decimal,
    pub difference_tax_exclusive_amount: Decimal,
    pub difference_tax_inclusive_amount: Decimal,
    pub difference_tax_amount: Decimal,
}

/// The computed monetary summary of an invoice.
#[derive(Clone, Debug, Eq, PartialEq)]
pub struct MonetarySummaryCalculation {
    pub tax_exclusive_amount: Decimal,
    pub tax_inclusive_amount: Decimal,
    pub tax_amount: Decimal,
    pub already_claimed_tax_exclusive_amount: Decimal,
    pub already_claimed_tax_inclusive_amount: Decimal,
    pub already_claimed_tax_amount: Decimal,
    pub difference_tax_exclusive_amount: Decimal,
    pub difference_tax_inclusive_amount: Decimal,
    pub difference_tax_amount: Decimal,
    pub payable_amount: Decimal,
}

/// All sums and differences of an invoice.
#[derive(Clone, Debug, Eq, PartialEq)]
pub struct InvoiceTotalsCalculation {
    pub tax_category_summaries: Vec<TaxCategoryCalculation>,
    pub monetary_summary: MonetarySummaryCalculation,
}

/// The computed unit prices of a single-line invoice.
#[derive(Clone, Debug, Eq, PartialEq)]
pub struct SingleInvoiceLineCalculation {
    pub unit_price_tax_exclusive_amount: Decimal,
    pub unit_price_tax_inclusive_amount: Decimal,
    pub unit_price_tax_amount: Decimal,
}

/// Every computed value of an invoice.
#[derive(Clone, Debug, Eq, PartialEq)]
pub struct InvoiceCalculation {
    pub totals: InvoiceTotalsCalculation,
    pub single_invoice_line: Option<SingleInvoiceLineCalculation>,
}

/// Exact division of decimals, which the caller supplies so that no rounding
/// rule is implied for non-terminating quotients.
pub trait DecimalDivision {
    type Error;

    /// What the division gives for a dividend and a divisor: the quotient,
    /// or the implementation's error. An implementation outside verified
    /// code writes it as the function that `divide` computes.
    spec fn quotient(&self, dividend: Decimal, divisor: Decimal) -> core::result::Result<Decimal, Self::Error>;

    fn divide(&self, dividend: &Decimal, divisor: &Decimal) -> (r: core::result::Result<Decimal, Self::Error>)
        ensures
            r == self.quotient(*dividend, *divisor),
    ;
}

/// The calculation of a single-line invoice from its totals: its net, gross
/// and tax totals, in that order, each divided by the line's invoiced
/// quantity into the three unit prices; the first failing division's error
/// is the result.
pub open spec fn single_line_outcome<D: DecimalDivision>(
    division: D,
    totals: InvoiceTotalsCalculation,
    line: SingleInvoiceLine,
) -> core::result::Result<InvoiceCalculation, D::Error> {
    let m = totals.monetary_summary;
    let q = line.invoiced_quantity;
    match division.quotient(m.tax_exclusive_amount, q) {
        Err(e) => Err(e),
        Ok(net) => match division.quotient(m.tax_inclusive_amount, q) {
            Err(e) => Err(e),
            Ok(gross) => match division.quotient(m.tax_amount, q) {
                Err(e) => Err(e),
                Ok(tax) => Ok(
                    InvoiceCalculation {
                        totals,
                        single_invoice_line: Some(
                            SingleInvoiceLineCalculation {
                                unit_price_tax_exclusive_amount: net,
                                unit_price_tax_inclusive_amount: gross,
                                unit_price_tax_amount: tax,
                            },
                        ),
                    },
                ),
            },
        },
    }
}

// ---------------------------------------------------------------------------
// Validation
// ---------------------------------------------------------------------------

/// Which rule of a single invoice line is broken, if any.
pub open spec fn single_line_error(line: SingleInvoiceLine) -> Option<&'static str> {
    if (line.item_name is Some) == (line.item_ean_code is Some) {
        Some("SingleInvoiceLine")
    } else if (line.period_from_date is Some) != (line.period_to_date is Some) {
        Some("SingleInvoiceLine")
    } else {
        None
    }
}

/// Which rule of the invoice data is broken first, by the field it names;
/// `None` when the data is valid.
pub open spec fn invoice_data_error(d: InvoiceData) -> Option<&'static str> {
    let foreign = d.foreign_currency_code is Some;
    let rate = d.curr_rate is Some;
    let reference = d.reference_curr_rate is Some;
    if (foreign || rate || reference) && !(foreign && rate && reference) {
        Some("ForeignCurrencyCode")
    } else if d.number_of_invoice_lines is Some && (d.number_of_invoice_lines->0 < 0
        || d.number_of_invoice_lines->0 == 1) {
        Some("NumberOfInvoiceLines")
    } else if !(d.number_of_invoice_lines is Some && d.single_invoice_line is None) && !(
    d.number_of_invoice_lines is None && d.single_invoice_line is Some && d.invoice_description
        is None) {
        Some("Invoice lines")
    } else if d.single_invoice_line is Some && single_line_error(d.single_invoice_line->0) is Some {
        single_line_error(d.single_invoice_line->0)
    } else if d.tax_category_summaries.tax_category_summary@.len() == 0 {
        Some("TaxCategorySummaries")
    } else {
        None
    }
}

impl SingleInvoiceLine {
    /// Checks the line's own rules.
    pub fn validate(&self) -> (r: ModelResult<()>)
        ensures
            r is Ok <==> single_line_error(*self) is None,
            r matches Err(e) ==> single_line_error(*self) == Some(e.field_spec()),
    {
        if self.item_name.is_some() == self.item_ean_code.is_some() {
            return Err(
                InvoiceModelError::invalid(
                    "SingleInvoiceLine",
                    "exactly one of ItemName and ItemEANCode is required",
                ),
            );
        }
        if self.period_from_date.is_some() != self.period_to_date.is_some() {
            return Err(
                InvoiceModelError::invalid(
                    "SingleInvoiceLine",
                    "PeriodFromDate and PeriodToDate must occur together",
                ),
            );
        }
        Ok(())
    }
}

impl InvoiceData {
    /// Checks the data's rules in order; the first broken one is reported.
    pub fn validate(&self) -> (r: ModelResult<()>)
        ensures
            r is Ok <==> invoice_data_error(*self) is None,
            r matches Err(e) ==> invoice_data_error(*self) == Some(e.field_spec()),
    {
        let foreign = self.foreign_currency_code.is_some();
        let rate = self.curr_rate.is_some();
        let reference = self.reference_curr_rate.is_some();
        if (foreign || rate || reference) && !(foreign && rate && reference) {
            return Err(
                InvoiceModelError::invalid(
                    "ForeignCurrencyCode",
                    "ForeignCurrencyCode, CurrRate, and ReferenceCurrRate must occur together",
                ),
            );
        }
        match self.number_of_invoice_lines {
            Some(value) => {
                if value < 0 || value == 1 {
                    return Err(
                        InvoiceModelError::invalid(
                            "NumberOfInvoiceLines",
                            "must be 0 for a header-only invoice or at least 2 for a multi-line invoice; use SingleInvoiceLine for one line",
                        ),
                    );
                }
            },
            None => {},
        }
        match &self.single_invoice_line {
            None => {
                if self.number_of_invoice_lines.is_none() {
                    return Err(
                        InvoiceModelError::invalid(
                            "Invoice lines",
                            "choose NumberOfInvoiceLines (with optional InvoiceDescription) or SingleInvoiceLine",
                        ),
                    );
                }
            },
            Some(line) => {
                if self.number_of_invoice_lines.is_some() || self.invoice_description.is_some() {
                    return Err(
                        InvoiceModelError::invalid(
                            "Invoice lines",
                            "choose NumberOfInvoiceLines (with optional InvoiceDescription) or SingleInvoiceLine",
                        ),
                    );
                }
                line.validate()?;
            },
        }
        if self.tax_category_summaries.tax_category_summary.len() == 0 {
            return Err(
                InvoiceModelError::invalid(
                    "TaxCategorySummaries",
                    "must contain at least one TaxCategorySummary",
                ),
            );
        }
        Ok(())
    }
}

impl Invoice {
    /// A validated invoice of the given type and data.
    pub fn new(document_type: DocumentType, data: InvoiceData) -> (r: ModelResult<Self>)
        ensures
            r matches Ok(invoice) ==> invoice.document_type == document_type && invoice.data
                == data,
            r is Ok <==> invoice_data_error(data) is None,
            r matches Err(e) ==> invoice_data_error(data) == Some(e.field_spec()),
    {
        let invoice = Invoice { document_type, data };
        invoice.validate()?;
        Ok(invoice)
    }

    /// Checks the invoice's rules; see [`invoice_data_error`].
    pub fn validate(&self) -> (r: ModelResult<()>)
        ensures
            r is Ok <==> invoice_data_error(self.data) is None,
            r matches Err(e) ==> invoice_data_error(self.data) == Some(e.field_spec()),
    {
        self.data.validate()
    }
}

// ---------------------------------------------------------------------------
// Computed values
// ---------------------------------------------------------------------------

/// The decimal zero.
fn zero_decimal() -> (r: Decimal)
    ensures
        r@ == seq!['0'],
        frac_of(r@) == frac_zero(),
{
    proof {
        reveal_strlit("0");
        assert("0"@ =~= seq!['0']);
        crate::decimal::lemma_zero_text(seq!['0']);
        crate::decimal::lemma_index_of_absent(seq!['0'], '.');
        assert(seq!['0'].take(1) =~= seq!['0']);
    }
    Decimal("0".to_owned())
}

/// Whether `c` holds the computed amounts of tax category `s`: the
/// transported amounts, the tax-inclusive sums and the differences between
/// the invoiced and already claimed amounts, each exact.
pub open spec fn category_calculation_ok(s: TaxCategorySummary, c: TaxCategoryCalculation) -> bool {
    &&& c.tax_exclusive_amount@ == s.tax_exclusive_amount@
    &&& c.tax_amount@ == s.tax_amount@
    &&& c.already_claimed_tax_exclusive_amount@ == s.already_claimed_tax_exclusive_amount@
    &&& c.already_claimed_tax_amount@ == s.already_claimed_tax_amount@
    &&& same_frac(
        frac_of(c.tax_inclusive_amount@),
        frac_add(frac_of(s.tax_exclusive_amount@), frac_of(s.tax_amount@)),
    )
    &&& same_frac(
        frac_of(c.already_claimed_tax_inclusive_amount@),
        frac_add(
            frac_of(s.already_claimed_tax_exclusive_amount@),
            frac_of(s.already_claimed_tax_amount@),
        ),
    )
    &&& same_frac(
        frac_of(c.difference_tax_exclusive_amount@),
        frac_add(
            frac_of(s.tax_exclusive_amount@),
            frac_neg(frac_of(s.already_claimed_tax_exclusive_amount@)),
        ),
    )
    &&& same_frac(
        frac_of(c.difference_tax_inclusive_amount@),
        frac_add(
            frac_of(c.tax_inclusive_amount@),
            frac_neg(frac_of(c.already_claimed_tax_inclusive_amount@)),
        ),
    )
    &&& same_frac(
        frac_of(c.difference_tax_amount@),
        frac_add(frac_of(s.tax_amount@), frac_neg(frac_of(s.already_claimed_tax_amount@))),
    )
}

/// The `which`-th amount (0 to 8, in declaration order) of a tax category
/// calculation.
pub open spec fn category_amount(c: TaxCategoryCalculation, which: int) -> Seq<char> {
    if which == 0 {
        c.tax_exclusive_amount@
    } else if which == 1 {
        c.tax_inclusive_amount@
    } else if which == 2 {
        c.tax_amount@
    } else if which == 3 {
        c.already_claimed_tax_exclusive_amount@
    } else if which == 4 {
        c.already_claimed_tax_inclusive_amount@
    } else if which == 5 {
        c.already_claimed_tax_amount@
    } else if which == 6 {
        c.difference_tax_exclusive_amount@
    } else if which == 7 {
        c.difference_tax_inclusive_amount@
    } else {
        c.difference_tax_amount@
    }
}

/// The `which`-th amount (0 to 8, in declaration order) of a computed
/// monetary summary; each is the total of the same amount of the categories.
pub open spec fn summary_amount(m: MonetarySummaryCalculation, which: int) -> Seq<char> {
    if which == 0 {
        m.tax_exclusive_amount@
    } else if which == 1 {
        m.tax_inclusive_amount@
    } else if which == 2 {
        m.tax_amount@
    } else if which == 3 {
        m.already_claimed_tax_exclusive_amount@
    } else if which == 4 {
        m.already_claimed_tax_inclusive_amount@
    } else if which == 5 {
        m.already_claimed_tax_amount@
    } else if which == 6 {
        m.difference_tax_exclusive_amount@
    } else if which == 7 {
        m.difference_tax_inclusive_amount@
    } else {
        m.difference_tax_amount@
    }
}

/// The exact total of the `which`-th amount over tax category calculations.
pub open spec fn amount_total(cs: Seq<TaxCategoryCalculation>, which: int) -> (int, nat)
    decreases cs.len(),
{
    if cs.len() == 0 {
        frac_zero()
    } else {
        frac_add(amount_total(cs.drop_last(), which), frac_of(category_amount(cs.last(), which)))
    }
}

/// Whether `t` holds the computed totals of `invoice`: one calculation per
/// tax category, each summary amount the exact total over the categories,
/// and the payable amount the tax-inclusive difference less the paid
/// deposits plus the rounding.
pub open spec fn totals_ok(invoice: Invoice, t: InvoiceTotalsCalculation) -> bool {
    let summaries = invoice.data.tax_category_summaries.tax_category_summary@;
    let m = t.monetary_summary;
    &&& t.tax_category_summaries@.len() == summaries.len()
    &&& forall|k: int|
        0 <= k < summaries.len() ==> category_calculation_ok(
            #[trigger] summaries[k],
            t.tax_category_summaries@[k],
        )
    &&& forall|w: int|
        0 <= w < 9 ==> same_frac(
            frac_of(#[trigger] summary_amount(m, w)),
            amount_total(t.tax_category_summaries@, w),
        )
    &&& same_frac(
        frac_of(m.payable_amount@),
        frac_add(
            frac_add(
                frac_of(m.difference_tax_inclusive_amount@),
                frac_neg(frac_of(invoice.data.monetary_summary.paid_deposits_amount@)),
            ),
            frac_of(invoice.data.monetary_summary.payable_rounding_amount@),
        ),
    )
}

/// The `which`-th amount of a tax category calculation.
fn amount_of(c: &TaxCategoryCalculation, which: usize) -> (r: &Decimal)
    ensures
        r@ == category_amount(*c, which as int),
{
    if which == 0 {
        &c.tax_exclusive_amount
    } else if which == 1 {
        &c.tax_inclusive_amount
    } else if which == 2 {
        &c.tax_amount
    } else if which == 3 {
        &c.already_claimed_tax_exclusive_amount
    } else if which == 4 {
        &c.already_claimed_tax_inclusive_amount
    } else if which == 5 {
        &c.already_claimed_tax_amount
    } else if which == 6 {
        &c.difference_tax_exclusive_amount
    } else if which == 7 {
        &c.difference_tax_inclusive_amount
    } else {
        &c.difference_tax_amount
    }
}

/// The exact total of the `which`-th amount over the categories.
fn total_of(cs: &Vec<TaxCategoryCalculation>, which: usize) -> (r: Decimal)
    ensures
        same_frac(frac_of(r@), amount_total(cs@, which as int)),
{
    let mut total = zero_decimal();
    let mut i: usize = 0;
    assert(cs@.take(0) =~= Seq::<TaxCategoryCalculation>::empty());
    while i < cs.len()
        invariant
            i <= cs@.len(),
            same_frac(frac_of(total@), amount_total(cs@.take(i as int), which as int)),
        decreases cs.len() - i,
    {
        let value = amount_of(&cs[i], which);
        let next = total.add_exact(value);
        proof {
            let prefix = cs@.take(i as int);
            let f = frac_of(category_amount(cs@[i as int], which as int));
            assert(cs@.take(i + 1).drop_last() =~= prefix);
            lemma_frac_add_congruent(frac_of(total@), amount_total(prefix, which as int), f);
            lemma_same_frac_trans(
                frac_of(next@),
                frac_add(frac_of(total@), f),
                frac_add(amount_total(prefix, which as int), f),
            );
        }
        total = next;
        i = i + 1;
    }
    assert(cs@.take(cs@.len() as int) =~= cs@);
    total
}

impl TaxCategorySummary {
    /// The computed amounts of the category; see [`category_calculation_ok`].
    pub fn calculate(&self) -> (r: TaxCategoryCalculation)
        ensures
            category_calculation_ok(*self, r),
    {
        let tax_inclusive_amount = self.tax_exclusive_amount.add_exact(&self.tax_amount);
        let already_claimed_tax_inclusive_amount = self.already_claimed_tax_exclusive_amount.add_exact(
            &self.already_claimed_tax_amount,
        );
        let difference_tax_exclusive_amount = self.tax_exclusive_amount.subtract_exact(
            &self.already_claimed_tax_exclusive_amount,
        );
        let difference_tax_inclusive_amount = tax_inclusive_amount.subtract_exact(
            &already_claimed_tax_inclusive_amount,
        );
        let difference_tax_amount = self.tax_amount.subtract_exact(&self.already_claimed_tax_amount);
        TaxCategoryCalculation {
            tax_exclusive_amount: self.tax_exclusive_amount.clone(),
            tax_inclusive_amount,
            tax_amount: self.tax_amount.clone(),
            already_claimed_tax_exclusive_amount: self.already_claimed_tax_exclusive_amount.clone(),
            already_claimed_tax_inclusive_amount,
            already_claimed_tax_amount: self.already_claimed_tax_amount.clone(),
            difference_tax_exclusive_amount,
            difference_tax_inclusive_amount,
            difference_tax_amount,
        }
    }
}

impl Invoice {
    /// Every sum and difference, computed exactly from the transported
    /// fields; computed fields already present are ignored.
    pub fn calculate_totals(&self) -> (r: InvoiceTotalsCalculation)
        ensures
            totals_ok(*self, r),
    {
        let summaries = &self.data.tax_category_summaries.tax_category_summary;
        let mut categories: Vec<TaxCategoryCalculation> = Vec::new();
        let mut i: usize = 0;
        while i < summaries.len()
            invariant
                i <= summaries@.len(),
                categories@.len() == i,
                forall|k: int|
                    0 <= k < i ==> category_calculation_ok(
                        #[trigger] summaries@[k],
                        categories@[k],
                    ),
            decreases summaries.len() - i,
        {
            categories.push(summaries[i].calculate());
            i = i + 1;
        }
        let difference_tax_inclusive_amount = total_of(&categories, 7);
        let paid = &self.data.monetary_summary.paid_deposits_amount;
        let rounding = &self.data.monetary_summary.payable_rounding_amount;
        let unpaid = difference_tax_inclusive_amount.subtract_exact(paid);
        let payable_amount = unpaid.add_exact(rounding);
        proof {
            let d = frac_of(difference_tax_inclusive_amount@);
            let p = frac_neg(frac_of(paid@));
            let f = frac_of(rounding@);
            lemma_frac_add_congruent(frac_of(unpaid@), frac_add(d, p), f);
            lemma_same_frac_trans(frac_of(payable_amount@), frac_add(frac_of(unpaid@), f), frac_add(frac_add(d, p), f));
        }
        let monetary_summary = MonetarySummaryCalculation {
            tax_exclusive_amount: total_of(&categories, 0),
            tax_inclusive_amount: total_of(&categories, 1),
            tax_amount: total_of(&categories, 2),
            already_claimed_tax_exclusive_amount: total_of(&categories, 3),
            already_claimed_tax_inclusive_amount: total_of(&categories, 4),
            already_claimed_tax_amount: total_of(&categories, 5),
            difference_tax_exclusive_amount: total_of(&categories, 6),
            difference_tax_inclusive_amount,
            difference_tax_amount: total_of(&categories, 8),
            payable_amount,
        };
        let r = InvoiceTotalsCalculation { tax_category_summaries: categories, monetary_summary };
        assert forall|w: int| 0 <= w < 9 implies same_frac(
            frac_of(#[trigger] summary_amount(r.monetary_summary, w)),
            amount_total(r.tax_category_summaries@, w),
        ) by {}
        r
    }

    /// Every computed value; unit prices are divided by the caller's
    /// `division`, whose failure is passed on.
    pub fn calculate_with_division<D: DecimalDivision>(&self, division: &D) -> (r: core::result::Result<
        InvoiceCalculation,
        D::Error,
    >)
        ensures
            self.data.single_invoice_line is None ==> (r matches Ok(c) && totals_ok(*self, c.totals)
                && c.single_invoice_line is None),
            self.data.single_invoice_line matches Some(line) ==> exists|t: InvoiceTotalsCalculation|
                totals_ok(*self, t) && r == single_line_outcome(*division, t, line),
            r matches Ok(c) ==> totals_ok(*self, c.totals),
    {
        let totals = self.calculate_totals();
        match &self.data.single_invoice_line {
            Some(line) => {
                let ghost t = totals;
                let unit_price_tax_exclusive_amount = match division.divide(
                    &totals.monetary_summary.tax_exclusive_amount,
                    &line.invoiced_quantity,
                ) {
                    Ok(v) => v,
                    Err(e) => return Err(e),
                };
                let unit_price_tax_inclusive_amount = match division.divide(
                    &totals.monetary_summary.tax_inclusive_amount,
                    &line.invoiced_quantity,
                ) {
                    Ok(v) => v,
                    Err(e) => return Err(e),
                };
                let unit_price_tax_amount = match division.divide(
                    &totals.monetary_summary.tax_amount,
                    &line.invoiced_quantity,
                ) {
                    Ok(v) => v,
                    Err(e) => return Err(e),
                };
                let r = InvoiceCalculation {
                    totals,
                    single_invoice_line: Some(
                        SingleInvoiceLineCalculation {
                            unit_price_tax_exclusive_amount,
                            unit_price_tax_inclusive_amount,
                            unit_price_tax_amount,
                        },
                    ),
                };
                assert(Ok::<InvoiceCalculation, D::Error>(r) == single_line_outcome(*division, t, *line));
                Ok(r)
            },
            None => Ok(InvoiceCalculation { totals, single_invoice_line: None }),
        }
    }
}

// ---------------------------------------------------------------------------
// Advisory length diagnostics
// ---------------------------------------------------------------------------

/// Text without its `-` characters: a date's compact transport form.
pub open spec fn dashless(s: Seq<char>) -> Seq<char>
    decreases s.len(),
{
    if s.len() == 0 {
        s
    } else if s.last() == '-' {
        dashless(s.drop_last())
    } else {
        dashless(s.drop_last()).push(s.last())
    }
}

/// Text without dashes has none to remove.
pub proof fn lemma_dashless_free(s: Seq<char>)
    requires
        forall|k: int| 0 <= k < s.len() ==> s[k] != '-',
    ensures
        dashless(s) == s,
    decreases s.len(),
{
    if s.len() > 0 {
        lemma_dashless_free(s.drop_last());
        assert(s.drop_last().push(s.last()) =~= s);
    }
}

/// Removing dashes works piece by piece.
pub proof fn lemma_dashless_concat(a: Seq<char>, b: Seq<char>)
    ensures
        dashless(a + b) == dashless(a) + dashless(b),
    decreases b.len(),
{
    if b.len() == 0 {
        assert(a + b =~= a);
        assert(dashless(a) + dashless(b) =~= dashless(a));
    } else {
        lemma_dashless_concat(a, b.drop_last());
        assert((a + b).drop_last() =~= a + b.drop_last());
        assert((a + b).last() == b.last());
        if b.last() != '-' {
            assert(dashless(a) + dashless(b.drop_last()).push(b.last()) =~= (dashless(a) + dashless(b.drop_last())).push(b.last()));
        }
    }
}

/// The check of a date field: its compact `YYYYMMDD` length.
pub open spec fn date_check(path: Seq<char>, value: Seq<char>, maximum: nat) -> Seq<(Seq<char>, nat, nat)> {
    seq![(path, dashless(value).len(), maximum)]
}

/// The check of an optional date field.
pub open spec fn optional_date_check(path: Seq<char>, value: Option<Date>, maximum: nat) -> Seq<
    (Seq<char>, nat, nat),
> {
    match value {
        Some(d) => date_check(path, d@, maximum),
        None => seq![],
    }
}

/// The check of an optional decimal field.
pub open spec fn optional_decimal_check(path: Seq<char>, value: Option<Decimal>, maximum: nat) -> Seq<
    (Seq<char>, nat, nat),
> {
    match value {
        Some(d) => text_check(path, d@, maximum),
        None => seq![],
    }
}

/// The checks of the supplier's postal address.
pub open spec fn address_checks(a: PostalAddress) -> Seq<(Seq<char>, nat, nat)> {
    text_check("SupplierParty.PostalAddress.StreetName"@, a.street_name@, 20)
        + optional_text_check("SupplierParty.PostalAddress.BuildingNumber"@, a.building_number, 3)
        + text_check("SupplierParty.PostalAddress.CityName"@, a.city_name@, 20)
        + text_check("SupplierParty.PostalAddress.PostalZone"@, a.postal_zone@, 10)
        + optional_text_check("SupplierParty.PostalAddress.State"@, a.state, 10)
        + text_check("SupplierParty.PostalAddress.Country"@, a.country@, 3)
}

/// The checks of the supplier's contact, when there is one.
pub open spec fn contact_checks(contact: Option<Contact>) -> Seq<(Seq<char>, nat, nat)> {
    match contact {
        Some(c) => optional_text_check("SupplierParty.Contact.Name"@, c.name, 20)
            + optional_text_check("SupplierParty.Contact.Telephone"@, c.telephone, 12)
            + optional_text_check("SupplierParty.Contact.EMail"@, c.email, 40),
        None => seq![],
    }
}

/// The checks of the supplier party.
pub open spec fn supplier_checks(p: SupplierParty) -> Seq<(Seq<char>, nat, nat)> {
    text_check("SupplierParty.PartyName"@, p.party_name@, 20)
        + optional_text_check("SupplierParty.CompanyTaxID"@, p.company_tax_id, 12)
        + optional_text_check("SupplierParty.CompanyVATID"@, p.company_vat_id, 14)
        + optional_text_check("SupplierParty.CompanyRegisterID"@, p.company_register_id, 14)
        + address_checks(p.postal_address) + contact_checks(p.contact)
}

/// The checks of the customer party.
pub open spec fn customer_checks(p: CustomerParty) -> Seq<(Seq<char>, nat, nat)> {
    text_check("CustomerParty.PartyName"@, p.party_name@, 20)
        + optional_text_check("CustomerParty.CompanyTaxID"@, p.company_tax_id, 12)
        + optional_text_check("CustomerParty.CompanyVATID"@, p.company_vat_id, 14)
        + optional_text_check("CustomerParty.CompanyRegisterID"@, p.company_register_id, 14)
        + optional_text_check("CustomerParty.PartyIdentification"@, p.party_identification, 20)
}

/// The checks of the single invoice line.
pub open spec fn single_line_checks(l: SingleInvoiceLine) -> Seq<(Seq<char>, nat, nat)> {
    optional_text_check("SingleInvoiceLine.OrderLineID"@, l.order_line_id, 10)
        + optional_text_check("SingleInvoiceLine.DeliveryNoteLineID"@, l.delivery_note_line_id, 10)
        + optional_text_check("SingleInvoiceLine.ItemName"@, l.item_name, 30)
        + optional_text_check("SingleInvoiceLine.ItemEANCode"@, l.item_ean_code, 30)
        + optional_date_check("SingleInvoiceLine.PeriodFromDate"@, l.period_from_date, 8)
        + optional_date_check("SingleInvoiceLine.PeriodToDate"@, l.period_to_date, 8)
        + text_check("SingleInvoiceLine.InvoicedQuantity"@, l.invoiced_quantity@, 15)
}

/// The path of the `index`-th tax category summary.
pub open spec fn summary_path(index: nat) -> Seq<char> {
    "TaxCategorySummaries.TaxCategorySummary["@ + nat_text(index) + "]"@
}

/// The checks of the `index`-th tax category summary.
pub open spec fn summary_checks(index: nat, s: TaxCategorySummary) -> Seq<(Seq<char>, nat, nat)> {
    let p = summary_path(index);
    text_check(p + ".ClassifiedTaxCategory"@, s.classified_tax_category@, 15)
        + text_check(p + ".TaxExclusiveAmount"@, s.tax_exclusive_amount@, 15)
        + text_check(p + ".TaxAmount"@, s.tax_amount@, 15)
        + text_check(p + ".AlreadyClaimedTaxExclusiveAmount"@, s.already_claimed_tax_exclusive_amount@, 15)
        + text_check(p + ".AlreadyClaimedTaxAmount"@, s.already_claimed_tax_amount@, 15)
}

/// The checks of the tax category summaries, in order.
pub open spec fn summaries_checks(ss: Seq<TaxCategorySummary>) -> Seq<(Seq<char>, nat, nat)>
    decreases ss.len(),
{
    if ss.len() == 0 {
        seq![]
    } else {
        summaries_checks(ss.drop_last()) + summary_checks((ss.len() - 1) as nat, ss.last())
    }
}

/// Every length check of an invoice, in the order the fields are transported.
pub open spec fn invoice_checks(invoice: Invoice) -> Seq<(Seq<char>, nat, nat)> {
    let d = invoice.data;
    text_check("InvoiceID"@, d.invoice_id@, 10)
        + date_check("IssueDate"@, d.issue_date@, 8)
        + optional_date_check("TaxPointDate"@, d.tax_point_date, 8)
        + optional_text_check("OrderID"@, d.order_id, 10)
        + optional_text_check("DeliveryNoteID"@, d.delivery_note_id, 10)
        + text_check("LocalCurrencyCode"@, d.local_currency_code@, 3)
        + match d.foreign_currency_code {
        Some(c) => text_check("ForeignCurrencyCode"@, c@, 3),
        None => seq![],
    } + optional_decimal_check("CurrRate"@, d.curr_rate, 15)
        + optional_decimal_check("ReferenceCurrRate"@, d.reference_curr_rate, 15)
        + supplier_checks(d.supplier_party) + customer_checks(d.customer_party)
        + match d.number_of_invoice_lines {
        Some(v) => text_check("NumberOfInvoiceLines"@, int_text(v as int), 11),
        None => seq![],
    } + optional_text_check("InvoiceDescription"@, d.invoice_description, 30)
        + match d.single_invoice_line {
        Some(l) => single_line_checks(l),
        None => seq![],
    } + summaries_checks(d.tax_category_summaries.tax_category_summary@)
        + text_check(
        "MonetarySummary.PayableRoundingAmount"@,
        d.monetary_summary.payable_rounding_amount@,
        15,
    ) + text_check(
        "MonetarySummary.PaidDepositsAmount"@,
        d.monetary_summary.paid_deposits_amount@,
        15,
    ) + match d.payment_means {
        Some(m) => text_check("PaymentMeans"@, nat_text(m@ as nat), 3),
        None => seq![],
    }
}

/// The number of characters of `value` other than `-`.
fn dashless_count(value: &str) -> (r: usize)
    ensures
        r == dashless(value@).len(),
{
    let chars = chars_of(value);
    let mut count: usize = 0;
    let mut i: usize = 0;
    assert(chars@.take(0) =~= Seq::<char>::empty());
    while i < chars.len()
        invariant
            i <= chars@.len(),
            chars@ == value@,
            count == dashless(chars@.take(i as int)).len(),
            count <= i,
        decreases chars.len() - i,
    {
        assert(chars@.take(i + 1).drop_last() =~= chars@.take(i as int));
        if chars[i] != '-' {
            count = count + 1;
        }
        i = i + 1;
    }
    assert(chars@.take(chars@.len() as int) =~= chars@);
    count
}

pub fn push_date(checks: &mut Vec<AdvisoryDiagnostic>, path: &str, value: &Date, maximum: usize)
    ensures
        checks_of(final(checks)@) == checks_of(old(checks)@) + date_check(
            path@,
            value@,
            maximum as nat,
        ),
{
    let count = dashless_count(value.as_str());
    push_count(checks, path, count, maximum);
    assert(checks_of(old(checks)@).push((path@, count as nat, maximum as nat)) =~= checks_of(
        old(checks)@,
    ) + date_check(path@, value@, maximum as nat));
}

pub fn push_optional_date(checks: &mut Vec<AdvisoryDiagnostic>, path: &str, value: &Option<Date>, maximum: usize)
    ensures
        checks_of(final(checks)@) == checks_of(old(checks)@) + optional_date_check(
            path@,
            *value,
            maximum as nat,
        ),
{
    match value {
        Some(d) => push_date(checks, path, d, maximum),
        None => {
            assert(checks_of(checks@) + optional_date_check(path@, *value, maximum as nat)
                =~= checks_of(checks@));
        },
    }
}

fn push_optional_decimal(
    checks: &mut Vec<AdvisoryDiagnostic>,
    path: &str,
    value: &Option<Decimal>,
    maximum: usize,
)
    ensures
        checks_of(final(checks)@) == checks_of(old(checks)@) + optional_decimal_check(
            path@,
            *value,
            maximum as nat,
        ),
{
    match value {
        Some(d) => push_text(checks, path, d.as_str(), maximum),
        None => {
            assert(checks_of(checks@) + optional_decimal_check(path@, *value, maximum as nat)
                =~= checks_of(checks@));
        },
    }
}

fn push_address(checks: &mut Vec<AdvisoryDiagnostic>, a: &PostalAddress)
    ensures
        checks_of(final(checks)@) == checks_of(old(checks)@) + address_checks(*a),
{
    let ghost start = checks_of(checks@);
    push_text(checks, "SupplierParty.PostalAddress.StreetName", a.street_name.as_str(), 20);
    push_optional_text(checks, "SupplierParty.PostalAddress.BuildingNumber", &a.building_number, 3);
    push_text(checks, "SupplierParty.PostalAddress.CityName", a.city_name.as_str(), 20);
    push_text(checks, "SupplierParty.PostalAddress.PostalZone", a.postal_zone.as_str(), 10);
    push_optional_text(checks, "SupplierParty.PostalAddress.State", &a.state, 10);
    push_text(checks, "SupplierParty.PostalAddress.Country", a.country.as_str(), 3);
    assert(checks_of(checks@) =~= start + address_checks(*a));
}

fn push_contact(checks: &mut Vec<AdvisoryDiagnostic>, contact: &Option<Contact>)
    ensures
        checks_of(final(checks)@) == checks_of(old(checks)@) + contact_checks(*contact),
{
    let ghost start = checks_of(checks@);
    match contact {
        Some(c) => {
            push_optional_text(checks, "SupplierParty.Contact.Name", &c.name, 20);
            push_optional_text(checks, "SupplierParty.Contact.Telephone", &c.telephone, 12);
            push_optional_text(checks, "SupplierParty.Contact.EMail", &c.email, 40);
        },
        None => {},
    }
    assert(checks_of(checks@) =~= start + contact_checks(*contact));
}

fn push_supplier(checks: &mut Vec<AdvisoryDiagnostic>, p: &SupplierParty)
    ensures
        checks_of(final(checks)@) == checks_of(old(checks)@) + supplier_checks(*p),
{
    let ghost start = checks_of(checks@);
    push_text(checks, "SupplierParty.PartyName", p.party_name.as_str(), 20);
    push_optional_text(checks, "SupplierParty.CompanyTaxID", &p.company_tax_id, 12);
    push_optional_text(checks, "SupplierParty.CompanyVATID", &p.company_vat_id, 14);
    push_optional_text(checks, "SupplierParty.CompanyRegisterID", &p.company_register_id, 14);
    push_address(checks, &p.postal_address);
    push_contact(checks, &p.contact);
    assert(checks_of(checks@) =~= start + supplier_checks(*p));
}

fn push_customer(checks: &mut Vec<AdvisoryDiagnostic>, p: &CustomerParty)
    ensures
        checks_of(final(checks)@) == checks_of(old(checks)@) + customer_checks(*p),
{
    let ghost start = checks_of(checks@);
    push_text(checks, "CustomerParty.PartyName", p.party_name.as_str(), 20);
    push_optional_text(checks, "CustomerParty.CompanyTaxID", &p.company_tax_id, 12);
    push_optional_text(checks, "CustomerParty.CompanyVATID", &p.company_vat_id, 14);
    push_optional_text(checks, "CustomerParty.CompanyRegisterID", &p.company_register_id, 14);
    push_optional_text(checks, "CustomerParty.PartyIdentification", &p.party_identification, 20);
    assert(checks_of(checks@) =~= start + customer_checks(*p));
}

fn push_single_line(checks: &mut Vec<AdvisoryDiagnostic>, l: &SingleInvoiceLine)
    ensures
        checks_of(final(checks)@) == checks_of(old(checks)@) + single_line_checks(*l),
{
    let ghost start = checks_of(checks@);
    push_optional_text(checks, "SingleInvoiceLine.OrderLineID", &l.order_line_id, 10);
    push_optional_text(checks, "SingleInvoiceLine.DeliveryNoteLineID", &l.delivery_note_line_id, 10);
    push_optional_text(checks, "SingleInvoiceLine.ItemName", &l.item_name, 30);
    push_optional_text(checks, "SingleInvoiceLine.ItemEANCode", &l.item_ean_code, 30);
    push_optional_date(checks, "SingleInvoiceLine.PeriodFromDate", &l.period_from_date, 8);
    push_optional_date(checks, "SingleInvoiceLine.PeriodToDate", &l.period_to_date, 8);
    push_text(checks, "SingleInvoiceLine.InvoicedQuantity", l.invoiced_quantity.as_str(), 15);
    assert(checks_of(checks@) =~= start + single_line_checks(*l));
}

fn push_summary(checks: &mut Vec<AdvisoryDiagnostic>, index: usize, s: &TaxCategorySummary)
    ensures
        checks_of(final(checks)@) == checks_of(old(checks)@) + summary_checks(index as nat, *s),
{
    let ghost start = checks_of(checks@);
    let number = u64_string(index as u64);
    let opened = concat("TaxCategorySummaries.TaxCategorySummary[", number.as_str());
    let prefix = concat(opened.as_str(), "]");
    assert(prefix@ == summary_path(index as nat));
    let p0 = concat(prefix.as_str(), ".ClassifiedTaxCategory");
    push_text(checks, p0.as_str(), s.classified_tax_category.as_str(), 15);
    let p1 = concat(prefix.as_str(), ".TaxExclusiveAmount");
    push_text(checks, p1.as_str(), s.tax_exclusive_amount.as_str(), 15);
    let p2 = concat(prefix.as_str(), ".TaxAmount");
    push_text(checks, p2.as_str(), s.tax_amount.as_str(), 15);
    let p3 = concat(prefix.as_str(), ".AlreadyClaimedTaxExclusiveAmount");
    push_text(checks, p3.as_str(), s.already_claimed_tax_exclusive_amount.as_str(), 15);
    let p4 = concat(prefix.as_str(), ".AlreadyClaimedTaxAmount");
    push_text(checks, p4.as_str(), s.already_claimed_tax_amount.as_str(), 15);
    assert(checks_of(checks@) =~= start + summary_checks(index as nat, *s));
}

impl Invoice {
    /// The transported fields that exceed their advisory `bsqr:maxLength`,
    /// in transport order; the invoice is never changed and never rejected
    /// for them.
    pub fn advisory_diagnostics(&self) -> (r: Vec<AdvisoryDiagnostic>)
        ensures
            checks_of(r@) == exceeding(invoice_checks(*self)),
    {
        let d = &self.data;
        let mut checks: Vec<AdvisoryDiagnostic> = Vec::new();
        push_text(&mut checks, "InvoiceID", d.invoice_id.as_str(), 10);
        push_date(&mut checks, "IssueDate", &d.issue_date, 8);
        push_optional_date(&mut checks, "TaxPointDate", &d.tax_point_date, 8);
        push_optional_text(&mut checks, "OrderID", &d.order_id, 10);
        push_optional_text(&mut checks, "DeliveryNoteID", &d.delivery_note_id, 10);
        push_text(&mut checks, "LocalCurrencyCode", d.local_currency_code.as_str(), 3);
        let ghost part1 = checks_of(checks@);
        match &d.foreign_currency_code {
            Some(c) => push_text(&mut checks, "ForeignCurrencyCode", c.as_str(), 3),
            None => {},
        }
        push_optional_decimal(&mut checks, "CurrRate", &d.curr_rate, 15);
        push_optional_decimal(&mut checks, "ReferenceCurrRate", &d.reference_curr_rate, 15);
        push_supplier(&mut checks, &d.supplier_party);
        push_customer(&mut checks, &d.customer_party);
        let ghost part2 = checks_of(checks@);
        match d.number_of_invoice_lines {
            Some(v) => {
                let count = i64_string(v);
                push_text(&mut checks, "NumberOfInvoiceLines", count.as_str(), 11);
            },
            None => {},
        }
        push_optional_text(&mut checks, "InvoiceDescription", &d.invoice_description, 30);
        let ghost part3 = checks_of(checks@);
        match &d.single_invoice_line {
            Some(l) => push_single_line(&mut checks, l),
            None => {},
        }
        let ghost part4 = checks_of(checks@);
        let summaries = &d.tax_category_summaries.tax_category_summary;
        let mut i: usize = 0;
        assert(summaries@.take(0) =~= Seq::<TaxCategorySummary>::empty());
        assert(part4 + summaries_checks(summaries@.take(0)) =~= part4);
        while i < summaries.len()
            invariant
                i <= summaries@.len(),
                checks_of(checks@) == part4 + summaries_checks(summaries@.take(i as int)),
            decreases summaries.len() - i,
        {
            push_summary(&mut checks, i, &summaries[i]);
            assert(summaries@.take(i + 1).drop_last() =~= summaries@.take(i as int));
            i = i + 1;
        }
        assert(summaries@.take(summaries@.len() as int) =~= summaries@);
        let ghost part5 = checks_of(checks@);
        push_text(
            &mut checks,
            "MonetarySummary.PayableRoundingAmount",
            d.monetary_summary.payable_rounding_amount.as_str(),
            15,
        );
        push_text(
            &mut checks,
            "MonetarySummary.PaidDepositsAmount",
            d.monetary_summary.paid_deposits_amount.as_str(),
            15,
        );
        match d.payment_means {
            Some(m) => {
                let classifier = u64_string(m.classifier() as u64);
                push_text(&mut checks, "PaymentMeans", classifier.as_str(), 3);
            },
            None => {},
        }
        assert(checks_of(checks@) =~= invoice_checks(*self));
        exceeding_checks(checks)
    }
}

} // verus!
