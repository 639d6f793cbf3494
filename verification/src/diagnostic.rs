//! Advisory length diagnostics: fields longer than their recommended
//! `bsqr:maxLength` are reported, never truncated or rejected.

use vstd::prelude::*;
use crate::text::chars_of;

verus! {

/// A non-rejecting `bsqr:maxLength` advisory for one transported field.
///
/// `actual_character_count` describes the field's QR-sequence representation:
/// Unicode scalar values for text, and the compacted transport form for
/// values such as dates and classifiers.
#[derive(Clone, Debug, Eq, PartialEq)]
pub struct AdvisoryDiagnostic {
    pub field_path: String,
    pub actual_character_count: usize,
    pub recommended_maximum: usize,
}

/// A length check: a field path, the field's character count and its
/// recommended maximum.
pub open spec fn check_of(d: AdvisoryDiagnostic) -> (Seq<char>, nat, nat) {
    (d.field_path@, d.actual_character_count as nat, d.recommended_maximum as nat)
}

/// The length checks of a list of diagnostics.
pub open spec fn checks_of(v: Seq<AdvisoryDiagnostic>) -> Seq<(Seq<char>, nat, nat)> {
    v.map_values(|d: AdvisoryDiagnostic| check_of(d))
}

/// The checks whose count exceeds the recommended maximum, in order.
pub open spec fn exceeding(checks: Seq<(Seq<char>, nat, nat)>) -> Seq<(Seq<char>, nat, nat)>
    decreases checks.len(),
{
    if checks.len() == 0 {
        seq![]
    } else {
        let rest = exceeding(checks.drop_last());
        let last = checks.last();
        if last.1 > last.2 {
            rest.push(last)
        } else {
            rest
        }
    }
}

/// The check of one text field.
pub open spec fn text_check(path: Seq<char>, value: Seq<char>, maximum: nat) -> Seq<(Seq<char>, nat, nat)> {
    seq![(path, value.len(), maximum)]
}

/// The check of an optional text field: none when it is absent.
pub open spec fn optional_text_check(path: Seq<char>, value: Option<String>, maximum: nat) -> Seq<
    (Seq<char>, nat, nat),
> {
    match value {
        Some(v) => seq![(path, v@.len(), maximum)],
        None => seq![],
    }
}

/// Records the check of a field whose count is known.
pub fn push_count(checks: &mut Vec<AdvisoryDiagnostic>, path: &str, count: usize, maximum: usize)
    ensures
        checks_of(final(checks)@) == checks_of(old(checks)@).push(
            (path@, count as nat, maximum as nat),
        ),
{
    let ghost before = checks@;
    checks.push(
        AdvisoryDiagnostic {
            field_path: path.to_owned(),
            actual_character_count: count,
            recommended_maximum: maximum,
        },
    );
    assert(checks_of(checks@) =~= checks_of(before).push((path@, count as nat, maximum as nat)));
}

/// Records the check of a text field.
pub fn push_text(checks: &mut Vec<AdvisoryDiagnostic>, path: &str, value: &str, maximum: usize)
    ensures
        checks_of(final(checks)@) == checks_of(old(checks)@) + text_check(
            path@,
            value@,
            maximum as nat,
        ),
{
    let count = chars_of(value).len();
    push_count(checks, path, count, maximum);
    assert(checks_of(old(checks)@).push((path@, count as nat, maximum as nat)) =~= checks_of(
        old(checks)@,
    ) + text_check(path@, value@, maximum as nat));
}

/// Records the check of an optional text field, when it is present.
pub fn push_optional_text(
    checks: &mut Vec<AdvisoryDiagnostic>,
    path: &str,
    value: &Option<String>,
    maximum: usize,
)
    ensures
        checks_of(final(checks)@) == checks_of(old(checks)@) + optional_text_check(
            path@,
            *value,
            maximum as nat,
        ),
{
    match value {
        Some(v) => {
            push_text(checks, path, v.as_str(), maximum);
        },
        None => {
            assert(checks_of(checks@) + optional_text_check(path@, *value, maximum as nat)
                =~= checks_of(checks@));
        },
    }
}

/// The diagnostics among the checks: those whose count exceeds the
/// recommended maximum, in order.
pub fn exceeding_checks(checks: Vec<AdvisoryDiagnostic>) -> (r: Vec<AdvisoryDiagnostic>)
    ensures
        checks_of(r@) == exceeding(checks_of(checks@)),
{
    let mut out: Vec<AdvisoryDiagnostic> = Vec::new();
    let mut i: usize = 0;
    let n = checks.len();
    assert(checks_of(checks@).take(0) =~= Seq::<(Seq<char>, nat, nat)>::empty());
    while i < n
        invariant
            i <= n == checks@.len(),
            checks_of(out@) == exceeding(checks_of(checks@).take(i as int)),
        decreases n - i,
    {
        let d = &checks[i];
        let ghost before = out@;
        assert(checks_of(checks@).take(i + 1).drop_last() =~= checks_of(checks@).take(i as int));
        if d.actual_character_count > d.recommended_maximum {
            out.push(d.clone_diagnostic());
            assert(checks_of(out@) =~= checks_of(before).push(check_of(checks@[i as int])));
        }
        i = i + 1;
    }
    assert(checks_of(checks@).take(n as int) =~= checks_of(checks@));
    out
}

impl AdvisoryDiagnostic {
    /// An owned copy of the diagnostic.
    pub fn clone_diagnostic(&self) -> (r: Self)
        ensures
            check_of(r) == check_of(*self),
    {
        AdvisoryDiagnostic {
            field_path: self.field_path.clone(),
            actual_character_count: self.actual_character_count,
            recommended_maximum: self.recommended_maximum,
        }
    }
}

} // verus!
