//! Exact decimal text: normalization of XSD decimals into their canonical
//! form without any floating-point step.

use vstd::prelude::*;

use crate::magnitude::{digits_ok, lemma_pow10_add, lemma_pow10_positive, lsb_value, pow10};

verus! {

// ---------------------------------------------------------------------------
// Characters
// ---------------------------------------------------------------------------

/// Whether `c` is an ASCII digit.
pub open spec fn is_digit(c: char) -> bool {
    '0' <= c && c <= '9'
}

/// Whether every character of `s` is an ASCII digit.
pub open spec fn all_digit_chars(s: Seq<char>) -> bool {
    forall|i: int| 0 <= i < s.len() ==> is_digit(#[trigger] s[i])
}

/// Whether `c` is Unicode white space (`char::is_whitespace`).
pub open spec fn is_white(c: char) -> bool {
    let u = c as u32;
    (9 <= u <= 13) || u == 32 || u == 0x85 || u == 0xA0 || u == 0x1680 || (0x2000 <= u <= 0x200A)
        || u == 0x2028 || u == 0x2029 || u == 0x202F || u == 0x205F || u == 0x3000
}

/// `s` without leading white space (`str::trim_start`).
pub open spec fn trim_start(s: Seq<char>) -> Seq<char>
    decreases s.len(),
{
    if s.len() > 0 && is_white(s[0]) {
        trim_start(s.drop_first())
    } else {
        s
    }
}

/// `s` without trailing white space (`str::trim_end`).
pub open spec fn trim_end(s: Seq<char>) -> Seq<char>
    decreases s.len(),
{
    if s.len() > 0 && is_white(s.last()) {
        trim_end(s.drop_last())
    } else {
        s
    }
}

/// `s` without leading or trailing white space (`str::trim`).
pub open spec fn trimmed(s: Seq<char>) -> Seq<char> {
    trim_end(trim_start(s))
}

/// `s` without leading `'0'` characters.
pub open spec fn strip_leading_zeros(s: Seq<char>) -> Seq<char>
    decreases s.len(),
{
    if s.len() > 0 && s[0] == '0' {
        strip_leading_zeros(s.drop_first())
    } else {
        s
    }
}

/// `s` without trailing `'0'` characters.
pub open spec fn strip_trailing_zeros(s: Seq<char>) -> Seq<char>
    decreases s.len(),
{
    if s.len() > 0 && s.last() == '0' {
        strip_trailing_zeros(s.drop_last())
    } else {
        s
    }
}

/// `n` zero digits.
pub open spec fn zeros(n: int) -> Seq<char> {
    Seq::new(n as nat, |i: int| '0')
}

/// Index of the first `c` in `s`, or its length.
pub open spec fn index_of(s: Seq<char>, c: char) -> int
    decreases s.len(),
{
    if s.len() == 0 {
        0
    } else if s[0] == c {
        0
    } else {
        1 + index_of(s.drop_first(), c)
    }
}

/// Index of the first `'e'` or `'E'` in `s`, or its length.
pub open spec fn exponent_index(s: Seq<char>) -> int
    decreases s.len(),
{
    if s.len() == 0 {
        0
    } else if s[0] == 'e' || s[0] == 'E' {
        0
    } else {
        1 + exponent_index(s.drop_first())
    }
}

// ---------------------------------------------------------------------------
// Canonical decimal text
// ---------------------------------------------------------------------------

/// The integer digits of `digits` with the decimal point after `point` digits.
pub open spec fn integer_part(digits: Seq<char>, point: int) -> Seq<char> {
    if point <= 0 {
        seq![]
    } else if point >= digits.len() {
        digits + zeros(point - digits.len())
    } else {
        digits.take(point)
    }
}

/// The fraction digits of `digits` with the decimal point after `point` digits.
pub open spec fn fraction_part(digits: Seq<char>, point: int) -> Seq<char> {
    if point <= 0 {
        zeros(-point) + digits
    } else if point >= digits.len() {
        seq![]
    } else {
        digits.skip(point)
    }
}

/// Canonical unsigned text of a digit string with the decimal point after
/// `point` digits (negative: before the digits, with leading zeros): no
/// leading integer zeros except a lone `0`, no trailing fraction zeros and no
/// point when the fraction is zero.
pub open spec fn canonical_text(digits: Seq<char>, point: int) -> Seq<char> {
    let integer = strip_leading_zeros(integer_part(digits, point));
    let integer = if integer.len() == 0 { seq!['0'] } else { integer };
    let fraction = strip_trailing_zeros(fraction_part(digits, point));
    if fraction.len() == 0 {
        integer
    } else {
        integer + seq!['.'] + fraction
    }
}

/// The optionally signed decimal value of ASCII digits, as `str::parse::<i32>`
/// and friends read it: an optional `+` or `-` followed by at least one digit.
pub open spec fn signed_integer_value(s: Seq<char>) -> Option<int> {
    if s.len() > 0 && (s[0] == '+' || s[0] == '-') {
        let rest = s.drop_first();
        if rest.len() > 0 && all_digit_chars(rest) {
            Some(if s[0] == '-' { -(digits_value(rest) as int) } else { digits_value(rest) as int })
        } else {
            None
        }
    } else if s.len() > 0 && all_digit_chars(s) {
        Some(digits_value(s) as int)
    } else {
        None
    }
}

/// Value of a digit character.
pub open spec fn digit_of(c: char) -> nat {
    (c as u32 - 48) as nat
}

/// The number that a string of ASCII digits writes, most significant first.
pub open spec fn digits_value(s: Seq<char>) -> nat
    decreases s.len(),
{
    if s.len() == 0 {
        0
    } else {
        digits_value(s.drop_last()) * 10 + digit_of(s.last())
    }
}

/// Whether a mantissa is digits with at most one decimal point and at least
/// one digit.
pub open spec fn mantissa_ok(m: Seq<char>) -> bool {
    let d = index_of(m, '.');
    let integer = m.take(d);
    let fraction = if d < m.len() { m.skip(d + 1) } else { seq![] };
    all_digit_chars(integer) && all_digit_chars(fraction) && (integer.len() > 0 || fraction.len() > 0)
}

/// The digits of a mantissa without its decimal point.
pub open spec fn mantissa_digits(m: Seq<char>) -> Seq<char> {
    let d = index_of(m, '.');
    if d < m.len() {
        m.take(d) + m.skip(d + 1)
    } else {
        m
    }
}

/// The canonical unsigned text of an unsigned decimal number written as a
/// mantissa with an optional exponent, or `None` when it is malformed or its
/// decimal point would move outside `[-limit, limit]`.
pub open spec fn unsigned_canonical(body: Seq<char>, allow_exponent: bool, limit: int) -> Option<Seq<char>> {
    let e = exponent_index(body);
    let mantissa = body.take(e);
    let exponent = if e < body.len() { signed_integer_value(body.skip(e + 1)) } else { Some(0) };
    if e < body.len() && !allow_exponent {
        None
    } else if exponent is None || exponent->0 < -2147483648 || exponent->0 > 2147483647 {
        None
    } else if !mantissa_ok(mantissa) {
        None
    } else {
        let point = index_of(mantissa, '.') + exponent->0;
        if point < -limit || point > limit {
            None
        } else {
            Some(canonical_text(mantissa_digits(mantissa), point))
        }
    }
}


// ---------------------------------------------------------------------------
// Executable building blocks
// ---------------------------------------------------------------------------

/// `char::is_whitespace`.
pub fn is_whitespace(c: char) -> (r: bool)
    ensures
        r == is_white(c),
{
    let u = c as u32;
    (9 <= u && u <= 13) || u == 32 || u == 0x85 || u == 0xA0 || u == 0x1680 || (0x2000 <= u && u
        <= 0x200A) || u == 0x2028 || u == 0x2029 || u == 0x202F || u == 0x205F || u == 0x3000
}

/// The characters of `s` from `from` up to `to`.
pub fn slice_chars(s: &Vec<char>, from: usize, to: usize) -> (r: Vec<char>)
    requires
        from <= to <= s@.len(),
    ensures
        r@ == s@.subrange(from as int, to as int),
{
    let mut r: Vec<char> = Vec::new();
    let mut i = from;
    while i < to
        invariant
            from <= i <= to <= s@.len(),
            r@ == s@.subrange(from as int, i as int),
        decreases to - i,
    {
        r.push(s[i]);
        assert(s@.subrange(from as int, i + 1) =~= s@.subrange(from as int, i as int).push(s@[i as int]));
        i = i + 1;
    }
    r
}

/// `s` without leading and trailing white space.
pub fn trim_chars(s: &Vec<char>) -> (r: Vec<char>)
    ensures
        r@ == trimmed(s@),
{
    let n = s.len();
    let mut i: usize = 0;
    assert(s@.skip(0) =~= s@);
    while i < n && is_whitespace(s[i])
        invariant
            i <= n == s@.len(),
            trim_start(s@) == trim_start(s@.skip(i as int)),
        decreases n - i,
    {
        assert(s@.skip(i as int).drop_first() =~= s@.skip(i + 1));
        i = i + 1;
    }
    let ghost start = s@.skip(i as int);
    assert(trim_start(s@) == start);
    let mut j: usize = n;
    assert(start =~= s@.subrange(i as int, n as int));
    while j > i && is_whitespace(s[j - 1])
        invariant
            i <= j <= n == s@.len(),
            trim_end(start) == trim_end(s@.subrange(i as int, j as int)),
        decreases j,
    {
        assert(s@.subrange(i as int, j as int).drop_last() =~= s@.subrange(i as int, j - 1));
        j = j - 1;
    }
    slice_chars(s, i, j)
}

/// Index of the first `c` in `s`, or its length.
pub fn find_char(s: &Vec<char>, c: char) -> (r: usize)
    ensures
        r == index_of(s@, c),
        r <= s@.len(),
        forall|k: int| 0 <= k < r ==> s@[k] != c,
        r < s@.len() ==> s@[r as int] == c,
{
    let mut i: usize = 0;
    assert(s@.skip(0) =~= s@);
    while i < s.len() && s[i] != c
        invariant
            i <= s@.len(),
            index_of(s@, c) == i + index_of(s@.skip(i as int), c),
            forall|k: int| 0 <= k < i ==> s@[k] != c,
        decreases s.len() - i,
    {
        assert(s@.skip(i as int).drop_first() =~= s@.skip(i + 1));
        i = i + 1;
    }
    i
}

/// Index of the first `'e'` or `'E'` in `s`, or its length.
pub fn find_exponent(s: &Vec<char>) -> (r: usize)
    ensures
        r == exponent_index(s@),
        r <= s@.len(),
{
    let mut i: usize = 0;
    assert(s@.skip(0) =~= s@);
    while i < s.len() && s[i] != 'e' && s[i] != 'E'
        invariant
            i <= s@.len(),
            exponent_index(s@) == i + exponent_index(s@.skip(i as int)),
        decreases s.len() - i,
    {
        assert(s@.skip(i as int).drop_first() =~= s@.skip(i + 1));
        i = i + 1;
    }
    i
}

/// Whether every character of `s` is an ASCII digit.
pub fn all_ascii_digits(s: &Vec<char>) -> (r: bool)
    ensures
        r == all_digit_chars(s@),
{
    let mut i: usize = 0;
    while i < s.len()
        invariant
            i <= s@.len(),
            forall|k: int| 0 <= k < i ==> is_digit(#[trigger] s@[k]),
        decreases s.len() - i,
    {
        if !('0' <= s[i] && s[i] <= '9') {
            return false;
        }
        i = i + 1;
    }
    true
}

/// `s` without leading zeros.
pub fn strip_leading(s: &Vec<char>) -> (r: Vec<char>)
    ensures
        r@ == strip_leading_zeros(s@),
{
    let mut i: usize = 0;
    assert(s@.skip(0) =~= s@);
    while i < s.len() && s[i] == '0'
        invariant
            i <= s@.len(),
            strip_leading_zeros(s@) == strip_leading_zeros(s@.skip(i as int)),
        decreases s.len() - i,
    {
        assert(s@.skip(i as int).drop_first() =~= s@.skip(i + 1));
        i = i + 1;
    }
    assert(s@.skip(i as int) =~= s@.subrange(i as int, s@.len() as int));
    slice_chars(s, i, s.len())
}

/// `s` without trailing zeros.
pub fn strip_trailing(s: &Vec<char>) -> (r: Vec<char>)
    ensures
        r@ == strip_trailing_zeros(s@),
{
    let mut j: usize = s.len();
    assert(s@.subrange(0, s@.len() as int) =~= s@);
    while j > 0 && s[j - 1] == '0'
        invariant
            j <= s@.len(),
            strip_trailing_zeros(s@) == strip_trailing_zeros(s@.subrange(0, j as int)),
        decreases j,
    {
        assert(s@.subrange(0, j as int).drop_last() =~= s@.subrange(0, j - 1));
        j = j - 1;
    }
    slice_chars(s, 0, j)
}

/// Append all of `b` to `a`.
pub fn extend_chars(a: &mut Vec<char>, b: &Vec<char>)
    ensures
        final(a)@ == old(a)@ + b@,
{
    let mut i: usize = 0;
    while i < b.len()
        invariant
            i <= b@.len(),
            a@ == old(a)@ + b@.take(i as int),
        decreases b.len() - i,
    {
        a.push(b[i]);
        assert(b@.take(i + 1) =~= b@.take(i as int).push(b@[i as int]));
        i = i + 1;
    }
    assert(b@.take(b@.len() as int) =~= b@);
}

/// Append `n` zero digits to `a`.
pub fn push_zeros(a: &mut Vec<char>, n: usize)
    ensures
        final(a)@ == old(a)@ + zeros(n as int),
{
    let mut i: usize = 0;
    while i < n
        invariant
            i <= n,
            a@ == old(a)@ + zeros(i as int),
        decreases n - i,
    {
        a.push('0');
        assert(zeros(i + 1) =~= zeros(i as int).push('0'));
        i = i + 1;
    }
}

/// The canonical unsigned text of `digits` with the decimal point after
/// `point` digits.
pub fn canonical_chars(digits: &Vec<char>, point: i64) -> (r: Vec<char>)
    requires
        -100000 <= point <= 100000,
    ensures
        r@ == canonical_text(digits@, point as int),
{
    let n = digits.len();
    let mut integer: Vec<char> = Vec::new();
    let mut fraction: Vec<char> = Vec::new();
    if point <= 0 {
        push_zeros(&mut fraction, (0 - point) as usize);
        extend_chars(&mut fraction, digits);
    } else if point as usize >= n {
        extend_chars(&mut integer, digits);
        push_zeros(&mut integer, point as usize - n);
    } else {
        integer = slice_chars(digits, 0, point as usize);
        fraction = slice_chars(digits, point as usize, n);
    }
    assert(integer@ =~= integer_part(digits@, point as int));
    assert(fraction@ =~= fraction_part(digits@, point as int));
    let mut head = strip_leading(&integer);
    if head.len() == 0 {
        head.push('0');
    }
    let tail = strip_trailing(&fraction);
    if tail.len() > 0 {
        head.push('.');
        extend_chars(&mut head, &tail);
    }
    head
}

/// The value of `s` under `str::parse::<i32>`, or `None`.
pub fn parse_i32(s: &Vec<char>) -> (r: Option<i32>)
    ensures
        r matches Some(v) ==> signed_integer_value(s@) == Some(v as int),
        r is None ==> (signed_integer_value(s@) is None || signed_integer_value(s@)->0 < -2147483648
            || signed_integer_value(s@)->0 > 2147483647),
{
    let n = s.len();
    if n == 0 {
        return None;
    }
    let negative = s[0] == '-';
    let start: usize = if s[0] == '-' || s[0] == '+' { 1 } else { 0 };
    let ghost body = s@.skip(start as int);
    assert(start == 1 ==> body =~= s@.drop_first());
    assert(start == 0 ==> body =~= s@);
    if start == n {
        return None;
    }
    let mut value: u64 = 0;
    let mut i: usize = start;
    assert(s@.subrange(start as int, start as int) =~= Seq::<char>::empty());
    while i < n
        invariant
            start <= i <= n == s@.len(),
            start < n,
            start <= 1,
            (start == 1) == (s@[0] == '-' || s@[0] == '+'),
            negative == (s@[0] == '-'),
            body == s@.skip(start as int),
            start == 1 ==> body == s@.drop_first(),
            start == 0 ==> body == s@,
            all_digit_chars(s@.subrange(start as int, i as int)),
            value == digits_value(s@.subrange(start as int, i as int)),
            value <= 2147483648,
        decreases n - i,
    {
        let c = s[i];
        if !('0' <= c && c <= '9') {
            assert(!all_digit_chars(body)) by {
                assert(body[i - start] == c);
            }
            assert(start == 0 ==> !(s@[0] == '+' || s@[0] == '-'));
            return None;
        }
        let next = value * 10 + (c as u64 - 48);
        assert(s@.subrange(start as int, i + 1).drop_last() =~= s@.subrange(start as int, i as int));
        if next > 2147483648 {
            assert(all_digit_chars(body) ==> digits_value(body) >= next) by {
                if all_digit_chars(body) {
                    lemma_digits_value_prefix(body, i + 1 - start);
                    assert(body.take(i + 1 - start) =~= s@.subrange(start as int, i + 1));
                }
            }
            return None;
        }
        value = next;
        i = i + 1;
    }
    assert(s@.subrange(start as int, n as int) =~= body);
    assert(all_digit_chars(body));
    assert(digits_value(body) == value);
    if negative {
        assert(start == 1);
        let r = (0 - (value as i64)) as i32;
        assert(r as int == -(value as int));
        Some(r)
    } else if value > 2147483647 {
        None
    } else {
        Some(value as i32)
    }
}

/// A longer digit string never writes a smaller number than its prefix.
pub proof fn lemma_digits_value_prefix(s: Seq<char>, k: int)
    requires
        0 <= k <= s.len(),
        all_digit_chars(s),
    ensures
        digits_value(s) >= digits_value(s.take(k)),
    decreases s.len(),
{
    if k < s.len() {
        lemma_digits_value_prefix(s.drop_last(), k);
        assert(s.drop_last().take(k) =~= s.take(k));
    } else {
        assert(s.take(k) =~= s);
    }
}


// ---------------------------------------------------------------------------
// Normalization
// ---------------------------------------------------------------------------

/// Why a decimal text was rejected.
#[derive(Clone, Copy, Debug, PartialEq, Eq, Structural)]
pub enum NumberFault {
    /// Nothing but white space.
    Empty,
    /// A minus sign where only non-negative values are allowed.
    Negative,
    /// A sign without digits.
    NoDigits,
    /// Exponent notation where it is not allowed.
    ExponentNotAllowed,
    /// An exponent that is not an `i32`.
    BadExponent,
    /// Not digits with at most one decimal point.
    Syntax,
    /// The decimal point would move too far.
    OutOfRange,
}

/// Canonical text of an unsigned amount (PAY `Amount`): `None` when it is
/// empty, negative or malformed, or its decimal point moves outside
/// `[-1000, 1000]`.
pub open spec fn amount_canonical(value: Seq<char>, allow_exponent: bool) -> Option<Seq<char>> {
    let v = trimmed(value);
    if v.len() == 0 || v[0] == '-' {
        None
    } else {
        let body = if v[0] == '+' { v.drop_first() } else { v };
        if body.len() == 0 {
            None
        } else {
            unsigned_canonical(body, allow_exponent, 1000)
        }
    }
}

/// Canonical text of a signed XSD decimal: `None` when it is empty or
/// malformed, or its decimal point moves outside `[-100000, 100000]`. Negative
/// zero is written `0`.
pub open spec fn decimal_canonical(value: Seq<char>, allow_exponent: bool) -> Option<Seq<char>> {
    let v = trimmed(value);
    if v.len() == 0 {
        None
    } else {
        let negative = v[0] == '-';
        let body = if v[0] == '-' || v[0] == '+' { v.drop_first() } else { v };
        if body.len() == 0 {
            None
        } else {
            match unsigned_canonical(body, allow_exponent, 100000) {
                None => None,
                Some(u) => Some(if negative && u != seq!['0'] { seq!['-'] + u } else { u }),
            }
        }
    }
}

/// Canonical unsigned text of a mantissa with an optional exponent.
pub fn normalize_unsigned(body: &Vec<char>, allow_exponent: bool, limit: i64) -> (res: core::result::Result<Vec<char>, NumberFault>)
    requires
        0 <= limit <= 100000,
    ensures
        res matches Ok(r) ==> unsigned_canonical(body@, allow_exponent, limit as int) == Some(r@),
        res is Err ==> unsigned_canonical(body@, allow_exponent, limit as int) is None,
{
    let n = body.len();
    let e = find_exponent(body);
    let mut exponent: i32 = 0;
    if e < n {
        if !allow_exponent {
            return Err(NumberFault::ExponentNotAllowed);
        }
        let text = slice_chars(body, e + 1, n);
        assert(text@ =~= body@.skip(e + 1));
        match parse_i32(&text) {
            Some(v) => exponent = v,
            None => return Err(NumberFault::BadExponent),
        }
    }
    let mantissa = slice_chars(body, 0, e);
    assert(mantissa@ =~= body@.take(e as int));
    let m = mantissa.len();
    let d = find_char(&mantissa, '.');
    let integer = slice_chars(&mantissa, 0, d);
    assert(integer@ =~= mantissa@.take(d as int));
    let fraction = if d < m {
        let f = slice_chars(&mantissa, d + 1, m);
        assert(f@ =~= mantissa@.skip(d + 1));
        f
    } else {
        Vec::new()
    };
    if !all_ascii_digits(&integer) || !all_ascii_digits(&fraction) || (integer.len() == 0
        && fraction.len() == 0) {
        return Err(NumberFault::Syntax);
    }
    let mut digits = integer;
    extend_chars(&mut digits, &fraction);
    assert(digits@ =~= mantissa_digits(mantissa@));
    let wide: i128 = d as i128 + exponent as i128;
    if wide < -(limit as i128) || wide > limit as i128 {
        return Err(NumberFault::OutOfRange);
    }
    let point = wide as i64;
    assert(mantissa_ok(mantissa@));
    assert(point == index_of(mantissa@, '.') + exponent);
    Ok(canonical_chars(&digits, point))
}

/// Canonical text of an unsigned amount; see [`amount_canonical`].
pub fn normalize_amount(value: &str, allow_exponent: bool) -> (res: core::result::Result<Vec<char>, NumberFault>)
    ensures
        res matches Ok(r) ==> amount_canonical(value@, allow_exponent) == Some(r@),
        res is Err ==> amount_canonical(value@, allow_exponent) is None,
{
    let all = crate::text::chars_of(value);
    let v = trim_chars(&all);
    if v.len() == 0 {
        return Err(NumberFault::Empty);
    }
    if v[0] == '-' {
        return Err(NumberFault::Negative);
    }
    let body = if v[0] == '+' {
        let b = slice_chars(&v, 1, v.len());
        assert(b@ =~= v@.drop_first());
        b
    } else {
        v
    };
    if body.len() == 0 {
        return Err(NumberFault::NoDigits);
    }
    normalize_unsigned(&body, allow_exponent, 1000)
}

/// Canonical text of a signed XSD decimal; see [`decimal_canonical`].
pub fn normalize_signed(value: &str, allow_exponent: bool) -> (res: core::result::Result<Vec<char>, NumberFault>)
    ensures
        res matches Ok(r) ==> decimal_canonical(value@, allow_exponent) == Some(r@),
        res is Err ==> decimal_canonical(value@, allow_exponent) is None,
{
    let all = crate::text::chars_of(value);
    let v = trim_chars(&all);
    if v.len() == 0 {
        return Err(NumberFault::Empty);
    }
    let negative = v[0] == '-';
    let body = if v[0] == '-' || v[0] == '+' {
        let b = slice_chars(&v, 1, v.len());
        assert(b@ =~= v@.drop_first());
        b
    } else {
        v
    };
    if body.len() == 0 {
        return Err(NumberFault::NoDigits);
    }
    let unsigned = normalize_unsigned(&body, allow_exponent, 100000)?;
    if negative && !(unsigned.len() == 1 && unsigned[0] == '0') {
        let mut signed: Vec<char> = Vec::new();
        signed.push('-');
        extend_chars(&mut signed, &unsigned);
        assert(signed@ =~= seq!['-'] + unsigned@);
        assert(unsigned@ != seq!['0']);
        Ok(signed)
    } else {
        assert(negative ==> unsigned@ =~= seq!['0']);
        Ok(unsigned)
    }
}


// ---------------------------------------------------------------------------
// The value of decimal text
// ---------------------------------------------------------------------------

/// Whether decimal text starts with a minus sign.
pub open spec fn text_negative(s: Seq<char>) -> bool {
    s.len() > 0 && s[0] == '-'
}

/// Decimal text without its sign.
pub open spec fn text_unsigned(s: Seq<char>) -> Seq<char> {
    if text_negative(s) {
        s.drop_first()
    } else {
        s
    }
}

/// The digits of decimal text, without sign and decimal point.
pub open spec fn text_digits(s: Seq<char>) -> Seq<char> {
    mantissa_digits(text_unsigned(s))
}

/// The number of fraction digits of decimal text.
pub open spec fn text_scale(s: Seq<char>) -> nat {
    let u = text_unsigned(s);
    let d = index_of(u, '.');
    if d < u.len() {
        (u.len() - d - 1) as nat
    } else {
        0
    }
}

/// The signed integer that decimal text writes when its point is ignored: the
/// text's value is `text_numerator(s) / 10^text_scale(s)`.
pub open spec fn text_numerator(s: Seq<char>) -> int {
    if text_negative(s) {
        -(digits_value(text_digits(s)) as int)
    } else {
        digits_value(text_digits(s)) as int
    }
}

/// Whether two fractions `n1 / 10^s1` and `n2 / 10^s2` are equal.
pub open spec fn same_value(n1: int, s1: nat, n2: int, s2: nat) -> bool {
    n1 * pow10(s2) == n2 * pow10(s1)
}

// ---------------------------------------------------------------------------
// Lemmas on digit strings
// ---------------------------------------------------------------------------

pub proof fn lemma_index_of_bound(s: Seq<char>, c: char)
    ensures
        0 <= index_of(s, c) <= s.len(),
        index_of(s, c) < s.len() ==> s[index_of(s, c)] == c,
        forall|k: int| 0 <= k < index_of(s, c) ==> s[k] != c,
    decreases s.len(),
{
    if s.len() > 0 && s[0] != c {
        lemma_index_of_bound(s.drop_first(), c);
        assert forall|k: int| 0 <= k < index_of(s, c) implies s[k] != c by {
            if k > 0 {
                assert(s[k] == s.drop_first()[k - 1]);
            }
        }
    }
}

pub proof fn lemma_index_of_absent(s: Seq<char>, c: char)
    requires
        forall|k: int| 0 <= k < s.len() ==> s[k] != c,
    ensures
        index_of(s, c) == s.len(),
    decreases s.len(),
{
    if s.len() > 0 {
        lemma_index_of_absent(s.drop_first(), c);
    }
}

pub proof fn lemma_index_of_concat(a: Seq<char>, b: Seq<char>, c: char)
    requires
        forall|k: int| 0 <= k < a.len() ==> a[k] != c,
    ensures
        index_of(a + b, c) == a.len() + index_of(b, c),
    decreases a.len(),
{
    if a.len() > 0 {
        assert((a + b).drop_first() =~= a.drop_first() + b);
        lemma_index_of_concat(a.drop_first(), b, c);
    } else {
        assert(a + b =~= b);
    }
}

/// Digits written one after the other.
pub proof fn lemma_digits_value_concat(x: Seq<char>, y: Seq<char>)
    ensures
        digits_value(x + y) == digits_value(x) * pow10(y.len()) + digits_value(y),
    decreases y.len(),
{
    if y.len() == 0 {
        assert(x + y =~= x);
        assert(pow10(0) == 1);
    } else {
        lemma_digits_value_concat(x, y.drop_last());
        assert((x + y).drop_last() =~= x + y.drop_last());
        assert((x + y).last() == y.last());
        let p = pow10((y.len() - 1) as nat);
        assert(pow10(y.len()) == 10 * p);
        let vx = digits_value(x);
        let vy = digits_value(y.drop_last());
        assert((vx * p + vy) * 10 == vx * (10 * p) + vy * 10) by (nonlinear_arith);
    }
}

/// Leading zeros do not change the number.
pub proof fn lemma_digits_value_strip_leading(x: Seq<char>)
    ensures
        digits_value(strip_leading_zeros(x)) == digits_value(x),
    decreases x.len(),
{
    if x.len() > 0 && x[0] == '0' {
        lemma_digits_value_strip_leading(x.drop_first());
        assert(x =~= seq![x[0]] + x.drop_first());
        lemma_digits_value_concat(seq![x[0]], x.drop_first());
        assert(seq![x[0]].drop_last() =~= Seq::<char>::empty());
        assert(digits_value(seq![x[0]].drop_last()) == 0);
        assert(seq![x[0]].last() == '0');
        assert(digit_of('0') == 0);
        assert(digits_value(seq![x[0]]) == 0);
        assert(0 * pow10(x.drop_first().len()) == 0);
    }
}

/// Trailing zeros multiply the number by a power of ten.
pub proof fn lemma_digits_value_strip_trailing(x: Seq<char>)
    ensures
        strip_trailing_zeros(x).len() <= x.len(),
        digits_value(x) == digits_value(strip_trailing_zeros(x)) * pow10(
            (x.len() - strip_trailing_zeros(x).len()) as nat,
        ),
        strip_trailing_zeros(x) == x.take(strip_trailing_zeros(x).len() as int),
    decreases x.len(),
{
    if x.len() > 0 && x.last() == '0' {
        lemma_digits_value_strip_trailing(x.drop_last());
        let t = strip_trailing_zeros(x);
        let k = (x.drop_last().len() - t.len()) as nat;
        assert(((x.len() - t.len()) as nat) == k + 1);
        assert(pow10(k + 1) == 10 * pow10(k));
        let v = digits_value(t);
        assert(digit_of(x.last()) == 0);
        assert(digits_value(x) == digits_value(x.drop_last()) * 10);
        assert(digits_value(x.drop_last()) == v * pow10(k));
        assert(v * (10 * pow10(k)) == (v * pow10(k)) * 10) by (nonlinear_arith);
        assert(digits_value(x) == v * pow10(k + 1));
        assert(x.drop_last().take(t.len() as int) =~= x.take(t.len() as int));
    } else {
        assert(x.take(x.len() as int) =~= x);
        assert(pow10(0) == 1);
        assert(strip_trailing_zeros(x) == x);
        assert(digits_value(x) * 1 == digits_value(x));
    }
}

pub proof fn lemma_strip_leading_shape(x: Seq<char>)
    ensures
        strip_leading_zeros(x).len() <= x.len(),
        strip_leading_zeros(x) == x.skip(x.len() - strip_leading_zeros(x).len()),
        strip_leading_zeros(x).len() > 0 ==> strip_leading_zeros(x)[0] != '0',
    decreases x.len(),
{
    if x.len() > 0 && x[0] == '0' {
        lemma_strip_leading_shape(x.drop_first());
        let t = strip_leading_zeros(x);
        assert(x.drop_first().skip(x.drop_first().len() - t.len()) =~= x.skip(x.len() - t.len()));
    } else {
        assert(x.skip(0) =~= x);
    }
}

pub proof fn lemma_strip_trailing_shape(x: Seq<char>)
    ensures
        strip_trailing_zeros(x).len() > 0 ==> strip_trailing_zeros(x).last() != '0',
    decreases x.len(),
{
    if x.len() > 0 && x.last() == '0' {
        lemma_strip_trailing_shape(x.drop_last());
    }
}

pub proof fn lemma_strip_leading_noop(x: Seq<char>)
    requires
        x.len() == 0 || x[0] != '0',
    ensures
        strip_leading_zeros(x) == x,
{
}

pub proof fn lemma_strip_trailing_noop(x: Seq<char>)
    requires
        x.len() == 0 || x.last() != '0',
    ensures
        strip_trailing_zeros(x) == x,
{
}

pub proof fn lemma_all_digits_sub(x: Seq<char>, i: int, j: int)
    requires
        all_digit_chars(x),
        0 <= i <= j <= x.len(),
    ensures
        all_digit_chars(x.subrange(i, j)),
{
    assert forall|k: int| 0 <= k < j - i implies is_digit(#[trigger] x.subrange(i, j)[k]) by {
        assert(x.subrange(i, j)[k] == x[i + k]);
    }
}


/// The integer digits of decimal text.
pub open spec fn text_integer(s: Seq<char>) -> Seq<char> {
    let u = text_unsigned(s);
    u.take(index_of(u, '.'))
}

/// The fraction digits of decimal text.
pub open spec fn text_fraction(s: Seq<char>) -> Seq<char> {
    let u = text_unsigned(s);
    let d = index_of(u, '.');
    if d < u.len() {
        u.skip(d + 1)
    } else {
        seq![]
    }
}

/// Whether `s` is canonical decimal text: an optional minus sign, integer
/// digits without leading zeros (or a lone `0`), and optionally a point and
/// fraction digits without trailing zeros; zero carries no sign.
pub open spec fn is_canonical_decimal(s: Seq<char>) -> bool {
    let u = text_unsigned(s);
    let i = text_integer(s);
    let f = text_fraction(s);
    &&& i.len() > 0
    &&& all_digit_chars(i)
    &&& (i.len() == 1 || i[0] != '0')
    &&& all_digit_chars(f)
    &&& (index_of(u, '.') < u.len() ==> f.len() > 0 && f.last() != '0')
    &&& (text_negative(s) ==> u != seq!['0'])
}

/// The exponent index lies within the text.
proof fn lemma_exponent_index_bound(s: Seq<char>)
    ensures
        0 <= exponent_index(s) <= s.len(),
    decreases s.len(),
{
    if s.len() > 0 {
        lemma_exponent_index_bound(s.drop_first());
    }
}

/// Text without an exponent mark has its exponent index at its end.
pub proof fn lemma_exponent_index_absent(s: Seq<char>)
    requires
        forall|k: int| 0 <= k < s.len() ==> s[k] != 'e' && s[k] != 'E',
    ensures
        exponent_index(s) == s.len(),
    decreases s.len(),
{
    if s.len() > 0 {
        lemma_exponent_index_absent(s.drop_first());
    }
}

/// Canonical decimal text normalizes to itself, as long as its decimal point
/// lies within the normalization range: normalization is idempotent.
#[verifier::spinoff_prover]
#[verifier::rlimit(80)]
pub proof fn lemma_decimal_canonical_fixed(s: Seq<char>)
    requires
        is_canonical_decimal(s),
        text_integer(s).len() <= 100000,
    ensures
        decimal_canonical(s, false) == Some(s),
{
    let u = text_unsigned(s);
    let d = index_of(u, '.');
    let i = text_integer(s);
    let f = text_fraction(s);
    lemma_index_of_bound(u, '.');
    assert(i.len() == d);
    assert(d > 0);
    if d < u.len() {
        assert(u =~= i + seq!['.'] + f);
    } else {
        assert(u =~= i);
    }
    assert forall|k: int| 0 <= k < u.len() implies u[k] != 'e' && u[k] != 'E' by {
        if k < d {
            assert(u[k] == i[k]);
            assert(is_digit(i[k]));
        } else if k > d {
            assert(u[k] == f[k - d - 1]);
            assert(is_digit(f[k - d - 1]));
        }
    }
    lemma_exponent_index_absent(u);
    assert(u.take(u.len() as int) =~= u);
    assert(is_digit(u[0]));
    let last = u[u.len() - 1];
    if d < u.len() {
        assert(last == f.last());
        assert(is_digit(f[f.len() - 1]));
    } else {
        assert(last == i[i.len() - 1]);
        assert(is_digit(i[i.len() - 1]));
    }
    assert(s.len() > 0);
    if text_negative(s) {
        assert(s =~= seq!['-'] + u);
        assert(s[s.len() - 1] == last);
    } else {
        assert(s == u);
    }
    assert(!is_white(s[0]));
    assert(trim_start(s) == s);
    assert(!is_white(s.last()));
    assert(trim_end(s) == s);
    assert(trimmed(s) == s);
    let digits = mantissa_digits(u);
    if d < u.len() {
        assert(u.take(d) =~= i);
        assert(u.skip(d + 1) =~= f);
        assert(digits =~= i + f);
        assert(digits.take(d) =~= i);
        assert(digits.skip(d) =~= f);
        assert(integer_part(digits, d) == i);
        assert(fraction_part(digits, d) == f);
    } else {
        assert(digits == i);
        assert(zeros(0) =~= Seq::<char>::empty());
        assert(integer_part(digits, d) =~= i);
        assert(fraction_part(digits, d) =~= Seq::<char>::empty());
    }
    if i.len() == 1 && i[0] == '0' {
        assert(i.drop_first().len() == 0);
        assert(strip_leading_zeros(i) == strip_leading_zeros(i.drop_first()));
        assert(strip_leading_zeros(i).len() == 0);
        assert(i =~= seq!['0']);
    } else {
        lemma_strip_leading_noop(i);
    }
    lemma_strip_trailing_noop(f);
    lemma_strip_trailing_noop(Seq::<char>::empty());
    assert(canonical_text(digits, d) == u);
    assert(mantissa_ok(u));
    assert(unsigned_canonical(u, false, 100000) == Some(u));
}

/// Canonical decimal text is made of digits, at most one point and at most
/// one leading minus sign.
pub proof fn lemma_canonical_chars(s: Seq<char>)
    requires
        is_canonical_decimal(s),
    ensures
        forall|k: int| 0 <= k < s.len() ==> is_digit(#[trigger] s[k]) || s[k] == '.' || s[k] == '-',
        s.len() > 0,
{
    let u = text_unsigned(s);
    let d = index_of(u, '.');
    let i = text_integer(s);
    let f = text_fraction(s);
    lemma_index_of_bound(u, '.');
    assert forall|k: int| 0 <= k < u.len() implies is_digit(#[trigger] u[k]) || u[k] == '.' by {
        if k < d {
            assert(u[k] == i[k]);
        } else if k > d {
            assert(u[k] == f[k - d - 1]);
        }
    }
    if text_negative(s) {
        assert forall|k: int| 0 <= k < s.len() implies is_digit(#[trigger] s[k]) || s[k] == '.' || s[k] == '-' by {
            if k > 0 {
                assert(s[k] == u[k - 1]);
            }
        }
    }
}

/// Canonical non-negative amount text normalizes to itself, as long as its
/// decimal point lies within the amount range: normalization is idempotent.
#[verifier::spinoff_prover]
#[verifier::rlimit(30)]
pub proof fn lemma_amount_canonical_fixed(s: Seq<char>)
    requires
        is_canonical_decimal(s),
        !text_negative(s),
        text_integer(s).len() <= 1000,
    ensures
        amount_canonical(s, false) == Some(s),
{
    let u = text_unsigned(s);
    let d = index_of(u, '.');
    let i = text_integer(s);
    let f = text_fraction(s);
    lemma_index_of_bound(u, '.');
    assert(i.len() == d);
    assert(d > 0);
    if d < u.len() {
        assert(u =~= i + seq!['.'] + f);
    } else {
        assert(u =~= i);
    }
    assert forall|k: int| 0 <= k < u.len() implies u[k] != 'e' && u[k] != 'E' by {
        if k < d {
            assert(u[k] == i[k]);
            assert(is_digit(i[k]));
        } else if k > d {
            assert(u[k] == f[k - d - 1]);
            assert(is_digit(f[k - d - 1]));
        }
    }
    lemma_exponent_index_absent(u);
    assert(u.take(u.len() as int) =~= u);
    assert(is_digit(u[0]));
    let last = u[u.len() - 1];
    if d < u.len() {
        assert(last == f.last());
        assert(is_digit(f[f.len() - 1]));
    } else {
        assert(last == i[i.len() - 1]);
        assert(is_digit(i[i.len() - 1]));
    }
    assert(s.len() > 0);
    if text_negative(s) {
        assert(s =~= seq!['-'] + u);
        assert(s[s.len() - 1] == last);
    } else {
        assert(s == u);
    }
    assert(!is_white(s[0]));
    assert(trim_start(s) == s);
    assert(!is_white(s.last()));
    assert(trim_end(s) == s);
    assert(trimmed(s) == s);
    let digits = mantissa_digits(u);
    if d < u.len() {
        assert(u.take(d) =~= i);
        assert(u.skip(d + 1) =~= f);
        assert(digits =~= i + f);
        assert(digits.take(d) =~= i);
        assert(digits.skip(d) =~= f);
        assert(integer_part(digits, d) == i);
        assert(fraction_part(digits, d) == f);
    } else {
        assert(digits == i);
        assert(zeros(0) =~= Seq::<char>::empty());
        assert(integer_part(digits, d) =~= i);
        assert(fraction_part(digits, d) =~= Seq::<char>::empty());
    }
    if i.len() == 1 && i[0] == '0' {
        assert(i.drop_first().len() == 0);
        assert(strip_leading_zeros(i) == strip_leading_zeros(i.drop_first()));
        assert(strip_leading_zeros(i).len() == 0);
        assert(i =~= seq!['0']);
    } else {
        lemma_strip_leading_noop(i);
    }
    lemma_strip_trailing_noop(f);
    lemma_strip_trailing_noop(Seq::<char>::empty());
    assert(canonical_text(digits, d) == u);
    assert(mantissa_ok(u));
    assert(unsigned_canonical(u, false, 1000) == Some(u));
}


proof fn lemma_digits_concat_ok(a: Seq<char>, b: Seq<char>)
    requires
        all_digit_chars(a),
        all_digit_chars(b),
    ensures
        all_digit_chars(a + b),
{
    assert forall|k: int| 0 <= k < (a + b).len() implies is_digit(#[trigger] (a + b)[k]) by {
        if k < a.len() {
            assert((a + b)[k] == a[k]);
        } else {
            assert((a + b)[k] == b[k - a.len()]);
        }
    }
}

proof fn lemma_no_dot(a: Seq<char>)
    requires
        all_digit_chars(a),
    ensures
        forall|k: int| 0 <= k < a.len() ==> a[k] != '.',
{
    assert forall|k: int| 0 <= k < a.len() implies a[k] != '.' by {
        assert(is_digit(a[k]));
    }
}

/// Canonical text has canonical shape and, for a point within the digits,
/// the value of the digits with that many fraction digits.
pub proof fn lemma_canonical_text(digits: Seq<char>, point: int)
    requires
        all_digit_chars(digits),
    ensures
        is_canonical_decimal(canonical_text(digits, point)),
        !text_negative(canonical_text(digits, point)),
        0 <= point <= digits.len() ==> same_value(
            text_numerator(canonical_text(digits, point)),
            text_scale(canonical_text(digits, point)),
            digits_value(digits) as int,
            (digits.len() - point) as nat,
        ),
{
    let i0 = integer_part(digits, point);
    let f0 = fraction_part(digits, point);
    assert(all_digit_chars(i0)) by {
        if point <= 0 {
        } else if point >= digits.len() {
            lemma_digits_concat_ok(digits, zeros(point - digits.len()));
        } else {
            lemma_all_digits_sub(digits, 0, point);
            assert(digits.take(point) =~= digits.subrange(0, point));
        }
    }
    assert(all_digit_chars(f0)) by {
        if point <= 0 {
            lemma_digits_concat_ok(zeros(-point), digits);
        } else if point >= digits.len() {
        } else {
            lemma_all_digits_sub(digits, point, digits.len() as int);
            assert(digits.skip(point) =~= digits.subrange(point, digits.len() as int));
        }
    }
    let s0 = strip_leading_zeros(i0);
    lemma_strip_leading_shape(i0);
    lemma_all_digits_sub(i0, i0.len() - s0.len(), i0.len() as int);
    assert(s0 =~= i0.subrange(i0.len() - s0.len(), i0.len() as int));
    let ip = if s0.len() == 0 { seq!['0'] } else { s0 };
    let fp = strip_trailing_zeros(f0);
    lemma_digits_value_strip_trailing(f0);
    lemma_strip_trailing_shape(f0);
    lemma_all_digits_sub(f0, 0, fp.len() as int);
    assert(fp =~= f0.subrange(0, fp.len() as int));
    assert(all_digit_chars(ip));
    lemma_no_dot(ip);
    let c = canonical_text(digits, point);
    assert(!text_negative(c)) by {
        assert(c[0] == ip[0]);
        assert(is_digit(ip[0]));
    }
    assert(text_unsigned(c) == c);
    if fp.len() == 0 {
        assert(c == ip);
        lemma_index_of_absent(c, '.');
        assert(c.take(c.len() as int) =~= c);
        assert(text_integer(c) == ip);
        assert(text_fraction(c) == Seq::<char>::empty());
        assert(text_digits(c) == ip);
        assert(text_scale(c) == 0);
    } else {
        assert(c == ip + seq!['.'] + fp);
        assert(c =~= ip + (seq!['.'] + fp));
        lemma_index_of_concat(ip, seq!['.'] + fp, '.');
        assert((seq!['.'] + fp)[0] == '.');
        assert(index_of(seq!['.'] + fp, '.') == 0);
        assert(index_of(c, '.') == ip.len());
        assert(c.take(ip.len() as int) =~= ip);
        assert(c.skip(ip.len() as int + 1) =~= fp);
        assert(text_integer(c) == ip);
        assert(text_fraction(c) == fp);
        assert(text_digits(c) =~= ip + fp);
        assert(text_scale(c) == fp.len());
    }
    assert(is_canonical_decimal(c)) by {
        if s0.len() > 0 {
            assert(ip[0] != '0');
        }
    }
    if 0 <= point <= digits.len() {
        assert(digits =~= i0 + f0) by {
            if point == 0 {
                assert(zeros(0) =~= Seq::<char>::empty());
            } else if point == digits.len() {
                assert(zeros(0) =~= Seq::<char>::empty());
            }
        }
        assert(f0.len() == digits.len() - point) by {
            if point == 0 {
                assert(zeros(0) =~= Seq::<char>::empty());
            }
        }
        lemma_digits_value_concat(i0, f0);
        lemma_digits_value_strip_leading(i0);
        assert(digits_value(ip) == digits_value(i0)) by {
            if s0.len() == 0 {
                assert(seq!['0'].drop_last() =~= Seq::<char>::empty());
                assert(digits_value(seq!['0'].drop_last()) == 0);
                assert(digit_of('0') == 0);
            }
        }
        lemma_digits_value_concat(ip, fp);
        let k = (f0.len() - fp.len()) as nat;
        lemma_pow10_add(fp.len(), k);
        let vi = digits_value(i0);
        let vf = digits_value(fp);
        let a = pow10(fp.len());
        let b = pow10(k);
        assert(digits_value(text_digits(c)) == vi * a + vf);
        assert(digits_value(digits) == vi * (a * b) + vf * b);
        assert((vi * a + vf) * b == vi * (a * b) + vf * b) by (nonlinear_arith);
        assert(text_numerator(c) == digits_value(text_digits(c)) as int);
        assert(pow10((digits.len() - point) as nat) == a * b);
        assert((vi * a + vf) * (a * b) == (vi * (a * b) + vf * b) * a) by (nonlinear_arith);
        assert(text_scale(c) == fp.len());
    }
}


// ---------------------------------------------------------------------------
// Between decimal text and little-endian digit vectors
// ---------------------------------------------------------------------------

/// The little-endian digit values of ASCII digit text.
pub open spec fn reversed_digits(d: Seq<char>) -> Seq<u8> {
    Seq::new(d.len(), |i: int| (d[d.len() - 1 - i] as u32 - 48) as u8)
}

/// The ASCII digit text of little-endian digit values.
pub open spec fn digit_text(ds: Seq<u8>) -> Seq<char> {
    Seq::new(ds.len(), |i: int| ((ds[ds.len() - 1 - i] + 48) as u8) as char)
}

pub proof fn lemma_reversed_digits_value(d: Seq<char>)
    requires
        all_digit_chars(d),
    ensures
        lsb_value(reversed_digits(d)) == digits_value(d),
        digits_ok(reversed_digits(d)),
    decreases d.len(),
{
    let r = reversed_digits(d);
    if d.len() > 0 {
        lemma_all_digits_sub(d, 0, d.len() - 1);
        assert(d.drop_last() =~= d.subrange(0, d.len() - 1));
        lemma_reversed_digits_value(d.drop_last());
        assert(r.drop_first() =~= reversed_digits(d.drop_last()));
        assert(r[0] == digit_of(d.last()));
    }
    assert(digits_ok(r)) by {
        assert forall|i: int| 0 <= i < r.len() implies #[trigger] r[i] < 10 by {
            assert(is_digit(d[d.len() - 1 - i]));
        }
    }
}

pub proof fn lemma_digit_text(ds: Seq<u8>)
    requires
        digits_ok(ds),
    ensures
        all_digit_chars(digit_text(ds)),
        reversed_digits(digit_text(ds)) == ds,
        digits_value(digit_text(ds)) == lsb_value(ds),
{
    let t = digit_text(ds);
    assert(all_digit_chars(t)) by {
        assert forall|i: int| 0 <= i < t.len() implies is_digit(#[trigger] t[i]) by {
            assert(ds[ds.len() - 1 - i] < 10);
        }
    }
    assert(reversed_digits(t) =~= ds) by {
        assert forall|i: int| 0 <= i < ds.len() implies reversed_digits(t)[i] == ds[i] by {
            assert(ds[i] < 10);
        }
    }
    lemma_reversed_digits_value(t);
}

/// The sign, little-endian digits and scale of canonical decimal text.
pub fn scaled_parts(s: &Vec<char>) -> (res: (bool, Vec<u8>, usize))
    requires
        is_canonical_decimal(s@),
    ensures
        res.0 == text_negative(s@),
        digits_ok(res.1@),
        lsb_value(res.1@) == digits_value(text_digits(s@)),
        res.2 == text_scale(s@),
        res.1@.len() > res.2,
{
    let negative = s.len() > 0 && s[0] == '-';
    let u = if negative { slice_chars(s, 1, s.len()) } else { slice_chars(s, 0, s.len()) };
    assert(u@ =~= text_unsigned(s@));
    let d = find_char(&u, '.');
    let mut digits = slice_chars(&u, 0, d);
    let scale: usize = if d < u.len() {
        let f = slice_chars(&u, d + 1, u.len());
        extend_chars(&mut digits, &f);
        u.len() - d - 1
    } else {
        0
    };
    assert(digits@ =~= text_digits(s@));
    proof {
        lemma_digits_concat_ok(text_integer(s@), text_fraction(s@));
        if d < u@.len() {
            assert(u@.skip(d + 1) =~= text_fraction(s@));
        }
        assert(u@.take(d as int) =~= text_integer(s@));
    }
    let ghost dg = digits@;
    let mut r: Vec<u8> = Vec::new();
    let mut j = digits.len();
    let n = digits.len();
    while j > 0
        invariant
            j <= n == digits@.len(),
            digits@ == dg,
            all_digit_chars(dg),
            r@ == reversed_digits(dg.subrange(j as int, n as int)),
        decreases j,
    {
        assert(is_digit(digits@[j - 1]));
        let v = (digits[j - 1] as u32 - 48) as u8;
        r.push(v);
        assert(r@ =~= reversed_digits(dg.subrange(j - 1, n as int)));
        j = j - 1;
    }
    assert(dg.subrange(0, n as int) =~= dg);
    proof {
        lemma_reversed_digits_value(dg);
    }
    (negative, r, scale)
}

/// Canonical unsigned decimal text of `digits / 10^scale`.
fn unsigned_scaled_text(ds: &Vec<u8>, scale: usize) -> (res: Vec<char>)
    requires
        digits_ok(ds@),
        scale < usize::MAX,
    ensures
        text_scale(res@) <= scale,
        is_canonical_decimal(res@),
        !text_negative(res@),
        same_value(text_numerator(res@), text_scale(res@), lsb_value(ds@) as int, scale as nat),
{
    let padded = crate::magnitude::zero_extend(ds, scale + 1);
    let n = padded.len();
    let mut chars: Vec<char> = Vec::new();
    let mut i: usize = 0;
    while i < n
        invariant
            i <= n == padded@.len(),
            digits_ok(padded@),
            chars@ == digit_text(padded@).take(i as int),
        decreases n - i,
    {
        let c = (padded[n - 1 - i] + 48) as char;
        chars.push(c);
        assert(digit_text(padded@).take(i + 1) =~= digit_text(padded@).take(i as int).push(c));
        i = i + 1;
    }
    assert(digit_text(padded@).take(n as int) =~= digit_text(padded@));
    proof {
        lemma_digit_text(padded@);
    }
    let point = n - scale;
    let integer = slice_chars(&chars, 0, point);
    let fraction = slice_chars(&chars, point, n);
    assert(integer@ =~= integer_part(chars@, point as int));
    assert(fraction@ =~= fraction_part(chars@, point as int));
    let mut head = strip_leading(&integer);
    if head.len() == 0 {
        head.push('0');
    }
    let tail = strip_trailing(&fraction);
    if tail.len() > 0 {
        head.push('.');
        extend_chars(&mut head, &tail);
    }
    assert(head@ == canonical_text(chars@, point as int));
    proof {
        lemma_canonical_text(chars@, point as int);
        lemma_canonical_scale(chars@, point as int);
    }
    head
}

pub proof fn lemma_zero_text(c: Seq<char>)
    requires
        c == seq!['0'],
    ensures
        text_numerator(c) == 0,
        text_scale(c) == 0,
{
    lemma_index_of_absent(c, '.');
    assert(c.take(1) =~= c);
    assert(text_digits(c) =~= seq!['0']);
    assert(seq!['0'].drop_last() =~= Seq::<char>::empty());
    assert(digits_value(seq!['0'].drop_last()) == 0);
    assert(digit_of('0') == 0);
}

pub proof fn lemma_negated_text(c: Seq<char>)
    requires
        is_canonical_decimal(c),
        !text_negative(c),
        c != seq!['0'],
    ensures
        is_canonical_decimal(seq!['-'] + c),
        text_numerator(seq!['-'] + c) == -text_numerator(c),
        text_scale(seq!['-'] + c) == text_scale(c),
{
    let s = seq!['-'] + c;
    assert(text_negative(s));
    assert(s.drop_first() =~= c);
    assert(text_unsigned(s) == c);
}

/// Canonical decimal text of `±digits / 10^scale`; zero is unsigned.
pub fn scaled_text(negative: bool, ds: &Vec<u8>, scale: usize) -> (res: Vec<char>)
    requires
        digits_ok(ds@),
        scale < usize::MAX,
    ensures
        text_scale(res@) <= scale,
        is_canonical_decimal(res@),
        same_value(
            text_numerator(res@),
            text_scale(res@),
            if negative { -(lsb_value(ds@) as int) } else { lsb_value(ds@) as int },
            scale as nat,
        ),
{
    let head = unsigned_scaled_text(ds, scale);
    let zero = head.len() == 1 && head[0] == '0';
    if negative && !zero {
        let mut signed: Vec<char> = Vec::new();
        signed.push('-');
        extend_chars(&mut signed, &head);
        proof {
            assert(head@ != seq!['0']);
            lemma_negated_text(head@);
            assert(signed@ =~= seq!['-'] + head@);
            let n = text_numerator(head@);
            let v = lsb_value(ds@) as int;
            assert(n * pow10(scale as nat) == v * pow10(text_scale(head@)));
            assert((-n) * pow10(scale as nat) == (-v) * pow10(text_scale(head@))) by (nonlinear_arith)
                requires n * pow10(scale as nat) == v * pow10(text_scale(head@));
        }
        signed
    } else {
        proof {
            if negative {
                assert(head@ =~= seq!['0']);
                lemma_zero_text(head@);
                let v = lsb_value(ds@) as int;
                assert(0 * pow10(scale as nat) == v * pow10(0));
                assert(pow10(0) == 1);
                assert(0 * pow10(scale as nat) == 0) by (nonlinear_arith);
                let one = pow10(0);
                assert(one == 1);
                assert(v * one == v) by (nonlinear_arith)
                    requires one == 1;
                assert(v == 0);
            }
        }
        head
    }
}

/// The digits of a well-formed mantissa are ASCII digits.
pub proof fn lemma_mantissa_digits_ok(m: Seq<char>)
    requires
        mantissa_ok(m),
    ensures
        all_digit_chars(mantissa_digits(m)),
{
    let d = index_of(m, '.');
    lemma_index_of_bound(m, '.');
    if d < m.len() {
        lemma_digits_concat_ok(m.take(d), m.skip(d + 1));
    } else {
        assert(m.take(d) =~= m);
    }
}

/// What unsigned normalization produces is canonical and unsigned.
pub proof fn lemma_unsigned_canonical_shape(body: Seq<char>, allow_exponent: bool, limit: int)
    requires
        unsigned_canonical(body, allow_exponent, limit) is Some,
    ensures
        is_canonical_decimal(unsigned_canonical(body, allow_exponent, limit)->0),
        !text_negative(unsigned_canonical(body, allow_exponent, limit)->0),
{
    let e = exponent_index(body);
    let mantissa = body.take(e);
    lemma_mantissa_digits_ok(mantissa);
    let exponent = if e < body.len() { signed_integer_value(body.skip(e + 1)) } else { Some(0) };
    let point = index_of(mantissa, '.') + exponent->0;
    lemma_canonical_text(mantissa_digits(mantissa), point);
}

/// A normalized signed decimal is canonical decimal text.
pub proof fn lemma_decimal_canonical_shape(value: Seq<char>, allow_exponent: bool)
    requires
        decimal_canonical(value, allow_exponent) is Some,
    ensures
        is_canonical_decimal(decimal_canonical(value, allow_exponent)->0),
{
    let v = trimmed(value);
    let body = if v[0] == '-' || v[0] == '+' { v.drop_first() } else { v };
    lemma_unsigned_canonical_shape(body, allow_exponent, 100000);
    let u = unsigned_canonical(body, allow_exponent, 100000)->0;
    if v[0] == '-' && u != seq!['0'] {
        lemma_negated_text(u);
    }
}

/// A normalized amount is canonical, unsigned decimal text.
pub proof fn lemma_amount_canonical_shape(value: Seq<char>, allow_exponent: bool)
    requires
        amount_canonical(value, allow_exponent) is Some,
    ensures
        is_canonical_decimal(amount_canonical(value, allow_exponent)->0),
        !text_negative(amount_canonical(value, allow_exponent)->0),
{
    let v = trimmed(value);
    let body = if v[0] == '+' { v.drop_first() } else { v };
    lemma_unsigned_canonical_shape(body, allow_exponent, 1000);
}

/// Stripping trailing zeros never lengthens text.
pub proof fn lemma_strip_trailing_len(x: Seq<char>)
    ensures
        strip_trailing_zeros(x).len() <= x.len(),
    decreases x.len(),
{
    if x.len() > 0 && x.last() == '0' {
        lemma_strip_trailing_len(x.drop_last());
    }
}

/// Canonical text has no more fraction digits than the digits after the
/// point.
pub proof fn lemma_canonical_scale(digits: Seq<char>, point: int)
    requires
        all_digit_chars(digits),
    ensures
        text_scale(canonical_text(digits, point)) <= fraction_part(digits, point).len(),
{
    let i0 = integer_part(digits, point);
    let f0 = fraction_part(digits, point);
    assert(all_digit_chars(i0)) by {
        if point <= 0 {
        } else if point >= digits.len() {
            lemma_digits_concat_ok(digits, zeros(point - digits.len()));
        } else {
            lemma_all_digits_sub(digits, 0, point);
            assert(digits.take(point) =~= digits.subrange(0, point));
        }
    }
    let s0 = strip_leading_zeros(i0);
    lemma_strip_leading_shape(i0);
    lemma_all_digits_sub(i0, i0.len() - s0.len(), i0.len() as int);
    assert(s0 =~= i0.subrange(i0.len() - s0.len(), i0.len() as int));
    let ip = if s0.len() == 0 { seq!['0'] } else { s0 };
    assert(all_digit_chars(ip));
    lemma_no_dot(ip);
    let fp = strip_trailing_zeros(f0);
    lemma_strip_trailing_len(f0);
    let c = canonical_text(digits, point);
    assert(!text_negative(c)) by {
        assert(c[0] == ip[0]);
        assert(is_digit(ip[0]));
    }
    if fp.len() == 0 {
        assert(c == ip);
        lemma_index_of_absent(c, '.');
    } else {
        assert(c == ip + (seq!['.'] + fp));
        lemma_index_of_concat(ip, seq!['.'] + fp, '.');
        assert(index_of(seq!['.'] + fp, '.') == 0);
    }
}

/// The fraction that decimal text without an exponent writes, read as it
/// stands: its sign, and its digits over ten to the number of its fraction
/// digits.
pub open spec fn written_fraction(value: Seq<char>) -> (int, nat) {
    let v = trimmed(value);
    let signed = v.len() > 0 && (v[0] == '-' || v[0] == '+');
    let body = if signed { v.drop_first() } else { v };
    let digits = mantissa_digits(body);
    let n = digits_value(digits) as int;
    (if v.len() > 0 && v[0] == '-' { -n } else { n }, (digits.len() - index_of(body, '.')) as nat)
}

/// Normalizing decimal text keeps its number: the canonical text writes the
/// same fraction as the text it came from.
pub proof fn lemma_decimal_canonical_value(value: Seq<char>)
    requires
        decimal_canonical(value, false) is Some,
    ensures
        same_value(
            text_numerator(decimal_canonical(value, false)->0),
            text_scale(decimal_canonical(value, false)->0),
            written_fraction(value).0,
            written_fraction(value).1,
        ),
{
    let v = trimmed(value);
    let body = if v[0] == '-' || v[0] == '+' { v.drop_first() } else { v };
    assert(v.len() > 0);
    assert(unsigned_canonical(body, false, 100000) is Some);
    let e = exponent_index(body);
    lemma_exponent_index_bound(body);
    assert(e == body.len());
    assert(body.take(e) =~= body);
    let digits = mantissa_digits(body);
    let d = index_of(body, '.');
    lemma_index_of_bound(body, '.');
    lemma_mantissa_digits_ok(body);
    if d < body.len() {
        assert(digits.len() == body.len() - 1);
    }
    let u = unsigned_canonical(body, false, 100000)->0;
    assert(u == canonical_text(digits, d));
    lemma_canonical_text(digits, d);
    let n = digits_value(digits) as int;
    let k = (digits.len() - d) as nat;
    assert(same_value(text_numerator(u), text_scale(u), n, k));
    if v[0] == '-' {
        if u != seq!['0'] {
            lemma_negated_text(u);
            let nu = text_numerator(u);
            let su = text_scale(u);
            assert((-nu) * pow10(k) == (-n) * pow10(su)) by (nonlinear_arith)
                requires
                    nu * pow10(k) == n * pow10(su),
            ;
        } else {
            lemma_zero_text(u);
            lemma_pow10_positive(k);
            assert(n == 0) by (nonlinear_arith)
                requires
                    0 * pow10(k) == n * pow10(0),
                    pow10(0) == 1,
            ;
        }
    }
}

/// The fraction that digits write with the decimal point after `point` of
/// them: the digits over ten to the number of digits after the point, or,
/// when the point lies past the digits, the digits times ten to the distance.
pub open spec fn point_fraction(digits: Seq<char>, point: int) -> (int, nat) {
    if point >= digits.len() {
        ((digits_value(digits) * pow10((point - digits.len()) as nat)) as int, 0)
    } else {
        (digits_value(digits) as int, (digits.len() - point) as nat)
    }
}

/// Canonical text keeps the number that digits write around their point,
/// wherever the point lies.
pub proof fn lemma_canonical_point_value(digits: Seq<char>, point: int)
    requires
        all_digit_chars(digits),
    ensures
        same_value(
            text_numerator(canonical_text(digits, point)),
            text_scale(canonical_text(digits, point)),
            point_fraction(digits, point).0,
            point_fraction(digits, point).1,
        ),
{
    let c = canonical_text(digits, point);
    let v = digits_value(digits);
    if 0 <= point <= digits.len() {
        lemma_canonical_text(digits, point);
        if point == digits.len() {
            assert(pow10(0) == 1);
            assert(v * pow10(0) == v) by (nonlinear_arith)
                requires
                    pow10(0) == 1,
            ;
        }
    } else if point > digits.len() {
        let m = point - digits.len();
        let d2 = digits + zeros(m);
        assert(all_digit_chars(zeros(m)));
        lemma_digits_concat_ok(digits, zeros(m));
        assert(integer_part(d2, point) =~= integer_part(digits, point)) by {
            assert(zeros(0) =~= Seq::<char>::empty());
        }
        assert(fraction_part(d2, point) =~= fraction_part(digits, point));
        assert(canonical_text(d2, point) == c);
        lemma_canonical_text(d2, point);
        lemma_digits_value_concat(digits, zeros(m));
        crate::numeral::lemma_zeros_value(m as nat);
        assert(digits_value(d2) == v * pow10(m as nat));
        assert(pow10(0) == 1);
    } else {
        let z = zeros(-point);
        let d2 = z + digits;
        assert(all_digit_chars(z));
        lemma_digits_concat_ok(z, digits);
        assert(integer_part(d2, 0) =~= integer_part(digits, point));
        assert(fraction_part(d2, 0) =~= fraction_part(digits, point)) by {
            assert(zeros(0) =~= Seq::<char>::empty());
        }
        assert(canonical_text(d2, 0) == c);
        lemma_canonical_text(d2, 0);
        lemma_digits_value_concat(z, digits);
        crate::numeral::lemma_zeros_value((-point) as nat);
        assert(digits_value(d2) == v) by (nonlinear_arith)
            requires
                digits_value(d2) == 0 * pow10(digits.len()) + v,
        ;
    }
}

/// The fraction that amount text writes, read as it stands: its digits
/// around the point, the point moved by the exponent when there is one.
pub open spec fn written_amount(value: Seq<char>, allow_exponent: bool) -> (int, nat) {
    let v = trimmed(value);
    let body = if v.len() > 0 && v[0] == '+' { v.drop_first() } else { v };
    let e = exponent_index(body);
    let mantissa = body.take(e);
    let exponent = if e < body.len() { signed_integer_value(body.skip(e + 1)) } else { Some(0) };
    point_fraction(mantissa_digits(mantissa), index_of(mantissa, '.') + exponent->0)
}

/// Normalizing amount text keeps its number.
pub proof fn lemma_amount_canonical_value(value: Seq<char>, allow_exponent: bool)
    requires
        amount_canonical(value, allow_exponent) is Some,
    ensures
        same_value(
            text_numerator(amount_canonical(value, allow_exponent)->0),
            text_scale(amount_canonical(value, allow_exponent)->0),
            written_amount(value, allow_exponent).0,
            written_amount(value, allow_exponent).1,
        ),
{
    let v = trimmed(value);
    let body = if v[0] == '+' { v.drop_first() } else { v };
    assert(unsigned_canonical(body, allow_exponent, 1000) is Some);
    let e = exponent_index(body);
    let mantissa = body.take(e);
    lemma_mantissa_digits_ok(mantissa);
    let exponent = if e < body.len() { signed_integer_value(body.skip(e + 1)) } else { Some(0) };
    lemma_canonical_point_value(mantissa_digits(mantissa), index_of(mantissa, '.') + exponent->0);
}

/// Whether text holds an exponent mark, `e` or `E`.
pub open spec fn has_exponent_mark(s: Seq<char>) -> bool {
    exists|k: int| 0 <= k < s.len() && (s[k] == 'e' || s[k] == 'E')
}

/// The exponent index is the place of the first exponent mark, or the end.
proof fn lemma_exponent_index_mark(s: Seq<char>)
    ensures
        exponent_index(s) < s.len() <==> has_exponent_mark(s),
    decreases s.len(),
{
    lemma_exponent_index_bound(s);
    if s.len() > 0 {
        lemma_exponent_index_mark(s.drop_first());
        if has_exponent_mark(s.drop_first()) {
            let k = choose|k: int| 0 <= k < s.drop_first().len() && (s.drop_first()[k] == 'e' || s.drop_first()[k] == 'E');
            assert(s[k + 1] == s.drop_first()[k]);
        }
        if has_exponent_mark(s) && !(s[0] == 'e' || s[0] == 'E') {
            let k = choose|k: int| 0 <= k < s.len() && (s[k] == 'e' || s[k] == 'E');
            assert(k > 0);
            assert(s.drop_first()[k - 1] == s[k]);
        }
        if s[0] == 'e' || s[0] == 'E' {
            assert(has_exponent_mark(s));
        }
    }
}

/// Text without sign and exponent is normalized exactly when it is digits
/// with at most one point, at least one digit, and at most `limit` integer
/// digits.
proof fn lemma_plain_body(body: Seq<char>, limit: int)
    requires
        limit >= 0,
    ensures
        unsigned_canonical(body, false, limit) is Some <==> !has_exponent_mark(body) && mantissa_ok(body)
            && index_of(body, '.') <= limit,
{
    lemma_exponent_index_mark(body);
    lemma_exponent_index_bound(body);
    lemma_index_of_bound(body, '.');
    if !has_exponent_mark(body) {
        assert(body.take(body.len() as int) =~= body);
    }
}

/// The rules of amount text written without exponent notation: after
/// surrounding white space is removed, it is not empty, has no minus sign,
/// and after an optional plus sign is digits with at most one point, at
/// least one digit, no exponent mark and at most 1000 integer digits.
pub open spec fn amount_text_ok(value: Seq<char>) -> bool {
    let v = trimmed(value);
    let body = if v.len() > 0 && v[0] == '+' { v.drop_first() } else { v };
    &&& v.len() > 0
    &&& v[0] != '-'
    &&& !has_exponent_mark(body)
    &&& mantissa_ok(body)
    &&& index_of(body, '.') <= 1000
}

/// The rules of decimal text: after surrounding white space is removed, an
/// optional sign, then digits with at most one point, at least one digit, no
/// exponent mark and at most 100000 integer digits.
pub open spec fn decimal_text_ok(value: Seq<char>) -> bool {
    let v = trimmed(value);
    let body = if v.len() > 0 && (v[0] == '+' || v[0] == '-') { v.drop_first() } else { v };
    &&& v.len() > 0
    &&& !has_exponent_mark(body)
    &&& mantissa_ok(body)
    &&& index_of(body, '.') <= 100000
}

/// Amount text without exponent notation is accepted exactly when it keeps
/// the amount rules; what is accepted is canonical, unsigned decimal text.
pub proof fn lemma_amount_rules(value: Seq<char>)
    ensures
        amount_canonical(value, false) is Some <==> amount_text_ok(value),
        amount_canonical(value, false) matches Some(t) ==> is_canonical_decimal(t) && !text_negative(t),
{
    let v = trimmed(value);
    if v.len() > 0 && v[0] != '-' {
        let body = if v[0] == '+' { v.drop_first() } else { v };
        lemma_plain_body(body, 1000);
        if body.len() == 0 {
            assert(!mantissa_ok(body)) by {
                lemma_index_of_bound(body, '.');
            }
        }
    }
    if amount_canonical(value, false) is Some {
        lemma_amount_canonical_shape(value, false);
    }
}

/// Decimal text is accepted exactly when it keeps the decimal rules; what is
/// accepted is canonical decimal text, never `-0`.
pub proof fn lemma_decimal_rules(value: Seq<char>)
    ensures
        decimal_canonical(value, false) is Some <==> decimal_text_ok(value),
        decimal_canonical(value, false) matches Some(t) ==> is_canonical_decimal(t) && t != seq!['-', '0'],
{
    let v = trimmed(value);
    if v.len() > 0 {
        let body = if v[0] == '-' || v[0] == '+' { v.drop_first() } else { v };
        lemma_plain_body(body, 100000);
        if body.len() == 0 {
            assert(!mantissa_ok(body)) by {
                lemma_index_of_bound(body, '.');
            }
        }
    }
    if decimal_canonical(value, false) is Some {
        lemma_decimal_canonical_shape(value, false);
        let t = decimal_canonical(value, false)->0;
        if t == seq!['-', '0'] {
            assert(text_negative(t));
            assert(text_unsigned(t) =~= seq!['0']);
        }
    }
}

} // verus!
