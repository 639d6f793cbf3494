//! Decimal numerals of unsigned integers: writing them and reading them back.

use vstd::prelude::*;
use crate::decimal::{all_digit_chars, digit_of, digits_value, is_digit, lemma_digits_value_prefix, zeros};

verus! {

/// The ASCII digit of `d` (below ten).
pub open spec fn digit_char(d: nat) -> char {
    (d + 48) as char
}

/// The decimal numeral of `n` without leading zeros (`u64::to_string`).
pub open spec fn nat_text(n: nat) -> Seq<char>
    decreases n,
{
    if n < 10 {
        seq![digit_char(n)]
    } else {
        nat_text(n / 10).push(digit_char(n % 10))
    }
}

/// The numeral of `n` padded with leading zeros to at least `width` digits.
pub open spec fn padded_text(n: nat, width: nat) -> Seq<char> {
    let t = nat_text(n);
    if t.len() < width {
        zeros(width - t.len()) + t
    } else {
        t
    }
}

/// Whether `s` is a non-empty string of ASCII digits.
pub open spec fn is_numeral(s: Seq<char>) -> bool {
    s.len() > 0 && all_digit_chars(s)
}

/// A numeral is digits, is never empty, has no leading zero and reads back as
/// its number.
pub proof fn lemma_nat_text(n: nat)
    ensures
        is_numeral(nat_text(n)),
        digits_value(nat_text(n)) == n,
        nat_text(n).len() > 1 ==> nat_text(n)[0] != '0',
        n < 10 <==> nat_text(n).len() == 1,
    decreases n,
{
    if n >= 10 {
        lemma_nat_text(n / 10);
        let t = nat_text(n);
        assert(t.drop_last() =~= nat_text(n / 10));
        assert(digit_of(digit_char(n % 10)) == n % 10);
        assert(t.last() == digit_char(n % 10));
        assert(digits_value(t) == digits_value(t.drop_last()) * 10 + digit_of(t.last()));
        assert((n / 10) * 10 + n % 10 == n);
        assert(t[0] == nat_text(n / 10)[0]);
    } else {
        assert(digit_of(digit_char(n)) == n);
        let t = nat_text(n);
        assert(t.drop_last() =~= Seq::<char>::empty());
        assert(digits_value(t.drop_last()) == 0);
        assert(digits_value(t) == digits_value(t.drop_last()) * 10 + digit_of(t.last()));
    }
}

/// Leading zeros do not change the number that digits write.
pub proof fn lemma_leading_zeros(m: nat, t: Seq<char>)
    ensures
        digits_value(zeros(m as int) + t) == digits_value(t),
    decreases t.len(),
{
    if t.len() == 0 {
        lemma_zeros_value(m);
        assert(zeros(m as int) + t =~= zeros(m as int));
    } else {
        lemma_leading_zeros(m, t.drop_last());
        assert((zeros(m as int) + t).drop_last() =~= zeros(m as int) + t.drop_last());
    }
}

/// Zeros write zero.
pub proof fn lemma_zeros_value(m: nat)
    ensures
        digits_value(zeros(m as int)) == 0,
    decreases m,
{
    if m > 0 {
        lemma_zeros_value((m - 1) as nat);
        assert(zeros(m as int).drop_last() =~= zeros(m - 1));
    }
}

/// A padded numeral is a numeral of the same number.
pub proof fn lemma_padded_text(n: nat, width: nat)
    ensures
        is_numeral(padded_text(n, width)),
        digits_value(padded_text(n, width)) == n,
{
    lemma_nat_text(n);
    let t = nat_text(n);
    if t.len() < width {
        lemma_leading_zeros((width - t.len()) as nat, t);
        let p = zeros(width - t.len()) + t;
        assert forall|i: int| 0 <= i < p.len() implies crate::decimal::is_digit(#[trigger] p[i]) by {
            if i >= width - t.len() {
                assert(p[i] == t[i - (width - t.len())]);
            }
        }
    }
}

/// The numeral of `n`.
pub fn u64_chars(n: u64) -> (r: Vec<char>)
    ensures
        r@ == nat_text(n as nat),
    decreases n,
{
    let d = (n % 10) as u32;
    let c = char_of_digit(d);
    if n < 10 {
        let mut r: Vec<char> = Vec::new();
        r.push(c);
        r
    } else {
        let mut r = u64_chars(n / 10);
        r.push(c);
        r
    }
}

/// The ASCII digit of `d`.
pub fn char_of_digit(d: u32) -> (c: char)
    requires
        d < 10,
    ensures
        c == digit_char(d as nat),
        is_digit(c),
{
    let r = if d == 0 { '0' } else if d == 1 { '1' } else if d == 2 { '2' } else if d == 3 { '3' }
        else if d == 4 { '4' } else if d == 5 { '5' } else if d == 6 { '6' } else if d == 7 { '7' }
        else if d == 8 { '8' } else { '9' };
    r
}

/// `n` written as a decimal `String`.
pub fn u64_string(n: u64) -> (r: String)
    ensures
        r@ == nat_text(n as nat),
{
    let chars = u64_chars(n);
    crate::text::string_from_chars(chars.as_slice())
}

/// The numeral of `n` padded with leading zeros to at least `width` digits.
pub fn padded_chars(n: u64, width: usize) -> (r: Vec<char>)
    ensures
        r@ == padded_text(n as nat, width as nat),
{
    let t = u64_chars(n);
    if t.len() < width {
        let mut r: Vec<char> = Vec::new();
        let k = width - t.len();
        let mut i: usize = 0;
        while i < k
            invariant
                i <= k,
                r@ == zeros(i as int),
            decreases k - i,
        {
            r.push('0');
            i = i + 1;
            assert(r@ =~= zeros(i as int));
        }
        let mut j: usize = 0;
        while j < t.len()
            invariant
                j <= t@.len(),
                r@ == zeros(k as int) + t@.take(j as int),
            decreases t.len() - j,
        {
            r.push(t[j]);
            j = j + 1;
            assert(r@ =~= zeros(k as int) + t@.take(j as int));
        }
        assert(t@.take(t@.len() as int) =~= t@);
        r
    } else {
        t
    }
}

/// The number that `s` writes when it is a numeral of at most `max`;
/// otherwise `None` (`str::parse` for an unsigned type whose largest value
/// is `max`, on text without a sign).
pub fn parse_numeral(s: &Vec<char>, max: u64) -> (r: Option<u64>)
    ensures
        r matches Some(v) ==> is_numeral(s@) && v == digits_value(s@) && v <= max,
        r is None ==> !is_numeral(s@) || digits_value(s@) > max,
{
    let n = s.len();
    if n == 0 {
        return None;
    }
    let mut value: u64 = 0;
    let mut i: usize = 0;
    assert(s@.take(0) =~= Seq::<char>::empty());
    while i < n
        invariant
            i <= n == s@.len(),
            all_digit_chars(s@.take(i as int)),
            value == digits_value(s@.take(i as int)),
            value <= max,
        decreases n - i,
    {
        let c = s[i];
        if !('0' <= c && c <= '9') {
            assert(!all_digit_chars(s@)) by {
                assert(s@[i as int] == c);
            }
            return None;
        }
        assert(s@.take(i + 1).drop_last() =~= s@.take(i as int));
        let d = (c as u64) - 48;
        if d > max {
            proof {
                if all_digit_chars(s@) {
                    lemma_digits_value_prefix(s@, i + 1);
                }
            }
            return None;
        }
        if value > (max - d) / 10 {
            assert(value * 10 + d > max) by (nonlinear_arith)
                requires
                    value > (max - d) / 10,
                    d <= max,
            ;
            proof {
                if all_digit_chars(s@) {
                    lemma_digits_value_prefix(s@, i + 1);
                }
            }
            return None;
        }
        assert(value * 10 + d <= max) by (nonlinear_arith)
            requires
                value <= (max - d) / 10,
                d <= max,
        ;
        value = value * 10 + d;
        i = i + 1;
    }
    assert(s@.take(n as int) =~= s@);
    Some(value)
}

/// The decimal numeral of a signed integer (`i64::to_string`).
pub open spec fn int_text(v: int) -> Seq<char> {
    if v < 0 {
        seq!['-'] + nat_text((-v) as nat)
    } else {
        nat_text(v as nat)
    }
}

/// `v` written as a decimal `String`.
pub fn i64_string(v: i64) -> (r: String)
    ensures
        r@ == int_text(v as int),
{
    if v < 0 {
        let magnitude: u64 = (0i128 - (v as i128)) as u64;
        let digits = u64_chars(magnitude);
        let mut chars: Vec<char> = Vec::new();
        chars.push('-');
        let mut i: usize = 0;
        while i < digits.len()
            invariant
                i <= digits@.len(),
                chars@ == seq!['-'] + digits@.take(i as int),
            decreases digits.len() - i,
        {
            chars.push(digits[i]);
            assert(digits@.take(i + 1) =~= digits@.take(i as int).push(digits@[i as int]));
            i = i + 1;
        }
        assert(digits@.take(digits@.len() as int) =~= digits@);
        crate::text::string_from_chars(chars.as_slice())
    } else {
        u64_string(v as u64)
    }
}

/// The lowercase hexadecimal digit of a value below sixteen.
pub open spec fn hex_char(d: nat) -> char {
    if d < 10 {
        (('0' as u8) + d) as char
    } else {
        (('a' as u8) + (d - 10)) as char
    }
}

/// The last `n` hexadecimal digits of `v`, most significant first, with
/// leading zeros.
pub open spec fn hex_digits(v: nat, n: nat) -> Seq<char>
    decreases n,
{
    if n == 0 {
        seq![]
    } else {
        hex_digits(v / 16, (n - 1) as nat).push(hex_char(v % 16))
    }
}

fn hex_digit(d: u32) -> (c: char)
    requires
        d < 16,
    ensures
        c == hex_char(d as nat),
{
    if d < 10 {
        ((48u8 + d as u8) as char)
    } else {
        ((97u8 + (d - 10) as u8) as char)
    }
}

fn hex_chars(v: u32, n: usize) -> (r: Vec<char>)
    ensures
        r@ == hex_digits(v as nat, n as nat),
    decreases n,
{
    if n == 0 {
        Vec::new()
    } else {
        let mut r = hex_chars(v / 16, n - 1);
        r.push(hex_digit(v % 16));
        r
    }
}

/// `0x` and the eight lowercase hexadecimal digits of a 32-bit value
/// (`format!("{v:#010x}")`).
pub open spec fn hex32_text(v: u32) -> Seq<char> {
    seq!['0', 'x'] + hex_digits(v as nat, 8)
}

/// The text of a 32-bit value as `0x` and eight hexadecimal digits.
pub fn hex32_string(v: u32) -> (r: String)
    ensures
        r@ == hex32_text(v),
{
    let mut chars: Vec<char> = Vec::new();
    chars.push('0');
    chars.push('x');
    let digits = hex_chars(v, 8);
    let mut i: usize = 0;
    while i < digits.len()
        invariant
            i <= digits@.len(),
            chars@ == seq!['0', 'x'] + digits@.take(i as int),
        decreases digits.len() - i,
    {
        chars.push(digits[i]);
        assert(digits@.take(i + 1) =~= digits@.take(i as int).push(digits@[i as int]));
        i = i + 1;
    }
    assert(digits@.take(digits@.len() as int) =~= digits@);
    crate::text::string_from_chars(chars.as_slice())
}

} // verus!
