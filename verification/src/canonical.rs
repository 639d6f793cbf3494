//! Canonical decimal text is unique: two canonical texts that write the same
//! number are the same text.

use vstd::prelude::*;
use crate::decimal::{
    all_digit_chars, digit_of, digits_value, index_of, is_canonical_decimal, is_digit,
    lemma_digits_value_concat, lemma_index_of_bound, same_value, text_digits, text_fraction,
    text_integer, text_negative, text_numerator, text_scale, text_unsigned,
};
use crate::magnitude::{lemma_pow10_add, lemma_pow10_positive, pow10};

verus! {

/// Digits write a number below ten to the power of their count.
proof fn lemma_digits_value_below(x: Seq<char>)
    requires
        all_digit_chars(x),
    ensures
        digits_value(x) < pow10(x.len()),
    decreases x.len(),
{
    if x.len() > 0 {
        let init = x.drop_last();
        assert(all_digit_chars(init)) by {
            assert forall|k: int| 0 <= k < init.len() implies is_digit(#[trigger] init[k]) by {
                assert(init[k] == x[k]);
            }
        }
        lemma_digits_value_below(init);
        assert(is_digit(x[x.len() - 1]));
        let v = digits_value(init);
        let p = pow10(init.len());
        let d = digit_of(x.last());
        assert(d < 10);
        assert(pow10(x.len()) == 10 * p);
        assert(v * 10 + d < 10 * p) by (nonlinear_arith)
            requires
                v < p,
                d < 10,
        ;
    }
}

/// Digits that do not start with zero write at least ten to the power of
/// their count less one.
proof fn lemma_digits_value_lead(x: Seq<char>)
    requires
        all_digit_chars(x),
        x.len() > 0,
        x[0] != '0',
    ensures
        digits_value(x) >= pow10((x.len() - 1) as nat),
    decreases x.len(),
{
    if x.len() == 1 {
        assert(x.drop_last().len() == 0);
        assert(is_digit(x[0]));
        assert(digit_of(x.last()) >= 1);
        assert(pow10(0) == 1);
    } else {
        let init = x.drop_last();
        assert(all_digit_chars(init)) by {
            assert forall|k: int| 0 <= k < init.len() implies is_digit(#[trigger] init[k]) by {
                assert(init[k] == x[k]);
            }
        }
        assert(init[0] == x[0]);
        lemma_digits_value_lead(init);
        let v = digits_value(init);
        let p = pow10((init.len() - 1) as nat);
        assert(pow10((x.len() - 1) as nat) == 10 * p);
        assert(v * 10 >= 10 * p) by (nonlinear_arith)
            requires
                v >= p,
        ;
    }
}

/// The last digit of a number's digits is its remainder modulo ten.
proof fn lemma_digits_value_last(x: Seq<char>)
    requires
        all_digit_chars(x),
        x.len() > 0,
    ensures
        digits_value(x) % 10 == digit_of(x.last()),
        digits_value(x) / 10 == digits_value(x.drop_last()),
{
    assert(is_digit(x[x.len() - 1]));
    let v = digits_value(x.drop_last());
    let d = digit_of(x.last());
    assert((v * 10 + d) % 10 == d && (v * 10 + d) / 10 == v) by (nonlinear_arith)
        requires
            d < 10,
    ;
}

/// Digit strings of one length that write the same number are the same.
proof fn lemma_digits_same(x: Seq<char>, y: Seq<char>)
    requires
        all_digit_chars(x),
        all_digit_chars(y),
        x.len() == y.len(),
        digits_value(x) == digits_value(y),
    ensures
        x == y,
    decreases x.len(),
{
    if x.len() > 0 {
        lemma_digits_value_last(x);
        lemma_digits_value_last(y);
        let xi = x.drop_last();
        let yi = y.drop_last();
        assert(all_digit_chars(xi)) by {
            assert forall|k: int| 0 <= k < xi.len() implies is_digit(#[trigger] xi[k]) by {
                assert(xi[k] == x[k]);
            }
        }
        assert(all_digit_chars(yi)) by {
            assert forall|k: int| 0 <= k < yi.len() implies is_digit(#[trigger] yi[k]) by {
                assert(yi[k] == y[k]);
            }
        }
        lemma_digits_same(xi, yi);
        assert(is_digit(x.last()) && is_digit(y.last()));
        assert(x.last() == y.last());
        assert(x =~= xi.push(x.last()));
        assert(y =~= yi.push(y.last()));
    } else {
        assert(x =~= y);
    }
}

/// Integer digits without leading zeros (or a lone zero) that write the same
/// number are the same.
proof fn lemma_integer_digits_same(x: Seq<char>, y: Seq<char>)
    requires
        all_digit_chars(x),
        all_digit_chars(y),
        x.len() > 0 && (x.len() == 1 || x[0] != '0'),
        y.len() > 0 && (y.len() == 1 || y[0] != '0'),
        digits_value(x) == digits_value(y),
    ensures
        x == y,
{
    lemma_digits_value_below(x);
    lemma_digits_value_below(y);
    if x.len() > 1 {
        lemma_digits_value_lead(x);
    }
    if y.len() > 1 {
        lemma_digits_value_lead(y);
    }
    if x.len() < y.len() {
        lemma_pow10_add(x.len(), (y.len() - 1 - x.len()) as nat);
        lemma_pow10_positive((y.len() - 1 - x.len()) as nat);
        assert(pow10(x.len()) <= pow10((y.len() - 1) as nat)) by (nonlinear_arith)
            requires
                pow10((y.len() - 1) as nat) == pow10(x.len()) * pow10((y.len() - 1 - x.len()) as nat),
                pow10((y.len() - 1 - x.len()) as nat) >= 1,
        ;
        assert(false);
    } else if y.len() < x.len() {
        lemma_pow10_add(y.len(), (x.len() - 1 - y.len()) as nat);
        lemma_pow10_positive((x.len() - 1 - y.len()) as nat);
        assert(pow10(y.len()) <= pow10((x.len() - 1) as nat)) by (nonlinear_arith)
            requires
                pow10((x.len() - 1) as nat) == pow10(y.len()) * pow10((x.len() - 1 - y.len()) as nat),
                pow10((x.len() - 1 - y.len()) as nat) >= 1,
        ;
        assert(false);
    }
    lemma_digits_same(x, y);
}

/// The parts of canonical decimal text: its integer and fraction digits,
/// how they make up its digits and its unsigned text, and the size of its
/// numerator.
pub(crate) proof fn lemma_canonical_parts(s: Seq<char>)
    requires
        is_canonical_decimal(s),
    ensures
        text_scale(s) == text_fraction(s).len(),
        text_digits(s) == text_integer(s) + text_fraction(s),
        text_fraction(s).len() > 0 ==> text_unsigned(s) == text_integer(s) + seq!['.'] + text_fraction(s),
        text_fraction(s).len() == 0 ==> text_unsigned(s) == text_integer(s),
        s == (if text_negative(s) { seq!['-'] + text_unsigned(s) } else { text_unsigned(s) }),
        all_digit_chars(text_integer(s) + text_fraction(s)),
{
    let u = text_unsigned(s);
    let d = index_of(u, '.');
    let i = text_integer(s);
    let f = text_fraction(s);
    lemma_index_of_bound(u, '.');
    if d < u.len() {
        assert(u =~= i + seq!['.'] + f);
        assert(u.take(d) + u.skip(d + 1) =~= i + f);
    } else {
        assert(u =~= i);
        assert(f.len() == 0);
        assert(i + f =~= i);
    }
    if text_negative(s) {
        assert(s =~= seq!['-'] + u);
    }
    assert forall|k: int| 0 <= k < (i + f).len() implies is_digit(#[trigger] (i + f)[k]) by {
        if k < i.len() {
            assert((i + f)[k] == i[k]);
        } else {
            assert((i + f)[k] == f[k - i.len()]);
        }
    }
}

/// The number that canonical text writes with fraction digits is not a
/// multiple of ten, and that of negative canonical text is not zero.
proof fn lemma_canonical_magnitude(s: Seq<char>)
    requires
        is_canonical_decimal(s),
    ensures
        text_scale(s) > 0 ==> digits_value(text_digits(s)) % 10 != 0,
        text_negative(s) ==> digits_value(text_digits(s)) > 0,
{
    lemma_canonical_parts(s);
    let i = text_integer(s);
    let f = text_fraction(s);
    let x = i + f;
    if f.len() > 0 {
        lemma_digits_value_last(x);
        assert(x.last() == f.last());
        assert(is_digit(f[f.len() - 1]));
    } else if text_negative(s) {
        assert(text_unsigned(s) == i);
        if i.len() == 1 {
            assert(i[0] != '0') by {
                if i[0] == '0' {
                    assert(i =~= seq!['0']);
                }
            }
            assert(x =~= i);
            lemma_digits_value_last(x);
            assert(is_digit(i[0]));
        } else {
            assert(x =~= i);
            lemma_digits_value_lead(x);
            lemma_pow10_positive((x.len() - 1) as nat);
        }
    }
}

/// Ten to a power is ten to a smaller power times ten to their difference.
proof fn lemma_scale_split(low: nat, high: nat)
    requires
        low < high,
    ensures
        pow10(high) == pow10(low) * (10 * pow10((high - low - 1) as nat)),
{
    lemma_pow10_add(low, (high - low) as nat);
    assert(pow10((high - low) as nat) == 10 * pow10((high - low - 1) as nat));
}

/// Canonical text that writes the number of other canonical text has at
/// least as many fraction digits.
proof fn lemma_scales_agree(s1: Seq<char>, s2: Seq<char>)
    requires
        is_canonical_decimal(s1),
        is_canonical_decimal(s2),
        same_value(text_numerator(s1), text_scale(s1), text_numerator(s2), text_scale(s2)),
    ensures
        text_scale(s1) >= text_scale(s2),
{
    if text_scale(s1) < text_scale(s2) {
        let k1 = text_scale(s1);
        let k2 = text_scale(s2);
        let n1 = text_numerator(s1);
        let n2 = text_numerator(s2);
        let v2 = digits_value(text_digits(s2));
        lemma_canonical_magnitude(s2);
        lemma_scale_split(k1, k2);
        lemma_pow10_positive(k1);
        let p1 = pow10(k1);
        let q = pow10((k2 - k1 - 1) as nat);
        let m = n1 * q;
        assert(n2 == 10 * m) by (nonlinear_arith)
            requires
                n1 * (p1 * (10 * q)) == n2 * p1,
                p1 >= 1,
                m == n1 * q,
        ;
        let t: int = if text_negative(s2) { -m } else { m };
        assert(v2 == 10 * t);
        assert(v2 % 10 == 0) by (nonlinear_arith)
            requires
                v2 == 10 * t,
                v2 >= 0,
        ;
    }
}

/// Two canonical decimal texts that write the same number are the same
/// text: canonical form is unique.
pub proof fn lemma_canonical_unique(s1: Seq<char>, s2: Seq<char>)
    requires
        is_canonical_decimal(s1),
        is_canonical_decimal(s2),
        same_value(text_numerator(s1), text_scale(s1), text_numerator(s2), text_scale(s2)),
    ensures
        s1 == s2,
{
    let k1 = text_scale(s1);
    let k2 = text_scale(s2);
    lemma_scales_agree(s1, s2);
    lemma_scales_agree(s2, s1);
    assert(k1 == k2);
    let n1 = text_numerator(s1);
    let n2 = text_numerator(s2);
    lemma_pow10_positive(k1);
    let p = pow10(k1);
    assert(n1 == n2) by (nonlinear_arith)
        requires
            n1 * p == n2 * p,
            p >= 1,
    ;
    lemma_canonical_parts(s1);
    lemma_canonical_parts(s2);
    lemma_canonical_magnitude(s1);
    lemma_canonical_magnitude(s2);
    assert(text_negative(s1) == text_negative(s2));
    let i1 = text_integer(s1);
    let f1 = text_fraction(s1);
    let i2 = text_integer(s2);
    let f2 = text_fraction(s2);
    assert(digits_value(i1 + f1) == digits_value(i2 + f2));
    lemma_digits_value_concat(i1, f1);
    lemma_digits_value_concat(i2, f2);
    lemma_digits_value_below(f1);
    lemma_digits_value_below(f2);
    let a1 = digits_value(i1);
    let b1 = digits_value(f1);
    let a2 = digits_value(i2);
    let b2 = digits_value(f2);
    assert(a1 == a2 && b1 == b2) by (nonlinear_arith)
        requires
            a1 * p + b1 == a2 * p + b2,
            b1 < p,
            b2 < p,
            0 <= b1,
            0 <= b2,
            0 <= a1,
            0 <= a2,
    ;
    assert(all_digit_chars(f1) && all_digit_chars(f2) && all_digit_chars(i1) && all_digit_chars(i2));
    lemma_digits_same(f1, f2);
    lemma_integer_digits_same(i1, i2);
    assert(text_unsigned(s1) == text_unsigned(s2));
}

} // verus!
