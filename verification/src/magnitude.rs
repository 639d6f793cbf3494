//! Non-negative integers of unbounded size as little-endian decimal digit
//! vectors, with exact addition, subtraction and multiplication.

use vstd::prelude::*;

verus! {

/// `10^n`.
pub open spec fn pow10(n: nat) -> nat
    decreases n,
{
    if n == 0 {
        1
    } else {
        10 * pow10((n - 1) as nat)
    }
}

/// The number that little-endian decimal digits write.
pub open spec fn lsb_value(ds: Seq<u8>) -> nat
    decreases ds.len(),
{
    if ds.len() == 0 {
        0
    } else {
        (ds[0] + 10 * lsb_value(ds.drop_first())) as nat
    }
}

/// Whether every element is a decimal digit.
pub open spec fn digits_ok(ds: Seq<u8>) -> bool {
    forall|i: int| 0 <= i < ds.len() ==> #[trigger] ds[i] < 10
}

pub proof fn lemma_pow10_positive(n: nat)
    ensures
        pow10(n) >= 1,
    decreases n,
{
    if n > 0 {
        lemma_pow10_positive((n - 1) as nat);
    }
}

pub proof fn lemma_pow10_add(a: nat, b: nat)
    ensures
        pow10(a + b) == pow10(a) * pow10(b),
    decreases a,
{
    if a > 0 {
        lemma_pow10_add((a - 1) as nat, b);
        let x = pow10((a - 1) as nat);
        let y = pow10(b);
        assert(((a + b) - 1) as nat == ((a - 1) as nat + b) as nat);
        assert(pow10(a + b) == 10 * pow10(((a + b) - 1) as nat));
        assert(pow10(a) == 10 * x);
        assert(10 * (x * y) == (10 * x) * y) by (nonlinear_arith);
        assert(pow10(a + b) == pow10(a) * pow10(b));
    } else {
        assert(pow10(0) == 1);
        assert(a + b == b);
        assert(pow10(a) * pow10(b) == pow10(b));
    }
}

/// Appending a most significant digit adds it at its place value.
pub proof fn lemma_lsb_push(ds: Seq<u8>, d: u8)
    ensures
        lsb_value(ds.push(d)) == lsb_value(ds) + d * pow10(ds.len()),
    decreases ds.len(),
{
    if ds.len() == 0 {
        assert(ds.push(d).drop_first() =~= Seq::<u8>::empty());
        assert(ds.push(d)[0] == d);
        assert(lsb_value(ds.push(d).drop_first()) == 0);
        assert(lsb_value(ds.push(d)) == d);
        assert(pow10(0) == 1);
    } else {
        lemma_lsb_push(ds.drop_first(), d);
        assert(ds.push(d).drop_first() =~= ds.drop_first().push(d));
        assert(ds.push(d)[0] == ds[0]);
        let p = pow10((ds.len() - 1) as nat);
        assert(pow10(ds.len()) == 10 * p);
        let l = lsb_value(ds.drop_first());
        assert(lsb_value(ds.push(d)) == ds[0] + 10 * lsb_value(ds.drop_first().push(d)));
        assert(10 * (l + d * p) == 10 * l + d * (10 * p)) by (nonlinear_arith);
        assert(lsb_value(ds) == ds[0] + 10 * l);
    }
}

/// The value of a prefix grows by the next digit at its place value.
pub proof fn lemma_lsb_take(ds: Seq<u8>, i: int)
    requires
        0 <= i < ds.len(),
    ensures
        lsb_value(ds.take(i + 1)) == lsb_value(ds.take(i)) + ds[i] * pow10(i as nat),
{
    assert(ds.take(i + 1) =~= ds.take(i).push(ds[i]));
    lemma_lsb_push(ds.take(i), ds[i]);
}

/// Leading (most significant) zero digits do not change the value.
pub proof fn lemma_lsb_zero_extend(ds: Seq<u8>, n: nat)
    ensures
        lsb_value(ds + Seq::new(n, |i: int| 0u8)) == lsb_value(ds),
    decreases n,
{
    if n > 0 {
        let z = Seq::new((n - 1) as nat, |i: int| 0u8);
        lemma_lsb_zero_extend(ds, (n - 1) as nat);
        assert(ds + Seq::new(n, |i: int| 0u8) =~= (ds + z).push(0u8));
        lemma_lsb_push(ds + z, 0u8);
    }
}

/// Shifting by `n` places multiplies by `10^n`.
pub proof fn lemma_lsb_shift(ds: Seq<u8>, n: nat)
    ensures
        lsb_value(Seq::new(n, |i: int| 0u8) + ds) == pow10(n) * lsb_value(ds),
    decreases n,
{
    if n > 0 {
        let z = Seq::new((n - 1) as nat, |i: int| 0u8);
        lemma_lsb_shift(ds, (n - 1) as nat);
        let s = Seq::new(n, |i: int| 0u8) + ds;
        assert(s.drop_first() =~= z + ds);
        assert(s[0] == 0);
        assert(lsb_value(s) == 10 * lsb_value(z + ds));
        assert(pow10(n) == 10 * pow10((n - 1) as nat));
        assert(10 * (pow10((n - 1) as nat) * lsb_value(ds)) == (10 * pow10((n - 1) as nat))
            * lsb_value(ds)) by (nonlinear_arith);
    } else {
        assert(Seq::new(n, |i: int| 0u8) + ds =~= ds);
        assert(pow10(0) == 1);
        assert(pow10(n) * lsb_value(ds) == lsb_value(ds));
    }
}

/// A value written with `n` digits is below `10^n`.
pub proof fn lemma_lsb_bound(ds: Seq<u8>)
    requires
        digits_ok(ds),
    ensures
        lsb_value(ds) < pow10(ds.len()),
    decreases ds.len(),
{
    if ds.len() > 0 {
        lemma_lsb_bound(ds.drop_first());
        assert(ds[0] < 10);
    }
}

// ---------------------------------------------------------------------------
// Executable digit arithmetic
// ---------------------------------------------------------------------------

/// `ds` extended with zero digits to `len` digits.
pub fn zero_extend(ds: &Vec<u8>, len: usize) -> (r: Vec<u8>)
    requires
        digits_ok(ds@),
    ensures
        lsb_value(r@) == lsb_value(ds@),
        digits_ok(r@),
        r@.len() == if len > ds@.len() { len as int } else { ds@.len() as int },
{
    let mut r = ds.clone();
    let mut k: usize = 0;
    while r.len() < len
        invariant
            r@ == ds@ + Seq::new(k as nat, |i: int| 0u8),
            digits_ok(r@),
            k == 0 || r@.len() <= len,
        decreases len - r.len(),
    {
        r.push(0);
        assert(ds@ + Seq::new((k + 1) as nat, |i: int| 0u8) =~= (ds@ + Seq::new(k as nat, |i: int| 0u8)).push(0u8));
        k = k + 1;
    }
    proof {
        lemma_lsb_zero_extend(ds@, k as nat);
    }
    r
}

/// `ds` shifted by `n` places (multiplied by `10^n`).
pub fn shift_up(ds: &Vec<u8>, n: usize) -> (r: Vec<u8>)
    requires
        digits_ok(ds@),
    ensures
        lsb_value(r@) == pow10(n as nat) * lsb_value(ds@),
        digits_ok(r@),
        r@.len() == ds@.len() + n,
        r@ == Seq::new(n as nat, |i: int| 0u8) + ds@,
{
    let mut r: Vec<u8> = Vec::new();
    let mut k: usize = 0;
    while k < n
        invariant
            k <= n,
            r@ == Seq::new(k as nat, |i: int| 0u8),
        decreases n - k,
    {
        r.push(0);
        assert(Seq::new((k + 1) as nat, |i: int| 0u8) =~= Seq::new(k as nat, |i: int| 0u8).push(0u8));
        k = k + 1;
    }
    let mut j: usize = 0;
    while j < ds.len()
        invariant
            j <= ds@.len(),
            r@ == Seq::new(n as nat, |i: int| 0u8) + ds@.take(j as int),
        decreases ds.len() - j,
    {
        r.push(ds[j]);
        assert(ds@.take(j + 1) =~= ds@.take(j as int).push(ds@[j as int]));
        assert(Seq::new(n as nat, |i: int| 0u8) + ds@.take(j + 1) =~= (Seq::new(n as nat, |i: int| 0u8) + ds@.take(j as int)).push(ds@[j as int]));
        j = j + 1;
    }
    assert(ds@.take(ds@.len() as int) =~= ds@);
    proof {
        lemma_lsb_shift(ds@, n as nat);
    }
    r
}

/// The sum of two digit vectors.
pub fn add_digits(a: &Vec<u8>, b: &Vec<u8>) -> (r: Vec<u8>)
    requires
        digits_ok(a@),
        digits_ok(b@),
    ensures
        digits_ok(r@),
        lsb_value(r@) == lsb_value(a@) + lsb_value(b@),
{
    let n = if a.len() > b.len() { a.len() } else { b.len() };
    let x = zero_extend(a, n);
    let y = zero_extend(b, n);
    let mut r: Vec<u8> = Vec::new();
    let mut carry: u8 = 0;
    let mut i: usize = 0;
    while i < n
        invariant
            i <= n == x@.len() == y@.len(),
            digits_ok(x@),
            digits_ok(y@),
            digits_ok(r@),
            r@.len() == i,
            carry <= 1,
            lsb_value(r@) + carry * pow10(i as nat) == lsb_value(x@.take(i as int)) + lsb_value(
                y@.take(i as int),
            ),
        decreases n - i,
    {
        let s = x[i] + y[i] + carry;
        let d = s % 10;
        let ghost old_r = r@;
        r.push(d);
        proof {
            lemma_lsb_take(x@, i as int);
            lemma_lsb_take(y@, i as int);
            lemma_lsb_push(old_r, d);
            let p = pow10(i as nat);
            assert(s == d + 10 * (s / 10));
            assert(pow10((i + 1) as nat) == 10 * p);
            assert((s / 10) * (10 * p) == 10 * (s / 10) * p) by (nonlinear_arith);
            assert((x@[i as int] + y@[i as int] + carry) * p == x@[i as int] * p + y@[i as int] * p + carry * p)
                by (nonlinear_arith);
            assert(s * p == d * p + 10 * (s / 10) * p) by (nonlinear_arith)
                requires s == d + 10 * (s / 10);
        }
        carry = s / 10;
        i = i + 1;
    }
    assert(x@.take(n as int) =~= x@);
    assert(y@.take(n as int) =~= y@);
    if carry > 0 {
        let ghost old_r = r@;
        r.push(carry);
        proof {
            lemma_lsb_push(old_r, carry);
        }
    }
    r
}

/// `a - b` when `a >= b`; otherwise `None`.
pub fn sub_digits(a: &Vec<u8>, b: &Vec<u8>) -> (r: Option<Vec<u8>>)
    requires
        digits_ok(a@),
        digits_ok(b@),
    ensures
        r matches Some(v) ==> digits_ok(v@) && lsb_value(v@) + lsb_value(b@) == lsb_value(a@),
        r is None ==> lsb_value(a@) < lsb_value(b@),
{
    let n = if a.len() > b.len() { a.len() } else { b.len() };
    let x = zero_extend(a, n);
    let y = zero_extend(b, n);
    let mut r: Vec<u8> = Vec::new();
    let mut borrow: u8 = 0;
    let mut i: usize = 0;
    while i < n
        invariant
            i <= n == x@.len() == y@.len(),
            digits_ok(x@),
            digits_ok(y@),
            digits_ok(r@),
            r@.len() == i,
            borrow <= 1,
            lsb_value(r@) + lsb_value(y@.take(i as int)) == lsb_value(x@.take(i as int)) + borrow
                * pow10(i as nat),
        decreases n - i,
    {
        let need = y[i] + borrow;
        let d: u8 = if x[i] >= need { x[i] - need } else { x[i] + 10 - need };
        let next: u8 = if x[i] >= need { 0 } else { 1 };
        let ghost old_r = r@;
        r.push(d);
        proof {
            lemma_lsb_take(x@, i as int);
            lemma_lsb_take(y@, i as int);
            lemma_lsb_push(old_r, d);
            let p = pow10(i as nat);
            assert(pow10((i + 1) as nat) == 10 * p);
            assert(d + y@[i as int] + borrow == x@[i as int] + 10 * next);
            assert((d + y@[i as int] + borrow) * p == (x@[i as int] + 10 * next) * p);
            assert((d + y@[i as int] + borrow) * p == d * p + y@[i as int] * p + borrow * p) by (nonlinear_arith);
            assert((x@[i as int] + 10 * next) * p == x@[i as int] * p + next * (10 * p)) by (nonlinear_arith);
        }
        borrow = next;
        i = i + 1;
    }
    assert(x@.take(n as int) =~= x@);
    assert(y@.take(n as int) =~= y@);
    proof {
        lemma_lsb_bound(r@);
        lemma_lsb_bound(x@);
    }
    if borrow > 0 {
        None
    } else {
        Some(r)
    }
}

/// The product of a digit vector and one digit.
pub fn mul_digit(a: &Vec<u8>, d: u8) -> (r: Vec<u8>)
    requires
        digits_ok(a@),
        d < 10,
    ensures
        digits_ok(r@),
        lsb_value(r@) == d * lsb_value(a@),
{
    let n = a.len();
    let mut r: Vec<u8> = Vec::new();
    let mut carry: u8 = 0;
    let mut i: usize = 0;
    assert(a@.take(0) =~= Seq::<u8>::empty());
    assert(lsb_value(a@.take(0)) == 0);
    assert(d * 0 == 0);
    assert(lsb_value(r@) == 0);
    while i < n
        invariant
            i <= n == a@.len(),
            digits_ok(a@),
            digits_ok(r@),
            r@.len() == i,
            d < 10,
            carry <= 9,
            lsb_value(r@) + carry * pow10(i as nat) == d * lsb_value(a@.take(i as int)),
        decreases n - i,
    {
        assert(a[i as int] * d <= 81) by (nonlinear_arith)
            requires a[i as int] < 10, d < 10;
        let s = a[i] * d + carry;
        let digit = s % 10;
        let ghost old_r = r@;
        r.push(digit);
        proof {
            lemma_lsb_take(a@, i as int);
            lemma_lsb_push(old_r, digit);
            let p = pow10(i as nat);
            assert(pow10((i + 1) as nat) == 10 * p);
            assert(s == digit + 10 * (s / 10));
            assert(d * (lsb_value(a@.take(i as int)) + a@[i as int] * p) == d * lsb_value(a@.take(i as int)) + (a@[i as int] * d) * p)
                by (nonlinear_arith);
            assert(s * p == digit * p + (s / 10) * (10 * p)) by (nonlinear_arith)
                requires s == digit + 10 * (s / 10);
            assert((a@[i as int] * d + carry) * p == (a@[i as int] * d) * p + carry * p) by (nonlinear_arith);
        }
        carry = s / 10;
        i = i + 1;
    }
    assert(a@.take(n as int) =~= a@);
    if carry > 0 {
        let ghost old_r = r@;
        r.push(carry);
        proof {
            lemma_lsb_push(old_r, carry);
        }
    }
    r
}

/// The product of two digit vectors.
pub fn mul_digits(a: &Vec<u8>, b: &Vec<u8>) -> (r: Vec<u8>)
    requires
        digits_ok(a@),
        digits_ok(b@),
    ensures
        digits_ok(r@),
        lsb_value(r@) == lsb_value(a@) * lsb_value(b@),
{
    let mut acc: Vec<u8> = Vec::new();
    let mut j: usize = 0;
    assert(b@.take(0) =~= Seq::<u8>::empty());
    assert(lsb_value(a@) * 0 == 0) by (nonlinear_arith);
    while j < b.len()
        invariant
            j <= b@.len(),
            digits_ok(a@),
            digits_ok(b@),
            digits_ok(acc@),
            lsb_value(acc@) == lsb_value(a@) * lsb_value(b@.take(j as int)),
        decreases b.len() - j,
    {
        let partial = mul_digit(a, b[j]);
        let shifted = shift_up(&partial, j);
        let ghost old_acc = acc@;
        acc = add_digits(&acc, &shifted);
        proof {
            lemma_lsb_take(b@, j as int);
            let va = lsb_value(a@);
            let p = pow10(j as nat);
            assert(lsb_value(shifted@) == p * (b@[j as int] * va));
            assert(va * (lsb_value(b@.take(j as int)) + b@[j as int] * p) == va * lsb_value(b@.take(j as int)) + p * (b@[j as int] * va))
                by (nonlinear_arith);
        }
        j = j + 1;
    }
    assert(b@.take(b@.len() as int) =~= b@);
    acc
}

} // verus!
