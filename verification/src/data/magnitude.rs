//! When a decimal amount is too large to be a finite `f64`: parsing rounds
//! it to infinity exactly when its value reaches 2^1024 - 2^970, the midpoint
//! between the largest finite `f64` and 2^1024 (a tie rounds to the even
//! neighbour, 2^1024).
use vstd::prelude::*;

use crate::data::amount::{
    is_digit, is_exponent_or_empty, is_float_literal, is_number, is_special_value, leading_digits,
    skip_digits, unsigned_part,
};

verus! {

/// The value of a decimal digit.
pub open spec fn digit_value(c: char) -> nat {
    ((c as u32) - 0x30) as nat
}

/// The value of a string of decimal digits.
pub open spec fn digits_value(d: Seq<char>) -> nat
    decreases d.len(),
{
    if d.len() == 0 {
        0
    } else {
        digits_value(d.drop_last()) * 10 + digit_value(d.last())
    }
}

/// Ten to the power `n`.
pub open spec fn pow10(n: nat) -> nat
    decreases n,
{
    if n == 0 {
        1
    } else {
        10 * pow10((n - 1) as nat)
    }
}

/// Every character of `d` is a decimal digit.
pub open spec fn all_digits(d: Seq<char>) -> bool {
    forall|i: int| 0 <= i < d.len() ==> is_digit(#[trigger] d[i])
}

/// `n` zero digits.
pub open spec fn zeros(n: nat) -> Seq<char> {
    Seq::new(n, |i: int| '0')
}

/// The digits of 2^1024 - 2^970.
pub open spec fn limit_digits() -> Seq<char> {
    "179769313486231580793728971405303415079934132710037826936173778980444968292764750946649017977587207096330286416692887910946555547851940402630657488671505820681908902000708383676273854845817711531764475730270069855571366959622842914819860834936475292719074168444365510704342711559699508093042880177904174497792"@
}

/// 2^1024 - 2^970: the least value that `f64` parsing rounds to infinity.
pub open spec fn f64_limit() -> nat {
    digits_value(limit_digits())
}

/// `n * 10^k >= t`, for a whole `n` and `t` and any power `k`.
pub open spec fn scaled_at_least(n: nat, k: int, t: nat) -> bool {
    if k >= 0 {
        n * pow10(k as nat) >= t
    } else {
        n >= t * pow10((-k) as nat)
    }
}

/// The digits before the point of a `Number`.
pub open spec fn int_digits(u: Seq<char>) -> Seq<char> {
    u.subrange(0, leading_digits(u) as int)
}

/// What follows the digits before the point.
pub open spec fn after_int(u: Seq<char>) -> Seq<char> {
    u.subrange(leading_digits(u) as int, u.len() as int)
}

/// Whether a `Number` has a point.
pub open spec fn has_point(u: Seq<char>) -> bool {
    after_int(u).len() > 0 && after_int(u)[0] == '.'
}

/// What follows the point.
pub open spec fn after_point(u: Seq<char>) -> Seq<char> {
    after_int(u).subrange(1, after_int(u).len() as int)
}

/// The digits after the point of a `Number`.
pub open spec fn frac_digits(u: Seq<char>) -> Seq<char> {
    if has_point(u) {
        after_point(u).subrange(0, leading_digits(after_point(u)) as int)
    } else {
        Seq::empty()
    }
}

/// The exponent part of a `Number` (empty, or `e` and the rest).
pub open spec fn exponent_text(u: Seq<char>) -> Seq<char> {
    if has_point(u) {
        after_point(u).subrange(leading_digits(after_point(u)) as int, after_point(u).len() as int)
    } else {
        after_int(u)
    }
}

/// The value of an `Exp?`, 0 where it is empty.
pub open spec fn exponent_of(x: Seq<char>) -> int {
    if x.len() == 0 {
        0
    } else if x.len() > 1 && x[1] == '-' {
        -digits_value(x.subrange(2, x.len() as int))
    } else if x.len() > 1 && x[1] == '+' {
        digits_value(x.subrange(2, x.len() as int)) as int
    } else {
        digits_value(x.subrange(1, x.len() as int)) as int
    }
}

/// The value of the exponent of a `Number`, 0 without one.
pub open spec fn exponent_value(u: Seq<char>) -> int {
    exponent_of(exponent_text(u))
}

/// The value of a `Number` reaches 2^1024 - 2^970: as an `f64` it is infinite.
pub open spec fn overflows(u: Seq<char>) -> bool {
    scaled_at_least(
        digits_value(int_digits(u) + frac_digits(u)),
        exponent_value(u) - frac_digits(u).len(),
        f64_limit(),
    )
}

proof fn lemma_pow10_positive(n: nat)
    ensures
        pow10(n) >= 1,
    decreases n,
{
    if n > 0 {
        lemma_pow10_positive((n - 1) as nat);
    }
}

proof fn lemma_pow10_add(a: nat, b: nat)
    ensures
        pow10(a + b) == pow10(a) * pow10(b),
    decreases a,
{
    if a > 0 {
        let a1 = (a - 1) as nat;
        lemma_pow10_add(a1, b);
        let x = pow10(a1);
        let y = pow10(b);
        assert(pow10(a) == 10 * x);
        assert(pow10(a + b) == 10 * pow10(a1 + b));
        assert(10 * (x * y) == (10 * x) * y) by (nonlinear_arith);
        assert(pow10(a + b) == pow10(a) * pow10(b));
    } else {
        assert(pow10(0) == 1);
        assert(a + b == b);
    }
}

proof fn lemma_pow10_monotonic(a: nat, b: nat)
    requires
        a <= b,
    ensures
        pow10(a) <= pow10(b),
{
    lemma_pow10_add(a, (b - a) as nat);
    lemma_pow10_positive((b - a) as nat);
    lemma_pow10_positive(a);
    assert(pow10(a) <= pow10(a) * pow10((b - a) as nat)) by (nonlinear_arith)
        requires
            pow10((b - a) as nat) >= 1,
    ;
}

/// The value of `x` followed by `y`.
proof fn lemma_value_concat(x: Seq<char>, y: Seq<char>)
    ensures
        digits_value(x + y) == digits_value(x) * pow10(y.len()) + digits_value(y),
    decreases y.len(),
{
    if y.len() == 0 {
        assert(x + y =~= x);
        assert(pow10(0) == 1);
        assert(digits_value(y) == 0);
    } else {
        let y1 = y.drop_last();
        lemma_value_concat(x, y1);
        assert((x + y).drop_last() =~= x + y1);
        assert((x + y).last() == y.last());
        let a = digits_value(x);
        let p = pow10(y1.len());
        let b = digits_value(y1);
        let c = digit_value(y.last());
        assert(digits_value(x + y1) == a * p + b);
        assert(digits_value(x + y) == digits_value(x + y1) * 10 + c);
        assert(digits_value(y) == b * 10 + c);
        assert(pow10(y.len()) == 10 * p);
        assert((a * p + b) * 10 + c == a * (10 * p) + (b * 10 + c)) by (nonlinear_arith);
        assert(digits_value(x + y) == a * pow10(y.len()) + digits_value(y));
    }
}

/// A string of digits is worth less than ten to its length.
proof fn lemma_value_below(d: Seq<char>)
    requires
        all_digits(d),
    ensures
        digits_value(d) < pow10(d.len()),
    decreases d.len(),
{
    if d.len() > 0 {
        let d1 = d.drop_last();
        assert(all_digits(d1)) by {
            assert forall|i: int| 0 <= i < d1.len() implies is_digit(#[trigger] d1[i]) by {
                assert(d1[i] == d[i]);
            }
        }
        lemma_value_below(d1);
        assert(is_digit(d[d.len() - 1]));
        assert(digit_value(d.last()) <= 9);
        assert(digits_value(d1) * 10 + digit_value(d.last()) < 10 * pow10(d1.len())) by (
        nonlinear_arith)
            requires
                digits_value(d1) < pow10(d1.len()),
                digit_value(d.last()) <= 9,
        ;
    }
}

/// Zero digits are worth nothing.
proof fn lemma_zeros_value(n: nat)
    ensures
        digits_value(zeros(n)) == 0,
    decreases n,
{
    if n > 0 {
        assert(zeros(n).drop_last() =~= zeros((n - 1) as nat));
        lemma_zeros_value((n - 1) as nat);
    }
}

/// A string of digits that does not start with `0` is worth at least ten to
/// its length less one.
proof fn lemma_value_at_least(d: Seq<char>)
    requires
        all_digits(d),
        d.len() > 0,
        digit_value(d[0]) > 0,
    ensures
        digits_value(d) >= pow10((d.len() - 1) as nat),
{
    let head = d.subrange(0, 1);
    let rest = d.subrange(1, d.len() as int);
    assert(head + rest =~= d);
    lemma_value_concat(head, rest);
    assert(head.drop_last() =~= Seq::<char>::empty());
    assert(head.last() == d[0]);
    assert(digits_value(head.drop_last()) == 0);
    assert(digits_value(head) == digit_value(d[0]));
    lemma_pow10_positive(rest.len());
    assert(digits_value(head) * pow10(rest.len()) >= pow10(rest.len())) by (nonlinear_arith)
        requires
            digits_value(head) >= 1,
    ;
}

/// Leading zeros do not change the value.
proof fn lemma_leading_zeros(d: Seq<char>, z: int)
    requires
        0 <= z <= d.len(),
        forall|i: int| 0 <= i < z ==> d[i] == '0',
    ensures
        digits_value(d) == digits_value(d.subrange(z, d.len() as int)),
{
    let front = d.subrange(0, z);
    let back = d.subrange(z, d.len() as int);
    assert(front + back =~= d);
    assert(front =~= zeros(z as nat));
    lemma_zeros_value(z as nat);
    lemma_value_concat(front, back);
}

/// Padding with zeros multiplies the value by a power of ten.
proof fn lemma_value_padded(s: Seq<char>, n: nat)
    ensures
        digits_value(s + zeros(n)) == digits_value(s) * pow10(n),
{
    lemma_value_concat(s, zeros(n));
    lemma_zeros_value(n);
}

/// Of two digit strings of one length, the one with the greater digit at the
/// first place where they differ is worth more.
proof fn lemma_first_difference(a: Seq<char>, b: Seq<char>, p: int)
    requires
        all_digits(a),
        all_digits(b),
        a.len() == b.len(),
        0 <= p < a.len(),
        a.subrange(0, p) == b.subrange(0, p),
        digit_value(a[p]) > digit_value(b[p]),
    ensures
        digits_value(a) > digits_value(b),
{
    let n = a.len();
    let ah = a.subrange(0, p + 1);
    let bh = b.subrange(0, p + 1);
    let at = a.subrange(p + 1, n as int);
    let bt = b.subrange(p + 1, n as int);
    assert(ah + at =~= a);
    assert(bh + bt =~= b);
    lemma_value_concat(ah, at);
    lemma_value_concat(bh, bt);
    assert(ah.drop_last() =~= a.subrange(0, p));
    assert(bh.drop_last() =~= b.subrange(0, p));
    assert(digits_value(ah) >= digits_value(bh) + 1);
    assert(all_digits(bt)) by {
        assert forall|i: int| 0 <= i < bt.len() implies is_digit(#[trigger] bt[i]) by {
            assert(bt[i] == b[p + 1 + i]);
        }
    }
    lemma_value_below(bt);
    let r = pow10(at.len());
    assert(digits_value(ah) * r + digits_value(at) > digits_value(bh) * r + digits_value(bt)) by (
    nonlinear_arith)
        requires
            digits_value(ah) >= digits_value(bh) + 1,
            digits_value(bt) < r,
    ;
}

/// The limit has 309 digits, the first of them not 0.
proof fn lemma_limit_digits()
    ensures
        all_digits(limit_digits()),
        limit_digits().len() == 309,
        digit_value(limit_digits()[0]) > 0,
        pow10(308) <= f64_limit() < pow10(309),
{
    reveal_strlit("179769313486231580793728971405303415079934132710037826936173778980444968292764750946649017977587207096330286416692887910946555547851940402630657488671505820681908902000708383676273854845817711531764475730270069855571366959622842914819860834936475292719074168444365510704342711559699508093042880177904174497792");
    assert(all_digits(limit_digits()));
    assert(limit_digits()[0] == '1');
    lemma_value_below(limit_digits());
    lemma_value_at_least(limit_digits());
}

/// Whether `n * 10^k` reaches the limit is decided by the number of digits
/// of `n * 10^k`, `s.len() + k`, unless it has exactly as many as the limit.
proof fn lemma_magnitude_decides(s: Seq<char>, k: int)
    requires
        all_digits(s),
        s.len() > 0,
        digit_value(s[0]) > 0,
    ensures
        s.len() + k >= 310 ==> scaled_at_least(digits_value(s), k, f64_limit()),
        s.len() + k <= 308 ==> !scaled_at_least(digits_value(s), k, f64_limit()),
{
    let n = digits_value(s);
    let t = f64_limit();
    let l = s.len();
    lemma_limit_digits();
    lemma_value_below(s);
    lemma_value_at_least(s);
    let lo = pow10((l - 1) as nat);
    let hi = pow10(l);
    if l + k >= 310 {
        if k >= 0 {
            let kk = k as nat;
            lemma_pow10_add((l - 1) as nat, kk);
            lemma_pow10_monotonic(309, (l - 1 + kk) as nat);
            let pk = pow10(kk);
            lemma_pow10_positive(kk);
            assert(n * pk >= lo * pk) by (nonlinear_arith)
                requires
                    n >= lo,
                    pk >= 1,
            ;
        } else {
            let kk = (-k) as nat;
            lemma_pow10_add(309, kk);
            lemma_pow10_monotonic(309 + kk, (l - 1) as nat);
            let pk = pow10(kk);
            lemma_pow10_positive(kk);
            assert(t * pk <= pow10(309) * pk) by (nonlinear_arith)
                requires
                    t < pow10(309),
                    pk >= 1,
            ;
        }
    }
    if l + k <= 308 {
        if k >= 0 {
            let kk = k as nat;
            lemma_pow10_add(l, kk);
            lemma_pow10_monotonic((l + kk) as nat, 308);
            let pk = pow10(kk);
            lemma_pow10_positive(kk);
            assert(n * pk < hi * pk) by (nonlinear_arith)
                requires
                    n < hi,
                    pk >= 1,
            ;
        } else {
            let kk = (-k) as nat;
            lemma_pow10_add(308, kk);
            lemma_pow10_monotonic(l, 308 + kk);
            let pk = pow10(kk);
            lemma_pow10_positive(kk);
            assert(pow10(308) * pk <= t * pk) by (nonlinear_arith)
                requires
                    pow10(308) <= t,
                    pk >= 1,
            ;
        }
    }
}

/// `s` padded with zeros on the right to `width` characters.
pub open spec fn padded(s: Seq<char>, width: nat) -> Seq<char> {
    if s.len() < width {
        s + zeros((width - s.len()) as nat)
    } else {
        s
    }
}

/// The width to which a string of `l` digits and the limit are padded to be
/// compared.
pub open spec fn limit_width(l: nat) -> nat {
    if l < 309 {
        309
    } else {
        l
    }
}

/// With exactly as many digits as the limit, `n * 10^k` reaches it exactly
/// when the digits of `n`, padded, are worth at least those of the limit,
/// padded to the same width.
proof fn lemma_magnitude_boundary(s: Seq<char>, k: int)
    requires
        s.len() + k == 309,
    ensures
        scaled_at_least(digits_value(s), k, f64_limit()) == (digits_value(
            padded(s, limit_width(s.len())),
        ) >= digits_value(padded(limit_digits(), limit_width(s.len())))),
{
    lemma_limit_digits();
    if k >= 0 {
        lemma_value_padded(s, k as nat);
        if s.len() == 309 {
            assert(pow10(0) == 1);
        }
    } else {
        lemma_value_padded(limit_digits(), (-k) as nat);
    }
}

/// Zeros are digits.
proof fn lemma_padded_digits(s: Seq<char>, width: nat)
    requires
        all_digits(s),
    ensures
        all_digits(padded(s, width)),
        padded(s, width).len() == if s.len() < width { width } else { s.len() },
{
    let p = padded(s, width);
    assert forall|i: int| 0 <= i < p.len() implies is_digit(#[trigger] p[i]) by {
        if i >= s.len() {
            assert(p[i] == '0');
        }
    }
}

/// Characters with one code are one character.
proof fn lemma_code_injective(c: char, d: char)
    ensures
        (c as u32) == (d as u32) ==> c == d,
{
    assert(((c as u32) as char) == c);
    assert(((d as u32) as char) == d);
}

/// Ten to the thirtieth power.
proof fn lemma_pow10_30()
    ensures
        pow10(30) == 1_000_000_000_000_000_000_000_000_000_000,
{
    reveal_with_fuel(pow10, 31);
}

/// The first `leading_digits(s)` characters of `s` are digits.
proof fn lemma_leading_digits_are_digits(s: Seq<char>)
    ensures
        leading_digits(s) <= s.len(),
        all_digits(s.subrange(0, leading_digits(s) as int)),
    decreases s.len(),
{
    if s.len() > 0 && is_digit(s[0]) {
        let t = s.drop_first();
        lemma_leading_digits_are_digits(t);
        let l = leading_digits(s) as int;
        assert forall|i: int| 0 <= i < l implies is_digit(#[trigger] s.subrange(0, l)[i]) by {
            if i > 0 {
                assert(s.subrange(0, l)[i] == t.subrange(0, l - 1)[i - 1]);
            }
        }
    }
}

/// The digits of the run that starts at `a` and ends at `b`.
proof fn lemma_digit_run(s: Seq<char>, a: int, b: int)
    requires
        0 <= a <= s.len(),
        b == a + leading_digits(s.subrange(a, s.len() as int)),
    ensures
        b <= s.len(),
        all_digits(s.subrange(a, b)),
{
    let t = s.subrange(a, s.len() as int);
    lemma_leading_digits_are_digits(t);
    assert(t.subrange(0, b - a) =~= s.subrange(a, b));
}

/// The value of a digit string grows by one digit at a time.
proof fn lemma_value_step(s: Seq<char>, a: int, p: int)
    requires
        0 <= a <= p < s.len(),
    ensures
        digits_value(s.subrange(a, p + 1)) == digits_value(s.subrange(a, p)) * 10 + digit_value(
            s[p],
        ),
{
    assert(s.subrange(a, p + 1).drop_last() =~= s.subrange(a, p));
    assert(s.subrange(a, p + 1).last() == s[p]);
}

/// The exponent that `s[from..]`, an `Exp?`, holds: `(true, e)` with its
/// value `e`, or, where its size reaches 10^30, `(false, 1)` or `(false, -1)`
/// with its sign.
fn exponent_from(s: &Vec<char>, from: usize) -> (r: (bool, i128))
    requires
        from <= s.len(),
        is_exponent_or_empty(s@.subrange(from as int, s.len() as int)),
    ensures
        r.0 ==> r.1 == exponent_of(s@.subrange(from as int, s.len() as int)),
        r.0 ==> -1_000_000_000_000_000_000_000_000_000_000 < r.1
            < 1_000_000_000_000_000_000_000_000_000_000,
        !r.0 ==> (r.1 == 1 && exponent_of(s@.subrange(from as int, s.len() as int)) >= pow10(30))
            || (r.1 == -1 && exponent_of(s@.subrange(from as int, s.len() as int)) <= -pow10(30)),
{
    let ghost x = s@.subrange(from as int, s.len() as int);
    let n = s.len();
    proof {
        lemma_pow10_30();
    }
    if from == n {
        return (true, 0);
    }
    let mut start: usize = from + 1;
    let mut negative = false;
    if start < n && (s[start] == '+' || s[start] == '-') {
        assert(x[1] == s@[start as int]);
        negative = s[start] == '-';
        start = start + 1;
        assert(x.subrange(2, x.len() as int) =~= s@.subrange(start as int, n as int));
    } else {
        assert(x.len() > 1 ==> x[1] == s@[start as int]);
        assert(x.subrange(1, x.len() as int) =~= s@.subrange(start as int, n as int));
    }
    let ghost d = s@.subrange(start as int, n as int);
    proof {
        lemma_leading_digits_are_digits(d);
        assert(d.subrange(0, d.len() as int) =~= d);
    }
    assert(all_digits(d));
    assert(exponent_of(x) == if negative {
        -digits_value(d)
    } else {
        digits_value(d) as int
    });
    let mut z: usize = start;
    while z < n && s[z] == '0'
        invariant
            start <= z <= n,
            n == s.len(),
            forall|i: int| start <= i < z ==> s@[i] == '0',
        decreases n - z,
    {
        z += 1;
    }
    let ghost w = s@.subrange(z as int, n as int);
    proof {
        assert forall|i: int| 0 <= i < z - start implies d[i] == '0' by {
            assert(d[i] == s@[start + i]);
        }
        lemma_leading_zeros(d, z - start);
        assert(d.subrange(z - start, d.len() as int) =~= w);
        assert forall|i: int| 0 <= i < w.len() implies is_digit(#[trigger] w[i]) by {
            assert(w[i] == d[z - start + i]);
        }
    }
    if n - z > 30 {
        proof {
            assert(w[0] == s@[z as int]);
            assert(s@[z as int] != '0');
            lemma_code_injective(s@[z as int], '0');
            lemma_value_at_least(w);
            lemma_pow10_monotonic(30, (w.len() - 1) as nat);
        }
        return (false, if negative { -1 } else { 1 });
    }
    let mut v: u128 = 0;
    let mut p: usize = z;
    assert(s@.subrange(z as int, z as int) =~= Seq::<char>::empty());
    while p < n
        invariant
            z <= p <= n,
            n == s.len(),
            n - z <= 30,
            w == s@.subrange(z as int, n as int),
            all_digits(w),
            v == digits_value(s@.subrange(z as int, p as int)),
            v < pow10((p - z) as nat),
            pow10(30) == 1_000_000_000_000_000_000_000_000_000_000,
        decreases n - p,
    {
        proof {
            lemma_value_step(s@, z as int, p as int);
            lemma_pow10_monotonic((p + 1 - z) as nat, 30);
            assert(is_digit(w[p - z]));
            assert(w[p - z] == s@[p as int]);
            assert(pow10((p + 1 - z) as nat) == 10 * pow10((p - z) as nat));
        }
        let c: char = s[p];
        assert(is_digit(c));
        let digit = (c as u32 - 0x30) as u128;
        v = v * 10 + digit;
        p += 1;
    }
    assert(s@.subrange(z as int, n as int) =~= w);
    proof {
        lemma_pow10_monotonic((n - z) as nat, 30);
    }
    (true, if negative { -(v as i128) } else { v as i128 })
}

/// The characters of the limit's digits.
fn limit_chars() -> (r: Vec<char>)
    ensures
        r@ == limit_digits(),
{
    crate::text::chars_of(
        "179769313486231580793728971405303415079934132710037826936173778980444968292764750946649017977587207096330286416692887910946555547851940402630657488671505820681908902000708383676273854845817711531764475730270069855571366959622842914819860834936475292719074168444365510704342711559699508093042880177904174497792",
    )
}

/// Whether the digits of `d` from `from` on, padded, are worth at least the
/// limit padded to the same width.
fn reaches_limit(d: &Vec<char>, from: usize) -> (r: bool)
    requires
        from <= d.len(),
        all_digits(d@.subrange(from as int, d.len() as int)),
    ensures
        ({
            let s = d@.subrange(from as int, d.len() as int);
            let w = limit_width(s.len());
            r == (digits_value(padded(s, w)) >= digits_value(padded(limit_digits(), w)))
        }),
{
    let ghost s = d@.subrange(from as int, d.len() as int);
    let lim = limit_chars();
    proof {
        lemma_limit_digits();
    }
    let len = d.len() - from;
    let width: usize = if len < 309 { 309 } else { len };
    let ghost pa = padded(s, width as nat);
    let ghost pb = padded(limit_digits(), width as nat);
    proof {
        lemma_padded_digits(s, width as nat);
        lemma_padded_digits(limit_digits(), width as nat);
    }
    let mut p: usize = 0;
    while p < width
        invariant
            p <= width,
            width == limit_width(s.len()),
            s == d@.subrange(from as int, d.len() as int),
            len == s.len(),
            from + len == d.len(),
            lim@ == limit_digits(),
            lim.len() == 309,
            pa == padded(s, width as nat),
            pb == padded(limit_digits(), width as nat),
            pa.len() == width,
            pb.len() == width,
            all_digits(pa),
            all_digits(pb),
            pa.subrange(0, p as int) == pb.subrange(0, p as int),
        decreases width - p,
    {
        let a: char = if p < len { d[from + p] } else { '0' };
        let b: char = if p < 309 { lim[p] } else { '0' };
        assert(a == pa[p as int]);
        assert(b == pb[p as int]);
        let ca = a as u32;
        let cb = b as u32;
        if ca != cb {
            proof {
                assert(is_digit(pa[p as int]));
                assert(is_digit(pb[p as int]));
                if ca > cb {
                    lemma_first_difference(pa, pb, p as int);
                } else {
                    lemma_first_difference(pb, pa, p as int);
                }
            }
            return ca > cb;
        }
        proof {
            lemma_code_injective(a, b);
            assert(pa.subrange(0, p + 1) =~= pa.subrange(0, p as int).push(a));
            assert(pb.subrange(0, p + 1) =~= pb.subrange(0, p as int).push(b));
        }
        p += 1;
    }
    assert(pa =~= pa.subrange(0, width as int));
    assert(pb =~= pb.subrange(0, width as int));
    true
}

/// Nothing reaches the limit scaled from zero.
proof fn lemma_zero_below_limit(k: int)
    ensures
        !scaled_at_least(0, k, f64_limit()),
{
    lemma_limit_digits();
    lemma_pow10_positive(308);
    if k < 0 {
        let pk = pow10((-k) as nat);
        lemma_pow10_positive((-k) as nat);
        assert(f64_limit() * pk >= 1) by (nonlinear_arith)
            requires
                f64_limit() >= 1,
                pk >= 1,
        ;
    }
}

/// Whether the `Number` that `s` holds from `from` on is too large to be a
/// finite `f64`.
#[verifier::rlimit(40)]
pub fn number_overflows(s: &Vec<char>, from: usize) -> (r: bool)
    requires
        from <= s.len(),
        is_number(s@.subrange(from as int, s.len() as int)),
    ensures
        r == overflows(s@.subrange(from as int, s.len() as int)),
{
    let ghost u = s@.subrange(from as int, s.len() as int);
    let n = s.len();
    let i = skip_digits(s, from);
    proof {
        lemma_digit_run(s@, from as int, i as int);
    }
    assert(int_digits(u) =~= s@.subrange(from as int, i as int));
    assert(after_int(u) =~= s@.subrange(i as int, n as int));
    let mut f0: usize = i;
    let mut f1: usize = i;
    if i < n && s[i] == '.' {
        assert(after_int(u)[0] == s@[i as int]);
        assert(has_point(u));
        f0 = i + 1;
        f1 = skip_digits(s, f0);
        proof {
            lemma_digit_run(s@, f0 as int, f1 as int);
        }
        assert(after_point(u) =~= s@.subrange(f0 as int, n as int));
        assert(frac_digits(u) =~= s@.subrange(f0 as int, f1 as int));
        assert(exponent_text(u) =~= s@.subrange(f1 as int, n as int));
    } else {
        assert(after_int(u).len() > 0 ==> after_int(u)[0] == s@[i as int]);
        assert(!has_point(u));
        assert(frac_digits(u) =~= s@.subrange(f0 as int, f1 as int));
        assert(exponent_text(u) =~= s@.subrange(f1 as int, n as int));
    }
    assert(all_digits(s@.subrange(f0 as int, f1 as int)));
    let (fits, e) = exponent_from(s, f1);
    let mut d: Vec<char> = Vec::new();
    let mut p: usize = from;
    while p < i
        invariant
            from <= p <= i <= n,
            n == s.len(),
            d@ == s@.subrange(from as int, p as int),
        decreases i - p,
    {
        d.push(s[p]);
        p += 1;
        assert(d@ =~= s@.subrange(from as int, p as int));
    }
    let mut q: usize = f0;
    while q < f1
        invariant
            f0 <= q <= f1 <= n,
            n == s.len(),
            d@ == s@.subrange(from as int, i as int) + s@.subrange(f0 as int, q as int),
        decreases f1 - q,
    {
        d.push(s[q]);
        q += 1;
        assert(d@ =~= s@.subrange(from as int, i as int) + s@.subrange(f0 as int, q as int));
    }
    assert(d@ == int_digits(u) + frac_digits(u));
    assert(all_digits(d@)) by {
        let a = int_digits(u);
        let b = frac_digits(u);
        assert forall|j: int| 0 <= j < d@.len() implies is_digit(#[trigger] d@[j]) by {
            if j < a.len() {
                assert(d@[j] == a[j]);
            } else {
                assert(d@[j] == b[j - a.len()]);
            }
        }
    }
    let mut z: usize = 0;
    while z < d.len() && (d[z] as u32) == 0x30
        invariant
            z <= d.len(),
            forall|j: int| 0 <= j < z ==> (#[trigger] d@[j] as u32) == 0x30,
        decreases d.len() - z,
    {
        z += 1;
    }
    let ghost dd = d@.subrange(z as int, d.len() as int);
    let ghost k = exponent_value(u) - frac_digits(u).len();
    proof {
        assert forall|j: int| 0 <= j < z implies d@[j] == '0' by {
            lemma_code_injective(d@[j], '0');
        }
        lemma_leading_zeros(d@, z as int);
        assert forall|j: int| 0 <= j < dd.len() implies is_digit(#[trigger] dd[j]) by {
            assert(dd[j] == d@[z + j]);
        }
    }
    assert(overflows(u) == scaled_at_least(digits_value(dd), k, f64_limit()));
    if z == d.len() {
        assert(dd =~= Seq::<char>::empty());
        proof {
            lemma_zero_below_limit(k);
        }
        return false;
    }
    let len = d.len() - z;
    let flen = f1 - f0;
    proof {
        assert(dd[0] == d@[z as int]);
        lemma_magnitude_decides(dd, k);
        lemma_pow10_30();
    }
    if !fits {
        return e > 0;
    }
    let m: i128 = len as i128 + e - flen as i128;
    if m >= 310 {
        return true;
    }
    if m <= 308 {
        return false;
    }
    proof {
        lemma_magnitude_boundary(dd, k);
    }
    reaches_limit(&d, z)
}

/// Whether the amount `text`, a number that `f64` reads (neither `inf` nor
/// `nan`), is too large to be a finite `f64`.
pub fn amount_overflows(text: &str) -> (r: bool)
    requires
        is_float_literal(text@),
        !is_special_value(unsigned_part(text@)),
    ensures
        r == overflows(unsigned_part(text@)),
{
    let s = crate::text::chars_of(text);
    let mut from: usize = 0;
    if s.len() > 0 && (s[0] == '+' || s[0] == '-') {
        from = 1;
    }
    assert(s@.subrange(from as int, s.len() as int) =~= unsigned_part(text@));
    number_overflows(&s, from)
}

} // verus!
