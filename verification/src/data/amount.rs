//! The syntax of a decimal amount as `f64`'s `FromStr` accepts it:
//!
//! ```text
//! Float  ::= Sign? ( 'inf' | 'infinity' | 'nan' | Number )
//! Number ::= ( Digit+ | Digit+ '.' Digit* | Digit* '.' Digit+ ) Exp?
//! Exp    ::= 'e' Sign? Digit+
//! Sign   ::= [+-]
//! Digit  ::= [0-9]
//! ```
//!
//! where letters are compared without ASCII case.
use vstd::prelude::*;

use crate::text::{ascii_lower_code, chars_of, eq_ignoring_ascii_case, eq_ignore_ascii_case};

verus! {

broadcast use vstd::string::group_string_axioms;

pub open spec fn is_digit(c: char) -> bool {
    0x30 <= (c as u32) <= 0x39
}

pub open spec fn is_sign(c: char) -> bool {
    c == '+' || c == '-'
}

/// How many decimal digits `s` starts with.
pub open spec fn leading_digits(s: Seq<char>) -> nat
    decreases s.len(),
{
    if s.len() > 0 && is_digit(s[0]) {
        1 + leading_digits(s.drop_first())
    } else {
        0
    }
}

/// `Exp?`: nothing, or an `e` with an optional sign and at least one digit.
pub open spec fn is_exponent_or_empty(s: Seq<char>) -> bool {
    s.len() == 0 || {
        &&& ascii_lower_code(s[0]) == 0x65
        &&& {
            let d = if s.len() > 1 && is_sign(s[1]) {
                s.subrange(2, s.len() as int)
            } else {
                s.subrange(1, s.len() as int)
            };
            d.len() > 0 && leading_digits(d) == d.len()
        }
    }
}

/// `Number`: digits with an optional fraction, then an optional exponent.
pub open spec fn is_number(s: Seq<char>) -> bool {
    let i = leading_digits(s);
    let rest = s.subrange(i as int, s.len() as int);
    if rest.len() > 0 && rest[0] == '.' {
        let frac = rest.subrange(1, rest.len() as int);
        let j = leading_digits(frac);
        &&& i + j > 0
        &&& is_exponent_or_empty(frac.subrange(j as int, frac.len() as int))
    } else {
        i > 0 && is_exponent_or_empty(rest)
    }
}

/// `inf`, `infinity` or `nan`, in any ASCII case.
pub open spec fn is_special_value(s: Seq<char>) -> bool {
    ||| eq_ignoring_ascii_case(s, "inf"@)
    ||| eq_ignoring_ascii_case(s, "infinity"@)
    ||| eq_ignoring_ascii_case(s, "nan"@)
}

/// `s` without its sign, if it has one.
pub open spec fn unsigned_part(s: Seq<char>) -> Seq<char> {
    if s.len() > 0 && is_sign(s[0]) {
        s.drop_first()
    } else {
        s
    }
}

/// `Float`: the strings that parse as an `f64`.
pub open spec fn is_float_literal(s: Seq<char>) -> bool {
    let u = unsigned_part(s);
    u.len() > 0 && (is_special_value(u) || is_number(u))
}

proof fn lemma_leading_digits_step(s: Seq<char>, i: int)
    requires
        0 <= i < s.len(),
        is_digit(s[i]),
    ensures
        leading_digits(s.subrange(i, s.len() as int)) == 1 + leading_digits(
            s.subrange(i + 1, s.len() as int),
        ),
{
    assert(s.subrange(i, s.len() as int).drop_first() =~= s.subrange(i + 1, s.len() as int));
}

fn is_digit_char(c: char) -> (r: bool)
    ensures
        r == is_digit(c),
{
    let u = c as u32;
    0x30 <= u && u <= 0x39
}

/// The index of the first non-digit at or after `from`.
pub(crate) fn skip_digits(s: &Vec<char>, from: usize) -> (to: usize)
    requires
        from <= s.len(),
    ensures
        to == from + leading_digits(s@.subrange(from as int, s.len() as int)),
        to <= s.len(),
{
    let mut i = from;
    while i < s.len() && is_digit_char(s[i])
        invariant
            from <= i <= s.len(),
            leading_digits(s@.subrange(from as int, s.len() as int)) == (i - from)
                + leading_digits(s@.subrange(i as int, s.len() as int)),
        decreases s.len() - i,
    {
        proof {
            lemma_leading_digits_step(s@, i as int);
        }
        i += 1;
    }
    proof {
        if i < s.len() {
            assert(s@.subrange(i as int, s.len() as int)[0] == s@[i as int]);
        } else {
            assert(s@.subrange(i as int, s.len() as int).len() == 0);
        }
    }
    i
}

/// Whether `s[from..]` is `Exp?`.
fn exponent_or_empty_from(s: &Vec<char>, from: usize) -> (r: bool)
    requires
        from <= s.len(),
    ensures
        r == is_exponent_or_empty(s@.subrange(from as int, s.len() as int)),
{
    let ghost e = s@.subrange(from as int, s.len() as int);
    if from == s.len() {
        return true;
    }
    assert(e[0] == s@[from as int]);
    let u = s[from] as u32;
    if !(u == 0x65 || u == 0x45) {
        return false;
    }
    let mut start = from + 1;
    if start < s.len() && (s[start] == '+' || s[start] == '-') {
        assert(e[1] == s@[start as int]);
        start = start + 1;
        assert(e.subrange(2, e.len() as int) =~= s@.subrange(start as int, s.len() as int));
    } else {
        assert(e.len() > 1 ==> e[1] == s@[start as int]);
        assert(e.subrange(1, e.len() as int) =~= s@.subrange(start as int, s.len() as int));
    }
    let end = skip_digits(s, start);
    start < s.len() && end == s.len()
}

/// Whether `s[from..]` is a `Number`.
fn number_from(s: &Vec<char>, from: usize) -> (r: bool)
    requires
        from <= s.len(),
    ensures
        r == is_number(s@.subrange(from as int, s.len() as int)),
{
    let ghost u = s@.subrange(from as int, s.len() as int);
    let i = skip_digits(s, from);
    let ghost rest = u.subrange((i - from) as int, u.len() as int);
    assert(rest =~= s@.subrange(i as int, s.len() as int));
    if i < s.len() && s[i] == '.' {
        assert(rest[0] == s@[i as int]);
        let j = skip_digits(s, i + 1);
        let ghost frac = rest.subrange(1, rest.len() as int);
        assert(frac =~= s@.subrange(i + 1, s.len() as int));
        assert(frac.subrange((j - i - 1) as int, frac.len() as int) =~= s@.subrange(
            j as int,
            s.len() as int,
        ));
        (i - from) + (j - i - 1) > 0 && exponent_or_empty_from(s, j)
    } else {
        assert(rest.len() > 0 ==> rest[0] == s@[i as int]);
        i > from && exponent_or_empty_from(s, i)
    }
}

/// Whether `text` parses as an `f64` (the grammar above).
pub fn is_float_text(text: &str) -> (r: bool)
    ensures
        r == is_float_literal(text@),
{
    let s = chars_of(text);
    let mut from: usize = 0;
    if s.len() > 0 && (s[0] == '+' || s[0] == '-') {
        from = 1;
    }
    assert(s@.subrange(from as int, s.len() as int) =~= unsigned_part(text@));
    if from == s.len() {
        return false;
    }
    let body = crate::text::string_of_range(&s, from, s.len());
    let special = eq_ignore_ascii_case(body.as_str(), "inf") || eq_ignore_ascii_case(
        body.as_str(),
        "infinity",
    ) || eq_ignore_ascii_case(body.as_str(), "nan");
    special || number_from(&s, from)
}

/// Whether `text`, without its sign, is `inf`, `infinity` or `nan`: a literal
/// that parses to no finite amount.
pub fn is_special_text(text: &str) -> (r: bool)
    ensures
        r == is_special_value(unsigned_part(text@)),
{
    let s = chars_of(text);
    let mut from: usize = 0;
    if s.len() > 0 && (s[0] == '+' || s[0] == '-') {
        from = 1;
    }
    assert(s@.subrange(from as int, s.len() as int) =~= unsigned_part(text@));
    let body = crate::text::string_of_range(&s, from, s.len());
    eq_ignore_ascii_case(body.as_str(), "inf") || eq_ignore_ascii_case(body.as_str(), "infinity")
        || eq_ignore_ascii_case(body.as_str(), "nan")
}

} // verus!
