//! JSON numbers: integers and reals.

use vstd::prelude::*;
use vstd::utf8::*;
use crate::json::text::{lemma_encode_concat, push_ascii, push_str_bytes, string_from_encoded};

verus! {

/// A JSON number.
///
/// A real is carried as the decimal text that `f64`'s `Display` writes for it
/// (`42.195`, `100`, `-0.5`); that text is what the number's JSON form shows.
#[derive(Debug)]
pub enum Number {
    Integer(i64),
    Real(String),
}

/// The character of a decimal digit.
pub open spec fn digit_char(d: nat) -> char {
    ((48 + d) as u8) as char
}

/// The decimal text of a natural number, without leading zeros.
pub open spec fn nat_text(n: nat) -> Seq<char>
    decreases n,
{
    if n < 10 {
        seq![digit_char(n)]
    } else {
        nat_text(n / 10) + seq![digit_char(n % 10)]
    }
}

/// The decimal text of an integer, with a leading minus sign when negative.
pub open spec fn int_text(n: int) -> Seq<char> {
    if n < 0 {
        seq!['-'] + nat_text((-n) as nat)
    } else {
        nat_text(n as nat)
    }
}

/// The JSON text of a number.
pub open spec fn number_text(n: Number) -> Seq<char> {
    match n {
        Number::Integer(i) => int_text(i as int),
        Number::Real(t) => t@,
    }
}

/// Appends the decimal digits of `n` to `out`, in UTF-8.
pub(crate) fn push_nat(out: &mut Vec<u8>, n: u64)
    ensures
        final(out)@ == old(out)@ + encode_utf8(nat_text(n as nat)),
    decreases n,
{
    if n >= 10 {
        push_nat(out, n / 10);
    }
    let ghost mid = out@;
    let d: u8 = (n % 10) as u8;
    push_ascii(out, 48 + d);
    proof {
        assert(((48 + d) as u8) as char == digit_char((n % 10) as nat));
        if n >= 10 {
            lemma_encode_concat(nat_text((n / 10) as nat), seq![digit_char((n % 10) as nat)]);
        } else {
            assert(old(out)@ =~= mid);
        }
    }
}

/// Appends the decimal text of `n` to `out`, in UTF-8.
pub(crate) fn push_int(out: &mut Vec<u8>, n: i64)
    ensures
        final(out)@ == old(out)@ + encode_utf8(int_text(n as int)),
{
    if n < 0 {
        push_ascii(out, 45);
        let ghost mid = out@;
        let m: u64 = (-(n as i128)) as u64;
        push_nat(out, m);
        proof {
            assert((45u8) as char == '-');
            lemma_encode_concat(seq!['-'], nat_text(m as nat));
        }
    } else {
        push_nat(out, n as u64);
    }
}

impl Number {
    /// The JSON text of this number: an integer in decimal, a real as its text.
    pub fn to_string(&self) -> (text: String)
        ensures
            text@ == number_text(*self),
    {
        let mut out: Vec<u8> = Vec::new();
        match self {
            Number::Integer(x) => push_int(&mut out, *x),
            Number::Real(x) => push_str_bytes(&mut out, x.as_str()),
        }
        assert(out@ =~= encode_utf8(number_text(*self)));
        string_from_encoded(out, Ghost(number_text(*self)))
    }
}

impl From<i64> for Number {
    fn from(value: i64) -> (n: Number) {
        Number::Integer(value)
    }
}

impl vstd::std_specs::convert::FromSpecImpl<i64> for Number {
    open spec fn obeys_from_spec() -> bool {
        true
    }

    open spec fn from_spec(v: i64) -> Number {
        Number::Integer(v)
    }
}


/// Whether `c` is one of the characters `0` to `9`.
pub open spec fn is_decimal_digit(c: char) -> bool {
    '0' <= c <= '9'
}

/// The number that a string of decimal digits denotes, read most significant
/// digit first (each digit counts as its code minus the code of `0`).
pub open spec fn decimal_value(s: Seq<char>) -> int
    decreases s.len(),
{
    if s.len() == 0 {
        0
    } else {
        decimal_value(s.drop_last()) * 10 + (s.last() as int - '0' as int)
    }
}

/// The integer that a decimal text with an optional leading minus denotes.
pub open spec fn signed_decimal_value(s: Seq<char>) -> int {
    if s.len() > 0 && s[0] == '-' {
        -decimal_value(s.drop_first())
    } else {
        decimal_value(s)
    }
}

proof fn lemma_digit_char(d: nat)
    requires
        d < 10,
    ensures
        digit_char(d) as int == '0' as int + d,
        is_decimal_digit(digit_char(d)),
{
    assert(((48 + d) as u8) as int == 48 + d);
}

/// Law: the decimal text of a natural number is made of the digits `0` to
/// `9`, starts with `0` only when the number is zero, and reads back as the
/// number.
pub proof fn law_nat_text_reads_back(n: nat)
    ensures
        decimal_value(nat_text(n)) == n,
        nat_text(n).len() > 0,
        forall|i: int| 0 <= i < nat_text(n).len() ==> is_decimal_digit(#[trigger] nat_text(n)[i]),
        n > 0 ==> nat_text(n)[0] != '0',
    decreases n,
{
    if n < 10 {
        lemma_digit_char(n);
        assert(seq![digit_char(n)].drop_last() =~= Seq::<char>::empty());
        assert(decimal_value(Seq::<char>::empty()) == 0);
        assert(decimal_value(nat_text(n)) == 0 * 10 + (digit_char(n) as int - '0' as int));
    } else {
        law_nat_text_reads_back(n / 10);
        lemma_digit_char(n % 10);
        let t = nat_text(n);
        assert(t.drop_last() =~= nat_text(n / 10));
        assert(t.last() == digit_char(n % 10));
        assert(n == (n / 10) * 10 + n % 10);
        assert(decimal_value(t) == decimal_value(nat_text(n / 10)) * 10 + (digit_char(n % 10) as int
            - '0' as int));
        assert(t[0] == nat_text(n / 10)[0]);
        assert forall|i: int| 0 <= i < t.len() implies is_decimal_digit(#[trigger] t[i]) by {
            if i < t.len() - 1 {
                assert(t[i] == nat_text(n / 10)[i]);
            }
        }
    }
}

/// Law: the text of an integer reads back as the integer, with a minus sign
/// exactly when it is negative.
pub proof fn law_int_text_reads_back(n: int)
    ensures
        signed_decimal_value(int_text(n)) == n,
        (int_text(n)[0] == '-') == (n < 0),
{
    if n < 0 {
        law_nat_text_reads_back((-n) as nat);
        assert(int_text(n).drop_first() =~= nat_text((-n) as nat));
    } else {
        law_nat_text_reads_back(n as nat);
        assert(is_decimal_digit(nat_text(n as nat)[0]));
    }
}

} // verus!
