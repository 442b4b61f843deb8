//! Arbitrary-precision signed integers for integer tokens.
//!
//! A value is kept in sign-magnitude form: a sign flag and the decimal
//! digits of the magnitude, most significant first. The only operation
//! the tokenizer needs is exact decimal parsing, so the mathematical
//! value of a number is given by a spec function mapping the digits to
//! an unbounded `int`.

use vstd::prelude::*;

verus! {

/// A character is an ASCII decimal digit.
pub open spec fn is_digit(c: char) -> bool {
    48 <= c as int && c as int <= 57
}

/// The numeric value of an ASCII decimal digit character.
pub open spec fn digit_val(c: char) -> int {
    c as int - 48
}

/// A character is an explicit sign.
pub open spec fn is_sign(c: char) -> bool {
    c == '+' || c == '-'
}

/// The value of a big-endian sequence of decimal digit values.
pub open spec fn digits_val(ds: Seq<u8>) -> int
    decreases ds.len(),
{
    if ds.len() == 0 {
        0
    } else {
        digits_val(ds.drop_last()) * 10 + ds.last()
    }
}

/// Every character of `t` is an ASCII decimal digit.
pub open spec fn all_digits(t: Seq<char>) -> bool {
    forall|i: int| 0 <= i < t.len() ==> is_digit(t[i])
}

/// The value of a run of ASCII digit characters read as a decimal numeral.
pub open spec fn dec_val(t: Seq<char>) -> int
    decreases t.len(),
{
    if t.len() == 0 {
        0
    } else {
        dec_val(t.drop_last()) * 10 + digit_val(t.last())
    }
}

/// `t` is exactly one integer literal: an optional sign followed by
/// one or more ASCII decimal digits.
pub open spec fn is_int_text(t: Seq<char>) -> bool {
    if t.len() == 0 {
        false
    } else if is_sign(t[0]) {
        t.len() >= 2 && all_digits(t.skip(1))
    } else {
        all_digits(t)
    }
}

/// The signed value of an integer literal.
pub open spec fn int_text_val(t: Seq<char>) -> int {
    if t.len() > 0 && t[0] == '-' {
        -dec_val(t.skip(1))
    } else if t.len() > 0 && t[0] == '+' {
        dec_val(t.skip(1))
    } else {
        dec_val(t)
    }
}

/// An arbitrary-precision signed integer in sign-magnitude form.
#[derive(Debug)]
pub struct BigNum {
    /// True for a value written with a leading minus sign.
    pub negative: bool,
    /// Decimal digit values of the magnitude, most significant first.
    pub digits: Vec<u8>,
}

impl BigNum {
    /// At least one digit, and every entry is a decimal digit value.
    pub open spec fn well_formed(&self) -> bool {
        self.digits@.len() >= 1 && forall|i: int|
            0 <= i < self.digits@.len() ==> self.digits@[i] < 10
    }

    /// The signed mathematical value.
    pub open spec fn value(&self) -> int {
        if self.negative {
            -digits_val(self.digits@)
        } else {
            digits_val(self.digits@)
        }
    }

    /// Parses an integer literal (optional sign, then one or more
    /// decimal digits) to its exact value; validates the whole text
    /// rather than trusting the caller, and reports any other input
    /// with `None`.
    pub fn parse(text: &str) -> (r: Option<BigNum>)
        ensures
            r is Some <==> is_int_text(text@),
            r is Some ==> (r->0).well_formed() && (r->0).value() == int_text_val(text@),
    {
        let n = text.unicode_len();
        if n == 0 {
            return None;
        }
        let c0 = text.get_char(0);
        let negative = c0 == '-';
        let start: usize = if c0 == '-' || c0 == '+' {
            1
        } else {
            0
        };
        if start == n {
            // a sign with no digits after it
            return None;
        }
        let mut digits: Vec<u8> = Vec::new();
        let mut j: usize = start;
        while j < n
            invariant
                n == text@.len(),
                start <= j <= n,
                start == 1 <==> is_sign(text@[0]),
                start <= 1 < n || start == 0,
                negative <==> (text@.len() > 0 && text@[0] == '-'),
                digits@.len() == j - start,
                forall|k: int| 0 <= k < digits@.len() ==> digits@[k] < 10,
                all_digits(text@.subrange(start as int, j as int)),
                digits_val(digits@) == dec_val(text@.subrange(start as int, j as int)),
            decreases n - j,
        {
            let c = text.get_char(j);
            let u = c as u32;
            if u < 48 || u > 57 {
                proof {
                    let t = text@;
                    if is_sign(t[0]) {
                        assert(t.skip(1)[j - 1] == t[j as int]);
                        assert(!all_digits(t.skip(1)));
                    } else {
                        assert(!all_digits(t));
                    }
                }
                return None;
            }
            let d: u8 = (u - 48) as u8;
            proof {
                let t = text@;
                let prev = t.subrange(start as int, j as int);
                let next = t.subrange(start as int, j + 1);
                assert(next.drop_last() =~= prev);
                assert(next.last() == t[j as int]);
                assert(digits@.push(d).drop_last() =~= digits@);
                assert(digits_val(digits@.push(d)) == digits_val(digits@) * 10 + d);
                assert(dec_val(next) == dec_val(prev) * 10 + digit_val(t[j as int]));
                assert(forall|k: int|
                    0 <= k < next.len() ==> #[trigger] next[k] == prev.push(t[j as int])[k]);
                assert(all_digits(next));
            }
            digits.push(d);
            j += 1;
        }
        proof {
            let t = text@;
            if start == 1 {
                assert(t.subrange(1, n as int) =~= t.skip(1));
                assert(is_int_text(t));
            } else {
                assert(t.subrange(0, n as int) =~= t);
                assert(is_int_text(t));
            }
        }
        Some(BigNum { negative, digits })
    }
}

} // verus!
