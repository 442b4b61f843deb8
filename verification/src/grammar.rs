//! Anchored patterns for the token rules.
//!
//! Each pattern is a spec function giving the number of characters it
//! matches at a position of the text, with `0` meaning no match; a rule
//! can therefore never consume an empty prefix, which is what keeps the
//! scanning loop productive. Each pattern also has an executable mirror
//! proved to return exactly the specified length. Every pattern prefers
//! the longest viable match for itself (a digit run is always taken
//! whole); disambiguation between different rules is by rule order
//! alone.

use vstd::prelude::*;
use crate::bignum::{is_digit, is_sign, is_int_text};

verus! {

/// A character is an ASCII letter.
pub open spec fn is_letter(c: char) -> bool {
    (97 <= c as int && c as int <= 122) || (65 <= c as int && c as int <= 90)
}

/// A character is ASCII whitespace: space, tab, line feed, vertical
/// tab, form feed or carriage return.
pub open spec fn is_space(c: char) -> bool {
    c == ' ' || c == '\t' || c == '\n' || c == '\u{000B}' || c == '\u{000C}' || c == '\r'
}

/// A class of characters a run can be made of.
#[derive(Debug, Clone, Copy, PartialEq, Eq, Structural)]
pub enum CharClass {
    /// ASCII decimal digits.
    Digit,
    /// ASCII whitespace.
    Space,
    /// ASCII letters and digits: the tail of an identifier.
    Wordy,
}

/// Membership of a character in a class.
pub open spec fn in_class(cls: CharClass, c: char) -> bool {
    match cls {
        CharClass::Digit => is_digit(c),
        CharClass::Space => is_space(c),
        CharClass::Wordy => is_letter(c) || is_digit(c),
    }
}

/// The first position at or after `i` whose character is not in the
/// class (or the end of the text): the end of the run starting at `i`.
pub open spec fn run_end(s: Seq<char>, i: int, cls: CharClass) -> int
    decreases s.len() - i,
{
    if i < s.len() && in_class(cls, s[i]) {
        run_end(s, i + 1, cls)
    } else {
        i
    }
}

pub proof fn lemma_run_end(s: Seq<char>, i: int, cls: CharClass)
    requires
        0 <= i <= s.len(),
    ensures
        i <= run_end(s, i, cls) <= s.len(),
        forall|k: int| i <= k < run_end(s, i, cls) ==> in_class(cls, s[k]),
        run_end(s, i, cls) < s.len() ==> !in_class(cls, s[run_end(s, i, cls)]),
    decreases s.len() - i,
{
    if i < s.len() && in_class(cls, s[i]) {
        lemma_run_end(s, i + 1, cls);
    }
}

/// A run over characters that all belong to the class reaches the end
/// of the text.
pub proof fn lemma_run_end_full(s: Seq<char>, i: int, cls: CharClass)
    requires
        0 <= i <= s.len(),
        forall|k: int| i <= k < s.len() ==> in_class(cls, s[k]),
    ensures
        run_end(s, i, cls) == s.len(),
{
    lemma_run_end(s, i, cls);
}

/// The first position at or after `i` holding a double quote (or the
/// end of the text).
pub open spec fn close_quote(s: Seq<char>, i: int) -> int
    decreases s.len() - i,
{
    if i < s.len() {
        if s[i] == '"' {
            i
        } else {
            close_quote(s, i + 1)
        }
    } else {
        i
    }
}

pub proof fn lemma_close_quote(s: Seq<char>, i: int)
    requires
        0 <= i <= s.len(),
    ensures
        i <= close_quote(s, i) <= s.len(),
        close_quote(s, i) < s.len() ==> s[close_quote(s, i)] == '"',
        forall|k: int| i <= k < close_quote(s, i) ==> s[k] != '"',
    decreases s.len() - i,
{
    if i < s.len() && s[i] != '"' {
        lemma_close_quote(s, i + 1);
    }
}

/// Length of an exponent part at `i`: an exponent marker, an optional
/// sign, and one or more digits; `0` if no complete exponent is there.
pub open spec fn exp_len(s: Seq<char>, i: int) -> int {
    if i < s.len() && (s[i] == 'e' || s[i] == 'E') {
        let j = if i + 1 < s.len() && is_sign(s[i + 1]) {
            i + 2
        } else {
            i + 1
        };
        let e = run_end(s, j, CharClass::Digit);
        if e > j {
            e - i
        } else {
            0
        }
    } else {
        0
    }
}

pub proof fn lemma_exp_len_bounds(s: Seq<char>, i: int)
    requires
        0 <= i <= s.len(),
    ensures
        0 <= exp_len(s, i),
        i + exp_len(s, i) <= s.len(),
{
    if i < s.len() && (s[i] == 'e' || s[i] == 'E') {
        let j = if i + 1 < s.len() && is_sign(s[i + 1]) {
            i + 2
        } else {
            i + 1
        };
        lemma_run_end(s, j, CharClass::Digit);
    }
}

/// Length of a float literal at `i`. The forms are: digits `.` digits,
/// digits `.`, or `.` digits, each with an optional exponent; or digits
/// followed directly by an exponent. `0` if none of them is there.
pub open spec fn float_len(s: Seq<char>, i: int) -> int {
    let d1 = run_end(s, i, CharClass::Digit);
    if d1 > i {
        if d1 < s.len() && s[d1] == '.' {
            let d2 = run_end(s, d1 + 1, CharClass::Digit);
            d2 - i + exp_len(s, d2)
        } else {
            let e = exp_len(s, d1);
            if e > 0 {
                d1 - i + e
            } else {
                0
            }
        }
    } else if i < s.len() && s[i] == '.' {
        let d2 = run_end(s, i + 1, CharClass::Digit);
        if d2 > i + 1 {
            d2 - i + exp_len(s, d2)
        } else {
            0
        }
    } else {
        0
    }
}

/// Length of an integer literal at `i`: an optional sign and one or
/// more digits; `0` if no digit follows the position (or the sign).
pub open spec fn int_len(s: Seq<char>, i: int) -> int {
    let j = if i < s.len() && is_sign(s[i]) {
        i + 1
    } else {
        i
    };
    let e = run_end(s, j, CharClass::Digit);
    if e > j {
        e - i
    } else {
        0
    }
}

/// Length of a whitespace run at `i`.
pub open spec fn space_len(s: Seq<char>, i: int) -> int {
    run_end(s, i, CharClass::Space) - i
}

/// Length of a double-quoted string literal at `i`, both quotes
/// included; `0` when `i` holds no quote or no closing quote follows.
pub open spec fn string_len(s: Seq<char>, i: int) -> int {
    if i < s.len() && s[i] == '"' {
        let j = close_quote(s, i + 1);
        if j < s.len() {
            j + 1 - i
        } else {
            0
        }
    } else {
        0
    }
}

/// Length of an identifier at `i`: a letter followed by letters and
/// digits. A purely numeric run never matches; the number rules take
/// that case.
pub open spec fn ident_len(s: Seq<char>, i: int) -> int {
    if i < s.len() && is_letter(s[i]) {
        run_end(s, i, CharClass::Wordy) - i
    } else {
        0
    }
}

/// `t` is exactly one float literal.
pub open spec fn is_float_text(t: Seq<char>) -> bool {
    t.len() > 0 && float_len(t, 0) == t.len()
}

/// `t` is exactly one identifier: a letter followed by letters and
/// digits.
pub open spec fn is_ident_text(t: Seq<char>) -> bool {
    t.len() > 0 && is_letter(t[0]) && forall|k: int|
        0 <= k < t.len() ==> is_letter(#[trigger] t[k]) || is_digit(t[k])
}

/// An integer literal cut from its context is an integer literal on
/// its own.
pub proof fn lemma_int_text_window(s: Seq<char>, i: int)
    requires
        0 <= i <= s.len(),
        int_len(s, i) > 0,
    ensures
        i + int_len(s, i) <= s.len(),
        is_int_text(s.subrange(i, i + int_len(s, i))),
{
    let j = if i < s.len() && is_sign(s[i]) {
        i + 1
    } else {
        i
    };
    let e = run_end(s, j, CharClass::Digit);
    lemma_run_end(s, j, CharClass::Digit);
    let t = s.subrange(i, e);
    if j == i + 1 {
        assert(t.skip(1) =~= s.subrange(i + 1, e));
        assert(forall|k: int| 0 <= k < t.skip(1).len() ==> is_digit(#[trigger] t.skip(1)[k]));
    } else {
        assert(forall|k: int| 0 <= k < t.len() ==> is_digit(#[trigger] t[k]));
    }
}

// ---------------------------------------------------------------------
// Executable mirrors of the patterns.
// ---------------------------------------------------------------------

/// Membership of a character in a class.
pub fn in_class_x(cls: CharClass, c: char) -> (r: bool)
    ensures
        r == in_class(cls, c),
{
    match cls {
        CharClass::Digit => {
            let u = c as u32;
            48 <= u && u <= 57
        },
        CharClass::Space => c == ' ' || c == '\t' || c == '\n' || c == '\u{000B}' || c
            == '\u{000C}' || c == '\r',
        CharClass::Wordy => {
            let u = c as u32;
            (97 <= u && u <= 122) || (65 <= u && u <= 90) || (48 <= u && u <= 57)
        },
    }
}

/// Walks to the end of the run of class characters starting at `i`.
pub fn run_end_x(text: &str, i: usize, cls: CharClass) -> (r: usize)
    requires
        i <= text@.len(),
    ensures
        r as int == run_end(text@, i as int, cls),
        i <= r <= text@.len(),
{
    let n = text.unicode_len();
    let mut j: usize = i;
    while j < n
        invariant
            i <= j <= n,
            n == text@.len(),
            run_end(text@, i as int, cls) == run_end(text@, j as int, cls),
        decreases n - j,
    {
        let c = text.get_char(j);
        if !in_class_x(cls, c) {
            return j;
        }
        j += 1;
    }
    j
}

/// Finds the position of the next double quote at or after `i`.
pub fn close_quote_x(text: &str, i: usize) -> (r: usize)
    requires
        i <= text@.len(),
    ensures
        r as int == close_quote(text@, i as int),
        i <= r <= text@.len(),
{
    let n = text.unicode_len();
    let mut j: usize = i;
    while j < n
        invariant
            i <= j <= n,
            n == text@.len(),
            close_quote(text@, i as int) == close_quote(text@, j as int),
        decreases n - j,
    {
        let c = text.get_char(j);
        if c == '"' {
            return j;
        }
        j += 1;
    }
    j
}

/// Measures an exponent part at `i`.
pub fn exp_len_x(text: &str, i: usize) -> (r: usize)
    requires
        i <= text@.len(),
    ensures
        r as int == exp_len(text@, i as int),
        i + r <= text@.len(),
{
    let n = text.unicode_len();
    if i < n {
        let c = text.get_char(i);
        if c == 'e' || c == 'E' {
            let j: usize = if i + 1 < n {
                let c1 = text.get_char(i + 1);
                if c1 == '+' || c1 == '-' {
                    i + 2
                } else {
                    i + 1
                }
            } else {
                i + 1
            };
            let e = run_end_x(text, j, CharClass::Digit);
            if e > j {
                e - i
            } else {
                0
            }
        } else {
            0
        }
    } else {
        0
    }
}

/// Measures a float literal at `i`.
pub fn float_len_x(text: &str, i: usize) -> (r: usize)
    requires
        i <= text@.len(),
    ensures
        r as int == float_len(text@, i as int),
        i + r <= text@.len(),
{
    let n = text.unicode_len();
    let d1 = run_end_x(text, i, CharClass::Digit);
    if d1 > i {
        if d1 < n && text.get_char(d1) == '.' {
            let d2 = run_end_x(text, d1 + 1, CharClass::Digit);
            let e = exp_len_x(text, d2);
            d2 - i + e
        } else {
            let e = exp_len_x(text, d1);
            if e > 0 {
                d1 - i + e
            } else {
                0
            }
        }
    } else if i < n && text.get_char(i) == '.' {
        let d2 = run_end_x(text, i + 1, CharClass::Digit);
        if d2 > i + 1 {
            let e = exp_len_x(text, d2);
            d2 - i + e
        } else {
            0
        }
    } else {
        0
    }
}

/// Measures an integer literal at `i`.
pub fn int_len_x(text: &str, i: usize) -> (r: usize)
    requires
        i <= text@.len(),
    ensures
        r as int == int_len(text@, i as int),
        i + r <= text@.len(),
{
    let n = text.unicode_len();
    let j: usize = if i < n {
        let c = text.get_char(i);
        if c == '+' || c == '-' {
            i + 1
        } else {
            i
        }
    } else {
        i
    };
    let e = run_end_x(text, j, CharClass::Digit);
    if e > j {
        e - i
    } else {
        0
    }
}

/// Measures a double-quoted string literal at `i`.
pub fn string_len_x(text: &str, i: usize) -> (r: usize)
    requires
        i <= text@.len(),
    ensures
        r as int == string_len(text@, i as int),
        i + r <= text@.len(),
{
    let n = text.unicode_len();
    if i < n && text.get_char(i) == '"' {
        let j = close_quote_x(text, i + 1);
        if j < n {
            j + 1 - i
        } else {
            0
        }
    } else {
        0
    }
}

/// Measures an identifier at `i`.
pub fn ident_len_x(text: &str, i: usize) -> (r: usize)
    requires
        i <= text@.len(),
    ensures
        r as int == ident_len(text@, i as int),
        i + r <= text@.len(),
{
    let n = text.unicode_len();
    if i < n {
        let c = text.get_char(i);
        let u = c as u32;
        if (97 <= u && u <= 122) || (65 <= u && u <= 90) {
            let e = run_end_x(text, i, CharClass::Wordy);
            e - i
        } else {
            0
        }
    } else {
        0
    }
}

} // verus!
