//! The syntax of a number in a path: what text counts as one.
//!
//! A number is an optional sign followed by `inf`, `infinity` or `nan` in
//! any mix of upper and lower case, or by decimal digits with at most one
//! point among them and an optional exponent. The library decides only
//! whether a text is a number; what value it has is left to its reader.

use vstd::prelude::*;
use crate::text::{is_digit, is_decimal_digit};

verus! {

/// Whether `c` is a plus or a minus sign.
pub open spec fn is_sign(c: char) -> bool {
    c == '+' || c == '-'
}

/// Index after the run of digits that starts at `from`.
pub open spec fn digit_run(s: Seq<char>, from: int) -> int
    decreases s.len() - from,
{
    if 0 <= from < s.len() && is_digit(s[from]) {
        digit_run(s, from + 1)
    } else {
        from
    }
}

/// Whether `c` is the given letter in either case.
pub open spec fn is_letter(c: char, lower: char, upper: char) -> bool {
    c == lower || c == upper
}

/// Whether the text from `from` to its end spells `inf`, `infinity` or
/// `nan`, in any mix of cases.
pub open spec fn is_special_from(s: Seq<char>, from: int) -> bool {
    let n = s.len() - from;
    ||| (n == 3 && is_letter(s[from], 'i', 'I') && is_letter(s[from + 1], 'n', 'N') && is_letter(
        s[from + 2],
        'f',
        'F',
    ))
    ||| (n == 3 && is_letter(s[from], 'n', 'N') && is_letter(s[from + 1], 'a', 'A') && is_letter(
        s[from + 2],
        'n',
        'N',
    ))
    ||| (n == 8 && is_letter(s[from], 'i', 'I') && is_letter(s[from + 1], 'n', 'N') && is_letter(
        s[from + 2],
        'f',
        'F',
    ) && is_letter(s[from + 3], 'i', 'I') && is_letter(s[from + 4], 'n', 'N') && is_letter(
        s[from + 5],
        'i',
        'I',
    ) && is_letter(s[from + 6], 't', 'T') && is_letter(s[from + 7], 'y', 'Y'))
}

/// Whether the text from `from` to its end is an exponent: `e` or `E`,
/// an optional sign, and one or more digits.
pub open spec fn is_exponent_from(s: Seq<char>, from: int) -> bool {
    &&& 0 <= from < s.len()
    &&& is_letter(s[from], 'e', 'E')
    &&& {
        let digits = if from + 1 < s.len() && is_sign(s[from + 1]) {
            from + 2
        } else {
            from + 1
        };
        digits < digit_run(s, digits) && digit_run(s, digits) == s.len()
    }
}

/// Index after the digits, the point and the digits behind it that start
/// at `from`.
pub open spec fn mantissa_end(s: Seq<char>, from: int) -> int {
    let whole = digit_run(s, from);
    if 0 <= whole < s.len() && s[whole] == '.' {
        digit_run(s, whole + 1)
    } else {
        whole
    }
}

/// How many digits the mantissa that starts at `from` holds.
pub open spec fn mantissa_digits(s: Seq<char>, from: int) -> int {
    let whole = digit_run(s, from);
    if 0 <= whole < s.len() && s[whole] == '.' {
        (whole - from) + (digit_run(s, whole + 1) - (whole + 1))
    } else {
        whole - from
    }
}

/// Whether the text from `from` to its end is a decimal number: digits
/// with at most one point, at least one digit in all, and then either
/// nothing or an exponent.
pub open spec fn is_decimal_from(s: Seq<char>, from: int) -> bool {
    &&& mantissa_digits(s, from) > 0
    &&& (mantissa_end(s, from) == s.len() || is_exponent_from(s, mantissa_end(s, from)))
}

/// Where the number behind an optional sign begins.
pub open spec fn after_sign(s: Seq<char>) -> int {
    if s.len() > 0 && is_sign(s[0]) {
        1
    } else {
        0
    }
}

/// Whether `s` is a number.
pub open spec fn is_float_literal(s: Seq<char>) -> bool {
    is_special_from(s, after_sign(s)) || is_decimal_from(s, after_sign(s))
}

/// Steps over the digits that start at `from`.
fn scan_digits(s: &[char], from: usize) -> (to: usize)
    requires
        from <= s@.len(),
    ensures
        to == digit_run(s@, from as int),
        from <= to <= s@.len(),
{
    let mut i: usize = from;
    while i < s.len() && is_decimal_digit(s[i])
        invariant
            from <= i <= s@.len(),
            digit_run(s@, i as int) == digit_run(s@, from as int),
        decreases s@.len() - i,
    {
        i += 1;
    }
    i
}

/// Tells whether `c` is the given letter in either case.
fn letter(c: char, lower: char, upper: char) -> (r: bool)
    ensures
        r == is_letter(c, lower, upper),
{
    c == lower || c == upper
}

/// Tells whether the text from `from` on spells `inf`, `infinity` or `nan`.
fn special_from(s: &[char], from: usize) -> (r: bool)
    requires
        from <= s@.len(),
    ensures
        r == is_special_from(s@, from as int),
{
    let n: usize = s.len() - from;
    if n == 3 {
        (letter(s[from], 'i', 'I') && letter(s[from + 1], 'n', 'N') && letter(s[from + 2], 'f', 'F'))
            || (letter(s[from], 'n', 'N') && letter(s[from + 1], 'a', 'A') && letter(
            s[from + 2],
            'n',
            'N',
        ))
    } else if n == 8 {
        letter(s[from], 'i', 'I') && letter(s[from + 1], 'n', 'N') && letter(s[from + 2], 'f', 'F')
            && letter(s[from + 3], 'i', 'I') && letter(s[from + 4], 'n', 'N') && letter(
            s[from + 5],
            'i',
            'I',
        ) && letter(s[from + 6], 't', 'T') && letter(s[from + 7], 'y', 'Y')
    } else {
        false
    }
}

/// Tells whether the text from `from` on is a decimal number.
fn decimal_from(s: &[char], from: usize) -> (r: bool)
    requires
        from <= s@.len(),
    ensures
        r == is_decimal_from(s@, from as int),
{
    let whole: usize = scan_digits(s, from);
    let mut end: usize = whole;
    let mut digits: usize = whole - from;
    if whole < s.len() && s[whole] == '.' {
        end = scan_digits(s, whole + 1);
        digits = digits + (end - (whole + 1));
    }
    if digits == 0 {
        return false;
    }
    if end == s.len() {
        return true;
    }
    if !letter(s[end], 'e', 'E') {
        return false;
    }
    let first: usize = if end + 1 < s.len() && (s[end + 1] == '+' || s[end + 1] == '-') {
        end + 2
    } else {
        end + 1
    };
    let last: usize = scan_digits(s, first);
    first < last && last == s.len()
}

/// Tells whether `s` is a number.
pub fn is_number(s: &[char]) -> (r: bool)
    ensures
        r == is_float_literal(s@),
{
    let from: usize = if s.len() > 0 && (s[0] == '+' || s[0] == '-') {
        1
    } else {
        0
    };
    special_from(s, from) || decimal_from(s, from)
}

} // verus!
