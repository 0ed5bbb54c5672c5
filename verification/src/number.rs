//! Decimal numerals: how a natural number is written, and how a signed
//! numeral of machine-word size is read.

use crate::text::push_char;
use vstd::prelude::*;

verus! {

/// Whether `c` is one of the ten ASCII digits.
pub open spec fn is_digit(c: char) -> bool {
    '0' <= c <= '9'
}

/// The number that the digit `c` stands for; zero for any other character.
pub open spec fn digit_value(c: char) -> nat {
    if is_digit(c) {
        (c as int - '0' as int) as nat
    } else {
        0
    }
}

/// The digit that stands for `d`, for `d` below ten.
pub open spec fn digit_char(d: nat) -> char
    recommends
        d < 10,
{
    ('0' as int + d) as char
}

/// The decimal numeral of `n`: most significant digit first, no leading
/// zeros, and `"0"` for zero.
pub open spec fn decimal(n: nat) -> Seq<char>
    decreases n,
{
    if n < 10 {
        seq![digit_char(n)]
    } else {
        decimal(n / 10).push(digit_char(n % 10))
    }
}

/// The number that a run of digits denotes, read most significant digit
/// first. Leading zeros do not count, and the empty run denotes zero.
pub open spec fn digits_value(s: Seq<char>) -> nat
    decreases s.len(),
{
    if s.len() == 0 {
        0
    } else {
        digits_value(s.drop_last()) * 10 + digit_value(s.last())
    }
}

/// Whether every character of `s` is a digit.
pub open spec fn all_digits(s: Seq<char>) -> bool {
    forall|i: int| 0 <= i < s.len() ==> is_digit(#[trigger] s[i])
}

/// Whether `s` opens with a plus or a minus sign.
pub open spec fn has_sign(s: Seq<char>) -> bool {
    s.len() > 0 && (s[0] == '-' || s[0] == '+')
}

/// The digits of a numeral: all of it but a leading sign.
pub open spec fn numeral_digits(s: Seq<char>) -> Seq<char> {
    if has_sign(s) {
        s.skip(1)
    } else {
        s
    }
}

/// The integer that the numeral `s` denotes: an optional sign, then one or
/// more digits. There is no value where `s` has another shape, or where the
/// integer does not fit a signed machine word.
pub open spec fn signed_value(s: Seq<char>) -> Option<int> {
    let digits = numeral_digits(s);
    let magnitude = digits_value(digits) as int;
    let value = if has_sign(s) && s[0] == '-' {
        -magnitude
    } else {
        magnitude
    };
    if digits.len() > 0 && all_digits(digits) && isize::MIN <= value <= isize::MAX {
        Some(value)
    } else {
        None
    }
}

/// The absolute value of the integer that the numeral `s` denotes.
pub open spec fn magnitude(s: Seq<char>) -> Option<nat> {
    match signed_value(s) {
        Some(v) => Some(
            if v < 0 {
                (-v) as nat
            } else {
                v as nat
            },
        ),
        None => None,
    }
}

/// A run of digits denotes at least what any of its prefixes denotes.
pub proof fn lemma_digits_value_prefix(s: Seq<char>, k: int)
    requires
        0 <= k <= s.len(),
    ensures
        digits_value(s.take(k)) <= digits_value(s),
    decreases s.len() - k,
{
    if k == s.len() {
        assert(s.take(k) =~= s);
    } else {
        lemma_digits_value_prefix(s.drop_last(), k);
        assert(s.drop_last().take(k) =~= s.take(k));
    }
}

/// A decimal numeral is a run of one or more digits.
pub proof fn lemma_decimal_digits(n: nat)
    ensures
        decimal(n).len() > 0,
        all_digits(decimal(n)),
    decreases n,
{
    if n >= 10 {
        lemma_decimal_digits(n / 10);
    }
}

/// A decimal numeral denotes the number that it was written for.
pub proof fn lemma_decimal_value(n: nat)
    ensures
        digits_value(decimal(n)) == n,
    decreases n,
{
    if n < 10 {
        assert(decimal(n).drop_last() =~= Seq::<char>::empty());
        assert(digits_value(Seq::<char>::empty()) == 0);
    } else {
        lemma_decimal_value(n / 10);
        assert(decimal(n).drop_last() =~= decimal(n / 10));
    }
}

/// The digit for `d`.
pub(crate) fn digit(d: u8) -> (c: char)
    requires
        d < 10,
    ensures
        c == digit_char(d as nat),
{
    ('0' as u8 + d) as char
}

/// Appends the decimal numeral of `n` to `out`.
pub fn push_decimal(out: &mut String, n: u128)
    ensures
        final(out)@ == old(out)@ + decimal(n as nat),
    decreases n,
{
    if n >= 10 {
        push_decimal(out, n / 10);
    }
    push_char(out, digit((n % 10) as u8));
}

/// Reads the numeral that stands in `s` from `from` up to `to`, and returns
/// the absolute value of the integer it denotes.
pub(crate) fn parse_magnitude(s: &Vec<char>, from: usize, to: usize) -> (r: Option<usize>)
    requires
        from <= to <= s.len(),
    ensures
        match r {
            Some(m) => magnitude(s@.subrange(from as int, to as int)) == Some(m as nat),
            None => magnitude(s@.subrange(from as int, to as int)) is None,
        },
{
    let ghost text = s@.subrange(from as int, to as int);
    if from == to {
        return None;
    }
    let negative = s[from] == '-';
    let signed = negative || s[from] == '+';
    let first: usize = if signed {
        from + 1
    } else {
        from
    };
    if first == to {
        return None;
    }
    let limit: usize = if negative {
        isize::MAX as usize + 1
    } else {
        isize::MAX as usize
    };
    let ghost digits = s@.subrange(first as int, to as int);
    let mut acc: usize = 0;
    let mut i: usize = first;
    while i < to
        invariant
            first <= i <= to <= s.len(),
            text == s@.subrange(from as int, to as int),
            digits == s@.subrange(first as int, to as int),
            digits == numeral_digits(text),
            negative == (has_sign(text) && text[0] == '-'),
            limit == isize::MAX + if negative { 1int } else { 0int },
            acc == digits_value(digits.take(i - first)),
            all_digits(digits.take(i - first)),
            acc <= limit,
        decreases to - i,
    {
        let c = s[i];
        assert(digits[i - first] == c);
        if !('0' <= c && c <= '9') {
            return None;
        }
        let d: usize = (c as u8 - '0' as u8) as usize;
        assert(digits.take(i - first + 1).drop_last() =~= digits.take(i - first));
        if acc > (limit - d) / 10 {
            proof {
                lemma_digits_value_prefix(digits, i - first + 1);
            }
            return None;
        }
        acc = acc * 10 + d;
        i = i + 1;
    }
    assert(digits.take(to - first) =~= digits);
    Some(acc)
}

} // verus!
