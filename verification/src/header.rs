//! The header line of a hunk, `@@ -a,b +c,d @@`: its fields, and the two
//! start lines that are read from it.

use crate::number::{
    all_digits, decimal, digits_value, lemma_decimal_digits, lemma_decimal_value, magnitude,
    numeral_digits, parse_magnitude, push_decimal,
};
use crate::text::{find, lemma_until_is, no_line_feed, push_char, until};
use vstd::prelude::*;

verus! {

/// Whether `c` parts the fields of a header: a blank or an at sign.
pub open spec fn is_separator(c: char) -> bool {
    c == ' ' || c == '@'
}

/// How many separators `s` opens with.
pub open spec fn leading_separators(s: Seq<char>) -> nat
    decreases s.len(),
{
    if s.len() == 0 || !is_separator(s[0]) {
        0
    } else {
        1 + leading_separators(s.skip(1))
    }
}

/// Where the first field of `s` begins: behind the separators that open `s`.
pub open spec fn field_start(s: Seq<char>) -> nat {
    leading_separators(s)
}

/// Where the first field of `s` ends: at the next separator, or with `s`.
pub open spec fn field_end(s: Seq<char>) -> nat {
    field_start(s) + until(s.skip(field_start(s) as int), ' ', '@')
}

/// The first field of `s`: its first run of characters that holds no
/// separator. It is empty where `s` holds separators only.
pub open spec fn first_field(s: Seq<char>) -> Seq<char> {
    s.subrange(field_start(s) as int, field_end(s) as int)
}

/// What follows the first field of `s`.
pub open spec fn after_first_field(s: Seq<char>) -> Seq<char> {
    s.skip(field_end(s) as int)
}

/// The part of `field` that stands before its first comma.
pub open spec fn before_comma(field: Seq<char>) -> Seq<char> {
    field.take(until(field, ',', ',') as int)
}

/// The start line that a field gives: the absolute value of the numeral
/// before its first comma. A field `-8,3` gives 8, and so does `+8`.
pub open spec fn start_line(field: Seq<char>) -> Option<nat> {
    magnitude(before_comma(field))
}

/// The start line in the old file, as the first field of `header` gives it.
pub open spec fn old_start_line(header: Seq<char>) -> Option<nat> {
    start_line(first_field(header))
}

/// The start line in the new file, as the second field of `header` gives it.
pub open spec fn new_start_line(header: Seq<char>) -> Option<nat> {
    start_line(first_field(after_first_field(header)))
}

/// The line count that a field gives: the number that the digits after its
/// first comma denote. A field `-8,3` gives 3. There is none where the
/// field has no comma, or where something else than digits follows it.
pub open spec fn line_count(field: Seq<char>) -> Option<nat> {
    let digits = field.skip(until(field, ',', ',') as int + 1);
    if until(field, ',', ',') < field.len() && digits.len() > 0 && all_digits(digits) {
        Some(digits_value(digits))
    } else {
        None
    }
}

/// The line count in the old file, as the first field of `header` gives it.
pub open spec fn old_line_count_field(header: Seq<char>) -> Option<nat> {
    line_count(first_field(header))
}

/// The line count in the new file, as the second field of `header` gives it.
pub open spec fn new_line_count_field(header: Seq<char>) -> Option<nat> {
    line_count(first_field(after_first_field(header)))
}

/// A field of a header: a sign, a start line, a comma, a line count.
pub open spec fn field_text(sign: char, start: nat, lines: nat) -> Seq<char> {
    seq![sign] + decimal(start) + seq![','] + decimal(lines)
}

/// The header line for the given start lines and line counts.
pub open spec fn header_text(
    old_start: nat,
    old_lines: nat,
    new_start: nat,
    new_lines: nat,
) -> Seq<char> {
    seq!['@', '@', ' '] + field_text('-', old_start, old_lines) + seq![' '] + field_text(
        '+',
        new_start,
        new_lines,
    ) + seq![' ', '@', '@']
}

/// The only place behind the separators that open `s` is
/// `leading_separators(s)`.
pub proof fn lemma_leading_separators_is(s: Seq<char>, n: int)
    requires
        0 <= n <= s.len(),
        forall|i: int| 0 <= i < n ==> is_separator(#[trigger] s[i]),
        n < s.len() ==> !is_separator(s[n]),
    ensures
        leading_separators(s) == n,
    decreases s.len(),
{
    if n > 0 {
        lemma_leading_separators_is(s.skip(1), n - 1);
    }
}

/// A field that was written for a start line and a line count holds
/// neither a separator nor a line feed, and gives both numbers back: the
/// start line as long as it fits a signed machine word under its sign.
pub proof fn lemma_field_text(sign: char, start: nat, lines: nat)
    requires
        sign == '-' || sign == '+',
    ensures
        field_text(sign, start, lines).len() > 0,
        forall|i: int|
            0 <= i < field_text(sign, start, lines).len() ==> !is_separator(
                #[trigger] field_text(sign, start, lines)[i],
            ) && field_text(sign, start, lines)[i] != '\n',
        before_comma(field_text(sign, start, lines)) == seq![sign] + decimal(start),
        line_count(field_text(sign, start, lines)) == Some(lines),
        sign == '-' && start <= isize::MAX + 1 ==> start_line(field_text(sign, start, lines))
            == Some(start),
        sign == '+' && start <= isize::MAX ==> start_line(field_text(sign, start, lines)) == Some(
            start,
        ),
{
    let field = field_text(sign, start, lines);
    let a = decimal(start);
    let b = decimal(lines);
    lemma_decimal_digits(start);
    lemma_decimal_digits(lines);
    lemma_decimal_value(lines);
    assert forall|i: int| 0 <= i < field.len() implies !is_separator(#[trigger] field[i])
        && field[i] != '\n' && (i < 1 + a.len() ==> field[i] != ',') by {}
    let comma = 1 + a.len() as int;
    lemma_until_is(field, ',', ',', comma);
    assert(field.take(comma) =~= seq![sign] + a);
    assert(field.skip(comma + 1) =~= b);
    lemma_decimal_value(start);
    assert(numeral_digits(seq![sign] + a) =~= a);
}

/// Where separators, then a field, then more text stand in a row, the field
/// is the first one of the whole, and the rest is what follows it.
pub proof fn lemma_first_field(before: Seq<char>, field: Seq<char>, after: Seq<char>)
    requires
        forall|i: int| 0 <= i < before.len() ==> is_separator(#[trigger] before[i]),
        field.len() > 0,
        forall|i: int| 0 <= i < field.len() ==> !is_separator(#[trigger] field[i]),
        after.len() > 0 ==> is_separator(after[0]),
    ensures
        first_field(before + field + after) == field,
        after_first_field(before + field + after) == after,
{
    let s = before + field + after;
    lemma_leading_separators_is(s, before.len() as int);
    lemma_until_is(s.skip(before.len() as int), ' ', '@', field.len() as int);
}

/// A header line that was written for start lines and line counts holds no
/// line feed, ends with an at sign, and gives the line counts back, and the
/// start lines as long as they fit a signed machine word under their signs.
pub proof fn lemma_header_text(old_start: nat, old_lines: nat, new_start: nat, new_lines: nat)
    ensures
        no_line_feed(header_text(old_start, old_lines, new_start, new_lines)),
        header_text(old_start, old_lines, new_start, new_lines).len() > 0,
        header_text(old_start, old_lines, new_start, new_lines).last() == '@',
        first_field(header_text(old_start, old_lines, new_start, new_lines)) == field_text(
            '-',
            old_start,
            old_lines,
        ),
        first_field(after_first_field(header_text(old_start, old_lines, new_start, new_lines)))
            == field_text('+', new_start, new_lines),
        old_line_count_field(header_text(old_start, old_lines, new_start, new_lines)) == Some(
            old_lines,
        ),
        new_line_count_field(header_text(old_start, old_lines, new_start, new_lines)) == Some(
            new_lines,
        ),
        old_start <= isize::MAX + 1 ==> old_start_line(
            header_text(old_start, old_lines, new_start, new_lines),
        ) == Some(old_start),
        new_start <= isize::MAX ==> new_start_line(
            header_text(old_start, old_lines, new_start, new_lines),
        ) == Some(new_start),
{
    let text = header_text(old_start, old_lines, new_start, new_lines);
    let old = field_text('-', old_start, old_lines);
    let new = field_text('+', new_start, new_lines);
    let open = seq!['@', '@', ' '];
    let between = seq![' '];
    let close = seq![' ', '@', '@'];
    let rest = between + new + close;
    lemma_field_text('-', old_start, old_lines);
    lemma_field_text('+', new_start, new_lines);
    assert(text =~= open + old + rest);
    lemma_first_field(open, old, rest);
    lemma_first_field(between, new, close);
}

/// The place of the first character of `s` at or after `from` that is no
/// separator; the length of `s` where there is none.
pub(crate) fn skip_separators(s: &Vec<char>, from: usize) -> (at: usize)
    requires
        from <= s.len(),
    ensures
        at == from + leading_separators(s@.skip(from as int)),
        from <= at <= s.len(),
{
    let ghost rest = s@.skip(from as int);
    let mut at: usize = from;
    while at < s.len() && (s[at] == ' ' || s[at] == '@')
        invariant
            from <= at <= s.len(),
            rest == s@.skip(from as int),
            forall|i: int| 0 <= i < at - from ==> is_separator(#[trigger] rest[i]),
        decreases s.len() - at,
    {
        at = at + 1;
    }
    proof {
        lemma_leading_separators_is(rest, at - from);
    }
    at
}

/// Reads the start line from the first field of `s` at or after `from`.
/// Returns it with the place where that field ends.
pub(crate) fn read_start_line(s: &Vec<char>, from: usize) -> (r: (Option<usize>, usize))
    requires
        from <= s.len(),
    ensures
        from <= r.1 <= s.len(),
        r.1 == from + field_end(s@.skip(from as int)),
        match r.0 {
            Some(n) => start_line(first_field(s@.skip(from as int))) == Some(n as nat),
            None => start_line(first_field(s@.skip(from as int))) is None,
        },
{
    let ghost rest = s@.skip(from as int);
    let begin = skip_separators(s, from);
    assert(rest.skip(begin - from) =~= s@.subrange(begin as int, s.len() as int));
    let end = find(s, begin, s.len(), ' ', '@');
    assert(first_field(rest) =~= s@.subrange(begin as int, end as int));
    let comma = find(s, begin, end, ',', ',');
    assert(before_comma(first_field(rest)) =~= s@.subrange(begin as int, comma as int));
    (parse_magnitude(s, begin, comma), end)
}

/// Appends the field for the given sign, start line and line count to
/// `out`.
fn push_field(out: &mut String, sign: char, start: u128, lines: u128)
    ensures
        final(out)@ == old(out)@ + field_text(sign, start as nat, lines as nat),
{
    push_char(out, sign);
    push_decimal(out, start);
    push_char(out, ',');
    push_decimal(out, lines);
    assert(out@ =~= old(out)@ + field_text(sign, start as nat, lines as nat));
}

/// Appends the header line for the given start lines and line counts to
/// `out`.
pub fn push_header(
    out: &mut String,
    old_start: u128,
    old_lines: u128,
    new_start: u128,
    new_lines: u128,
)
    ensures
        final(out)@ == old(out)@ + header_text(
            old_start as nat,
            old_lines as nat,
            new_start as nat,
            new_lines as nat,
        ),
{
    push_char(out, '@');
    push_char(out, '@');
    push_char(out, ' ');
    push_field(out, '-', old_start, old_lines);
    push_char(out, ' ');
    push_field(out, '+', new_start, new_lines);
    push_char(out, ' ');
    push_char(out, '@');
    push_char(out, '@');
    assert(out@ =~= old(out)@ + header_text(
        old_start as nat,
        old_lines as nat,
        new_start as nat,
        new_lines as nat,
    ));
}

} // verus!
