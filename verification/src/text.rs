//! Text as sequences of characters: scanning for a delimiter, splitting
//! into lines, and writing lines out again.

use vstd::prelude::*;

verus! {

/// How many characters of `s` stand before the first one that is `a` or `b`;
/// all of them where neither occurs.
pub open spec fn until(s: Seq<char>, a: char, b: char) -> nat
    decreases s.len(),
{
    if s.len() == 0 || s[0] == a || s[0] == b {
        0
    } else {
        1 + until(s.skip(1), a, b)
    }
}

/// `until` stops at the first `a` or `b` and passes over neither.
pub proof fn lemma_until(s: Seq<char>, a: char, b: char)
    ensures
        until(s, a, b) <= s.len(),
        forall|i: int| 0 <= i < until(s, a, b) ==> s[i] != a && s[i] != b,
        until(s, a, b) < s.len() ==> s[until(s, a, b) as int] == a || s[until(s, a, b) as int]
            == b,
    decreases s.len(),
{
    if s.len() > 0 && s[0] != a && s[0] != b {
        let rest = s.skip(1);
        lemma_until(rest, a, b);
        assert forall|i: int| 0 <= i < until(s, a, b) implies s[i] != a && s[i] != b by {
            if i > 0 {
                assert(s[i] == rest[i - 1]);
            }
        }
    }
}

/// The only place that is the first `a` or `b` of `s` is `until(s, a, b)`.
pub proof fn lemma_until_is(s: Seq<char>, a: char, b: char, n: int)
    requires
        0 <= n <= s.len(),
        forall|i: int| 0 <= i < n ==> s[i] != a && s[i] != b,
        n < s.len() ==> s[n] == a || s[n] == b,
    ensures
        until(s, a, b) == n,
    decreases s.len(),
{
    if n > 0 {
        lemma_until_is(s.skip(1), a, b, n - 1);
    }
}

/// The place of the first `a` or `b` of `s` at or after `from` and before
/// `to`; `to` where there is none.
pub(crate) fn find(s: &Vec<char>, from: usize, to: usize, a: char, b: char) -> (at: usize)
    requires
        from <= to <= s.len(),
    ensures
        at == from + until(s@.subrange(from as int, to as int), a, b),
        from <= at <= to,
{
    let ghost part = s@.subrange(from as int, to as int);
    let mut at: usize = from;
    while at < to && s[at] != a && s[at] != b
        invariant
            from <= at <= to <= s.len(),
            part == s@.subrange(from as int, to as int),
            forall|i: int| 0 <= i < at - from ==> part[i] != a && part[i] != b,
        decreases to - at,
    {
        at = at + 1;
    }
    proof {
        lemma_until_is(part, a, b, at - from);
    }
    at
}

/// `s` without a carriage return at its end.
pub open spec fn strip_cr(s: Seq<char>) -> Seq<char> {
    if s.len() > 0 && s.last() == '\r' {
        s.drop_last()
    } else {
        s
    }
}

/// The lines of `s`. A line ends at a line feed, or at a carriage return
/// that a line feed follows; neither belongs to the line. What stands after
/// the last line feed is a line too, unless it is empty.
pub open spec fn lines_of(s: Seq<char>) -> Seq<Seq<char>>
    decreases s.len(),
{
    let n = until(s, '\n', '\n') as int;
    if s.len() == 0 {
        Seq::empty()
    } else if n < s.len() {
        seq![strip_cr(s.take(n))] + lines_of(s.skip(n + 1))
    } else {
        seq![s]
    }
}

/// What each of `lines` holds.
pub open spec fn texts(lines: Seq<Vec<char>>) -> Seq<Seq<char>> {
    Seq::new(lines.len(), |i: int| lines[i]@)
}

/// The characters of `s`.
pub fn to_chars(s: &str) -> (v: Vec<char>)
    ensures
        v@ == s@,
{
    let mut v: Vec<char> = Vec::new();
    for c in it: s.chars()
        invariant
            it.seq() == s@,
            v@ == it.seq().take(it.index()),
    {
        v.push(c);
    }
    v
}

/// The characters of `s` from `from` up to `to`.
pub(crate) fn copy_range(s: &Vec<char>, from: usize, to: usize) -> (v: Vec<char>)
    requires
        from <= to <= s.len(),
    ensures
        v@ == s@.subrange(from as int, to as int),
{
    let mut v: Vec<char> = Vec::new();
    let mut i: usize = from;
    while i < to
        invariant
            from <= i <= to <= s.len(),
            v@ == s@.subrange(from as int, i as int),
        decreases to - i,
    {
        v.push(s[i]);
        i = i + 1;
    }
    v
}

/// Splits `s` into its lines.
pub fn split_lines(s: &Vec<char>) -> (lines: Vec<Vec<char>>)
    ensures
        texts(lines@) == lines_of(s@),
{
    let mut lines: Vec<Vec<char>> = Vec::new();
    let mut at: usize = 0;
    assert(s@.skip(0) =~= s@);
    while at < s.len()
        invariant
            at <= s.len(),
            lines_of(s@) == texts(lines@) + lines_of(s@.skip(at as int)),
        decreases s.len() - at,
    {
        let ghost rest = s@.skip(at as int);
        let end = find(s, at, s.len(), '\n', '\n');
        if end < s.len() {
            let stop: usize = if end > at && s[end - 1] == '\r' {
                end - 1
            } else {
                end
            };
            let line = copy_range(s, at, stop);
            assert(line@ =~= strip_cr(rest.take(end - at)));
            assert(rest.skip(end - at + 1) =~= s@.skip(end + 1));
            lines.push(line);
            at = end + 1;
        } else {
            let line = copy_range(s, at, end);
            lines.push(line);
            at = end;
        }
    }
    lines
}

/// The text that `lines` make up: each line, in turn, with a line feed
/// after it.
pub open spec fn join_lines(lines: Seq<Seq<char>>) -> Seq<char>
    decreases lines.len(),
{
    if lines.len() == 0 {
        Seq::empty()
    } else {
        join_lines(lines.drop_last()) + lines.last().push('\n')
    }
}

/// One line makes up a text of that line and a line feed.
pub proof fn lemma_join_lines_one(line: Seq<char>)
    ensures
        join_lines(seq![line]) == line.push('\n'),
{
    assert(seq![line].drop_last() =~= Seq::<Seq<char>>::empty());
    assert(join_lines(Seq::<Seq<char>>::empty()) =~= Seq::<char>::empty());
}

/// Joining two runs of lines gives the text of the first, then the text of
/// the second.
pub proof fn lemma_join_lines_concat(a: Seq<Seq<char>>, b: Seq<Seq<char>>)
    ensures
        join_lines(a + b) == join_lines(a) + join_lines(b),
    decreases b.len(),
{
    if b.len() > 0 {
        lemma_join_lines_concat(a, b.drop_last());
        assert((a + b).drop_last() =~= a + b.drop_last());
    }
}

/// Whether `line` holds no line feed.
pub open spec fn no_line_feed(line: Seq<char>) -> bool {
    forall|j: int| 0 <= j < line.len() ==> line[j] != '\n'
}

/// `lines`, each without a carriage return at its end.
pub open spec fn strip_each(lines: Seq<Seq<char>>) -> Seq<Seq<char>> {
    Seq::new(lines.len(), |i: int| strip_cr(lines[i]))
}

/// No line of a text holds a line feed.
pub proof fn lemma_lines_hold_no_line_feed(s: Seq<char>)
    ensures
        forall|i: int| 0 <= i < lines_of(s).len() ==> no_line_feed(#[trigger] lines_of(s)[i]),
    decreases s.len(),
{
    let n = until(s, '\n', '\n') as int;
    lemma_until(s, '\n', '\n');
    if n < s.len() {
        let rest = s.skip(n + 1);
        lemma_lines_hold_no_line_feed(rest);
        assert forall|i: int| 0 <= i < lines_of(s).len() implies no_line_feed(
            #[trigger] lines_of(s)[i],
        ) by {
            if i > 0 {
                assert(lines_of(s)[i] == lines_of(rest)[i - 1]);
            }
        }
    }
}

/// A text begins with its first line and a line feed, and goes on with the
/// text of the other lines.
pub proof fn lemma_join_lines_first(lines: Seq<Seq<char>>)
    requires
        lines.len() > 0,
    ensures
        join_lines(lines) == lines[0].push('\n') + join_lines(lines.skip(1)),
{
    lemma_join_lines_one(lines[0]);
    lemma_join_lines_concat(seq![lines[0]], lines.skip(1));
    assert(seq![lines[0]] + lines.skip(1) =~= lines);
}

/// Where a line without a line feed, then a line feed, then more text
/// stand in a row, the line is the first one of the whole, without a
/// carriage return at its end, and the other lines are those of the rest.
pub proof fn lemma_lines_of_first(line: Seq<char>, rest: Seq<char>)
    requires
        no_line_feed(line),
    ensures
        lines_of(line.push('\n') + rest) == seq![strip_cr(line)] + lines_of(rest),
{
    let text = line.push('\n') + rest;
    let n = line.len() as int;
    lemma_until_is(text, '\n', '\n', n);
    assert(text.take(n) =~= line);
    assert(text.skip(n + 1) =~= rest);
}

/// Splitting the text that lines make up gives the lines back, each
/// without a carriage return at its end, as long as none holds a line feed.
pub proof fn lemma_lines_of_join(lines: Seq<Seq<char>>)
    requires
        forall|i: int| 0 <= i < lines.len() ==> no_line_feed(#[trigger] lines[i]),
    ensures
        lines_of(join_lines(lines)) == strip_each(lines),
    decreases lines.len(),
{
    if lines.len() > 0 {
        let rest = lines.skip(1);
        lemma_join_lines_first(lines);
        lemma_lines_of_first(lines[0], join_lines(rest));
        lemma_lines_of_join(rest);
    }
}

/// The text that lines make up ends with a line feed. Before that stands
/// the end of the last line or, where that line is empty, the line feed of
/// the line before.
pub proof fn lemma_join_lines_end(lines: Seq<Seq<char>>)
    requires
        lines.len() > 0,
    ensures
        join_lines(lines).len() > lines.last().len(),
        join_lines(lines).len() >= lines.len(),
        join_lines(lines).last() == '\n',
        lines.last().len() > 0 ==> join_lines(lines)[join_lines(lines).len() - 2]
            == lines.last().last(),
        lines.last().len() == 0 && lines.len() > 1 ==> join_lines(lines)[join_lines(lines).len()
            - 2] == '\n',
    decreases lines.len(),
{
    if lines.len() > 1 {
        lemma_join_lines_end(lines.drop_last());
    }
}

/// A line feed at the end of a text adds no line to it, unless the text
/// ends with a carriage return or with a line feed of its own.
pub proof fn lemma_lines_of_push_line_feed(s: Seq<char>)
    requires
        s.len() > 0,
        s.last() != '\n',
        s.last() != '\r',
    ensures
        lines_of(s.push('\n')) == lines_of(s),
    decreases s.len(),
{
    let t = s.push('\n');
    let n = until(s, '\n', '\n') as int;
    lemma_until(s, '\n', '\n');
    lemma_until_is(t, '\n', '\n', n);
    if n < s.len() {
        let rest = s.skip(n + 1);
        lemma_lines_of_push_line_feed(rest);
        assert(t.skip(n + 1) =~= rest.push('\n'));
        assert(t.take(n) =~= s.take(n));
    } else {
        assert(t.take(n) =~= s);
        assert(lines_of(t.skip(n + 1)) =~= Seq::<Seq<char>>::empty());
    }
}

/// Appends `c` to `out`. The call of `String::push` is taken on trust: the
/// string then holds what it held before, followed by `c`.
#[verifier::external_body]
pub(crate) fn push_char(out: &mut String, c: char)
    ensures
        final(out)@ == old(out)@.push(c),
{
    out.push(c);
}

/// Appends the characters of `s` from `from` up to `to` to `out`.
pub(crate) fn push_range(out: &mut String, s: &Vec<char>, from: usize, to: usize)
    requires
        from <= to <= s.len(),
    ensures
        final(out)@ == old(out)@ + s@.subrange(from as int, to as int),
{
    let mut i: usize = from;
    while i < to
        invariant
            from <= i <= to <= s.len(),
            out@ == old(out)@ + s@.subrange(from as int, i as int),
        decreases to - i,
    {
        push_char(out, s[i]);
        i = i + 1;
    }
}

} // verus!
