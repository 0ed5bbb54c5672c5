//! The lines of a hunk's body, told apart by their first character.

use crate::text::{strip_cr, strip_each, texts};
use vstd::prelude::*;

verus! {

/// What a line of a hunk's body says of the file.
#[derive(Clone, Copy, Debug, PartialEq, Eq, Structural)]
pub enum LineKind {
    /// The line stands in the old file only.
    Removed,
    /// The line stands in the new file only.
    Added,
    /// The line stands in both files.
    Context,
}

/// The kind of `line`: removed where it begins with a minus sign, added
/// where it begins with a plus sign, context otherwise.
pub open spec fn line_kind(line: Seq<char>) -> LineKind {
    if line.len() > 0 && line[0] == '-' {
        LineKind::Removed
    } else if line.len() > 0 && line[0] == '+' {
        LineKind::Added
    } else {
        LineKind::Context
    }
}

/// How many of `lines` are of the given kind.
pub open spec fn count_kind(lines: Seq<Seq<char>>, kind: LineKind) -> nat
    decreases lines.len(),
{
    if lines.len() == 0 {
        0
    } else {
        count_kind(lines.drop_last(), kind) + if line_kind(lines.last()) == kind {
            1nat
        } else {
            0nat
        }
    }
}

/// No more lines are of one kind than there are lines.
pub proof fn lemma_count_kind_bound(lines: Seq<Seq<char>>, kind: LineKind)
    ensures
        count_kind(lines, kind) <= lines.len(),
    decreases lines.len(),
{
    if lines.len() > 0 {
        lemma_count_kind_bound(lines.drop_last(), kind);
    }
}

/// Two runs of lines hold as many lines of one kind as the first and the
/// second hold together.
pub proof fn lemma_count_kind_concat(a: Seq<Seq<char>>, b: Seq<Seq<char>>, kind: LineKind)
    ensures
        count_kind(a + b, kind) == count_kind(a, kind) + count_kind(b, kind),
    decreases b.len(),
{
    if b.len() > 0 {
        lemma_count_kind_concat(a, b.drop_last(), kind);
        assert((a + b).drop_last() =~= a + b.drop_last());
    }
}

/// A carriage return at the end of a line does not tell on its kind.
pub proof fn lemma_strip_cr_keeps_kind(line: Seq<char>)
    ensures
        line_kind(strip_cr(line)) == line_kind(line),
{
}

/// Lines without the carriage returns at their ends hold as many lines of
/// each kind as before.
pub proof fn lemma_strip_each_keeps_count(lines: Seq<Seq<char>>, kind: LineKind)
    ensures
        count_kind(strip_each(lines), kind) == count_kind(lines, kind),
    decreases lines.len(),
{
    if lines.len() > 0 {
        lemma_strip_each_keeps_count(lines.drop_last(), kind);
        lemma_strip_cr_keeps_kind(lines.last());
        assert(strip_each(lines).drop_last() =~= strip_each(lines.drop_last()));
    }
}

/// Lines that all begin with a blank are lines of context.
pub proof fn lemma_count_kind_of_context(lines: Seq<Seq<char>>)
    requires
        forall|i: int|
            0 <= i < lines.len() ==> (#[trigger] lines[i]).len() > 0 && lines[i][0] == ' ',
    ensures
        count_kind(lines, LineKind::Removed) == 0,
        count_kind(lines, LineKind::Added) == 0,
        count_kind(lines, LineKind::Context) == lines.len(),
    decreases lines.len(),
{
    if lines.len() > 0 {
        lemma_count_kind_of_context(lines.drop_last());
    }
}

/// The kind of `line`.
pub fn classify(line: &Vec<char>) -> (kind: LineKind)
    ensures
        kind == line_kind(line@),
{
    if line.len() > 0 && line[0] == '-' {
        LineKind::Removed
    } else if line.len() > 0 && line[0] == '+' {
        LineKind::Added
    } else {
        LineKind::Context
    }
}

/// Counts the removed and the added lines among `lines` from `from` on.
pub(crate) fn count_changes(lines: &Vec<Vec<char>>, from: usize) -> (counts: (usize, usize))
    requires
        from <= lines.len(),
    ensures
        counts.0 == count_kind(texts(lines@).skip(from as int), LineKind::Removed),
        counts.1 == count_kind(texts(lines@).skip(from as int), LineKind::Added),
{
    let ghost all = texts(lines@).skip(from as int);
    let mut removed: usize = 0;
    let mut added: usize = 0;
    let mut i: usize = from;
    while i < lines.len()
        invariant
            from <= i <= lines.len(),
            all == texts(lines@).skip(from as int),
            removed == count_kind(all.take(i - from), LineKind::Removed),
            added == count_kind(all.take(i - from), LineKind::Added),
        decreases lines.len() - i,
    {
        proof {
            lemma_count_kind_bound(all.take(i - from), LineKind::Removed);
            lemma_count_kind_bound(all.take(i - from), LineKind::Added);
            assert(all.take(i - from + 1).drop_last() =~= all.take(i - from));
        }
        match classify(&lines[i]) {
            LineKind::Removed => {
                removed = removed + 1;
            },
            LineKind::Added => {
                added = added + 1;
            },
            LineKind::Context => {},
        }
        i = i + 1;
    }
    assert(all.take(lines.len() - from) =~= all);
    (removed, added)
}

} // verus!
