//! A hunk of a unified diff, and its expansion by lines of context taken from
//! the file as it was before the change.

use crate::header::{header_text, new_start_line, old_start_line, push_header, read_start_line};
use crate::line::{count_changes, count_kind, LineKind};
use crate::text::{
    join_lines, lemma_join_lines_concat, lemma_join_lines_one, lines_of, push_char, push_range,
    split_lines, texts, to_chars,
};
use vstd::prelude::*;
use vstd::string::StringExecFns;

verus! {

/// The field of a hunk's header that could not be read.
#[derive(Clone, Copy, Debug, PartialEq, Eq, Structural)]
pub enum HeaderField {
    /// The start line in the old file.
    StartLineBefore,
    /// The start line in the new file.
    StartLineAfter,
}

/// A hunk's header gives no integer where a start line is due.
#[derive(Clone, Copy, Debug, PartialEq, Eq, Structural)]
pub struct HeaderParseError {
    pub field: HeaderField,
}

impl HeaderParseError {
    /// What `message` says.
    pub open spec fn message_text(self) -> Seq<char> {
        match self.field {
            HeaderField::StartLineBefore =>
                "failed to parse unidiff header value for start line before"@,
            HeaderField::StartLineAfter =>
                "failed to parse unidiff header value for start line after"@,
        }
    }

    /// Says in words which field could not be read.
    pub fn message(&self) -> (text: String)
        ensures
            text@ == self.message_text(),
    {
        match self.field {
            HeaderField::StartLineBefore =>
                "failed to parse unidiff header value for start line before".to_owned(),
            HeaderField::StartLineAfter =>
                "failed to parse unidiff header value for start line after".to_owned(),
        }
    }
}

/// One hunk of a unified diff.
#[derive(Clone, Debug, PartialEq, Eq)]
pub struct Hunk {
    /// The hunk as text: its header line, then its body, each line with a
    /// line feed after it.
    pub diff: String,
    /// The line of the old file at which the hunk begins, counted from one.
    pub old_start: u32,
    /// How many lines of the old file the hunk spans.
    pub old_lines: u32,
    /// The line of the new file at which the hunk begins, counted from one.
    pub new_start: u32,
    /// How many lines of the new file the hunk spans.
    pub new_lines: u32,
    /// Whether the hunk belongs to a binary file.
    pub binary: bool,
}

/// What a `Hunk` holds, with its text as a sequence of characters.
pub struct HunkView {
    pub diff: Seq<char>,
    pub old_start: u32,
    pub old_lines: u32,
    pub new_start: u32,
    pub new_lines: u32,
    pub binary: bool,
}

impl View for Hunk {
    type V = HunkView;

    open spec fn view(&self) -> HunkView {
        HunkView {
            diff: self.diff@,
            old_start: self.old_start,
            old_lines: self.old_lines,
            new_start: self.new_start,
            new_lines: self.new_lines,
            binary: self.binary,
        }
    }
}

/// What each line of a file holds.
pub open spec fn line_texts(file: Seq<&str>) -> Seq<Seq<char>> {
    Seq::new(file.len(), |i: int| file[i]@)
}

/// The place in a file of `len` lines that is nearest to `i`.
pub open spec fn clip(i: int, len: nat) -> nat {
    if i < 0 {
        0
    } else if i > len {
        len
    } else {
        i as nat
    }
}

/// The lines of `file` that stand just before line `start`, counted from
/// one: `width` of them, or as many as the file holds there.
pub open spec fn context_before(start: nat, width: nat, file: Seq<Seq<char>>) -> Seq<Seq<char>> {
    file.subrange(
        clip(start - 1 - width, file.len()) as int,
        clip(start - 1, file.len()) as int,
    )
}

/// The lines of `file` that stand just after the `removed` lines that begin
/// at line `start`, counted from one: `width` of them, or as many as the
/// file holds there.
pub open spec fn context_after(
    start: nat,
    removed: nat,
    width: nat,
    file: Seq<Seq<char>>,
) -> Seq<Seq<char>> {
    file.subrange(
        clip(start + removed - 1, file.len()) as int,
        clip(start + removed - 1 + width, file.len()) as int,
    )
}

/// `lines`, each with the blank before it that marks a line of context.
pub open spec fn marked(lines: Seq<Seq<char>>) -> Seq<Seq<char>> {
    Seq::new(lines.len(), |i: int| seq![' '] + lines[i])
}

/// The header line of a hunk's text: its first line, or nothing where the
/// text has no line.
pub open spec fn header_line(diff: Seq<char>) -> Seq<char> {
    if lines_of(diff).len() > 0 {
        lines_of(diff)[0]
    } else {
        Seq::empty()
    }
}

/// The body of a hunk's text: its lines after the first.
pub open spec fn body_lines(diff: Seq<char>) -> Seq<Seq<char>> {
    if lines_of(diff).len() > 0 {
        lines_of(diff).skip(1)
    } else {
        Seq::empty()
    }
}

/// How many lines the body of a hunk's text removes.
pub open spec fn removed_count(diff: Seq<char>) -> nat {
    count_kind(body_lines(diff), LineKind::Removed)
}

/// How many lines the body of a hunk's text adds.
pub open spec fn added_count(diff: Seq<char>) -> nat {
    count_kind(body_lines(diff), LineKind::Added)
}

/// How many lines of context the expansion puts before the body.
pub open spec fn before_len(start: nat, width: nat, file: Seq<Seq<char>>) -> nat {
    context_before(start, width, file).len()
}

/// How many lines of context the expansion puts after the body.
pub open spec fn after_len(diff: Seq<char>, start: nat, width: nat, file: Seq<Seq<char>>) -> nat {
    context_after(start, removed_count(diff), width, file).len()
}

/// The body of the expanded hunk: context, the body as it was, context.
pub open spec fn expanded_body(
    diff: Seq<char>,
    start: nat,
    width: nat,
    file: Seq<Seq<char>>,
) -> Seq<Seq<char>> {
    marked(context_before(start, width, file)) + body_lines(diff) + marked(
        context_after(start, removed_count(diff), width, file),
    )
}

/// `a - b`, or zero where `b` is the larger.
pub open spec fn minus(a: nat, b: nat) -> nat {
    if a >= b {
        (a - b) as nat
    } else {
        0
    }
}

/// The low 32 bits of `n`.
pub open spec fn low32(n: nat) -> u32 {
    (n % 0x1_0000_0000) as u32
}

/// How many lines of the old file the expanded hunk spans.
pub open spec fn old_line_count(
    diff: Seq<char>,
    start: nat,
    width: nat,
    file: Seq<Seq<char>>,
) -> nat {
    removed_count(diff) + before_len(start, width, file) + after_len(diff, start, width, file)
}

/// How many lines of the new file the expanded hunk spans.
pub open spec fn new_line_count(
    diff: Seq<char>,
    start: nat,
    width: nat,
    file: Seq<Seq<char>>,
) -> nat {
    added_count(diff) + before_len(start, width, file) + after_len(diff, start, width, file)
}

/// The lines of the expanded hunk, given the start lines that the header of
/// `diff` holds: the new header, then the expanded body.
pub open spec fn expanded_lines(
    diff: Seq<char>,
    old: nat,
    new: nat,
    start: nat,
    width: nat,
    file: Seq<Seq<char>>,
) -> Seq<Seq<char>> {
    seq![
        header_text(
            minus(old, before_len(start, width, file)),
            old_line_count(diff, start, width, file),
            minus(new, before_len(start, width, file)),
            new_line_count(diff, start, width, file),
        ),
    ] + expanded_body(diff, start, width, file)
}

/// The hunk that `diff` expands to, with up to `width` lines of context on
/// either side. `diff` is a hunk without context that begins at line `start`
/// of the old file, counted from one, and `file` holds the lines of that
/// file. There is no hunk where the header of `diff` lacks a start line: the
/// old one is looked at first.
pub open spec fn expanded(
    diff: Seq<char>,
    start: nat,
    binary: bool,
    width: nat,
    file: Seq<Seq<char>>,
) -> Result<HunkView, HeaderParseError> {
    match (old_start_line(header_line(diff)), new_start_line(header_line(diff))) {
        (None, _) => Err(HeaderParseError { field: HeaderField::StartLineBefore }),
        (Some(_), None) => Err(HeaderParseError { field: HeaderField::StartLineAfter }),
        (Some(old), Some(new)) => Ok(
            HunkView {
                diff: join_lines(expanded_lines(diff, old, new, start, width, file)),
                old_start: low32(minus(old, before_len(start, width, file))),
                old_lines: low32(old_line_count(diff, start, width, file)),
                new_start: low32(minus(new, before_len(start, width, file))),
                new_lines: low32(new_line_count(diff, start, width, file)),
                binary,
            },
        ),
    }
}

/// The place in a file of `len` lines that is nearest to `v - 1`.
fn clip_before(v: u128, len: usize) -> (at: usize)
    ensures
        at == clip(v - 1, len as nat),
{
    if v == 0 {
        0
    } else if v - 1 >= len as u128 {
        len
    } else {
        (v - 1) as usize
    }
}

/// Appends the lines of `file` from `from` up to `to` to `out`, each as a
/// line of context.
fn push_context(out: &mut String, file: &[&str], from: usize, to: usize)
    requires
        from <= to <= file.len(),
    ensures
        final(out)@ == old(out)@ + join_lines(
            marked(line_texts(file@).subrange(from as int, to as int)),
        ),
{
    let ghost lines = marked(line_texts(file@).subrange(from as int, to as int));
    let mut i: usize = from;
    while i < to
        invariant
            from <= i <= to <= file.len(),
            lines == marked(line_texts(file@).subrange(from as int, to as int)),
            out@ == old(out)@ + join_lines(lines.take(i - from)),
        decreases to - i,
    {
        push_char(out, ' ');
        out.append(file[i]);
        push_char(out, '\n');
        proof {
            assert(lines.take(i - from + 1).drop_last() =~= lines.take(i - from));
        }
        i = i + 1;
    }
    assert(lines.take(to - from) =~= lines);
}

/// Appends `lines` from `from` on to `out`.
fn push_lines(out: &mut String, lines: &Vec<Vec<char>>, from: usize)
    requires
        from <= lines.len(),
    ensures
        final(out)@ == old(out)@ + join_lines(texts(lines@).skip(from as int)),
{
    let ghost all = texts(lines@).skip(from as int);
    let mut i: usize = from;
    assert(all.take(0) =~= Seq::<Seq<char>>::empty());
    while i < lines.len()
        invariant
            from <= i <= lines.len(),
            all == texts(lines@).skip(from as int),
            out@ == old(out)@ + join_lines(all.take(i - from)),
        decreases lines.len() - i,
    {
        let line = &lines[i];
        push_range(out, line, 0, line.len());
        push_char(out, '\n');
        proof {
            assert(all.take(i - from + 1).drop_last() =~= all.take(i - from));
        }
        i = i + 1;
    }
    assert(all.take(lines.len() - from) =~= all);
}

/// Where in a file of `len` lines the context of a hunk stands: the lines
/// before it from `.0` up to `.1`, the lines after it from `.2` up to `.3`.
fn context_ranges(start: usize, removed: usize, width: usize, len: usize) -> (r: (
    usize,
    usize,
    usize,
    usize,
))
    ensures
        r.0 == clip(start - 1 - width, len as nat),
        r.1 == clip(start - 1, len as nat),
        r.2 == clip(start + removed - 1, len as nat),
        r.3 == clip(start + removed - 1 + width, len as nat),
        r.0 <= r.1 <= len,
        r.2 <= r.3 <= len,
{
    let after_at: u128 = start as u128 + removed as u128;
    (
        clip_before(start.saturating_sub(width) as u128, len),
        clip_before(start as u128, len),
        clip_before(after_at, len),
        clip_before(after_at + width as u128, len),
    )
}

/// The text of a hunk: the header line `header`, then the lines of `file`
/// from `before.0` up to `before.1` as context, then `lines` but the first,
/// then the lines of `file` from `after.0` up to `after.1` as context.
fn write_hunk(
    header: (u128, u128, u128, u128),
    lines: &Vec<Vec<char>>,
    file: &[&str],
    before: (usize, usize),
    after: (usize, usize),
) -> (text: String)
    requires
        lines.len() > 0,
        before.0 <= before.1 <= file.len(),
        after.0 <= after.1 <= file.len(),
    ensures
        text@ == join_lines(
            seq![
                header_text(
                    header.0 as nat,
                    header.1 as nat,
                    header.2 as nat,
                    header.3 as nat,
                ),
            ] + (marked(line_texts(file@).subrange(before.0 as int, before.1 as int)) + texts(
                lines@,
            ).skip(1) + marked(line_texts(file@).subrange(after.0 as int, after.1 as int))),
        ),
{
    let mut text = String::new();
    push_header(&mut text, header.0, header.1, header.2, header.3);
    push_char(&mut text, '\n');
    push_context(&mut text, file, before.0, before.1);
    push_lines(&mut text, lines, 1);
    push_context(&mut text, file, after.0, after.1);
    proof {
        let head = seq![
            header_text(header.0 as nat, header.1 as nat, header.2 as nat, header.3 as nat),
        ];
        let first = marked(line_texts(file@).subrange(before.0 as int, before.1 as int));
        let body = texts(lines@).skip(1);
        let last = marked(line_texts(file@).subrange(after.0 as int, after.1 as int));
        lemma_join_lines_one(head[0]);
        lemma_join_lines_concat(first, body);
        lemma_join_lines_concat(first + body, last);
        lemma_join_lines_concat(head, first + body + last);
        assert(text@ =~= join_lines(head) + (join_lines(first) + join_lines(body) + join_lines(
            last,
        )));
    }
    text
}

/// The low 32 bits of `n`.
fn low32_of(n: u128) -> (low: u32)
    ensures
        low == low32(n as nat),
{
    (n % 0x1_0000_0000) as u32
}

/// Expands a hunk without context by up to `context_lines` lines of context
/// on either side.
///
/// `hunk_diff` is the hunk's text; its first line is the header.
/// `hunk_start_line` is the line of the old file at which the hunk begins,
/// counted from one, and `file_lines_before` holds the lines of that file.
/// Context that the file does not hold is left out. The result carries a
/// header that is computed anew, with its four numbers in 32 bits each, and
/// `is_binary` as it was given.
///
/// The header of `hunk_diff` has to give the two start lines, the old one
/// first: an error names the one that it lacks.
pub fn hunk_with_context(
    hunk_diff: &str,
    hunk_start_line: usize,
    is_binary: bool,
    context_lines: usize,
    file_lines_before: &[&str],
) -> (result: Result<Hunk, HeaderParseError>)
    ensures
        result is Ok <==> old_start_line(header_line(hunk_diff@)) is Some && new_start_line(
            header_line(hunk_diff@),
        ) is Some,
        match result {
            Ok(hunk) => expanded(
                hunk_diff@,
                hunk_start_line as nat,
                is_binary,
                context_lines as nat,
                line_texts(file_lines_before@),
            ) == Ok::<HunkView, HeaderParseError>(hunk@),
            Err(e) => expanded(
                hunk_diff@,
                hunk_start_line as nat,
                is_binary,
                context_lines as nat,
                line_texts(file_lines_before@),
            ) == Err::<HunkView, HeaderParseError>(e),
        },
{
    let chars = to_chars(hunk_diff);
    let lines = split_lines(&chars);
    if lines.len() == 0 {
        return Err(HeaderParseError { field: HeaderField::StartLineBefore });
    }
    let header = &lines[0];
    assert(header@.skip(0) =~= header@);
    let (old, end) = read_start_line(header, 0);
    let old = match old {
        Some(n) => n,
        None => {
            return Err(HeaderParseError { field: HeaderField::StartLineBefore });
        },
    };
    let (new, _) = read_start_line(header, end);
    let new = match new {
        Some(n) => n,
        None => {
            return Err(HeaderParseError { field: HeaderField::StartLineAfter });
        },
    };
    let (removed, added) = count_changes(&lines, 1);
    let len = file_lines_before.len();
    let (before_from, before_to, after_from, after_to) = context_ranges(
        hunk_start_line,
        removed,
        context_lines,
        len,
    );
    let before: usize = before_to - before_from;
    let after: usize = after_to - after_from;
    let old_start = old.saturating_sub(before) as u128;
    let new_start = new.saturating_sub(before) as u128;
    let old_lines: u128 = removed as u128 + before as u128 + after as u128;
    let new_lines: u128 = added as u128 + before as u128 + after as u128;
    let text = write_hunk(
        (old_start, old_lines, new_start, new_lines),
        &lines,
        file_lines_before,
        (before_from, before_to),
        (after_from, after_to),
    );
    Ok(
        Hunk {
            diff: text,
            old_start: low32_of(old_start),
            old_lines: low32_of(old_lines),
            new_start: low32_of(new_start),
            new_lines: low32_of(new_lines),
            binary: is_binary,
        },
    )
}

} // verus!
