//! What holds of every expanded hunk.

use crate::header::{
    lemma_header_text, new_line_count_field, new_start_line, old_line_count_field,
    old_start_line,
};
use crate::hunk::{
    added_count, after_len, before_len, body_lines, clip, context_after, context_before, expanded,
    expanded_body, expanded_lines, header_line, marked, minus, new_line_count, old_line_count,
    removed_count,
};
use crate::line::{
    count_kind, lemma_count_kind_concat, lemma_count_kind_of_context,
    lemma_strip_each_keeps_count, LineKind,
};
use crate::text::{
    join_lines, lemma_join_lines_end, lemma_join_lines_first, lemma_lines_hold_no_line_feed,
    lemma_lines_of_first, lemma_lines_of_join, lemma_lines_of_push_line_feed, no_line_feed,
    strip_each,
};
use vstd::prelude::*;

verus! {

/// The line counts of an expanded hunk add up: as long as they fit 32 bits,
/// the old count is the removed lines plus the context on both sides, and
/// the new count is the added lines plus the same context.
pub proof fn lemma_line_counts_add_up(
    diff: Seq<char>,
    start: nat,
    binary: bool,
    width: nat,
    file: Seq<Seq<char>>,
)
    requires
        expanded(diff, start, binary, width, file) is Ok,
        old_line_count(diff, start, width, file) <= u32::MAX,
        new_line_count(diff, start, width, file) <= u32::MAX,
    ensures
        expanded(diff, start, binary, width, file)->Ok_0.old_lines == removed_count(diff)
            + before_len(start, width, file) + after_len(diff, start, width, file),
        expanded(diff, start, binary, width, file)->Ok_0.new_lines == added_count(diff)
            + before_len(start, width, file) + after_len(diff, start, width, file),
{
}

/// The context before a hunk never reaches the requested width where the
/// hunk begins within that many lines of the top of the file: at most the
/// lines that stand before the hunk are there to take.
pub proof fn lemma_context_before_is_clamped(start: nat, width: nat, file: Seq<Seq<char>>)
    requires
        start <= width,
        width > 0,
    ensures
        before_len(start, width, file) < width,
        before_len(start, width, file) <= minus(start, 1),
{
}

/// The context before a hunk holds at most `width` lines, and no more than
/// stand before line `start`.
pub proof fn lemma_before_len_bounds(start: nat, width: nat, file: Seq<Seq<char>>)
    ensures
        before_len(start, width, file) <= width,
        before_len(start, width, file) <= minus(start, 1),
        before_len(start, width, file) <= file.len(),
        start - 1 <= file.len() && width <= start - 1 ==> before_len(start, width, file) == width,
{
}

/// The start line of an expanded hunk stays at one or above where the header
/// named a line no earlier than the one at which the hunk begins.
pub proof fn lemma_start_line_is_clamped(
    header_start: nat,
    start: nat,
    width: nat,
    file: Seq<Seq<char>>,
)
    requires
        1 <= start <= header_start,
    ensures
        minus(header_start, before_len(start, width, file)) >= 1,
        minus(header_start, before_len(start, width, file)) == header_start - before_len(
            start,
            width,
            file,
        ),
{
}

/// Where no more than `width` lines follow a hunk, the context after it is
/// all of them: the lines from the one behind the last removed line to the
/// end of the file.
pub proof fn lemma_context_after_is_clamped(
    diff: Seq<char>,
    start: nat,
    width: nat,
    file: Seq<Seq<char>>,
)
    requires
        start + removed_count(diff) - 1 + width >= file.len(),
    ensures
        after_len(diff, start, width, file) == file.len() - clip(
            start + removed_count(diff) - 1,
            file.len(),
        ),
        1 <= start + removed_count(diff) <= file.len() + 1 ==> after_len(diff, start, width, file)
            == file.len() - (start + removed_count(diff) - 1),
{
}

/// The context after a hunk holds at most `width` lines, and all `width`
/// where the file holds that many behind the hunk.
pub proof fn lemma_after_len_bounds(diff: Seq<char>, start: nat, width: nat, file: Seq<Seq<char>>)
    ensures
        after_len(diff, start, width, file) <= width,
        after_len(diff, start, width, file) <= file.len(),
        1 <= start + removed_count(diff) && start + removed_count(diff) - 1 + width <= file.len()
            ==> after_len(diff, start, width, file) == width,
{
}

/// The text of an expanded hunk ends with a line feed. That is its only one
/// at the end unless the last line of the body is empty or ends with a line
/// feed of its own.
pub proof fn lemma_trailing_line_feed(
    diff: Seq<char>,
    start: nat,
    binary: bool,
    width: nat,
    file: Seq<Seq<char>>,
)
    requires
        expanded(diff, start, binary, width, file) is Ok,
    ensures
        ({
            let text = expanded(diff, start, binary, width, file)->Ok_0.diff;
            let body = expanded_body(diff, start, width, file);
            &&& text.len() >= 2
            &&& text.last() == '\n'
            &&& body.len() == 0 ==> text[text.len() - 2] != '\n'
            &&& body.len() > 0 ==> (text[text.len() - 2] == '\n' <==> body.last().len() == 0
                || body.last().last() == '\n')
        }),
{
    let old = old_start_line(header_line(diff))->Some_0;
    let new = new_start_line(header_line(diff))->Some_0;
    let lines = expanded_lines(diff, old, new, start, width, file);
    lemma_header_text(
        minus(old, before_len(start, width, file)),
        old_line_count(diff, start, width, file),
        minus(new, before_len(start, width, file)),
        new_line_count(diff, start, width, file),
    );
    lemma_join_lines_end(lines);
}

/// A line feed at the end of a hunk's text does not tell on its expansion:
/// the text expands alike with it and without it. This holds of every text
/// that does not end with a carriage return or a line feed already.
pub proof fn lemma_final_line_feed_is_optional(
    diff: Seq<char>,
    start: nat,
    binary: bool,
    width: nat,
    file: Seq<Seq<char>>,
)
    requires
        diff.len() > 0,
        diff.last() != '\n',
        diff.last() != '\r',
    ensures
        expanded(diff.push('\n'), start, binary, width, file) == expanded(
            diff,
            start,
            binary,
            width,
            file,
        ),
{
    lemma_lines_of_push_line_feed(diff);
}

/// The header of an expanded hunk reads back as it was written: its line
/// counts are those of the expansion, and its start lines are those of the
/// header that was given, less the lines of context before the body. The new
/// start line reads back as long as it fits a signed machine word.
pub proof fn lemma_header_reads_back(
    diff: Seq<char>,
    start: nat,
    binary: bool,
    width: nat,
    file: Seq<Seq<char>>,
)
    requires
        expanded(diff, start, binary, width, file) is Ok,
    ensures
        ({
            let header = header_line(expanded(diff, start, binary, width, file)->Ok_0.diff);
            let before = before_len(start, width, file);
            let old = old_start_line(header_line(diff))->Some_0;
            let new = new_start_line(header_line(diff))->Some_0;
            &&& old_start_line(header) == Some(minus(old, before))
            &&& minus(new, before) <= isize::MAX ==> new_start_line(header) == Some(
                minus(new, before),
            )
            &&& old_line_count_field(header) == Some(old_line_count(diff, start, width, file))
            &&& new_line_count_field(header) == Some(new_line_count(diff, start, width, file))
        }),
{
    let old = old_start_line(header_line(diff))->Some_0;
    let new = new_start_line(header_line(diff))->Some_0;
    let lines = expanded_lines(diff, old, new, start, width, file);
    lemma_header_text(
        minus(old, before_len(start, width, file)),
        old_line_count(diff, start, width, file),
        minus(new, before_len(start, width, file)),
        new_line_count(diff, start, width, file),
    );
    lemma_join_lines_first(lines);
    lemma_lines_of_first(lines[0], join_lines(lines.skip(1)));
}

/// The line counts in the header of an expanded hunk are those of its body:
/// read back from the text, the old count is the number of lines that are
/// removed or context, and the new count the number of lines that are added
/// or context. This holds where the body that was given holds no line of
/// context, and no line of the context that the file gives holds a line
/// feed.
pub proof fn lemma_header_counts_match_body(
    diff: Seq<char>,
    start: nat,
    binary: bool,
    width: nat,
    file: Seq<Seq<char>>,
)
    requires
        expanded(diff, start, binary, width, file) is Ok,
        count_kind(body_lines(diff), LineKind::Context) == 0,
        forall|i: int|
            0 <= i < context_before(start, width, file).len() ==> no_line_feed(
                #[trigger] context_before(start, width, file)[i],
            ),
        forall|i: int|
            0 <= i < context_after(start, removed_count(diff), width, file).len() ==> no_line_feed(
                #[trigger] context_after(start, removed_count(diff), width, file)[i],
            ),
    ensures
        ({
            let text = expanded(diff, start, binary, width, file)->Ok_0.diff;
            let body = body_lines(text);
            &&& old_line_count_field(header_line(text)) == Some(
                count_kind(body, LineKind::Removed) + count_kind(body, LineKind::Context),
            )
            &&& new_line_count_field(header_line(text)) == Some(
                count_kind(body, LineKind::Added) + count_kind(body, LineKind::Context),
            )
        }),
{
    let old = old_start_line(header_line(diff))->Some_0;
    let new = new_start_line(header_line(diff))->Some_0;
    let lines = expanded_lines(diff, old, new, start, width, file);
    let before = marked(context_before(start, width, file));
    let given = body_lines(diff);
    let after = marked(context_after(start, removed_count(diff), width, file));
    let body = expanded_body(diff, start, width, file);
    lemma_header_reads_back(diff, start, binary, width, file);
    lemma_header_text(
        minus(old, before_len(start, width, file)),
        old_line_count(diff, start, width, file),
        minus(new, before_len(start, width, file)),
        new_line_count(diff, start, width, file),
    );
    lemma_lines_hold_no_line_feed(diff);
    assert forall|i: int| 0 <= i < lines.len() implies no_line_feed(#[trigger] lines[i]) by {
        if 1 <= i <= before.len() {
            lemma_marked_line(context_before(start, width, file)[i - 1]);
        } else if i > before.len() + given.len() {
            lemma_marked_line(
                context_after(start, removed_count(diff), width, file)[i - 1 - before.len()
                    - given.len()],
            );
        }
    }
    lemma_lines_of_join(lines);
    assert(body_lines(join_lines(lines)) =~= strip_each(body));
    lemma_strip_each_keeps_count(body, LineKind::Removed);
    lemma_strip_each_keeps_count(body, LineKind::Added);
    lemma_strip_each_keeps_count(body, LineKind::Context);
    lemma_count_kind_of_context(before);
    lemma_count_kind_of_context(after);
    lemma_count_kind_concat(before, given, LineKind::Removed);
    lemma_count_kind_concat(before, given, LineKind::Added);
    lemma_count_kind_concat(before, given, LineKind::Context);
    lemma_count_kind_concat(before + given, after, LineKind::Removed);
    lemma_count_kind_concat(before + given, after, LineKind::Added);
    lemma_count_kind_concat(before + given, after, LineKind::Context);
}

/// A line that is marked as context holds a line feed only where it held
/// one before.
proof fn lemma_marked_line(line: Seq<char>)
    requires
        no_line_feed(line),
    ensures
        no_line_feed(seq![' '] + line),
{
    let marked = seq![' '] + line;
    assert forall|j: int| 0 <= j < marked.len() implies marked[j] != '\n' by {
        if j > 0 {
            assert(marked[j] == line[j - 1]);
        }
    }
}

} // verus!
