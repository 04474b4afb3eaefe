//! The text that is copied for a comment: the file, the place, and the lines around it with the
//! comment among them.

use crate::diff_parser;
use crate::diff_parser::{DiffLine, DiffLineView, Hunk, HunkView, ParsedDiff, ParsedDiffView};
use crate::number;
use crate::text;
use vstd::prelude::*;

verus! {

/// What a single line is, with its line numbers.
pub open spec fn target_text(line: DiffLineView) -> Seq<char> {
    match (line.old_lineno, line.new_lineno) {
        (Some(old), Some(new)) => "context line old:"@ + number::decimal(old as nat) + " new:"@
            + number::decimal(new as nat),
        (None, Some(new)) => "added line new:"@ + number::decimal(new as nat),
        (Some(old), None) => "deleted line old:"@ + number::decimal(old as nat),
        (None, None) => "diff line"@,
    }
}

/// Describes a single line.
pub fn describe_target(line: &DiffLine) -> (description: String)
    ensures
        description@ == target_text(line@),
{
    match (line.old_lineno, line.new_lineno) {
        (Some(old), Some(new)) => {
            let mut s = "context line old:".to_string();
            s.push_str(number::decimal_string(old as u64).as_str());
            s.push_str(" new:");
            s.push_str(number::decimal_string(new as u64).as_str());
            s
        },
        (None, Some(new)) => {
            let mut s = "added line new:".to_string();
            s.push_str(number::decimal_string(new as u64).as_str());
            s
        },
        (Some(old), None) => {
            let mut s = "deleted line old:".to_string();
            s.push_str(number::decimal_string(old as u64).as_str());
            s
        },
        (None, None) => "diff line".to_string(),
    }
}

/// The line numbers that the lines have in the old file.
pub open spec fn old_numbers(lines: Seq<DiffLineView>) -> Seq<usize> {
    lines.filter_map(|line: DiffLineView| line.old_lineno)
}

/// The line numbers that the lines have in the new file.
pub open spec fn new_numbers(lines: Seq<DiffLineView>) -> Seq<usize> {
    lines.filter_map(|line: DiffLineView| line.new_lineno)
}

/// The first and the last of some line numbers; nothing where there is none.
pub open spec fn span_text(values: Seq<usize>) -> Option<Seq<char>> {
    if values.len() == 0 {
        None
    } else if values.first() == values.last() {
        Some(number::decimal(values.first() as nat))
    } else {
        Some(
            number::decimal(values.first() as nat) + "-"@ + number::decimal(values.last() as nat),
        )
    }
}

/// Writes the first and the last of some line numbers.
pub fn line_span(values: &[usize]) -> (span: Option<String>)
    ensures
        diff_parser::opt_text(span) == span_text(values@),
{
    if values.len() == 0 {
        return None;
    }
    let first = values[0];
    let last = values[values.len() - 1];
    let mut span = number::decimal_string(first as u64);
    if first != last {
        span.push_str("-");
        span.push_str(number::decimal_string(last as u64).as_str());
    }
    Some(span)
}

/// A span with the word that fits it.
pub open spec fn qualified_span(span: Seq<char>) -> Seq<char> {
    if span.contains('-') {
        "lines "@ + span
    } else {
        "line "@ + span
    }
}

/// Writes a span with the word that fits it.
pub fn qualified_line_span(span: &str) -> (qualified: String)
    ensures
        qualified@ == qualified_span(span@),
{
    let chars = text::chars_of(span);
    let dash = text::find_char_from(chars.as_slice(), '-', 0);
    proof {
        assert(chars@.skip(0) =~= chars@);
        text::lemma_find_char(chars@, '-');
        if span@.contains('-') {
            let j = span@.index_of('-');
            assert(chars@[j] == '-');
        }
    }
    let mut qualified = if dash < chars.len() {
        "lines ".to_string()
    } else {
        "line ".to_string()
    };
    qualified.push_str(span);
    qualified
}

/// Every line is a line of both files.
pub open spec fn all_context(lines: Seq<DiffLineView>) -> bool {
    forall|j: int|
        0 <= j < lines.len() ==> (#[trigger] lines[j]).old_lineno is Some
            && lines[j].new_lineno is Some
}

/// The place of several lines.
pub open spec fn multi_line_text(lines: Seq<DiffLineView>) -> Seq<char> {
    match (span_text(old_numbers(lines)), span_text(new_numbers(lines))) {
        (Some(old), Some(new)) => if old == new && all_context(lines) {
            "lines "@ + old
        } else {
            "old "@ + qualified_span(old) + " / new "@ + qualified_span(new) + " ("@
                + number::decimal(lines.len()) + " diff lines)"@
        },
        (Some(old), None) => "old "@ + qualified_span(old),
        (None, Some(new)) => "new "@ + qualified_span(new),
        (None, None) => number::decimal(lines.len()) + " diff lines"@,
    }
}

/// The line numbers of the lines in the old file, and in the new one, and whether every line has
/// both.
fn collect_numbers(lines: &[DiffLine]) -> (result: (Vec<usize>, Vec<usize>, bool))
    ensures
        result.0@ == old_numbers(diff_parser::line_views(lines@)),
        result.1@ == new_numbers(diff_parser::line_views(lines@)),
        result.2 == all_context(diff_parser::line_views(lines@)),
{
    let mut old: Vec<usize> = Vec::new();
    let mut new: Vec<usize> = Vec::new();
    let mut context = true;
    let mut i: usize = 0;
    let ghost views = diff_parser::line_views(lines@);
    assert(views.take(0) =~= seq![]);
    while i < lines.len()
        invariant
            i <= lines@.len(),
            views == diff_parser::line_views(lines@),
            old@ == old_numbers(views.take(i as int)),
            new@ == new_numbers(views.take(i as int)),
            context == all_context(views.take(i as int)),
        decreases lines@.len() - i,
    {
        assert(views.take(i + 1).drop_last() =~= views.take(i as int));
        assert(views.take(i + 1).last() == lines@[i as int]@);
        let ghost prefix = views.take(i as int);
        if let Some(n) = lines[i].old_lineno {
            old.push(n);
        }
        if let Some(n) = lines[i].new_lineno {
            new.push(n);
        }
        let both = lines[i].old_lineno.is_some() && lines[i].new_lineno.is_some();
        proof {
            let next = views.take(i + 1);
            if context && both {
                assert forall|j: int| 0 <= j < next.len() implies (
                #[trigger] next[j]).old_lineno is Some && next[j].new_lineno is Some by {
                    if j < i {
                        assert(next[j] == prefix[j]);
                    }
                }
            } else if !context {
                let j = choose|j: int|
                    0 <= j < prefix.len() && !((#[trigger] prefix[j]).old_lineno is Some
                        && prefix[j].new_lineno is Some);
                assert(next[j] == prefix[j]);
            } else {
                assert(next[i as int] == lines@[i as int]@);
            }
        }
        context = context && both;
        i += 1;
    }
    assert(views.take(lines@.len() as int) =~= views);
    (old, new, context)
}

/// Describes the place of several lines.
pub fn multi_line_label(lines: &[DiffLine]) -> (label: String)
    ensures
        label@ == multi_line_text(diff_parser::line_views(lines@)),
{
    let (old_values, new_values, context) = collect_numbers(lines);
    let old_span = line_span(old_values.as_slice());
    let new_span = line_span(new_values.as_slice());
    match (old_span, new_span) {
        (Some(old), Some(new)) => {
            if old == new && context {
                let mut s = "lines ".to_string();
                s.push_str(old.as_str());
                s
            } else {
                let mut s = "old ".to_string();
                s.push_str(qualified_line_span(old.as_str()).as_str());
                s.push_str(" / new ");
                s.push_str(qualified_line_span(new.as_str()).as_str());
                s.push_str(" (");
                s.push_str(number::decimal_string(lines.len() as u64).as_str());
                s.push_str(" diff lines)");
                s
            }
        },
        (Some(old), None) => {
            let mut s = "old ".to_string();
            s.push_str(qualified_line_span(old.as_str()).as_str());
            s
        },
        (None, Some(new)) => {
            let mut s = "new ".to_string();
            s.push_str(qualified_line_span(new.as_str()).as_str());
            s
        },
        (None, None) => {
            let mut s = number::decimal_string(lines.len() as u64);
            s.push_str(" diff lines");
            s
        },
    }
}

/// The number of a line: that in the new file where it has one, else that in the old file.
pub open spec fn line_number_text(line: DiffLineView) -> Seq<char> {
    match (line.new_lineno, line.old_lineno) {
        (Some(new), _) => number::decimal(new as nat),
        (None, Some(old)) => number::decimal(old as nat),
        (None, None) => "unknown"@,
    }
}

/// Writes the number of a line.
pub fn line_number(line: &DiffLine) -> (s: String)
    ensures
        s@ == line_number_text(line@),
{
    match (line.new_lineno, line.old_lineno) {
        (Some(new), _) => number::decimal_string(new as u64),
        (None, Some(old)) => number::decimal_string(old as u64),
        (None, None) => "unknown".to_string(),
    }
}

/// The place of the lines.
pub open spec fn target_lines_text(lines: Seq<DiffLineView>) -> Seq<char> {
    if lines.len() == 0 {
        "line unknown"@
    } else if lines.len() == 1 {
        "line "@ + line_number_text(lines[0])
    } else {
        multi_line_text(lines)
    }
}

/// Describes the place of the lines.
pub fn describe_target_lines(lines: &[DiffLine]) -> (description: String)
    ensures
        description@ == target_lines_text(diff_parser::line_views(lines@)),
{
    if lines.len() == 0 {
        "line unknown".to_string()
    } else if lines.len() == 1 {
        let mut s = "line ".to_string();
        s.push_str(line_number(&lines[0]).as_str());
        s
    } else {
        multi_line_label(lines)
    }
}

/// The two positions in ascending order.
pub fn normalized_range(a: usize, b: usize) -> (range: (usize, usize))
    ensures
        range == ascending(a, b),
{
    if a <= b {
        (a, b)
    } else {
        (b, a)
    }
}

/// Two positions in ascending order.
pub open spec fn ascending(a: usize, b: usize) -> (usize, usize) {
    if a <= b {
        (a, b)
    } else {
        (b, a)
    }
}

/// Each line with `prefix` before it.
pub open spec fn with_prefix(lines: Seq<Seq<char>>, prefix: Seq<char>) -> Seq<Seq<char>> {
    lines.map_values(|line: Seq<char>| prefix + line)
}

/// The lines that show a comment: one where the comment is a single line, else a heading and the
/// lines of the comment.
pub open spec fn comment_lines(comment: Seq<char>) -> Seq<Seq<char>> {
    let lines = text::lines_of(text::trim_end(comment));
    if lines.len() == 1 {
        seq![">> comment: "@ + lines[0]]
    } else {
        seq![">> comment:"@] + with_prefix(lines, ">> "@)
    }
}

/// Writes the lines that show a comment.
pub fn format_comment(comment: &str) -> (output: Vec<String>)
    ensures
        text::texts(output@) == comment_lines(comment@),
{
    let chars = text::chars_of(comment);
    let lines = text::split_lines(text::trim_end_chars(chars.as_slice()));
    let ghost all = text::lines_of(text::trim_end(comment@));
    assert(all.len() == lines@.len());
    let mut output: Vec<String> = Vec::new();
    if lines.len() == 1 {
        assert(all[0] == lines@[0]@);
        let mut s = ">> comment: ".to_string();
        s.push_str(text::string_of(lines[0].as_slice()).as_str());
        output.push(s);
        assert(text::texts(output@) =~= comment_lines(comment@));
        return output;
    }
    output.push(">> comment:".to_string());
    let ghost head = seq![">> comment:"@];
    let mut i: usize = 0;
    assert(text::texts(output@) =~= head + with_prefix(all.take(0), ">> "@));
    while i < lines.len()
        invariant
            i <= lines@.len(),
            all == text::char_texts(lines@),
            text::texts(output@) == head + with_prefix(all.take(i as int), ">> "@),
        decreases lines@.len() - i,
    {
        let ghost before = output@;
        let mut s = ">> ".to_string();
        s.push_str(text::string_of(lines[i].as_slice()).as_str());
        output.push(s);
        assert(text::texts(output@) =~= text::texts(before).push(">> "@ + lines@[i as int]@));
        assert(with_prefix(all.take(i + 1), ">> "@) =~= with_prefix(all.take(i as int), ">> "@).push(
            ">> "@ + lines@[i as int]@,
        ));
        i += 1;
    }
    assert(all.take(lines@.len() as int) =~= all);
    output
}

/// The marker before the first selected line.
pub open spec fn start_marker(count: int) -> Seq<char> {
    if count > 1 {
        ">> target start"@
    } else {
        ">> target:"@
    }
}

/// The marker after the last selected line: there is one only for several lines.
pub open spec fn end_marker(count: int) -> Seq<Seq<char>> {
    if count > 1 {
        seq![">> target end"@]
    } else {
        seq![]
    }
}

/// Writes the marker before the first selected line.
pub fn target_start_marker(target_lines: &[DiffLine]) -> (marker: String)
    ensures
        marker@ == start_marker(target_lines@.len() as int),
{
    if target_lines.len() > 1 {
        ">> target start".to_string()
    } else {
        ">> target:".to_string()
    }
}

/// The hunk that all the selected lines belong to, with the places in it of the first and the
/// last of them, in ascending order.
pub open spec fn target_place(parsed: ParsedDiffView, targets: Seq<DiffLineView>) -> Option<
    (HunkView, usize, usize),
> {
    if targets.len() == 0 {
        None
    } else {
        match (
            targets.first().hunk_index,
            targets.first().hunk_line_index,
            targets.last().hunk_line_index,
        ) {
            (Some(h), Some(a), Some(b)) => if h < parsed.hunks.len() && (forall|j: int|
                0 <= j < targets.len() ==> (#[trigger] targets[j]).hunk_index == Some(h)) {
                Some((parsed.hunks[h as int], ascending(a, b).0, ascending(a, b).1))
            } else {
                None
            },
            _ => None,
        }
    }
}

/// The larger of two numbers.
pub open spec fn larger(a: int, b: int) -> int {
    if a >= b {
        a
    } else {
        b
    }
}

/// How many lines of a hunk are shown at most: `max_lines`, at least one, and never fewer than the
/// selected lines from place `first` to place `last`.
pub open spec fn window_size(first: int, last: int, max_lines: int) -> int {
    larger(larger(max_lines, 1), last - first + 1)
}

/// The part of a hunk of `len` lines that is shown, as the places of its first line and of the
/// line after its last: all of it where it is small enough, else a window in which the selected
/// lines stand in the middle. Of a selection that reaches beyond the hunk, the end of the hunk is
/// shown.
pub open spec fn window_bounds(len: int, first: int, last: int, max_lines: int) -> (int, int) {
    let size = window_size(first, last, max_lines);
    if len <= size {
        (0, len)
    } else {
        let spare = size - (last - first + 1);
        let start = if last < len {
            larger(first - spare / 2, 0)
        } else {
            len - size
        };
        (
            start,
            if start + size <= len {
                start + size
            } else {
                len
            },
        )
    }
}

/// Computes the part of a hunk that is shown.
pub fn window_range(len: usize, first: usize, last: usize, max_lines: usize) -> (range: (
    usize,
    usize,
))
    requires
        first <= last,
    ensures
        range.0 == window_bounds(len as int, first as int, last as int, max_lines as int).0,
        range.1 == window_bounds(len as int, first as int, last as int, max_lines as int).1,
        range.0 <= range.1 <= len,
{
    let limit: usize = if max_lines > 1 {
        max_lines
    } else {
        1
    };
    if len <= limit || len - 1 <= last - first {
        return (0, len);
    }
    let count: usize = last - first + 1;
    let size: usize = if limit >= count {
        limit
    } else {
        count
    };
    let before: usize = (size - count) / 2;
    let start: usize = if last < len {
        first.saturating_sub(before)
    } else {
        len - size
    };
    let end: usize = if size <= len - start {
        start + size
    } else {
        len
    };
    (start, end)
}

/// What is shown for the line at place `i` of a hunk: the line, and at the ends of the selection
/// the markers and the comment.
pub open spec fn window_row(
    raw: Seq<char>,
    i: int,
    first: int,
    last: int,
    count: int,
    comment: Seq<char>,
) -> Seq<Seq<char>> {
    let before = if i == first {
        seq![start_marker(count)]
    } else {
        seq![]
    };
    let after = if i == last {
        end_marker(count) + comment_lines(comment)
    } else {
        seq![]
    };
    before + seq![raw] + after
}

/// The line at place `i` of a hunk.
pub open spec fn hunk_raw(parsed: ParsedDiffView, hunk: HunkView, i: int) -> Seq<char> {
    parsed.lines[hunk.line_indices[i] as int].raw
}

/// What is shown for the places of a hunk from `start` up to `end`.
pub open spec fn window_rows(
    parsed: ParsedDiffView,
    hunk: HunkView,
    start: int,
    end: int,
    first: int,
    last: int,
    count: int,
    comment: Seq<char>,
) -> Seq<Seq<char>>
    decreases end - start,
{
    if end <= start {
        seq![]
    } else {
        window_rows(parsed, hunk, start, end - 1, first, last, count, comment) + window_row(
            hunk_raw(parsed, hunk, end - 1),
            end - 1,
            first,
            last,
            count,
            comment,
        )
    }
}

/// The places of a hunk from `start` up to `end` refer to lines of the diff.
pub open spec fn places_valid(parsed: ParsedDiffView, hunk: HunkView, start: int, end: int) -> bool {
    forall|i: int|
        start <= i < end ==> (#[trigger] hunk.line_indices[i]) < parsed.lines.len()
}

/// The part of the hunk around the selected lines, if they belong to one hunk of the diff.
pub open spec fn hunk_window(
    parsed: ParsedDiffView,
    targets: Seq<DiffLineView>,
    comment: Seq<char>,
    max_lines: int,
) -> Option<Seq<Seq<char>>> {
    match target_place(parsed, targets) {
        None => None,
        Some((hunk, first, last)) => {
            let (start, end) = window_bounds(
                hunk.line_indices.len() as int,
                first as int,
                last as int,
                max_lines,
            );
            let dots = if start > 0 {
                seq!["..."@]
            } else {
                seq![]
            };
            if places_valid(parsed, hunk, start, end) {
                Some(
                    seq![hunk.header] + dots + window_rows(
                        parsed,
                        hunk,
                        start,
                        end,
                        first as int,
                        last as int,
                        targets.len() as int,
                        comment,
                    ),
                )
            } else {
                None
            }
        },
    }
}

/// Finds the hunk that all the selected lines belong to.
fn find_place(parsed: &ParsedDiff, target_lines: &[DiffLine]) -> (place: Option<
    (usize, usize, usize),
>)
    ensures
        match place {
            Some((h, first, last)) => h < parsed.hunks@.len() && first <= last && target_place(
                parsed@,
                diff_parser::line_views(target_lines@),
            ) == Some((parsed.hunks@[h as int]@, first, last)),
            None => target_place(parsed@, diff_parser::line_views(target_lines@)) is None,
        },
{
    let ghost targets = diff_parser::line_views(target_lines@);
    if target_lines.len() == 0 {
        return None;
    }
    let h = match target_lines[0].hunk_index {
        Some(h) => h,
        None => return None,
    };
    let mut i: usize = 0;
    while i < target_lines.len()
        invariant
            i <= target_lines@.len(),
            targets == diff_parser::line_views(target_lines@),
            targets.len() > 0,
            targets.first().hunk_index == Some(h),
            forall|j: int| 0 <= j < i ==> (#[trigger] targets[j]).hunk_index == Some(h),
        decreases target_lines@.len() - i,
    {
        match target_lines[i].hunk_index {
            Some(other) => {
                if other != h {
                    assert(targets[i as int].hunk_index != Some(h));
                    return None;
                }
            },
            None => {
                assert(targets[i as int].hunk_index != Some(h));
                return None;
            },
        }
        i += 1;
    }
    let a = match target_lines[0].hunk_line_index {
        Some(a) => a,
        None => return None,
    };
    let b = match target_lines[target_lines.len() - 1].hunk_line_index {
        Some(b) => b,
        None => return None,
    };
    let (first, last) = normalized_range(a, b);
    if h >= parsed.hunks.len() {
        return None;
    }
    Some((h, first, last))
}

/// Appends strings to strings.
fn append_strings(output: &mut Vec<String>, more: Vec<String>)
    ensures
        text::texts(final(output)@) == text::texts(old(output)@) + text::texts(more@),
{
    let mut more = more;
    let ghost before = output@;
    let ghost added = more@;
    output.append(&mut more);
    assert(text::texts(before + added) =~= text::texts(before) + text::texts(added));
}

/// Appends a string to strings.
fn push_string(output: &mut Vec<String>, s: String)
    ensures
        text::texts(final(output)@) == text::texts(old(output)@).push(s@),
{
    let ghost before = output@;
    output.push(s);
    assert(text::texts(output@) =~= text::texts(before).push(s@));
}

/// Writes the part of the hunk around the selected lines.
pub fn format_hunk_window(
    parsed: &ParsedDiff,
    target_lines: &[DiffLine],
    comment: &str,
    max_hunk_lines: usize,
) -> (window: Option<Vec<String>>)
    ensures
        match window {
            Some(rows) => hunk_window(
                parsed@,
                diff_parser::line_views(target_lines@),
                comment@,
                max_hunk_lines as int,
            ) == Some(text::texts(rows@)),
            None => hunk_window(
                parsed@,
                diff_parser::line_views(target_lines@),
                comment@,
                max_hunk_lines as int,
            ) is None,
        },
{
    let (h, first, last) = match find_place(parsed, target_lines) {
        Some(place) => place,
        None => return None,
    };
    let hunk: &Hunk = &parsed.hunks[h];
    let (start, end) = window_range(hunk.line_indices.len(), first, last, max_hunk_lines);
    let ghost count = target_lines@.len() as int;
    let ghost view = parsed@;
    let mut output: Vec<String> = Vec::new();
    push_string(&mut output, hunk.header.clone());
    if start > 0 {
        push_string(&mut output, "...".to_string());
    }
    let ghost head = text::texts(output@);
    assert(head =~= seq![hunk@.header] + (if start > 0 {
        seq!["..."@]
    } else {
        seq![]
    }));
    let mut i: usize = start;
    assert(head + window_rows(
        view,
        hunk@,
        start as int,
        start as int,
        first as int,
        last as int,
        count,
        comment@,
    ) =~= head);
    while i < end
        invariant
            start <= i <= end <= hunk.line_indices@.len(),
            view == parsed@,
            count == target_lines@.len(),
            places_valid(view, hunk@, start as int, i as int),
            text::texts(output@) == head + window_rows(
                view,
                hunk@,
                start as int,
                i as int,
                first as int,
                last as int,
                count,
                comment@,
            ),
            target_place(view, diff_parser::line_views(target_lines@)) == Some((hunk@, first, last)),
            (start as int, end as int) == window_bounds(
                hunk.line_indices@.len() as int,
                first as int,
                last as int,
                max_hunk_lines as int,
            ),
        decreases end - i,
    {
        let line_index = hunk.line_indices[i];
        if line_index >= parsed.lines.len() {
            assert(hunk@.line_indices[i as int] >= view.lines.len());
            return None;
        }
        let ghost before = text::texts(output@);
        let ghost raw = hunk_raw(view, hunk@, i as int);
        assert(raw == parsed.lines@[line_index as int].raw@);
        if i == first {
            push_string(&mut output, target_start_marker(target_lines));
        }
        push_string(&mut output, parsed.lines[line_index].raw.clone());
        if i == last {
            if target_lines.len() > 1 {
                push_string(&mut output, ">> target end".to_string());
            }
            append_strings(&mut output, format_comment(comment));
        }
        assert(text::texts(output@) =~= before + window_row(
            raw,
            i as int,
            first as int,
            last as int,
            count,
            comment@,
        ));
        i += 1;
        assert(text::texts(output@) =~= head + window_rows(
            view,
            hunk@,
            start as int,
            i as int,
            first as int,
            last as int,
            count,
            comment@,
        ));
    }
    Some(output)
}

/// The file that a line belongs to.
pub open spec fn file_name(line: DiffLineView) -> Seq<char> {
    match line.file_path {
        Some(path) => path,
        None => "(unknown file)"@,
    }
}

/// Appends the file that a line belongs to.
pub(crate) fn push_file_name(s: &mut String, line: &DiffLine)
    ensures
        final(s)@ == old(s)@ + file_name(line@),
{
    match &line.file_path {
        Some(path) => s.push_str(path.as_str()),
        None => s.push_str("(unknown file)"),
    }
}

/// The texts of the lines.
pub open spec fn raw_texts(lines: Seq<DiffLineView>) -> Seq<Seq<char>> {
    lines.map_values(|line: DiffLineView| line.raw)
}

/// What is shown of lines that are not part of one hunk of the diff.
pub open spec fn bare_targets(targets: Seq<DiffLineView>, comment: Seq<char>) -> Seq<Seq<char>> {
    seq![start_marker(targets.len() as int)] + raw_texts(targets) + end_marker(targets.len() as int)
        + comment_lines(comment)
}

/// The lines of the text that is copied for a comment.
pub open spec fn payload_lines(
    parsed: ParsedDiffView,
    targets: Seq<DiffLineView>,
    comment: Seq<char>,
    max_lines: int,
) -> Seq<Seq<char>> {
    let body = match hunk_window(parsed, targets, comment, max_lines) {
        Some(rows) => rows,
        None => bare_targets(targets, comment),
    };
    seq![
        "File: "@ + file_name(targets[0]),
        "My comment at "@ + target_lines_text(targets),
        seq![],
    ] + body + seq![seq![]]
}

/// The text that is copied for a comment; nothing where no line is selected.
pub open spec fn review_payload(
    parsed: ParsedDiffView,
    targets: Seq<DiffLineView>,
    comment: Seq<char>,
    max_lines: int,
) -> Seq<char> {
    if targets.len() == 0 {
        seq![]
    } else {
        text::join(payload_lines(parsed, targets, comment, max_lines), "\n"@)
    }
}

/// Builds the text that is copied for a comment.
pub fn build_review_payload(
    parsed: &ParsedDiff,
    target_lines: &[DiffLine],
    comment: &str,
    max_hunk_lines: usize,
) -> (payload: String)
    ensures
        payload@ == review_payload(
            parsed@,
            diff_parser::line_views(target_lines@),
            comment@,
            max_hunk_lines as int,
        ),
{
    if target_lines.len() == 0 {
        return String::new();
    }
    let ghost targets = diff_parser::line_views(target_lines@);
    let mut output: Vec<String> = Vec::new();
    let mut file = "File: ".to_string();
    push_file_name(&mut file, &target_lines[0]);
    push_string(&mut output, file);
    let mut place = "My comment at ".to_string();
    place.push_str(describe_target_lines(target_lines).as_str());
    push_string(&mut output, place);
    push_string(&mut output, String::new());
    let ghost head = text::texts(output@);
    match format_hunk_window(parsed, target_lines, comment, max_hunk_lines) {
        Some(rows) => append_strings(&mut output, rows),
        None => {
            push_string(&mut output, target_start_marker(target_lines));
            let ghost marked = text::texts(output@);
            let mut i: usize = 0;
            assert(marked =~= marked + raw_texts(targets.take(0)));
            while i < target_lines.len()
                invariant
                    i <= target_lines@.len(),
                    targets == diff_parser::line_views(target_lines@),
                    text::texts(output@) == marked + raw_texts(targets.take(i as int)),
                decreases target_lines@.len() - i,
            {
                push_string(&mut output, target_lines[i].raw.clone());
                assert(raw_texts(targets.take(i + 1)) =~= raw_texts(targets.take(i as int)).push(
                    target_lines@[i as int].raw@,
                ));
                assert(text::texts(output@) =~= marked + raw_texts(targets.take(i + 1)));
                i += 1;
            }
            assert(targets.take(target_lines@.len() as int) =~= targets);
            if target_lines.len() > 1 {
                push_string(&mut output, ">> target end".to_string());
            }
            append_strings(&mut output, format_comment(comment));
            assert(text::texts(output@) =~= head + bare_targets(targets, comment@));
        },
    }
    push_string(&mut output, String::new());
    assert(text::texts(output@) =~= payload_lines(
        parsed@,
        targets,
        comment@,
        max_hunk_lines as int,
    ));
    text::join_strings(output.as_slice(), "\n")
}

} // verus!
