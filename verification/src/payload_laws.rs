//! What holds of every text that is copied for a comment.

use crate::diff_parser::{DiffLineView, HunkView, ParsedDiffView};
use crate::parser_laws;
use crate::payload;
use vstd::prelude::*;

verus! {

/// The lines at the places of a hunk from `start` up to `end`.
pub open spec fn hunk_raws(parsed: ParsedDiffView, hunk: HunkView, start: int, end: int) -> Seq<
    Seq<char>,
> {
    Seq::new(
        if start < end {
            (end - start) as nat
        } else {
            0
        },
        |k: int| payload::hunk_raw(parsed, hunk, start + k),
    )
}

/// Of a hunk as many lines are shown as are asked for, or all the selected lines where they are
/// more; and the selected lines, from place `first` to place `last`, are among them.
pub proof fn law_window_holds_selection(len: int, first: int, last: int, max_lines: int)
    requires
        0 <= first <= last < len,
    ensures
        ({
            let (start, end) = payload::window_bounds(len, first, last, max_lines);
            &&& 0 <= start <= first
            &&& last < end <= len
            &&& end - start <= payload::window_size(first, last, max_lines)
        }),
{
}

/// Places without an end of the selection are shown as they are.
proof fn lemma_plain_rows(
    parsed: ParsedDiffView,
    hunk: HunkView,
    start: int,
    end: int,
    first: int,
    last: int,
    count: int,
    comment: Seq<char>,
)
    requires
        start <= end,
        end <= first || last < start,
        first <= last,
    ensures
        payload::window_rows(parsed, hunk, start, end, first, last, count, comment) == hunk_raws(
            parsed,
            hunk,
            start,
            end,
        ),
    decreases end - start,
{
    let rows = payload::window_rows(parsed, hunk, start, end, first, last, count, comment);
    if start < end {
        lemma_plain_rows(parsed, hunk, start, end - 1, first, last, count, comment);
        assert(hunk_raws(parsed, hunk, start, end) =~= hunk_raws(
            parsed,
            hunk,
            start,
            end - 1,
        ).push(payload::hunk_raw(parsed, hunk, end - 1)));
        assert(rows =~= hunk_raws(parsed, hunk, start, end));
    } else {
        assert(rows =~= hunk_raws(parsed, hunk, start, end));
    }
}

/// The places up to `mid` are shown before those from `mid` on.
proof fn lemma_split_rows(
    parsed: ParsedDiffView,
    hunk: HunkView,
    start: int,
    mid: int,
    end: int,
    first: int,
    last: int,
    count: int,
    comment: Seq<char>,
)
    requires
        start <= mid <= end,
    ensures
        payload::window_rows(parsed, hunk, start, end, first, last, count, comment)
            == payload::window_rows(parsed, hunk, start, mid, first, last, count, comment)
            + payload::window_rows(parsed, hunk, mid, end, first, last, count, comment),
    decreases end - mid,
{
    let whole = payload::window_rows(parsed, hunk, start, end, first, last, count, comment);
    let head = payload::window_rows(parsed, hunk, start, mid, first, last, count, comment);
    let tail = payload::window_rows(parsed, hunk, mid, end, first, last, count, comment);
    if mid == end {
        assert(whole =~= head + tail);
    } else {
        lemma_split_rows(parsed, hunk, start, mid, end - 1, first, last, count, comment);
        assert(whole =~= head + tail);
    }
}

/// What is shown of the selected lines: the start marker, the lines, the end marker where there is
/// more than one, and immediately after them the comment.
pub open spec fn marked_block(
    parsed: ParsedDiffView,
    hunk: HunkView,
    first: int,
    last: int,
    count: int,
    comment: Seq<char>,
) -> Seq<Seq<char>> {
    seq![payload::start_marker(count)] + hunk_raws(parsed, hunk, first, last + 1)
        + payload::end_marker(count) + payload::comment_lines(comment)
}

/// The selected lines are shown as a marked block.
proof fn lemma_block_rows(
    parsed: ParsedDiffView,
    hunk: HunkView,
    first: int,
    last: int,
    count: int,
    comment: Seq<char>,
)
    requires
        first <= last,
    ensures
        payload::window_rows(parsed, hunk, first, last + 1, first, last, count, comment)
            == marked_block(parsed, hunk, first, last, count, comment),
{
    let rows = payload::window_rows(parsed, hunk, first, last + 1, first, last, count, comment);
    let wanted = marked_block(parsed, hunk, first, last, count, comment);
    let none = payload::window_rows(parsed, hunk, first, first, first, last, count, comment);
    if first == last {
        assert(none =~= seq![]);
        assert(hunk_raws(parsed, hunk, first, last + 1) =~= seq![
            payload::hunk_raw(parsed, hunk, first),
        ]);
        assert(rows =~= wanted);
    } else {
        lemma_open_rows(parsed, hunk, first, last, last, count, comment);
        assert(hunk_raws(parsed, hunk, first, last + 1) =~= hunk_raws(
            parsed,
            hunk,
            first,
            last,
        ).push(payload::hunk_raw(parsed, hunk, last)));
        assert(rows =~= wanted);
    }
}

/// The selected lines before place `end` are shown behind the start marker.
proof fn lemma_open_rows(
    parsed: ParsedDiffView,
    hunk: HunkView,
    first: int,
    end: int,
    last: int,
    count: int,
    comment: Seq<char>,
)
    requires
        first < end <= last,
    ensures
        payload::window_rows(parsed, hunk, first, end, first, last, count, comment) == seq![
            payload::start_marker(count),
        ] + hunk_raws(parsed, hunk, first, end),
    decreases end - first,
{
    let rows = payload::window_rows(parsed, hunk, first, end, first, last, count, comment);
    let none = payload::window_rows(parsed, hunk, first, first, first, last, count, comment);
    if end == first + 1 {
        assert(none =~= seq![]);
        assert(hunk_raws(parsed, hunk, first, end) =~= seq![
            payload::hunk_raw(parsed, hunk, first),
        ]);
        assert(rows =~= seq![payload::start_marker(count)] + hunk_raws(parsed, hunk, first, end));
    } else {
        lemma_open_rows(parsed, hunk, first, end - 1, last, count, comment);
        assert(hunk_raws(parsed, hunk, first, end) =~= hunk_raws(
            parsed,
            hunk,
            first,
            end - 1,
        ).push(payload::hunk_raw(parsed, hunk, end - 1)));
        assert(rows =~= seq![payload::start_marker(count)] + hunk_raws(parsed, hunk, first, end));
    }
}

/// What is shown before the marked block: the header of the hunk, dots where lines are left out,
/// and the lines before the selected ones.
pub open spec fn block_head(parsed: ParsedDiffView, hunk: HunkView, start: int, first: int) -> Seq<
    Seq<char>,
> {
    seq![hunk.header] + (if start > 0 {
        seq!["..."@]
    } else {
        seq![]
    }) + hunk_raws(parsed, hunk, start, first)
}

/// Where the selected lines belong to one hunk, the text shows the hunk's header, lines before the
/// selected ones, the selected lines between their markers with the comment immediately after
/// them, and lines after them.
pub proof fn law_payload_marks_selection(
    parsed: ParsedDiffView,
    targets: Seq<DiffLineView>,
    comment: Seq<char>,
    max_lines: int,
)
    requires
        payload::target_place(parsed, targets) matches Some((hunk, first, last)) && last
            < hunk.line_indices.len() && payload::places_valid(
            parsed,
            hunk,
            0,
            hunk.line_indices.len() as int,
        ),
    ensures
        ({
            let (hunk, first, last) = payload::target_place(parsed, targets)->0;
            let (start, end) = payload::window_bounds(
                hunk.line_indices.len() as int,
                first as int,
                last as int,
                max_lines,
            );
            payload::hunk_window(parsed, targets, comment, max_lines) == Some(
                block_head(parsed, hunk, start, first as int) + marked_block(
                    parsed,
                    hunk,
                    first as int,
                    last as int,
                    targets.len() as int,
                    comment,
                ) + hunk_raws(parsed, hunk, last + 1, end),
            )
        }),
{
    let (hunk, first, last) = payload::target_place(parsed, targets)->0;
    let (a, b) = (first as int, last as int);
    let len = hunk.line_indices.len() as int;
    let count = targets.len() as int;
    let (start, end) = payload::window_bounds(len, a, b, max_lines);
    law_window_holds_selection(len, a, b, max_lines);
    assert(payload::places_valid(parsed, hunk, start, end));
    lemma_split_rows(parsed, hunk, start, a, end, a, b, count, comment);
    lemma_split_rows(parsed, hunk, a, b + 1, end, a, b, count, comment);
    lemma_plain_rows(parsed, hunk, start, a, a, b, count, comment);
    lemma_plain_rows(parsed, hunk, b + 1, end, a, b, count, comment);
    lemma_block_rows(parsed, hunk, a, b, count, comment);
    let head = block_head(parsed, hunk, start, a);
    let block = marked_block(parsed, hunk, a, b, count, comment);
    let tail = hunk_raws(parsed, hunk, b + 1, end);
    let dots = if start > 0 {
        seq!["..."@]
    } else {
        seq![]
    };
    let before = seq![hunk.header] + dots;
    assert(before + (hunk_raws(parsed, hunk, start, a) + (block + tail)) =~= head + block + tail);
}

/// The lines are lines of one hunk of the diff, in their order.
pub open spec fn is_selection(parsed: ParsedDiffView, targets: Seq<DiffLineView>, h: int) -> bool {
    &&& targets.len() > 0
    &&& 0 <= h < parsed.hunks.len()
    &&& h <= usize::MAX
    &&& forall|k: int|
        0 <= k < targets.len() ==> (#[trigger] targets[k]).hunk_index == Some(h as usize)
            && targets[k].hunk_line_index is Some && parsed.lines.contains(targets[k])
    &&& forall|a: int, b: int|
        0 <= a <= b < targets.len() ==> (#[trigger] targets[a]).hunk_line_index->0 <= (
        #[trigger] targets[b]).hunk_line_index->0
}

/// Of lines of one hunk that are selected in a diff that was read, each stands in the text that is
/// copied between the markers.
pub proof fn law_payload_keeps_selected_lines(
    parsed: ParsedDiffView,
    targets: Seq<DiffLineView>,
    h: int,
    k: int,
)
    requires
        parser_laws::is_consistent(parsed),
        is_selection(parsed, targets, h),
        0 <= k < targets.len(),
    ensures
        ({
            let hunk = parsed.hunks[h];
            let first = targets.first().hunk_line_index->0;
            let last = targets.last().hunk_line_index->0;
            &&& payload::target_place(parsed, targets) == Some((hunk, first, last))
            &&& last < hunk.line_indices.len()
            &&& payload::places_valid(parsed, hunk, 0, hunk.line_indices.len() as int)
            &&& hunk_raws(parsed, hunk, first as int, last + 1).contains(targets[k].raw)
        }),
{
    let hunk = parsed.hunks[h];
    let n = targets.len() - 1;
    assert(targets[0].hunk_index == Some(h as usize));
    assert(targets[n].hunk_index == Some(h as usize));
    assert(targets[0].hunk_line_index->0 <= targets[n].hunk_line_index->0);
    let first = targets.first().hunk_line_index->0 as int;
    let last = targets.last().hunk_line_index->0 as int;
    assert forall|i: int| 0 <= i < hunk.line_indices.len() implies (
    #[trigger] hunk.line_indices[i]) < parsed.lines.len() by {
        assert(parser_laws::body_line_ok(parsed.lines, parsed.hunks, h, i));
    }
    lemma_place_of(parsed, targets[n], h);
    lemma_place_of(parsed, targets[k], h);
    let place = targets[k].hunk_line_index->0 as int;
    assert(targets[0].hunk_line_index->0 <= targets[k].hunk_line_index->0);
    assert(targets[k].hunk_line_index->0 <= targets[n].hunk_line_index->0);
    let raws = hunk_raws(parsed, hunk, first, last + 1);
    assert(raws[place - first] == targets[k].raw);
}

/// A line of a hunk stands at its place in the hunk.
proof fn lemma_place_of(parsed: ParsedDiffView, line: DiffLineView, h: int)
    requires
        parser_laws::is_consistent(parsed),
        0 <= h < parsed.hunks.len(),
        h <= usize::MAX,
        line.hunk_index == Some(h as usize),
        line.hunk_line_index is Some,
        parsed.lines.contains(line),
    ensures
        line.hunk_line_index->0 < parsed.hunks[h].line_indices.len(),
        payload::hunk_raw(parsed, parsed.hunks[h], line.hunk_line_index->0 as int) == line.raw,
{
    let i = choose|i: int| 0 <= i < parsed.lines.len() && parsed.lines[i] == line;
    assert(parser_laws::line_ok(parsed.lines, parsed.hunks, i));
}

} // verus!
