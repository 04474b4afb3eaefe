//! How the text that is copied for a comment names the lines, and what stands where in it.

use crate::diff_parser::{DiffLineView, HunkView, ParsedDiffView};
use crate::number;
use crate::payload;
use crate::payload_laws;
use crate::text;
use crate::untracked_laws;
use vstd::prelude::*;

verus! {

/// The lines from number `a` to number `b`, in words.
pub open spec fn numbered(a: usize, b: usize) -> Seq<char> {
    if a == b {
        "line "@ + number::decimal(a as nat)
    } else {
        "lines "@ + number::decimal(a as nat) + "-"@ + number::decimal(b as nat)
    }
}

/// Line `i` is the first with a number in the old file.
pub open spec fn first_old(lines: Seq<DiffLineView>, i: int) -> bool {
    &&& 0 <= i < lines.len() && lines[i].old_lineno is Some
    &&& forall|j: int| 0 <= j < i ==> (#[trigger] lines[j]).old_lineno is None
}

/// Line `i` is the last with a number in the old file.
pub open spec fn last_old(lines: Seq<DiffLineView>, i: int) -> bool {
    &&& 0 <= i < lines.len() && lines[i].old_lineno is Some
    &&& forall|j: int| i < j < lines.len() ==> (#[trigger] lines[j]).old_lineno is None
}

/// Line `i` is the first with a number in the new file.
pub open spec fn first_new(lines: Seq<DiffLineView>, i: int) -> bool {
    &&& 0 <= i < lines.len() && lines[i].new_lineno is Some
    &&& forall|j: int| 0 <= j < i ==> (#[trigger] lines[j]).new_lineno is None
}

/// Line `i` is the last with a number in the new file.
pub open spec fn last_new(lines: Seq<DiffLineView>, i: int) -> bool {
    &&& 0 <= i < lines.len() && lines[i].new_lineno is Some
    &&& forall|j: int| i < j < lines.len() ==> (#[trigger] lines[j]).new_lineno is None
}

/// No line has a number in the old file.
pub open spec fn none_old(lines: Seq<DiffLineView>) -> bool {
    forall|j: int| 0 <= j < lines.len() ==> (#[trigger] lines[j]).old_lineno is None
}

/// No line has a number in the new file.
pub open spec fn none_new(lines: Seq<DiffLineView>) -> bool {
    forall|j: int| 0 <= j < lines.len() ==> (#[trigger] lines[j]).new_lineno is None
}

/// Where no line has a number there are no numbers.
proof fn lemma_no_values(lines: Seq<DiffLineView>, f: spec_fn(DiffLineView) -> Option<usize>)
    requires
        forall|j: int| 0 <= j < lines.len() ==> f(#[trigger] lines[j]) is None,
    ensures
        lines.filter_map(f).len() == 0,
    decreases lines.len(),
{
    reveal(Seq::filter_map);
    if lines.len() > 0 {
        let init = lines.drop_last();
        assert forall|j: int| 0 <= j < init.len() implies f(#[trigger] init[j]) is None by {
            assert(init[j] == lines[j]);
        }
        lemma_no_values(init, f);
        assert(f(lines[lines.len() - 1]) is None);
    }
}

/// The first of the numbers is that of the first line that has one.
proof fn lemma_first_value(
    lines: Seq<DiffLineView>,
    f: spec_fn(DiffLineView) -> Option<usize>,
    i: int,
)
    requires
        0 <= i < lines.len(),
        f(lines[i]) is Some,
        forall|j: int| 0 <= j < i ==> f(#[trigger] lines[j]) is None,
    ensures
        lines.filter_map(f).len() > 0,
        lines.filter_map(f).first() == f(lines[i])->0,
    decreases lines.len(),
{
    reveal(Seq::filter_map);
    let init = lines.drop_last();
    assert forall|j: int| 0 <= j < i implies f(#[trigger] init[j]) is None by {
        assert(init[j] == lines[j]);
    }
    if i == lines.len() - 1 {
        lemma_no_values(init, f);
    } else {
        lemma_first_value(init, f, i);
    }
}

/// The last of the numbers is that of the last line that has one.
proof fn lemma_last_value(
    lines: Seq<DiffLineView>,
    f: spec_fn(DiffLineView) -> Option<usize>,
    i: int,
)
    requires
        0 <= i < lines.len(),
        f(lines[i]) is Some,
        forall|j: int| i < j < lines.len() ==> f(#[trigger] lines[j]) is None,
    ensures
        lines.filter_map(f).len() > 0,
        lines.filter_map(f).last() == f(lines[i])->0,
    decreases lines.len(),
{
    reveal(Seq::filter_map);
    if i < lines.len() - 1 {
        let init = lines.drop_last();
        assert forall|j: int| i < j < init.len() implies f(#[trigger] init[j]) is None by {
            assert(init[j] == lines[j]);
        }
        lemma_last_value(init, f, i);
        assert(f(lines[lines.len() - 1]) is None);
    }
}

/// The numbers in the old file, by the first and the last line that has one.
proof fn lemma_old_ends(lines: Seq<DiffLineView>, a: int, b: int)
    requires
        first_old(lines, a),
        last_old(lines, b),
    ensures
        payload::old_numbers(lines).len() > 0,
        payload::old_numbers(lines).first() == lines[a].old_lineno->0,
        payload::old_numbers(lines).last() == lines[b].old_lineno->0,
{
    let f = |line: DiffLineView| line.old_lineno;
    lemma_first_value(lines, f, a);
    lemma_last_value(lines, f, b);
}

/// The numbers in the new file, by the first and the last line that has one.
proof fn lemma_new_ends(lines: Seq<DiffLineView>, a: int, b: int)
    requires
        first_new(lines, a),
        last_new(lines, b),
    ensures
        payload::new_numbers(lines).len() > 0,
        payload::new_numbers(lines).first() == lines[a].new_lineno->0,
        payload::new_numbers(lines).last() == lines[b].new_lineno->0,
{
    let f = |line: DiffLineView| line.new_lineno;
    lemma_first_value(lines, f, a);
    lemma_last_value(lines, f, b);
}

/// A numeral has no dash.
proof fn lemma_no_dash(n: usize)
    ensures
        !number::decimal(n as nat).contains('-'),
{
    number::lemma_decimal(n as nat);
    let s = number::decimal(n as nat);
    assert forall|j: int| 0 <= j < s.len() implies s[j] != '-' by {
        assert(number::is_digit(s[j]));
    }
}

/// A span in words.
proof fn lemma_span(values: Seq<usize>)
    requires
        values.len() > 0,
    ensures
        payload::span_text(values) is Some,
        payload::qualified_span(payload::span_text(values)->0) == numbered(
            values.first(),
            values.last(),
        ),
{
    reveal_strlit("-");
    let (a, b) = (values.first(), values.last());
    let span = payload::span_text(values)->0;
    lemma_no_dash(a);
    if a != b {
        let n = number::decimal(a as nat).len() as int;
        assert(span[n] == '-');
        assert(span.contains('-'));
        assert("lines "@ + span =~= numbered(a, b));
    }
}

/// Spans of different numbers are different.
#[verifier::spinoff_prover]
proof fn lemma_spans_differ(a: Seq<usize>, b: Seq<usize>)
    requires
        a.len() > 0,
        b.len() > 0,
        payload::span_text(a) == payload::span_text(b),
    ensures
        a.first() == b.first(),
        a.last() == b.last(),
{
    reveal_strlit("-");
    let s = payload::span_text(a)->0;
    let t = payload::span_text(b)->0;
    let (p, q) = (number::decimal(a.first() as nat), number::decimal(b.first() as nat));
    lemma_no_dash(a.first());
    lemma_no_dash(b.first());
    number::lemma_decimal(a.first() as nat);
    number::lemma_decimal(b.first() as nat);
    number::lemma_decimal(a.last() as nat);
    number::lemma_decimal(b.last() as nat);
    if a.first() != a.last() {
        assert(s[p.len() as int] == '-');
        if b.first() == b.last() {
            assert(q.contains('-'));
        } else {
            assert(t[q.len() as int] == '-');
            if p.len() < q.len() {
                assert(q[p.len() as int] == t[p.len() as int]);
                assert(q.contains('-'));
            }
            if q.len() < p.len() {
                assert(p[q.len() as int] == s[q.len() as int]);
                assert(p.contains('-'));
            }
            assert(p =~= s.take(p.len() as int));
            assert(q =~= t.take(q.len() as int));
            assert(number::decimal(a.last() as nat) =~= s.skip(p.len() as int + 1));
            assert(number::decimal(b.last() as nat) =~= t.skip(q.len() as int + 1));
        }
    } else if b.first() != b.last() {
        assert(t[q.len() as int] == '-');
        assert(p.contains('-'));
    }
}

/// Of several lines of which none is in the new file, such as deleted ones, the place names the old
/// file, with the first and the last number there.
pub proof fn law_place_of_deleted_lines(lines: Seq<DiffLineView>, a: int, b: int)
    requires
        lines.len() > 1,
        none_new(lines),
        first_old(lines, a),
        last_old(lines, b),
    ensures
        payload::target_lines_text(lines) == "old "@ + numbered(
            lines[a].old_lineno->0,
            lines[b].old_lineno->0,
        ),
{
    lemma_old_ends(lines, a, b);
    lemma_span(payload::old_numbers(lines));
    lemma_no_values(lines, |line: DiffLineView| line.new_lineno);
}

/// Of several lines of which none is in the old file, such as added ones, the place names the new
/// file, with the first and the last number there.
pub proof fn law_place_of_added_lines(lines: Seq<DiffLineView>, a: int, b: int)
    requires
        lines.len() > 1,
        none_old(lines),
        first_new(lines, a),
        last_new(lines, b),
    ensures
        payload::target_lines_text(lines) == "new "@ + numbered(
            lines[a].new_lineno->0,
            lines[b].new_lineno->0,
        ),
{
    lemma_new_ends(lines, a, b);
    lemma_span(payload::new_numbers(lines));
    lemma_no_values(lines, |line: DiffLineView| line.old_lineno);
}

/// Of several lines of both files the place gives the numbers in each and how many lines there are;
/// where all are lines of both files with the same first and the same last number, it gives these
/// once.
#[verifier::spinoff_prover]
pub proof fn law_place_of_mixed_lines(lines: Seq<DiffLineView>, a: int, b: int, c: int, d: int)
    requires
        lines.len() > 1,
        first_old(lines, a),
        last_old(lines, b),
        first_new(lines, c),
        last_new(lines, d),
    ensures
        ({
            let (p, q) = (lines[a].old_lineno->0, lines[b].old_lineno->0);
            let (r, s) = (lines[c].new_lineno->0, lines[d].new_lineno->0);
            let same = p == r && q == s && forall|j: int|
                0 <= j < lines.len() ==> (#[trigger] lines[j]).old_lineno is Some
                    && lines[j].new_lineno is Some;
            &&& same && p != q ==> payload::target_lines_text(lines) == "lines "@
                + number::decimal(p as nat) + "-"@ + number::decimal(q as nat)
            &&& same && p == q ==> payload::target_lines_text(lines) == "lines "@
                + number::decimal(p as nat)
            &&& !same ==> payload::target_lines_text(lines) == "old "@ + numbered(p, q) + " / new "@
                + numbered(r, s) + " ("@ + number::decimal(lines.len()) + " diff lines)"@
        }),
{
    lemma_old_ends(lines, a, b);
    lemma_new_ends(lines, c, d);
    let old = payload::old_numbers(lines);
    let new = payload::new_numbers(lines);
    lemma_span(old);
    lemma_span(new);
    let (p, q) = (lines[a].old_lineno->0, lines[b].old_lineno->0);
    let (r, s) = (lines[c].new_lineno->0, lines[d].new_lineno->0);
    let same = p == r && q == s && forall|j: int|
        0 <= j < lines.len() ==> (#[trigger] lines[j]).old_lineno is Some
            && lines[j].new_lineno is Some;
    assert(same ==> payload::all_context(lines));
    if payload::span_text(old) == payload::span_text(new) {
        lemma_spans_differ(old, new);
    }
    if same && p != q {
        assert("lines "@ + (number::decimal(p as nat) + "-"@ + number::decimal(q as nat))
            =~= "lines "@ + number::decimal(p as nat) + "-"@ + number::decimal(q as nat));
    }
}

/// The place of lines without numbers is how many they are; that of a single line is its number in
/// the new file, or in the old file where it is in no other.
pub proof fn law_place_of_other_lines(lines: Seq<DiffLineView>)
    ensures
        lines.len() > 1 && none_old(lines) && none_new(lines) ==> payload::target_lines_text(lines)
            == number::decimal(lines.len()) + " diff lines"@,
        lines.len() == 1 ==> (lines[0].new_lineno matches Some(n) ==> payload::target_lines_text(
            lines,
        ) == "line "@ + number::decimal(n as nat)),
        lines.len() == 1 && lines[0].new_lineno is None ==> (lines[0].old_lineno matches Some(n)
            ==> payload::target_lines_text(lines) == "line "@ + number::decimal(n as nat)),
        lines.len() == 1 && lines[0].new_lineno is None && lines[0].old_lineno is None
            ==> payload::target_lines_text(lines) == "line "@ + "unknown"@,
{
    if none_old(lines) && none_new(lines) {
        lemma_no_values(lines, |line: DiffLineView| line.old_lineno);
        lemma_no_values(lines, |line: DiffLineView| line.new_lineno);
    }
}

/// What a single line is called: context with both numbers, added or deleted with its own.
pub proof fn law_description_of_a_line(line: DiffLineView)
    ensures
        line.old_lineno matches Some(old) ==> (line.new_lineno matches Some(new)
            ==> payload::target_text(line) == "context line old:"@ + number::decimal(old as nat)
            + " new:"@ + number::decimal(new as nat)),
        line.old_lineno is None ==> (line.new_lineno matches Some(new) ==> payload::target_text(line)
            == "added line new:"@ + number::decimal(new as nat)),
        line.new_lineno is None ==> (line.old_lineno matches Some(old) ==> payload::target_text(line)
            == "deleted line old:"@ + number::decimal(old as nat)),
{
}

/// Joining lines that are put between others.
#[verifier::spinoff_prover]
proof fn lemma_join_frame(x: Seq<char>, y: Seq<char>, body: Seq<Seq<char>>)
    requires
        body.len() > 0,
    ensures
        text::join(seq![x, y, seq![]] + body + seq![seq![]], "\n"@) == x + "\n"@ + y + "\n\n"@
            + text::join(body, "\n"@) + "\n"@,
{
    reveal_strlit("\n");
    reveal_strlit("\n\n");
    let sep = "\n"@;
    let none: Seq<char> = seq![];
    let head = seq![x, y, none];
    text::lemma_join_concat(head + body, seq![none], sep);
    text::lemma_join_concat(head, body, sep);
    text::lemma_join_concat(seq![x, y], seq![none], sep);
    text::lemma_join_concat(seq![x], seq![y], sep);
    assert(seq![x] + seq![y] =~= seq![x, y]);
    assert(seq![x, y] + seq![none] =~= head);
    assert(text::join(seq![none], sep) == none);
    assert(text::join(seq![x], sep) == x);
    assert(text::join(seq![y], sep) == y);
    assert(text::join(head + body + seq![none], sep) =~= x + "\n"@ + y + "\n\n"@ + text::join(
        body,
        sep,
    ) + "\n"@);
}

/// The text that is copied names the file and the place in its first two lines; behind an empty
/// line stand the lines of the diff with the comment, and a line feed ends it.
pub proof fn law_payload_names_file_and_place(
    parsed: ParsedDiffView,
    targets: Seq<DiffLineView>,
    comment: Seq<char>,
    max_lines: int,
    rows: Seq<Seq<char>>,
)
    requires
        targets.len() > 0,
        payload::hunk_window(parsed, targets, comment, max_lines) == Some(rows) || (
        payload::hunk_window(parsed, targets, comment, max_lines) is None && rows
            == payload::bare_targets(targets, comment)),
    ensures
        targets[0].file_path matches Some(path) ==> payload::review_payload(
            parsed,
            targets,
            comment,
            max_lines,
        ) == "File: "@ + path + "\n"@ + ("My comment at "@ + payload::target_lines_text(targets))
            + "\n\n"@ + text::join(rows, "\n"@) + "\n"@,
        targets[0].file_path is None ==> payload::review_payload(
            parsed,
            targets,
            comment,
            max_lines,
        ) == "File: "@ + "(unknown file)"@ + "\n"@ + ("My comment at "@
            + payload::target_lines_text(targets)) + "\n\n"@ + text::join(rows, "\n"@) + "\n"@,
{
    let x = "File: "@ + payload::file_name(targets[0]);
    let y = "My comment at "@ + payload::target_lines_text(targets);
    assert(rows.len() > 0);
    lemma_join_frame(x, y, rows);
}

/// Lines that are not all of one hunk are all shown between the markers, with the comment behind
/// them.
pub proof fn law_payload_across_hunks(
    parsed: ParsedDiffView,
    targets: Seq<DiffLineView>,
    comment: Seq<char>,
    max_lines: int,
    a: int,
    b: int,
)
    requires
        0 <= a < b < targets.len(),
        targets[a].hunk_index != targets[b].hunk_index,
    ensures
        payload::hunk_window(parsed, targets, comment, max_lines) is None,
        ({
            let rows = payload::bare_targets(targets, comment);
            let n = targets.len() as int;
            &&& rows.len() > n + 2
            &&& rows[0] == ">> target start"@
            &&& forall|k: int| 0 <= k < n ==> (#[trigger] rows[k + 1]) == targets[k].raw
            &&& rows[n + 1] == ">> target end"@
            &&& rows.skip(n + 2) == payload::comment_lines(comment)
        }),
{
    let rows = payload::bare_targets(targets, comment);
    let n = targets.len() as int;
    if payload::hunk_window(parsed, targets, comment, max_lines) is Some {
        assert(targets[a].hunk_index == targets[b].hunk_index);
    }
    assert(payload::comment_lines(comment).len() > 0);
    assert forall|k: int| 0 <= k < n implies (#[trigger] rows[k + 1]) == targets[k].raw by {
        assert(payload::raw_texts(targets)[k] == targets[k].raw);
    }
    assert(rows.skip(n + 2) =~= payload::comment_lines(comment));
}

/// The larger of two numbers.
pub open spec fn at_least(n: int, least: int) -> int {
    if n < least {
        least
    } else {
        n
    }
}

/// Of a hunk that is not longer than the limit, or than the selection, all is shown. Of a longer one
/// exactly the selection is shown where that reaches the limit; else the lines that the limit leaves
/// stand around it, half of them before it as far as the hunk reaches, and the rest behind.
#[verifier::spinoff_prover]
pub proof fn law_window_shape(len: int, first: int, last: int, max_lines: int)
    requires
        0 <= first <= last < len,
    ensures
        ({
            let (start, end) = payload::window_bounds(len, first, last, max_lines);
            let count = last - first + 1;
            let limit = at_least(max_lines, 1);
            let half = (limit - count) / 2;
            &&& len <= limit || len <= count ==> start == 0 && end == len
            &&& len > count && len > limit && count >= limit ==> start == first && end == last + 1
            &&& len > limit && count < limit ==> {
                &&& first >= half ==> first - start == half
                &&& first < half ==> start == 0
                &&& start + limit <= len ==> end - start == limit
                &&& start + limit > len ==> end == len
            }
        }),
{
}

/// The marked lines of one hunk in the text that is copied: the marker, the selected lines, for
/// several lines a marker behind them, and the comment; dots stand behind the header where lines of
/// the hunk are left out before them.
#[verifier::spinoff_prover]
pub proof fn law_marked_lines(
    parsed: ParsedDiffView,
    hunk: HunkView,
    start: int,
    first: int,
    last: int,
    count: int,
    comment: Seq<char>,
)
    requires
        0 <= start <= first <= last,
    ensures
        ({
            let block = payload_laws::marked_block(parsed, hunk, first, last, count, comment);
            let head = payload_laws::block_head(parsed, hunk, start, first);
            let n = last - first + 1;
            let gap: int = if start > 0 {
                2
            } else {
                1
            };
            &&& count > 1 ==> block[0] == ">> target start"@ && block[n + 1] == ">> target end"@
                && block.skip(n + 2) == payload::comment_lines(comment)
            &&& count <= 1 ==> block[0] == ">> target:"@ && block.skip(n + 1)
                == payload::comment_lines(comment)
            &&& forall|k: int|
                0 <= k < n ==> (#[trigger] block[k + 1])
                    == parsed.lines[hunk.line_indices[first + k] as int].raw
            &&& head[0] == hunk.header
            &&& start > 0 ==> head[1] == "..."@
            &&& head.len() == gap + first - start
            &&& forall|k: int|
                0 <= k < first - start ==> (#[trigger] head[gap + k])
                    == parsed.lines[hunk.line_indices[start + k] as int].raw
        }),
{
    let block = payload_laws::marked_block(parsed, hunk, first, last, count, comment);
    let n = last - first + 1;
    let raws = payload_laws::hunk_raws(parsed, hunk, first, last + 1);
    assert forall|k: int| 0 <= k < n implies (#[trigger] block[k + 1])
        == parsed.lines[hunk.line_indices[first + k] as int].raw by {
        assert(block[k + 1] == raws[k]);
    }
    if count > 1 {
        assert(block.skip(n + 2) =~= payload::comment_lines(comment));
    } else {
        assert(block.skip(n + 1) =~= payload::comment_lines(comment));
    }
}

/// A text in one line is its only line.
proof fn lemma_one_line(s: Seq<char>)
    requires
        s.len() > 0,
        untracked_laws::is_one_line(s),
    ensures
        text::lines_of(s) == seq![s],
{
    text::lemma_find_char_is(s, '\n', s.len() as int);
}

/// Lines that are joined are the lines of the whole.
proof fn lemma_lines_of_join(parts: Seq<Seq<char>>)
    requires
        parts.len() > 0,
        parts.last().len() > 0,
        forall|j: int|
            0 <= j < parts.len() ==> untracked_laws::is_one_line(#[trigger] parts[j])
                && text::chomp_cr(parts[j]) == parts[j],
    ensures
        text::lines_of(text::join(parts, "\n"@)) == parts,
    decreases parts.len(),
{
    if parts.len() == 1 {
        assert(untracked_laws::is_one_line(parts[0]));
        lemma_one_line(parts[0]);
        assert(seq![parts[0]] =~= parts);
    } else {
        let rest = parts.drop_first();
        assert forall|j: int| 0 <= j < rest.len() implies untracked_laws::is_one_line(
            #[trigger] rest[j],
        ) && text::chomp_cr(rest[j]) == rest[j] by {
            assert(rest[j] == parts[j + 1]);
        }
        lemma_lines_of_join(rest);
        assert(seq![parts[0]] + rest =~= parts);
        text::lemma_join_concat(seq![parts[0]], rest, "\n"@);
        assert(text::join(seq![parts[0]], "\n"@) == parts[0]);
        assert(parts[0] + "\n"@ + text::join(rest, "\n"@) =~= parts[0] + ("\n"@ + text::join(
            rest,
            "\n"@,
        )));
        assert(untracked_laws::is_one_line(parts[0]));
        untracked_laws::lemma_first_line(parts[0], text::join(rest, "\n"@));
    }
}

/// The last character of joined lines is that of the last line.
proof fn lemma_join_last(parts: Seq<Seq<char>>)
    requires
        parts.len() > 0,
        parts.last().len() > 0,
    ensures
        text::join(parts, "\n"@).len() > 0,
        text::join(parts, "\n"@).last() == parts.last().last(),
{
}

/// A comment of one line stands in one line behind `>> comment: `; of a longer one a heading stands
/// before its lines, and each of them behind `>> `. White space at its end is left out.
pub proof fn law_comment_is_shown(parts: Seq<Seq<char>>, blank: Seq<char>)
    requires
        parts.len() > 0,
        parts.last().len() > 0,
        !text::is_white_space(parts.last().last()),
        forall|j: int|
            0 <= j < parts.len() ==> untracked_laws::is_one_line(#[trigger] parts[j])
                && text::chomp_cr(parts[j]) == parts[j],
        forall|j: int| 0 <= j < blank.len() ==> text::is_white_space(#[trigger] blank[j]),
    ensures
        ({
            let shown = payload::comment_lines(text::join(parts, "\n"@) + blank);
            &&& parts.len() == 1 ==> shown == seq![">> comment: "@ + parts[0]]
            &&& parts.len() > 1 ==> {
                &&& shown.len() == parts.len() + 1
                &&& shown[0] == ">> comment:"@
                &&& forall|k: int| 0 <= k < parts.len() ==> (#[trigger] shown[k + 1]) == ">> "@ + parts[k]
            }
        }),
{
    let comment = text::join(parts, "\n"@);
    lemma_lines_of_join(parts);
    lemma_join_last(parts);
    lemma_trimmed(comment, blank);
    let shown = payload::comment_lines(comment + blank);
    if parts.len() > 1 {
        assert forall|k: int| 0 <= k < parts.len() implies (#[trigger] shown[k + 1]) == ">> "@
            + parts[k] by {
            assert(payload::with_prefix(parts, ">> "@)[k] == ">> "@ + parts[k]);
        }
    }
}

/// White space behind a text is removed.
proof fn lemma_trimmed(s: Seq<char>, blank: Seq<char>)
    requires
        s.len() > 0,
        !text::is_white_space(s.last()),
        forall|j: int| 0 <= j < blank.len() ==> text::is_white_space(#[trigger] blank[j]),
    ensures
        text::trim_end(s + blank) == s,
    decreases blank.len(),
{
    if blank.len() == 0 {
        assert(s + blank =~= s);
    } else {
        let rest = blank.drop_last();
        assert(text::is_white_space(blank[blank.len() - 1]));
        assert((s + blank).drop_last() =~= s + rest);
        assert forall|j: int| 0 <= j < rest.len() implies text::is_white_space(#[trigger] rest[j]) by {
            assert(rest[j] == blank[j]);
        }
        lemma_trimmed(s, rest);
    }
}

} // verus!
