//! What holds of every diff that is read: no line is lost, lines and hunks refer to each other, the
//! lines are numbered as in the files, and diffs can be put together.

use crate::diff_parser;
use crate::diff_parser::{
    DiffLineView, HunkHeaderView, HunkView, LineKind, ParseState, ParsedDiffView,
};
use crate::text;
use vstd::prelude::*;

verus! {

/// How many of the first `count` lines of a hunk are lines of the old file.
pub open spec fn old_before(lines: Seq<DiffLineView>, hunk: HunkView, count: int) -> nat
    decreases count,
{
    if count <= 0 {
        0
    } else {
        let before = old_before(lines, hunk, count - 1);
        if diff_parser::in_old(lines[hunk.line_indices[count - 1] as int].kind) {
            before + 1
        } else {
            before
        }
    }
}

/// How many of the first `count` lines of a hunk are lines of the new file.
pub open spec fn new_before(lines: Seq<DiffLineView>, hunk: HunkView, count: int) -> nat
    decreases count,
{
    if count <= 0 {
        0
    } else {
        let before = new_before(lines, hunk, count - 1);
        if diff_parser::in_new(lines[hunk.line_indices[count - 1] as int].kind) {
            before + 1
        } else {
            before
        }
    }
}

/// The line number `count` lines after `start`; numbers stop at the largest.
pub open spec fn number_after(start: usize, count: nat) -> usize {
    if start + count <= usize::MAX {
        (start + count) as usize
    } else {
        usize::MAX
    }
}

/// A line of this kind can be selected.
pub open spec fn is_selectable_kind(kind: LineKind) -> bool {
    kind == LineKind::Add || kind == LineKind::Delete || kind == LineKind::Context
}

/// A line of the body of hunk `h` knows its hunk and its place in it, belongs to the hunk's file,
/// and has the line numbers that it has in the files.
pub open spec fn body_line_ok(lines: Seq<DiffLineView>, hunks: Seq<HunkView>, h: int, j: int) -> bool {
    let hunk = hunks[h];
    let i = hunk.line_indices[j] as int;
    let line = lines[i];
    &&& i < lines.len()
    &&& line.hunk_index == Some(h as usize)
    &&& line.hunk_line_index == Some(j as usize)
    &&& line.file_path == hunk.file_path
    &&& line.old_lineno == if diff_parser::in_old(line.kind) {
        Some(number_after(hunk.old_start, old_before(lines, hunk, j)))
    } else {
        None
    }
    &&& line.new_lineno == if diff_parser::in_new(line.kind) {
        Some(number_after(hunk.new_start, new_before(lines, hunk, j)))
    } else {
        None
    }
}

/// A line can be selected by its kind, and a line that is in a hunk is listed there; other lines
/// have no line numbers.
pub open spec fn line_ok(lines: Seq<DiffLineView>, hunks: Seq<HunkView>, i: int) -> bool {
    let line = lines[i];
    &&& line.selectable == is_selectable_kind(line.kind)
    &&& line.selectable ==> line.hunk_line_index is Some
    &&& match line.hunk_line_index {
        Some(j) => match line.hunk_index {
            Some(h) => h < hunks.len() && j < hunks[h as int].line_indices.len()
                && hunks[h as int].line_indices[j as int] == i,
            None => false,
        },
        None => line.old_lineno is None && line.new_lineno is None,
    }
}

/// A hunk knows its index, and lists its lines in their order.
pub open spec fn hunk_ok(hunks: Seq<HunkView>, h: int) -> bool {
    &&& hunks[h].index == h
    &&& forall|a: int, b: int|
        0 <= a < b < hunks[h].line_indices.len() ==> (#[trigger] hunks[h].line_indices[a]) < (
        #[trigger] hunks[h].line_indices[b])
}

/// Lines and hunks refer to each other.
pub open spec fn is_consistent(parsed: ParsedDiffView) -> bool {
    &&& forall|i: int|
        0 <= i < parsed.lines.len() ==> #[trigger] line_ok(parsed.lines, parsed.hunks, i)
    &&& forall|h: int| 0 <= h < parsed.hunks.len() ==> #[trigger] hunk_ok(parsed.hunks, h)
    &&& forall|h: int, j: int|
        0 <= h < parsed.hunks.len() && 0 <= j < parsed.hunks[h].line_indices.len()
            ==> #[trigger] body_line_ok(parsed.lines, parsed.hunks, h, j)
}

/// What holds in the middle of a diff.
spec fn state_ok(state: ParseState, raws: Seq<Seq<char>>) -> bool {
    &&& state.lines.len() == raws.len()
    &&& state.hunks.len() <= raws.len()
    &&& forall|i: int| 0 <= i < raws.len() ==> (#[trigger] state.lines[i]).raw == raws[i]
    &&& is_consistent(ParsedDiffView { lines: state.lines, hunks: state.hunks })
    &&& state.current_hunk matches Some(h) ==> {
        let hunk = state.hunks[h as int];
        let count = hunk.line_indices.len() as int;
        &&& h < state.hunks.len()
        &&& state.old_cursor == number_after(hunk.old_start, old_before(state.lines, hunk, count))
        &&& state.new_cursor == number_after(hunk.new_start, new_before(state.lines, hunk, count))
    }
}

/// The counts depend on the lines of the hunk alone.
proof fn lemma_before_same(
    lines: Seq<DiffLineView>,
    more: Seq<DiffLineView>,
    hunk: HunkView,
    other: HunkView,
    count: int,
)
    requires
        0 <= count <= hunk.line_indices.len(),
        count <= other.line_indices.len(),
        forall|k: int|
            0 <= k < count ==> (#[trigger] hunk.line_indices[k]) == other.line_indices[k]
                && hunk.line_indices[k] < lines.len(),
        lines.len() <= more.len(),
        forall|i: int| 0 <= i < lines.len() ==> (#[trigger] lines[i]) == more[i],
    ensures
        old_before(more, other, count) == old_before(lines, hunk, count),
        new_before(more, other, count) == new_before(lines, hunk, count),
    decreases count,
{
    if count > 0 {
        lemma_before_same(lines, more, hunk, other, count - 1);
        assert(hunk.line_indices[count - 1] == other.line_indices[count - 1]);
        assert(lines[hunk.line_indices[count - 1] as int] == more[hunk.line_indices[count
            - 1] as int]);
    }
}

/// A line outside the bodies of hunks, with or without a new hunk, keeps what holds.
proof fn lemma_plain_step(
    state: ParseState,
    raws: Seq<Seq<char>>,
    line: DiffLineView,
    hunks: Seq<HunkView>,
    next: ParseState,
)
    requires
        state_ok(state, raws),
        raws.len() < usize::MAX,
        line.hunk_line_index is None,
        !line.selectable,
        !is_selectable_kind(line.kind),
        line.old_lineno is None,
        line.new_lineno is None,
        hunks == state.hunks || (hunks.len() == state.hunks.len() + 1 && hunks.take(
            state.hunks.len() as int,
        ) == state.hunks && hunks.last().index == state.hunks.len()
            && hunks.last().line_indices.len() == 0),
        next.lines == state.lines.push(line),
        next.hunks == hunks,
        next.current_hunk is None || next.current_hunk == state.current_hunk && hunks
            == state.hunks && next.old_cursor == state.old_cursor && next.new_cursor
            == state.new_cursor || next.current_hunk == Some(state.hunks.len() as usize)
            && hunks.len() == state.hunks.len() + 1 && next.old_cursor == hunks.last().old_start
            && next.new_cursor == hunks.last().new_start,
    ensures
        state_ok(next, raws.push(line.raw)),
{
    let all = ParsedDiffView { lines: state.lines, hunks: state.hunks };
    let more = ParsedDiffView { lines: next.lines, hunks: next.hunks };
    let n = state.hunks.len() as int;
    assert forall|h: int| 0 <= h < n implies hunks[h] == state.hunks[h] by {
        if hunks != state.hunks {
            assert(hunks.take(n)[h] == hunks[h]);
        }
    }
    assert forall|h: int, j: int|
        0 <= h < hunks.len() && 0 <= j < hunks[h].line_indices.len() implies #[trigger] body_line_ok(
        more.lines,
        more.hunks,
        h,
        j,
    ) by {
        if h < n {
            assert(body_line_ok(all.lines, all.hunks, h, j));
            let hunk = state.hunks[h];
            assert forall|k: int| 0 <= k < j implies (#[trigger] hunk.line_indices[k])
                < state.lines.len() by {
                assert(body_line_ok(all.lines, all.hunks, h, k));
            }
            lemma_before_same(state.lines, next.lines, hunk, hunk, j);
        }
    }
    assert forall|i: int| 0 <= i < next.lines.len() implies #[trigger] line_ok(
        more.lines,
        more.hunks,
        i,
    ) by {
        if i < state.lines.len() {
            assert(line_ok(all.lines, all.hunks, i));
        }
    }
    assert forall|h: int| 0 <= h < hunks.len() implies #[trigger] hunk_ok(more.hunks, h) by {
        if h < n {
            assert(hunk_ok(all.hunks, h));
        }
    }
    if let Some(h) = next.current_hunk {
        if h < n {
            let hunk = state.hunks[h as int];
            let count = hunk.line_indices.len() as int;
            assert forall|k: int| 0 <= k < count implies (#[trigger] hunk.line_indices[k])
                < state.lines.len() by {
                assert(body_line_ok(all.lines, all.hunks, h as int, k));
            }
            lemma_before_same(state.lines, next.lines, hunk, hunk, count);
        }
    }
    assert forall|i: int| 0 <= i < raws.push(line.raw).len() implies (
    #[trigger] next.lines[i]).raw == raws.push(line.raw)[i] by {
        if i < raws.len() {
            assert(state.lines[i].raw == raws[i]);
        }
    }
}

/// A line of the body of a hunk keeps what holds.
proof fn lemma_body_step(
    state: ParseState,
    raws: Seq<Seq<char>>,
    raw: Seq<char>,
    h: usize,
    kind: LineKind,
)
    requires
        state_ok(state, raws),
        raws.len() < usize::MAX,
        state.current_hunk == Some(h),
        diff_parser::hunk_line_kind(raw) == Some(kind),
    ensures
        state_ok(state.hunk_body_line(raw, h, kind), raws.push(raw)),
{
    let next = state.hunk_body_line(raw, h, kind);
    let all = ParsedDiffView { lines: state.lines, hunks: state.hunks };
    let more = ParsedDiffView { lines: next.lines, hunks: next.hunks };
    let hunk = state.hunks[h as int];
    let count = hunk.line_indices.len() as int;
    let last = state.lines.len() as int;
    let grown = next.hunks[h as int];
    assert(hunk_ok(all.hunks, h as int));
    assert(count <= state.lines.len()) by {
        if count > 0 {
            lemma_place(state.lines, state.hunks, h as int, count - 1);
        }
    }
    assert forall|k: int| 0 <= k < count implies (#[trigger] hunk.line_indices[k])
        < state.lines.len() by {
        assert(body_line_ok(all.lines, all.hunks, h as int, k));
    }
    assert(grown.line_indices == hunk.line_indices.push(last as usize));
    lemma_before_same(state.lines, next.lines, hunk, grown, count);
    assert forall|g: int, j: int|
        0 <= g < next.hunks.len() && 0 <= j < next.hunks[g].line_indices.len() implies #[trigger] body_line_ok(
        more.lines,
        more.hunks,
        g,
        j,
    ) by {
        if g != h {
            assert(body_line_ok(all.lines, all.hunks, g, j));
            let other = state.hunks[g];
            assert(next.hunks[g] == other);
            assert forall|k: int| 0 <= k < j implies (#[trigger] other.line_indices[k])
                < state.lines.len() by {
                assert(body_line_ok(all.lines, all.hunks, g, k));
            }
            lemma_before_same(state.lines, next.lines, other, other, j);
        } else if j < count {
            assert(body_line_ok(all.lines, all.hunks, g, j));
            lemma_before_same(state.lines, next.lines, hunk, grown, j);
        }
    }
    assert forall|i: int| 0 <= i < next.lines.len() implies #[trigger] line_ok(
        more.lines,
        more.hunks,
        i,
    ) by {
        if i < last {
            assert(line_ok(all.lines, all.hunks, i));
        } else {
            assert(grown.line_indices[count] == last);
        }
    }
    assert forall|g: int| 0 <= g < next.hunks.len() implies #[trigger] hunk_ok(more.hunks, g) by {
        assert(hunk_ok(all.hunks, g));
        if g != h {
            assert(next.hunks[g] == state.hunks[g]);
        }
    }
    assert forall|i: int| 0 <= i < raws.push(raw).len() implies (#[trigger] next.lines[i]).raw
        == raws.push(raw)[i] by {
        if i < raws.len() {
            assert(state.lines[i].raw == raws[i]);
        }
    }
}

/// The line at place `j` of a hunk comes after at least `j` lines.
proof fn lemma_place(lines: Seq<DiffLineView>, hunks: Seq<HunkView>, h: int, j: int)
    requires
        0 <= h < hunks.len(),
        0 <= j < hunks[h].line_indices.len(),
        is_consistent(ParsedDiffView { lines, hunks }),
    ensures
        j <= hunks[h].line_indices[j] < lines.len(),
    decreases j,
{
    let all = ParsedDiffView { lines, hunks };
    assert(body_line_ok(all.lines, all.hunks, h, j));
    if j > 0 {
        lemma_place(lines, hunks, h, j - 1);
        assert(hunk_ok(all.hunks, h));
        assert(hunks[h].line_indices[j - 1] < hunks[h].line_indices[j]);
    }
}

/// Any line keeps what holds.
proof fn lemma_step(state: ParseState, raws: Seq<Seq<char>>, raw: Seq<char>)
    requires
        state_ok(state, raws),
        raws.len() < usize::MAX,
    ensures
        state_ok(state.step(raw), raws.push(raw)),
{
    let next = state.step(raw);
    if diff_parser::git_header_paths(raw) is None && !text::starts_with(raw, "--- "@)
        && !text::starts_with(raw, "+++ "@) && diff_parser::hunk_header_of(raw) is None
        && state.current_hunk is Some && diff_parser::hunk_line_kind(raw) is Some {
        lemma_body_step(
            state,
            raws,
            raw,
            state.current_hunk->0,
            diff_parser::hunk_line_kind(raw)->0,
        );
    } else {
        if next.hunks.len() > state.hunks.len() {
            assert(next.hunks.take(state.hunks.len() as int) =~= state.hunks);
        }
        lemma_plain_step(state, raws, next.lines.last(), next.hunks, next);
    }
}

/// What holds after any lines.
proof fn lemma_parse_lines(raws: Seq<Seq<char>>)
    requires
        raws.len() <= usize::MAX,
    ensures
        state_ok(diff_parser::parse_lines(raws), raws),
    decreases raws.len(),
{
    if raws.len() > 0 {
        lemma_parse_lines(raws.drop_last());
        lemma_step(diff_parser::parse_lines(raws.drop_last()), raws.drop_last(), raws.last());
        assert(raws.drop_last().push(raws.last()) =~= raws);
    }
}

/// There are as many lines as were read, and no more hunks than that.
pub proof fn lemma_parse_lens(raws: Seq<Seq<char>>)
    requires
        raws.len() <= usize::MAX,
    ensures
        diff_parser::parse_lines(raws).lines.len() == raws.len(),
        diff_parser::parse_lines(raws).hunks.len() <= raws.len(),
{
    lemma_parse_lines(raws);
}

/// Reading a diff loses no line: the lines of the diff are the lines of the text, in their order.
pub proof fn law_parsing_keeps_lines(diff: Seq<char>)
    requires
        text::lines_of(diff).len() <= usize::MAX,
    ensures
        diff_parser::parsed_diff(diff).lines.map_values(|line: DiffLineView| line.raw)
            == text::lines_of(diff),
{
    let raws = text::lines_of(diff);
    lemma_parse_lines(raws);
    let lines = diff_parser::parsed_diff(diff).lines;
    assert forall|i: int| 0 <= i < raws.len() implies lines[i].raw == raws[i] by {
        assert(diff_parser::parse_lines(raws).lines[i].raw == raws[i]);
    }
    assert(lines.map_values(|line: DiffLineView| line.raw) =~= raws);
}

/// In a diff that was read, exactly the added, deleted and context lines can be selected; hunks
/// list their lines in their order; each line of a hunk knows its hunk and its place in it; and
/// from the numbers in the hunk's header on, the lines of each file are numbered one by one.
pub proof fn law_parsing_is_consistent(diff: Seq<char>)
    requires
        text::lines_of(diff).len() <= usize::MAX,
    ensures
        is_consistent(diff_parser::parsed_diff(diff)),
{
    lemma_parse_lines(text::lines_of(diff));
}

/// A line of a diff that stands behind another with `hunks` hunks.
pub open spec fn moved_line(line: DiffLineView, hunks: int) -> DiffLineView {
    DiffLineView {
        hunk_index: match line.hunk_index {
            Some(h) => Some((hunks + h) as usize),
            None => None,
        },
        ..line
    }
}

/// A hunk of a diff that stands behind another with `lines` lines and `hunks` hunks.
pub open spec fn moved_hunk(hunk: HunkView, lines: int, hunks: int) -> HunkView {
    HunkView {
        index: (hunks + hunk.index) as usize,
        line_indices: hunk.line_indices.map_values(|i: usize| (lines + i) as usize),
        ..hunk
    }
}

/// Two diffs, one behind the other: the lines and hunks of the second are numbered on from those of
/// the first.
pub open spec fn joined(first: ParsedDiffView, second: ParsedDiffView) -> ParsedDiffView {
    let lines = first.lines.len() as int;
    let hunks = first.hunks.len() as int;
    ParsedDiffView {
        lines: first.lines + second.lines.map_values(
            |line: DiffLineView| moved_line(line, hunks),
        ),
        hunks: first.hunks + second.hunks.map_values(
            |hunk: HunkView| moved_hunk(hunk, lines, hunks),
        ),
    }
}

/// What is known after the lines of `first` and then those of `second` is `both`.
spec fn is_join(first: ParseState, second: ParseState, both: ParseState) -> bool {
    &&& ParsedDiffView { lines: both.lines, hunks: both.hunks } == joined(
        ParsedDiffView { lines: first.lines, hunks: first.hunks },
        ParsedDiffView { lines: second.lines, hunks: second.hunks },
    )
    &&& both.current_file == second.current_file
    &&& both.old_file == second.old_file
    &&& match second.current_hunk {
        Some(h) => {
            &&& h < second.hunks.len()
            &&& both.current_hunk == Some((first.hunks.len() + h) as usize)
            &&& both.old_cursor == second.old_cursor
            &&& both.new_cursor == second.new_cursor
        },
        None => both.current_hunk is None,
    }
}

/// A line of the body of a hunk keeps the two in step.
proof fn lemma_join_body(
    first: ParseState,
    second: ParseState,
    both: ParseState,
    raw: Seq<char>,
    h: usize,
    kind: LineKind,
)
    requires
        is_join(first, second, both),
        first.lines.len() + second.lines.len() < usize::MAX,
        first.hunks.len() + second.hunks.len() < usize::MAX,
        second.current_hunk == Some(h),
    ensures
        is_join(
            first,
            second.hunk_body_line(raw, h, kind),
            both.hunk_body_line(raw, (first.hunks.len() + h) as usize, kind),
        ),
{
    let lines = first.lines.len() as int;
    let hunks = first.hunks.len() as int;
    let g = (hunks + h) as usize;
    let next = second.hunk_body_line(raw, h, kind);
    let all = both.hunk_body_line(raw, g, kind);
    let line_fn = |line: DiffLineView| moved_line(line, hunks);
    let hunk_fn = |hunk: HunkView| moved_hunk(hunk, lines, hunks);
    let index_fn = |i: usize| (lines + i) as usize;
    let hunk = second.hunks[h as int];
    assert(both.hunks[g as int] == moved_hunk(hunk, lines, hunks));
    assert(all.lines =~= first.lines + next.lines.map_values(line_fn)) by {
        assert(both.lines.len() == lines + second.lines.len());
        assert(next.lines.map_values(line_fn) =~= second.lines.map_values(line_fn).push(
            line_fn(next.lines.last()),
        ));
    }
    assert(all.hunks[g as int] == moved_hunk(next.hunks[h as int], lines, hunks)) by {
        assert(hunk.line_indices.push(second.lines.len() as usize).map_values(index_fn)
            =~= hunk.line_indices.map_values(index_fn).push(both.lines.len() as usize));
    }
    assert(all.hunks =~= first.hunks + next.hunks.map_values(hunk_fn)) by {
        assert forall|k: int| 0 <= k < all.hunks.len() implies #[trigger] all.hunks[k] == (
        first.hunks + next.hunks.map_values(hunk_fn))[k] by {
            if k != g {
                assert(all.hunks[k] == both.hunks[k]);
            }
        }
    }
}

/// A hunk header keeps the two in step.
proof fn lemma_join_header(
    first: ParseState,
    second: ParseState,
    both: ParseState,
    raw: Seq<char>,
    header: HunkHeaderView,
)
    requires
        is_join(first, second, both),
        first.hunks.len() + second.hunks.len() < usize::MAX,
    ensures
        is_join(
            first,
            second.hunk_header_line(raw, header),
            both.hunk_header_line(raw, header),
        ),
{
    let lines = first.lines.len() as int;
    let hunks = first.hunks.len() as int;
    let next = second.hunk_header_line(raw, header);
    let all = both.hunk_header_line(raw, header);
    let line_fn = |line: DiffLineView| moved_line(line, hunks);
    let hunk_fn = |hunk: HunkView| moved_hunk(hunk, lines, hunks);
    assert(both.hunks.len() == hunks + second.hunks.len());
    assert(all.lines =~= first.lines + next.lines.map_values(line_fn)) by {
        assert(next.lines.map_values(line_fn) =~= second.lines.map_values(line_fn).push(
            line_fn(next.lines.last()),
        ));
    }
    assert(all.hunks.last() == hunk_fn(next.hunks.last())) by {
        let none: Seq<usize> = seq![];
        assert(none.map_values(|i: usize| (lines + i) as usize) =~= none);
    }
    assert(all.hunks =~= first.hunks + next.hunks.map_values(hunk_fn)) by {
        assert(next.hunks.map_values(hunk_fn) =~= second.hunks.map_values(hunk_fn).push(
            hunk_fn(next.hunks.last()),
        ));
    }
}

/// A line outside the bodies of hunks keeps the two in step.
proof fn lemma_join_plain(
    first: ParseState,
    second: ParseState,
    both: ParseState,
    line: DiffLineView,
    next: ParseState,
    all: ParseState,
)
    requires
        is_join(first, second, both),
        line.hunk_index is None,
        next.lines == second.lines.push(line),
        all.lines == both.lines.push(line),
        next.hunks == second.hunks,
        all.hunks == both.hunks,
        next.current_file == all.current_file,
        next.old_file == all.old_file,
        next.current_hunk == second.current_hunk && all.current_hunk == both.current_hunk
            || next.current_hunk is None && all.current_hunk is None,
        next.old_cursor == second.old_cursor && all.old_cursor == both.old_cursor,
        next.new_cursor == second.new_cursor && all.new_cursor == both.new_cursor,
    ensures
        is_join(first, next, all),
{
    let hunks = first.hunks.len() as int;
    let line_fn = |line: DiffLineView| moved_line(line, hunks);
    assert(moved_line(line, hunks) == line);
    assert(all.lines =~= first.lines + next.lines.map_values(line_fn)) by {
        assert(next.lines.map_values(line_fn) =~= second.lines.map_values(line_fn).push(line));
    }
}

/// Any line keeps the two in step.
proof fn lemma_join_step(first: ParseState, second: ParseState, both: ParseState, raw: Seq<char>)
    requires
        is_join(first, second, both),
        first.lines.len() + second.lines.len() < usize::MAX,
        first.hunks.len() + second.hunks.len() < usize::MAX,
    ensures
        is_join(first, second.step(raw), both.step(raw)),
{
    let next = second.step(raw);
    let all = both.step(raw);
    if diff_parser::git_header_paths(raw) is Some || text::starts_with(raw, "--- "@)
        || text::starts_with(raw, "+++ "@) {
        lemma_join_plain(first, second, both, next.lines.last(), next, all);
    } else if let Some(header) = diff_parser::hunk_header_of(raw) {
        lemma_join_header(first, second, both, raw, header);
    } else {
        match (second.current_hunk, diff_parser::hunk_line_kind(raw)) {
            (Some(h), Some(kind)) => lemma_join_body(first, second, both, raw, h, kind),
            _ => lemma_join_plain(first, second, both, next.lines.last(), next, all),
        }
    }
}

/// Lines that begin with a `diff --git` line are read alike at the start and behind other lines.
proof fn lemma_join_lines(before: Seq<Seq<char>>, raws: Seq<Seq<char>>)
    requires
        raws.len() > 0,
        diff_parser::git_header_paths(raws[0]) is Some,
        before.len() + raws.len() <= usize::MAX,
    ensures
        is_join(
            diff_parser::parse_lines(before),
            diff_parser::parse_lines(raws),
            diff_parser::parse_lines(before + raws),
        ),
    decreases raws.len(),
{
    let init = raws.drop_last();
    let first = diff_parser::parse_lines(before);
    let second = diff_parser::parse_lines(init);
    let both = diff_parser::parse_lines(before + init);
    assert((before + raws).drop_last() =~= before + init);
    assert((before + raws).last() == raws.last());
    if init.len() > 0 {
        lemma_join_lines(before, init);
        lemma_parse_lens(before);
        lemma_parse_lens(init);
        lemma_join_step(first, second, both, raws.last());
    } else {
        assert(before + init =~= before);
        let next = second.step(raws.last());
        let all = both.step(raws.last());
        let hunks = first.hunks.len() as int;
        let line_fn = |line: DiffLineView| moved_line(line, hunks);
        let hunk_fn = |hunk: HunkView| moved_hunk(hunk, first.lines.len() as int, hunks);
        assert(next.lines.map_values(line_fn) =~= next.lines);
        assert(all.lines =~= first.lines + next.lines.map_values(line_fn));
        assert(all.hunks =~= first.hunks + next.hunks.map_values(hunk_fn));
    }
}

/// Two diffs of which the first ends with a line feed, or is empty, and the second begins with a
/// `diff --git` line, or is empty, can be put together: reading the whole gives the lines and hunks
/// of the first and behind them those of the second, numbered on.
pub proof fn law_diffs_join(first: Seq<char>, second: Seq<char>)
    requires
        first.len() == 0 || first.last() == '\n',
        second.len() == 0 || diff_parser::git_header_paths(text::lines_of(second)[0]) is Some,
        text::lines_of(first).len() + text::lines_of(second).len() <= usize::MAX,
    ensures
        diff_parser::parsed_diff(first + second) == joined(
            diff_parser::parsed_diff(first),
            diff_parser::parsed_diff(second),
        ),
{
    text::lemma_lines_concat(first, second);
    if second.len() == 0 {
        let whole = diff_parser::parsed_diff(first);
        let none = diff_parser::parsed_diff(second);
        assert(first + second =~= first);
        assert(joined(whole, none).lines =~= whole.lines);
        assert(joined(whole, none).hunks =~= whole.hunks);
    } else {
        lemma_join_lines(text::lines_of(first), text::lines_of(second));
    }
}

} // verus!
