//! What each line of a diff is read as, by the lines around it.

use crate::diff_parser;
use crate::diff_parser::{DiffLineView, HunkHeaderView, LineKind, ParseState};
use crate::number;
use crate::parser_laws;
use crate::text;
use crate::untracked_laws;
use vstd::prelude::*;

verus! {

/// The line begins as the lines of a hunk do.
pub open spec fn is_marked(raw: Seq<char>) -> bool {
    raw.len() > 0 && (raw[0] == '+' || raw[0] == '-' || raw[0] == ' ' || raw[0] == '\\')
}

/// The line names the old or the new file.
pub open spec fn is_path_line(raw: Seq<char>) -> bool {
    text::starts_with(raw, "--- "@) || text::starts_with(raw, "+++ "@)
}

/// The line names both files.
pub open spec fn is_git_line(raw: Seq<char>) -> bool {
    diff_parser::git_header_paths(raw) is Some
}

/// The line is the header of a hunk.
pub open spec fn opens_hunk(raw: Seq<char>) -> bool {
    diff_parser::hunk_header_of(raw) is Some
}

/// Line `p` is the header of a hunk, and all lines behind it begin as the lines of a hunk do.
pub open spec fn is_open_from(raws: Seq<Seq<char>>, p: int) -> bool {
    &&& 0 <= p < raws.len()
    &&& opens_hunk(raws[p])
    &&& forall|j: int| p < j < raws.len() ==> is_marked(#[trigger] raws[j])
}

/// Line `i` is a line of the hunk whose header is line `p`: from the header to it all lines begin
/// as the lines of a hunk do, and it names no file itself.
pub open spec fn is_in_hunk_of(raws: Seq<Seq<char>>, p: int, i: int) -> bool {
    &&& 0 <= p < i < raws.len()
    &&& opens_hunk(raws[p])
    &&& forall|j: int| p < j <= i ==> is_marked(#[trigger] raws[j])
    &&& !is_path_line(raws[i])
}

/// How many of the lines from `from` up to `to` name no file.
pub open spec fn body_count(raws: Seq<Seq<char>>, from: int, to: int) -> nat
    decreases to - from,
{
    if to <= from {
        0
    } else {
        body_count(raws, from, to - 1) + if is_path_line(raws[to - 1]) {
            0nat
        } else {
            1nat
        }
    }
}

/// How many of the lines from `from` up to `to` name no file and begin with `mark` or a space.
pub open spec fn side_count(raws: Seq<Seq<char>>, from: int, to: int, mark: char) -> nat
    decreases to - from,
{
    if to <= from {
        0
    } else {
        let raw = raws[to - 1];
        side_count(raws, from, to - 1, mark) + if !is_path_line(raw) && raw.len() > 0 && (raw[0]
            == mark || raw[0] == ' ') {
            1nat
        } else {
            0nat
        }
    }
}

/// How many of the first `to` lines are headers of hunks.
pub open spec fn header_count(raws: Seq<Seq<char>>, to: int) -> nat
    decreases to,
{
    if to <= 0 {
        0
    } else {
        header_count(raws, to - 1) + if opens_hunk(raws[to - 1]) {
            1nat
        } else {
            0nat
        }
    }
}

/// How a line begins tells what it can be.
proof fn lemma_first_char(raw: Seq<char>)
    ensures
        opens_hunk(raw) ==> raw.len() > 0 && raw[0] == '@',
        is_git_line(raw) ==> raw.len() > 0 && raw[0] == 'd',
        text::starts_with(raw, "--- "@) ==> raw.len() > 0 && raw[0] == '-',
        text::starts_with(raw, "+++ "@) ==> raw.len() > 0 && raw[0] == '+',
{
    reveal_strlit("@@ ");
    reveal_strlit("diff --git ");
    reveal_strlit("--- ");
    reveal_strlit("+++ ");
    if text::starts_with(raw, "@@ "@) {
        assert(raw.take(3)[0] == '@');
    }
    if text::starts_with(raw, "diff --git "@) {
        assert(raw.take("diff --git "@.len() as int)[0] == 'd');
    }
    if text::starts_with(raw, "--- "@) {
        assert(raw.take(4)[0] == '-');
    }
    if text::starts_with(raw, "+++ "@) {
        assert(raw.take(4)[0] == '+');
    }
}

/// The counts do not depend on later lines.
proof fn lemma_counts_prefix(raws: Seq<Seq<char>>, n: int, from: int, to: int, mark: char)
    requires
        0 <= from,
        to <= n <= raws.len(),
    ensures
        body_count(raws.take(n), from, to) == body_count(raws, from, to),
        side_count(raws.take(n), from, to, mark) == side_count(raws, from, to, mark),
        header_count(raws.take(n), to) == header_count(raws, to),
    decreases to - from, to,
{
    if from < to {
        lemma_counts_prefix(raws, n, from, to - 1, mark);
        assert(raws.take(n)[to - 1] == raws[to - 1]);
    } else if to > 0 {
        lemma_counts_prefix_headers(raws, n, to);
    }
}

/// The number of headers does not depend on later lines.
proof fn lemma_counts_prefix_headers(raws: Seq<Seq<char>>, n: int, to: int)
    requires
        to <= n <= raws.len(),
    ensures
        header_count(raws.take(n), to) == header_count(raws, to),
    decreases to,
{
    if to > 0 {
        lemma_counts_prefix_headers(raws, n, to - 1);
        assert(raws.take(n)[to - 1] == raws[to - 1]);
    }
}

/// The count is not larger than the number of lines.
proof fn lemma_body_count(raws: Seq<Seq<char>>, from: int, to: int)
    requires
        from <= to,
    ensures
        body_count(raws, from, to) <= to - from,
    decreases to - from,
{
    if from < to {
        lemma_body_count(raws, from, to - 1);
    }
}

/// There is one hunk for each header, and the current hunk is one of them.
proof fn lemma_hunk_count(raws: Seq<Seq<char>>)
    requires
        raws.len() <= usize::MAX,
    ensures
        diff_parser::parse_lines(raws).hunks.len() == header_count(raws, raws.len() as int),
        header_count(raws, raws.len() as int) <= raws.len(),
        diff_parser::parse_lines(raws).current_hunk matches Some(h) ==> h
            < diff_parser::parse_lines(raws).hunks.len(),
    decreases raws.len(),
{
    if raws.len() > 0 {
        let init = raws.drop_last();
        lemma_hunk_count(init);
        lemma_first_char(raws.last());
        assert(init =~= raws.take(raws.len() - 1));
        lemma_counts_prefix_headers(raws, raws.len() - 1, raws.len() - 1);
    }
}

/// What is known where a hunk is open.
spec fn open_state(raws: Seq<Seq<char>>, p: int, state: ParseState) -> bool {
    let n = raws.len() as int;
    let hunk = state.hunks.last();
    let head = state.lines[p];
    &&& state.lines.len() == n
    &&& state.hunks.len() == header_count(raws, p) + 1
    &&& state.hunks.len() <= n
    &&& state.current_hunk == Some(header_count(raws, p) as usize)
    &&& head.kind == LineKind::Hunk
    &&& head.hunk_index == Some(header_count(raws, p) as usize)
    &&& head.file_path == hunk.file_path
    &&& hunk.index == header_count(raws, p)
    &&& hunk.header == raws[p]
    &&& diff_parser::hunk_header_of(raws[p]) == Some(
        HunkHeaderView {
            old_start: hunk.old_start,
            old_count: hunk.old_count,
            new_start: hunk.new_start,
            new_count: hunk.new_count,
            section: hunk.section,
        },
    )
    &&& hunk.line_indices.len() == body_count(raws, p + 1, n)
    &&& state.old_cursor == parser_laws::number_after(
        hunk.old_start,
        side_count(raws, p + 1, n, '-'),
    )
    &&& state.new_cursor == parser_laws::number_after(
        hunk.new_start,
        side_count(raws, p + 1, n, '+'),
    )
}

/// Where a hunk is open, its header and its lines are known.
#[verifier::spinoff_prover]
proof fn lemma_open_from(raws: Seq<Seq<char>>, p: int)
    requires
        raws.len() <= usize::MAX,
        is_open_from(raws, p),
    ensures
        open_state(raws, p, diff_parser::parse_lines(raws)),
    decreases raws.len(),
{
    let n = raws.len() as int;
    let init = raws.drop_last();
    let raw = raws.last();
    let before = diff_parser::parse_lines(init);
    assert(init =~= raws.take(n - 1));
    parser_laws::lemma_parse_lens(init);
    lemma_first_char(raw);
    if p == n - 1 {
        lemma_hunk_count(init);
        lemma_counts_prefix_headers(raws, n - 1, p);
    } else {
        assert(is_marked(raws[n - 1]));
        assert forall|j: int| p < j < init.len() implies is_marked(#[trigger] init[j]) by {
            assert(init[j] == raws[j]);
        }
        lemma_open_from(init, p);
        lemma_counts_prefix(raws, n - 1, p + 1, n - 1, '-');
        lemma_counts_prefix(raws, n - 1, p + 1, n - 1, '+');
        lemma_counts_prefix_headers(raws, n - 1, p);
    }
}

/// A hunk is open only where a header stands and all lines behind it begin as lines of a hunk.
proof fn lemma_open_has_header(raws: Seq<Seq<char>>) -> (p: int)
    requires
        diff_parser::parse_lines(raws).current_hunk is Some,
    ensures
        is_open_from(raws, p),
    decreases raws.len(),
{
    let n = raws.len() as int;
    let init = raws.drop_last();
    let raw = raws.last();
    lemma_first_char(raw);
    if opens_hunk(raw) {
        n - 1
    } else {
        let p = lemma_open_has_header(init);
        assert(is_marked(raw));
        assert forall|j: int| p < j < n implies is_marked(#[trigger] raws[j]) by {
            if j < n - 1 {
                assert(is_marked(init[j]));
            }
        }
        p
    }
}

/// A line is read by the lines before it.
proof fn lemma_line_at(raws: Seq<Seq<char>>, i: int)
    requires
        raws.len() <= usize::MAX,
        0 <= i < raws.len(),
    ensures
        diff_parser::parse_lines(raws).lines.len() == raws.len(),
        diff_parser::parse_lines(raws).lines[i] == diff_parser::parse_lines(
            raws.take(i),
        ).step(raws[i]).lines[i],
    decreases raws.len(),
{
    parser_laws::lemma_parse_lens(raws);
    parser_laws::lemma_parse_lens(raws.drop_last());
    if i == raws.len() - 1 {
        assert(raws.take(i) =~= raws.drop_last());
    } else {
        lemma_line_at(raws.drop_last(), i);
        assert(raws.drop_last().take(i) =~= raws.take(i));
    }
}

/// A hunk keeps what its header says.
#[verifier::spinoff_prover]
proof fn lemma_hunk_stays(raws: Seq<Seq<char>>, n: int, h: int)
    requires
        raws.len() <= usize::MAX,
        0 <= n <= raws.len(),
        0 <= h < diff_parser::parse_lines(raws.take(n)).hunks.len(),
    ensures
        h < diff_parser::parse_lines(raws).hunks.len(),
        ({
            let a = diff_parser::parse_lines(raws.take(n)).hunks[h];
            let b = diff_parser::parse_lines(raws).hunks[h];
            &&& b.index == a.index && b.file_path == a.file_path && b.header == a.header
            &&& b.old_start == a.old_start && b.old_count == a.old_count
            &&& b.new_start == a.new_start && b.new_count == a.new_count
            &&& b.section == a.section
        }),
    decreases raws.len(),
{
    if n == raws.len() {
        assert(raws.take(n) =~= raws);
    } else {
        let init = raws.drop_last();
        assert(init.take(n) =~= raws.take(n));
        lemma_hunk_stays(init, n, h);
        lemma_hunk_count(init);
    }
}

/// From the header of a hunk on, each line that begins with `+`, `-`, a space or a backslash is a
/// line of that hunk, as long as no line begins otherwise; only lines that name a file are left out.
/// So a `+`, `-` or ` ` line there is added, deleted or context and can be selected, also where a
/// note stands before it; its line numbers count on from those in the header; and it belongs to the
/// file of the hunk.
#[verifier::spinoff_prover]
pub proof fn law_lines_of_a_hunk(diff: Seq<char>, p: int, i: int)
    requires
        text::lines_of(diff).len() <= usize::MAX,
        is_in_hunk_of(text::lines_of(diff), p, i),
    ensures
        ({
            let raws = text::lines_of(diff);
            let parsed = diff_parser::parsed_diff(diff);
            let head = parsed.lines[p];
            let line = parsed.lines[i];
            let h = header_count(raws, p) as int;
            let hunk = parsed.hunks[h];
            let header = diff_parser::hunk_header_of(raws[p])->0;
            let mark = raws[i][0];
            &&& h < parsed.hunks.len()
            &&& line.raw == raws[i]
            &&& line.hunk_index == Some(h as usize)
            &&& line.hunk_line_index == Some(body_count(raws, p + 1, i) as usize)
            &&& line.kind == (if mark == '+' {
                LineKind::Add
            } else if mark == '-' {
                LineKind::Delete
            } else if mark == ' ' {
                LineKind::Context
            } else {
                LineKind::Note
            })
            &&& line.selectable <==> mark != '\\'
            &&& line.old_lineno == if mark == '-' || mark == ' ' {
                Some(
                    parser_laws::number_after(
                        header.old_start,
                        side_count(raws, p + 1, i, '-'),
                    ),
                )
            } else {
                None
            }
            &&& line.new_lineno == if mark == '+' || mark == ' ' {
                Some(
                    parser_laws::number_after(
                        header.new_start,
                        side_count(raws, p + 1, i, '+'),
                    ),
                )
            } else {
                None
            }
            &&& line.file_path == head.file_path
            &&& hunk.line_indices.len() > body_count(raws, p + 1, i)
            &&& hunk.line_indices[body_count(raws, p + 1, i) as int] == i
        }),
{
    let raws = text::lines_of(diff);
    let parsed = diff_parser::parsed_diff(diff);
    let part = raws.take(i);
    assert(part[p] == raws[p]);
    assert forall|j: int| p < j < part.len() implies is_marked(#[trigger] part[j]) by {
        assert(part[j] == raws[j]);
    }
    lemma_open_from(part, p);
    lemma_line_at(raws, i);
    lemma_line_at(raws, p);
    lemma_line_at(part, p);
    assert(part.take(p) =~= raws.take(p));
    lemma_first_char(raws[i]);
    assert(is_marked(raws[i]));
    lemma_counts_prefix(raws, i, p + 1, i, '-');
    lemma_counts_prefix(raws, i, p + 1, i, '+');
    lemma_counts_prefix_headers(raws, i, p);
    lemma_body_count(raws, p + 1, i);
    let h = header_count(raws, p) as int;
    lemma_hunk_stays(raws, i, h);
    parser_laws::law_parsing_is_consistent(diff);
    assert(parser_laws::line_ok(parsed.lines, parsed.hunks, i));
}

/// The header of a hunk opens a hunk of its own, numbered from zero in the order of the headers,
/// with the numbers that the header holds.
pub proof fn law_header_opens_a_hunk(diff: Seq<char>, p: int)
    requires
        text::lines_of(diff).len() <= usize::MAX,
        0 <= p < text::lines_of(diff).len(),
        opens_hunk(text::lines_of(diff)[p]),
    ensures
        ({
            let raws = text::lines_of(diff);
            let parsed = diff_parser::parsed_diff(diff);
            let head = parsed.lines[p];
            let h = header_count(raws, p) as int;
            let hunk = parsed.hunks[h];
            &&& parsed.hunks.len() == header_count(raws, raws.len() as int)
            &&& h < parsed.hunks.len()
            &&& head.kind == LineKind::Hunk
            &&& head.hunk_index == Some(h as usize)
            &&& hunk.index == h
            &&& hunk.header == raws[p]
            &&& hunk.file_path == head.file_path
            &&& diff_parser::hunk_header_of(raws[p]) == Some(
                HunkHeaderView {
                    old_start: hunk.old_start,
                    old_count: hunk.old_count,
                    new_start: hunk.new_start,
                    new_count: hunk.new_count,
                    section: hunk.section,
                },
            )
        }),
{
    let raws = text::lines_of(diff);
    let part = raws.take(p + 1);
    assert(part[p] == raws[p]);
    assert(is_open_from(part, p));
    lemma_open_from(part, p);
    lemma_line_at(raws, p);
    lemma_line_at(part, p);
    assert(part.take(p) =~= raws.take(p));
    lemma_counts_prefix_headers(raws, p + 1, p);
    lemma_hunk_count(raws);
    lemma_hunk_stays(raws, p + 1, header_count(raws, p) as int);
}

/// A line that is in no hunk cannot be selected and has no line numbers: it is a file line where it
/// names both files, the header of a hunk, or else a line about the files.
#[verifier::spinoff_prover]
pub proof fn law_lines_outside_hunks(diff: Seq<char>, i: int)
    requires
        text::lines_of(diff).len() <= usize::MAX,
        0 <= i < text::lines_of(diff).len(),
        forall|p: int| !is_in_hunk_of(text::lines_of(diff), p, i),
    ensures
        ({
            let raws = text::lines_of(diff);
            let line = diff_parser::parsed_diff(diff).lines[i];
            &&& line.raw == raws[i]
            &&& !line.selectable
            &&& line.hunk_line_index is None
            &&& line.old_lineno is None
            &&& line.new_lineno is None
            &&& line.hunk_index is Some <==> opens_hunk(raws[i])
            &&& line.kind == (if is_git_line(raws[i]) {
                LineKind::File
            } else if opens_hunk(raws[i]) {
                LineKind::Hunk
            } else {
                LineKind::Meta
            })
        }),
{
    let raws = text::lines_of(diff);
    let part = raws.take(i);
    lemma_line_at(raws, i);
    parser_laws::lemma_parse_lens(part);
    lemma_first_char(raws[i]);
    if diff_parser::parse_lines(part).current_hunk is Some && is_marked(raws[i]) && !is_path_line(
        raws[i],
    ) {
        let p = lemma_open_has_header(part);
        assert(raws[p] == part[p]);
        assert forall|j: int| p < j <= i implies is_marked(#[trigger] raws[j]) by {
            if j < i {
                assert(is_marked(part[j]));
            }
        }
        assert(is_in_hunk_of(raws, p, i));
    }
}

/// None of the lines behind line `p` names both files or the new file.
spec fn no_new_name(raws: Seq<Seq<char>>, p: int) -> bool {
    forall|j: int|
        p < j < raws.len() ==> !is_git_line(#[trigger] raws[j]) && !text::starts_with(
            raws[j],
            "+++ "@,
        )
}

/// None of the lines behind line `q` names both files or the old file.
spec fn no_old_name(raws: Seq<Seq<char>>, q: int) -> bool {
    forall|j: int|
        q < j < raws.len() ==> !is_git_line(#[trigger] raws[j]) && !text::starts_with(
            raws[j],
            "--- "@,
        )
}

/// A `---` line and a `+++` line are told apart.
proof fn lemma_sides_differ(raw: Seq<char>)
    ensures
        !(text::starts_with(raw, "--- "@) && text::starts_with(raw, "+++ "@)),
        is_git_line(raw) ==> !is_path_line(raw),
{
    lemma_first_char(raw);
}

/// The old file that a `---` line names stays until another is named.
proof fn lemma_old_file(raws: Seq<Seq<char>>, q: int)
    requires
        0 <= q < raws.len(),
        text::starts_with(raws[q], "--- "@),
        no_old_name(raws, q),
    ensures
        diff_parser::parse_lines(raws).old_file == diff_parser::header_path(raws[q].skip(4)),
    decreases raws.len(),
{
    let init = raws.drop_last();
    lemma_sides_differ(raws.last());
    if q < raws.len() - 1 {
        assert forall|j: int| q < j < init.len() implies !is_git_line(#[trigger] init[j])
            && !text::starts_with(init[j], "--- "@) by {
            assert(init[j] == raws[j]);
        }
        lemma_old_file(init, q);
        assert(!is_git_line(raws[raws.len() - 1]));
    }
}

/// The current file stays until another is named.
proof fn lemma_current_file(raws: Seq<Seq<char>>, p: int)
    requires
        0 <= p < raws.len(),
        no_new_name(raws, p),
    ensures
        diff_parser::parse_lines(raws).current_file == diff_parser::parse_lines(
            raws.take(p + 1),
        ).current_file,
    decreases raws.len(),
{
    let init = raws.drop_last();
    if p == raws.len() - 1 {
        assert(raws.take(p + 1) =~= raws);
    } else {
        assert forall|j: int| p < j < init.len() implies !is_git_line(#[trigger] init[j])
            && !text::starts_with(init[j], "+++ "@) by {
            assert(init[j] == raws[j]);
        }
        lemma_current_file(init, p);
        assert(init.take(p + 1) =~= raws.take(p + 1));
        assert(!is_git_line(raws[raws.len() - 1]));
        assert(!text::starts_with(raws[raws.len() - 1], "+++ "@));
    }
}

/// A line outside the bodies of hunks belongs to the file that was named last: by a `diff --git`
/// line the new one of its two, by a `+++` line the one that it names, or, where that names none
/// because the file is deleted, the one that the `---` line before it names.
#[verifier::spinoff_prover]
pub proof fn law_line_belongs_to_the_file_named_last(diff: Seq<char>, p: int, i: int)
    requires
        text::lines_of(diff).len() <= usize::MAX,
        0 <= p <= i < text::lines_of(diff).len(),
        forall|j: int|
            p < j <= i ==> !is_git_line(#[trigger] text::lines_of(diff)[j]) && !text::starts_with(
                text::lines_of(diff)[j],
                "+++ "@,
            ),
        forall|b: int| !is_in_hunk_of(text::lines_of(diff), b, i),
    ensures
        ({
            let raws = text::lines_of(diff);
            let file = diff_parser::parsed_diff(diff).lines[i].file_path;
            &&& diff_parser::git_header_paths(raws[p]) matches Some((old, new)) ==> file == new
            &&& text::starts_with(raws[p], "+++ "@) && diff_parser::header_path(
                raws[p].skip(4),
            ) is Some ==> file == diff_parser::header_path(raws[p].skip(4))
            &&& forall|q: int|
                text::starts_with(raws[p], "+++ "@) && diff_parser::header_path(
                    raws[p].skip(4),
                ) is None && 0 <= q < p && text::starts_with(#[trigger] raws[q], "--- "@) && (
                forall|j: int|
                    q < j < p ==> !is_git_line(#[trigger] raws[j]) && !text::starts_with(
                        raws[j],
                        "--- "@,
                    )) ==> file == diff_parser::header_path(raws[q].skip(4))
        }),
{
    let raws = text::lines_of(diff);
    let part = raws.take(i);
    let upto = raws.take(i + 1);
    let head = raws.take(p + 1);
    let before = raws.take(p);
    law_lines_outside_hunks(diff, i);
    lemma_line_at(raws, i);
    parser_laws::lemma_parse_lens(part);
    lemma_sides_differ(raws[i]);
    lemma_sides_differ(raws[p]);
    assert(upto.drop_last() =~= part && upto.last() == raws[i]);
    assert(head.drop_last() =~= before && head.last() == raws[p]);
    assert forall|j: int| p < j < upto.len() implies !is_git_line(#[trigger] upto[j])
        && !text::starts_with(upto[j], "+++ "@) by {
        assert(upto[j] == raws[j]);
    }
    lemma_current_file(upto, p);
    assert(upto.take(p + 1) =~= head);
    assert forall|q: int|
        text::starts_with(raws[p], "+++ "@) && diff_parser::header_path(raws[p].skip(4)) is None
            && 0 <= q < p && text::starts_with(#[trigger] raws[q], "--- "@) && (forall|j: int|
            q < j < p ==> !is_git_line(#[trigger] raws[j]) && !text::starts_with(
                raws[j],
                "--- "@,
            )) implies diff_parser::parse_lines(head).current_file == diff_parser::header_path(
        raws[q].skip(4),
    ) by {
        assert(before[q] == raws[q]);
        assert forall|j: int| q < j < before.len() implies !is_git_line(#[trigger] before[j])
            && !text::starts_with(before[j], "--- "@) by {
            assert(before[j] == raws[j]);
        }
        lemma_old_file(before, q);
    }
}

/// White space at the end is all that is removed there.
proof fn lemma_trim_end(s: Seq<char>, n: int)
    requires
        0 < n <= s.len(),
        !text::is_white_space(s[n - 1]),
    ensures
        n <= text::trim_end(s).len() <= s.len(),
        text::trim_end(s) == s.take(text::trim_end(s).len() as int),
    decreases s.len(),
{
    if text::is_white_space(s.last()) {
        lemma_trim_end(s.drop_last(), n);
        let kept = text::trim_end(s).len() as int;
        assert(s.drop_last().take(kept) =~= s.take(kept));
    } else {
        assert(s.take(s.len() as int) =~= s);
    }
}

/// A `---` or `+++` line names the path behind `a/` or `b/`, up to a tab; `/dev/null` names none.
pub proof fn law_path_line_names_its_path(path: Seq<char>, behind: Seq<char>)
    requires
        path.len() > 0,
        !path.contains('\t'),
        !text::is_white_space(path.last()),
    ensures
        diff_parser::header_path(seq!['a', '/'] + path) == Some(path),
        diff_parser::header_path(seq!['b', '/'] + path) == Some(path),
        diff_parser::header_path(seq!['a', '/'] + path + seq!['\t'] + behind) == Some(path),
        diff_parser::header_path(seq!['b', '/'] + path + seq!['\t'] + behind) == Some(path),
        diff_parser::header_path("/dev/null"@) is None,
{
    lemma_named(seq!['a', '/'], path, seq![]);
    lemma_named(seq!['b', '/'], path, seq![]);
    lemma_named(seq!['a', '/'], path, seq!['\t'] + behind);
    lemma_named(seq!['b', '/'], path, seq!['\t'] + behind);
    assert(seq!['a', '/'] + path + seq![] =~= seq!['a', '/'] + path);
    assert(seq!['b', '/'] + path + seq![] =~= seq!['b', '/'] + path);
    assert(seq!['a', '/'] + path + (seq!['\t'] + behind) =~= seq!['a', '/'] + path + seq!['\t']
        + behind);
    assert(seq!['b', '/'] + path + (seq!['\t'] + behind) =~= seq!['b', '/'] + path + seq!['\t']
        + behind);
    reveal_strlit("/dev/null");
    let none = "/dev/null"@;
    text::lemma_leading_space_is(none, 0);
    assert(text::trim_start(none) =~= none);
    lemma_trim_end(none, 9);
    assert(none.take(9) =~= none);
    text::lemma_find_char_is(none, '\t', 9);
}

/// A side, a path and what a tab begins.
#[verifier::spinoff_prover]
proof fn lemma_named(side: Seq<char>, path: Seq<char>, tail: Seq<char>)
    requires
        side == seq!['a', '/'] || side == seq!['b', '/'],
        path.len() > 0,
        !path.contains('\t'),
        !text::is_white_space(path.last()),
        tail.len() == 0 || tail[0] == '\t',
    ensures
        diff_parser::header_path(side + path + tail) == Some(path),
{
    reveal_strlit("a/");
    reveal_strlit("b/");
    reveal_strlit("/dev/null");
    let value = side + path + tail;
    let n = (2 + path.len()) as int;
    text::lemma_leading_space_is(value, 0);
    assert(text::trim_start(value) =~= value);
    assert(value[n - 1] == path.last());
    lemma_trim_end(value, n);
    let trimmed = text::trim(value);
    assert forall|j: int| 0 <= j < n implies trimmed[j] != '\t' by {
        if j >= 2 {
            assert(trimmed[j] == path[j - 2]);
            assert(path.contains(path[j - 2]));
        }
    }
    text::lemma_find_char_is(trimmed, '\t', n);
    let named = trimmed.take(n);
    assert(named =~= side + path);
    assert(named.skip(2) =~= path);
    assert(named[0] != '/' && "/dev/null"@[0] == '/');
    assert(named.take(2) =~= side);
    assert("a/"@ =~= seq!['a', '/']);
    assert("b/"@ =~= seq!['b', '/']);
}

/// A `---` or `+++` line may also name the path without a side.
pub proof fn law_path_line_without_side(path: Seq<char>)
    requires
        path.len() > 0,
        !path.contains('\t'),
        !text::is_white_space(path[0]),
        !text::is_white_space(path.last()),
        path[0] != '"' && path[0] != '/',
        path.len() > 1 ==> path[1] != '/',
    ensures
        diff_parser::header_path(path) == Some(path),
{
    reveal_strlit("a/");
    reveal_strlit("b/");
    reveal_strlit("/dev/null");
    let n = path.len() as int;
    text::lemma_leading_space_is(path, 0);
    assert(text::trim_start(path) =~= path);
    lemma_trim_end(path, n);
    assert(path.take(n) =~= path);
    assert forall|j: int| 0 <= j < n implies path[j] != '\t' by {
        assert(path.contains(path[j]));
    }
    text::lemma_find_char_is(path, '\t', n);
    assert("/dev/null"@[0] == '/');
    assert("a/"@[1] == '/' && "b/"@[1] == '/');
    if n >= 2 {
        assert(path.take(2)[1] == path[1]);
    }
}

/// A range in a hunk header, with its count or without.
pub open spec fn range_text(sign: char, start: usize, count: Option<usize>) -> Seq<char> {
    seq![sign] + number::decimal(start as nat) + match count {
        Some(count) => seq![','] + number::decimal(count as nat),
        None => seq![],
    }
}

/// A numeral holds digits and nothing else.
proof fn lemma_numeral(n: usize)
    ensures
        number::decimal(n as nat).len() > 0,
        forall|j: int|
            0 <= j < number::decimal(n as nat).len() ==> number::is_digit(
                #[trigger] number::decimal(n as nat)[j],
            ),
{
    number::lemma_decimal(n as nat);
}

/// A range with a count is read back.
#[verifier::spinoff_prover]
proof fn lemma_range_with_count(sign: char, start: usize, count: usize)
    ensures
        diff_parser::range_of(range_text(sign, start, Some(count)), sign) == Some((start, count)),
{
    let spec = range_text(sign, start, Some(count));
    let digits = number::decimal(start as nat);
    let more = number::decimal(count as nat);
    let rest = spec.skip(1);
    let n = digits.len() as int;
    lemma_numeral(start);
    number::lemma_parse_decimal(start);
    number::lemma_parse_decimal(count);
    assert(rest =~= digits + (seq![','] + more));
    assert forall|j: int| 0 <= j < n implies rest[j] != ',' by {
        assert(rest[j] == digits[j]);
        assert(number::is_digit(digits[j]));
    }
    assert(rest[n] == ',');
    text::lemma_find_char_is(rest, ',', n);
    assert(rest.take(n) =~= digits);
    assert(rest.skip(n + 1) =~= more);
}

/// A range without a count is read back.
#[verifier::spinoff_prover]
proof fn lemma_range_without_count(sign: char, start: usize)
    ensures
        diff_parser::range_of(range_text(sign, start, None), sign) == Some((start, 1usize)),
{
    let spec = range_text(sign, start, None);
    let digits = number::decimal(start as nat);
    let rest = spec.skip(1);
    let n = digits.len() as int;
    lemma_numeral(start);
    number::lemma_parse_decimal(start);
    assert(rest =~= digits);
    assert forall|j: int| 0 <= j < n implies rest[j] != ',' by {
        assert(number::is_digit(digits[j]));
    }
    text::lemma_find_char_is(rest, ',', n);
    assert(rest.take(n) =~= digits);
}

/// A range holds no white space and no `@`.
#[verifier::spinoff_prover]
proof fn lemma_range_chars(sign: char, start: usize, count: Option<usize>, j: int)
    requires
        sign == '-' || sign == '+',
        0 <= j < range_text(sign, start, count).len(),
    ensures
        !text::is_white_space(range_text(sign, start, count)[j]),
        range_text(sign, start, count)[j] != '@',
{
    let digits = number::decimal(start as nat);
    let n = digits.len() as int;
    let c = range_text(sign, start, count)[j];
    lemma_numeral(start);
    if 1 <= j <= n {
        assert(c == digits[j - 1]);
        assert(number::is_digit(c));
    } else if let Some(count) = count {
        lemma_numeral(count);
        if j > n + 1 {
            assert(c == number::decimal(count as nat)[j - n - 2]);
            assert(number::is_digit(c));
        }
    }
}

/// A range is read back, and holds no white space.
proof fn lemma_range(sign: char, start: usize, count: Option<usize>)
    requires
        sign == '-' || sign == '+',
    ensures
        diff_parser::range_of(range_text(sign, start, count), sign) == Some(
            (
                start,
                match count {
                    Some(count) => count,
                    None => 1,
                },
            ),
        ),
        range_text(sign, start, count).len() > 0,
        forall|j: int|
            0 <= j < range_text(sign, start, count).len() ==> !text::is_white_space(
                #[trigger] range_text(sign, start, count)[j],
            ) && range_text(sign, start, count)[j] != '@',
{
    match count {
        Some(count) => lemma_range_with_count(sign, start, count),
        None => lemma_range_without_count(sign, start),
    }
    assert forall|j: int| 0 <= j < range_text(sign, start, count).len() implies !text::is_white_space(
        #[trigger] range_text(sign, start, count)[j],
    ) && range_text(sign, start, count)[j] != '@' by {
        lemma_range_chars(sign, start, count, j);
    }
}

/// The header of a hunk gives the ranges in the old and in the new file and the section behind them;
/// a count that is left out is one.
#[verifier::spinoff_prover]
pub proof fn law_hunk_header_is_read(
    old_start: usize,
    old_count: Option<usize>,
    new_start: usize,
    new_count: Option<usize>,
    section: Seq<char>,
)
    ensures
        diff_parser::hunk_header_of(
            seq!['@', '@', ' '] + range_text('-', old_start, old_count) + seq![' ']
                + range_text('+', new_start, new_count) + seq![' ', '@', '@'] + section,
        ) == Some(
            HunkHeaderView {
                old_start,
                old_count: match old_count {
                    Some(count) => count,
                    None => 1,
                },
                new_start,
                new_count: match new_count {
                    Some(count) => count,
                    None => 1,
                },
                section: text::trim(section),
            },
        ),
{
    reveal_strlit("@@ ");
    reveal_strlit(" @@");
    let a = range_text('-', old_start, old_count);
    let b = range_text('+', new_start, new_count);
    let raw = seq!['@', '@', ' '] + a + seq![' '] + b + seq![' ', '@', '@'] + section;
    lemma_range('-', old_start, old_count);
    lemma_range('+', new_start, new_count);
    assert(raw.take(3) =~= "@@ "@);
    let rest = raw.skip(3);
    let marker = (a.len() + 1 + b.len()) as int;
    let pattern = " @@"@;
    text::lemma_find_text(rest, pattern);
    assert(rest.skip(marker).take(3) =~= pattern);
    assert(text::starts_with(rest.skip(marker), pattern));
    assert(rest.take(marker) =~= a + (seq![' '] + b));
    assert forall|j: int| 0 <= j < marker implies !text::starts_with(
        #[trigger] rest.skip(j),
        pattern,
    ) by {
        if text::starts_with(rest.skip(j), pattern) {
            let taken = rest.skip(j).take(3);
            assert(taken[0] == rest[j] && taken[0] == ' ');
            assert(taken[1] == rest[j + 1] && taken[1] == '@');
            if j < a.len() {
                assert(rest[j] == a[j]);
                assert(!text::is_white_space(a[j]));
            } else if j == a.len() {
                assert(rest[j + 1] == b[0]);
            } else {
                assert(rest[j] == b[j - a.len() - 1]);
                assert(!text::is_white_space(b[j - a.len() - 1]));
            }
        }
    }
    assert(text::find_text(rest, pattern) == Some(marker)) by {
        match text::find_text(rest, pattern) {
            Some(k) => {
                if k < marker {
                    assert(!text::starts_with(rest.skip(k), pattern));
                }
                if k > marker {
                    assert(!text::starts_with(rest.skip(marker), pattern));
                }
            },
            None => {
                assert(!text::starts_with(rest.skip(marker), pattern));
            },
        }
    }
    untracked_laws::lemma_two_words(a, b);
    assert(rest.skip(marker + 3) =~= section);
}

/// The lines that can be selected are kept in their order, and no other line is.
pub proof fn law_selectable_lines(lines: Seq<DiffLineView>, line: DiffLineView)
    ensures
        line.selectable ==> diff_parser::selectable_lines(lines.push(line))
            == diff_parser::selectable_lines(lines).push(line),
        !line.selectable ==> diff_parser::selectable_lines(lines.push(line))
            == diff_parser::selectable_lines(lines),
        diff_parser::selectable_lines(seq![]).len() == 0,
{
    reveal(Seq::filter);
    assert(lines.push(line).drop_last() =~= lines);
}

} // verus!
