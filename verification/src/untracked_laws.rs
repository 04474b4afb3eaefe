//! The diffs that are written for untracked files, and what is read back from them.

use crate::diff_parser;
use crate::diff_parser::{DiffLineView, HunkHeaderView, HunkView, LineKind, ParseState};
use crate::number;
use crate::parser_laws;
use crate::text;
use crate::untracked;
use vstd::prelude::*;

verus! {

/// What is written between quotes begins with the first character.
proof fn lemma_escaped_front(value: Seq<char>)
    requires
        value.len() > 0,
    ensures
        untracked::escaped_text(value) == untracked::escaped(value[0]) + untracked::escaped_text(
            value.drop_first(),
        ),
    decreases value.len(),
{
    if value.len() == 1 {
        assert(value.drop_last() =~= seq![]);
        assert(value.drop_first() =~= seq![]);
        assert(untracked::escaped_text(value) =~= untracked::escaped(value[0])
            + untracked::escaped_text(value.drop_first()));
    } else {
        lemma_escaped_front(value.drop_last());
        assert(value.drop_first().drop_last() =~= value.drop_last().drop_first());
        assert(untracked::escaped_text(value) =~= untracked::escaped(value[0])
            + untracked::escaped_text(value.drop_first()));
    }
}

/// What was written between quotes is read back up to the closing quote.
proof fn lemma_read_escaped(value: Seq<char>, rest: Seq<char>)
    ensures
        diff_parser::quoted_text(untracked::escaped_text(value) + (seq!['"'] + rest)) == value,
        diff_parser::quoted_len(untracked::escaped_text(value) + (seq!['"'] + rest))
            == untracked::escaped_text(value).len() + 1,
    decreases value.len(),
{
    let end = seq!['"'] + rest;
    let whole = untracked::escaped_text(value) + end;
    if value.len() == 0 {
        assert(whole =~= end);
        assert(diff_parser::quoted_text(whole) =~= value);
    } else {
        let tail = value.drop_first();
        let shown = untracked::escaped(value[0]);
        let left = untracked::escaped_text(tail) + end;
        lemma_escaped_front(value);
        lemma_read_escaped(tail, rest);
        assert(whole =~= shown + left);
        assert(whole.skip(shown.len() as int) =~= left);
        assert(diff_parser::quoted_text(whole) =~= value);
    }
}

/// A path that is written is read back as one token, where white space or nothing follows.
proof fn lemma_read_path(value: Seq<char>, rest: Seq<char>)
    requires
        rest.len() == 0 || text::is_white_space(rest[0]),
    ensures
        diff_parser::quoted_tokens(untracked::quoted_path(value) + rest) == seq![value]
            + diff_parser::quoted_tokens(rest),
{
    let shown = untracked::quoted_path(value);
    let whole = shown + rest;
    if untracked::is_plain_path(value) {
        assert(untracked::is_plain_char(value[0]));
        assert(whole[0] == value[0]);
        text::lemma_leading_space_is(whole, 0);
        assert(text::trim_start(whole) =~= whole);
        assert forall|j: int| 0 <= j < value.len() implies !text::is_white_space(
            #[trigger] whole[j],
        ) by {
            assert(untracked::is_plain_char(value[j]));
        }
        text::lemma_word_len_is(whole, value.len() as int);
        assert(whole.take(value.len() as int) =~= value);
        assert(whole.skip(value.len() as int) =~= rest);
    } else {
        let inner = untracked::escaped_text(value) + (seq!['"'] + rest);
        assert(whole =~= seq!['"'] + inner);
        text::lemma_leading_space_is(whole, 0);
        assert(text::trim_start(whole) =~= whole);
        assert(whole.skip(1) =~= inner);
        lemma_read_escaped(value, rest);
        assert(whole.skip(untracked::escaped_text(value).len() as int + 2) =~= rest);
    }
}

/// A path that is written as it stands in a diff is read back: it is one token, and the token is
/// the path.
pub proof fn law_quoted_path_is_read_back(path: Seq<char>)
    ensures
        diff_parser::quoted_tokens(untracked::quoted_path(path)) == seq![path],
{
    let none: Seq<char> = seq![];
    lemma_read_path(path, none);
    assert(untracked::quoted_path(path) + none =~= untracked::quoted_path(path));
    assert(text::trim_start(none) =~= none);
    assert(seq![path] + diff_parser::quoted_tokens(none) =~= seq![path]);
}

/// A side and a path name the path.
proof fn lemma_diff_path(path: Seq<char>)
    ensures
        diff_parser::diff_path("a/"@ + path) == Some(path),
        diff_parser::diff_path("b/"@ + path) == Some(path),
{
    reveal_strlit("a/");
    reveal_strlit("b/");
    reveal_strlit("/dev/null");
    let (old, new) = ("a/"@ + path, "b/"@ + path);
    assert(old[0] == 'a' && new[0] == 'b' && "/dev/null"@[0] == '/');
    assert(old.take(2) =~= "a/"@);
    assert(new.take(2) =~= "b/"@);
    assert(new.take(2)[0] == 'b' && "a/"@[0] == 'a');
    assert(old.skip(2) =~= path);
    assert(new.skip(2) =~= path);
}

/// The `diff --git` line of a new file.
pub open spec fn git_line(path: Seq<char>) -> Seq<char> {
    "diff --git "@ + untracked::quoted_prefixed_path("a/"@, path) + " "@
        + untracked::quoted_prefixed_path("b/"@, path)
}

/// Any path that is written into a `diff --git` line is read back from it.
pub proof fn law_git_line_names_path(path: Seq<char>)
    ensures
        diff_parser::git_header_paths(git_line(path)) == Some((Some(path), Some(path))),
{
    reveal_strlit("diff --git ");
    reveal_strlit(" ");
    let (old, new) = ("a/"@ + path, "b/"@ + path);
    let second = untracked::quoted_path(new);
    let rest = " "@ + second;
    let n = "diff --git "@.len() as int;
    let line = git_line(path);
    assert(line.take(n) =~= "diff --git "@);
    assert(line.skip(n) =~= untracked::quoted_path(old) + rest);
    lemma_read_path(old, rest);
    law_quoted_path_is_read_back(new);
    lemma_path_ends(new);
    text::lemma_leading_space_is(rest, 1);
    assert(text::trim_start(rest) =~= second);
    diff_parser::lemma_tokens_trim_start(rest);
    let tokens = diff_parser::quoted_tokens(line.skip(n));
    assert(tokens =~= seq![old, new]);
    lemma_diff_path(path);
}

/// Two paths that are written into a `diff --git` line, as for a file that was renamed, are read back
/// from it: the first is the old one, the second the new one.
pub proof fn law_git_line_names_both_paths(old: Seq<char>, new: Seq<char>)
    ensures
        diff_parser::git_header_paths(
            "diff --git "@ + untracked::quoted_prefixed_path("a/"@, old) + " "@
                + untracked::quoted_prefixed_path("b/"@, new),
        ) == Some((Some(old), Some(new))),
{
    reveal_strlit("diff --git ");
    reveal_strlit(" ");
    let (first, last) = ("a/"@ + old, "b/"@ + new);
    let second = untracked::quoted_path(last);
    let rest = " "@ + second;
    let n = "diff --git "@.len() as int;
    let line = "diff --git "@ + untracked::quoted_path(first) + " "@ + second;
    assert(line.take(n) =~= "diff --git "@);
    assert(line.skip(n) =~= untracked::quoted_path(first) + rest);
    lemma_read_path(first, rest);
    law_quoted_path_is_read_back(last);
    lemma_path_ends(last);
    text::lemma_leading_space_is(rest, 1);
    assert(text::trim_start(rest) =~= second);
    diff_parser::lemma_tokens_trim_start(rest);
    let tokens = diff_parser::quoted_tokens(line.skip(n));
    assert(tokens =~= seq![first, last]);
    lemma_diff_path(old);
    lemma_diff_path(new);
}

/// A path that is written has no white space at its ends and no line feed.
proof fn lemma_path_ends(value: Seq<char>)
    ensures
        ({
            let shown = untracked::quoted_path(value);
            &&& shown.len() > 0
            &&& !text::is_white_space(shown[0])
            &&& !text::is_white_space(shown.last())
            &&& forall|j: int| 0 <= j < shown.len() ==> #[trigger] shown[j] != '\n'
        }),
{
    let shown = untracked::quoted_path(value);
    if untracked::is_plain_path(value) {
        assert(untracked::is_plain_char(value[0]));
        assert(untracked::is_plain_char(value[value.len() - 1]));
        assert forall|j: int| 0 <= j < shown.len() implies #[trigger] shown[j] != '\n' by {
            assert(untracked::is_plain_char(value[j]));
        }
    } else {
        lemma_escaped_newline(value);
    }
}

/// No line feed is written between quotes.
proof fn lemma_escaped_newline(value: Seq<char>)
    ensures
        forall|j: int|
            0 <= j < untracked::escaped_text(value).len() ==> #[trigger] untracked::escaped_text(
                value,
            )[j] != '\n',
    decreases value.len(),
{
    if value.len() > 0 {
        lemma_escaped_newline(value.drop_last());
        let before = untracked::escaped_text(value.drop_last());
        assert forall|j: int| 0 <= j < untracked::escaped_text(value).len() implies #[trigger] untracked::escaped_text(
            value,
        )[j] != '\n' by {
            if j < before.len() {
                assert(before[j] != '\n');
            }
        }
    }
}

/// Any path that is written into a `+++` line is read back from it.
proof fn lemma_header_path(path: Seq<char>)
    ensures
        diff_parser::header_path(untracked::quoted_prefixed_path("b/"@, path)) == Some(path),
{
    let new = "b/"@ + path;
    let shown = untracked::quoted_path(new);
    lemma_path_ends(new);
    text::lemma_leading_space_is(shown, 0);
    assert(text::trim_start(shown) =~= shown);
    assert(text::trim(shown) == shown);
    law_quoted_path_is_read_back(new);
    lemma_diff_path(path);
    if untracked::is_plain_path(new) {
        assert(untracked::is_plain_char(new[0]));
        assert forall|j: int| 0 <= j < new.len() implies new[j] != '\t' by {
            assert(untracked::is_plain_char(new[j]));
        }
        text::lemma_find_char_is(new, '\t', new.len() as int);
        assert(new.take(new.len() as int) =~= new);
    }
}

/// A text without a line feed.
pub open spec fn is_one_line(s: Seq<char>) -> bool {
    forall|j: int| 0 <= j < s.len() ==> #[trigger] s[j] != '\n'
}

/// A line that ends with a line feed is the first line.
pub proof fn lemma_first_line(line: Seq<char>, rest: Seq<char>)
    requires
        is_one_line(line),
    ensures
        text::lines_of(line + ("\n"@ + rest)) == seq![text::chomp_cr(line)] + text::lines_of(rest),
{
    reveal_strlit("\n");
    let whole = line + ("\n"@ + rest);
    let n = line.len() as int;
    assert forall|j: int| 0 <= j < n implies whole[j] != '\n' by {
        assert(whole[j] == line[j]);
    }
    text::lemma_find_char_is(whole, '\n', n);
    assert(whole.take(n) =~= line);
    assert(whole.skip(n + 1) =~= rest);
}

/// A line of a new file as it is read back: a carriage return at its end is taken for part of the
/// line end.
pub open spec fn added_raw(line: Seq<char>) -> Seq<char> {
    text::chomp_cr("+"@ + line)
}

/// The lines of a new file as they are read back.
pub open spec fn added_raws(lines: Seq<Seq<char>>) -> Seq<Seq<char>> {
    lines.map_values(|line: Seq<char>| added_raw(line))
}

/// The lines of a new file are read back one by one.
proof fn lemma_added_lines(lines: Seq<Seq<char>>, rest: Seq<char>)
    requires
        forall|i: int| 0 <= i < lines.len() ==> is_one_line(#[trigger] lines[i]),
    ensures
        text::lines_of(untracked::added_lines(lines) + rest) == added_raws(lines) + text::lines_of(
            rest,
        ),
    decreases lines.len(),
{
    if lines.len() == 0 {
        assert(untracked::added_lines(lines) + rest =~= rest);
        assert(added_raws(lines) + text::lines_of(rest) =~= text::lines_of(rest));
    } else {
        reveal_strlit("+");
        let init = lines.drop_last();
        let line = "+"@ + lines.last();
        let tail = line + ("\n"@ + rest);
        assert(untracked::added_lines(lines) + rest =~= untracked::added_lines(init) + tail);
        assert(is_one_line(lines[lines.len() - 1]));
        assert forall|j: int| 0 <= j < line.len() implies #[trigger] line[j] != '\n' by {
            if j > 0 {
                assert(lines.last()[j - 1] != '\n');
            }
        }
        lemma_added_lines(init, tail);
        lemma_first_line(line, rest);
        assert(added_raws(lines) =~= added_raws(init).push(added_raw(lines.last())));
        assert(added_raws(init) + (seq![added_raw(lines.last())] + text::lines_of(rest))
            =~= added_raws(lines) + text::lines_of(rest));
    }
}

/// The parts between line feeds have none.
proof fn lemma_split_lines(s: Seq<char>)
    ensures
        forall|i: int|
            0 <= i < text::split_char(s, '\n').len() ==> is_one_line(
                #[trigger] text::split_char(s, '\n')[i],
            ),
    decreases s.len(),
{
    text::lemma_find_char(s, '\n');
    let k = text::find_char(s, '\n');
    let parts = text::split_char(s, '\n');
    if k == s.len() {
        assert forall|i: int| 0 <= i < parts.len() implies is_one_line(#[trigger] parts[i]) by {
            assert(parts[i] == s);
        }
    } else {
        let rest = s.skip(k + 1);
        lemma_split_lines(rest);
        assert forall|i: int| 0 <= i < parts.len() implies is_one_line(#[trigger] parts[i]) by {
            if i > 0 {
                assert(parts[i] == text::split_char(rest, '\n')[i - 1]);
            } else {
                assert(parts[0] == s.take(k));
            }
        }
    }
}

/// The header of the hunk that adds `n` lines.
spec fn add_header(n: nat) -> Seq<char> {
    "@@ -0,0 +1,"@ + number::decimal(n) + " @@"@
}

/// The ranges in the header of the hunk that adds `n` lines.
proof fn lemma_add_ranges(n: usize)
    ensures
        diff_parser::range_of("-0,0"@, '-') == Some((0usize, 0usize)),
        diff_parser::range_of("+1,"@ + number::decimal(n as nat), '+') == Some((1usize, n)),
{
    reveal_strlit("-0,0");
    reveal_strlit("+1,");
    let zero = "-0,0"@.skip(1);
    text::lemma_find_char_is(zero, ',', 1);
    number::lemma_parse_decimal(0);
    number::lemma_parse_decimal(1);
    number::lemma_parse_decimal(n);
    assert(zero.take(1) =~= number::decimal(0));
    assert(zero.skip(2) =~= number::decimal(0));
    let digits = number::decimal(n as nat);
    let one = ("+1,"@ + digits).skip(1);
    text::lemma_find_char_is(one, ',', 1);
    assert(one.take(1) =~= number::decimal(1));
    assert(one.skip(2) =~= digits);
}

/// The header of the hunk that adds `n` lines is read back.
proof fn lemma_add_header(n: usize)
    ensures
        diff_parser::hunk_header_of(add_header(n as nat)) == Some(
            HunkHeaderView {
                old_start: 0,
                old_count: 0,
                new_start: 1,
                new_count: n,
                section: seq![],
            },
        ),
        is_one_line(add_header(n as nat)),
        add_header(n as nat).last() == '@',
        add_header(n as nat)[0] == '@',
{
    reveal_strlit("@@ -0,0 +1,");
    reveal_strlit(" @@");
    reveal_strlit("@@ ");
    reveal_strlit("-0,0");
    reveal_strlit("+1,");
    let digits = number::decimal(n as nat);
    let raw = add_header(n as nat);
    number::lemma_decimal(n as nat);
    assert forall|j: int| 0 <= j < digits.len() implies !text::is_white_space(
        #[trigger] digits[j],
    ) by {
        assert(number::is_digit(digits[j]));
    }
    assert(is_one_line(raw)) by {
        assert forall|j: int| 0 <= j < raw.len() implies #[trigger] raw[j] != '\n' by {
            if 11 <= j < 11 + digits.len() {
                assert(raw[j] == digits[j - 11]);
            }
        }
    }
    assert(raw.take(3) =~= "@@ "@);
    let rest = raw.skip(3);
    let first = "-0,0"@;
    let second = "+1,"@ + digits;
    let marker = (8 + digits.len()) as int;
    assert(rest =~= first + (seq![' '] + second) + " @@"@);
    lemma_marker(rest, marker);
    let part = rest.take(marker);
    assert(part =~= first + (seq![' '] + second));
    assert forall|j: int| 0 <= j < second.len() implies !text::is_white_space(
        #[trigger] second[j],
    ) by {
        if j >= 3 {
            assert(second[j] == digits[j - 3]);
        }
    }
    lemma_two_words(first, second);
    lemma_add_ranges(n);
    let behind = rest.skip(marker + 3);
    assert(behind =~= seq![]);
    assert(text::trim_start(behind) =~= seq![]);
}

/// The first ` @@` in a hunk header.
proof fn lemma_marker(rest: Seq<char>, marker: int)
    requires
        8 <= marker,
        rest.len() == marker + 3,
        rest[marker] == ' ' && rest[marker + 1] == '@' && rest[marker + 2] == '@',
        forall|j: int| 0 <= j < marker && j != 4 ==> #[trigger] rest[j] != ' ',
        rest[5] != '@',
    ensures
        text::find_text(rest, " @@"@) == Some(marker),
{
    reveal_strlit(" @@");
    let pattern = " @@"@;
    text::lemma_find_text(rest, pattern);
    assert(rest.skip(marker).take(3) =~= pattern);
    assert(text::starts_with(rest.skip(marker), pattern));
    assert forall|j: int| 0 <= j < marker implies !text::starts_with(
        #[trigger] rest.skip(j),
        pattern,
    ) by {
        if text::starts_with(rest.skip(j), pattern) {
            let taken = rest.skip(j).take(3);
            assert(taken[0] == rest[j]);
            assert(taken[1] == rest[j + 1]);
        }
    }
    match text::find_text(rest, pattern) {
        Some(k) => {
            if k < marker {
                assert(!text::starts_with(rest.skip(k), pattern));
            }
            if k > marker {
                assert(!text::starts_with(rest.skip(marker), pattern));
            }
        },
        None => {
            assert(!text::starts_with(rest.skip(marker), pattern));
        },
    }
}

/// Two words with a space between them.
pub proof fn lemma_two_words(first: Seq<char>, second: Seq<char>)
    requires
        first.len() > 0,
        second.len() > 0,
        forall|j: int| 0 <= j < first.len() ==> !text::is_white_space(#[trigger] first[j]),
        forall|j: int| 0 <= j < second.len() ==> !text::is_white_space(#[trigger] second[j]),
    ensures
        text::words(first + (seq![' '] + second)) == seq![first, second],
{
    let behind = seq![' '] + second;
    let whole = first + behind;
    assert(whole[0] == first[0]);
    text::lemma_leading_space_is(whole, 0);
    assert(text::trim_start(whole) =~= whole);
    assert forall|j: int| 0 <= j < first.len() implies !text::is_white_space(
        #[trigger] whole[j],
    ) by {
        assert(whole[j] == first[j]);
    }
    assert(whole[first.len() as int] == ' ');
    text::lemma_word_len_is(whole, first.len() as int);
    assert(whole.take(first.len() as int) =~= first);
    assert(whole.skip(first.len() as int) =~= behind);
    assert(behind[1] == second[0]);
    text::lemma_leading_space_is(behind, 1);
    assert(text::trim_start(behind) =~= second);
    text::lemma_word_len_is(second, second.len() as int);
    assert(second.take(second.len() as int) =~= second);
    let none = second.skip(second.len() as int);
    assert(none =~= seq![]);
    assert(text::trim_start(none) =~= seq![]);
    assert(text::words(none) =~= seq![]);
    assert(text::words(behind) =~= seq![second]);
    assert(text::words(whole) =~= seq![first, second]);
}

/// The `+++` line of a new file.
spec fn new_line(path: Seq<char>) -> Seq<char> {
    "+++ "@ + untracked::quoted_prefixed_path("b/"@, path)
}

/// The lines before those of a new file, with the header of the hunk that adds `n` lines.
spec fn header_raws(path: Seq<char>, mode: Seq<char>, n: nat) -> Seq<Seq<char>> {
    seq![
        git_line(path),
        "new file mode "@ + mode,
        "--- /dev/null"@,
        new_line(path),
        add_header(n),
    ]
}

/// What is read of the lines before those of a new file.
spec fn header_views(path: Seq<char>, mode: Seq<char>, n: nat, h: usize) -> Seq<DiffLineView> {
    seq![
        diff_parser::plain_line(git_line(path), LineKind::File, Some(path), None),
        diff_parser::plain_line("new file mode "@ + mode, LineKind::Meta, Some(path), None),
        diff_parser::plain_line("--- /dev/null"@, LineKind::Meta, Some(path), None),
        diff_parser::plain_line(new_line(path), LineKind::Meta, Some(path), None),
        diff_parser::plain_line(add_header(n), LineKind::Hunk, Some(path), Some(h)),
    ]
}

/// What is read of line `k` of a new file, whose hunk is hunk `h`.
pub open spec fn added_view(path: Seq<char>, line: Seq<char>, k: int, h: usize) -> DiffLineView {
    diff_parser::hunk_line(
        added_raw(line),
        LineKind::Add,
        Some(path),
        0,
        (k + 1) as usize,
        h,
        k as usize,
    )
}

/// What is read of the lines of a new file, whose hunk is hunk `h`.
pub open spec fn added_views(path: Seq<char>, lines: Seq<Seq<char>>, h: usize) -> Seq<DiffLineView> {
    Seq::new(lines.len(), |k: int| added_view(path, lines[k], k, h))
}

/// What is known, after what `base` knows, after the first lines of a new file that has `n` lines.
spec fn state_after(
    base: ParseState,
    path: Seq<char>,
    mode: Seq<char>,
    n: usize,
    lines: Seq<Seq<char>>,
) -> ParseState {
    let h = base.hunks.len() as usize;
    ParseState {
        lines: base.lines + header_views(path, mode, n as nat, h) + added_views(path, lines, h),
        hunks: base.hunks.push(
            HunkView {
                index: h,
                file_path: Some(path),
                header: add_header(n as nat),
                old_start: 0,
                old_count: 0,
                new_start: 1,
                new_count: n,
                section: seq![],
                line_indices: Seq::new(
                    lines.len(),
                    |k: int| (base.lines.len() + 5 + k) as usize,
                ),
            },
        ),
        current_file: Some(path),
        old_file: None,
        current_hunk: Some(h),
        old_cursor: 0,
        new_cursor: (lines.len() + 1) as usize,
    }
}

/// A line that begins with another character than a prefix does not begin with the prefix.
proof fn lemma_other_start(raw: Seq<char>, prefix: Seq<char>)
    requires
        prefix.len() > 0,
        raw.len() == 0 || raw[0] != prefix[0],
    ensures
        !text::starts_with(raw, prefix),
{
    if text::starts_with(raw, prefix) {
        assert(raw.take(prefix.len() as int)[0] == raw[0]);
    }
}

/// `/dev/null` names no file.
proof fn lemma_dev_null()
    ensures
        diff_parser::header_path("--- /dev/null"@.skip(4)) is None,
{
    reveal_strlit("--- /dev/null");
    reveal_strlit("/dev/null");
    let value = "--- /dev/null"@.skip(4);
    assert(value =~= "/dev/null"@);
    text::lemma_leading_space_is(value, 0);
    assert(text::trim_start(value) =~= value);
    assert(text::trim(value) == value);
    text::lemma_find_char_is(value, '\t', 9);
    assert(value.take(9) =~= value);
}

/// The lines before the hunk header of a new file are read, one by one.
proof fn lemma_header_steps(path: Seq<char>, mode: Seq<char>, state: ParseState)
    ensures
        state.step(git_line(path)) == state.git_line(git_line(path), Some(path), Some(path)),
        state.current_hunk is None ==> state.step("new file mode "@ + mode) == state.other_line(
            "new file mode "@ + mode,
        ),
        state.step("--- /dev/null"@) == state.old_file_line("--- /dev/null"@),
        state.old_file_line("--- /dev/null"@).old_file is None,
        state.step(new_line(path)) == state.new_file_line(new_line(path)),
        state.new_file_line(new_line(path)).current_file == Some(path),
{
    reveal_strlit("diff --git ");
    reveal_strlit("new file mode ");
    reveal_strlit("--- /dev/null");
    reveal_strlit("--- ");
    reveal_strlit("+++ ");
    reveal_strlit("@@ ");
    law_git_line_names_path(path);
    let mode_line = "new file mode "@ + mode;
    assert(mode_line[0] == 'n');
    lemma_other_start(mode_line, "diff --git "@);
    lemma_other_start(mode_line, "--- "@);
    lemma_other_start(mode_line, "+++ "@);
    lemma_other_start(mode_line, "@@ "@);
    let old_line = "--- /dev/null"@;
    assert(old_line[0] == '-');
    lemma_other_start(old_line, "diff --git "@);
    assert(old_line.take(4) =~= "--- "@);
    lemma_dev_null();
    let plus_line = new_line(path);
    assert(plus_line[0] == '+');
    lemma_other_start(plus_line, "diff --git "@);
    lemma_other_start(plus_line, "--- "@);
    assert(plus_line.take(4) =~= "+++ "@);
    assert(plus_line.skip(4) =~= untracked::quoted_prefixed_path("b/"@, path));
    lemma_header_path(path);
}

/// The hunk header of a new file is read.
proof fn lemma_hunk_step(n: usize, state: ParseState)
    ensures
        state.step(add_header(n as nat)) == state.hunk_header_line(
            add_header(n as nat),
            HunkHeaderView {
                old_start: 0,
                old_count: 0,
                new_start: 1,
                new_count: n,
                section: seq![],
            },
        ),
{
    reveal_strlit("diff --git ");
    reveal_strlit("--- ");
    reveal_strlit("+++ ");
    let raw = add_header(n as nat);
    lemma_add_header(n);
    lemma_other_start(raw, "diff --git "@);
    lemma_other_start(raw, "--- "@);
    lemma_other_start(raw, "+++ "@);
}

/// What is known after the lines before those of a new file, step by step.
spec fn header_chain(base: ParseState, path: Seq<char>, mode: Seq<char>, n: usize) -> ParseState {
    base.git_line(git_line(path), Some(path), Some(path)).other_line(
        "new file mode "@ + mode,
    ).old_file_line("--- /dev/null"@).new_file_line(new_line(path)).hunk_header_line(
        add_header(n as nat),
        HunkHeaderView { old_start: 0, old_count: 0, new_start: 1, new_count: n, section: seq![] },
    )
}

/// The steps lead to what is known before the first line of a new file.
proof fn lemma_header_chain(base: ParseState, path: Seq<char>, mode: Seq<char>, n: usize)
    ensures
        header_chain(base, path, mode, n) == state_after(base, path, mode, n, seq![]),
{
    let next = header_chain(base, path, mode, n);
    let wanted = state_after(base, path, mode, n, seq![]);
    lemma_header_steps(path, mode, base);
    let s2 = base.git_line(git_line(path), Some(path), Some(path)).other_line(
        "new file mode "@ + mode,
    );
    lemma_header_steps(path, mode, s2);
    let s3 = s2.old_file_line("--- /dev/null"@);
    lemma_header_steps(path, mode, s3);
    assert(next.lines =~= wanted.lines);
    assert(next.hunks.last() =~= wanted.hunks.last());
    assert(next.hunks =~= wanted.hunks);
    assert(next =~= wanted);
}

/// The lines before those of a new file are read.
proof fn lemma_header_state(before: Seq<Seq<char>>, path: Seq<char>, mode: Seq<char>, n: usize)
    ensures
        diff_parser::parse_lines(before + header_raws(path, mode, n as nat)) == state_after(
            diff_parser::parse_lines(before),
            path,
            mode,
            n,
            seq![],
        ),
{
    let raws = header_raws(path, mode, n as nat);
    let base = diff_parser::parse_lines(before);
    lemma_parse_five(before, raws);
    lemma_header_chain(base, path, mode, n);
    lemma_header_steps(path, mode, base);
    let s1 = base.git_line(raws[0], Some(path), Some(path));
    assert(base.step(raws[0]) == s1);
    lemma_header_steps(path, mode, s1);
    let s2 = s1.other_line(raws[1]);
    assert(s1.step(raws[1]) == s2);
    lemma_header_steps(path, mode, s2);
    let s3 = s2.old_file_line(raws[2]);
    assert(s2.step(raws[2]) == s3);
    lemma_header_steps(path, mode, s3);
    let s4 = s3.new_file_line(raws[3]);
    assert(s3.step(raws[3]) == s4);
    lemma_hunk_step(n, s4);
}

/// Five lines are read one after the other.
proof fn lemma_parse_five(before: Seq<Seq<char>>, raws: Seq<Seq<char>>)
    requires
        raws.len() == 5,
    ensures
        diff_parser::parse_lines(before + raws) == diff_parser::parse_lines(before).step(
            raws[0],
        ).step(raws[1]).step(raws[2]).step(raws[3]).step(raws[4]),
{
    let r5 = before + raws;
    let r4 = r5.drop_last();
    let r3 = r4.drop_last();
    let r2 = r3.drop_last();
    let r1 = r2.drop_last();
    assert(r1.drop_last() =~= before);
    assert(r1.last() == raws[0] && r2.last() == raws[1] && r3.last() == raws[2] && r4.last()
        == raws[3] && r5.last() == raws[4]);
    assert(diff_parser::parse_lines(r1) == diff_parser::parse_lines(before).step(raws[0]));
    assert(diff_parser::parse_lines(r2) == diff_parser::parse_lines(r1).step(raws[1]));
    assert(diff_parser::parse_lines(r3) == diff_parser::parse_lines(r2).step(raws[2]));
    assert(diff_parser::parse_lines(r4) == diff_parser::parse_lines(r3).step(raws[3]));
}

/// A line of a new file is read as an added line, unless it looks like a `+++` line.
proof fn lemma_added_step(
    base: ParseState,
    path: Seq<char>,
    mode: Seq<char>,
    n: usize,
    lines: Seq<Seq<char>>,
    line: Seq<char>,
)
    requires
        base.hunks.len() <= base.lines.len(),
        base.lines.len() + lines.len() + 6 <= usize::MAX,
        !text::starts_with(line, "++ "@),
    ensures
        state_after(base, path, mode, n, lines).step(added_raw(line)) == state_after(
            base,
            path,
            mode,
            n,
            lines.push(line),
        ),
{
    reveal_strlit("diff --git ");
    reveal_strlit("--- ");
    reveal_strlit("+++ ");
    reveal_strlit("++ ");
    reveal_strlit("@@ ");
    reveal_strlit("+");
    let raw = added_raw(line);
    let h = base.hunks.len() as usize;
    let state = state_after(base, path, mode, n, lines);
    let next = state.step(raw);
    let wanted = state_after(base, path, mode, n, lines.push(line));
    assert(raw[0] == '+');
    lemma_other_start(raw, "diff --git "@);
    lemma_other_start(raw, "--- "@);
    lemma_other_start(raw, "@@ "@);
    if text::starts_with(raw, "+++ "@) {
        let taken = raw.take(4);
        assert(taken[1] == '+' && taken[2] == '+' && taken[3] == ' ');
        assert(raw[1] == line[0] && raw[2] == line[1] && raw[3] == line[2]);
        assert(line.take(3) =~= "++ "@);
    }
    assert(next == state.hunk_body_line(raw, h, LineKind::Add));
    assert(state.hunks[h as int].line_indices.len() == lines.len());
    assert(state.lines.len() == base.lines.len() + 5 + lines.len());
    assert(next.lines =~= wanted.lines) by {
        assert(added_views(path, lines.push(line), h) =~= added_views(path, lines, h).push(
            added_view(path, line, lines.len() as int, h),
        ));
    }
    assert(next.hunks[h as int].line_indices =~= wanted.hunks[h as int].line_indices);
    assert(next.hunks =~= wanted.hunks);
    assert(next =~= wanted);
}

/// The lines of a new file are read as added lines.
proof fn lemma_added_state(
    before: Seq<Seq<char>>,
    path: Seq<char>,
    mode: Seq<char>,
    n: usize,
    lines: Seq<Seq<char>>,
)
    requires
        before.len() + lines.len() + 5 <= usize::MAX,
        forall|i: int| 0 <= i < lines.len() ==> !text::starts_with(#[trigger] lines[i], "++ "@),
    ensures
        diff_parser::parse_lines(before + header_raws(path, mode, n as nat) + added_raws(lines))
            == state_after(diff_parser::parse_lines(before), path, mode, n, lines),
    decreases lines.len(),
{
    let head = before + header_raws(path, mode, n as nat);
    if lines.len() == 0 {
        lemma_header_state(before, path, mode, n);
        assert(head + added_raws(lines) =~= head);
        assert(lines =~= seq![]);
    } else {
        let init = lines.drop_last();
        let all = head + added_raws(lines);
        assert forall|i: int| 0 <= i < init.len() implies !text::starts_with(
            #[trigger] init[i],
            "++ "@,
        ) by {
            assert(!text::starts_with(lines[i], "++ "@));
        }
        lemma_added_state(before, path, mode, n, init);
        parser_laws::lemma_parse_lens(before);
        assert(all.drop_last() =~= head + added_raws(init));
        assert(all.last() == added_raw(lines.last()));
        assert(!text::starts_with(lines[lines.len() - 1], "++ "@));
        lemma_added_step(
            diff_parser::parse_lines(before),
            path,
            mode,
            n,
            init,
            lines.last(),
        );
        assert(init.push(lines.last()) =~= lines);
    }
}

/// The lines of the diff of a new file.
proof fn lemma_file_lines(path: Seq<char>, mode: Seq<char>, content: Seq<char>)
    requires
        number::all_digits(mode),
        text::split_terminator(content, '\n').len() <= usize::MAX,
    ensures
        text::lines_of(untracked::text_diff(path, mode, content)) == header_raws(
            path,
            mode,
            text::split_terminator(content, '\n').len(),
        ) + added_raws(text::split_terminator(content, '\n')) + (
        if untracked::ends_with_newline(content) {
            seq![]
        } else {
            seq!["\\ No newline at end of file"@]
        }),
{
    let lines = text::split_terminator(content, '\n');
    let n = lines.len();
    let newline = "\n"@;
    reveal_strlit("\n");
    reveal_strlit("\nnew file mode ");
    reveal_strlit("new file mode ");
    reveal_strlit("\n--- /dev/null\n+++ ");
    reveal_strlit("--- /dev/null");
    reveal_strlit("+++ ");
    reveal_strlit(" @@\n");
    reveal_strlit(" @@");
    reveal_strlit("\\ No newline at end of file\n");
    reveal_strlit("\\ No newline at end of file");
    let raws = header_raws(path, mode, n);
    let note_line = "\\ No newline at end of file"@;
    let none: Seq<char> = seq![];
    let note = if untracked::ends_with_newline(content) {
        none
    } else {
        note_line + (newline + none)
    };
    let t5 = untracked::added_lines(lines) + note;
    let t4 = raws[4] + (newline + t5);
    let t3 = raws[3] + (newline + t4);
    let t2 = raws[2] + (newline + t3);
    let t1 = raws[1] + (newline + t2);
    let t0 = raws[0] + (newline + t1);
    let whole = untracked::text_diff(path, mode, content);
    assert(note_line + newline =~= "\\ No newline at end of file\n"@);
    assert(note_line + (newline + none) =~= "\\ No newline at end of file\n"@);
    assert(untracked::content_hunk(content) =~= t4);
    assert("\nnew file mode "@ =~= newline + "new file mode "@);
    assert("\n--- /dev/null\n+++ "@ =~= newline + ("--- /dev/null"@ + (newline + "+++ "@)));
    assert(whole =~= t0);
    lemma_path_ends("a/"@ + path);
    lemma_path_ends("b/"@ + path);
    lemma_header_lines(path, mode);
    let same = header_raws(path, mode, 0);
    assert(same[0] == raws[0] && same[1] == raws[1] && same[2] == raws[2] && same[3] == raws[3]);
    lemma_add_header(n as usize);
    lemma_first_line(raws[0], t1);
    lemma_first_line(raws[1], t2);
    lemma_first_line(raws[2], t3);
    lemma_first_line(raws[3], t4);
    lemma_first_line(raws[4], t5);
    text::lemma_split_char_nonempty(content, '\n');
    lemma_split_lines(content);
    assert forall|i: int| 0 <= i < lines.len() implies is_one_line(#[trigger] lines[i]) by {
        assert(lines[i] == text::split_char(content, '\n')[i]);
    }
    lemma_added_lines(lines, note);
    let end = text::lines_of(note);
    if untracked::ends_with_newline(content) {
        assert(end =~= seq![]);
    } else {
        lemma_first_line(note_line, none);
        assert(end =~= seq![note_line]);
    }
    assert(text::lines_of(t0) =~= raws + (added_raws(lines) + end));
    assert(raws + (added_raws(lines) + end) =~= raws + added_raws(lines) + end);
}

/// The lines before those of a new file have no line end in them.
proof fn lemma_header_lines(path: Seq<char>, mode: Seq<char>)
    requires
        number::all_digits(mode),
    ensures
        forall|k: int|
            0 <= k < 4 ==> is_one_line(#[trigger] header_raws(path, mode, 0)[k])
                && text::chomp_cr(header_raws(path, mode, 0)[k]) == header_raws(path, mode, 0)[k],
{
    reveal_strlit("diff --git ");
    reveal_strlit(" ");
    reveal_strlit("new file mode ");
    reveal_strlit("--- /dev/null");
    reveal_strlit("+++ ");
    lemma_path_ends("a/"@ + path);
    lemma_path_ends("b/"@ + path);
    let old = untracked::quoted_path("a/"@ + path);
    let new = untracked::quoted_path("b/"@ + path);
    let git = git_line(path);
    assert(git.last() == new.last());
    assert forall|j: int| 0 <= j < git.len() implies #[trigger] git[j] != '\n' by {
        let a = 11 + old.len();
        if 11 <= j < a {
            assert(git[j] == old[j - 11]);
        } else if j >= a + 1 {
            assert(git[j] == new[j - a - 1]);
        }
    }
    let second = "new file mode "@ + mode;
    assert forall|j: int| 0 <= j < second.len() implies #[trigger] second[j] != '\n' && second[j]
        != '\r' by {
        if j >= 14 {
            assert(number::is_digit(mode[j - 14]));
        }
    }
    let fourth = new_line(path);
    assert(fourth.last() == new.last());
    assert forall|j: int| 0 <= j < fourth.len() implies #[trigger] fourth[j] != '\n' by {
        if j >= 4 {
            assert(fourth[j] == new[j - 4]);
        }
    }
}

/// Lines that cannot be selected are filtered out.
proof fn lemma_none_selectable(lines: Seq<DiffLineView>)
    requires
        forall|i: int| 0 <= i < lines.len() ==> !(#[trigger] lines[i]).selectable,
    ensures
        diff_parser::selectable_lines(lines) == Seq::<DiffLineView>::empty(),
    decreases lines.len(),
{
    reveal(Seq::filter);
    if lines.len() > 0 {
        lemma_none_selectable(lines.drop_last());
        assert(!lines[lines.len() - 1].selectable);
    }
}

/// Lines that can be selected stay.
proof fn lemma_all_selectable(lines: Seq<DiffLineView>)
    requires
        forall|i: int| 0 <= i < lines.len() ==> (#[trigger] lines[i]).selectable,
    ensures
        diff_parser::selectable_lines(lines) == lines,
    decreases lines.len(),
{
    reveal(Seq::filter);
    if lines.len() > 0 {
        lemma_all_selectable(lines.drop_last());
        assert(lines[lines.len() - 1].selectable);
        assert(lines.drop_last().push(lines.last()) =~= lines);
    }
}

/// The line that says that the last line has no end is a note in the hunk.
proof fn lemma_note_step(state: ParseState, h: usize)
    requires
        state.current_hunk == Some(h),
    ensures
        state.step("\\ No newline at end of file"@) == state.hunk_body_line(
            "\\ No newline at end of file"@,
            h,
            LineKind::Note,
        ),
{
    reveal_strlit("diff --git ");
    reveal_strlit("--- ");
    reveal_strlit("+++ ");
    reveal_strlit("@@ ");
    reveal_strlit("\\ No newline at end of file");
    let raw = "\\ No newline at end of file"@;
    lemma_other_start(raw, "diff --git "@);
    lemma_other_start(raw, "--- "@);
    lemma_other_start(raw, "+++ "@);
    lemma_other_start(raw, "@@ "@);
}

/// No line of a text begins with `++ `: behind a plus sign such a line reads as the name of a
/// file.
pub open spec fn no_header_lines(content: Seq<char>) -> bool {
    forall|i: int|
        0 <= i < text::split_terminator(content, '\n').len() ==> !text::starts_with(
            #[trigger] text::split_terminator(content, '\n')[i],
            "++ "@,
        )
}

/// What is read, after other lines, of the diff of a new file: the lines before those of the file,
/// those of the file, and where its last line has no end a note.
proof fn lemma_file_parsed(
    before: Seq<Seq<char>>,
    path: Seq<char>,
    mode: Seq<char>,
    content: Seq<char>,
) -> (notes: Seq<DiffLineView>)
    requires
        number::all_digits(mode),
        before.len() + text::split_terminator(content, '\n').len() + 6 <= usize::MAX,
        no_header_lines(content),
    ensures
        ({
            let lines = text::split_terminator(content, '\n');
            let base = diff_parser::parse_lines(before);
            let all = diff_parser::parse_lines(
                before + text::lines_of(untracked::text_diff(path, mode, content)),
            );
            let h = base.hunks.len() as usize;
            let hunk = all.hunks.last();
            &&& all.lines == base.lines + header_views(path, mode, lines.len(), h) + added_views(
                path,
                lines,
                h,
            ) + notes
            &&& forall|i: int|
                0 <= i < notes.len() ==> !(#[trigger] notes[i]).selectable && notes[i].file_path
                    == Some(path)
            &&& all.hunks.len() == base.hunks.len() + 1
            &&& all.hunks.drop_last() == base.hunks
            &&& hunk.file_path == Some(path)
            &&& (hunk.old_start, hunk.old_count) == (0usize, 0usize)
            &&& (hunk.new_start, hunk.new_count) == (1usize, lines.len() as usize)
        }),
{
    let lines = text::split_terminator(content, '\n');
    let n = lines.len() as usize;
    let file = text::lines_of(untracked::text_diff(path, mode, content));
    let base = diff_parser::parse_lines(before);
    let h = base.hunks.len() as usize;
    let head = header_raws(path, mode, n as nat);
    let raws = before + head + added_raws(lines);
    let state = state_after(base, path, mode, n, lines);
    parser_laws::lemma_parse_lens(before);
    lemma_file_lines(path, mode, content);
    lemma_added_state(before, path, mode, n, lines);
    if untracked::ends_with_newline(content) {
        let none: Seq<DiffLineView> = seq![];
        assert(before + file =~= raws);
        assert(state.lines + none =~= state.lines);
        assert(state.hunks.drop_last() =~= base.hunks);
        none
    } else {
        let note = "\\ No newline at end of file"@;
        let all = before + file;
        assert(all =~= raws.push(note));
        assert(all.drop_last() =~= raws);
        lemma_note_step(state, h);
        let next = state.hunk_body_line(note, h, LineKind::Note);
        assert(diff_parser::parse_lines(all) == next);
        let notes = seq![next.lines.last()];
        assert(next.lines =~= state.lines + notes);
        assert(next.hunks.drop_last() =~= base.hunks);
        notes
    }
}

/// The diff that is written for an untracked text file, behind any other lines, is read back as one
/// hunk of that file after the hunks of the other lines. The lines of the file are the lines that
/// can be selected in it, added and numbered from one. This leaves out files with a line that
/// begins with `++ `.
pub proof fn law_untracked_file_is_read_back(
    before: Seq<Seq<char>>,
    path: Seq<char>,
    mode: Seq<char>,
    content: Seq<char>,
)
    requires
        number::all_digits(mode),
        before.len() + text::split_terminator(content, '\n').len() + 6 <= usize::MAX,
        no_header_lines(content),
    ensures
        ({
            let lines = text::split_terminator(content, '\n');
            let base = diff_parser::parse_lines(before);
            let all = diff_parser::parse_lines(
                before + text::lines_of(untracked::text_diff(path, mode, content)),
            );
            let hunk = all.hunks.last();
            &&& diff_parser::selectable_lines(all.lines) == diff_parser::selectable_lines(
                base.lines,
            ) + added_views(path, lines, base.hunks.len() as usize)
            &&& forall|i: int|
                base.lines.len() <= i < all.lines.len() ==> (#[trigger] all.lines[i]).file_path
                    == Some(path)
            &&& all.hunks.len() == base.hunks.len() + 1
            &&& all.hunks.drop_last() == base.hunks
            &&& hunk.file_path == Some(path)
            &&& (hunk.old_start, hunk.old_count) == (0usize, 0usize)
            &&& (hunk.new_start, hunk.new_count) == (1usize, lines.len() as usize)
        }),
{
    let lines = text::split_terminator(content, '\n');
    let base = diff_parser::parse_lines(before);
    let all = diff_parser::parse_lines(
        before + text::lines_of(untracked::text_diff(path, mode, content)),
    );
    let h = base.hunks.len() as usize;
    let head = header_views(path, mode, lines.len(), h);
    let added = added_views(path, lines, h);
    let notes = lemma_file_parsed(before, path, mode, content);
    lemma_selectable_middle(head, added, notes);
    let file = head + added + notes;
    Seq::filter_distributes_over_add(base.lines, file, |line: DiffLineView| line.selectable);
    assert(base.lines + file =~= all.lines);
    assert forall|i: int| base.lines.len() <= i < all.lines.len() implies (
    #[trigger] all.lines[i]).file_path == Some(path) by {
        let k = i - base.lines.len();
        assert(all.lines[i] == file[k]);
        if k >= 5 + added.len() {
            assert(file[k] == notes[k - 5 - added.len()]);
        }
    }
}

/// Of lines of which those in the middle can be selected, the filter keeps those.
proof fn lemma_selectable_middle(
    head: Seq<DiffLineView>,
    middle: Seq<DiffLineView>,
    tail: Seq<DiffLineView>,
)
    requires
        forall|i: int| 0 <= i < head.len() ==> !(#[trigger] head[i]).selectable,
        forall|i: int| 0 <= i < middle.len() ==> (#[trigger] middle[i]).selectable,
        forall|i: int| 0 <= i < tail.len() ==> !(#[trigger] tail[i]).selectable,
    ensures
        diff_parser::selectable_lines(head + middle + tail) == middle,
{
    let pred = |line: DiffLineView| line.selectable;
    let none = Seq::<DiffLineView>::empty();
    lemma_none_selectable(head);
    lemma_all_selectable(middle);
    lemma_none_selectable(tail);
    Seq::filter_distributes_over_add(head, middle, pred);
    Seq::filter_distributes_over_add(head + middle, tail, pred);
    assert(none + middle + none =~= middle);
}

} // verus!
