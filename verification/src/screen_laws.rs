//! What is shown where on the screen.

use crate::app;
use crate::app::{AppView, Area, RowView};
use crate::app_laws;
use crate::comments::CommentView;
use crate::diff_parser::{DiffLineView, LineKind};
use crate::editor::EditorView;
use crate::events::{Event, MouseButton, MouseEvent, MouseEventKind};
use crate::key_laws;
use crate::number;
use crate::payload;
use crate::render;
use crate::render::{Color, ScreenView};
use crate::text;
use vstd::prelude::*;

verus! {

/// Row `row` is highlighted: it can be selected, and is the selected row or, in visual mode, lies in
/// the range.
pub open spec fn is_lit(state: AppView, row: int) -> bool {
    &&& state.is_target(row)
    &&& if state.visual {
        key_laws::is_within(state, row)
    } else {
        state.selected == Some(row)
    }
}

/// While no comment is edited, the body shows the rows from the scroll on, as many as fit: the line
/// `k` lines below the top is row `scroll + k`, and exactly the selected rows are reversed.
pub proof fn law_body_shows_rows_from_scroll(
    state: AppView,
    height: int,
    width: int,
    elapsed_ms: int,
    k: int,
)
    requires
        state.editor is None,
        state.rows.len() > 0,
        state.scroll >= 0,
        height >= 0,
    ensures
        ({
            let shown = state.body_lines(height, width, elapsed_ms);
            let left = state.rows.len() - state.scroll;
            &&& left >= height ==> shown.len() == height
            &&& 0 <= left < height ==> shown.len() == left
            &&& left < 0 ==> shown.len() == 0
            &&& 0 <= k < shown.len() ==> {
                &&& shown[k].text == state.row_text(state.rows[state.scroll + k])
                &&& shown[k].style.reversed <==> is_lit(state, state.scroll + k)
            }
        }),
{
}

/// Without rows the body says why: the error, or that there is no diff.
pub proof fn law_empty_body(state: AppView, height: int, width: int, elapsed_ms: int)
    requires
        state.editor is None,
        state.rows.len() == 0,
    ensures
        ({
            let shown = state.body_lines(height, width, elapsed_ms);
            &&& shown.len() == 1
            &&& state.error matches Some(error) ==> shown[0].text == error
            &&& state.error is None ==> shown[0].text == "No uncommitted tracked diff."@
        }),
{
}

/// After any layout the selected row is one of the lines that are shown, and is highlighted there.
#[verifier::spinoff_prover]
pub proof fn law_selected_row_is_on_screen(
    state: AppView,
    body: Area,
    width: int,
    elapsed_ms: int,
    row: int,
)
    requires
        state.inv(),
        state.editor is None,
        state.selected == Some(row),
        body.height > 0,
    ensures
        ({
            let next = state.after_layout(body);
            let shown = next.body_lines(body.height as int, width, elapsed_ms);
            let k = row - next.scroll;
            &&& next.rows == state.rows && next.selected == state.selected && next.body == body
            &&& 0 <= k < shown.len()
            &&& shown[k].text == state.row_text(state.rows[row])
            &&& shown[k].style.reversed
        }),
{
}

/// The row that is shown at a row of the terminal is the row that a press of the left button there
/// selects, where it can be selected.
pub proof fn law_click_selects_what_is_shown(state: AppView, width: int, elapsed_ms: int, k: int)
    requires
        state.inv(),
        state.editor is None,
        state.rows.len() > 0,
        0 <= k < state.body_lines(state.body.height as int, width, elapsed_ms).len(),
        state.body.y + k < u16::MAX,
        state.is_target(state.scroll + k),
    ensures
        ({
            let shown = state.body_lines(state.body.height as int, width, elapsed_ms);
            let next = state.after_event(
                Event::Mouse(
                    MouseEvent {
                        kind: MouseEventKind::Down(MouseButton::Left),
                        row: (state.body.y + k) as u16,
                    },
                ),
            );
            next.selected matches Some(row) && row == state.scroll + k && shown[k].text
                == state.row_text(state.rows[row])
        }),
{
    key_laws::law_press_begins_a_range(state, k);
}

/// The row of a line shows its two line numbers in columns of six, and behind a bar the line.
#[verifier::spinoff_prover]
pub proof fn law_row_of_a_line(state: AppView, i: int)
    requires
        0 <= i < state.parsed.lines.len(),
    ensures
        ({
            let line = state.parsed.lines[i];
            let shown = state.row_text(RowView::Diff(i));
            let old = number::opt_decimal(line.old_lineno);
            let new = number::opt_decimal(line.new_lineno);
            &&& shown.len() >= line.raw.len()
            &&& shown.skip(shown.len() - line.raw.len()) == line.raw
            &&& old.len() <= 6 && new.len() <= 6 ==> {
                &&& shown.len() == 16 + line.raw.len()
                &&& shown.subrange(6 - old.len(), 6) == old
                &&& shown.subrange(13 - new.len(), 13) == new
                &&& shown.subrange(13, 16) == seq![' ', '|', ' ']
                &&& forall|j: int|
                    0 <= j < 6 - old.len() || 6 <= j < 13 - new.len() ==> (#[trigger] shown[j]) == ' '
            }
        }),
{
    reveal_strlit(" ");
    reveal_strlit(" | ");
    let line = state.parsed.lines[i];
    let shown = state.row_text(RowView::Diff(i));
    let old = number::opt_decimal(line.old_lineno);
    let new = number::opt_decimal(line.new_lineno);
    assert(shown.skip(shown.len() - line.raw.len()) =~= line.raw);
    if old.len() <= 6 && new.len() <= 6 {
        assert(shown.subrange(6 - old.len(), 6) =~= old);
        assert(shown.subrange(13 - new.len(), 13) =~= new);
        assert(shown.subrange(13, 16) =~= seq![' ', '|', ' ']);
    }
}

/// The row of a comment shows its first line behind `>> `, below the bars of the lines, and how many
/// lines follow.
#[verifier::spinoff_prover]
pub proof fn law_row_of_a_comment(state: AppView, comment: CommentView)
    requires
        text::lines_of(comment.text).len() > 0,
    ensures
        ({
            let shown = state.row_text(RowView::Comment(comment));
            let lines = text::lines_of(comment.text);
            &&& shown.len() >= 19
            &&& forall|j: int| 0 <= j < 14 ==> (#[trigger] shown[j]) == ' '
            &&& shown.subrange(14, 19) == seq!['|', ' ', '>', '>', ' ']
            &&& lines.len() == 1 ==> shown.skip(19) == lines[0]
            &&& lines.len() > 1 ==> shown.skip(19) == lines[0] + " (+"@ + number::decimal(
                (lines.len() - 1) as nat,
            ) + " lines)"@
        }),
{
    reveal_strlit(" ");
    reveal_strlit(" | >> ");
    let shown = state.row_text(RowView::Comment(comment));
    assert(shown.skip(19) =~= render::comment_summary(comment.text));
    assert(shown.subrange(14, 19) =~= seq!['|', ' ', '>', '>', ' ']);
}

/// Added lines are green, deleted lines red, context has no color, headers of hunks are cyan and
/// comments yellow; being selected changes no color.
pub proof fn law_colors(state: AppView, i: int, selected: bool)
    requires
        0 <= i < state.parsed.lines.len(),
    ensures
        ({
            let kind = state.parsed.lines[i].kind;
            let style = state.row_style(RowView::Diff(i), selected);
            &&& kind == LineKind::Add ==> style.fg == Some(Color::Green)
            &&& kind == LineKind::Delete ==> style.fg == Some(Color::Red)
            &&& kind == LineKind::Context ==> style.fg is None
            &&& kind == LineKind::Hunk ==> style.fg == Some(Color::Cyan)
            &&& kind == LineKind::File || kind == LineKind::Meta || kind == LineKind::Note
                ==> style.fg == Some(Color::Blue) && style.dim
            &&& style.bg is None
            &&& style.reversed == selected
            &&& selected ==> style.bold
        }),
        forall|comment: CommentView| #[trigger]
            state.row_style(RowView::Comment(comment), selected).fg == Some(Color::Yellow),
{
}

/// The lines of rows without the editor.
proof fn lemma_plain_rows(
    state: AppView,
    start: int,
    editor: EditorView,
    cursor_visible: bool,
    width: int,
    k: int,
)
    requires
        0 <= start <= state.rows.len(),
        editor.replacing_comment is None,
        state.editor_row(editor) matches Some(row) ==> row < start,
    ensures
        ({
            let shown = state.rows_with_editor(start, editor, cursor_visible, width);
            &&& shown.len() == state.rows.len() - start
            &&& 0 <= k < shown.len() ==> shown[k] == state.row_line(start + k)
        }),
    decreases state.rows.len() - start,
{
    if start < state.rows.len() {
        lemma_plain_rows(state, start + 1, editor, cursor_visible, width, k - 1);
    }
}

/// The lines of rows up to the one that the editor stands below, the editor, and the other rows.
#[verifier::spinoff_prover]
proof fn lemma_editor_rows(
    state: AppView,
    start: int,
    editor: EditorView,
    cursor_visible: bool,
    width: int,
    row: int,
    k: int,
)
    requires
        0 <= start <= row < state.rows.len(),
        editor.replacing_comment is None,
        state.editor_row(editor) == Some(row),
    ensures
        ({
            let all = state.rows_with_editor(start, editor, cursor_visible, width);
            let panel = render::editor_rows(editor, cursor_visible, width);
            let n = row - start + 1;
            &&& all.len() == state.rows.len() - start + panel.len()
            &&& 0 <= k < n ==> all[k] == state.row_line(start + k)
            &&& n <= k < n + panel.len() ==> all[k] == panel[k - n]
            &&& n + panel.len() <= k < all.len() ==> all[k] == state.row_line(
                start + k - panel.len(),
            )
        }),
    decreases row - start,
{
    let panel = render::editor_rows(editor, cursor_visible, width);
    if start == row {
        lemma_plain_rows(state, start + 1, editor, cursor_visible, width, k - 1 - panel.len());
    } else {
        lemma_editor_rows(state, start + 1, editor, cursor_visible, width, row, k - 1);
    }
}

/// While a new comment is written, the editor stands directly below the row of the last line that is
/// commented on, between the rows from the scroll to that one and the rows after it; what does not
/// fit is cut off.
#[verifier::spinoff_prover]
pub proof fn law_editor_stands_below_its_line(
    state: AppView,
    editor: EditorView,
    row: int,
    i: int,
    height: int,
    width: int,
    elapsed_ms: int,
    k: int,
)
    requires
        state.editor == Some(editor),
        editor.replacing_comment is None,
        editor.target_lines.len() > 0,
        0 <= state.scroll <= row < state.rows.len(),
        state.rows[row] == RowView::Diff(i),
        0 <= i < state.parsed.lines.len(),
        state.parsed.lines[i].id() == editor.target_lines.last().id(),
        forall|j: int|
            0 <= j < row ==> state.row_id(#[trigger] state.rows[j]) != Some(
                editor.target_lines.last().id(),
            ),
        height >= 0,
    ensures
        ({
            let shown = state.body_lines(height, width, elapsed_ms);
            let panel = render::editor_rows(editor, elapsed_ms / 500 % 2 == 0, width);
            let n = row - state.scroll + 1;
            let total = state.rows.len() - state.scroll + panel.len();
            &&& total >= height ==> shown.len() == height
            &&& total < height ==> shown.len() == total
            &&& 0 <= k < shown.len() && k < n ==> shown[k] == state.row_line(state.scroll + k)
            &&& n <= k < shown.len() && k < n + panel.len() ==> shown[k] == panel[k - n]
            &&& n + panel.len() <= k < shown.len() ==> shown[k] == state.row_line(
                state.scroll + k - panel.len(),
            )
        }),
{
    let id = editor.target_lines.last().id();
    let pred = |row: RowView| state.row_id(row) == Some(id);
    app::lemma_first_where_is(state.rows, pred, row);
    let visible = render::is_cursor_visible(elapsed_ms);
    lemma_editor_rows(state, state.scroll, editor, visible, width, row, k);
}

/// The row of the comment that is replaced is left out, and any other row is shown.
pub proof fn law_replaced_comment_is_left_out(
    state: AppView,
    editor: EditorView,
    i: int,
    cursor_visible: bool,
    width: int,
)
    requires
        0 <= i < state.rows.len(),
        state.editor_row(editor) != Some(i),
    ensures
        ({
            let shown = state.row_with_editor(i, editor, cursor_visible, width);
            let replaced = state.rows[i] matches RowView::Comment(comment)
                && editor.replacing_comment == Some(comment.created_at);
            &&& replaced ==> shown.len() == 0
            &&& !replaced ==> shown == seq![state.row_line(i)]
        }),
{
}

/// The editor shows each line of its text behind `| >> `, with the cursor before the character that
/// it stands before, in the full width.
#[verifier::spinoff_prover]
pub proof fn law_editor_shows_its_text(
    editor: EditorView,
    cursor_visible: bool,
    width: int,
    i: int,
)
    requires
        editor.wf(),
        0 <= i < editor.lines.len(),
    ensures
        ({
            let panel = render::editor_rows(editor, cursor_visible, width);
            let line = editor.lines[i];
            let shown = panel[i + 2].text;
            let head = "       | >> "@;
            let cursor = if cursor_visible {
                '|'
            } else {
                ' '
            };
            let written = if i == editor.y {
                head + line.take(editor.x) + seq![cursor] + line.skip(editor.x)
            } else {
                head + line
            };
            &&& panel.len() == editor.lines.len() + 3
            &&& shown.len() >= written.len() && shown.len() >= width
            &&& shown.take(written.len() as int) == written
            &&& forall|j: int| written.len() <= j < shown.len() ==> (#[trigger] shown[j]) == ' '
        }),
{
    let panel = render::editor_rows(editor, cursor_visible, width);
    let line = editor.lines[i];
    let shown = panel[i + 2].text;
    let head = "       | >> "@;
    let cursor = if cursor_visible {
        '|'
    } else {
        ' '
    };
    let written = if i == editor.y {
        head + line.take(editor.x) + seq![cursor] + line.skip(editor.x)
    } else {
        head + line
    };
    assert(panel[i + 2] == render::editor_text_line(editor, i, cursor_visible, width));
    if i == editor.y {
        assert(head + (line.take(editor.x).push(cursor) + line.skip(editor.x)) =~= written);
    }
    assert(shown =~= written + render::spaces(width - written.len()));
    assert(shown.take(written.len() as int) =~= written);
}

/// The cursor is shown and hidden for half a second each.
pub proof fn law_cursor_blinks(elapsed_ms: int)
    requires
        elapsed_ms >= 0,
    ensures
        elapsed_ms < 500 ==> render::is_cursor_visible(elapsed_ms),
        render::is_cursor_visible(elapsed_ms + 500) != render::is_cursor_visible(elapsed_ms),
{
    assert((elapsed_ms + 500) / 500 == elapsed_ms / 500 + 1);
}

/// The title names the mode, what is compared and how many hunks there are; the status line shows
/// the status, on red where there is an error; and the detail names the selected lines or comment.
pub proof fn law_frame_of_the_screen(state: AppView, elapsed_ms: int)
    ensures
        ({
            let title = state.title(elapsed_ms);
            let lines = state.selection_lines();
            let compared = if state.config.diff.include_untracked {
                "git diff HEAD + untracked"@
            } else {
                "git diff HEAD"@
            };
            &&& title.len() == 4
            &&& title[0].text == " diffmark "@
            &&& state.editor is Some ==> title[1].text == "["@ + "COMMENT"@ + "]"@
            &&& state.editor is None && state.visual ==> title[1].text == "["@ + "VISUAL"@ + "]"@
            &&& state.editor is None && !state.visual ==> title[1].text == "["@ + "NORMAL"@ + "]"@
            &&& title[2].text == " | "@ + compared + " | "@ + number::decimal(
                state.parsed.hunks.len(),
            ) + " hunks | watching "@
            &&& state.status_line().text == " "@ + state.status + " "@
            &&& state.status_line().style.bg == Some(
                if state.error is Some {
                    Color::Red
                } else {
                    Color::Cyan
                },
            )
            &&& lines.len() > 0 ==> (lines[0].file_path matches Some(path) ==> {
                &&& lines.len() == 1 ==> state.detail() == path + " | "@ + payload::target_text(
                    lines[0],
                )
                &&& lines.len() > 1 ==> state.detail() == path + " | "@
                    + payload::target_lines_text(lines)
            })
            &&& lines.len() == 0 && state.comment_for_edit() is None ==> state.detail()
                == "No selectable diff line."@
        }),
{
}

/// The rows are the lines of the diff with the comments below them and nothing else: the row of a
/// line comes directly behind the comments of the line before.
pub proof fn law_rows_hold_nothing_else(
    lines: Seq<DiffLineView>,
    store: Map<Seq<char>, Seq<CommentView>>,
    i: int,
)
    requires
        0 <= i < lines.len(),
    ensures
        app_laws::row_of_line(lines, store, 0) == 0,
        store.contains_key(lines[i].id()) ==> app_laws::row_of_line(lines, store, i + 1)
            == app_laws::row_of_line(lines, store, i) + 1 + store[lines[i].id()].len(),
        !store.contains_key(lines[i].id()) ==> app_laws::row_of_line(lines, store, i + 1)
            == app_laws::row_of_line(lines, store, i) + 1,
        app_laws::row_of_line(lines, store, lines.len() as int) == app::rows_of(lines, store).len(),
{
    assert(lines.take(i + 1).drop_last() =~= lines.take(i));
    assert(lines.take(i + 1).last() == lines[i]);
    assert(lines.take(lines.len() as int) =~= lines);
}

/// The help names the keys of the editor while a comment is edited, and else those that move and
/// select.
pub proof fn law_help(state: AppView)
    ensures
        state.editor is Some ==> state.help().text
            == " Enter submit | Ctrl-J newline | Esc cancel | arrows move | Backspace/Delete edit "@,
        state.editor is None ==> state.help().text
            == " j/k move | V visual | f/b page | drag select | Enter comment | q quit "@,
{
}

/// The mark that shows that the diff is watched is bright for a third of the time, goes on in the
/// same way every 1.8 seconds, and fades as it brightened.
pub proof fn law_mark_pulses(elapsed_ms: int)
    requires
        elapsed_ms >= 0,
    ensures
        render::pulse(elapsed_ms + 1800) == render::pulse(elapsed_ms),
        elapsed_ms < 300 || 1500 <= elapsed_ms < 1800 ==> render::pulse(elapsed_ms).fg == Some(
            Color::DarkGray,
        ) && render::pulse(elapsed_ms).dim,
        300 <= elapsed_ms < 600 || 1200 <= elapsed_ms < 1500 ==> render::pulse(elapsed_ms).fg
            == Some(Color::Green) && render::pulse(elapsed_ms).dim,
        600 <= elapsed_ms < 1200 ==> render::pulse(elapsed_ms).fg == Some(Color::Green)
            && !render::pulse(elapsed_ms).dim,
{
    assert((elapsed_ms + 1800) / 300 == elapsed_ms / 300 + 6);
    assert((elapsed_ms / 300 + 6) % 6 == elapsed_ms / 300 % 6);
}

/// Where a comment is selected, the detail names its file and its lines.
pub proof fn law_detail_of_a_comment(state: AppView, comment: CommentView, path: Seq<char>)
    requires
        state.selection_lines().len() == 0,
        state.comment_for_edit() == Some(comment),
        comment.target_lines.len() > 0,
        comment.target_lines[0].file_path == Some(path),
    ensures
        comment.target_lines.len() == 1 ==> state.detail() == path + " | comment at "@
            + payload::target_text(comment.target_lines[0]) + " | Enter to edit"@,
        comment.target_lines.len() > 1 ==> state.detail() == path + " | comment at "@
            + payload::target_lines_text(comment.target_lines) + " | Enter to edit"@,
{
}

/// The first two parts of the screen are the title and the detail, the third shows the rows in its
/// own height and width, and the last two are the help and the status.
pub proof fn law_parts_of_the_screen(state: AppView, parts: Seq<Area>, elapsed_ms: int)
    requires
        parts.len() == 5,
    ensures
        state.screen(parts, elapsed_ms) matches ScreenView::Parts {
            title,
            detail,
            body,
            help,
            status,
        } && {
            &&& title.0 == parts[0] && title.1 == state.title(elapsed_ms)
            &&& detail.0 == parts[1] && detail.1.text == state.detail()
            &&& body.0 == parts[2] && body.1 == state.body_lines(
                parts[2].height as int,
                parts[2].width as int,
                elapsed_ms,
            )
            &&& help.0 == parts[3] && help.1 == state.help()
            &&& status.0 == parts[4] && status.1 == state.status_line()
        },
        forall|area: Area| #[trigger]
            render::is_too_small(area) <==> area.height < 6 || area.width < 30,
{
}

/// Where the last line that is commented on is not among the rows, the editor stands below the
/// selected row.
pub proof fn law_editor_without_its_line(state: AppView, editor: EditorView)
    requires
        editor.target_lines.len() > 0,
        forall|j: int|
            0 <= j < state.rows.len() ==> state.row_id(#[trigger] state.rows[j]) != Some(
                editor.target_lines.last().id(),
            ),
    ensures
        state.editor_row(editor) == state.selected,
{
    app::lemma_first_where(
        state.rows,
        |row: RowView| state.row_id(row) == Some(editor.target_lines.last().id()),
    );
}

} // verus!
