//! What holds of every state of the program.

use crate::app;
use crate::app::{AppView, Area, RowView};
use crate::comments;
use crate::comments::CommentView;
use crate::control;
use crate::diff_parser;
use crate::diff_parser::DiffLineView;
use crate::editor;
use crate::editor::EditorView;
use crate::events;
use crate::events::{Event, KeyCode, KeyEvent, KeyModifiers, MouseButton, MouseEvent, MouseEventKind};
use crate::git_diff::GitDiffView;
use crate::parser_laws;
use crate::payload_laws;
use crate::render;
use crate::selection;
use crate::text;
use vstd::prelude::*;

verus! {

impl AppView {
    /// The row exists and can be selected.
    pub open spec fn is_target(self, row: int) -> bool {
        0 <= row < self.rows.len() && self.row_selectable(self.rows[row])
    }

    /// A row that is named exists and can be selected.
    pub open spec fn is_opt_target(self, row: Option<int>) -> bool {
        row matches Some(row) ==> self.is_target(row)
    }

    /// The rows are those of the diff and the comments; the ends of the selection are rows that
    /// can be selected; a range has a beginning, and the mouse draws one only where there is one;
    /// and the editor is well formed.
    pub open spec fn inv(self) -> bool {
        &&& self.rows == app::rows_of(self.parsed.lines, self.comments)
        &&& self.is_opt_target(self.selected)
        &&& self.is_opt_target(self.anchor)
        &&& self.is_opt_target(self.drag)
        &&& self.visual ==> self.anchor is Some
        &&& self.drag is Some ==> self.visual
        &&& self.scroll >= 0
        &&& self.wf()
    }
}

/// Each of the rows that can be selected is one.
pub proof fn lemma_selectable(state: AppView, k: int)
    requires
        0 <= k < state.selectable_indices().len(),
    ensures
        state.is_target(state.selectable_indices()[k]),
{
    let all = Seq::new(state.rows.len(), |i: int| i);
    let pred = |i: int| state.row_selectable(state.rows[i]);
    let kept = state.selectable_indices();
    assert(kept.contains(kept[k]));
    all.lemma_filter_contains_rev(pred, kept[k]);
    all.lemma_filter_pred(pred, k);
}

/// Where a row can be selected there is one in the list.
pub proof fn lemma_selectable_nonempty(state: AppView, row: int)
    requires
        state.is_target(row),
    ensures
        state.selectable_indices().len() > 0,
{
    let all = Seq::new(state.rows.len(), |i: int| i);
    let pred = |i: int| state.row_selectable(state.rows[i]);
    all.lemma_filter_contains(pred, row);
    assert(all[row] == row);
    assert(state.selectable_indices().contains(row));
}

/// A step leads to a row that can be selected.
proof fn lemma_stepped(state: AppView, selected: Option<int>, delta: int)
    requires
        state.selectable_indices().len() > 0,
    ensures
        state.is_target(state.stepped(selected, delta)),
{
    let selectable = state.selectable_indices();
    let k = app::clamped(
        selection::position_in(selectable, selected) + delta,
        0,
        selectable.len() - 1,
    );
    lemma_selectable(state, k);
}

/// The first row that can be selected can be selected.
proof fn lemma_first_selectable(state: AppView)
    ensures
        state.is_opt_target(state.first_selectable()),
{
    if state.selectable_indices().len() > 0 {
        lemma_selectable(state, 0);
    }
}

/// The nearest row that can be selected is one of the rows asked for and can be selected, and no
/// other of them is nearer; of two that are equally near it is the first.
pub proof fn law_nearest_row(state: AppView, start: int, end: int, target: int)
    requires
        0 <= start,
        end <= state.rows.len(),
    ensures
        match state.nearest(start, end, target) {
            Some(row) => start <= row < end && state.is_target(row) && forall|other: int|
                start <= other < end && #[trigger] state.is_target(other) ==> app::distance(
                    row,
                    target,
                ) <= app::distance(other, target) && (other < row ==> app::distance(row, target)
                    < app::distance(other, target)),
            None => forall|other: int|
                start <= other < end ==> !#[trigger] state.is_target(other),
        },
    decreases end - start,
{
    if start < end {
        law_nearest_row(state, start, end - 1, target);
    }
}

/// A selected row that exists is shown after the list is scrolled to it.
pub proof fn law_selection_is_visible(state: AppView)
    requires
        state.scroll >= 0,
        state.selected matches Some(row) ==> 0 <= row < state.rows.len(),
    ensures
        state.visible().selected == state.selected,
        state.selected matches Some(row) ==> state.visible().scroll <= row
            < state.visible().scroll + state.height(),
        state.visible().scroll >= 0,
{
}

/// Scrolling to the selected row keeps what holds.
proof fn lemma_visible_inv(state: AppView)
    requires
        state.inv(),
    ensures
        state.visible().inv(),
{
}

/// Moving the selection keeps what holds.
proof fn lemma_moves_inv(state: AppView, delta: int, first: bool)
    requires
        state.inv(),
    ensures
        state.after_move(delta).inv(),
        state.after_edge(first).inv(),
        state.after_exit_visual().inv(),
{
    let selectable = state.selectable_indices();
    if selectable.len() > 0 {
        lemma_stepped(state, state.selected, delta);
        lemma_selectable(state, 0);
        lemma_selectable(state, selectable.len() - 1);
        let stepped = state.stepped(state.selected, delta);
        assert(state.is_target(stepped));
        lemma_visible_inv(AppView { selected: Some(stepped), ..state.single() });
        lemma_visible_inv(AppView { selected: Some(selectable[0]), ..state.single() });
        lemma_visible_inv(AppView { selected: Some(selectable.last()), ..state.single() });
    }
}

/// Ranges keep what holds.
proof fn lemma_ranges_inv(state: AppView, delta: int)
    requires
        state.inv(),
    ensures
        state.after_enter_visual().inv(),
        state.after_extend(delta).inv(),
{
    lemma_first_selectable(state);
    let selectable = state.selectable_indices();
    if let Some(row) = state.drag {
        lemma_selectable_nonempty(state, row);
    }
    if selectable.len() > 0 {
        lemma_selectable(state, 0);
        let selected = match state.selected {
            Some(selected) => selected,
            None => selectable[0],
        };
        lemma_stepped(state, Some(selected), delta);
        assert(state.is_target(state.other_end(selected)));
        lemma_visible_inv(
            AppView {
                selected: Some(state.stepped(Some(selected), delta)),
                anchor: Some(state.other_end(selected)),
                visual: true,
                ..state
            },
        );
    }
}

/// Scrolling keeps what holds.
proof fn lemma_scroll_inv(state: AppView, amount: int)
    requires
        state.inv(),
    ensures
        state.after_scroll(amount).inv(),
{
    let next = state.after_scroll(amount);
    let scroll = app::clamped(state.scroll + amount, 0, state.max_scroll());
    if state.rows.len() > 0 && scroll != state.scroll {
        let moved = AppView {
            scroll,
            anchor: if state.drag is None && !state.visual {
                None
            } else {
                state.anchor
            },
            ..state
        };
        law_nearest_row(
            moved,
            scroll,
            moved.shown_end(),
            app::saturated(scroll + state.offset()),
        );
        if let Some(row) = next.selected {
            assert(moved.is_target(row));
            assert(next.is_target(row));
        }
    }
}

/// An editor that is opened is well formed.
proof fn lemma_opened_editor(lines: Seq<DiffLineView>, comment: CommentView)
    ensures
        editor::new_editor(lines).wf(),
        editor::replacing_editor(lines, comment).wf(),
{
    text::lemma_split_char_nonempty(comment.text, '\n');
}

/// Opening an editor keeps what holds.
proof fn lemma_start_inv(state: AppView)
    requires
        state.inv(),
    ensures
        state.after_start().inv(),
{
    if let Some(comment) = state.comment_for_edit() {
        lemma_opened_editor(comment.target_lines, comment);
    } else {
        lemma_opened_editor(state.selection_lines(), arbitrary());
    }
}

/// The end of a selection with the mouse keeps what holds.
proof fn lemma_mouse_selection_inv(state: AppView)
    requires
        state.inv(),
        state.drag is None,
    ensures
        state.after_mouse_selection().inv(),
{
    let lines = state.selection_lines();
    if lines.len() > 1 {
        if state.anchor is None {
            lemma_one_row(state);
        }
        lemma_start_inv(AppView { visual: true, ..state });
    } else if lines.len() == 1 {
        lemma_start_inv(AppView { visual: false, ..state });
    }
}

/// A selection that is no range is at most one line.
proof fn lemma_one_row(state: AppView)
    requires
        state.inv(),
        state.anchor is None,
    ensures
        state.selection_lines().len() <= 1,
{
    reveal_with_fuel(Seq::filter_map, 2);
    if let Some(row) = state.selected {
        assert(state.selected_rows() =~= seq![state.rows[row]]);
    }
}

/// A report on the mouse keeps what holds.
proof fn lemma_mouse_inv(state: AppView, mouse: MouseEvent)
    requires
        state.inv(),
    ensures
        state.after_mouse(mouse).inv(),
{
    match mouse.kind {
        MouseEventKind::ScrollUp => lemma_scroll_inv(state, -3),
        MouseEventKind::ScrollDown => lemma_scroll_inv(state, 3),
        MouseEventKind::Down(MouseButton::Left) => {
            if let Some(row) = state.target_at(mouse.row) {
                lemma_visible_inv(
                    AppView {
                        selected: Some(row),
                        anchor: Some(row),
                        drag: Some(row),
                        visual: true,
                        ..state
                    },
                );
            }
        },
        MouseEventKind::Drag(MouseButton::Left) => {
            if let Some(row) = state.target_at(mouse.row) {
                lemma_visible_inv(AppView { selected: Some(row), ..state });
            }
        },
        MouseEventKind::Up(MouseButton::Left) => lemma_mouse_selection_inv(
            AppView { drag: None, ..state },
        ),
        _ => {},
    }
}

/// A step keeps what holds.
proof fn lemma_step_inv(state: AppView, delta: int, extend: bool)
    requires
        state.inv(),
    ensures
        state.after_step(delta, extend).inv(),
{
    if extend || state.visual {
        lemma_ranges_inv(state, delta);
    } else {
        lemma_moves_inv(state, delta, true);
    }
}

/// A character keeps what holds while no comment is edited.
proof fn lemma_char_inv(state: AppView, ch: char, modifiers: KeyModifiers)
    requires
        state.inv(),
    ensures
        state.after_char(ch, modifiers).inv(),
{
    if ch == 'V' {
        lemma_moves_inv(state, 0, true);
        lemma_ranges_inv(state, 0);
    } else if ch == 'J' {
        lemma_ranges_inv(state, 1);
    } else if ch == 'K' {
        lemma_ranges_inv(state, -1);
    } else if ch == 'j' {
        lemma_step_inv(state, 1, false);
    } else if ch == 'k' {
        lemma_step_inv(state, -1, false);
    } else if ch == 'f' || ch == 'F' {
        lemma_scroll_inv(state, state.body.height as int);
    } else if ch == 'b' || ch == 'B' {
        lemma_scroll_inv(state, -(state.body.height as int));
    } else if ch == 'g' {
        lemma_moves_inv(state, 0, true);
    } else if ch == 'G' {
        lemma_moves_inv(state, 0, false);
    }
}

/// A key keeps what holds while no comment is edited.
proof fn lemma_normal_key_inv(state: AppView, key: KeyEvent)
    requires
        state.inv(),
    ensures
        state.after_normal_key(key).inv(),
{
    match key.code {
        KeyCode::Esc => lemma_moves_inv(state, 0, true),
        KeyCode::Char(ch) => lemma_char_inv(state, ch, key.modifiers),
        KeyCode::Down => lemma_step_inv(state, 1, key.modifiers.shift),
        KeyCode::Up => lemma_step_inv(state, -1, key.modifiers.shift),
        KeyCode::PageDown => lemma_scroll_inv(state, state.body.height as int),
        KeyCode::PageUp => lemma_scroll_inv(state, -(state.body.height as int)),
        KeyCode::Enter => lemma_start_inv(state),
        _ => {},
    }
}

/// The rows that are made anew, with a row selected, keep what holds.
proof fn lemma_restored_inv(state: AppView, target: Option<Seq<char>>)
    requires
        state.scroll >= 0,
        state.wf(),
    ensures
        state.rebuilt().restored(target).inv(),
{
    let built = state.rebuilt();
    lemma_first_selectable(built);
    if let Some(id) = target {
        app::lemma_first_where(
            built.rows,
            |row: RowView| built.row_selectable(row) && built.row_id(row) == Some(id),
        );
    }
    let next = built.restored(target);
    assert(built.is_opt_target(next.selected));
    lemma_visible_inv(AppView { selected: next.selected, ..built.single() });
}

/// Editing keeps the editor well formed.
proof fn lemma_edited_wf(state: EditorView, key: KeyEvent)
    requires
        state.wf(),
    ensures
        control::edited(state, key).wf(),
{
}

/// A report of the terminal keeps what holds.
pub proof fn law_events_keep_invariant(state: AppView, event: Event)
    requires
        state.inv(),
    ensures
        state.after_event(event).inv(),
{
    match (state.editor, event) {
        (None, Event::Key(key)) => lemma_normal_key_inv(state, key),
        (None, Event::Mouse(mouse)) => lemma_mouse_inv(state, mouse),
        (Some(editor), Event::Key(key)) => {
            lemma_edited_wf(editor, key);
            let lines = editor.target_lines;
            if lines.len() > 0 {
                let id = lines.last().id();
                let closed = AppView { editor: None, ..state };
                lemma_restored_inv(
                    closed.with_comment(
                        id,
                        lines,
                        text::trim_end(editor.text()),
                        editor.replacing_comment,
                    ),
                    Some(id),
                );
            }
        },
        _ => {},
    }
}

/// The start of the program, readings of the diff, changes of the layout and reports of what was
/// copied keep what holds.
pub proof fn law_updates_keep_invariant(
    state: AppView,
    force: bool,
    result: GitDiffView,
    body: Area,
    message: Seq<char>,
)
    requires
        state.inv(),
    ensures
        app::app_start(state.config).inv(),
        state.after_refresh(force, result).inv(),
        state.after_layout(body).inv(),
        state.after_copy(message).inv(),
{
    assert(app::app_start(state.config).rows =~= app::rows_of(
        app::app_start(state.config).parsed.lines,
        app::app_start(state.config).comments,
    ));
    lemma_restored_inv(
        AppView {
            error: result.error,
            last_text: Some(result.text),
            parsed: diff_parser::parsed_diff(result.text),
            ..state
        },
        state.selected_id(),
    );
    lemma_visible_inv(AppView { body, ..state });
}

/// A key that is let go does nothing, whether a comment is edited or not.
pub proof fn law_key_release_is_ignored(state: AppView, key: KeyEvent)
    requires
        !events::is_action(key),
    ensures
        state.after_event(Event::Key(key)) == state,
        state.asked(Event::Key(key)) == control::ActionView::Nothing,
{
}

/// A reading of the diff keeps the selection at its line, or at its comment, where that is still
/// among the rows; and it keeps all comments and an open editor.
pub proof fn law_refresh_keeps_selection(
    state: AppView,
    force: bool,
    result: GitDiffView,
    row: int,
)
    requires
        state.selected_id() is Some,
        state.after_refresh(force, result).is_target(row),
        state.after_refresh(force, result).row_id(state.after_refresh(force, result).rows[row])
            == state.selected_id(),
    ensures
        state.after_refresh(force, result).selected_id() == state.selected_id(),
        state.after_refresh(force, result).comments == state.comments,
        state.after_refresh(force, result).editor == state.editor,
{
    let next = state.after_refresh(force, result);
    let id = state.selected_id()->0;
    let built = AppView {
        error: result.error,
        last_text: Some(result.text),
        parsed: diff_parser::parsed_diff(result.text),
        ..state
    }.rebuilt();
    let pred = |row: RowView| built.row_selectable(row) && built.row_id(row) == Some(id);
    if next != state {
        app::lemma_first_where(built.rows, pred);
        assert(next.rows == built.rows && next.parsed == built.parsed);
        assert(pred(built.rows[row]));
        let selected = next.selected->0;
        assert(pred(built.rows[selected]));
    }
}

/// A reading that is not forced and gives what is there changes nothing.
pub proof fn law_same_diff_changes_nothing(state: AppView, result: GitDiffView)
    requires
        state.last_text == Some(result.text),
        state.error == result.error,
    ensures
        state.after_refresh(false, result) == state,
{
}

/// The rows of the first lines come first.
proof fn lemma_rows_prefix(
    lines: Seq<DiffLineView>,
    store: Map<Seq<char>, Seq<CommentView>>,
    count: int,
)
    requires
        0 <= count <= lines.len(),
    ensures
        app::rows_of(lines.take(count), store).len() <= app::rows_of(lines, store).len(),
        app::rows_of(lines, store).take(app::rows_of(lines.take(count), store).len() as int)
            == app::rows_of(lines.take(count), store),
    decreases lines.len() - count,
{
    let part = app::rows_of(lines.take(count), store);
    let rows = app::rows_of(lines, store);
    if count == lines.len() {
        assert(lines.take(count) =~= lines);
        assert(rows.take(rows.len() as int) =~= rows);
    } else {
        let init = lines.drop_last();
        let before = app::rows_of(init, store);
        lemma_rows_prefix(init, store, count);
        assert(init.take(count) =~= lines.take(count));
        assert(rows.take(before.len() as int) =~= before);
        assert(rows.take(part.len() as int) =~= before.take(part.len() as int));
    }
}

/// Where line `i` of the diff stands among the rows.
pub open spec fn row_of_line(
    lines: Seq<DiffLineView>,
    store: Map<Seq<char>, Seq<CommentView>>,
    i: int,
) -> int {
    app::rows_of(lines.take(i), store).len() as int
}

/// Each line of the diff has its row, and directly below it stand the comments that are kept under
/// its identity, in the order in which they were added.
pub proof fn law_comments_stand_below_their_line(
    lines: Seq<DiffLineView>,
    store: Map<Seq<char>, Seq<CommentView>>,
    i: int,
)
    requires
        0 <= i < lines.len(),
    ensures
        ({
            let rows = app::rows_of(lines, store);
            let row = row_of_line(lines, store, i);
            let under = comments::comments_under(store, lines[i].id());
            &&& 0 <= row < rows.len()
            &&& rows[row] == RowView::Diff(i)
            &&& row + 1 + under.len() <= rows.len()
            &&& rows.subrange(row + 1, row + 1 + under.len()) == app::comment_rows(under)
        }),
{
    let rows = app::rows_of(lines, store);
    let row = row_of_line(lines, store, i);
    let next = lines.take(i + 1);
    let part = app::rows_of(next, store);
    let under = comments::comments_under(store, lines[i].id());
    assert(next.drop_last() =~= lines.take(i));
    assert(next.last() == lines[i]);
    lemma_rows_prefix(lines, store, i + 1);
    assert(part.len() == row + 1 + under.len());
    assert(part[row] == RowView::Diff(i));
    assert(rows.take(part.len() as int)[row] == rows[row]);
    assert forall|k: int| 0 <= k < under.len() implies rows[row + 1 + k] == #[trigger] app::comment_rows(
        under,
    )[k] by {
        assert(part[row + 1 + k] == app::comment_rows(under)[k]);
        assert(rows.take(part.len() as int)[row + 1 + k] == rows[row + 1 + k]);
    }
    assert(rows.subrange(row + 1, row + 1 + under.len()) =~= app::comment_rows(under));
}

/// A comment that is added in the place of another removes that one, adds itself under its
/// identity, and leaves all others where they are.
pub proof fn law_edit_replaces_comment(
    state: AppView,
    id: Seq<char>,
    target_lines: Seq<DiffLineView>,
    comment: Seq<char>,
    replaced: u64,
    other: Seq<char>,
    x: CommentView,
)
    requires
        state.counter < u64::MAX,
        replaced <= state.counter,
    ensures
        ({
            let next = state.with_comment(id, target_lines, comment, Some(replaced));
            let added = CommentView {
                target_lines,
                text: comment,
                created_at: (state.counter + 1) as u64,
            };
            comments::comments_under(next.comments, other).contains(x) <==> (other == id && x
                == added) || (x.created_at != replaced && comments::comments_under(
                state.comments,
                other,
            ).contains(x))
        }),
{
    let next = state.with_comment(id, target_lines, comment, Some(replaced));
    let added = CommentView {
        target_lines,
        text: comment,
        created_at: (state.counter + 1) as u64,
    };
    let store = comments::store_without(state.comments, replaced);
    let kept = comments::comments_under(store, other);
    let after = comments::comments_under(next.comments, other);
    lemma_without(state.comments, replaced, other, x);
    if other == id {
        assert(after == kept.push(added));
        if kept.contains(x) {
            let k = choose|k: int| 0 <= k < kept.len() && kept[k] == x;
            assert(after[k] == x);
        }
        if after.contains(x) {
            let k = choose|k: int| 0 <= k < after.len() && after[k] == x;
            if k < kept.len() {
                assert(kept[k] == x);
            }
        }
        assert(after[kept.len() as int] == added);
    } else {
        assert(after == kept);
    }
}

/// Removing a comment leaves those that were created at other times.
proof fn lemma_without(
    store: Map<Seq<char>, Seq<CommentView>>,
    created_at: u64,
    id: Seq<char>,
    x: CommentView,
)
    ensures
        comments::comments_under(comments::store_without(store, created_at), id).contains(x)
            <==> x.created_at != created_at && comments::comments_under(store, id).contains(x),
{
    let all = comments::comments_under(store, id);
    let pred = |comment: CommentView| comment.created_at != created_at;
    let kept = comments::without(all, created_at);
    if kept.contains(x) {
        all.lemma_filter_contains_rev(pred, x);
        let k = choose|k: int| 0 <= k < kept.len() && kept[k] == x;
        all.lemma_filter_pred(pred, k);
    }
    if x.created_at != created_at && all.contains(x) {
        let k = choose|k: int| 0 <= k < all.len() && all[k] == x;
        all.lemma_filter_contains(pred, k);
    }
    reveal(Seq::filter);
    assert(comments::comments_under(comments::store_without(store, created_at), id) =~= kept);
}

/// No two of the comments have the same number.
pub open spec fn distinct_numbers(under: Seq<CommentView>) -> bool {
    forall|i: int, j: int|
        0 <= i < j < under.len() ==> (#[trigger] under[i]).created_at != (
        #[trigger] under[j]).created_at
}

/// Comments have numbers up to the counter, and no two the same: a number tells which comment is
/// meant.
pub open spec fn numbers_ok(store: Map<Seq<char>, Seq<CommentView>>, counter: u64) -> bool {
    &&& forall|id: Seq<char>| #[trigger]
        store.contains_key(id) ==> distinct_numbers(store[id])
    &&& forall|id: Seq<char>, k: int|
        store.contains_key(id) && 0 <= k < store[id].len() ==> (
        #[trigger] store[id][k]).created_at <= counter
    &&& forall|a: Seq<char>, i: int, b: Seq<char>, j: int|
        store.contains_key(a) && store.contains_key(b) && a != b && 0 <= i < store[a].len() && 0
            <= j < store[b].len() ==> (#[trigger] store[a][i]).created_at != (
        #[trigger] store[b][j]).created_at
}

/// A filter keeps numbers distinct.
proof fn lemma_filter_distinct(under: Seq<CommentView>, created_at: u64)
    requires
        distinct_numbers(under),
    ensures
        distinct_numbers(comments::without(under, created_at)),
    decreases under.len(),
{
    let pred = |comment: CommentView| comment.created_at != created_at;
    reveal(Seq::filter);
    if under.len() > 0 {
        let init = under.drop_last();
        let before = comments::without(init, created_at);
        let kept = comments::without(under, created_at);
        lemma_filter_distinct(init, created_at);
        assert forall|i: int, j: int| 0 <= i < j < kept.len() implies (
        #[trigger] kept[i]).created_at != (#[trigger] kept[j]).created_at by {
            if j < before.len() {
                assert(before[i].created_at != before[j].created_at);
            } else {
                assert(before.contains(before[i]));
                init.lemma_filter_contains_rev(pred, before[i]);
                let k = choose|k: int| 0 <= k < init.len() && init[k] == before[i];
                assert(under[k].created_at != under[under.len() - 1].created_at);
            }
        }
    }
}

/// Removing a comment keeps the numbers apart.
proof fn lemma_without_numbers(
    store: Map<Seq<char>, Seq<CommentView>>,
    counter: u64,
    created_at: u64,
)
    requires
        numbers_ok(store, counter),
    ensures
        numbers_ok(comments::store_without(store, created_at), counter),
{
    let kept = comments::store_without(store, created_at);
    assert forall|id: Seq<char>| #[trigger] kept.contains_key(id) implies distinct_numbers(
        kept[id],
    ) by {
        assert(store.contains_key(id));
        lemma_filter_distinct(store[id], created_at);
    }
    assert forall|id: Seq<char>, k: int|
        kept.contains_key(id) && 0 <= k < kept[id].len() implies (
    #[trigger] kept[id][k]).created_at <= counter by {
        let j = lemma_kept_from(store, created_at, id, k);
        assert(store[id][j].created_at <= counter);
    }
    assert forall|a: Seq<char>, i: int, b: Seq<char>, j: int|
        kept.contains_key(a) && kept.contains_key(b) && a != b && 0 <= i < kept[a].len() && 0 <= j
            < kept[b].len() implies (#[trigger] kept[a][i]).created_at != (
    #[trigger] kept[b][j]).created_at by {
        let p = lemma_kept_from(store, created_at, a, i);
        let q = lemma_kept_from(store, created_at, b, j);
        assert(store[a][p].created_at != store[b][q].created_at);
    }
}

/// A comment that stays was there.
proof fn lemma_kept_from(
    store: Map<Seq<char>, Seq<CommentView>>,
    created_at: u64,
    id: Seq<char>,
    k: int,
) -> (j: int)
    requires
        comments::store_without(store, created_at).contains_key(id),
        0 <= k < comments::store_without(store, created_at)[id].len(),
    ensures
        store.contains_key(id),
        0 <= j < store[id].len(),
        store[id][j] == comments::store_without(store, created_at)[id][k],
{
    let pred = |comment: CommentView| comment.created_at != created_at;
    let kept = comments::without(store[id], created_at);
    assert(kept.contains(kept[k]));
    store[id].lemma_filter_contains_rev(pred, kept[k]);
    choose|j: int| 0 <= j < store[id].len() && store[id][j] == kept[k]
}

/// Adding a comment, also in the place of another, keeps the numbers of the comments apart.
pub proof fn law_comment_numbers_are_unique(
    state: AppView,
    id: Seq<char>,
    target_lines: Seq<DiffLineView>,
    comment: Seq<char>,
    replacing: Option<u64>,
)
    requires
        numbers_ok(state.comments, state.counter),
        state.counter < u64::MAX,
    ensures
        numbers_ok(
            state.with_comment(id, target_lines, comment, replacing).comments,
            state.with_comment(id, target_lines, comment, replacing).counter,
        ),
{
    let next = state.with_comment(id, target_lines, comment, replacing);
    let store = match replacing {
        Some(created_at) => comments::store_without(state.comments, created_at),
        None => state.comments,
    };
    if let Some(created_at) = replacing {
        lemma_without_numbers(state.comments, state.counter, created_at);
    }
    let all = next.comments;
    let under = comments::comments_under(store, id);
    assert(all[id].len() == under.len() + 1);
    assert forall|k: int| 0 <= k < under.len() implies #[trigger] all[id][k] == under[k] && (
    under[k].created_at <= state.counter) by {
        assert(store[id][k].created_at <= state.counter);
    }
    assert forall|key: Seq<char>| #[trigger] all.contains_key(key) implies distinct_numbers(
        all[key],
    ) by {
        if key != id {
            assert(store.contains_key(key));
        } else {
            assert forall|i: int, j: int| 0 <= i < j < all[id].len() implies (
            #[trigger] all[id][i]).created_at != (#[trigger] all[id][j]).created_at by {
                if j < under.len() {
                    assert(store.contains_key(id) && distinct_numbers(store[id]));
                    assert(store[id][i].created_at != store[id][j].created_at);
                }
            }
        }
    }
    assert forall|key: Seq<char>, k: int|
        all.contains_key(key) && 0 <= k < all[key].len() implies (
    #[trigger] all[key][k]).created_at <= next.counter by {
        if key != id {
            assert(store[key][k].created_at <= state.counter);
        }
    }
    assert forall|a: Seq<char>, i: int, b: Seq<char>, j: int|
        all.contains_key(a) && all.contains_key(b) && a != b && 0 <= i < all[a].len() && 0 <= j
            < all[b].len() implies (#[trigger] all[a][i]).created_at != (
    #[trigger] all[b][j]).created_at by {
        if a == id {
            assert(store[b][j].created_at <= state.counter);
            if i < under.len() {
                assert(store[a][i].created_at != store[b][j].created_at);
            }
        } else if b == id {
            assert(store[a][i].created_at <= state.counter);
            if j < under.len() {
                assert(store[a][i].created_at != store[b][j].created_at);
            }
        } else {
            assert(store[a][i].created_at != store[b][j].created_at);
        }
    }
}

/// The lines among the rows are in the order of the diff.
pub open spec fn in_order(rows: Seq<RowView>, count: int) -> bool {
    &&& forall|a: int|
        0 <= a < rows.len() ==> ((#[trigger] rows[a]) matches RowView::Diff(i) ==> 0 <= i < count)
    &&& forall|a: int, b: int|
        0 <= a < b < rows.len() && (#[trigger] rows[a]) is Diff && (#[trigger] rows[b]) is Diff
            ==> rows[a]->Diff_0 < rows[b]->Diff_0
}

/// The rows of a diff are in the order of the diff.
pub proof fn lemma_rows_in_order(
    lines: Seq<DiffLineView>,
    store: Map<Seq<char>, Seq<CommentView>>,
)
    ensures
        in_order(app::rows_of(lines, store), lines.len() as int),
    decreases lines.len(),
{
    let rows = app::rows_of(lines, store);
    if lines.len() > 0 {
        let before = app::rows_of(lines.drop_last(), store);
        lemma_rows_in_order(lines.drop_last(), store);
        assert forall|a: int| 0 <= a < rows.len() implies ((
        #[trigger] rows[a]) matches RowView::Diff(i) ==> 0 <= i < lines.len()) by {
            if a < before.len() {
                assert(rows[a] == before[a]);
            }
        }
        assert forall|a: int, b: int|
            0 <= a < b < rows.len() && (#[trigger] rows[a]) is Diff && (
            #[trigger] rows[b]) is Diff implies rows[a]->Diff_0 < rows[b]->Diff_0 by {
            assert(rows[a] == before[a]);
            if b < before.len() {
                assert(rows[b] == before[b]);
            }
        }
    }
}

/// The lines are those that are selected among some rows, and these are their indices in the diff.
pub open spec fn are_targets(
    state: AppView,
    rows: Seq<RowView>,
    lines: Seq<DiffLineView>,
    indices: Seq<int>,
) -> bool {
    &&& indices.len() == lines.len()
    &&& forall|k: int|
        0 <= k < indices.len() ==> 0 <= #[trigger] indices[k] < state.parsed.lines.len()
            && lines[k] == state.parsed.lines[indices[k]] && lines[k].selectable && rows.contains(
            RowView::Diff(indices[k]),
        )
    &&& forall|a: int, b: int|
        0 <= a < b < indices.len() ==> #[trigger] indices[a] < #[trigger] indices[b]
}

/// The indices in the diff of the lines that are selected among some rows.
pub proof fn lemma_target_indices(state: AppView, rows: Seq<RowView>) -> (indices: Seq<int>)
    requires
        in_order(rows, state.parsed.lines.len() as int),
    ensures
        are_targets(state, rows, rows.filter_map(|row: RowView| state.target_of(row)), indices),
    decreases rows.len(),
{
    let f = |row: RowView| state.target_of(row);
    reveal(Seq::filter_map);
    if rows.len() == 0 {
        let none: Seq<int> = seq![];
        assert(are_targets(state, rows, rows.filter_map(f), none));
        none
    } else {
        let init = rows.drop_last();
        assert forall|a: int| 0 <= a < init.len() implies ((
        #[trigger] init[a]) matches RowView::Diff(i) ==> 0 <= i < state.parsed.lines.len()) by {
            assert(init[a] == rows[a]);
        }
        assert forall|a: int, b: int|
            0 <= a < b < init.len() && (#[trigger] init[a]) is Diff && (
            #[trigger] init[b]) is Diff implies init[a]->Diff_0 < init[b]->Diff_0 by {
            assert(rows[a]->Diff_0 < rows[b]->Diff_0);
        }
        let before = lemma_target_indices(state, init);
        let above = init.filter_map(f);
        let lines = rows.filter_map(f);
        assert(rows.contains(rows[rows.len() - 1]));
        assert forall|k: int| 0 <= k < before.len() implies rows.contains(
            RowView::Diff(#[trigger] before[k]),
        ) by {
            assert(init.contains(RowView::Diff(before[k])));
            let r = choose|r: int| 0 <= r < init.len() && init[r] == RowView::Diff(before[k]);
            assert(rows[r] == RowView::Diff(before[k]));
        }
        match rows.last() {
            RowView::Diff(i) => if state.row_selectable(rows.last()) {
                assert forall|k: int| 0 <= k < before.len() implies (#[trigger] before[k]) < i by {
                    let r = choose|r: int|
                        0 <= r < init.len() && init[r] == RowView::Diff(before[k]);
                    assert(rows[r] is Diff && rows[rows.len() - 1] is Diff);
                }
                let indices = before.push(i);
                assert(lines == above + seq![state.parsed.lines[i]]);
                assert forall|k: int| 0 <= k < indices.len() implies 0 <= #[trigger] indices[k]
                    < state.parsed.lines.len() && lines[k] == state.parsed.lines[indices[k]]
                    && lines[k].selectable && rows.contains(RowView::Diff(indices[k])) by {
                    if k < before.len() {
                        assert(indices[k] == before[k]);
                    }
                }
                assert(are_targets(state, rows, lines, indices));
                indices
            } else {
                assert(lines == above);
                assert(are_targets(state, rows, lines, before));
                before
            },
            RowView::Comment(_) => {
                assert(lines == above);
                assert(are_targets(state, rows, lines, before));
                before
            },
        }
    }
}

/// What is selected are lines of the diff that can be selected; comments that stand between them
/// are left out.
pub proof fn law_selection_is_of_lines(state: AppView, k: int)
    requires
        state.inv(),
        0 <= k < state.selection_lines().len(),
    ensures
        state.selection_lines()[k].selectable,
        state.parsed.lines.contains(state.selection_lines()[k]),
{
    let indices = lemma_selection_indices(state);
    assert(state.selection_lines()[k] == state.parsed.lines[indices[k]]);
}

/// The indices in the diff of the selected lines.
pub proof fn lemma_selection_indices(state: AppView) -> (indices: Seq<int>)
    requires
        state.inv(),
    ensures
        indices.len() == state.selection_lines().len(),
        forall|k: int|
            0 <= k < indices.len() ==> 0 <= #[trigger] indices[k] < state.parsed.lines.len()
                && state.selection_lines()[k] == state.parsed.lines[indices[k]]
                && state.selection_lines()[k].selectable,
        forall|a: int, b: int|
            0 <= a < b < indices.len() ==> #[trigger] indices[a] < #[trigger] indices[b],
{
    lemma_rows_in_order(state.parsed.lines, state.comments);
    let rows = state.selected_rows();
    let count = state.parsed.lines.len() as int;
    assert(in_order(rows, count)) by {
        if let Some(selected) = state.selected {
            let other = state.other_end(selected);
            let first = if other <= selected {
                other
            } else {
                selected
            };
            let start = app::clamped(first, 0, state.rows.len() as int);
            assert forall|a: int| 0 <= a < rows.len() implies ((
            #[trigger] rows[a]) matches RowView::Diff(i) ==> 0 <= i < count) by {
                assert(rows[a] == state.rows[start + a]);
            }
            assert forall|a: int, b: int|
                0 <= a < b < rows.len() && (#[trigger] rows[a]) is Diff && (
                #[trigger] rows[b]) is Diff implies rows[a]->Diff_0 < rows[b]->Diff_0 by {
                assert(rows[a] == state.rows[start + a]);
                assert(rows[b] == state.rows[start + b]);
            }
        }
    }
    lemma_target_indices(state, rows)
}

/// Where the selected lines belong to one hunk of a diff that was read, they are lines of that
/// hunk in their order, as the text that is copied for a comment marks them.
pub proof fn law_selection_in_one_hunk(state: AppView, diff: Seq<char>, h: usize)
    requires
        state.inv(),
        text::lines_of(diff).len() <= usize::MAX,
        state.parsed == diff_parser::parsed_diff(diff),
        state.selection_lines().len() > 0,
        forall|k: int|
            0 <= k < state.selection_lines().len() ==> (
            #[trigger] state.selection_lines()[k]).hunk_index == Some(h),
    ensures
        payload_laws::is_selection(state.parsed, state.selection_lines(), h as int),
{
    let parsed = state.parsed;
    let targets = state.selection_lines();
    let indices = lemma_selection_indices(state);
    parser_laws::law_parsing_is_consistent(diff);
    assert forall|k: int| 0 <= k < targets.len() implies (#[trigger] targets[k]).hunk_index
        == Some(h) && targets[k].hunk_line_index is Some && parsed.lines.contains(targets[k])
        && h < parsed.hunks.len() by {
        assert(targets[k] == parsed.lines[indices[k]]);
        assert(parser_laws::line_ok(parsed.lines, parsed.hunks, indices[k]));
    }
    assert(targets[0].hunk_index == Some(h));
    assert forall|a: int, b: int| 0 <= a <= b < targets.len() implies (
    #[trigger] targets[a]).hunk_line_index->0 <= (#[trigger] targets[b]).hunk_line_index->0 by {
        assert(parser_laws::line_ok(parsed.lines, parsed.hunks, indices[a]));
        assert(parser_laws::line_ok(parsed.lines, parsed.hunks, indices[b]));
        assert(parser_laws::hunk_ok(parsed.hunks, h as int));
        let list = parsed.hunks[h as int].line_indices;
        let p = targets[a].hunk_line_index->0 as int;
        let q = targets[b].hunk_line_index->0 as int;
        if q < p {
            assert(list[q] < list[p]);
            assert(indices[a] < indices[b]);
        }
    }
}

/// A press and a release of the left button at a row of the terminal.
pub open spec fn after_click(state: AppView, row: u16) -> AppView {
    state.after_event(
        Event::Mouse(MouseEvent { kind: MouseEventKind::Down(MouseButton::Left), row }),
    ).after_event(Event::Mouse(MouseEvent { kind: MouseEventKind::Up(MouseButton::Left), row }))
}

/// What a click on a row that can be selected selects.
proof fn lemma_click(state: AppView, terminal_row: u16, row: int)
    requires
        state.inv(),
        state.editor is None,
        state.target_at(terminal_row) == Some(row),
    ensures
        ({
            let pressed = AppView {
                selected: Some(row),
                anchor: Some(row),
                drag: Some(row),
                visual: true,
                ..state
            }.visible();
            after_click(state, terminal_row) == AppView {
                drag: None,
                ..pressed
            }.after_mouse_selection()
        }),
{
}

/// A selection of one row, which is a line, is that line.
pub proof fn lemma_single_line(state: AppView, row: int, i: int)
    requires
        state.selected == Some(row),
        state.anchor == Some(row),
        0 <= row < state.rows.len(),
        state.row_selectable(state.rows[row]),
        state.rows[row] == RowView::Diff(i),
    ensures
        state.selection_lines() == seq![state.parsed.lines[i]],
{
    reveal_with_fuel(Seq::filter_map, 2);
    assert(state.selected_rows() =~= seq![state.rows[row]]);
    assert(seq![state.rows[row]].drop_last() =~= seq![]);
    assert(state.selection_lines() =~= seq![state.parsed.lines[i]]);
}

/// A selection of one row, which is a comment, holds no line.
proof fn lemma_single_comment(state: AppView, row: int)
    requires
        state.selected == Some(row),
        state.anchor == Some(row) || state.anchor is None,
        0 <= row < state.rows.len(),
        state.rows[row] is Comment,
    ensures
        state.selection_lines().len() == 0,
{
    reveal_with_fuel(Seq::filter_map, 2);
    assert(state.selected_rows() =~= seq![state.rows[row]]);
    assert(seq![state.rows[row]].drop_last() =~= seq![]);
}

/// A click on a line opens an empty editor for a comment on that line.
pub proof fn law_click_comments_on_line(state: AppView, terminal_row: u16, row: int, i: int)
    requires
        state.inv(),
        state.editor is None,
        state.target_at(terminal_row) == Some(row),
        state.rows[row] == RowView::Diff(i),
    ensures
        after_click(state, terminal_row).editor == Some(
            editor::new_editor(seq![state.parsed.lines[i]]),
        ),
        after_click(state, terminal_row).selected == Some(row),
{
    lemma_click(state, terminal_row, row);
    let pressed = AppView {
        selected: Some(row),
        anchor: Some(row),
        drag: Some(row),
        visual: true,
        ..state
    }.visible();
    lemma_single_line(AppView { drag: None, ..pressed }, row, i);
    lemma_single_line(AppView { drag: None, visual: false, ..pressed }, row, i);
}

/// A click on a comment, and then Enter, opens an editor that holds the comment, to replace it.
pub proof fn law_click_and_enter_edit_comment(
    state: AppView,
    terminal_row: u16,
    row: int,
    comment: CommentView,
    key: KeyEvent,
)
    requires
        state.inv(),
        state.editor is None,
        state.target_at(terminal_row) == Some(row),
        state.rows[row] == RowView::Comment(comment),
        comment.target_lines.len() > 0,
        key.code == KeyCode::Enter,
        events::is_action(key),
    ensures
        after_click(state, terminal_row).editor is None,
        after_click(state, terminal_row).after_event(Event::Key(key)).editor == Some(
            editor::replacing_editor(comment.target_lines, comment),
        ),
{
    lemma_click(state, terminal_row, row);
    let pressed = AppView {
        selected: Some(row),
        anchor: Some(row),
        drag: Some(row),
        visual: true,
        ..state
    }.visible();
    lemma_single_comment(AppView { drag: None, ..pressed }, row);
}

/// Closing the editor with a comment in it hands out the text to copy, and keeps the comment
/// under the identity of the last line that it is on, behind the comments that are there; so its
/// row stands below that line.
pub proof fn law_submitted_comment_is_kept(state: AppView)
    requires
        state.editor is Some,
        text::trim(state.editor->0.text()).len() > 0,
        state.editor->0.target_lines.len() > 0,
    ensures
        ({
            let editor = state.editor->0;
            let id = editor.target_lines.last().id();
            let next = state.after_submit();
            let under = comments::comments_under(next.comments, id);
            &&& state.submitted() is Some
            &&& next.editor is None
            &&& next.rows == app::rows_of(next.parsed.lines, next.comments)
            &&& under.len() > 0
            &&& under.last() == CommentView {
                target_lines: editor.target_lines,
                text: text::trim_end(editor.text()),
                created_at: (state.counter + 1) as u64,
            }
        }),
{
}

/// Closing the editor without a comment in it, or cancelling it, leaves all comments and rows as
/// they are, and nothing is copied.
pub proof fn law_cancelled_comment_changes_nothing(state: AppView)
    requires
        state.editor is Some,
    ensures
        state.after_cancel().comments == state.comments,
        state.after_cancel().rows == state.rows,
        state.after_cancel().editor is None,
        text::trim(state.editor->0.text()).len() == 0 ==> state.submitted() is None
            && state.after_submit().comments == state.comments && state.after_submit().rows
            == state.rows && state.after_submit().editor is None,
{
}

/// While a comment is edited its row is not shown; an editor for a new comment hides no row.
pub proof fn law_edited_comment_is_hidden(
    lines: Seq<DiffLineView>,
    comment: CommentView,
    row: RowView,
)
    ensures
        render::is_hidden(
            RowView::Comment(comment),
            editor::replacing_editor(lines, comment),
        ),
        !render::is_hidden(row, editor::new_editor(lines)),
{
}

/// The lines that are shown fit into the body.
pub proof fn law_body_fits(state: AppView, height: int, width: int, elapsed_ms: int)
    requires
        height >= 1,
    ensures
        state.body_lines(height, width, elapsed_ms).len() <= height,
{
}

/// A filter keeps numbers in ascending order.
proof fn lemma_filter_ascending(all: Seq<int>, pred: spec_fn(int) -> bool)
    requires
        forall|a: int, b: int| 0 <= a < b < all.len() ==> #[trigger] all[a] < #[trigger] all[b],
    ensures
        forall|a: int, b: int|
            0 <= a < b < all.filter(pred).len() ==> #[trigger] all.filter(pred)[a]
                < #[trigger] all.filter(pred)[b],
    decreases all.len(),
{
    reveal(Seq::filter);
    if all.len() > 0 {
        let init = all.drop_last();
        let before = init.filter(pred);
        let kept = all.filter(pred);
        lemma_filter_ascending(init, pred);
        assert forall|a: int, b: int| 0 <= a < b < kept.len() implies #[trigger] kept[a]
            < #[trigger] kept[b] by {
            if b == before.len() {
                assert(before.contains(before[a]));
                init.lemma_filter_contains_rev(pred, before[a]);
                let k = choose|k: int| 0 <= k < init.len() && init[k] == before[a];
                assert(all[k] < all[all.len() - 1]);
            } else {
                assert(before[a] < before[b]);
            }
        }
    }
}

/// The position of a row among those that can be selected.
pub proof fn lemma_position(state: AppView, row: int) -> (p: int)
    requires
        state.is_target(row),
    ensures
        0 <= p < state.selectable_indices().len(),
        state.selectable_indices()[p] == row,
        selection::position_in(state.selectable_indices(), Some(row)) == p,
        forall|a: int, b: int|
            0 <= a < b < state.selectable_indices().len() ==> #[trigger] state.selectable_indices()[a]
                < #[trigger] state.selectable_indices()[b],
{
    let all = Seq::new(state.rows.len(), |i: int| i);
    let pred = |i: int| state.row_selectable(state.rows[i]);
    let selectable = state.selectable_indices();
    lemma_filter_ascending(all, pred);
    all.lemma_filter_contains(pred, row);
    assert(all[row] == row);
    let p = choose|p: int| 0 <= p < selectable.len() && selectable[p] == row;
    app::lemma_first_where_is(selectable, |r: int| r == row, p);
    p
}

/// A step down goes to the next row that can be selected, and a step up from there back.
pub proof fn law_step_goes_to_next_row(state: AppView, row: int, next: int)
    requires
        state.is_target(row),
        state.is_target(next),
        row < next,
        forall|other: int| row < other < next ==> !#[trigger] state.is_target(other),
    ensures
        state.selected == Some(row) ==> state.after_move(1).selected == Some(next),
        state.selected == Some(next) ==> state.after_move(-1).selected == Some(row),
{
    let selectable = state.selectable_indices();
    let p = lemma_position(state, row);
    let q = lemma_position(state, next);
    if q <= p {
        if q < p {
            assert(selectable[q] < selectable[p]);
        }
    } else if q > p + 1 {
        assert(selectable[p] < selectable[p + 1]);
        assert(selectable[p + 1] < selectable[q]);
        lemma_selectable(state, p + 1);
        assert(state.is_target(selectable[p + 1]));
    }
    assert(q == p + 1);
}

} // verus!
