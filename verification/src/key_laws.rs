//! What the keys and the mouse do to the selection, the scroll and the editor.

use crate::app;
use crate::app::{AppConfigView, AppView, RowView};
use crate::app_laws;
use crate::comments;
use crate::comments::CommentView;
use crate::control;
use crate::diff_parser;
use crate::diff_parser::DiffLineView;
use crate::editor;
use crate::editor::EditorView;
use crate::events;
use crate::events::{Event, KeyCode, KeyEvent, KeyModifiers, MouseButton, MouseEvent, MouseEventKind};
use crate::git_diff::GitDiffView;
use crate::number;
use crate::payload;
use crate::text;
use vstd::prelude::*;

verus! {

/// `next` is the first row below `row` that can be selected.
pub open spec fn is_next(state: AppView, row: int, next: int) -> bool {
    &&& row < next && state.is_target(next)
    &&& forall|other: int| row < other < next ==> !#[trigger] state.is_target(other)
}

/// No row below `row` can be selected.
pub open spec fn is_last(state: AppView, row: int) -> bool {
    forall|other: int| row < other ==> !#[trigger] state.is_target(other)
}

/// No row above `row` can be selected.
pub open spec fn is_first(state: AppView, row: int) -> bool {
    forall|other: int| other < row ==> !#[trigger] state.is_target(other)
}

/// A step of the selection from `row` by `delta`, down or up, leads to `to`: the next row in that
/// direction that can be selected, or the same row where there is none.
pub open spec fn is_step(state: AppView, row: int, delta: int, to: int) -> bool {
    ||| delta == 1 && is_next(state, row, to)
    ||| delta == -1 && is_next(state, to, row) && state.is_target(to)
    ||| delta == 1 && to == row && is_last(state, row)
    ||| delta == -1 && to == row && is_first(state, row)
}

/// The row that a step leads to.
#[verifier::spinoff_prover]
proof fn lemma_step(state: AppView, row: int, delta: int, to: int)
    requires
        state.is_target(row),
        is_step(state, row, delta, to),
    ensures
        state.selectable_indices().len() > 0,
        state.stepped(Some(row), delta) == to,
{
    let selectable = state.selectable_indices();
    let p = app_laws::lemma_position(state, row);
    if to == row {
        if delta == 1 && p + 1 < selectable.len() {
            assert(selectable[p] < selectable[p + 1]);
            app_laws::lemma_selectable(state, p + 1);
            assert(state.is_target(selectable[p + 1]));
        }
        if delta == -1 && p > 0 {
            assert(selectable[p - 1] < selectable[p]);
            app_laws::lemma_selectable(state, p - 1);
            assert(state.is_target(selectable[p - 1]));
        }
    } else {
        let q = app_laws::lemma_position(state, to);
        if delta == 1 {
            if q < p {
                assert(selectable[q] < selectable[p]);
            }
            if q > p + 1 {
                assert(selectable[p] < selectable[p + 1]);
                assert(selectable[p + 1] < selectable[q]);
                app_laws::lemma_selectable(state, p + 1);
                assert(state.is_target(selectable[p + 1]));
            }
            assert(q == p + 1);
        } else {
            if p < q {
                assert(selectable[p] < selectable[q]);
            }
            if p > q + 1 {
                assert(selectable[q] < selectable[q + 1]);
                assert(selectable[q + 1] < selectable[p]);
                app_laws::lemma_selectable(state, q + 1);
                assert(state.is_target(selectable[q + 1]));
            }
            assert(p == q + 1);
        }
    }
}

/// The key steps down or up: `j`, `k`, or an arrow.
pub open spec fn steps_by(key: KeyEvent, delta: int) -> bool {
    ||| delta == 1 && (key.code == KeyCode::Char('j') || key.code == KeyCode::Down)
    ||| delta == -1 && (key.code == KeyCode::Char('k') || key.code == KeyCode::Up)
}

/// The key extends a range down or up: `J`, `K`, or an arrow with Shift.
pub open spec fn extends_by(key: KeyEvent, delta: int) -> bool {
    ||| delta == 1 && (key.code == KeyCode::Char('J') || (key.code == KeyCode::Down
        && key.modifiers.shift))
    ||| delta == -1 && (key.code == KeyCode::Char('K') || (key.code == KeyCode::Up
        && key.modifiers.shift))
}

/// The diff, its comments, the rows, the editor and the status are the same.
pub open spec fn same_content(a: AppView, b: AppView) -> bool {
    &&& a.parsed == b.parsed
    &&& a.comments == b.comments
    &&& a.rows == b.rows
    &&& a.editor == b.editor
    &&& a.body == b.body
    &&& a.counter == b.counter
    &&& a.config == b.config
    &&& a.error == b.error
    &&& a.last_text == b.last_text
}

/// In visual mode `j`, `k` and the arrows keep visual mode and the row where the range began, and
/// move its other end to the next row in that direction that can be selected; at the last one they
/// leave it there. The row that they lead to is shown.
pub proof fn law_visual_steps_extend_the_range(
    state: AppView,
    key: KeyEvent,
    row: int,
    delta: int,
    to: int,
)
    requires
        state.inv(),
        state.editor is None,
        state.visual,
        state.selected == Some(row),
        events::is_action(key),
        steps_by(key, delta),
        is_step(state, row, delta, to),
    ensures
        ({
            let next = state.after_event(Event::Key(key));
            &&& next.visual
            &&& next.anchor == state.anchor
            &&& next.selected == Some(to)
            &&& next.scroll <= to < next.scroll + next.height()
            &&& next.running == state.running
            &&& same_content(next, state)
        }),
{
    lemma_step(state, row, delta, to);
}

/// Outside visual mode `j`, `k` and the arrows move the selection to the next row in that direction
/// that can be selected, and select nothing else.
pub proof fn law_steps_move_the_selection(
    state: AppView,
    key: KeyEvent,
    row: int,
    delta: int,
    to: int,
)
    requires
        state.inv(),
        state.editor is None,
        !state.visual,
        state.selected == Some(row),
        events::is_action(key),
        steps_by(key, delta),
        !key.modifiers.shift,
        is_step(state, row, delta, to),
    ensures
        ({
            let next = state.after_event(Event::Key(key));
            &&& !next.visual
            &&& next.anchor is None
            &&& next.drag is None
            &&& next.selected == Some(to)
            &&& next.scroll <= to < next.scroll + next.height()
            &&& next.running == state.running
            &&& same_content(next, state)
        }),
{
    lemma_step(state, row, delta, to);
}

/// `J`, `K` and the arrows with Shift extend the range, and begin one at the selected row where
/// there is none.
pub proof fn law_extending_keys_extend_the_range(
    state: AppView,
    key: KeyEvent,
    row: int,
    delta: int,
    to: int,
)
    requires
        state.inv(),
        state.editor is None,
        state.selected == Some(row),
        events::is_action(key),
        extends_by(key, delta),
        is_step(state, row, delta, to),
    ensures
        ({
            let next = state.after_event(Event::Key(key));
            &&& next.visual
            &&& state.anchor is Some ==> next.anchor == state.anchor
            &&& state.anchor is None ==> next.anchor == Some(row)
            &&& next.selected == Some(to)
            &&& next.scroll <= to < next.scroll + next.height()
            &&& next.running == state.running
            &&& same_content(next, state)
        }),
{
    lemma_step(state, row, delta, to);
}

/// `V` begins a range at the selected row, or at the first that can be selected, and ends visual
/// mode where it is on, which leaves the selected row; so does Esc. Nothing is closed by that.
#[verifier::spinoff_prover]
pub proof fn law_visual_mode_is_switched(state: AppView, key: KeyEvent)
    requires
        state.inv(),
        state.editor is None,
        events::is_action(key),
    ensures
        ({
            let next = state.after_event(Event::Key(key));
            &&& key.code == KeyCode::Char('V') && !state.visual && state.selected is Some ==> {
                &&& next.visual
                &&& next.anchor == state.selected
                &&& next.selected == state.selected
                &&& next.scroll == state.scroll
                &&& next.running == state.running
                &&& same_content(next, state)
            }
            &&& key.code == KeyCode::Char('V') && !state.visual && state.selected is None
                ==> forall|row: int| #[trigger]
                state.is_target(row) && is_first(state, row) ==> next.visual && next.selected == Some(
                    row,
                ) && next.anchor == Some(row)
            &&& (key.code == KeyCode::Char('V') || key.code == KeyCode::Esc) && state.visual ==> {
                &&& !next.visual
                &&& next.anchor is None
                &&& next.drag is None
                &&& next.selected == state.selected
                &&& next.scroll == state.scroll
                &&& next.running == state.running
                &&& same_content(next, state)
            }
        }),
{
    assert forall|row: int| #[trigger] state.is_target(row) && is_first(state, row) implies
        state.first_selectable() == Some(row) by {
        let p = app_laws::lemma_position(state, row);
        if p > 0 {
            assert(state.selectable_indices()[0] < state.selectable_indices()[p]);
            app_laws::lemma_selectable(state, 0);
            assert(state.is_target(state.selectable_indices()[0]));
        }
    }
}

/// Moving and scrolling do not end the program.
proof fn lemma_moves_run(state: AppView, delta: int, edge: bool)
    ensures
        state.after_scroll(delta).running == state.running,
        state.after_move(delta).running == state.running,
        state.after_extend(delta).running == state.running,
        state.after_edge(edge).running == state.running,
{
}

/// Opening an editor does not end the program.
proof fn lemma_starts_run(state: AppView)
    ensures
        state.after_start().running == state.running,
        state.after_mouse_selection().running == state.running,
{
}

/// The mouse does not end the program.
proof fn lemma_mouse_runs(state: AppView, mouse: MouseEvent)
    ensures
        state.after_mouse(mouse).running == state.running,
{
    lemma_moves_run(state, -3, true);
    lemma_moves_run(state, 3, true);
    lemma_starts_run(AppView { drag: None, ..state });
}

/// What a character does to the program.
proof fn lemma_char_runs(state: AppView, ch: char, modifiers: KeyModifiers)
    requires
        !(ch == 'q' || ch == 'Q' || (ch == 'c' && modifiers.control)),
    ensures
        state.after_char(ch, modifiers).running == state.running,
{
    let page = state.body.height as int;
    lemma_moves_run(state, page, true);
    lemma_moves_run(state, -page, false);
    lemma_moves_run(state, 1, true);
    lemma_moves_run(state, -1, true);
}

/// What a key that is no character does to the program.
proof fn lemma_key_runs(state: AppView, key: KeyEvent)
    requires
        !(key.code is Char),
        !(key.code == KeyCode::Esc && !state.visual),
    ensures
        state.after_normal_key(key).running == state.running,
{
    let page = state.body.height as int;
    lemma_moves_run(state, page, true);
    lemma_moves_run(state, -page, true);
    lemma_moves_run(state, 1, true);
    lemma_moves_run(state, -1, true);
    lemma_starts_run(state);
}

/// The key ends the program while no comment is edited.
pub open spec fn is_quit(key: KeyEvent, visual: bool) -> bool {
    ||| key.code == KeyCode::Char('q')
    ||| key.code == KeyCode::Char('Q')
    ||| key.code == KeyCode::Char('c') && key.modifiers.control
    ||| key.code == KeyCode::Esc && !visual
}

/// While no comment is edited, `q`, `Q` and Control with `c` end the program, and Esc where visual
/// mode is off; no other key and no report on the mouse does.
#[verifier::spinoff_prover]
pub proof fn law_keys_that_quit(state: AppView, event: Event)
    requires
        state.editor is None,
        state.running,
    ensures
        !state.after_event(event).running <==> (event matches Event::Key(key) && key.kind
            != events::KeyEventKind::Release && is_quit(key, state.visual)),
        !state.after_event(event).running ==> state.after_event(event) == (AppView {
            running: false,
            ..state
        }),
{
    match event {
        Event::Key(key) => {
            if !is_quit(key, state.visual) && events::is_action(key) {
                match key.code {
                    KeyCode::Char(ch) => lemma_char_runs(state, ch, key.modifiers),
                    _ => lemma_key_runs(state, key),
                }
            }
        },
        Event::Mouse(mouse) => lemma_mouse_runs(state, mouse),
        Event::Other => {},
    }
}

/// `r` and `R`, and nothing else, ask for a reading of the diff, and change nothing themselves.
pub proof fn law_keys_that_refresh(state: AppView, event: Event)
    requires
        state.editor is None,
    ensures
        state.asked(event) == control::ActionView::Refresh <==> (event matches Event::Key(key)
            && key.kind != events::KeyEventKind::Release && (key.code == KeyCode::Char('r')
            || key.code == KeyCode::Char('R'))),
        state.asked(event) == control::ActionView::Refresh ==> state.after_event(event) == state,
        !(state.asked(event) is Copy),
{
}

/// `g` selects the first row that can be selected and `G` the last, and nothing else.
pub proof fn law_edge_keys(state: AppView, key: KeyEvent, row: int)
    requires
        state.inv(),
        state.editor is None,
        events::is_action(key),
        state.is_target(row),
        (key.code == KeyCode::Char('g') && is_first(state, row)) || (key.code == KeyCode::Char('G')
            && is_last(state, row)),
    ensures
        ({
            let next = state.after_event(Event::Key(key));
            &&& next.selected == Some(row)
            &&& !next.visual && next.anchor is None && next.drag is None
            &&& next.scroll <= row < next.scroll + next.height()
            &&& next.running == state.running
            &&& same_content(next, state)
        }),
{
    let selectable = state.selectable_indices();
    let p = app_laws::lemma_position(state, row);
    if key.code == KeyCode::Char('g') {
        if p > 0 {
            assert(selectable[0] < selectable[p]);
            app_laws::lemma_selectable(state, 0);
            assert(state.is_target(selectable[0]));
        }
    } else {
        if p < selectable.len() - 1 {
            assert(selectable[p] < selectable[selectable.len() - 1]);
            app_laws::lemma_selectable(state, selectable.len() - 1);
            assert(state.is_target(selectable[selectable.len() - 1]));
        }
    }
}

/// How many rows a report of the terminal scrolls by, down or up: a page by `f`, `b` and the page
/// keys, three rows by the wheel.
pub open spec fn scrolls_by(state: AppView, event: Event) -> Option<int> {
    match event {
        Event::Key(key) => if key.kind == events::KeyEventKind::Release {
            None
        } else if key.code == KeyCode::Char('f') || key.code == KeyCode::Char('F') || key.code
            == KeyCode::PageDown {
            Some(state.body.height as int)
        } else if key.code == KeyCode::Char('b') || key.code == KeyCode::Char('B') || key.code
            == KeyCode::PageUp {
            Some(-(state.body.height as int))
        } else {
            None
        },
        Event::Mouse(mouse) => if mouse.kind == MouseEventKind::ScrollDown {
            Some(3)
        } else if mouse.kind == MouseEventKind::ScrollUp {
            Some(-3)
        } else {
            None
        },
        Event::Other => None,
    }
}

/// Scrolling moves the first row that is shown by as many rows as are asked for, as far as there are
/// rows. Where it moves, the selection goes along: a selected row that was shown gives way to the
/// row at the same place on the screen, if that can be selected; and in visual mode the range keeps
/// its beginning.
#[verifier::spinoff_prover]
pub proof fn law_scrolling(state: AppView, event: Event, amount: int)
    requires
        state.inv(),
        state.editor is None,
        state.rows.len() > 0,
        state.rows.len() <= usize::MAX,
        scrolls_by(state, event) == Some(amount),
    ensures
        ({
            let next = state.after_event(event);
            let lines: int = if state.body.height == 0 {
                1
            } else {
                state.body.height as int
            };
            let most: int = if state.rows.len() > lines {
                state.rows.len() - lines
            } else {
                0
            };
            let wanted = state.scroll + amount;
            &&& 0 <= wanted <= most ==> next.scroll == wanted
            &&& wanted < 0 ==> next.scroll == 0
            &&& wanted > most ==> next.scroll == most
            &&& next.scroll == state.scroll ==> next.selected == state.selected
            &&& next.scroll != state.scroll ==> (state.selected matches Some(row) ==> {
                let to = next.scroll + (row - state.scroll);
                state.scroll <= row < state.scroll + lines && state.is_target(to) && to
                    < state.rows.len() ==> next.selected == Some(to)
            })
            &&& next.selected matches Some(row) ==> next.is_target(row)
            &&& next.scroll != state.scroll ==> (next.selected matches Some(row) ==> next.scroll
                <= row < next.scroll + lines)
            &&& state.visual ==> next.visual && next.anchor == state.anchor
            &&& next.running == state.running
            &&& same_content(next, state)
        }),
{
    let scroll = app::clamped(state.scroll + amount, 0, state.max_scroll());
    let next = state.after_event(event);
    assert(next == state.after_scroll(amount));
    if scroll != state.scroll {
        let moved = AppView {
            scroll,
            anchor: if state.drag is None && !state.visual {
                None
            } else {
                state.anchor
            },
            ..state
        };
        let aim = app::saturated(scroll + state.offset());
        app_laws::law_nearest_row(moved, scroll, moved.shown_end(), aim);
        if let Some(row) = state.selected {
            let to = scroll + (row - state.scroll);
            if state.scroll <= row < state.scroll + state.height() && state.is_target(to) && to
                < state.rows.len() {
                assert(moved.is_target(to));
                assert(aim == to);
            }
        }
        if let Some(row) = next.selected {
            assert(moved.is_target(row));
            assert(next.is_target(row));
        }
    }
}

/// Row `row` lies between the ends of the selection, or is the selected row where there is no range.
pub open spec fn is_within(state: AppView, row: int) -> bool {
    match (state.selected, state.anchor) {
        (Some(end), Some(begin)) => begin <= row <= end || end <= row <= begin,
        (Some(end), None) => row == end,
        (None, _) => false,
    }
}

/// The indices are those of the lines of the diff whose rows lie within the selection and that can
/// be selected, in their order.
pub open spec fn are_selected(state: AppView, indices: Seq<int>) -> bool {
    &&& forall|a: int, b: int|
        0 <= a < b < indices.len() ==> #[trigger] indices[a] < #[trigger] indices[b]
    &&& forall|k: int|
        0 <= k < indices.len() ==> 0 <= #[trigger] indices[k] < state.parsed.lines.len()
            && state.parsed.lines[indices[k]].selectable && exists|row: int|
            0 <= row < state.rows.len() && is_within(state, row) && #[trigger] state.rows[row]
                == RowView::Diff(indices[k])
    &&& forall|row: int|
        0 <= row < state.rows.len() && is_within(state, row) ==> (
        #[trigger] state.rows[row] matches RowView::Diff(i) ==> (0 <= i < state.parsed.lines.len()
            && state.parsed.lines[i].selectable ==> indices.contains(i)))
}

/// Each line among some rows that can be selected is among the indices.
proof fn lemma_indices_complete(
    state: AppView,
    rows: Seq<RowView>,
    indices: Seq<int>,
    r: int,
    i: int,
)
    requires
        app_laws::in_order(rows, state.parsed.lines.len() as int),
        0 <= r < rows.len(),
        rows[r] == RowView::Diff(i),
        0 <= i < state.parsed.lines.len(),
        state.parsed.lines[i].selectable,
        indices == diff_indices(state, rows),
    ensures
        indices.contains(i),
    decreases rows.len(),
{
    let init = rows.drop_last();
    let before = diff_indices(state, init);
    if r == rows.len() - 1 {
        assert(indices.last() == i);
    } else {
        assert forall|a: int| 0 <= a < init.len() implies ((
        #[trigger] init[a]) matches RowView::Diff(i) ==> 0 <= i < state.parsed.lines.len()) by {
            assert(init[a] == rows[a]);
        }
        assert forall|a: int, b: int|
            0 <= a < b < init.len() && (#[trigger] init[a]) is Diff && (
            #[trigger] init[b]) is Diff implies init[a]->Diff_0 < init[b]->Diff_0 by {
            assert(rows[a]->Diff_0 < rows[b]->Diff_0);
        }
        lemma_indices_complete(state, init, before, r, i);
        let k = choose|k: int| 0 <= k < before.len() && before[k] == i;
        assert(indices[k] == i);
    }
}

/// The indices of the lines among some rows that can be selected.
spec fn diff_indices(state: AppView, rows: Seq<RowView>) -> Seq<int>
    decreases rows.len(),
{
    if rows.len() == 0 {
        seq![]
    } else {
        match rows.last() {
            RowView::Diff(i) => if 0 <= i < state.parsed.lines.len()
                && state.parsed.lines[i].selectable {
                diff_indices(state, rows.drop_last()).push(i)
            } else {
                diff_indices(state, rows.drop_last())
            },
            RowView::Comment(_) => diff_indices(state, rows.drop_last()),
        }
    }
}

/// The lines that are selected among some rows, by their indices.
#[verifier::spinoff_prover]
proof fn lemma_diff_indices(state: AppView, rows: Seq<RowView>)
    requires
        app_laws::in_order(rows, state.parsed.lines.len() as int),
    ensures
        ({
            let indices = diff_indices(state, rows);
            &&& rows.filter_map(|row: RowView| state.target_of(row)) == indices.map_values(
                |i: int| state.parsed.lines[i],
            )
            &&& forall|k: int|
                0 <= k < indices.len() ==> 0 <= #[trigger] indices[k] < state.parsed.lines.len()
                    && state.parsed.lines[indices[k]].selectable && rows.contains(
                    RowView::Diff(indices[k]),
                )
            &&& forall|a: int, b: int|
                0 <= a < b < indices.len() ==> #[trigger] indices[a] < #[trigger] indices[b]
        }),
    decreases rows.len(),
{
    let f = |row: RowView| state.target_of(row);
    let g = |i: int| state.parsed.lines[i];
    reveal(Seq::filter_map);
    let indices = diff_indices(state, rows);
    if rows.len() == 0 {
        assert(rows.filter_map(f) =~= indices.map_values(g));
    } else {
        let init = rows.drop_last();
        let before = diff_indices(state, init);
        assert forall|a: int| 0 <= a < init.len() implies ((
        #[trigger] init[a]) matches RowView::Diff(i) ==> 0 <= i < state.parsed.lines.len()) by {
            assert(init[a] == rows[a]);
        }
        assert forall|a: int, b: int|
            0 <= a < b < init.len() && (#[trigger] init[a]) is Diff && (
            #[trigger] init[b]) is Diff implies init[a]->Diff_0 < init[b]->Diff_0 by {
            assert(rows[a]->Diff_0 < rows[b]->Diff_0);
        }
        lemma_diff_indices(state, init);
        assert(rows.filter_map(f) =~= indices.map_values(g));
        assert forall|k: int| 0 <= k < indices.len() implies 0 <= #[trigger] indices[k]
            < state.parsed.lines.len() && state.parsed.lines[indices[k]].selectable
            && rows.contains(RowView::Diff(indices[k])) by {
            if k < before.len() {
                assert(indices[k] == before[k]);
                assert(init.contains(RowView::Diff(before[k])));
                let r = choose|r: int| 0 <= r < init.len() && init[r] == RowView::Diff(before[k]);
                assert(rows[r] == RowView::Diff(before[k]));
            } else {
                assert(rows[rows.len() - 1] == RowView::Diff(indices[k]));
            }
        }
        assert forall|a: int, b: int| 0 <= a < b < indices.len() implies #[trigger] indices[a]
            < #[trigger] indices[b] by {
            if b < before.len() {
                assert(before[a] < before[b]);
            } else {
                assert(init.contains(RowView::Diff(before[a])));
                let r = choose|r: int| 0 <= r < init.len() && init[r] == RowView::Diff(before[a]);
                assert(rows[r] is Diff && rows[rows.len() - 1] is Diff);
            }
        }
    }
}

/// The selected lines are exactly the lines of the diff between the ends of the selection that can
/// be selected, each once and in the order of the diff; comments between them are left out.
#[verifier::spinoff_prover]
pub proof fn law_selection_is_the_range(state: AppView) -> (indices: Seq<int>)
    requires
        state.inv(),
    ensures
        are_selected(state, indices),
        state.selection_lines() == indices.map_values(|i: int| state.parsed.lines[i]),
{
    let rows = state.selected_rows();
    let count = state.parsed.lines.len() as int;
    app_laws::lemma_rows_in_order(state.parsed.lines, state.comments);
    let indices = diff_indices(state, rows);
    let start = match state.selected {
        Some(selected) => if state.other_end(selected) <= selected {
            state.other_end(selected)
        } else {
            selected
        },
        None => 0,
    };
    assert(forall|a: int| 0 <= a < rows.len() ==> rows[a] == state.rows[start + a]);
    assert(app_laws::in_order(rows, count)) by {
        assert forall|a: int| 0 <= a < rows.len() implies ((
        #[trigger] rows[a]) matches RowView::Diff(i) ==> 0 <= i < count) by {
            assert(rows[a] == state.rows[start + a]);
        }
        assert forall|a: int, b: int|
            0 <= a < b < rows.len() && (#[trigger] rows[a]) is Diff && (
            #[trigger] rows[b]) is Diff implies rows[a]->Diff_0 < rows[b]->Diff_0 by {
            assert(rows[a] == state.rows[start + a]);
            assert(rows[b] == state.rows[start + b]);
        }
    }
    lemma_diff_indices(state, rows);
    assert forall|k: int| 0 <= k < indices.len() implies 0 <= #[trigger] indices[k] < count
        && state.parsed.lines[indices[k]].selectable && exists|row: int|
        0 <= row < state.rows.len() && is_within(state, row) && #[trigger] state.rows[row]
            == RowView::Diff(indices[k]) by {
        assert(rows.contains(RowView::Diff(indices[k])));
        let r = choose|r: int| 0 <= r < rows.len() && rows[r] == RowView::Diff(indices[k]);
        assert(state.rows[start + r] == RowView::Diff(indices[k]));
        assert(is_within(state, start + r));
    }
    assert forall|row: int| 0 <= row < state.rows.len() && is_within(state, row) implies (
    #[trigger] state.rows[row] matches RowView::Diff(i) ==> (0 <= i < count
        && state.parsed.lines[i].selectable ==> indices.contains(i))) by {
        if let RowView::Diff(i) = state.rows[row] {
            if 0 <= i < count && state.parsed.lines[i].selectable {
                assert(rows[row - start] == state.rows[row]);
                lemma_indices_complete(state, rows, indices, row - start, i);
            }
        }
    }
    indices
}

/// Pressing the left button on a row that can be selected begins a range there: the row at that
/// place of the screen, counted from the scroll.
pub proof fn law_press_begins_a_range(state: AppView, k: int)
    requires
        state.inv(),
        state.editor is None,
        0 <= k < state.body.height,
        state.body.y + k < u16::MAX,
        state.is_target(state.scroll + k),
    ensures
        ({
            let next = state.after_event(
                Event::Mouse(
                    MouseEvent {
                        kind: MouseEventKind::Down(MouseButton::Left),
                        row: (state.body.y + k) as u16,
                    },
                ),
            );
            &&& next.selected == Some(state.scroll + k)
            &&& next.anchor == Some(state.scroll + k)
            &&& next.drag is Some
            &&& next.visual
            &&& next.running == state.running
            &&& same_content(next, state)
        }),
{
}

/// Dragging to a row that can be selected moves the end of the range there and leaves its beginning;
/// without a press before it does nothing.
pub proof fn law_drag_extends_the_range(state: AppView, k: int)
    requires
        state.inv(),
        state.editor is None,
        0 <= k < state.body.height,
        state.body.y + k < u16::MAX,
        state.is_target(state.scroll + k),
    ensures
        ({
            let next = state.after_event(
                Event::Mouse(
                    MouseEvent {
                        kind: MouseEventKind::Drag(MouseButton::Left),
                        row: (state.body.y + k) as u16,
                    },
                ),
            );
            &&& state.drag is Some ==> {
                &&& next.selected == Some(state.scroll + k)
                &&& next.anchor == state.anchor
                &&& next.visual == state.visual
                &&& next.drag == state.drag
                &&& same_content(next, state)
            }
            &&& state.drag is None ==> next == state
        }),
{
}

/// Where no row that can be selected is shown, the buttons of the mouse do nothing.
pub proof fn law_mouse_beside_the_rows(state: AppView, mouse: MouseEvent)
    requires
        state.editor is None,
        mouse.kind is Down || mouse.kind is Drag,
        mouse.row < state.body.y || mouse.row >= state.body.y + state.body.height || !state.is_target(
            state.scroll + (mouse.row - state.body.y),
        ),
        state.scroll >= 0,
    ensures
        state.after_event(Event::Mouse(mouse)) == state,
{
}

/// Letting the left button go after a press opens an editor for a comment on the selected lines,
/// where there are any.
#[verifier::spinoff_prover]
pub proof fn law_release_opens_an_editor(state: AppView, row: u16)
    requires
        state.inv(),
        state.editor is None,
        state.drag is Some,
        state.selection_lines().len() > 0,
    ensures
        ({
            let next = state.after_event(
                Event::Mouse(MouseEvent { kind: MouseEventKind::Up(MouseButton::Left), row }),
            );
            &&& next.editor matches Some(opened) && opened.target_lines == state.selection_lines()
                && opened.replacing_comment is None && opened.text().len() == 0
            &&& next.drag is None
            &&& next.visual <==> state.selection_lines().len() > 1
            &&& next.anchor == if state.selection_lines().len() > 1 {
                state.anchor
            } else {
                None
            }
            &&& next.selected == state.selected
            &&& next.rows == state.rows && next.comments == state.comments
        }),
{
    let lines = state.selection_lines();
    let released = AppView { drag: None, ..state };
    let multi = AppView { visual: true, ..released };
    let single = AppView { visual: false, ..released };
    assert(released.selected_rows() == state.selected_rows());
    assert(multi.selected_rows() == state.selected_rows());
    assert(single.selected_rows() == state.selected_rows());
    lemma_same_lines(released, state);
    lemma_same_lines(multi, state);
    lemma_same_lines(single, state);
    if lines.len() == 1 {
        if let Some(selected) = state.selected {
            if state.other_end(selected) == selected {
                match state.rows[selected] {
                    RowView::Comment(_) => {
                        reveal_with_fuel(Seq::filter_map, 2);
                        assert(state.selected_rows() =~= seq![state.rows[selected]]);
                        assert(seq![state.rows[selected]].drop_last() =~= seq![]);
                    },
                    _ => {},
                }
            }
        }
    }
    lemma_empty_text(lines);
}

/// States with the same diff, rows and ends of the selection have the same lines selected.
proof fn lemma_same_lines(a: AppView, b: AppView)
    requires
        a.parsed == b.parsed,
        a.selected_rows() == b.selected_rows(),
    ensures
        a.selection_lines() == b.selection_lines(),
{
    let f = |row: RowView| a.target_of(row);
    let g = |row: RowView| b.target_of(row);
    assert(f =~= g);
}

/// A new editor is empty.
proof fn lemma_empty_text(lines: Seq<DiffLineView>)
    ensures
        editor::new_editor(lines).text().len() == 0,
{
}

/// Enter opens an empty editor for a comment on the selected lines; where a comment and nothing else
/// is selected, an editor that holds that comment, to replace it. Nothing else changes but the
/// status.
#[verifier::spinoff_prover]
pub proof fn law_enter_opens_an_editor(state: AppView, key: KeyEvent)
    requires
        state.inv(),
        state.editor is None,
        events::is_action(key),
        key.code == KeyCode::Enter,
    ensures
        ({
            let next = state.after_event(Event::Key(key));
            let row = state.selected;
            &&& state.selection_lines().len() > 0 ==> (next.editor matches Some(opened)
                && opened.target_lines == state.selection_lines() && opened.replacing_comment is None
                && opened.text().len() == 0)
            &&& row matches Some(r) ==> !state.visual && (state.anchor is None || state.anchor
                == row) ==> (state.rows[r] matches RowView::Comment(comment) ==> (
            comment.target_lines.len() > 0 ==> (next.editor matches Some(opened)
                && opened.target_lines == comment.target_lines && opened.replacing_comment == Some(
                comment.created_at,
            ) && opened.text() == comment.text)))
            &&& row is None ==> next.editor is None
            &&& state.selection_lines().len() == 0 && state.visual ==> next.editor is None
                && next.status == "No diff line selected."@
            &&& next == AppView { editor: next.editor, status: next.status, ..state }
        }),
{
    lemma_empty_text(state.selection_lines());
    if let Some(r) = state.selected {
        match state.rows[r] {
            RowView::Comment(comment) => {
                editor::law_reopened_comment_text(comment.target_lines, comment);
                if state.other_end(r) == r {
                    reveal_with_fuel(Seq::filter_map, 2);
                    assert(state.selected_rows() =~= seq![state.rows[r]]);
                    assert(seq![state.rows[r]].drop_last() =~= seq![]);
                }
            },
            _ => {},
        }
    } else {
        reveal(Seq::filter_map);
        assert(state.selection_lines().len() == 0);
    }
}

/// The editor of `next` holds the same comment in the making as `e`, for the same lines, and nothing
/// but the editor has changed.
pub open spec fn edits(state: AppView, e: EditorView, next: AppView, n: EditorView) -> bool {
    &&& next == AppView { editor: Some(n), ..state }
    &&& n.target_lines == e.target_lines
    &&& n.replacing_comment == e.replacing_comment
}

/// While a comment is edited, a character is typed at the cursor, also `q` or `j`; Tab types a tab,
/// and Enter with Shift or Control, or Control with `j`, a line feed.
#[verifier::spinoff_prover]
pub proof fn law_typing(state: AppView, e: EditorView, key: KeyEvent)
    requires
        state.editor == Some(e),
        e.wf(),
        events::is_action(key),
    ensures
        ({
            let next = state.after_event(Event::Key(key));
            let n = next.editor->0;
            let held = key.modifiers;
            &&& key.code matches KeyCode::Char(ch) ==> !held.control && !text::is_control_char(ch)
                ==> edits(state, e, next, n) && n.before() == e.before().push(ch) && n.behind()
                == e.behind()
            &&& key.code == KeyCode::Tab ==> edits(state, e, next, n) && n.before()
                == e.before().push('\t') && n.behind() == e.behind()
            &&& (key.code == KeyCode::Enter && (held.shift || held.control)) || (key.code
                == KeyCode::Char('j') && held.control) ==> edits(state, e, next, n) && n.before()
                == e.before().push('\n') && n.behind() == e.behind()
            &&& state.asked(Event::Key(key)) is Copy ==> submits(key)
        }),
{
    editor::law_insert(e, '\t');
    editor::law_insert(e, '\n');
    if let KeyCode::Char(ch) = key.code {
        if editor::is_taken(ch) {
            editor::law_insert(e, ch);
        }
    }
}

/// Backspace and Delete remove the character before or behind the cursor, and the arrows to the left
/// and to the right step over one; at the ends of the text they do nothing.
#[verifier::spinoff_prover]
pub proof fn law_erasing_and_stepping(state: AppView, e: EditorView, key: KeyEvent)
    requires
        state.editor == Some(e),
        e.wf(),
        events::is_action(key),
    ensures
        ({
            let next = state.after_event(Event::Key(key));
            let n = next.editor->0;
            &&& key.code == KeyCode::Backspace ==> edits(state, e, next, n) && n.behind()
                == e.behind() && (e.before().len() > 0 ==> n.before() == e.before().drop_last()) && (
            e.before().len() == 0 ==> n == e)
            &&& key.code == KeyCode::Delete ==> edits(state, e, next, n) && n.before() == e.before()
                && (e.behind().len() > 0 ==> n.behind() == e.behind().drop_first()) && (
            e.behind().len() == 0 ==> n == e)
            &&& key.code == KeyCode::Left ==> edits(state, e, next, n) && n.text() == e.text() && (
            e.before().len() > 0 ==> n.before() == e.before().drop_last()) && (e.before().len() == 0
                ==> n == e)
            &&& key.code == KeyCode::Right ==> edits(state, e, next, n) && n.text() == e.text() && (
            e.behind().len() > 0 ==> n.behind() == e.behind().drop_first()) && (e.behind().len()
                == 0 ==> n == e)
        }),
{
    editor::law_backspace(e);
    editor::law_delete(e);
    editor::law_move_left(e);
    editor::law_move_right(e);
}

/// The arrows up and down go to the line above or below, as far to the right as before or to its
/// end; Home and End go to the ends of the line; Control with `u` empties the line. None of them
/// changes another line.
#[verifier::spinoff_prover]
pub proof fn law_lines_of_the_editor(state: AppView, e: EditorView, key: KeyEvent)
    requires
        state.editor == Some(e),
        e.wf(),
        events::is_action(key),
    ensures
        ({
            let next = state.after_event(Event::Key(key));
            let n = next.editor->0;
            let moves = key.code == KeyCode::Up || key.code == KeyCode::Down || key.code
                == KeyCode::Home || key.code == KeyCode::End;
            &&& moves ==> edits(state, e, next, n) && n.lines == e.lines
            &&& key.code == KeyCode::Up && e.y == 0 ==> n == e
            &&& key.code == KeyCode::Up && e.y > 0 ==> n.y == e.y - 1
            &&& key.code == KeyCode::Down && e.y == e.lines.len() - 1 ==> n == e
            &&& key.code == KeyCode::Down && e.y < e.lines.len() - 1 ==> n.y == e.y + 1
            &&& (key.code == KeyCode::Up || key.code == KeyCode::Down) && e.x <= e.lines[n.y].len()
                ==> n.x == e.x
            &&& (key.code == KeyCode::Up || key.code == KeyCode::Down) && e.x > e.lines[n.y].len()
                ==> n.x == e.lines[n.y].len()
            &&& key.code == KeyCode::Home ==> n.y == e.y && n.x == 0
            &&& key.code == KeyCode::End ==> n.y == e.y && n.x == e.lines[e.y].len()
            &&& key.code == KeyCode::Char('u') && key.modifiers.control ==> {
                &&& edits(state, e, next, n)
                &&& n.y == e.y && n.x == 0
                &&& n.lines.len() == e.lines.len()
                &&& n.lines[e.y].len() == 0
                &&& forall|j: int|
                    0 <= j < e.lines.len() && j != e.y ==> (#[trigger] n.lines[j]) == e.lines[j]
            }
        }),
{
}

/// Esc closes the editor without a comment, and Control with `c` ends the program; the comments,
/// the rows and the selection stay.
pub proof fn law_leaving_the_editor(state: AppView, e: EditorView, key: KeyEvent)
    requires
        state.editor == Some(e),
        events::is_action(key),
    ensures
        ({
            let next = state.after_event(Event::Key(key));
            &&& key.code == KeyCode::Esc ==> next.editor is None && next == AppView {
                editor: None,
                status: next.status,
                ..state
            }
            &&& key.code == KeyCode::Char('c') && key.modifiers.control ==> next == AppView {
                running: false,
                ..state
            }
            &&& key.code == KeyCode::Esc || (key.code == KeyCode::Char('c')
                && key.modifiers.control) ==> state.asked(Event::Key(key))
                == control::ActionView::Nothing
        }),
{
}

/// While a comment is edited the mouse does nothing.
pub proof fn law_mouse_waits_for_the_editor(state: AppView, mouse: MouseEvent)
    requires
        state.editor is Some,
    ensures
        state.after_event(Event::Mouse(mouse)) == state,
        state.asked(Event::Mouse(mouse)) == control::ActionView::Nothing,
{
}

/// The key submits the comment: Enter alone, or Control with `d`.
pub open spec fn submits(key: KeyEvent) -> bool {
    ||| key.code == KeyCode::Enter && !key.modifiers.shift && !key.modifiers.control
    ||| key.code == KeyCode::Char('d') && key.modifiers.control
}

/// Submitting a comment closes the editor, has the text for the lines that are commented on copied,
/// keeps the comment under the last of these lines, without white space at its end, and leaves every
/// other comment where it is but the one that it replaces. A blank comment is dropped.
#[verifier::spinoff_prover]
pub proof fn law_submitting(
    state: AppView,
    e: EditorView,
    key: KeyEvent,
    id: Seq<char>,
    x: CommentView,
)
    requires
        state.editor == Some(e),
        events::is_action(key),
        submits(key),
        state.counter < u64::MAX,
        e.target_lines.len() > 0,
        e.replacing_comment matches Some(replaced) ==> replaced <= state.counter,
    ensures
        ({
            let next = state.after_event(Event::Key(key));
            let blank = text::trim(e.text()).len() == 0;
            let added = CommentView {
                target_lines: e.target_lines,
                text: text::trim_end(e.text()),
                created_at: (state.counter + 1) as u64,
            };
            let here = comments::comments_under(next.comments, id).contains(x);
            let there = comments::comments_under(state.comments, id).contains(x);
            &&& next.editor is None
            &&& next.parsed == state.parsed && next.running == state.running
            &&& blank ==> next.comments == state.comments && next.rows == state.rows && state.asked(
                Event::Key(key),
            ) == control::ActionView::Nothing
            &&& !blank ==> {
                &&& state.asked(Event::Key(key)) == control::ActionView::Copy(
                    payload::review_payload(
                        state.parsed,
                        e.target_lines,
                        e.text(),
                        state.config.max_copy_lines as int,
                    ),
                )
                &&& next.counter == state.counter + 1
                &&& here <==> (id == e.target_lines.last().id() && x == added) || (there
                    && e.replacing_comment != Some(x.created_at))
                &&& next.rows == app::rows_of(state.parsed.lines, next.comments)
                &&& !next.visual && next.anchor is None
            }
        }),
{
    let target = e.target_lines.last().id();
    let closed = AppView { editor: None, ..state };
    let comment = text::trim_end(e.text());
    match e.replacing_comment {
        Some(replaced) => app_laws::law_edit_replaces_comment(
            closed,
            target,
            e.target_lines,
            comment,
            replaced,
            id,
            x,
        ),
        None => {
            let added = CommentView {
                target_lines: e.target_lines,
                text: comment,
                created_at: (state.counter + 1) as u64,
            };
            let before = comments::comments_under(state.comments, target);
            let after = before.push(added);
            assert(after[before.len() as int] == added);
            if before.contains(x) {
                let k = choose|k: int| 0 <= k < before.len() && before[k] == x;
                assert(after[k] == x);
            }
            if after.contains(x) {
                let k = choose|k: int| 0 <= k < after.len() && after[k] == x;
                if k < before.len() {
                    assert(before[k] == x);
                }
            }
        },
    }
}

/// After a comment is submitted, a row with the identity of the last line that it is on is selected
/// where there is one that can be.
pub proof fn law_submitting_selects_the_line(
    state: AppView,
    e: EditorView,
    key: KeyEvent,
    row: int,
)
    requires
        state.editor == Some(e),
        events::is_action(key),
        submits(key),
        e.target_lines.len() > 0,
        text::trim(e.text()).len() > 0,
        state.after_event(Event::Key(key)).is_target(row),
        state.after_event(Event::Key(key)).row_id(state.after_event(Event::Key(key)).rows[row])
            == Some(e.target_lines.last().id()),
    ensures
        state.after_event(Event::Key(key)).selected_id() == Some(e.target_lines.last().id()),
{
    let next = state.after_event(Event::Key(key));
    let id = e.target_lines.last().id();
    let built = AppView { editor: None, ..state }.with_comment(
        id,
        e.target_lines,
        text::trim_end(e.text()),
        e.replacing_comment,
    ).rebuilt();
    let pred = |row: RowView| built.row_selectable(row) && built.row_id(row) == Some(id);
    app::lemma_first_where(built.rows, pred);
    assert(next == built.restored(Some(id)));
    assert(next.rows == built.rows && next.parsed == built.parsed);
    assert(pred(built.rows[row]));
    let selected = next.selected->0;
    assert(pred(built.rows[selected]));
}

/// A reading of the diff that is forced, or gives another text or error, takes over the text: its
/// lines and hunks, a row for each line and each comment, and what it says. Where a row can be
/// selected one is, the first where the selected one is gone, and there is no range.
#[verifier::spinoff_prover]
pub proof fn law_reading_takes_over(state: AppView, force: bool, result: GitDiffView)
    requires
        state.scroll >= 0,
        force || state.last_text != Some(result.text) || state.error != result.error,
    ensures
        ({
            let next = state.after_refresh(force, result);
            let count = diff_parser::selectable_lines(next.parsed.lines).len();
            &&& next.parsed == diff_parser::parsed_diff(result.text)
            &&& next.rows == app::rows_of(next.parsed.lines, state.comments)
            &&& next.comments == state.comments && next.counter == state.counter
            &&& next.editor == state.editor && next.running == state.running
            &&& next.last_text == Some(result.text)
            &&& next.error == result.error
            &&& !next.visual && next.anchor is None && next.drag is None
            &&& (exists|row: int| #[trigger] next.is_target(row)) ==> (next.selected matches Some(r)
                && next.is_target(r))
            &&& (forall|row: int| #[trigger]
                next.is_target(row) ==> next.row_id(next.rows[row]) != state.selected_id()) ==> (
            next.selected matches Some(r) ==> is_first(next, r))
            &&& result.error matches Some(error) ==> next.status == error
            &&& result.error is None && text::trim(result.text).len() == 0 ==> next.status
                == "No uncommitted tracked diff. Waiting for changes..."@
            &&& result.error is None && text::trim(result.text).len() > 0 ==> next.status
                == "Loaded "@ + number::decimal(next.parsed.hunks.len()) + " hunks, "@
                + number::decimal(count) + " selectable lines."@
        }),
{
    let built = AppView {
        error: result.error,
        last_text: Some(result.text),
        parsed: diff_parser::parsed_diff(result.text),
        ..state
    }.rebuilt();
    let next = state.after_refresh(force, result);
    assert(next.rows == built.rows && next.parsed == built.parsed);
    if let Some(id) = state.selected_id() {
        app::lemma_first_where(
            built.rows,
            |row: RowView| built.row_selectable(row) && built.row_id(row) == Some(id),
        );
    }
    if exists|row: int| #[trigger] next.is_target(row) {
        let row = choose|row: int| #[trigger] next.is_target(row);
        assert(built.is_target(row));
        app_laws::lemma_selectable_nonempty(built, row);
        app_laws::lemma_selectable(built, 0);
        let r = next.selected->0;
        assert(built.is_target(r));
        assert(next.is_target(r));
        if forall|row: int| #[trigger]
            next.is_target(row) ==> next.row_id(next.rows[row]) != state.selected_id() {
            assert(next.row_id(next.rows[r]) == built.row_id(built.rows[r]));
            assert(r == built.selectable_indices()[0]);
            assert forall|other: int| other < r implies !#[trigger] next.is_target(other) by {
                if next.is_target(other) {
                    assert(built.is_target(other));
                    let p = app_laws::lemma_position(built, other);
                    if p > 0 {
                        assert(built.selectable_indices()[0] < built.selectable_indices()[p]);
                    }
                }
            }
        }
    } else if let Some(r) = next.selected {
        assert forall|other: int| other < r implies !#[trigger] next.is_target(other) by {}
    }
}

/// What is said when an editor is opened names the file and the lines.
pub proof fn law_opening_says_what_is_commented_on(state: AppView, key: KeyEvent, path: Seq<char>)
    requires
        state.inv(),
        state.editor is None,
        events::is_action(key),
        key.code == KeyCode::Enter,
        state.selection_lines().len() > 0,
        state.selection_lines()[0].file_path == Some(path),
    ensures
        ({
            let next = state.after_event(Event::Key(key));
            let lines = state.selection_lines();
            &&& lines.len() == 1 ==> next.status == "Commenting on "@ + path + ": "@
                + payload::target_text(lines[0])
            &&& lines.len() > 1 ==> next.status == "Commenting on "@ + path + ": "@
                + payload::target_lines_text(lines)
        }),
{
    if let Some(r) = state.selected {
        if state.rows[r] is Comment && state.other_end(r) == r {
            reveal_with_fuel(Seq::filter_map, 2);
            assert(state.selected_rows() =~= seq![state.rows[r]]);
            assert(seq![state.rows[r]].drop_last() =~= seq![]);
        }
    }
}

/// Scrolling to the selected row moves the rows no more than needed: not at all where the row is
/// shown and the rows fill the screen, and else so that it is the first or the last row shown.
pub proof fn law_scroll_follows_the_selection(state: AppView, row: int)
    requires
        state.scroll >= 0,
        state.selected == Some(row),
        0 <= row < state.rows.len(),
    ensures
        ({
            let lines: int = if state.body.height == 0 {
                1
            } else {
                state.body.height as int
            };
            let most = state.rows.len() - lines;
            let next = state.visible();
            &&& state.scroll <= row < state.scroll + lines && state.scroll <= most ==> next.scroll
                == state.scroll
            &&& row < state.scroll && row <= most ==> next.scroll == row
            &&& row >= state.scroll + lines ==> next.scroll + lines - 1 == row
            &&& most <= 0 ==> next.scroll == 0
            &&& most > 0 ==> next.scroll <= most
            &&& next == AppView { scroll: next.scroll, ..state }
        }),
{
}

/// Where no row that is shown is selected, scrolling selects the row nearest to the middle of the
/// screen that can be selected.
#[verifier::spinoff_prover]
pub proof fn law_scrolling_selects_the_middle(state: AppView, event: Event, amount: int, other: int)
    requires
        state.inv(),
        state.editor is None,
        state.rows.len() > 0,
        state.rows.len() < usize::MAX - u16::MAX,
        scrolls_by(state, event) == Some(amount),
        state.after_event(event).scroll != state.scroll,
        state.selected matches Some(row) ==> !(state.scroll <= row < state.scroll + state.height()),
        state.is_target(other),
        state.after_event(event).scroll <= other < state.after_event(event).scroll + state.height(),
        state.scroll <= state.rows.len(),
    ensures
        ({
            let next = state.after_event(event);
            let lines: int = if state.body.height == 0 {
                1
            } else {
                state.body.height as int
            };
            let middle = next.scroll + lines / 2;
            next.selected matches Some(row) && app::distance(row, middle) <= app::distance(
                other,
                middle,
            )
        }),
{
    let scroll = app::clamped(state.scroll + amount, 0, state.max_scroll());
    let next = state.after_event(event);
    assert(next == state.after_scroll(amount));
    let moved = AppView {
        scroll,
        anchor: if state.drag is None && !state.visual {
            None
        } else {
            state.anchor
        },
        ..state
    };
    assert(moved.is_target(other));
    app_laws::law_nearest_row(
        moved,
        scroll,
        moved.shown_end(),
        app::saturated(scroll + state.offset()),
    );
}

/// What came of copying is the status, and nothing else changes.
pub proof fn law_copying_is_reported(state: AppView, message: Seq<char>)
    ensures
        state.after_copy(message).status == message,
        state.after_copy(message) == (AppView { status: message, ..state }),
{
}

/// Letting a button go without a press before, and the other buttons of the mouse, do nothing.
pub proof fn law_other_buttons(state: AppView, mouse: MouseEvent)
    requires
        state.editor is None,
        mouse.kind == MouseEventKind::Down(MouseButton::Right) || mouse.kind
            == MouseEventKind::Down(MouseButton::Middle) || mouse.kind == MouseEventKind::Drag(
            MouseButton::Right,
        ) || mouse.kind == MouseEventKind::Drag(MouseButton::Middle) || mouse.kind
            == MouseEventKind::Up(MouseButton::Right) || mouse.kind == MouseEventKind::Up(
            MouseButton::Middle,
        ) || mouse.kind == MouseEventKind::Other || (mouse.kind == MouseEventKind::Up(
            MouseButton::Left,
        ) && state.drag is None),
    ensures
        state.after_event(Event::Mouse(mouse)) == state,
{
}

/// The program starts running, without a diff, a comment or a selection.
pub proof fn law_start(config: AppConfigView)
    ensures
        ({
            let start = app::app_start(config);
            &&& start.running
            &&& start.config == config
            &&& start.rows.len() == 0 && start.parsed.lines.len() == 0 && start.parsed.hunks.len() == 0
            &&& start.comments == Map::<Seq<char>, Seq<CommentView>>::empty()
            &&& start.selected is None && start.anchor is None && !start.visual
            &&& start.editor is None && start.error is None && start.last_text is None
            &&& start.scroll == 0 && start.counter == 0
        }),
{
}

/// What is said when an editor is opened on a comment, or cannot be opened.
pub proof fn law_opening_a_comment_is_said(state: AppView, key: KeyEvent, path: Seq<char>)
    requires
        state.editor is None,
        events::is_action(key),
        key.code == KeyCode::Enter,
    ensures
        ({
            let next = state.after_event(Event::Key(key));
            &&& state.comment_for_edit() matches Some(comment) ==> (comment.target_lines.len() > 0
                && comment.target_lines[0].file_path == Some(path) ==> {
                &&& comment.target_lines.len() == 1 ==> next.status == "Editing comment on "@ + path
                    + ": "@ + payload::target_text(comment.target_lines[0])
                &&& comment.target_lines.len() > 1 ==> next.status == "Editing comment on "@ + path
                    + ": "@ + payload::target_lines_text(comment.target_lines)
            })
            &&& state.comment_for_edit() is None && state.selection_lines().len() == 0
                ==> next.status == "No diff line selected."@ && next.editor is None
        }),
{
}

/// What is said when visual mode is switched and when a comment is given up.
pub proof fn law_what_is_said(state: AppView, key: KeyEvent)
    requires
        events::is_action(key),
    ensures
        ({
            let next = state.after_event(Event::Key(key));
            &&& state.editor is None && key.code == KeyCode::Char('V') && !state.visual
                && state.selected is Some ==> next.status
                == "Visual mode. Use j/k to extend, Enter to comment, Esc to cancel."@
            &&& state.editor is None && (key.code == KeyCode::Char('V') || key.code == KeyCode::Esc)
                && state.visual ==> next.status == "Visual mode cancelled."@
            &&& state.editor is Some && key.code == KeyCode::Esc && state.visual ==> next.status
                == "Comment cancelled. Still in visual mode."@
            &&& state.editor is Some && key.code == KeyCode::Esc && !state.visual ==> next.status
                == "Comment cancelled."@
            &&& state.editor matches Some(e) ==> submits(key) && text::trim(e.text()).len() == 0
                ==> next.status == "Empty comment cancelled."@
        }),
{
}

/// A row can be selected where it is a comment, or a line of the diff that can be.
pub proof fn law_what_can_be_selected(state: AppView, row: int)
    requires
        0 <= row < state.rows.len(),
    ensures
        state.rows[row] is Comment ==> state.is_target(row),
        state.rows[row] matches RowView::Diff(i) ==> (0 <= i < state.parsed.lines.len() ==> (
        state.is_target(row) <==> state.parsed.lines[i].selectable)),
{
}

/// A line among the rows is known by its own identity, and a comment by its number: comments with
/// different numbers have different identities.
pub proof fn law_identities_of_rows(state: AppView, i: int, a: CommentView, b: CommentView)
    requires
        0 <= i < state.parsed.lines.len(),
    ensures
        state.row_id(RowView::Diff(i)) == Some(state.parsed.lines[i].id()),
        state.row_id(RowView::Comment(a)) is Some,
        state.row_id(RowView::Comment(a)) == state.row_id(RowView::Comment(b)) <==> a.created_at
            == b.created_at,
{
    let (x, y) = (number::decimal(a.created_at as nat), number::decimal(b.created_at as nat));
    number::lemma_decimal(a.created_at as nat);
    number::lemma_decimal(b.created_at as nat);
    let head = "comment:"@;
    if head + x == head + y {
        assert(x =~= (head + x).skip(head.len() as int));
        assert(y =~= (head + y).skip(head.len() as int));
    }
}

/// Where no row is selected, the keys that step and extend act as from the first row that can be
/// selected.
pub proof fn law_steps_without_a_selection(state: AppView, key: KeyEvent, row: int, delta: int)
    requires
        state.inv(),
        state.editor is None,
        state.selected is None,
        state.is_target(row),
        is_first(state, row),
        events::is_action(key),
        steps_by(key, delta) || extends_by(key, delta),
    ensures
        state.after_event(Event::Key(key)) == (AppView { selected: Some(row), ..state }).after_event(
            Event::Key(key),
        ),
{
    let begun = AppView { selected: Some(row), ..state };
    let selectable = state.selectable_indices();
    let p = app_laws::lemma_position(state, row);
    if p > 0 {
        assert(selectable[0] < selectable[p]);
        app_laws::lemma_selectable(state, 0);
        assert(state.is_target(selectable[0]));
    }
    assert(p == 0);
    let f = |i: int| state.row_selectable(state.rows[i]);
    let g = |i: int| begun.row_selectable(begun.rows[i]);
    assert(f =~= g);
    assert(begun.selectable_indices() == selectable);
    assert(begun.stepped(Some(row), delta) == state.stepped(None, delta));
    assert(state.stepped(Some(row), delta) == begun.stepped(Some(row), delta));
    assert(begun.single() =~= AppView { selected: Some(row), ..state.single() });
}

} // verus!
