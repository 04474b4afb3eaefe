//! Moving the selection and scrolling.

use crate::app;
use crate::app::{App, AppView};
use vstd::prelude::*;

verus! {

/// Where `selected` stands among the rows that can be selected; at the first where it is none of
/// them.
pub open spec fn position_in(selectable: Seq<int>, selected: Option<int>) -> int {
    match selected {
        Some(selected) => match app::first_where(selectable, |row: int| row == selected) {
            Some(position) => position,
            None => 0,
        },
        None => 0,
    }
}

impl AppView {
    /// The row `delta` rows further among those that can be selected.
    pub open spec fn stepped(self, selected: Option<int>, delta: int) -> int {
        let selectable = self.selectable_indices();
        selectable[app::clamped(position_in(selectable, selected) + delta, 0, selectable.len() - 1)]
    }

    /// After the selection moves by `delta` rows.
    pub open spec fn after_move(self, delta: int) -> AppView {
        if self.selectable_indices().len() == 0 {
            AppView { selected: None, ..self.single() }
        } else {
            AppView { selected: Some(self.stepped(self.selected, delta)), ..self.single() }.visible()
        }
    }

    /// After a range of rows is begun at the selected row.
    pub open spec fn after_enter_visual(self) -> AppView {
        let selected = match self.selected {
            Some(selected) => Some(selected),
            None => self.first_selectable(),
        };
        match selected {
            Some(row) => AppView {
                selected,
                anchor: Some(row),
                drag: None,
                visual: true,
                status: "Visual mode. Use j/k to extend, Enter to comment, Esc to cancel."@,
                ..self
            },
            None => AppView { status: "No selectable diff line."@, ..self },
        }
    }

    /// After the range of rows is given up.
    pub open spec fn after_exit_visual(self) -> AppView {
        AppView { status: "Visual mode cancelled."@, ..self.single() }
    }

    /// After the range of rows is extended by `delta` rows.
    pub open spec fn after_extend(self, delta: int) -> AppView {
        if self.selectable_indices().len() == 0 {
            AppView { selected: None, anchor: None, visual: false, ..self }
        } else {
            let selected = match self.selected {
                Some(selected) => selected,
                None => self.selectable_indices()[0],
            };
            AppView {
                selected: Some(self.stepped(Some(selected), delta)),
                anchor: Some(self.other_end(selected)),
                visual: true,
                ..self
            }.visible()
        }
    }

    /// After a jump to the first or the last row that can be selected.
    pub open spec fn after_edge(self, first: bool) -> AppView {
        let selectable = self.selectable_indices();
        if selectable.len() == 0 {
            self.single()
        } else {
            AppView {
                selected: Some(
                    if first {
                        selectable[0]
                    } else {
                        selectable.last()
                    },
                ),
                ..self.single()
            }.visible()
        }
    }

    /// Among the rows from `start` up to `end` the one that can be selected and is nearest to
    /// `target`; the first of two.
    pub open spec fn nearest(self, start: int, end: int, target: int) -> Option<int>
        decreases end - start,
    {
        if end <= start {
            None
        } else {
            let before = self.nearest(start, end - 1, target);
            let row = end - 1;
            if !self.row_selectable(self.rows[row]) {
                before
            } else {
                match before {
                    Some(other) => if app::distance(row, target) < app::distance(other, target) {
                        Some(row)
                    } else {
                        Some(other)
                    },
                    None => Some(row),
                }
            }
        }
    }

    /// The row behind the last that is shown.
    pub open spec fn shown_end(self) -> int {
        app::clamped(app::saturated(self.scroll + self.height()), 0, self.rows.len() as int)
    }

    /// With the row selected, of those that are shown, that is nearest to `target`.
    pub open spec fn near(self, target: int) -> AppView {
        AppView { selected: self.nearest(self.scroll, self.shown_end(), target), ..self }
    }

    /// How far below the first row that is shown the selected row is; the middle where it is not
    /// shown.
    pub open spec fn offset(self) -> int {
        match self.selected {
            Some(selected) => if self.scroll <= selected < app::saturated(self.scroll + self.height()) {
                selected - self.scroll
            } else {
                self.height() / 2
            },
            None => self.height() / 2,
        }
    }

    /// After scrolling by `amount` rows. Where that moves the rows, the selection stays at its
    /// place on the screen.
    pub open spec fn after_scroll(self, amount: int) -> AppView {
        if self.rows.len() == 0 {
            AppView { scroll: 0, selected: None, ..self.single() }
        } else {
            let kept = AppView {
                anchor: if self.drag is None && !self.visual {
                    None
                } else {
                    self.anchor
                },
                ..self
            };
            let scroll = app::clamped(self.scroll + amount, 0, self.max_scroll());
            if scroll == self.scroll {
                kept
            } else {
                AppView { scroll, ..kept }.near(app::saturated(scroll + self.offset()))
            }
        }
    }

    /// The row that is shown at a row of the terminal.
    pub open spec fn row_at(self, terminal_row: u16) -> Option<int> {
        let bottom = self.body.y + self.body.height;
        let row = self.scroll + (terminal_row - self.body.y);
        if terminal_row < self.body.y || terminal_row >= bottom || terminal_row == u16::MAX || row
            >= self.rows.len() {
            None
        } else {
            Some(row)
        }
    }

    /// The row at a row of the terminal, if it can be selected.
    pub open spec fn target_at(self, terminal_row: u16) -> Option<int> {
        match self.row_at(terminal_row) {
            Some(row) => if self.row_selectable(self.rows[row]) {
                Some(row)
            } else {
                None
            },
            None => None,
        }
    }
}

/// Moves a position by `delta`, but not below zero nor above `max`.
fn shifted(position: usize, delta: isize, max: usize) -> (result: usize)
    ensures
        result == app::clamped(position + delta, 0, max as int),
{
    if delta >= 0 {
        let steps = delta as usize;
        if position >= max || max - position <= steps {
            max
        } else {
            position + steps
        }
    } else {
        let steps = (-(delta + 1)) as usize + 1;
        if position <= steps {
            0
        } else if position - steps <= max {
            position - steps
        } else {
            max
        }
    }
}

/// How far apart two positions are.
fn apart(a: usize, b: usize) -> (result: usize)
    ensures
        result == app::distance(a as int, b as int),
{
    if a <= b {
        b - a
    } else {
        a - b
    }
}

/// Where a row stands among those that can be selected; at the first where it is none of them.
fn find_position(selectable: &[usize], selected: usize) -> (position: usize)
    ensures
        position == position_in(app::ints(selectable@), Some(selected as int)),
        position <= selectable@.len(),
        selectable@.len() > 0 ==> position < selectable@.len(),
{
    let ghost all = app::ints(selectable@);
    let ghost pred = |row: int| row == selected as int;
    let mut i: usize = 0;
    while i < selectable.len()
        invariant
            i <= selectable@.len(),
            all == app::ints(selectable@),
            pred == |row: int| row == selected as int,
            forall|j: int| 0 <= j < i ==> !pred(#[trigger] all[j]),
        decreases selectable@.len() - i,
    {
        assert(all[i as int] == selectable@[i as int]);
        if selectable[i] == selected {
            proof {
                app::lemma_first_where_is(all, pred, i as int);
            }
            return i;
        }
        i += 1;
    }
    proof {
        app::lemma_first_where(all, pred);
    }
    0
}

impl App {
    /// The row `delta` rows further among those that can be selected.
    fn stepped(&self, selectable: &[usize], selected: Option<usize>, delta: isize) -> (row: usize)
        requires
            selectable@.len() > 0,
            app::ints(selectable@) == self@.selectable_indices(),
        ensures
            row == self@.stepped(app::opt_int(selected), delta as int),
    {
        let position = match selected {
            Some(selected) => find_position(selectable, selected),
            None => 0,
        };
        let next = shifted(position, delta, selectable.len() - 1);
        assert(app::ints(selectable@)[next as int] == selectable@[next as int]);
        selectable[next]
    }

    /// Gives up a range of rows.
    fn clear_range(&mut self)
        ensures
            final(self)@ == old(self)@.single(),
    {
        self.selection_anchor = None;
        self.mouse_drag_anchor = None;
        self.visual_mode = false;
        assert(self@ =~= old(self)@.single());
    }

    /// Moves the selection by `delta` rows.
    pub fn move_selection(&mut self, delta: isize)
        ensures
            final(self)@ == old(self)@.after_move(delta as int),
    {
        let ghost before = self@;
        let selectable = self.selectable_indices();
        assert(app::ints(selectable@).len() == selectable@.len());
        if selectable.len() == 0 {
            self.clear_range();
            self.selected_row = None;
            assert(self@ =~= before.after_move(delta as int));
            return;
        }
        let next = self.stepped(selectable.as_slice(), self.selected_row, delta);
        self.clear_range();
        self.selected_row = Some(next);
        assert(self@ =~= AppView { selected: Some(next as int), ..before.single() });
        self.ensure_selection_visible();
    }

    /// Begins a range of rows at the selected row.
    pub fn enter_visual_mode(&mut self)
        ensures
            final(self)@ == old(self)@.after_enter_visual(),
    {
        if self.selected_row.is_none() {
            self.selected_row = self.first_selectable();
        }
        match self.selected_row {
            Some(selected) => {
                self.selection_anchor = Some(selected);
                self.mouse_drag_anchor = None;
                self.visual_mode = true;
                self.status =
                "Visual mode. Use j/k to extend, Enter to comment, Esc to cancel.".to_string();
            },
            None => {
                self.status = "No selectable diff line.".to_string();
            },
        }
        assert(self@ =~= old(self)@.after_enter_visual());
    }

    /// Gives up the range of rows.
    pub fn exit_visual_mode(&mut self)
        ensures
            final(self)@ == old(self)@.after_exit_visual(),
    {
        self.clear_range();
        self.status = "Visual mode cancelled.".to_string();
        assert(self@ =~= old(self)@.after_exit_visual());
    }

    /// Extends the range of rows by `delta` rows.
    pub fn extend_selection(&mut self, delta: isize)
        ensures
            final(self)@ == old(self)@.after_extend(delta as int),
    {
        let ghost before = self@;
        let selectable = self.selectable_indices();
        assert(app::ints(selectable@).len() == selectable@.len());
        if selectable.len() == 0 {
            self.selected_row = None;
            self.selection_anchor = None;
            self.visual_mode = false;
            assert(self@ =~= before.after_extend(delta as int));
            return;
        }
        assert(app::ints(selectable@)[0] == selectable@[0]);
        let selected = match self.selected_row {
            Some(selected) => selected,
            None => selectable[0],
        };
        let next = self.stepped(selectable.as_slice(), Some(selected), delta);
        if self.selection_anchor.is_none() {
            self.selection_anchor = Some(selected);
        }
        self.visual_mode = true;
        self.selected_row = Some(next);
        assert(self@ =~= AppView {
            selected: Some(next as int),
            anchor: Some(before.other_end(selected as int)),
            visual: true,
            ..before
        });
        self.ensure_selection_visible();
    }

    /// Selects the first or the last row that can be selected.
    pub fn select_edge(&mut self, first: bool)
        ensures
            final(self)@ == old(self)@.after_edge(first),
    {
        let ghost before = self@;
        let selectable = self.selectable_indices();
        assert(app::ints(selectable@).len() == selectable@.len());
        self.clear_range();
        if selectable.len() == 0 {
            return;
        }
        let row = if first {
            selectable[0]
        } else {
            selectable[selectable.len() - 1]
        };
        assert(app::ints(selectable@)[0] == selectable@[0]);
        assert(app::ints(selectable@).last() == selectable@.last());
        self.selected_row = Some(row);
        assert(self@ =~= AppView { selected: Some(row as int), ..before.single() });
        self.ensure_selection_visible();
    }

    /// Selects, of the rows that are shown, the one that is nearest to `target_row`.
    pub fn select_visible_near(&mut self, target_row: usize)
        ensures
            final(self)@ == old(self)@.near(target_row as int),
    {
        let start = self.scroll;
        let bottom = start.saturating_add(self.height());
        let end = if bottom < self.rows.len() {
            bottom
        } else {
            self.rows.len()
        };
        let mut found: Option<usize> = None;
        let mut i: usize = start;
        while i < end
            invariant
                *self == *old(self),
                start <= i,
                start <= end ==> i <= end,
                start > end ==> i == start,
                end <= self.rows@.len(),
                app::opt_int(found) == self@.nearest(start as int, i as int, target_row as int),
            decreases end - i,
        {
            assert(self@.rows[i as int] == self.rows@[i as int]@);
            if self.row_selectable(&self.rows[i]) {
                found = match found {
                    Some(other) => {
                        if apart(i, target_row) < apart(other, target_row) {
                            Some(i)
                        } else {
                            Some(other)
                        }
                    },
                    None => Some(i),
                };
            }
            i += 1;
        }
        self.selected_row = found;
        assert(self@ =~= old(self)@.near(target_row as int));
    }

    /// Scrolls by `amount` rows.
    pub fn scroll_by(&mut self, amount: isize)
        ensures
            final(self)@ == old(self)@.after_scroll(amount as int),
    {
        let ghost before = self@;
        if self.rows.len() == 0 {
            self.clear_range();
            self.scroll = 0;
            self.selected_row = None;
            assert(self@ =~= before.after_scroll(amount as int));
            return;
        }
        let height = self.height();
        let previous_scroll = self.scroll;
        let offset = match self.selected_row {
            Some(selected) => {
                if selected >= previous_scroll && selected < previous_scroll.saturating_add(height) {
                    selected - previous_scroll
                } else {
                    height / 2
                }
            },
            None => height / 2,
        };
        assert(offset == before.offset());
        let scroll = shifted(self.scroll, amount, self.max_scroll());
        if self.mouse_drag_anchor.is_none() && !self.visual_mode {
            self.selection_anchor = None;
        }
        if scroll != previous_scroll {
            self.scroll = scroll;
            self.select_visible_near(scroll.saturating_add(offset));
            assert(self@ =~= before.after_scroll(amount as int));
        } else {
            assert(self@ =~= before.after_scroll(amount as int));
        }
    }

    /// The row that is shown at a row of the terminal.
    pub fn row_at(&self, terminal_row: u16) -> (row: Option<usize>)
        ensures
            app::opt_int(row) == self@.row_at(terminal_row),
            row matches Some(row) ==> row < self.rows@.len(),
    {
        let body = self.last_body;
        if terminal_row < body.y || terminal_row >= body.y.saturating_add(body.height) {
            return None;
        }
        let offset = (terminal_row - body.y) as usize;
        let count = self.rows.len();
        if offset < count && self.scroll < count - offset {
            Some(self.scroll + offset)
        } else {
            None
        }
    }

    /// The row at a row of the terminal, if it can be selected.
    pub(crate) fn target_at(&self, terminal_row: u16) -> (row: Option<usize>)
        ensures
            app::opt_int(row) == self@.target_at(terminal_row),
    {
        match self.row_at(terminal_row) {
            Some(row) => {
                assert(self@.rows[row as int] == self.rows@[row as int]@);
                if self.row_selectable(&self.rows[row]) {
                    Some(row)
                } else {
                    None
                }
            },
            None => None,
        }
    }
}

} // verus!
