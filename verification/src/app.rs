//! The state of the program: the diff with its comments, and the selection.

use crate::comments;
use crate::comments::{CommentStore, CommentView, InlineComment};
use crate::diff_parser;
use crate::diff_parser::{DiffLine, DiffLineView, ParsedDiff, ParsedDiffView};
use crate::editor::{EditorView, TextEditor};
use crate::git_diff::{DiffOptions, DiffOptionsView, GitDiffResult, GitDiffView};
use crate::number;
use crate::payload;
use crate::text;
use std::time::Duration;
use vstd::prelude::*;

verus! {

/// The settings of the program.
#[derive(Debug)]
pub struct AppConfig {
    pub diff: DiffOptions,
    pub refresh_interval: Duration,
    pub max_copy_lines: usize,
    pub allow_osc52: bool,
}

/// The model of an `AppConfig`.
#[verifier::ext_equal]
pub struct AppConfigView {
    pub diff: DiffOptionsView,
    pub refresh_interval: Duration,
    pub max_copy_lines: usize,
    pub allow_osc52: bool,
}

impl View for AppConfig {
    type V = AppConfigView;

    open spec fn view(&self) -> AppConfigView {
        AppConfigView {
            diff: self.diff@,
            refresh_interval: self.refresh_interval,
            max_copy_lines: self.max_copy_lines,
            allow_osc52: self.allow_osc52,
        }
    }
}

impl Clone for AppConfig {
    fn clone(&self) -> (copy: Self)
        ensures
            copy@ == self@,
    {
        AppConfig {
            diff: self.diff.clone(),
            refresh_interval: self.refresh_interval,
            max_copy_lines: self.max_copy_lines,
            allow_osc52: self.allow_osc52,
        }
    }
}

/// A row of the list: a line of the diff by its index, or a comment.
#[derive(Debug, PartialEq, Eq)]
pub enum RenderRow {
    Diff(usize),
    Comment(InlineComment),
}

/// The model of a `RenderRow`.
#[verifier::ext_equal]
pub enum RowView {
    Diff(int),
    Comment(CommentView),
}

impl View for RenderRow {
    type V = RowView;

    open spec fn view(&self) -> RowView {
        match self {
            RenderRow::Diff(index) => RowView::Diff(*index as int),
            RenderRow::Comment(comment) => RowView::Comment(comment@),
        }
    }
}

/// The models of a sequence of rows.
pub open spec fn row_views(rows: Seq<RenderRow>) -> Seq<RowView> {
    rows.map_values(|row: RenderRow| row@)
}

/// A part of the terminal.
#[derive(Clone, Copy, Debug, PartialEq, Eq, Structural)]
pub struct Area {
    pub x: u16,
    pub y: u16,
    pub width: u16,
    pub height: u16,
}

/// The state of the program.
pub struct App {
    pub config: AppConfig,
    pub parsed: ParsedDiff,
    pub rows: Vec<RenderRow>,
    pub comments: CommentStore,
    pub selected_row: Option<usize>,
    pub selection_anchor: Option<usize>,
    pub mouse_drag_anchor: Option<usize>,
    pub visual_mode: bool,
    pub scroll: usize,
    pub status: String,
    pub error: Option<String>,
    pub last_diff_text: Option<String>,
    pub editor: Option<TextEditor>,
    pub running: bool,
    pub last_body: Area,
    pub comment_counter: u64,
}

/// The model of an `App`.
#[verifier::ext_equal]
pub struct AppView {
    pub config: AppConfigView,
    pub parsed: ParsedDiffView,
    pub rows: Seq<RowView>,
    pub comments: Map<Seq<char>, Seq<CommentView>>,
    pub selected: Option<int>,
    pub anchor: Option<int>,
    pub drag: Option<int>,
    pub visual: bool,
    pub scroll: int,
    pub status: Seq<char>,
    pub error: Option<Seq<char>>,
    pub last_text: Option<Seq<char>>,
    pub editor: Option<EditorView>,
    pub running: bool,
    pub body: Area,
    pub counter: u64,
}

/// The number in an option.
pub open spec fn opt_int(n: Option<usize>) -> Option<int> {
    match n {
        Some(n) => Some(n as int),
        None => None,
    }
}

/// The model of an optional editor.
pub open spec fn opt_editor(editor: Option<TextEditor>) -> Option<EditorView> {
    match editor {
        Some(editor) => Some(editor@),
        None => None,
    }
}

impl View for App {
    type V = AppView;

    open spec fn view(&self) -> AppView {
        AppView {
            config: self.config@,
            parsed: self.parsed@,
            rows: row_views(self.rows@),
            comments: self.comments@,
            selected: opt_int(self.selected_row),
            anchor: opt_int(self.selection_anchor),
            drag: opt_int(self.mouse_drag_anchor),
            visual: self.visual_mode,
            scroll: self.scroll as int,
            status: self.status@,
            error: diff_parser::opt_text(self.error),
            last_text: diff_parser::opt_text(self.last_diff_text),
            editor: opt_editor(self.editor),
            running: self.running,
            body: self.last_body,
            counter: self.comment_counter,
        }
    }
}

/// `n`, or the nearest number from `low` to `high`.
pub open spec fn clamped(n: int, low: int, high: int) -> int {
    if n < low {
        low
    } else if n > high {
        high
    } else {
        n
    }
}

/// `n`, or the largest position where `n` is larger.
pub open spec fn saturated(n: int) -> int {
    if n > usize::MAX {
        usize::MAX as int
    } else {
        n
    }
}

/// How far apart two positions are.
pub open spec fn distance(a: int, b: int) -> int {
    if a <= b {
        b - a
    } else {
        a - b
    }
}

/// The first position whose element satisfies `pred`.
pub open spec fn first_where<A>(s: Seq<A>, pred: spec_fn(A) -> bool) -> Option<int>
    decreases s.len(),
{
    if s.len() == 0 {
        None
    } else {
        match first_where(s.drop_last(), pred) {
            Some(i) => Some(i),
            None => if pred(s.last()) {
                Some(s.len() - 1)
            } else {
                None
            },
        }
    }
}

/// What `first_where` gives satisfies `pred`, and nothing before it does.
pub proof fn lemma_first_where<A>(s: Seq<A>, pred: spec_fn(A) -> bool)
    ensures
        match first_where(s, pred) {
            Some(i) => 0 <= i < s.len() && pred(s[i]) && forall|j: int|
                0 <= j < i ==> !pred(#[trigger] s[j]),
            None => forall|j: int| 0 <= j < s.len() ==> !pred(#[trigger] s[j]),
        },
    decreases s.len(),
{
    if s.len() > 0 {
        lemma_first_where(s.drop_last(), pred);
        match first_where(s.drop_last(), pred) {
            Some(i) => {
                assert forall|j: int| 0 <= j < i implies !pred(#[trigger] s[j]) by {
                    assert(!pred(s.drop_last()[j]));
                }
            },
            None => {
                assert forall|j: int| 0 <= j < s.len() - 1 implies !pred(#[trigger] s[j]) by {
                    assert(!pred(s.drop_last()[j]));
                }
            },
        }
    }
}

/// A first position that satisfies `pred` is the one that `first_where` gives.
pub proof fn lemma_first_where_is<A>(s: Seq<A>, pred: spec_fn(A) -> bool, i: int)
    requires
        0 <= i < s.len(),
        pred(s[i]),
        forall|j: int| 0 <= j < i ==> !pred(#[trigger] s[j]),
    ensures
        first_where(s, pred) == Some(i),
{
    lemma_first_where(s, pred);
}

/// The rows of comments.
pub open spec fn comment_rows(comments: Seq<CommentView>) -> Seq<RowView> {
    comments.map_values(|comment: CommentView| RowView::Comment(comment))
}

/// The rows of a diff: each line, and behind it the comments that are kept under its identity.
pub open spec fn rows_of(
    lines: Seq<DiffLineView>,
    store: Map<Seq<char>, Seq<CommentView>>,
) -> Seq<RowView>
    decreases lines.len(),
{
    if lines.len() == 0 {
        seq![]
    } else {
        rows_of(lines.drop_last(), store).push(RowView::Diff(lines.len() - 1)) + comment_rows(
            comments::comments_under(store, lines.last().id()),
        )
    }
}

/// What is said of the selected lines.
pub open spec fn selection_text(lines: Seq<DiffLineView>) -> Seq<char> {
    if lines.len() == 0 {
        "no lines"@
    } else if lines.len() == 1 {
        payload::target_text(lines[0])
    } else {
        payload::target_lines_text(lines)
    }
}

/// Says what lines are selected.
pub fn describe_selection(lines: &[DiffLine]) -> (description: String)
    ensures
        description@ == selection_text(diff_parser::line_views(lines@)),
{
    if lines.len() == 0 {
        "no lines".to_string()
    } else if lines.len() == 1 {
        payload::describe_target(&lines[0])
    } else {
        payload::describe_target_lines(lines)
    }
}

impl AppView {
    /// Whether a row can be selected: a line that can, or a comment.
    pub open spec fn row_selectable(self, row: RowView) -> bool {
        match row {
            RowView::Diff(index) => 0 <= index < self.parsed.lines.len()
                && self.parsed.lines[index].selectable,
            RowView::Comment(_) => true,
        }
    }

    /// The rows that can be selected.
    pub open spec fn selectable_indices(self) -> Seq<int> {
        Seq::new(self.rows.len(), |i: int| i).filter(|i: int| self.row_selectable(self.rows[i]))
    }

    /// The first row that can be selected.
    pub open spec fn first_selectable(self) -> Option<int> {
        if self.selectable_indices().len() == 0 {
            None
        } else {
            Some(self.selectable_indices()[0])
        }
    }

    /// The identity of a row across readings of the diff.
    pub open spec fn row_id(self, row: RowView) -> Option<Seq<char>> {
        match row {
            RowView::Diff(index) => if 0 <= index < self.parsed.lines.len() {
                Some(self.parsed.lines[index].id())
            } else {
                None
            },
            RowView::Comment(comment) => Some(
                "comment:"@ + number::decimal(comment.created_at as nat),
            ),
        }
    }

    /// The first row with the given identity.
    pub open spec fn row_with_id(self, id: Seq<char>) -> Option<int> {
        first_where(self.rows, |row: RowView| self.row_id(row) == Some(id))
    }

    /// The line of a row, if the row is a line that can be selected.
    pub open spec fn target_of(self, row: RowView) -> Option<DiffLineView> {
        match row {
            RowView::Diff(index) => if self.row_selectable(row) {
                Some(self.parsed.lines[index])
            } else {
                None
            },
            RowView::Comment(_) => None,
        }
    }

    /// The row where the selection begins that ends at `selected`.
    pub open spec fn other_end(self, selected: int) -> int {
        match self.anchor {
            Some(anchor) => anchor,
            None => selected,
        }
    }

    /// The rows from one end of the selection to the other.
    pub open spec fn selected_rows(self) -> Seq<RowView> {
        match self.selected {
            None => seq![],
            Some(selected) => {
                let other = self.other_end(selected);
                let first = if other <= selected {
                    other
                } else {
                    selected
                };
                let last = if other <= selected {
                    selected
                } else {
                    other
                };
                self.rows.subrange(
                    clamped(first, 0, self.rows.len() as int),
                    clamped(last + 1, 0, self.rows.len() as int),
                )
            },
        }
    }

    /// The selected lines. Comments between them are left out.
    pub open spec fn selection_lines(self) -> Seq<DiffLineView> {
        self.selected_rows().filter_map(|row: RowView| self.target_of(row))
    }

    /// Whether a row is shown as selected.
    pub open spec fn is_selected(self, row: int) -> bool {
        match self.selected {
            None => false,
            Some(selected) => {
                let other = self.other_end(selected);
                &&& 0 <= row < self.rows.len()
                &&& self.row_selectable(self.rows[row])
                &&& if self.visual {
                    (selected <= row <= other) || (other <= row <= selected)
                } else {
                    row == selected
                }
            },
        }
    }

    /// The comment that is selected, where one and nothing else is.
    pub open spec fn comment_for_edit(self) -> Option<CommentView> {
        match self.selected {
            Some(selected) => if self.visual || self.other_end(selected) != selected || !(0
                <= selected < self.rows.len()) {
                None
            } else {
                match self.rows[selected] {
                    RowView::Comment(comment) => Some(comment),
                    RowView::Diff(_) => None,
                }
            },
            None => None,
        }
    }

    /// How many rows are shown, or one where there is no place.
    pub open spec fn height(self) -> int {
        if self.body.height == 0 {
            1
        } else {
            self.body.height as int
        }
    }

    /// The first row at the largest scroll.
    pub open spec fn max_scroll(self) -> int {
        clamped(self.rows.len() - self.height(), 0, self.rows.len() as int)
    }

    /// Scrolled so that the selected row is shown.
    pub open spec fn visible(self) -> AppView {
        match self.selected {
            None => self,
            Some(selected) => {
                let scroll = if selected < self.scroll {
                    selected
                } else if selected >= self.scroll + self.height() {
                    selected - self.height() + 1
                } else {
                    self.scroll
                };
                AppView { scroll: clamped(scroll, 0, self.max_scroll()), ..self }
            },
        }
    }

    /// Without a range of selected rows.
    pub open spec fn single(self) -> AppView {
        AppView { anchor: None, drag: None, visual: false, ..self }
    }

    /// With the rows of the diff and the comments.
    pub open spec fn rebuilt(self) -> AppView {
        AppView { rows: rows_of(self.parsed.lines, self.comments), ..self }
    }

    /// With the row selected that has the identity `target`, or else the first that can be.
    pub open spec fn restored(self, target: Option<Seq<char>>) -> AppView {
        let same = match target {
            Some(id) => first_where(
                self.rows,
                |row: RowView| self.row_selectable(row) && self.row_id(row) == Some(id),
            ),
            None => None,
        };
        AppView {
            selected: match same {
                Some(row) => Some(row),
                None => self.first_selectable(),
            },
            ..self.single()
        }.visible()
    }

    /// The identity of the selected row.
    pub open spec fn selected_id(self) -> Option<Seq<char>> {
        match self.selected {
            Some(selected) => if 0 <= selected < self.rows.len() {
                self.row_id(self.rows[selected])
            } else {
                None
            },
            None => None,
        }
    }

    /// What is said after a reading of the diff.
    pub open spec fn loaded_status(self, result: GitDiffView) -> Seq<char> {
        match result.error {
            Some(error) => error,
            None => if text::trim(result.text).len() == 0 {
                "No uncommitted tracked diff. Waiting for changes..."@
            } else {
                "Loaded "@ + number::decimal(self.parsed.hunks.len()) + " hunks, "@
                    + number::decimal(
                    diff_parser::selectable_lines(self.parsed.lines).len(),
                ) + " selectable lines."@
            },
        }
    }

    /// After a reading of the diff. One that gives what is there changes nothing, unless it is
    /// forced.
    pub open spec fn after_refresh(self, force: bool, result: GitDiffView) -> AppView {
        if !force && self.last_text == Some(result.text) && self.error == result.error {
            self
        } else {
            let next = AppView {
                error: result.error,
                last_text: Some(result.text),
                parsed: diff_parser::parsed_diff(result.text),
                ..self
            }.rebuilt().restored(self.selected_id());
            AppView { status: next.loaded_status(result), ..next }
        }
    }
}

/// The models of a sequence of positions.
pub open spec fn ints(values: Seq<usize>) -> Seq<int> {
    values.map_values(|value: usize| value as int)
}

/// The state of the program before the first reading of the diff.
pub open spec fn app_start(config: AppConfigView) -> AppView {
    AppView {
        config,
        parsed: ParsedDiffView { lines: seq![], hunks: seq![] },
        rows: seq![],
        comments: Map::empty(),
        selected: None,
        anchor: None,
        drag: None,
        visual: false,
        scroll: 0,
        status: "Loading diff..."@,
        error: None,
        last_text: None,
        editor: None,
        running: true,
        body: Area { x: 0, y: 0, width: 0, height: 0 },
        counter: 0,
    }
}

/// Whether two optional strings are the same.
fn same_opt(a: &Option<String>, b: &Option<String>) -> (result: bool)
    ensures
        result == (diff_parser::opt_text(*a) == diff_parser::opt_text(*b)),
{
    match (a, b) {
        (Some(a), Some(b)) => *a == *b,
        (None, None) => true,
        _ => false,
    }
}

impl App {
    /// Starts the program.
    pub fn new(config: AppConfig) -> (app: App)
        ensures
            app@ == app_start(config@),
    {
        let app = App {
            config,
            parsed: ParsedDiff { lines: Vec::new(), hunks: Vec::new() },
            rows: Vec::new(),
            comments: CommentStore::new(),
            selected_row: None,
            selection_anchor: None,
            mouse_drag_anchor: None,
            visual_mode: false,
            scroll: 0,
            status: "Loading diff...".to_string(),
            error: None,
            last_diff_text: None,
            editor: None,
            running: true,
            last_body: Area { x: 0, y: 0, width: 0, height: 0 },
            comment_counter: 0,
        };
        assert(app@ =~= app_start(config@));
        app
    }

    /// Whether a row can be selected.
    pub fn row_selectable(&self, row: &RenderRow) -> (result: bool)
        ensures
            result == self@.row_selectable(row@),
    {
        match row {
            RenderRow::Diff(index) => *index < self.parsed.lines.len()
                && self.parsed.lines[*index].selectable,
            RenderRow::Comment(_) => true,
        }
    }

    /// Lists the rows that can be selected.
    pub fn selectable_indices(&self) -> (indices: Vec<usize>)
        ensures
            ints(indices@) == self@.selectable_indices(),
    {
        let ghost all = Seq::new(self@.rows.len(), |i: int| i);
        let ghost pred = |i: int| self@.row_selectable(self@.rows[i]);
        let mut indices: Vec<usize> = Vec::new();
        let mut i: usize = 0;
        assert(all.take(0).filter(pred) =~= ints(indices@)) by {
            reveal(Seq::filter);
        }
        while i < self.rows.len()
            invariant
                i <= self.rows@.len(),
                all == Seq::new(self@.rows.len(), |i: int| i),
                pred == |i: int| self@.row_selectable(self@.rows[i]),
                ints(indices@) == all.take(i as int).filter(pred),
            decreases self.rows@.len() - i,
        {
            assert(all.take(i + 1).drop_last() =~= all.take(i as int));
            assert(all.take(i + 1).last() == i);
            assert(self@.rows[i as int] == self.rows@[i as int]@);
            reveal(Seq::filter);
            if self.row_selectable(&self.rows[i]) {
                let ghost before = indices@;
                indices.push(i);
                assert(ints(indices@) =~= ints(before).push(i as int));
            }
            i += 1;
        }
        assert(all.take(self.rows@.len() as int) =~= all);
        indices
    }

    /// The first row that can be selected.
    pub(crate) fn first_selectable(&self) -> (row: Option<usize>)
        ensures
            opt_int(row) == self@.first_selectable(),
    {
        let selectable = self.selectable_indices();
        assert(ints(selectable@).len() == selectable@.len());
        if selectable.len() == 0 {
            None
        } else {
            assert(ints(selectable@)[0] == selectable@[0]);
            Some(selectable[0])
        }
    }

    /// The identity of a row across readings of the diff.
    pub fn row_stable_id(&self, row: &RenderRow) -> (id: Option<String>)
        ensures
            diff_parser::opt_text(id) == self@.row_id(row@),
    {
        match row {
            RenderRow::Diff(index) => {
                if *index < self.parsed.lines.len() {
                    Some(self.parsed.lines[*index].stable_id())
                } else {
                    None
                }
            },
            RenderRow::Comment(comment) => {
                let mut id = "comment:".to_string();
                id.push_str(number::decimal_string(comment.created_at).as_str());
                Some(id)
            },
        }
    }

    /// Whether a row has the given identity.
    fn row_has_id(&self, row: &RenderRow, id: &String) -> (result: bool)
        ensures
            result == (self@.row_id(row@) == Some(id@)),
    {
        match self.row_stable_id(row) {
            Some(row_id) => row_id == *id,
            None => false,
        }
    }

    /// Finds the first row with the given identity.
    pub fn row_index_for_stable_id(&self, stable_id: &str) -> (row: Option<usize>)
        ensures
            opt_int(row) == self@.row_with_id(stable_id@),
    {
        let id = stable_id.to_string();
        let ghost pred = |row: RowView| self@.row_id(row) == Some(stable_id@);
        let mut i: usize = 0;
        while i < self.rows.len()
            invariant
                i <= self.rows@.len(),
                id@ == stable_id@,
                pred == |row: RowView| self@.row_id(row) == Some(stable_id@),
                forall|j: int| 0 <= j < i ==> !pred(#[trigger] self@.rows[j]),
            decreases self.rows@.len() - i,
        {
            assert(self@.rows[i as int] == self.rows@[i as int]@);
            if self.row_has_id(&self.rows[i], &id) {
                proof {
                    lemma_first_where_is(self@.rows, pred, i as int);
                }
                return Some(i);
            }
            i += 1;
        }
        proof {
            lemma_first_where(self@.rows, pred);
        }
        None
    }

    /// The selected lines. Comments between them are left out.
    pub fn current_selection_lines(&self) -> (lines: Vec<DiffLine>)
        ensures
            diff_parser::line_views(lines@) == self@.selection_lines(),
    {
        let mut lines: Vec<DiffLine> = Vec::new();
        let ghost f = |row: RowView| self@.target_of(row);
        let selected = match self.selected_row {
            Some(selected) => selected,
            None => {
                assert(self@.selected_rows().filter_map(f) =~= seq![]) by {
                    reveal(Seq::filter_map);
                }
                assert(diff_parser::line_views(lines@) =~= seq![]);
                return lines;
            },
        };
        let anchor = match self.selection_anchor {
            Some(anchor) => anchor,
            None => selected,
        };
        let (first, last) = payload::normalized_range(anchor, selected);
        let len = self.rows.len();
        let start = if first < len {
            first
        } else {
            len
        };
        let end = if last < len {
            last + 1
        } else {
            len
        };
        let ghost all = self@.selected_rows();
        let mut i: usize = start;
        assert(all =~= self@.rows.subrange(start as int, end as int));
        assert(all.take(0).filter_map(f) =~= diff_parser::line_views(lines@)) by {
            reveal(Seq::filter_map);
        }
        while i < end
            invariant
                start <= i <= end <= self.rows@.len(),
                all == self@.rows.subrange(start as int, end as int),
                f == |row: RowView| self@.target_of(row),
                diff_parser::line_views(lines@) == all.take(i - start).filter_map(f),
            decreases end - i,
        {
            assert(all.take(i - start + 1).drop_last() =~= all.take(i - start));
            assert(all.take(i - start + 1).last() == self.rows@[i as int]@);
            reveal(Seq::filter_map);
            if let RenderRow::Diff(index) = &self.rows[i] {
                if *index < self.parsed.lines.len() && self.parsed.lines[*index].selectable {
                    let ghost before = lines@;
                    lines.push(self.parsed.lines[*index].clone());
                    assert(diff_parser::line_views(lines@) =~= diff_parser::line_views(
                        before,
                    ).push(self.parsed.lines@[*index as int]@));
                }
            }
            i += 1;
        }
        assert(all.take(end - start) =~= all);
        lines
    }

    /// Whether a row is shown as selected.
    pub fn is_row_selected(&self, row_index: usize) -> (result: bool)
        ensures
            result == self@.is_selected(row_index as int),
    {
        let selected = match self.selected_row {
            Some(selected) => selected,
            None => return false,
        };
        if row_index >= self.rows.len() {
            return false;
        }
        assert(self@.rows[row_index as int] == self.rows@[row_index as int]@);
        if !self.row_selectable(&self.rows[row_index]) {
            return false;
        }
        if !self.visual_mode {
            return row_index == selected;
        }
        let anchor = match self.selection_anchor {
            Some(anchor) => anchor,
            None => selected,
        };
        let (first, last) = payload::normalized_range(anchor, selected);
        row_index >= first && row_index <= last
    }

    /// The comment that is selected, where one and nothing else is.
    pub fn selected_comment_for_edit(&self) -> (comment: Option<&InlineComment>)
        ensures
            match comment {
                Some(comment) => self@.comment_for_edit() == Some(comment@),
                None => self@.comment_for_edit() is None,
            },
    {
        if self.visual_mode {
            return None;
        }
        let selected = match self.selected_row {
            Some(selected) => selected,
            None => return None,
        };
        if let Some(anchor) = self.selection_anchor {
            if anchor != selected {
                return None;
            }
        }
        if selected >= self.rows.len() {
            return None;
        }
        assert(self@.rows[selected as int] == self.rows@[selected as int]@);
        match &self.rows[selected] {
            RenderRow::Comment(comment) => Some(comment),
            RenderRow::Diff(_) => None,
        }
    }

    /// How many rows are shown, or one where there is no place.
    pub(crate) fn height(&self) -> (height: usize)
        ensures
            height == self@.height(),
    {
        if self.last_body.height == 0 {
            1
        } else {
            self.last_body.height as usize
        }
    }

    /// The first row at the largest scroll.
    pub(crate) fn max_scroll(&self) -> (row: usize)
        ensures
            row == self@.max_scroll(),
    {
        let height = self.height();
        if self.rows.len() > height {
            self.rows.len() - height
        } else {
            0
        }
    }

    /// Scrolls so that the selected row is shown.
    pub fn ensure_selection_visible(&mut self)
        ensures
            final(self)@ == old(self)@.visible(),
    {
        let selected = match self.selected_row {
            Some(selected) => selected,
            None => return,
        };
        let height = self.height();
        let mut scroll = self.scroll;
        if selected < scroll {
            scroll = selected;
        } else if selected - scroll >= height {
            scroll = selected - (height - 1);
        }
        let max_scroll = self.max_scroll();
        self.scroll = if scroll <= max_scroll {
            scroll
        } else {
            max_scroll
        };
        assert(self@ =~= old(self)@.visible());
    }

    /// Makes the rows of the diff and the comments.
    pub fn rebuild_rows(&mut self)
        ensures
            final(self)@ == old(self)@.rebuilt(),
            final(self).parsed == old(self).parsed,
    {
        let mut rows: Vec<RenderRow> = Vec::new();
        let ghost lines = self@.parsed.lines;
        let ghost store = self@.comments;
        let mut i: usize = 0;
        assert(lines.take(0) =~= seq![]);
        assert(row_views(rows@) =~= seq![]);
        while i < self.parsed.lines.len()
            invariant
                i <= self.parsed.lines@.len(),
                *self == *old(self),
                lines == self@.parsed.lines,
                store == self@.comments,
                row_views(rows@) == rows_of(lines.take(i as int), store),
            decreases self.parsed.lines@.len() - i,
        {
            let ghost next = lines.take(i + 1);
            assert(next.drop_last() =~= lines.take(i as int));
            assert(next.last() == self.parsed.lines@[i as int]@);
            let ghost before = rows@;
            rows.push(RenderRow::Diff(i));
            assert(row_views(rows@) =~= row_views(before).push(RowView::Diff(i as int)));
            let ghost under = comments::comments_under(store, next.last().id());
            let ghost above = row_views(rows@);
            let id = self.parsed.lines[i].stable_id();
            match self.comments.get(id.as_str()) {
                Some(found) => {
                    let mut k: usize = 0;
                    assert(above =~= above + comment_rows(under.take(0)));
                    while k < found.len()
                        invariant
                            k <= found@.len(),
                            under == comments::comment_views(found@),
                            row_views(rows@) == above + comment_rows(under.take(k as int)),
                        decreases found@.len() - k,
                    {
                        let ghost before = rows@;
                        rows.push(RenderRow::Comment(found[k].clone()));
                        assert(row_views(rows@) =~= row_views(before).push(
                            RowView::Comment(under[k as int]),
                        ));
                        assert(comment_rows(under.take(k + 1)) =~= comment_rows(
                            under.take(k as int),
                        ).push(RowView::Comment(under[k as int])));
                        k += 1;
                        assert(row_views(rows@) =~= above + comment_rows(under.take(k as int)));
                    }
                    assert(under.take(found@.len() as int) =~= under);
                },
                None => {
                    assert(above =~= above + comment_rows(under));
                },
            }
            i += 1;
        }
        assert(lines.take(lines.len() as int) =~= lines);
        self.rows = rows;
        assert(self@ =~= old(self)@.rebuilt());
    }

    /// Selects the row with the identity `previous_target`, or else the first that can be.
    pub fn restore_selection(&mut self, previous_target: Option<&str>)
        ensures
            final(self)@ == old(self)@.restored(
                match previous_target {
                    Some(id) => Some(id@),
                    None => None,
                },
            ),
    {
        let ghost before = self@;
        let same = match previous_target {
            Some(id) => self.selectable_row_with_id(id),
            None => None,
        };
        let row = match same {
            Some(row) => Some(row),
            None => self.first_selectable(),
        };
        self.selection_anchor = None;
        self.mouse_drag_anchor = None;
        self.visual_mode = false;
        self.selected_row = row;
        assert(self@ =~= AppView { selected: opt_int(row), ..before.single() });
        self.ensure_selection_visible();
    }

    /// Finds the first row that can be selected and has the given identity.
    fn selectable_row_with_id(&self, id: &str) -> (row: Option<usize>)
        ensures
            opt_int(row) == first_where(
                self@.rows,
                |row: RowView| self@.row_selectable(row) && self@.row_id(row) == Some(id@),
            ),
    {
        let wanted = id.to_string();
        let ghost pred = |row: RowView|
            self@.row_selectable(row) && self@.row_id(row) == Some(id@);
        let mut i: usize = 0;
        while i < self.rows.len()
            invariant
                i <= self.rows@.len(),
                wanted@ == id@,
                pred == |row: RowView|
                    self@.row_selectable(row) && self@.row_id(row) == Some(id@),
                forall|j: int| 0 <= j < i ==> !pred(#[trigger] self@.rows[j]),
            decreases self.rows@.len() - i,
        {
            assert(self@.rows[i as int] == self.rows@[i as int]@);
            if self.row_selectable(&self.rows[i]) && self.row_has_id(&self.rows[i], &wanted) {
                proof {
                    lemma_first_where_is(self@.rows, pred, i as int);
                }
                return Some(i);
            }
            i += 1;
        }
        proof {
            lemma_first_where(self@.rows, pred);
        }
        None
    }

    /// The identity of the selected row.
    fn selected_id(&self) -> (id: Option<String>)
        ensures
            diff_parser::opt_text(id) == self@.selected_id(),
    {
        match self.selected_row {
            Some(selected) => {
                if selected < self.rows.len() {
                    assert(self@.rows[selected as int] == self.rows@[selected as int]@);
                    self.row_stable_id(&self.rows[selected])
                } else {
                    None
                }
            },
            None => None,
        }
    }

    /// Says what was read.
    fn loaded_status(&self, result: &GitDiffResult) -> (status: String)
        ensures
            status@ == self@.loaded_status(result@),
    {
        if let Some(error) = &result.error {
            return error.clone();
        }
        let chars = text::chars_of(result.text.as_str());
        if text::trim_chars(chars.as_slice()).len() == 0 {
            return "No uncommitted tracked diff. Waiting for changes...".to_string();
        }
        let mut status = "Loaded ".to_string();
        status.push_str(number::decimal_string(self.parsed.hunks.len() as u64).as_str());
        status.push_str(" hunks, ");
        status.push_str(number::decimal_string(self.parsed.selectable_count() as u64).as_str());
        status.push_str(" selectable lines.");
        status
    }

    /// Takes what a reading of the diff gave.
    pub fn refresh_diff(&mut self, force: bool, result: GitDiffResult)
        ensures
            final(self)@ == old(self)@.after_refresh(force, result@),
    {
        let new_text = Some(result.text.clone());
        if !force && same_opt(&self.last_diff_text, &new_text) && same_opt(
            &self.error,
            &result.error,
        ) {
            return;
        }
        let ghost before = self@;
        let previous_target = self.selected_id();
        self.error = diff_parser::copy_opt(&result.error);
        self.last_diff_text = new_text;
        self.parsed = diff_parser::parse_unified_diff(result.text.as_str());
        assert(self@ =~= AppView {
            error: result@.error,
            last_text: Some(result@.text),
            parsed: diff_parser::parsed_diff(result@.text),
            ..before
        });
        self.rebuild_rows();
        match &previous_target {
            Some(id) => self.restore_selection(Some(id.as_str())),
            None => self.restore_selection(None),
        }
        self.status = self.loaded_status(&result);
        assert(self@ =~= before.after_refresh(force, result@));
    }
}

} // verus!
