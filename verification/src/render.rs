//! What is shown: the texts and styles of the screen.

use crate::app;
use crate::app::{App, AppView, Area, RenderRow, RowView};
use crate::diff_parser::LineKind;
use crate::editor;
use crate::editor::{EditorView, TextEditor};
use crate::number;
use crate::payload;
use crate::text;
use ratatui::layout::{Constraint, Direction, Layout, Rect};
use vstd::prelude::*;

verus! {

/// A color of the terminal.
#[derive(Clone, Copy, Debug, PartialEq, Eq, Structural)]
pub enum Color {
    Black,
    Red,
    Green,
    Yellow,
    Blue,
    Cyan,
    Gray,
    DarkGray,
    White,
    Rgb(u8, u8, u8),
}

/// How a text is shown. Where no color is given, the terminal's own is used.
#[derive(Clone, Copy, Debug, PartialEq, Eq, Structural)]
pub struct TextStyle {
    pub fg: Option<Color>,
    pub bg: Option<Color>,
    pub bold: bool,
    pub dim: bool,
    pub reversed: bool,
}

/// The style without colors and modifiers.
pub open spec fn plain() -> TextStyle {
    TextStyle { fg: None, bg: None, bold: false, dim: false, reversed: false }
}

/// The plain style in a color.
pub open spec fn colored(fg: Color) -> TextStyle {
    TextStyle { fg: Some(fg), ..plain() }
}

/// The style in a color on another.
pub open spec fn on(fg: Color, bg: Color) -> TextStyle {
    TextStyle { fg: Some(fg), bg: Some(bg), ..plain() }
}

/// Makes the plain style in a color.
fn style_fg(fg: Color) -> (style: TextStyle)
    ensures
        style == colored(fg),
{
    TextStyle { fg: Some(fg), bg: None, bold: false, dim: false, reversed: false }
}

/// Makes the style in a color on another.
fn style_on(fg: Color, bg: Color) -> (style: TextStyle)
    ensures
        style == on(fg, bg),
{
    TextStyle { fg: Some(fg), bg: Some(bg), bold: false, dim: false, reversed: false }
}

/// A text with its style.
#[derive(Debug, PartialEq, Eq)]
pub struct StyledText {
    pub text: String,
    pub style: TextStyle,
}

/// The model of a `StyledText`.
#[verifier::ext_equal]
pub struct StyledView {
    pub text: Seq<char>,
    pub style: TextStyle,
}

impl View for StyledText {
    type V = StyledView;

    open spec fn view(&self) -> StyledView {
        StyledView { text: self.text@, style: self.style }
    }
}

/// The models of a sequence of texts.
pub open spec fn styled_views(texts: Seq<StyledText>) -> Seq<StyledView> {
    texts.map_values(|text: StyledText| text@)
}

/// `n` spaces.
pub open spec fn spaces(n: int) -> Seq<char> {
    Seq::new(
        if n > 0 {
            n as nat
        } else {
            0
        },
        |i: int| ' ',
    )
}

/// A text filled up with spaces to a width.
pub open spec fn padded(s: Seq<char>, width: int) -> Seq<char> {
    s + spaces(width - s.len())
}

/// A text behind so many spaces that they fill a width together.
pub open spec fn right_aligned(s: Seq<char>, width: int) -> Seq<char> {
    spaces(width - s.len()) + s
}

/// Appends `n` spaces.
fn push_spaces(s: &mut String, n: usize)
    ensures
        final(s)@ == old(s)@ + spaces(n as int),
{
    let mut i: usize = 0;
    assert(s@ =~= old(s)@ + spaces(0));
    while i < n
        invariant
            i <= n,
            s@ == old(s)@ + spaces(i as int),
        decreases n - i,
    {
        s.push(' ');
        i += 1;
        assert(s@ =~= old(s)@ + spaces(i as int));
    }
}

/// Fills a text up with spaces to a width.
pub fn pad_to_width(value: String, width: usize) -> (result: String)
    ensures
        result@ == padded(value@, width as int),
{
    let mut result = value;
    let len = editor::char_len(result.as_str());
    if len < width {
        push_spaces(&mut result, width - len);
    } else {
        assert(result@ =~= padded(value@, width as int));
    }
    result
}

/// Appends a text behind so many spaces that they fill a width together.
fn push_right_aligned(s: &mut String, value: &str, width: usize)
    ensures
        final(s)@ == old(s)@ + right_aligned(value@, width as int),
{
    let len = editor::char_len(value);
    if len < width {
        push_spaces(s, width - len);
    }
    s.push_str(value);
    assert(s@ =~= old(s)@ + right_aligned(value@, width as int));
}

/// A line of the editor, with the cursor before character `cursor` if it is in the line. The
/// cursor is a bar, or a space while it is not visible.
pub open spec fn with_cursor(line: Seq<char>, cursor: Option<int>, visible: bool) -> Seq<char> {
    match cursor {
        Some(x) => {
            let at = app::clamped(x, 0, line.len() as int);
            line.take(at).push(
                if visible {
                    '|'
                } else {
                    ' '
                },
            ) + line.skip(at)
        },
        None => line,
    }
}

/// Writes a line of the editor with the cursor.
pub fn line_with_cursor(line: &str, cursor_x: Option<usize>, cursor_visible: bool) -> (result:
    String)
    ensures
        result@ == with_cursor(line@, app::opt_int(cursor_x), cursor_visible),
{
    let x = match cursor_x {
        Some(x) => x,
        None => return line.to_string(),
    };
    let chars = text::chars_of(line);
    let at = if x < chars.len() {
        x
    } else {
        chars.len()
    };
    let head = text::copy_range(chars.as_slice(), 0, at);
    let tail = text::copy_range(chars.as_slice(), at, chars.len());
    assert(head@ =~= chars@.take(at as int));
    assert(tail@ =~= chars@.skip(at as int));
    let mut result = text::string_of(head.as_slice());
    result.push(
        if cursor_visible {
            '|'
        } else {
            ' '
        },
    );
    result.push_str(text::string_of(tail.as_slice()).as_str());
    result
}

/// The first line of a comment, and how many more there are.
pub open spec fn comment_summary(comment: Seq<char>) -> Seq<char> {
    let lines = text::lines_of(comment);
    let first = if lines.len() == 0 {
        seq![]
    } else {
        lines[0]
    };
    if lines.len() > 1 {
        first + " (+"@ + number::decimal((lines.len() - 1) as nat) + " lines)"@
    } else {
        first
    }
}

/// What a line of the given kind looks like.
pub open spec fn kind_style(kind: LineKind) -> TextStyle {
    match kind {
        LineKind::Add => colored(Color::Green),
        LineKind::Delete => colored(Color::Red),
        LineKind::Hunk => TextStyle { bold: true, ..colored(Color::Cyan) },
        LineKind::File => TextStyle { dim: true, ..colored(Color::Blue) },
        LineKind::Meta => TextStyle { dim: true, ..colored(Color::Blue) },
        LineKind::Note => TextStyle { dim: true, ..colored(Color::Blue) },
        LineKind::Context => plain(),
    }
}

/// A style as it is where the row is selected.
pub open spec fn highlighted(style: TextStyle, selected: bool) -> TextStyle {
    if selected {
        TextStyle { bold: true, reversed: true, ..style }
    } else {
        style
    }
}

impl AppView {
    /// The text of a row: the line numbers in two columns, and the line or the comment.
    pub open spec fn row_text(self, row: RowView) -> Seq<char> {
        match row {
            RowView::Diff(index) => if 0 <= index < self.parsed.lines.len() {
                let line = self.parsed.lines[index];
                right_aligned(number::opt_decimal(line.old_lineno), 6) + " "@ + right_aligned(
                    number::opt_decimal(line.new_lineno),
                    6,
                ) + " | "@ + line.raw
            } else {
                seq![]
            },
            RowView::Comment(comment) => spaces(6) + " "@ + spaces(6) + " | >> "@
                + comment_summary(comment.text),
        }
    }

    /// The style of a row.
    pub open spec fn row_style(self, row: RowView, selected: bool) -> TextStyle {
        highlighted(
            match row {
                RowView::Comment(_) => colored(Color::Yellow),
                RowView::Diff(index) => if 0 <= index < self.parsed.lines.len() {
                    kind_style(self.parsed.lines[index].kind)
                } else {
                    plain()
                },
            },
            selected,
        )
    }

    /// What is shown of row `i`.
    pub open spec fn row_line(self, i: int) -> StyledView {
        StyledView {
            text: self.row_text(self.rows[i]),
            style: self.row_style(self.rows[i], self.is_selected(i)),
        }
    }

    /// What is shown of the rows from the scroll on, in `height` lines.
    pub open spec fn visible_lines(self, height: int) -> Seq<StyledView> {
        let count = app::clamped(self.rows.len() - self.scroll, 0, height);
        Seq::new(count as nat, |k: int| self.row_line(self.scroll + k))
    }
}

/// The row is the comment that the editor replaces.
pub open spec fn is_hidden(row: RowView, editor: EditorView) -> bool {
    match (row, editor.replacing_comment) {
        (RowView::Comment(comment), Some(created_at)) => comment.created_at == created_at,
        _ => false,
    }
}

impl App {
    /// Writes the text of a row.
    pub fn row_text(&self, row: &RenderRow) -> (result: String)
        ensures
            result@ == self@.row_text(row@),
    {
        let mut result = String::new();
        match row {
            RenderRow::Diff(index) => {
                if *index >= self.parsed.lines.len() {
                    return result;
                }
                let line = &self.parsed.lines[*index];
                let old = number::opt_decimal_string(line.old_lineno);
                let new = number::opt_decimal_string(line.new_lineno);
                push_right_aligned(&mut result, old.as_str(), 6);
                result.push_str(" ");
                push_right_aligned(&mut result, new.as_str(), 6);
                result.push_str(" | ");
                result.push_str(line.raw.as_str());
                assert(result@ =~= self@.row_text(row@));
            },
            RenderRow::Comment(comment) => {
                push_spaces(&mut result, 6);
                result.push_str(" ");
                push_spaces(&mut result, 6);
                result.push_str(" | >> ");
                let chars = text::chars_of(comment.text.as_str());
                let lines = text::split_lines(chars.as_slice());
                let ghost all = text::lines_of(comment.text@);
                assert(all.len() == lines@.len());
                if lines.len() > 0 {
                    assert(all[0] == lines@[0]@);
                    result.push_str(text::string_of(lines[0].as_slice()).as_str());
                }
                if lines.len() > 1 {
                    result.push_str(" (+");
                    result.push_str(number::decimal_string((lines.len() - 1) as u64).as_str());
                    result.push_str(" lines)");
                }
                assert(result@ =~= self@.row_text(row@));
            },
        }
        result
    }

    /// The style of a row.
    pub fn row_style(&self, row: &RenderRow, selected: bool) -> (style: TextStyle)
        ensures
            style == self@.row_style(row@, selected),
    {
        let mut style = TextStyle {
            fg: None,
            bg: None,
            bold: false,
            dim: false,
            reversed: false,
        };
        match row {
            RenderRow::Comment(_) => {
                style.fg = Some(Color::Yellow);
            },
            RenderRow::Diff(index) => {
                if *index < self.parsed.lines.len() {
                    match self.parsed.lines[*index].kind {
                        LineKind::Add => {
                            style.fg = Some(Color::Green);
                        },
                        LineKind::Delete => {
                            style.fg = Some(Color::Red);
                        },
                        LineKind::Hunk => {
                            style.fg = Some(Color::Cyan);
                            style.bold = true;
                        },
                        LineKind::File | LineKind::Meta | LineKind::Note => {
                            style.fg = Some(Color::Blue);
                            style.dim = true;
                        },
                        LineKind::Context => {},
                    }
                }
            },
        }
        if selected {
            style.reversed = true;
            style.bold = true;
        }
        style
    }

    /// What is shown of a row, if it exists.
    pub fn render_row_line(&self, row_index: usize) -> (line: Option<StyledText>)
        ensures
            match line {
                Some(line) => row_index < self.rows@.len() && line@ == self@.row_line(
                    row_index as int,
                ),
                None => row_index >= self.rows@.len(),
            },
    {
        if row_index >= self.rows.len() {
            return None;
        }
        assert(self@.rows[row_index as int] == self.rows@[row_index as int]@);
        let row = &self.rows[row_index];
        let selected = self.is_row_selected(row_index);
        Some(StyledText { text: self.row_text(row), style: self.row_style(row, selected) })
    }

    /// Whether a row is the comment that the editor replaces.
    pub fn is_comment_hidden_by_editor(&self, row: &RenderRow, editor: &TextEditor) -> (result: bool)
        ensures
            result == is_hidden(row@, editor@),
    {
        match (row, editor.replacing_comment) {
            (RenderRow::Comment(comment), Some(created_at)) => comment.created_at == created_at,
            _ => false,
        }
    }

    /// What is shown of a row while a comment is edited: nothing of the comment that is replaced.
    pub fn render_row_line_with_editor(&self, row_index: usize, editor: &TextEditor) -> (line:
        Option<StyledText>)
        ensures
            match line {
                Some(line) => row_index < self.rows@.len() && !is_hidden(
                    self@.rows[row_index as int],
                    editor@,
                ) && line@ == self@.row_line(row_index as int),
                None => row_index >= self.rows@.len() || is_hidden(
                    self@.rows[row_index as int],
                    editor@,
                ),
            },
    {
        if row_index >= self.rows.len() {
            return None;
        }
        assert(self@.rows[row_index as int] == self.rows@[row_index as int]@);
        if self.is_comment_hidden_by_editor(&self.rows[row_index], editor) {
            return None;
        }
        self.render_row_line(row_index)
    }

    /// What is shown of the rows, in `height` lines.
    pub fn render_visible_rows(&self, height: usize) -> (lines: Vec<StyledText>)
        ensures
            styled_views(lines@) == self@.visible_lines(height as int),
    {
        let mut lines: Vec<StyledText> = Vec::new();
        let ghost all = self@.visible_lines(height as int);
        let mut row_index: usize = self.scroll;
        assert(styled_views(lines@) =~= all.take(0));
        while lines.len() < height && row_index < self.rows.len()
            invariant
                all == self@.visible_lines(height as int),
                row_index == self.scroll + lines@.len(),
                lines@.len() <= height,
                lines@.len() > 0 ==> row_index <= self.rows@.len(),
                styled_views(lines@) == all.take(lines@.len() as int),
            decreases height - lines@.len(),
        {
            if let Some(line) = self.render_row_line(row_index) {
                let ghost before = lines@;
                lines.push(line);
                assert(styled_views(lines@) =~= styled_views(before).push(line@));
                assert(all[before.len() as int] == line@);
                assert(styled_views(lines@) =~= all.take(lines@.len() as int));
            }
            row_index += 1;
        }
        assert(all.take(lines@.len() as int) =~= all);
        lines
    }
}

/// The style of the editor.
pub open spec fn panel() -> TextStyle {
    on(Color::Yellow, Color::Rgb(30, 28, 20))
}

/// The style of the editor's frame.
pub open spec fn panel_dim() -> TextStyle {
    TextStyle { dim: true, ..panel() }
}

/// The style of the editor's caption.
pub open spec fn panel_hint() -> TextStyle {
    TextStyle { dim: true, ..on(Color::DarkGray, Color::Rgb(30, 28, 20)) }
}

/// A text in the whole width.
pub open spec fn full_line(s: Seq<char>, style: TextStyle, width: int) -> StyledView {
    StyledView { text: padded(s, width), style }
}

/// Line `i` of the text in the editor.
pub open spec fn editor_text_line(
    editor: EditorView,
    i: int,
    cursor_visible: bool,
    width: int,
) -> StyledView {
    full_line(
        "       | >> "@ + with_cursor(
            editor.lines[i],
            if i == editor.y {
                Some(editor.x)
            } else {
                None
            },
            cursor_visible,
        ),
        panel(),
        width,
    )
}

/// What is shown of the editor: a caption, the lines of its text with the cursor, and a frame.
pub open spec fn editor_rows(editor: EditorView, cursor_visible: bool, width: int) -> Seq<StyledView> {
    seq![
        full_line("       |"@, panel_dim(), width),
        full_line("       | comment"@, panel_hint(), width),
    ] + Seq::new(
        editor.lines.len(),
        |i: int| editor_text_line(editor, i, cursor_visible, width),
    ).push(full_line("       |"@, panel_dim(), width))
}

/// The cursor is visible for half a second out of each.
pub open spec fn is_cursor_visible(elapsed_ms: int) -> bool {
    elapsed_ms / 500 % 2 == 0
}

impl AppView {
    /// The row that the editor is shown below: the last of the lines that are commented on, or the
    /// selected row where that is not among the rows.
    pub open spec fn editor_row(self, editor: EditorView) -> Option<int> {
        let id = if editor.target_lines.len() == 0 {
            seq![]
        } else {
            editor.target_lines.last().id()
        };
        match self.row_with_id(id) {
            Some(row) => Some(row),
            None => self.selected,
        }
    }

    /// What is shown of row `i` while a comment is edited, with the editor if it is shown below.
    pub open spec fn row_with_editor(
        self,
        i: int,
        editor: EditorView,
        cursor_visible: bool,
        width: int,
    ) -> Seq<StyledView> {
        let line = if is_hidden(self.rows[i], editor) {
            seq![]
        } else {
            seq![self.row_line(i)]
        };
        if self.editor_row(editor) == Some(i) {
            line + editor_rows(editor, cursor_visible, width)
        } else {
            line
        }
    }

    /// What there is to show of the rows from `start` on while a comment is edited.
    pub open spec fn rows_with_editor(
        self,
        start: int,
        editor: EditorView,
        cursor_visible: bool,
        width: int,
    ) -> Seq<StyledView>
        decreases self.rows.len() - start,
    {
        if start >= self.rows.len() {
            seq![]
        } else {
            self.row_with_editor(start, editor, cursor_visible, width) + self.rows_with_editor(
                start + 1,
                editor,
                cursor_visible,
                width,
            )
        }
    }

    /// What is shown of the rows while a comment is edited, in `height` lines.
    pub open spec fn visible_with_editor(
        self,
        editor: EditorView,
        cursor_visible: bool,
        height: int,
        width: int,
    ) -> Seq<StyledView> {
        let all = self.rows_with_editor(self.scroll, editor, cursor_visible, width);
        all.take(app::clamped(all.len() as int, 0, height))
    }

    /// What is shown in the body.
    pub open spec fn body_lines(self, height: int, width: int, elapsed_ms: int) -> Seq<StyledView> {
        match self.editor {
            Some(editor) => self.visible_with_editor(
                editor,
                is_cursor_visible(elapsed_ms),
                height,
                width,
            ),
            None => if self.rows.len() == 0 {
                seq![
                    StyledView {
                        text: match self.error {
                            Some(error) => error,
                            None => "No uncommitted tracked diff."@,
                        },
                        style: colored(Color::DarkGray),
                    },
                ]
            } else {
                self.visible_lines(height)
            },
        }
    }

    /// The mode, as the title shows it.
    pub open spec fn mode(self) -> Seq<char> {
        if self.editor is Some {
            "COMMENT"@
        } else if self.visual {
            "VISUAL"@
        } else {
            "NORMAL"@
        }
    }

    /// The title.
    pub open spec fn title(self, elapsed_ms: int) -> Seq<StyledView> {
        let label = if self.config.diff.include_untracked {
            "git diff HEAD + untracked"@
        } else {
            "git diff HEAD"@
        };
        seq![
            StyledView { text: " diffmark "@, style: colored(Color::Gray) },
            StyledView { text: "["@ + self.mode() + "]"@, style: colored(Color::DarkGray) },
            StyledView {
                text: " | "@ + label + " | "@ + number::decimal(self.parsed.hunks.len())
                    + " hunks | watching "@,
                style: colored(Color::DarkGray),
            },
            StyledView { text: "\u{25cf} "@, style: pulse(elapsed_ms) },
        ]
    }

    /// What is said of the selection below the title.
    pub open spec fn detail(self) -> Seq<char> {
        let lines = self.selection_lines();
        if lines.len() > 0 {
            payload::file_name(lines[0]) + " | "@ + app::selection_text(lines)
        } else {
            match self.comment_for_edit() {
                Some(comment) => if comment.target_lines.len() > 0 {
                    payload::file_name(comment.target_lines[0]) + " | comment at "@
                        + app::selection_text(comment.target_lines) + " | Enter to edit"@
                } else {
                    "Comment selected. Press Enter to edit."@
                },
                None => "No selectable diff line."@,
            }
        }
    }

    /// The keys that can be used.
    pub open spec fn help(self) -> StyledView {
        StyledView {
            text: if self.editor is Some {
                " Enter submit | Ctrl-J newline | Esc cancel | arrows move | Backspace/Delete edit "@
            } else {
                " j/k move | V visual | f/b page | drag select | Enter comment | q quit "@
            },
            style: on(Color::Black, Color::Gray),
        }
    }

    /// The status line.
    pub open spec fn status_line(self) -> StyledView {
        StyledView {
            text: " "@ + self.status + " "@,
            style: if self.error is Some {
                on(Color::White, Color::Red)
            } else {
                on(Color::Black, Color::Cyan)
            },
        }
    }
}

/// The mark that shows that the diff is watched brightens and fades.
pub open spec fn pulse(elapsed_ms: int) -> TextStyle {
    let phase = elapsed_ms / 300 % 6;
    if phase == 0 || phase == 5 {
        TextStyle { dim: true, ..colored(Color::DarkGray) }
    } else if phase == 1 || phase == 4 {
        TextStyle { dim: true, ..colored(Color::Green) }
    } else {
        colored(Color::Green)
    }
}

/// The style of the mark that shows that the diff is watched.
pub fn watch_pulse_style(elapsed_ms: u128) -> (style: TextStyle)
    ensures
        style == pulse(elapsed_ms as int),
{
    let phase = (elapsed_ms / 300) % 6;
    if phase == 0 || phase == 5 {
        let mut style = style_fg(Color::DarkGray);
        style.dim = true;
        style
    } else if phase == 1 || phase == 4 {
        let mut style = style_fg(Color::Green);
        style.dim = true;
        style
    } else {
        style_fg(Color::Green)
    }
}

/// Makes a text in the whole width.
fn styled_full_width_line(value: String, style: TextStyle, width: usize) -> (line: StyledText)
    ensures
        line@ == full_line(value@, style, width as int),
{
    StyledText { text: pad_to_width(value, width), style }
}

/// Appends a text.
fn push_styled(lines: &mut Vec<StyledText>, line: StyledText)
    ensures
        styled_views(final(lines)@) == styled_views(old(lines)@).push(line@),
{
    lines.push(line);
    assert(styled_views(lines@) =~= styled_views(old(lines)@).push(line@));
}

impl App {
    /// What is shown of the editor.
    pub fn editor_lines(&self, editor: &TextEditor, cursor_visible: bool, width: usize) -> (output:
        Vec<StyledText>)
        ensures
            styled_views(output@) == editor_rows(editor@, cursor_visible, width as int),
    {
        let back = Color::Rgb(30, 28, 20);
        let panel_style = style_on(Color::Yellow, back);
        let mut panel_dim = panel_style;
        panel_dim.dim = true;
        let mut panel_hint = style_on(Color::DarkGray, back);
        panel_hint.dim = true;
        let mut output: Vec<StyledText> = Vec::new();
        push_styled(&mut output, styled_full_width_line("       |".to_string(), panel_dim, width));
        push_styled(
            &mut output,
            styled_full_width_line("       | comment".to_string(), panel_hint, width),
        );
        let ghost head = styled_views(output@);
        let ghost middle = Seq::new(
            editor@.lines.len(),
            |i: int| editor_text_line(editor@, i, cursor_visible, width as int),
        );
        let mut i: usize = 0;
        assert(head =~= head + middle.take(0));
        while i < editor.lines.len()
            invariant
                i <= editor.lines@.len(),
                panel_style == panel(),
                middle == Seq::new(
                    editor@.lines.len(),
                    |i: int| editor_text_line(editor@, i, cursor_visible, width as int),
                ),
                styled_views(output@) == head + middle.take(i as int),
            decreases editor.lines@.len() - i,
        {
            let cursor = if i == editor.cursor_y {
                Some(editor.cursor_x)
            } else {
                None
            };
            let mut line = "       | >> ".to_string();
            line.push_str(
                line_with_cursor(editor.lines[i].as_str(), cursor, cursor_visible).as_str(),
            );
            assert(editor@.lines[i as int] == editor.lines@[i as int]@);
            let shown = styled_full_width_line(line, panel_style, width);
            assert(shown@ == middle[i as int]);
            push_styled(&mut output, shown);
            assert(middle.take(i + 1) =~= middle.take(i as int).push(middle[i as int]));
            i += 1;
            assert(styled_views(output@) =~= head + middle.take(i as int));
        }
        assert(middle.take(editor.lines@.len() as int) =~= middle);
        push_styled(&mut output, styled_full_width_line("       |".to_string(), panel_dim, width));
        assert(styled_views(output@) =~= editor_rows(editor@, cursor_visible, width as int));
        output
    }

    /// The row that the editor is shown below.
    fn editor_row(&self, editor: &TextEditor) -> (row: Option<usize>)
        ensures
            app::opt_int(row) == self@.editor_row(editor@),
    {
        let count = editor.target_lines.len();
        let id = if count == 0 {
            String::new()
        } else {
            assert(editor@.target_lines.last() == editor.target_lines@.last()@);
            editor.target_lines[count - 1].stable_id()
        };
        assert(editor@.target_lines.len() == count);
        match self.row_index_for_stable_id(id.as_str()) {
            Some(row) => Some(row),
            None => self.selected_row,
        }
    }

    /// What is shown of the rows while a comment is edited, in `height` lines.
    pub fn render_rows_with_editor(
        &self,
        height: usize,
        width: usize,
        editor: &TextEditor,
        cursor_visible: bool,
    ) -> (lines: Vec<StyledText>)
        ensures
            styled_views(lines@) == self@.visible_with_editor(
                editor@,
                cursor_visible,
                height as int,
                width as int,
            ),
    {
        let target_row = self.editor_row(editor);
        let ghost all = self@.rows_with_editor(
            self.scroll as int,
            editor@,
            cursor_visible,
            width as int,
        );
        let mut lines: Vec<StyledText> = Vec::new();
        let mut row_index: usize = self.scroll;
        assert(styled_views(lines@) + all =~= all);
        while lines.len() < height && row_index < self.rows.len()
            invariant
                app::opt_int(target_row) == self@.editor_row(editor@),
                styled_views(lines@) + self@.rows_with_editor(
                    row_index as int,
                    editor@,
                    cursor_visible,
                    width as int,
                ) == all,
            decreases self.rows@.len() - row_index,
        {
            let ghost before = styled_views(lines@);
            let ghost piece = self@.row_with_editor(
                row_index as int,
                editor@,
                cursor_visible,
                width as int,
            );
            let ghost rest = self@.rows_with_editor(
                row_index + 1,
                editor@,
                cursor_visible,
                width as int,
            );
            if let Some(line) = self.render_row_line_with_editor(row_index, editor) {
                push_styled(&mut lines, line);
            }
            let here = match target_row {
                Some(row) => row == row_index,
                None => false,
            };
            if here {
                let mut shown = self.editor_lines(editor, cursor_visible, width);
                let ghost above = lines@;
                let ghost added = shown@;
                lines.append(&mut shown);
                assert(styled_views(above + added) =~= styled_views(above) + styled_views(added));
            }
            assert(styled_views(lines@) =~= before + piece);
            assert((before + piece) + rest =~= before + (piece + rest));
            row_index += 1;
        }
        lines.truncate(height);
        assert(styled_views(lines@) =~= self@.visible_with_editor(
            editor@,
            cursor_visible,
            height as int,
            width as int,
        ));
        lines
    }

    /// What is shown in the body.
    pub fn render_rows(&self, height: usize, width: usize, elapsed_ms: u128) -> (lines: Vec<
        StyledText,
    >)
        ensures
            styled_views(lines@) == self@.body_lines(
                height as int,
                width as int,
                elapsed_ms as int,
            ),
    {
        match &self.editor {
            Some(editor) => self.render_rows_with_editor(
                height,
                width,
                editor,
                (elapsed_ms / 500) % 2 == 0,
            ),
            None => {
                if self.rows.len() == 0 {
                    let message = match &self.error {
                        Some(error) => error.clone(),
                        None => "No uncommitted tracked diff.".to_string(),
                    };
                    let mut lines: Vec<StyledText> = Vec::new();
                    lines.push(StyledText { text: message, style: style_fg(Color::DarkGray) });
                    assert(styled_views(lines@) =~= self@.body_lines(
                        height as int,
                        width as int,
                        elapsed_ms as int,
                    ));
                    lines
                } else {
                    self.render_visible_rows(height)
                }
            },
        }
    }

    /// The title.
    pub fn render_title(&self, elapsed_ms: u128) -> (title: Vec<StyledText>)
        ensures
            styled_views(title@) == self@.title(elapsed_ms as int),
    {
        let mode = if self.editor.is_some() {
            "COMMENT"
        } else if self.visual_mode {
            "VISUAL"
        } else {
            "NORMAL"
        };
        let label = if self.config.diff.include_untracked {
            "git diff HEAD + untracked"
        } else {
            "git diff HEAD"
        };
        let mut shown_mode = "[".to_string();
        shown_mode.push_str(mode);
        shown_mode.push_str("]");
        let mut summary = " | ".to_string();
        summary.push_str(label);
        summary.push_str(" | ");
        summary.push_str(number::decimal_string(self.parsed.hunks.len() as u64).as_str());
        summary.push_str(" hunks | watching ");
        let mut title: Vec<StyledText> = Vec::new();
        title.push(StyledText { text: " diffmark ".to_string(), style: style_fg(Color::Gray) });
        title.push(StyledText { text: shown_mode, style: style_fg(Color::DarkGray) });
        title.push(StyledText { text: summary, style: style_fg(Color::DarkGray) });
        title.push(
            StyledText { text: "\u{25cf} ".to_string(), style: watch_pulse_style(elapsed_ms) },
        );
        assert(styled_views(title@) =~= self@.title(elapsed_ms as int));
        title
    }

    /// What is said of the selection below the title.
    pub fn render_detail(&self) -> (detail: StyledText)
        ensures
            detail@ == (StyledView { text: self@.detail(), style: colored(Color::Blue) }),
    {
        let style = style_fg(Color::Blue);
        let lines = self.current_selection_lines();
        assert(self@.selection_lines().len() == lines@.len());
        let mut detail = String::new();
        if lines.len() > 0 {
            assert(self@.selection_lines()[0] == lines@[0]@);
            payload::push_file_name(&mut detail, &lines[0]);
            detail.push_str(" | ");
            detail.push_str(app::describe_selection(lines.as_slice()).as_str());
            assert(detail@ =~= self@.detail());
            return StyledText { text: detail, style };
        }
        match self.selected_comment_for_edit() {
            Some(comment) => {
                assert(comment@.target_lines.len() == comment.target_lines@.len());
                if comment.target_lines.len() > 0 {
                    assert(comment@.target_lines[0] == comment.target_lines@[0]@);
                    payload::push_file_name(&mut detail, &comment.target_lines[0]);
                    detail.push_str(" | comment at ");
                    detail.push_str(
                        app::describe_selection(comment.target_lines.as_slice()).as_str(),
                    );
                    detail.push_str(" | Enter to edit");
                    assert(detail@ =~= self@.detail());
                    StyledText { text: detail, style }
                } else {
                    StyledText {
                        text: "Comment selected. Press Enter to edit.".to_string(),
                        style,
                    }
                }
            },
            None => StyledText { text: "No selectable diff line.".to_string(), style },
        }
    }

    /// The keys that can be used.
    pub fn render_help(&self) -> (help: StyledText)
        ensures
            help@ == self@.help(),
    {
        let help = if self.editor.is_some() {
            " Enter submit | Ctrl-J newline | Esc cancel | arrows move | Backspace/Delete edit "
        } else {
            " j/k move | V visual | f/b page | drag select | Enter comment | q quit "
        };
        StyledText { text: help.to_string(), style: style_on(Color::Black, Color::Gray) }
    }

    /// The status line.
    pub fn render_status(&self) -> (line: StyledText)
        ensures
            line@ == self@.status_line(),
    {
        let mut line = " ".to_string();
        line.push_str(self.status.as_str());
        line.push_str(" ");
        let style = if self.error.is_some() {
            style_on(Color::White, Color::Red)
        } else {
            style_on(Color::Black, Color::Cyan)
        };
        StyledText { text: line, style }
    }
}

/// Five areas that are as wide as `area`.
pub open spec fn is_split(parts: Seq<Area>, area: Area) -> bool {
    &&& parts.len() == 5
    &&& forall|i: int|
        0 <= i < parts.len() ==> (#[trigger] parts[i]).x == area.x && parts[i].width == area.width
}

/// How many rows of the terminal an area has: rows are numbered up to `u16::MAX`, and an area that
/// goes beyond ends there.
pub open spec fn row_count(area: Area) -> int {
    if area.y + area.height <= u16::MAX {
        area.height as int
    } else {
        u16::MAX - area.y
    }
}

/// The parts lie one below the other from the top row of the area to its last: the first two and
/// the last two with their own heights, the third with all the rows between them.
pub open spec fn is_stack(
    parts: Seq<Area>,
    area: Area,
    title: int,
    detail: int,
    help: int,
    status: int,
) -> bool {
    let bottom = area.y + row_count(area);
    &&& parts[0].y == area.y && parts[0].height == title
    &&& parts[1].y == area.y + title && parts[1].height == detail
    &&& parts[2].y == area.y + title + detail && parts[2].height == row_count(area) - title - detail
        - help - status
    &&& parts[3].y == bottom - help - status && parts[3].height == help
    &&& parts[4].y == bottom - status && parts[4].height == status
}

/// `Layout::split` of the crate `ratatui` splits an area into rows, one below the other: the first
/// two and the last two of fixed heights and the third of a least height. There is one part for
/// each of the five heights, and each is as wide as the area. Where the area has rows for all five
/// heights, each part with a fixed height has that height, and the third takes the rows that are
/// left. Where it has not, the rows in which the parts lie are left unsaid: some of the fixed
/// heights then give way, and the documentation does not say which.
#[verifier::external_body]
fn split_rows(
    area: Area,
    title: u16,
    detail: u16,
    body: u16,
    help: u16,
    status: u16,
) -> (parts: Vec<Area>)
    ensures
        is_split(parts@, area),
        title + detail + body + help + status <= row_count(area) ==> is_stack(
            parts@,
            area,
            title as int,
            detail as int,
            help as int,
            status as int,
        ),
{
    let heights = [
        Constraint::Length(title),
        Constraint::Length(detail),
        Constraint::Min(body),
        Constraint::Length(help),
        Constraint::Length(status),
    ];
    let rect = Rect { x: area.x, y: area.y, width: area.width, height: area.height };
    let layout = Layout::default().direction(Direction::Vertical).constraints(heights);
    let parts = layout.split(rect);
    parts.iter().map(|p| Area { x: p.x, y: p.y, width: p.width, height: p.height }).collect()
}

/// What is shown on the screen.
#[derive(Debug, PartialEq, Eq)]
pub enum Screen {
    /// The terminal is too small: only this is shown, in the whole area.
    TooSmall(StyledText),
    /// The parts of the screen, each with its area.
    Parts {
        title: (Area, Vec<StyledText>),
        detail: (Area, StyledText),
        body: (Area, Vec<StyledText>),
        help: (Area, StyledText),
        status: (Area, StyledText),
    },
}

/// The model of a `Screen`.
#[verifier::ext_equal]
pub enum ScreenView {
    TooSmall(StyledView),
    Parts {
        title: (Area, Seq<StyledView>),
        detail: (Area, StyledView),
        body: (Area, Seq<StyledView>),
        help: (Area, StyledView),
        status: (Area, StyledView),
    },
}

impl View for Screen {
    type V = ScreenView;

    open spec fn view(&self) -> ScreenView {
        match self {
            Screen::TooSmall(message) => ScreenView::TooSmall(message@),
            Screen::Parts { title, detail, body, help, status } => ScreenView::Parts {
                title: (title.0, styled_views(title.1@)),
                detail: (detail.0, detail.1@),
                body: (body.0, styled_views(body.1@)),
                help: (help.0, help.1@),
                status: (status.0, status.1@),
            },
        }
    }
}

/// The terminal has no place for the parts of the screen.
pub open spec fn is_too_small(area: Area) -> bool {
    area.height < 6 || area.width < 30
}

/// What is shown where the terminal is too small.
pub open spec fn too_small() -> ScreenView {
    ScreenView::TooSmall(
        StyledView { text: "Terminal too small."@, style: colored(Color::Red) },
    )
}

impl AppView {
    /// With the rows shown in an area, and scrolled so that the selected row is shown.
    pub open spec fn after_layout(self, body: Area) -> AppView {
        AppView { body, ..self }.visible()
    }

    /// The screen whose parts lie in the given areas.
    pub open spec fn screen(self, parts: Seq<Area>, elapsed_ms: int) -> ScreenView {
        ScreenView::Parts {
            title: (parts[0], self.title(elapsed_ms)),
            detail: (parts[1], StyledView { text: self.detail(), style: colored(Color::Blue) }),
            body: (
                parts[2],
                self.body_lines(parts[2].height as int, parts[2].width as int, elapsed_ms),
            ),
            help: (parts[3], self.help()),
            status: (parts[4], self.status_line()),
        }
    }
}

impl App {
    /// Shows the program in parts that lie in the given areas.
    pub fn render_parts(&mut self, parts: &[Area], elapsed_ms: u128) -> (screen: Screen)
        requires
            parts@.len() == 5,
        ensures
            final(self)@ == old(self)@.after_layout(parts@[2]),
            screen@ == final(self)@.screen(parts@, elapsed_ms as int),
    {
        let ghost before = self@;
        let body = parts[2];
        self.last_body = body;
        assert(self@ =~= AppView { body, ..before });
        self.ensure_selection_visible();
        let lines = self.render_rows(body.height as usize, body.width as usize, elapsed_ms);
        Screen::Parts {
            title: (parts[0], self.render_title(elapsed_ms)),
            detail: (parts[1], self.render_detail()),
            body: (body, lines),
            help: (parts[3], self.render_help()),
            status: (parts[4], self.render_status()),
        }
    }

    /// Shows the program in an area of the terminal, `elapsed_ms` milliseconds after its start.
    /// The title and the detail have the first two rows, the help and the status the last two, and
    /// the lines of the diff the rows between them. Only where the numbers of the rows run out
    /// within the first five rows of the area is it left open in which rows the parts lie.
    pub fn render(&mut self, area: Area, elapsed_ms: u128) -> (screen: Screen)
        ensures
            is_too_small(area) ==> final(self)@ == old(self)@ && screen@ == too_small(),
            !is_too_small(area) ==> exists|parts: Seq<Area>|
                #[trigger] is_split(parts, area) && (5 <= row_count(area) ==> is_stack(
                    parts,
                    area,
                    1,
                    1,
                    1,
                    1,
                )) && final(self)@ == old(self)@.after_layout(parts[2]) && screen@ == final(
                    self
                )@.screen(parts, elapsed_ms as int),
    {
        if area.height < 6 || area.width < 30 {
            return Screen::TooSmall(
                StyledText {
                    text: "Terminal too small.".to_string(),
                    style: style_fg(Color::Red),
                },
            );
        }
        let parts = split_rows(area, 1, 1, 1, 1, 1);
        self.render_parts(parts.as_slice(), elapsed_ms)
    }
}

} // verus!
