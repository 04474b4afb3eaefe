//! The editor for a comment.

use crate::comments;
use crate::comments::InlineComment;
use crate::diff_parser;
use crate::diff_parser::{DiffLine, DiffLineView};
use crate::text;
use vstd::prelude::*;

verus! {

/// An editor: the lines of a text, and a cursor that stands before character `cursor_x` of line
/// `cursor_y`.
#[derive(Debug)]
pub struct TextEditor {
    pub target_lines: Vec<DiffLine>,
    pub replacing_comment: Option<u64>,
    pub lines: Vec<String>,
    pub cursor_y: usize,
    pub cursor_x: usize,
}

/// The model of a `TextEditor`.
#[verifier::ext_equal]
pub struct EditorView {
    pub target_lines: Seq<DiffLineView>,
    pub replacing_comment: Option<u64>,
    pub lines: Seq<Seq<char>>,
    pub y: int,
    pub x: int,
}

impl View for TextEditor {
    type V = EditorView;

    open spec fn view(&self) -> EditorView {
        EditorView {
            target_lines: diff_parser::line_views(self.target_lines@),
            replacing_comment: self.replacing_comment,
            lines: text::texts(self.lines@),
            y: self.cursor_y as int,
            x: self.cursor_x as int,
        }
    }
}

/// How many characters a string has.
pub fn char_len(value: &str) -> (len: usize)
    ensures
        len == value@.len(),
{
    value.unicode_len()
}

impl EditorView {
    /// The cursor stands in the text.
    pub open spec fn wf(self) -> bool {
        &&& 0 <= self.y < self.lines.len()
        &&& 0 <= self.x <= self.lines[self.y].len()
    }

    /// The line of the cursor.
    pub open spec fn line(self) -> Seq<char> {
        self.lines[self.y]
    }

    /// The text in the editor.
    pub open spec fn text(self) -> Seq<char> {
        text::join(self.lines, "\n"@)
    }

    /// With another line in the place of the cursor's.
    pub open spec fn with_line(self, line: Seq<char>) -> EditorView {
        EditorView { lines: self.lines.update(self.y, line), ..self }
    }

    /// With the cursor elsewhere.
    pub open spec fn at(self, y: int, x: int) -> EditorView {
        EditorView { y, x, ..self }
    }

    /// After the line is broken at the cursor.
    pub open spec fn after_newline(self) -> EditorView {
        EditorView {
            lines: self.lines.update(self.y, self.line().take(self.x)).insert(
                self.y + 1,
                self.line().skip(self.x),
            ),
            y: self.y + 1,
            x: 0,
            ..self
        }
    }

    /// After a character is typed: a line feed breaks the line, other control characters than a
    /// tab are ignored.
    pub open spec fn after_insert(self, ch: char) -> EditorView {
        if ch == '\n' {
            self.after_newline()
        } else if text::is_control_char(ch) && ch != '\t' {
            self
        } else {
            self.with_line(self.line().insert(self.x, ch)).at(self.y, self.x + 1)
        }
    }

    /// With line `y + 1` appended to line `y`.
    pub open spec fn joined(self, y: int) -> Seq<Seq<char>> {
        self.lines.update(y, self.lines[y] + self.lines[y + 1]).remove(y + 1)
    }

    /// After the character before the cursor is removed; at the start of a line that is the end of
    /// the line before.
    pub open spec fn after_backspace(self) -> EditorView {
        if self.x > 0 {
            self.with_line(self.line().remove(self.x - 1)).at(self.y, self.x - 1)
        } else if self.y > 0 {
            EditorView {
                lines: self.joined(self.y - 1),
                y: self.y - 1,
                x: self.lines[self.y - 1].len() as int,
                ..self
            }
        } else {
            self
        }
    }

    /// After the character behind the cursor is removed; at the end of a line that is the end of
    /// the line.
    pub open spec fn after_delete(self) -> EditorView {
        if self.x < self.line().len() {
            self.with_line(self.line().remove(self.x))
        } else if self.y + 1 < self.lines.len() {
            EditorView { lines: self.joined(self.y), ..self }
        } else {
            self
        }
    }

    /// After a step to the left; from the start of a line to the end of the line before.
    pub open spec fn after_left(self) -> EditorView {
        if self.x > 0 {
            self.at(self.y, self.x - 1)
        } else if self.y > 0 {
            self.at(self.y - 1, self.lines[self.y - 1].len() as int)
        } else {
            self
        }
    }

    /// After a step to the right; from the end of a line to the start of the next.
    pub open spec fn after_right(self) -> EditorView {
        if self.x < self.line().len() {
            self.at(self.y, self.x + 1)
        } else if self.y + 1 < self.lines.len() {
            self.at(self.y + 1, 0)
        } else {
            self
        }
    }

    /// In line `y`, as far to the right as before or at its end.
    pub open spec fn in_line(self, y: int) -> EditorView {
        self.at(
            y,
            if self.x <= self.lines[y].len() {
                self.x
            } else {
                self.lines[y].len() as int
            },
        )
    }

    /// After a step up.
    pub open spec fn after_up(self) -> EditorView {
        if self.y > 0 {
            self.in_line(self.y - 1)
        } else {
            self
        }
    }

    /// After a step down.
    pub open spec fn after_down(self) -> EditorView {
        if self.y + 1 < self.lines.len() {
            self.in_line(self.y + 1)
        } else {
            self
        }
    }

    /// At the start of the line.
    pub open spec fn after_home(self) -> EditorView {
        self.at(self.y, 0)
    }

    /// At the end of the line.
    pub open spec fn after_end(self) -> EditorView {
        self.at(self.y, self.line().len() as int)
    }

    /// After the line is emptied.
    pub open spec fn after_kill_line(self) -> EditorView {
        self.with_line(seq![]).at(self.y, 0)
    }
}

/// An empty editor for a comment on some lines.
pub open spec fn new_editor(target_lines: Seq<DiffLineView>) -> EditorView {
    EditorView { target_lines, replacing_comment: None, lines: seq![seq![]], y: 0, x: 0 }
}

/// An editor that holds a comment, with the cursor at its end.
pub open spec fn replacing_editor(
    target_lines: Seq<DiffLineView>,
    comment: comments::CommentView,
) -> EditorView {
    let lines = text::split_char(comment.text, '\n');
    EditorView {
        target_lines,
        replacing_comment: Some(comment.created_at),
        lines,
        y: lines.len() - 1,
        x: lines.last().len() as int,
    }
}

impl TextEditor {
    /// Opens an empty editor for a comment on some lines.
    pub fn new(target_lines: Vec<DiffLine>) -> (editor: TextEditor)
        ensures
            editor@ == new_editor(diff_parser::line_views(target_lines@)),
            editor@.wf(),
    {
        let lines = vec![String::new()];
        assert(text::texts(lines@) =~= seq![seq![]]);
        TextEditor { target_lines, replacing_comment: None, lines, cursor_y: 0, cursor_x: 0 }
    }

    /// Opens an editor that holds a comment, to replace it.
    pub fn replacing(target_lines: Vec<DiffLine>, comment: &InlineComment) -> (editor: TextEditor)
        ensures
            editor@ == replacing_editor(diff_parser::line_views(target_lines@), comment@),
            editor@.wf(),
    {
        let chars = text::chars_of(comment.text.as_str());
        let parts = text::split_at_char(chars.as_slice(), '\n');
        let ghost all = text::split_char(comment.text@, '\n');
        proof {
            text::lemma_split_char_nonempty(comment.text@, '\n');
        }
        let mut lines: Vec<String> = Vec::new();
        let mut i: usize = 0;
        while i < parts.len()
            invariant
                i <= parts@.len(),
                all == text::char_texts(parts@),
                text::texts(lines@) == all.take(i as int),
            decreases parts@.len() - i,
        {
            let ghost before = lines@;
            lines.push(text::string_of(parts[i].as_slice()));
            assert(text::texts(lines@) =~= text::texts(before).push(parts@[i as int]@));
            assert(text::texts(lines@) =~= all.take(i + 1));
            i += 1;
        }
        assert(all.take(parts@.len() as int) =~= all);
        assert(lines@.len() == text::texts(lines@).len());
        let cursor_y = lines.len() - 1;
        let cursor_x = char_len(lines[cursor_y].as_str());
        assert(all.last() == lines@[cursor_y as int]@);
        TextEditor {
            target_lines,
            replacing_comment: Some(comment.created_at),
            lines,
            cursor_y,
            cursor_x,
        }
    }

    /// The text in the editor.
    pub fn text(&self) -> (s: String)
        ensures
            s@ == self@.text(),
    {
        text::join_strings(self.lines.as_slice(), "\n")
    }

    /// Puts another line in the place of line `y`.
    fn set_line(&mut self, y: usize, line: String)
        requires
            y < old(self).lines@.len(),
        ensures
            final(self)@ == (EditorView {
                lines: old(self)@.lines.update(y as int, line@),
                ..old(self)@
            }),
    {
        let ghost before = self.lines@;
        self.lines[y] = line;
        assert(text::texts(self.lines@) =~= text::texts(before).update(y as int, line@));
    }

    /// Types a character.
    pub fn insert_char(&mut self, ch: char)
        requires
            old(self)@.wf(),
        ensures
            final(self)@ == old(self)@.after_insert(ch),
            final(self)@.wf(),
    {
        if ch == '\n' {
            self.newline();
            return;
        }
        if ch.is_control() && ch != '\t' {
            return;
        }
        let y = self.cursor_y;
        let mut chars = text::chars_of(self.lines[y].as_str());
        chars.insert(self.cursor_x, ch);
        let count = chars.len();
        self.set_line(y, text::string_of(chars.as_slice()));
        assert(self.cursor_x < count);
        self.cursor_x += 1;
    }

    /// Breaks the line at the cursor.
    pub fn newline(&mut self)
        requires
            old(self)@.wf(),
        ensures
            final(self)@ == old(self)@.after_newline(),
            final(self)@.wf(),
    {
        let y = self.cursor_y;
        let mut chars = text::chars_of(self.lines[y].as_str());
        let tail = chars.split_off(self.cursor_x);
        let ghost line = self@.line();
        assert(chars@ =~= line.take(self.cursor_x as int));
        assert(tail@ =~= line.skip(self.cursor_x as int));
        self.set_line(y, text::string_of(chars.as_slice()));
        let ghost before = self.lines@;
        let rest = text::string_of(tail.as_slice());
        assert(y < self.lines.len());
        self.lines.insert(y + 1, rest);
        assert(text::texts(self.lines@) =~= text::texts(before).insert(y + 1, rest@));
        self.cursor_y = y + 1;
        self.cursor_x = 0;
    }

    /// Appends line `y + 1` to line `y`.
    fn join_next(&mut self, y: usize)
        requires
            y + 1 < old(self).lines@.len(),
        ensures
            final(self)@ == (EditorView { lines: old(self)@.joined(y as int), ..old(self)@ }),
    {
        let ghost before = self.lines@;
        assert(y + 1 < self.lines.len());
        let next = self.lines.remove(y + 1);
        let mut line = self.lines[y].clone();
        line.push_str(next.as_str());
        self.lines[y] = line;
        assert(text::texts(self.lines@) =~= text::texts(before).update(
            y as int,
            before[y as int]@ + before[y + 1]@,
        ).remove(y + 1));
    }

    /// Removes the character before the cursor.
    pub fn backspace(&mut self)
        requires
            old(self)@.wf(),
        ensures
            final(self)@ == old(self)@.after_backspace(),
            final(self)@.wf(),
    {
        let y = self.cursor_y;
        if self.cursor_x > 0 {
            let mut chars = text::chars_of(self.lines[y].as_str());
            let _ = chars.remove(self.cursor_x - 1);
            self.set_line(y, text::string_of(chars.as_slice()));
            self.cursor_x -= 1;
            return;
        }
        if y > 0 {
            let x = char_len(self.lines[y - 1].as_str());
            self.join_next(y - 1);
            self.cursor_y = y - 1;
            self.cursor_x = x;
        }
    }

    /// Removes the character behind the cursor.
    pub fn delete(&mut self)
        requires
            old(self)@.wf(),
        ensures
            final(self)@ == old(self)@.after_delete(),
            final(self)@.wf(),
    {
        let y = self.cursor_y;
        let mut chars = text::chars_of(self.lines[y].as_str());
        if self.cursor_x < chars.len() {
            let _ = chars.remove(self.cursor_x);
            self.set_line(y, text::string_of(chars.as_slice()));
            return;
        }
        let count = self.lines.len();
        if y < count - 1 {
            self.join_next(y);
        }
    }

    /// Steps to the left.
    pub fn move_left(&mut self)
        requires
            old(self)@.wf(),
        ensures
            final(self)@ == old(self)@.after_left(),
            final(self)@.wf(),
    {
        if self.cursor_x > 0 {
            self.cursor_x -= 1;
        } else if self.cursor_y > 0 {
            self.cursor_y -= 1;
            self.cursor_x = char_len(self.lines[self.cursor_y].as_str());
        }
    }

    /// Steps to the right.
    pub fn move_right(&mut self)
        requires
            old(self)@.wf(),
        ensures
            final(self)@ == old(self)@.after_right(),
            final(self)@.wf(),
    {
        let len = char_len(self.lines[self.cursor_y].as_str());
        if self.cursor_x < len {
            self.cursor_x += 1;
        } else if self.cursor_y < self.lines.len() - 1 {
            self.cursor_y += 1;
            self.cursor_x = 0;
        }
    }

    /// Keeps the cursor within its line.
    fn clamp_x(&mut self)
        requires
            old(self).cursor_y < old(self).lines@.len(),
        ensures
            final(self)@ == old(self)@.in_line(old(self)@.y),
    {
        let len = char_len(self.lines[self.cursor_y].as_str());
        if self.cursor_x > len {
            self.cursor_x = len;
        }
    }

    /// Steps up.
    pub fn move_up(&mut self)
        requires
            old(self)@.wf(),
        ensures
            final(self)@ == old(self)@.after_up(),
            final(self)@.wf(),
    {
        if self.cursor_y > 0 {
            self.cursor_y -= 1;
            self.clamp_x();
        }
    }

    /// Steps down.
    pub fn move_down(&mut self)
        requires
            old(self)@.wf(),
        ensures
            final(self)@ == old(self)@.after_down(),
            final(self)@.wf(),
    {
        if self.cursor_y < self.lines.len() - 1 {
            self.cursor_y += 1;
            self.clamp_x();
        }
    }

    /// Goes to the start of the line.
    pub fn home(&mut self)
        requires
            old(self)@.wf(),
        ensures
            final(self)@ == old(self)@.after_home(),
            final(self)@.wf(),
    {
        self.cursor_x = 0;
    }

    /// Goes to the end of the line.
    pub fn end(&mut self)
        requires
            old(self)@.wf(),
        ensures
            final(self)@ == old(self)@.after_end(),
            final(self)@.wf(),
    {
        self.cursor_x = char_len(self.lines[self.cursor_y].as_str());
    }

    /// Empties the line.
    pub fn kill_line(&mut self)
        requires
            old(self)@.wf(),
        ensures
            final(self)@ == old(self)@.after_kill_line(),
            final(self)@.wf(),
    {
        let y = self.cursor_y;
        self.set_line(y, String::new());
        self.cursor_x = 0;
    }
}

impl EditorView {
    /// The text before the cursor.
    pub open spec fn before(self) -> Seq<char> {
        text::join(self.lines.take(self.y).push(self.line().take(self.x)), "\n"@)
    }

    /// The text behind the cursor.
    pub open spec fn behind(self) -> Seq<char> {
        text::join(seq![self.line().skip(self.x)] + self.lines.skip(self.y + 1), "\n"@)
    }
}

/// A typed character is taken: it is no control character other than a line feed or a tab.
pub open spec fn is_taken(ch: char) -> bool {
    ch == '\n' || ch == '\t' || !text::is_control_char(ch)
}

/// What stands before a cut in the last of some lines.
proof fn lemma_cut(above: Seq<Seq<char>>, line: Seq<char>)
    ensures
        text::join(above.push(line), "\n"@) == (if above.len() == 0 {
            line
        } else {
            text::join(above, "\n"@) + "\n"@ + line
        }),
{
    assert(above.push(line).drop_last() =~= above);
}

/// What stands behind a cut in the first of some lines.
proof fn lemma_cut_behind(line: Seq<char>, below: Seq<Seq<char>>)
    ensures
        text::join(seq![line] + below, "\n"@) == (if below.len() == 0 {
            line
        } else {
            line + "\n"@ + text::join(below, "\n"@)
        }),
{
    if below.len() == 0 {
        assert(seq![line] + below =~= seq![line]);
    } else {
        text::lemma_join_concat(seq![line], below, "\n"@);
        assert(text::join(seq![line], "\n"@) == line);
    }
}

/// The text in the editor is what stands before the cursor and then what stands behind it.
pub proof fn law_text_is_before_and_behind(editor: EditorView)
    requires
        editor.wf(),
    ensures
        editor.text() == editor.before() + editor.behind(),
{
    let above = editor.lines.take(editor.y);
    let line = editor.line();
    let below = editor.lines.skip(editor.y + 1);
    lemma_cut(above, line.take(editor.x));
    lemma_cut(above, line);
    lemma_cut_behind(line.skip(editor.x), below);
    lemma_cut_behind(line, below);
    assert(line.take(editor.x) + line.skip(editor.x) =~= line);
    assert(editor.lines =~= above + (seq![line] + below));
    if above.len() > 0 {
        text::lemma_join_concat(above, seq![line] + below, "\n"@);
    } else {
        assert(editor.lines =~= seq![line] + below);
    }
    assert(editor.text() =~= editor.before() + editor.behind());
}

/// A character that is typed and taken stands before the cursor then; nothing else changes.
pub proof fn law_insert(editor: EditorView, ch: char)
    requires
        editor.wf(),
        is_taken(ch),
    ensures
        editor.after_insert(ch).before() == editor.before().push(ch),
        editor.after_insert(ch).behind() == editor.behind(),
{
    let above = editor.lines.take(editor.y);
    let line = editor.line();
    let below = editor.lines.skip(editor.y + 1);
    let next = editor.after_insert(ch);
    lemma_cut(above, line.take(editor.x));
    if ch == '\n' {
        reveal_strlit("\n");
        assert(next.lines.take(next.y) =~= above.push(line.take(editor.x)));
        assert(next.line() =~= line.skip(editor.x));
        assert(next.line().take(0) =~= seq![]);
        assert(next.line().skip(0) =~= line.skip(editor.x));
        assert(next.lines.skip(next.y + 1) =~= below);
        lemma_cut(above.push(line.take(editor.x)), next.line().take(0));
        assert(next.before() =~= editor.before().push(ch));
    } else {
        assert(next.lines.take(next.y) =~= above);
        assert(next.line() == line.insert(editor.x, ch));
        assert(next.line().take(next.x) =~= line.take(editor.x).push(ch));
        assert(next.line().skip(next.x) =~= line.skip(editor.x));
        assert(next.lines.skip(next.y + 1) =~= below);
        lemma_cut(above, line.take(editor.x).push(ch));
        assert(next.before() =~= editor.before().push(ch));
    }
}

/// A step to the left takes the last character before the cursor behind it; at the start of the
/// text nothing changes.
pub proof fn law_move_left(editor: EditorView)
    requires
        editor.wf(),
    ensures
        editor.before().len() == 0 ==> editor.after_left() == editor,
        editor.before().len() > 0 ==> editor.after_left().before() == editor.before().drop_last(),
        editor.before().len() > 0 ==> editor.after_left().behind() == seq![editor.before().last()]
            + editor.behind(),
        editor.after_left().lines == editor.lines,
{
    reveal_strlit("\n");
    let above = editor.lines.take(editor.y);
    let line = editor.line();
    let below = editor.lines.skip(editor.y + 1);
    let next = editor.after_left();
    lemma_cut(above, line.take(editor.x));
    lemma_cut_behind(line.skip(editor.x), below);
    if editor.x > 0 {
        let ch = line[editor.x - 1];
        assert(line.take(editor.x) =~= line.take(editor.x - 1).push(ch));
        assert(line.skip(editor.x - 1) =~= seq![ch] + line.skip(editor.x));
        lemma_cut(above, line.take(editor.x - 1));
        lemma_cut_behind(line.skip(editor.x - 1), below);
        assert(editor.before() =~= next.before().push(ch));
        assert(next.before() =~= editor.before().drop_last());
        assert(next.behind() =~= seq![ch] + editor.behind());
    } else if editor.y > 0 {
        let up = editor.lines[editor.y - 1];
        let higher = editor.lines.take(editor.y - 1);
        assert(above =~= higher.push(up));
        assert(line.take(0) =~= seq![]);
        assert(line.skip(0) =~= line);
        assert(up.take(up.len() as int) =~= up);
        assert(up.skip(up.len() as int) =~= seq![]);
        lemma_cut(higher, up);
        let lower = editor.lines.skip(editor.y);
        assert(lower =~= seq![line] + below);
        lemma_cut_behind(up.skip(up.len() as int), lower);
        assert(editor.before() =~= next.before().push('\n'));
        assert(next.before() =~= editor.before().drop_last());
        assert(next.behind() =~= seq!['\n'] + editor.behind());
    } else {
        assert(line.take(0) =~= seq![]);
    }
}

/// A step to the right takes the first character behind the cursor before it; at the end of the
/// text nothing changes.
pub proof fn law_move_right(editor: EditorView)
    requires
        editor.wf(),
    ensures
        editor.behind().len() == 0 ==> editor.after_right() == editor,
        editor.behind().len() > 0 ==> editor.after_right().before() == editor.before().push(
            editor.behind().first(),
        ),
        editor.behind().len() > 0 ==> editor.after_right().behind() == editor.behind().drop_first(),
        editor.after_right().lines == editor.lines,
{
    reveal_strlit("\n");
    let line = editor.line();
    let below = editor.lines.skip(editor.y + 1);
    let next = editor.after_right();
    lemma_cut_behind(line.skip(editor.x), below);
    if editor.x < line.len() || editor.y + 1 < editor.lines.len() {
        assert(next.after_left() =~= editor);
        law_move_left(next);
        assert(next.before().len() > 0) by {
            if next.x > 0 {
                lemma_cut(next.lines.take(next.y), next.line().take(next.x));
            } else {
                lemma_cut(next.lines.take(next.y), next.line().take(0));
            }
        }
        assert(editor.behind() =~= seq![next.before().last()] + next.behind());
        assert(editor.behind().drop_first() =~= next.behind());
        assert(editor.before().push(next.before().last()) =~= next.before());
    }
}

/// Backspace removes the last character before the cursor, and nothing at the start of the text.
pub proof fn law_backspace(editor: EditorView)
    requires
        editor.wf(),
    ensures
        editor.before().len() == 0 ==> editor.after_backspace() == editor,
        editor.before().len() > 0 ==> editor.after_backspace().before()
            == editor.before().drop_last(),
        editor.after_backspace().behind() == editor.behind(),
{
    reveal_strlit("\n");
    let above = editor.lines.take(editor.y);
    let line = editor.line();
    let below = editor.lines.skip(editor.y + 1);
    let next = editor.after_backspace();
    lemma_cut(above, line.take(editor.x));
    if editor.x > 0 {
        let ch = line[editor.x - 1];
        assert(next.lines.take(next.y) =~= above);
        assert(next.lines.skip(next.y + 1) =~= below);
        assert(next.line().take(next.x) =~= line.take(editor.x - 1));
        assert(next.line().skip(next.x) =~= line.skip(editor.x));
        assert(line.take(editor.x) =~= line.take(editor.x - 1).push(ch));
        lemma_cut(above, line.take(editor.x - 1));
        assert(next.before() =~= editor.before().drop_last());
    } else if editor.y > 0 {
        let up = editor.lines[editor.y - 1];
        let higher = editor.lines.take(editor.y - 1);
        assert(above =~= higher.push(up));
        assert(line.take(0) =~= seq![]);
        assert(line.skip(0) =~= line);
        assert(next.lines.take(next.y) =~= higher);
        assert(next.line() == up + line);
        assert(next.line().take(next.x) =~= up);
        assert(next.line().skip(next.x) =~= line);
        assert(next.lines.skip(next.y + 1) =~= below);
        lemma_cut(higher, up);
        assert(editor.before() =~= next.before().push('\n'));
        assert(next.before() =~= editor.before().drop_last());
    } else {
        assert(line.take(0) =~= seq![]);
    }
}

/// Delete removes the first character behind the cursor, and nothing at the end of the text.
pub proof fn law_delete(editor: EditorView)
    requires
        editor.wf(),
    ensures
        editor.behind().len() == 0 ==> editor.after_delete() == editor,
        editor.behind().len() > 0 ==> editor.after_delete().behind() == editor.behind().drop_first(),
        editor.after_delete().before() == editor.before(),
{
    law_move_right(editor);
    let line = editor.line();
    let below = editor.lines.skip(editor.y + 1);
    lemma_cut_behind(line.skip(editor.x), below);
    if editor.x < line.len() || editor.y + 1 < editor.lines.len() {
        let next = editor.after_right();
        law_backspace(next);
        assert(next.after_left() =~= editor);
        law_move_left(next);
        assert(next.after_backspace() =~= editor.after_delete());
        assert(editor.before().push(editor.behind().first()).drop_last() =~= editor.before());
    }
}

/// Backspace undoes what typing a character that is taken did.
pub proof fn law_backspace_undoes_insert(editor: EditorView, ch: char)
    requires
        editor.wf(),
        is_taken(ch),
    ensures
        editor.after_insert(ch).after_backspace() == editor,
{
    let next = editor.after_insert(ch);
    let line = editor.line();
    if ch == '\n' {
        assert(line.take(editor.x) + line.skip(editor.x) =~= line);
        assert(next.after_backspace().lines =~= editor.lines);
    } else {
        assert(line.insert(editor.x, ch).remove(editor.x) =~= line);
        assert(next.after_backspace().lines =~= editor.lines);
    }
}

/// Moving the cursor does not change the text.
pub proof fn law_moves_keep_lines(editor: EditorView)
    ensures
        editor.after_left().lines == editor.lines,
        editor.after_right().lines == editor.lines,
        editor.after_up().lines == editor.lines,
        editor.after_down().lines == editor.lines,
        editor.after_home().lines == editor.lines,
        editor.after_end().lines == editor.lines,
{
}

/// An editor that is opened on a comment holds the text of the comment.
pub proof fn law_reopened_comment_text(
    target_lines: Seq<DiffLineView>,
    comment: comments::CommentView,
)
    ensures
        replacing_editor(target_lines, comment).text() == comment.text,
{
    reveal_strlit("\n");
    assert("\n"@ =~= seq!['\n']);
    text::lemma_join_split(comment.text, '\n');
}

/// An editor is opened with the cursor at the end of its text, for the lines that it is given.
pub proof fn law_opened_editors(target_lines: Seq<DiffLineView>, comment: comments::CommentView)
    ensures
        new_editor(target_lines).text().len() == 0,
        new_editor(target_lines).target_lines == target_lines,
        new_editor(target_lines).replacing_comment is None,
        replacing_editor(target_lines, comment).before() == comment.text,
        replacing_editor(target_lines, comment).behind().len() == 0,
        replacing_editor(target_lines, comment).target_lines == target_lines,
        replacing_editor(target_lines, comment).replacing_comment == Some(comment.created_at),
{
    let opened = replacing_editor(target_lines, comment);
    text::lemma_split_char_nonempty(comment.text, '\n');
    law_reopened_comment_text(target_lines, comment);
    law_text_is_before_and_behind(opened);
    let line = opened.line();
    let below = opened.lines.skip(opened.y + 1);
    lemma_cut_behind(line.skip(opened.x), below);
    assert(below.len() == 0);
    assert(line.skip(opened.x).len() == 0);
    assert(opened.before() + opened.behind() =~= opened.before());
}

/// Control characters other than a line feed and a tab are not typed.
pub proof fn law_control_characters_are_ignored(editor: EditorView, ch: char)
    requires
        !is_taken(ch),
    ensures
        editor.after_insert(ch) == editor,
{
}

} // verus!
