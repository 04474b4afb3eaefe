//! What keys and the mouse do.

use crate::app::{App, AppView};
use crate::editor::{EditorView, TextEditor};
use crate::events;
use crate::events::{Event, KeyCode, KeyEvent, KeyModifiers, MouseButton, MouseEvent, MouseEventKind};
use vstd::prelude::*;

verus! {

impl AppView {
    /// After a report on the mouse.
    pub open spec fn after_mouse(self, mouse: MouseEvent) -> AppView {
        match mouse.kind {
            MouseEventKind::ScrollUp => self.after_scroll(-3),
            MouseEventKind::ScrollDown => self.after_scroll(3),
            MouseEventKind::Down(MouseButton::Left) => match self.target_at(mouse.row) {
                Some(row) => AppView {
                    selected: Some(row),
                    anchor: Some(row),
                    drag: Some(row),
                    visual: true,
                    ..self
                }.visible(),
                None => self,
            },
            MouseEventKind::Drag(MouseButton::Left) => match (
                self.drag,
                self.target_at(mouse.row),
            ) {
                (Some(_), Some(row)) => AppView { selected: Some(row), ..self }.visible(),
                _ => self,
            },
            MouseEventKind::Up(MouseButton::Left) => if self.drag is Some {
                AppView { drag: None, ..self }.after_mouse_selection()
            } else {
                self
            },
            _ => self,
        }
    }

    /// After a character is typed while no comment is edited.
    pub open spec fn after_char(self, ch: char, modifiers: KeyModifiers) -> AppView {
        let page = self.body.height as int;
        if ch == 'q' || ch == 'Q' || (ch == 'c' && modifiers.control) {
            AppView { running: false, ..self }
        } else if ch == 'V' {
            if self.visual {
                self.after_exit_visual()
            } else {
                self.after_enter_visual()
            }
        } else if ch == 'J' {
            self.after_extend(1)
        } else if ch == 'K' {
            self.after_extend(-1)
        } else if ch == 'j' {
            self.after_step(1, false)
        } else if ch == 'k' {
            self.after_step(-1, false)
        } else if ch == 'f' || ch == 'F' {
            self.after_scroll(page)
        } else if ch == 'b' || ch == 'B' {
            self.after_scroll(-page)
        } else if ch == 'g' {
            self.after_edge(true)
        } else if ch == 'G' {
            self.after_edge(false)
        } else {
            self
        }
    }

    /// After a step of `delta` rows, which extends a range where there is one or one is asked for.
    pub open spec fn after_step(self, delta: int, extend: bool) -> AppView {
        if extend || self.visual {
            self.after_extend(delta)
        } else {
            self.after_move(delta)
        }
    }

    /// After a key while no comment is edited.
    pub open spec fn after_normal_key(self, key: KeyEvent) -> AppView {
        let page = self.body.height as int;
        match key.code {
            KeyCode::Esc => if self.visual {
                self.after_exit_visual()
            } else {
                AppView { running: false, ..self }
            },
            KeyCode::Char(ch) => self.after_char(ch, key.modifiers),
            KeyCode::Down => self.after_step(1, key.modifiers.shift),
            KeyCode::Up => self.after_step(-1, key.modifiers.shift),
            KeyCode::PageDown => self.after_scroll(page),
            KeyCode::PageUp => self.after_scroll(-page),
            KeyCode::Enter => self.after_start(),
            _ => self,
        }
    }

    /// After a report of the terminal while no comment is edited.
    pub open spec fn after_normal_event(self, event: Event) -> AppView {
        match event {
            Event::Key(key) => if events::is_action(key) {
                self.after_normal_key(key)
            } else {
                self
            },
            Event::Mouse(mouse) => self.after_mouse(mouse),
            Event::Other => self,
        }
    }
}

/// A report of the terminal asks for a reading of the diff, while no comment is edited.
pub open spec fn asks_refresh(event: Event) -> bool {
    match event {
        Event::Key(key) => events::is_action(key) && (key.code == KeyCode::Char('r') || key.code
            == KeyCode::Char('R')),
        _ => false,
    }
}

/// A key that edits the text in the editor does this to it; other keys do nothing.
pub open spec fn edited(editor: EditorView, key: KeyEvent) -> EditorView {
    let held = key.modifiers;
    match key.code {
        KeyCode::Enter => if held.shift || held.control {
            editor.after_newline()
        } else {
            editor
        },
        KeyCode::Char(ch) => if held.control && ch == 'j' {
            editor.after_newline()
        } else if held.control && ch == 'u' {
            editor.after_kill_line()
        } else if held.control && (ch == 'c' || ch == 'd') {
            editor
        } else {
            editor.after_insert(ch)
        },
        KeyCode::Backspace => editor.after_backspace(),
        KeyCode::Delete => editor.after_delete(),
        KeyCode::Left => editor.after_left(),
        KeyCode::Right => editor.after_right(),
        KeyCode::Up => editor.after_up(),
        KeyCode::Down => editor.after_down(),
        KeyCode::Home => editor.after_home(),
        KeyCode::End => editor.after_end(),
        KeyCode::Tab => editor.after_insert('\t'),
        _ => editor,
    }
}

/// The key closes the editor and takes what it holds: Enter alone, or Control with `d`.
pub open spec fn is_submit(key: KeyEvent) -> bool {
    let held = key.modifiers;
    (key.code == KeyCode::Enter && !held.shift && !held.control) || (key.code == KeyCode::Char('d')
        && held.control)
}

impl AppView {
    /// After a key while a comment is edited.
    pub open spec fn after_editor_key(self, key: KeyEvent) -> AppView {
        match self.editor {
            None => self,
            Some(editor) => if is_submit(key) {
                self.after_submit()
            } else if key.code == KeyCode::Char('c') && key.modifiers.control {
                AppView { running: false, ..self }
            } else if key.code == KeyCode::Esc {
                self.after_cancel()
            } else {
                AppView { editor: Some(edited(editor, key)), ..self }
            },
        }
    }

    /// After a report of the terminal.
    pub open spec fn after_event(self, event: Event) -> AppView {
        match (self.editor, event) {
            (None, _) => self.after_normal_event(event),
            (Some(_), Event::Key(key)) => if events::is_action(key) {
                self.after_editor_key(key)
            } else {
                self
            },
            _ => self,
        }
    }

    /// What a report of the terminal asks for.
    pub open spec fn asked(self, event: Event) -> ActionView {
        match (self.editor, event) {
            (None, _) => if asks_refresh(event) {
                ActionView::Refresh
            } else {
                ActionView::Nothing
            },
            (Some(_), Event::Key(key)) => if events::is_action(key) && is_submit(key) {
                match self.submitted() {
                    Some(payload) => ActionView::Copy(payload),
                    None => ActionView::Nothing,
                }
            } else {
                ActionView::Nothing
            },
            _ => ActionView::Nothing,
        }
    }
}

/// What is to be done after a report of the terminal.
#[derive(Debug, PartialEq, Eq)]
pub enum Action {
    Nothing,
    /// Read the diff and hand it to `App::refresh_diff`, forced.
    Refresh,
    /// Copy a text and hand the result to `App::finish_copy`.
    Copy(String),
}

/// The model of an `Action`.
#[verifier::ext_equal]
pub enum ActionView {
    Nothing,
    Refresh,
    Copy(Seq<char>),
}

impl View for Action {
    type V = ActionView;

    open spec fn view(&self) -> ActionView {
        match self {
            Action::Nothing => ActionView::Nothing,
            Action::Refresh => ActionView::Refresh,
            Action::Copy(text) => ActionView::Copy(text@),
        }
    }
}

impl App {
    /// Takes a report on the mouse while no comment is edited.
    fn handle_mouse(&mut self, mouse: MouseEvent)
        ensures
            final(self)@ == old(self)@.after_mouse(mouse),
    {
        let ghost before = self@;
        match mouse.kind {
            MouseEventKind::ScrollUp => self.scroll_by(-3),
            MouseEventKind::ScrollDown => self.scroll_by(3),
            MouseEventKind::Down(MouseButton::Left) => {
                if let Some(row) = self.target_at(mouse.row) {
                    self.selected_row = Some(row);
                    self.selection_anchor = Some(row);
                    self.mouse_drag_anchor = Some(row);
                    self.visual_mode = true;
                    assert(self@ =~= AppView {
                        selected: Some(row as int),
                        anchor: Some(row as int),
                        drag: Some(row as int),
                        visual: true,
                        ..before
                    });
                    self.ensure_selection_visible();
                }
            },
            MouseEventKind::Drag(MouseButton::Left) => {
                if self.mouse_drag_anchor.is_some() {
                    if let Some(row) = self.target_at(mouse.row) {
                        self.selected_row = Some(row);
                        assert(self@ =~= AppView { selected: Some(row as int), ..before });
                        self.ensure_selection_visible();
                    }
                }
            },
            MouseEventKind::Up(MouseButton::Left) => {
                if self.mouse_drag_anchor.is_some() {
                    self.mouse_drag_anchor = None;
                    assert(self@ =~= AppView { drag: None, ..before });
                    self.finish_mouse_selection();
                }
            },
            _ => {},
        }
    }

    /// Moves the selection, or extends a range where there is one or one is asked for.
    fn step(&mut self, delta: isize, extend: bool)
        ensures
            final(self)@ == old(self)@.after_step(delta as int, extend),
    {
        if extend || self.visual_mode {
            self.extend_selection(delta)
        } else {
            self.move_selection(delta)
        }
    }

    /// Ends the program.
    fn quit(&mut self)
        ensures
            final(self)@ == (AppView { running: false, ..old(self)@ }),
    {
        self.running = false;
    }

    /// Takes a key while no comment is edited.
    pub fn handle_normal_key(&mut self, key: KeyEvent) -> (action: Action)
        ensures
            final(self)@ == old(self)@.after_normal_key(key),
            action@ == (if key.code == KeyCode::Char('r') || key.code == KeyCode::Char('R') {
                ActionView::Refresh
            } else {
                ActionView::Nothing
            }),
    {
        let page = self.last_body.height as isize;
        match key.code {
            KeyCode::Esc => {
                if self.visual_mode {
                    self.exit_visual_mode();
                } else {
                    self.quit();
                }
            },
            KeyCode::Char(ch) => match ch {
                'q' | 'Q' => self.quit(),
                'c' => {
                    if key.modifiers.control {
                        self.quit();
                    }
                },
                'V' => {
                    if self.visual_mode {
                        self.exit_visual_mode();
                    } else {
                        self.enter_visual_mode();
                    }
                },
                'J' => self.extend_selection(1),
                'K' => self.extend_selection(-1),
                'j' => self.step(1, false),
                'k' => self.step(-1, false),
                'f' | 'F' => self.scroll_by(page),
                'b' | 'B' => self.scroll_by(-page),
                'g' => self.select_edge(true),
                'G' => self.select_edge(false),
                'r' | 'R' => return Action::Refresh,
                _ => {},
            },
            KeyCode::Down => self.step(1, key.modifiers.shift),
            KeyCode::Up => self.step(-1, key.modifiers.shift),
            KeyCode::PageDown => self.scroll_by(page),
            KeyCode::PageUp => self.scroll_by(-page),
            KeyCode::Enter => self.start_comment(),
            _ => {},
        }
        Action::Nothing
    }

    /// Takes a report of the terminal while no comment is edited.
    pub fn handle_normal_event(&mut self, event: Event) -> (action: Action)
        ensures
            final(self)@ == old(self)@.after_normal_event(event),
            action@ == (if asks_refresh(event) {
                ActionView::Refresh
            } else {
                ActionView::Nothing
            }),
    {
        match event {
            Event::Key(key) => {
                if events::is_key_action(key) {
                    return self.handle_normal_key(key);
                }
            },
            Event::Mouse(mouse) => self.handle_mouse(mouse),
            Event::Other => {},
        }
        Action::Nothing
    }

    /// Edits the text in the editor.
    fn edit(editor: &mut TextEditor, key: KeyEvent)
        requires
            old(editor)@.wf(),
        ensures
            final(editor)@ == edited(old(editor)@, key),
            final(editor)@.wf(),
    {
        let held = key.modifiers;
        match key.code {
            KeyCode::Enter => {
                if held.shift || held.control {
                    editor.newline();
                }
            },
            KeyCode::Char(ch) => {
                if held.control && ch == 'j' {
                    editor.newline();
                } else if held.control && ch == 'u' {
                    editor.kill_line();
                } else if !(held.control && (ch == 'c' || ch == 'd')) {
                    editor.insert_char(ch);
                }
            },
            KeyCode::Backspace => editor.backspace(),
            KeyCode::Delete => editor.delete(),
            KeyCode::Left => editor.move_left(),
            KeyCode::Right => editor.move_right(),
            KeyCode::Up => editor.move_up(),
            KeyCode::Down => editor.move_down(),
            KeyCode::Home => editor.home(),
            KeyCode::End => editor.end(),
            KeyCode::Tab => editor.insert_char('\t'),
            _ => {},
        }
    }

    /// Takes a key while a comment is edited.
    pub fn handle_editor_key(&mut self, key: KeyEvent) -> (action: Action)
        requires
            old(self)@.wf(),
            old(self)@.submitted() is Some && is_submit(key) ==> old(self).comment_counter
                < u64::MAX,
        ensures
            final(self)@ == old(self)@.after_editor_key(key),
            action@ == (match old(self)@.submitted() {
                Some(payload) => if is_submit(key) {
                    ActionView::Copy(payload)
                } else {
                    ActionView::Nothing
                },
                None => ActionView::Nothing,
            }),
    {
        let ghost before = self@;
        let held = key.modifiers;
        let submit = match key.code {
            KeyCode::Enter => !held.shift && !held.control,
            KeyCode::Char('d') => held.control,
            _ => false,
        };
        assert(submit == is_submit(key));
        if self.editor.is_none() {
            return Action::Nothing;
        }
        if submit {
            return match self.submit_comment() {
                Some(payload) => Action::Copy(payload),
                None => Action::Nothing,
            };
        }
        match key.code {
            KeyCode::Esc => {
                self.cancel_comment();
                return Action::Nothing;
            },
            KeyCode::Char('c') => {
                if held.control {
                    self.quit();
                    return Action::Nothing;
                }
            },
            _ => {},
        }
        if let Some(mut editor) = self.editor.take() {
            Self::edit(&mut editor, key);
            self.editor = Some(editor);
        }
        assert(self@ =~= before.after_editor_key(key));
        Action::Nothing
    }

    /// Takes a report of the terminal while a comment is edited.
    pub fn handle_editor_event(&mut self, event: Event) -> (action: Action)
        requires
            old(self)@.wf(),
            match event {
                Event::Key(key) => events::is_action(key) && is_submit(key)
                    && old(self)@.submitted() is Some ==> old(self).comment_counter < u64::MAX,
                _ => true,
            },
        ensures
            match event {
                Event::Key(key) => if events::is_action(key) {
                    &&& final(self)@ == old(self)@.after_editor_key(key)
                    &&& action@ == match old(self)@.submitted() {
                        Some(payload) => if is_submit(key) {
                            ActionView::Copy(payload)
                        } else {
                            ActionView::Nothing
                        },
                        None => ActionView::Nothing,
                    }
                } else {
                    final(self)@ == old(self)@ && action is Nothing
                },
                _ => final(self)@ == old(self)@ && action is Nothing,
            },
    {
        if let Event::Key(key) = event {
            if events::is_key_action(key) {
                return self.handle_editor_key(key);
            }
        }
        Action::Nothing
    }

    /// Takes a report of the terminal.
    pub fn handle_event(&mut self, event: Event) -> (action: Action)
        requires
            old(self)@.wf(),
            old(self)@.asked(event) is Copy ==> old(self).comment_counter < u64::MAX,
        ensures
            final(self)@ == old(self)@.after_event(event),
            action@ == old(self)@.asked(event),
    {
        if self.editor.is_some() {
            self.handle_editor_event(event)
        } else {
            self.handle_normal_event(event)
        }
    }

    /// Whether the diff is to be read again: when that is due, but not while a comment is edited.
    pub fn is_refresh_due(&self, due: bool) -> (result: bool)
        ensures
            result == (due && self@.editor is None),
    {
        self.editor.is_none() && due
    }
}

} // verus!
