//! Opening the editor and taking comments.

use crate::app;
use crate::app::{App, AppView};
use crate::clipboard::ClipboardResult;
use crate::comments;
use crate::comments::{CommentView, InlineComment};
use crate::diff_parser;
use crate::diff_parser::{DiffLine, DiffLineView};
use crate::editor;
use crate::editor::TextEditor;
use crate::payload;
use crate::text;
use vstd::prelude::*;

verus! {

impl AppView {
    /// After an editor is opened: on the selected comment, or else for a comment on the selected
    /// lines.
    pub open spec fn after_start(self) -> AppView {
        let (intro, lines) = match self.comment_for_edit() {
            Some(comment) => ("Editing comment on "@, comment.target_lines),
            None => ("Commenting on "@, self.selection_lines()),
        };
        if lines.len() == 0 {
            AppView { status: "No diff line selected."@, ..self }
        } else {
            AppView {
                status: intro + payload::file_name(lines[0]) + ": "@ + app::selection_text(lines),
                editor: Some(
                    match self.comment_for_edit() {
                        Some(comment) => editor::replacing_editor(lines, comment),
                        None => editor::new_editor(lines),
                    },
                ),
                ..self
            }
        }
    }

    /// After a range was selected with the mouse.
    pub open spec fn after_mouse_selection(self) -> AppView {
        let lines = self.selection_lines();
        if lines.len() == 0 {
            let none = AppView { anchor: None, visual: false, ..self };
            AppView {
                status: if none.comment_for_edit() is Some {
                    "Comment selected. Press Enter to edit it."@
                } else {
                    "No diff line selected."@
                },
                ..none
            }
        } else if lines.len() > 1 {
            AppView { visual: true, ..self }.after_start()
        } else {
            AppView { anchor: None, ..AppView { visual: false, ..self }.after_start() }
        }
    }
}

impl App {
    /// Opens an editor: on the selected comment, or else for a comment on the selected lines.
    pub fn start_comment(&mut self)
        ensures
            final(self)@ == old(self)@.after_start(),
    {
        let ghost before = self@;
        let comment = match self.selected_comment_for_edit() {
            Some(comment) => Some(comment.clone()),
            None => None,
        };
        let (mut status, target_lines) = match &comment {
            Some(comment) => (
                "Editing comment on ".to_string(),
                diff_parser::copy_lines(comment.target_lines.as_slice()),
            ),
            None => ("Commenting on ".to_string(), self.current_selection_lines()),
        };
        let ghost lines = diff_parser::line_views(target_lines@);
        if target_lines.len() == 0 {
            self.status = "No diff line selected.".to_string();
            assert(self@ =~= before.after_start());
            return;
        }
        payload::push_file_name(&mut status, &target_lines[0]);
        status.push_str(": ");
        status.push_str(app::describe_selection(target_lines.as_slice()).as_str());
        assert(lines[0] == target_lines@[0]@);
        self.status = status;
        self.editor =
        Some(
            match &comment {
                Some(comment) => TextEditor::replacing(target_lines, comment),
                None => TextEditor::new(target_lines),
            },
        );
        assert(self@ =~= before.after_start());
    }

    /// Ends a selection with the mouse.
    pub fn finish_mouse_selection(&mut self)
        ensures
            final(self)@ == old(self)@.after_mouse_selection(),
    {
        let ghost before = self@;
        let target_lines = self.current_selection_lines();
        assert(diff_parser::line_views(target_lines@).len() == target_lines@.len());
        if target_lines.len() == 0 {
            self.selection_anchor = None;
            self.visual_mode = false;
            assert(self@ =~= AppView { anchor: None, visual: false, ..before });
            self.status =
            if self.selected_comment_for_edit().is_some() {
                "Comment selected. Press Enter to edit it.".to_string()
            } else {
                "No diff line selected.".to_string()
            };
            assert(self@ =~= before.after_mouse_selection());
            return;
        }
        let multi_line = target_lines.len() > 1;
        self.visual_mode = multi_line;
        assert(self@ =~= AppView { visual: multi_line, ..before });
        self.start_comment();
        if !multi_line {
            self.selection_anchor = None;
        }
        assert(self@ =~= before.after_mouse_selection());
    }
}

impl AppView {
    /// The editor, if there is one, is well formed.
    pub open spec fn wf(self) -> bool {
        self.editor matches Some(editor) ==> editor.wf()
    }

    /// With a comment added under `id`, in the place of the one that was created at `replacing`.
    pub open spec fn with_comment(
        self,
        id: Seq<char>,
        target_lines: Seq<DiffLineView>,
        comment: Seq<char>,
        replacing: Option<u64>,
    ) -> AppView {
        let store = match replacing {
            Some(created_at) => comments::store_without(self.comments, created_at),
            None => self.comments,
        };
        let counter = (self.counter + 1) as u64;
        AppView {
            comments: store.insert(
                id,
                comments::comments_under(store, id).push(
                    CommentView { target_lines, text: comment, created_at: counter },
                ),
            ),
            counter,
            ..self
        }
    }

    /// After the editor is closed with what it holds taken as a comment.
    pub open spec fn after_submit(self) -> AppView {
        match self.editor {
            None => self,
            Some(editor) => {
                let closed = AppView { editor: None, ..self };
                let lines = editor.target_lines;
                if text::trim(editor.text()).len() == 0 {
                    AppView { status: "Empty comment cancelled."@, ..closed }
                } else if lines.len() == 0 {
                    AppView { status: "No diff line selected."@, ..closed }
                } else {
                    let id = lines.last().id();
                    closed.with_comment(
                        id,
                        lines,
                        text::trim_end(editor.text()),
                        editor.replacing_comment,
                    ).rebuilt().restored(Some(id))
                }
            },
        }
    }

    /// The text that is to be copied when the editor is closed: none where it holds no comment.
    pub open spec fn submitted(self) -> Option<Seq<char>> {
        match self.editor {
            None => None,
            Some(editor) => if text::trim(editor.text()).len() == 0 || editor.target_lines.len()
                == 0 {
                None
            } else {
                Some(
                    payload::review_payload(
                        self.parsed,
                        editor.target_lines,
                        editor.text(),
                        self.config.max_copy_lines as int,
                    ),
                )
            },
        }
    }

    /// After the editor is closed without taking what it holds.
    pub open spec fn after_cancel(self) -> AppView {
        AppView {
            editor: None,
            status: if self.visual {
                "Comment cancelled. Still in visual mode."@
            } else {
                "Comment cancelled."@
            },
            ..self
        }
    }

    /// After a text was copied.
    pub open spec fn after_copy(self, message: Seq<char>) -> AppView {
        AppView { status: message, ..self }
    }
}

impl App {
    /// Removes the comment that was created at `created_at`.
    pub fn remove_inline_comment(&mut self, created_at: u64)
        ensures
            final(self)@ == (AppView {
                comments: comments::store_without(old(self)@.comments, created_at),
                ..old(self)@
            }),
    {
        self.comments.remove(created_at);
    }

    /// Adds a comment under `target_id`, in the place of the one that was created at
    /// `replacing_comment`.
    pub fn add_inline_comment(
        &mut self,
        target_id: String,
        target_lines: Vec<DiffLine>,
        comment: String,
        replacing_comment: Option<u64>,
    )
        requires
            old(self).comment_counter < u64::MAX,
        ensures
            final(self)@ == old(self)@.with_comment(
                target_id@,
                diff_parser::line_views(target_lines@),
                comment@,
                replacing_comment,
            ),
    {
        if let Some(created_at) = replacing_comment {
            self.remove_inline_comment(created_at);
        }
        self.comment_counter = self.comment_counter + 1;
        let created_at = self.comment_counter;
        self.comments.push(target_id, InlineComment { target_lines, text: comment, created_at });
    }

    /// Closes the editor and takes what it holds as a comment. What is returned is to be copied;
    /// what came of that is reported to `finish_copy`.
    pub fn submit_comment(&mut self) -> (payload: Option<String>)
        requires
            old(self)@.wf(),
            old(self)@.submitted() is Some ==> old(self).comment_counter < u64::MAX,
        ensures
            final(self)@ == old(self)@.after_submit(),
            diff_parser::opt_text(payload) == old(self)@.submitted(),
    {
        let ghost before = self@;
        let editor = match self.editor.take() {
            Some(editor) => editor,
            None => {
                assert(self@ =~= before);
                return None;
            },
        };
        let comment_text = editor.text();
        let chars = text::chars_of(comment_text.as_str());
        if text::trim_chars(chars.as_slice()).len() == 0 {
            self.status = "Empty comment cancelled.".to_string();
            assert(self@ =~= before.after_submit());
            return None;
        }
        let replacing = editor.replacing_comment;
        let target_lines = editor.target_lines;
        let ghost lines = diff_parser::line_views(target_lines@);
        if target_lines.len() == 0 {
            self.status = "No diff line selected.".to_string();
            assert(self@ =~= before.after_submit());
            return None;
        }
        let payload = payload::build_review_payload(
            &self.parsed,
            target_lines.as_slice(),
            comment_text.as_str(),
            self.config.max_copy_lines,
        );
        assert(lines.last() == target_lines@.last()@);
        let target_id = target_lines[target_lines.len() - 1].stable_id();
        let comment = text::string_of(text::trim_end_chars(chars.as_slice()));
        assert(self@ =~= AppView { editor: None, ..before });
        self.add_inline_comment(target_id.clone(), target_lines, comment, replacing);
        self.rebuild_rows();
        self.restore_selection(Some(target_id.as_str()));
        Some(payload)
    }

    /// Says what came of copying a text.
    pub fn finish_copy(&mut self, result: ClipboardResult)
        ensures
            final(self)@ == old(self)@.after_copy(result.message@),
    {
        self.status = result.message;
        assert(self@ =~= old(self)@.after_copy(result.message@));
    }

    /// Closes the editor without taking what it holds.
    pub fn cancel_comment(&mut self)
        ensures
            final(self)@ == old(self)@.after_cancel(),
    {
        self.editor = None;
        self.status =
        if self.visual_mode {
            "Comment cancelled. Still in visual mode.".to_string()
        } else {
            "Comment cancelled.".to_string()
        };
        assert(self@ =~= old(self)@.after_cancel());
    }
}

} // verus!
