use diffmark::app::{App, AppConfig, Area, RenderRow};
use diffmark::clipboard::ClipboardResult;
use diffmark::comments::InlineComment;
use diffmark::control::Action;
use diffmark::diff_parser::{parse_unified_diff, DiffLine, ParsedDiff};
use diffmark::events::{
    Event, KeyCode, KeyEvent, KeyEventKind, KeyModifiers, MouseButton, MouseEvent, MouseEventKind,
};
use diffmark::git_diff::{DiffOptions, GitDiffResult};
use diffmark::settings::{argument_error, config_of, Arguments};
use std::time::Duration;

fn test_app() -> App {
    App::new(AppConfig {
        diff: DiffOptions {
            context: 3,
            include_untracked: true,
            max_untracked_bytes: 1024 * 1024,
            pathspecs: Vec::new(),
        },
        refresh_interval: Duration::from_secs(1),
        max_copy_lines: 11,
        allow_osc52: false,
    })
}

fn sample_diff() -> ParsedDiff {
    parse_unified_diff(SAMPLE)
}

const SAMPLE: &str = "diff --git a/src/lib.rs b/src/lib.rs\n\
--- a/src/lib.rs\n\
+++ b/src/lib.rs\n\
@@ -1,2 +1,2 @@\n\
-old\n\
+new\n";

const NONE: KeyModifiers = KeyModifiers {
    shift: false,
    control: false,
};

const SHIFT: KeyModifiers = KeyModifiers {
    shift: true,
    control: false,
};

const CONTROL: KeyModifiers = KeyModifiers {
    shift: false,
    control: true,
};

fn key_event(code: KeyCode, modifiers: KeyModifiers, kind: KeyEventKind) -> Event {
    Event::Key(KeyEvent {
        code,
        modifiers,
        kind,
    })
}

fn press(app: &mut App, code: KeyCode) -> Action {
    app.handle_event(key_event(code, NONE, KeyEventKind::Press))
}

fn mouse(app: &mut App, kind: MouseEventKind, row: u16) -> Action {
    app.handle_event(Event::Mouse(MouseEvent { kind, row }))
}

fn read(text: &str) -> GitDiffResult {
    GitDiffResult {
        text: text.to_string(),
        error: None,
    }
}

fn loaded_app(text: &str) -> App {
    let mut app = test_app();
    app.last_body = body(10);
    app.refresh_diff(true, read(text));
    app
}

fn long_diff(count: usize) -> String {
    let mut text = "diff --git a/x b/x\n--- a/x\n+++ b/x\n@@ -0,0 +1 @@\n".to_string();
    for i in 0..count {
        text.push_str(&format!("+line {i}\n"));
    }
    text
}

fn body(height: u16) -> Area {
    Area {
        x: 0,
        y: 2,
        width: 80,
        height,
    }
}

fn raws(lines: &[DiffLine]) -> Vec<&str> {
    lines.iter().map(|line| line.raw.as_str()).collect()
}

#[test]
fn selecting_comment_row_reopens_prefilled_editor() {
    let mut app = test_app();
    app.parsed = sample_diff();
    let target = app
        .parsed
        .lines
        .iter()
        .find(|line| line.raw == "+new")
        .unwrap()
        .clone();
    app.comments.push(
        target.stable_id(),
        InlineComment {
            target_lines: vec![target.clone()],
            text: "keep this\nand this".to_string(),
            created_at: 1,
        },
    );
    app.rebuild_rows();

    let comment_row = app
        .rows
        .iter()
        .position(|row| matches!(row, RenderRow::Comment(_)))
        .unwrap();
    app.selected_row = Some(comment_row);

    assert!(app.row_selectable(&app.rows[comment_row]));
    app.start_comment();

    let editor = app.editor.as_ref().unwrap();
    assert_eq!(editor.target_lines, vec![target]);
    assert_eq!(editor.replacing_comment, Some(1));
    assert_eq!(editor.lines, vec!["keep this", "and this"]);
    assert_eq!(editor.cursor_y, 1);
    assert_eq!(editor.cursor_x, "and this".len());
}

#[test]
fn editing_comment_hides_original_row_until_cancelled() {
    let mut app = test_app();
    app.parsed = sample_diff();
    let target = app
        .parsed
        .lines
        .iter()
        .find(|line| line.raw == "+new")
        .unwrap()
        .clone();
    let target_id = target.stable_id();
    app.comments.push(
        target_id.clone(),
        InlineComment {
            target_lines: vec![target],
            text: "old comment".to_string(),
            created_at: 1,
        },
    );
    app.rebuild_rows();

    let comment_row = app
        .rows
        .iter()
        .position(|row| matches!(row, RenderRow::Comment(_)))
        .unwrap();
    app.selected_row = Some(comment_row);
    app.start_comment();

    let editor = app.editor.as_ref().unwrap();
    assert!(app
        .render_row_line_with_editor(comment_row, editor)
        .is_none());
    assert_eq!(app.comments.get(&target_id).unwrap().len(), 1);

    app.editor = None;
    assert!(app.render_row_line(comment_row).is_some());
    assert_eq!(app.comments.get(&target_id).unwrap().len(), 1);
}

#[test]
fn edited_comment_replaces_original_inline_row() {
    let mut app = test_app();
    app.parsed = sample_diff();
    let target = app
        .parsed
        .lines
        .iter()
        .find(|line| line.raw == "+new")
        .unwrap()
        .clone();
    let target_id = target.stable_id();
    app.comments.push(
        target_id.clone(),
        InlineComment {
            target_lines: vec![target.clone()],
            text: "old comment".to_string(),
            created_at: 7,
        },
    );

    app.add_inline_comment(
        target_id.clone(),
        vec![target],
        "new comment".to_string(),
        Some(7),
    );

    let comments = app.comments.get(&target_id).unwrap();
    assert_eq!(comments.len(), 1);
    assert_eq!(comments[0].text, "new comment");
    assert_ne!(comments[0].created_at, 7);
}

#[test]
fn visual_selection_ignores_comment_rows() {
    let mut app = test_app();
    app.parsed = parse_unified_diff(
        "diff --git a/src/lib.rs b/src/lib.rs\n\
--- a/src/lib.rs\n\
+++ b/src/lib.rs\n\
@@ -1,2 +1,2 @@\n\
+first\n\
+second\n",
    );
    let first = app
        .parsed
        .lines
        .iter()
        .find(|line| line.raw == "+first")
        .unwrap()
        .clone();
    app.comments.push(
        first.stable_id(),
        InlineComment {
            target_lines: vec![first],
            text: "old comment".to_string(),
            created_at: 1,
        },
    );
    app.rebuild_rows();

    let first_row = app
        .rows
        .iter()
        .position(
            |row| matches!(row, RenderRow::Diff(index) if app.parsed.lines[*index].raw == "+first"),
        )
        .unwrap();
    let second_row = app
        .rows
        .iter()
        .position(
            |row| matches!(row, RenderRow::Diff(index) if app.parsed.lines[*index].raw == "+second"),
        )
        .unwrap();
    app.selection_anchor = Some(first_row);
    app.selected_row = Some(second_row);
    app.visual_mode = true;

    let selected: Vec<_> = app
        .current_selection_lines()
        .into_iter()
        .map(|line| line.raw)
        .collect();

    assert_eq!(selected, vec!["+first", "+second"]);
    app.start_comment();
    let editor = app.editor.as_ref().unwrap();
    assert_eq!(editor.lines, vec![""]);
    assert_eq!(editor.target_lines.len(), 2);
}

#[test]
fn key_release_events_are_ignored() {
    let mut app = test_app();
    app.parsed = sample_diff();
    app.rebuild_rows();
    app.selected_row = app.selectable_indices().first().copied();

    app.handle_normal_event(key_event(KeyCode::Enter, NONE, KeyEventKind::Release));
    assert!(app.editor.is_none());

    app.start_comment();
    assert!(app.editor.is_some());
    app.handle_editor_event(key_event(KeyCode::Esc, NONE, KeyEventKind::Release));
    assert!(app.editor.is_some());
    assert!(app.running);
}

#[test]
fn a_new_program_waits_for_the_diff() {
    let app = test_app();
    assert_eq!(app.status, "Loading diff...");
    assert!(app.running);
    assert!(app.rows.is_empty());
    assert_eq!(app.selected_row, None);
}

#[test]
fn refresh_reports_what_was_read() {
    let mut app = loaded_app(SAMPLE);
    assert_eq!(app.status, "Loaded 1 hunks, 2 selectable lines.");
    assert_eq!(app.selected_row, Some(4));
    app.refresh_diff(false, read(" \n"));
    assert_eq!(app.status, "No uncommitted tracked diff. Waiting for changes...");
    assert_eq!(app.selected_row, None);
    app.refresh_diff(
        false,
        GitDiffResult {
            text: String::new(),
            error: Some("broken".to_string()),
        },
    );
    assert_eq!(app.status, "broken");
    assert_eq!(app.error.as_deref(), Some("broken"));
}

#[test]
fn the_same_diff_changes_nothing_unless_forced() {
    let mut app = loaded_app(SAMPLE);
    app.status = "kept".to_string();
    app.visual_mode = true;
    app.refresh_diff(false, read(SAMPLE));
    assert_eq!(app.status, "kept");
    assert!(app.visual_mode);
    app.refresh_diff(true, read(SAMPLE));
    assert_eq!(app.status, "Loaded 1 hunks, 2 selectable lines.");
    assert!(!app.visual_mode);
}

#[test]
fn refresh_keeps_the_selected_line() {
    let mut app = loaded_app(SAMPLE);
    press(&mut app, KeyCode::Char('j'));
    assert_eq!(app.selected_row, Some(5));
    let more = format!("noise\n{SAMPLE}");
    app.refresh_diff(false, read(&more));
    assert_eq!(app.selected_row, Some(6));
    assert_eq!(raws(&app.current_selection_lines()), vec!["+new"]);
}

#[test]
fn typing_and_submitting_a_comment() {
    let mut app = loaded_app(SAMPLE);
    press(&mut app, KeyCode::Char('G'));
    press(&mut app, KeyCode::Enter);
    assert_eq!(app.status, "Commenting on src/lib.rs: added line new:1");
    for ch in "why?".chars() {
        press(&mut app, KeyCode::Char(ch));
    }
    app.handle_event(key_event(KeyCode::Char('j'), CONTROL, KeyEventKind::Press));
    press(&mut app, KeyCode::Char('x'));
    press(&mut app, KeyCode::Tab);
    let action = press(&mut app, KeyCode::Enter);
    assert_eq!(
        action,
        Action::Copy(
            "File: src/lib.rs\nMy comment at line 1\n\n@@ -1,2 +1,2 @@\n-old\n>> target:\n+new\n>> comment:\n>> why?\n>> x\n"
                .to_string()
        )
    );
    assert!(app.editor.is_none());
    assert_eq!(app.rows.len(), 7);
    let comments = app.comments.get(&app.parsed.lines[5].stable_id()).unwrap();
    assert_eq!(comments[0].text, "why?\nx");
    assert_eq!(comments[0].created_at, 1);
    assert_eq!(app.selected_row, Some(5));
    app.finish_copy(ClipboardResult {
        ok: true,
        message: "copied".to_string(),
    });
    assert_eq!(app.status, "copied");
}

#[test]
fn an_edited_comment_takes_the_place_of_the_old_one() {
    let mut app = loaded_app(SAMPLE);
    press(&mut app, KeyCode::Enter);
    press(&mut app, KeyCode::Char('a'));
    press(&mut app, KeyCode::Enter);
    assert_eq!(app.rows.len(), 7);
    press(&mut app, KeyCode::Char('j'));
    assert!(matches!(app.rows[app.selected_row.unwrap()], RenderRow::Comment(_)));
    press(&mut app, KeyCode::Enter);
    assert_eq!(app.status, "Editing comment on src/lib.rs: deleted line old:1");
    press(&mut app, KeyCode::Char('b'));
    press(&mut app, KeyCode::Enter);
    assert_eq!(app.rows.len(), 7);
    let id = app.parsed.lines[4].stable_id();
    let comments = app.comments.get(&id).unwrap();
    assert_eq!(comments.len(), 1);
    assert_eq!(comments[0].text, "ab");
    assert_eq!(comments[0].created_at, 2);
}

#[test]
fn empty_and_cancelled_comments_are_dropped() {
    let mut app = loaded_app(SAMPLE);
    press(&mut app, KeyCode::Enter);
    press(&mut app, KeyCode::Char(' '));
    assert_eq!(press(&mut app, KeyCode::Enter), Action::Nothing);
    assert_eq!(app.status, "Empty comment cancelled.");
    assert_eq!(app.rows.len(), 6);
    press(&mut app, KeyCode::Enter);
    press(&mut app, KeyCode::Esc);
    assert_eq!(app.status, "Comment cancelled.");
    press(&mut app, KeyCode::Char('V'));
    press(&mut app, KeyCode::Enter);
    press(&mut app, KeyCode::Esc);
    assert_eq!(app.status, "Comment cancelled. Still in visual mode.");
    assert!(app.visual_mode);
}

#[test]
fn ranges_are_selected_with_keys() {
    let mut app = loaded_app(&long_diff(5));
    app.handle_event(key_event(KeyCode::Down, SHIFT, KeyEventKind::Press));
    press(&mut app, KeyCode::Char('J'));
    assert_eq!(
        raws(&app.current_selection_lines()),
        vec!["+line 0", "+line 1", "+line 2"]
    );
    assert!(app.is_row_selected(4) && app.is_row_selected(6) && !app.is_row_selected(7));
    press(&mut app, KeyCode::Char('K'));
    press(&mut app, KeyCode::Char('k'));
    app.handle_event(key_event(KeyCode::Up, SHIFT, KeyEventKind::Press));
    assert_eq!(raws(&app.current_selection_lines()), vec!["+line 0"]);
    press(&mut app, KeyCode::Char('V'));
    assert_eq!(app.status, "Visual mode cancelled.");
    assert!(!app.visual_mode);
    press(&mut app, KeyCode::Char('V'));
    assert_eq!(
        app.status,
        "Visual mode. Use j/k to extend, Enter to comment, Esc to cancel."
    );
    press(&mut app, KeyCode::Esc);
    assert!(app.running && !app.visual_mode);
    press(&mut app, KeyCode::Esc);
    assert!(!app.running);
}

#[test]
fn moves_stop_at_the_ends() {
    let mut app = loaded_app(&long_diff(3));
    press(&mut app, KeyCode::Char('k'));
    assert_eq!(app.selected_row, Some(4));
    press(&mut app, KeyCode::Char('G'));
    assert_eq!(app.selected_row, Some(6));
    press(&mut app, KeyCode::Down);
    assert_eq!(app.selected_row, Some(6));
    press(&mut app, KeyCode::Char('g'));
    assert_eq!(app.selected_row, Some(4));
}

#[test]
fn keys_that_quit_and_refresh() {
    let mut app = loaded_app(SAMPLE);
    assert_eq!(press(&mut app, KeyCode::Char('r')), Action::Refresh);
    assert_eq!(press(&mut app, KeyCode::Char('R')), Action::Refresh);
    assert_eq!(press(&mut app, KeyCode::Char('c')), Action::Nothing);
    assert!(app.running);
    app.handle_event(key_event(KeyCode::Char('c'), CONTROL, KeyEventKind::Repeat));
    assert!(!app.running);
    let mut app = loaded_app(SAMPLE);
    press(&mut app, KeyCode::Char('Q'));
    assert!(!app.running);
    let mut app = loaded_app(SAMPLE);
    press(&mut app, KeyCode::Enter);
    press(&mut app, KeyCode::Char('q'));
    assert!(app.running);
    assert_eq!(app.editor.as_ref().unwrap().text(), "q");
    app.handle_event(key_event(KeyCode::Char('c'), CONTROL, KeyEventKind::Press));
    assert!(!app.running);
}

#[test]
fn control_keys_in_the_editor() {
    let mut app = loaded_app(SAMPLE);
    press(&mut app, KeyCode::Enter);
    press(&mut app, KeyCode::Char('a'));
    app.handle_event(key_event(KeyCode::Enter, SHIFT, KeyEventKind::Press));
    press(&mut app, KeyCode::Char('b'));
    app.handle_event(key_event(KeyCode::Char('u'), CONTROL, KeyEventKind::Press));
    assert_eq!(app.editor.as_ref().unwrap().lines, vec!["a", ""]);
    let action = app.handle_event(key_event(KeyCode::Char('d'), CONTROL, KeyEventKind::Press));
    assert!(matches!(action, Action::Copy(_)));
    assert!(app.editor.is_none());
}

#[test]
fn before_the_first_screen_the_selected_row_comes_first() {
    let mut app = test_app();
    app.refresh_diff(true, read(&long_diff(30)));
    assert_eq!((app.scroll, app.selected_row), (4, Some(4)));
}

#[test]
fn scrolling_moves_the_selection_along() {
    let mut app = loaded_app(&long_diff(30));
    app.render_parts(&[body(1), body(1), body(10), body(1), body(1)], 0);
    assert_eq!(app.last_body, body(10));
    assert_eq!((app.scroll, app.selected_row), (0, Some(4)));
    mouse(&mut app, MouseEventKind::ScrollDown, 0);
    assert_eq!((app.scroll, app.selected_row), (3, Some(7)));
    press(&mut app, KeyCode::Char('f'));
    assert_eq!((app.scroll, app.selected_row), (13, Some(17)));
    press(&mut app, KeyCode::PageDown);
    assert_eq!((app.scroll, app.selected_row), (23, Some(27)));
    press(&mut app, KeyCode::PageDown);
    assert_eq!((app.scroll, app.selected_row), (24, Some(28)));
    press(&mut app, KeyCode::Char('b'));
    assert_eq!((app.scroll, app.selected_row), (14, Some(18)));
    press(&mut app, KeyCode::PageUp);
    press(&mut app, KeyCode::PageUp);
    assert_eq!((app.scroll, app.selected_row), (0, Some(4)));
    mouse(&mut app, MouseEventKind::ScrollUp, 0);
    assert_eq!((app.scroll, app.selected_row), (0, Some(4)));
}

#[test]
fn the_selected_row_is_shown() {
    let mut app = loaded_app(&long_diff(30));
    app.render_parts(&[body(1), body(1), body(10), body(1), body(1)], 0);
    press(&mut app, KeyCode::Char('G'));
    assert_eq!((app.scroll, app.selected_row), (24, Some(33)));
    press(&mut app, KeyCode::Char('g'));
    assert_eq!((app.scroll, app.selected_row), (4, Some(4)));
}

#[test]
fn scrolling_an_empty_list_selects_nothing() {
    let mut app = test_app();
    app.scroll = 5;
    app.selected_row = Some(1);
    app.scroll_by(3);
    assert_eq!((app.scroll, app.selected_row), (0, None));
    press(&mut app, KeyCode::Enter);
    assert_eq!(app.status, "No diff line selected.");
    press(&mut app, KeyCode::Char('V'));
    assert_eq!(app.status, "No selectable diff line.");
    press(&mut app, KeyCode::Char('j'));
    press(&mut app, KeyCode::Char('J'));
    press(&mut app, KeyCode::Char('G'));
    assert_eq!(app.selected_row, None);
}

#[test]
fn the_first_of_two_nearest_rows_is_taken() {
    let mut app = loaded_app("@@ -1 +1 @@\n+a\n@@ -5 +5 @@\n+b\n");
    app.select_visible_near(2);
    assert_eq!(app.selected_row, Some(1));
    app.select_visible_near(3);
    assert_eq!(app.selected_row, Some(3));
    app.scroll = 9;
    app.select_visible_near(3);
    assert_eq!(app.selected_row, None);
}

#[test]
fn a_click_comments_on_a_line() {
    let mut app = loaded_app(SAMPLE);
    mouse(&mut app, MouseEventKind::Down(MouseButton::Left), 7);
    assert!(app.visual_mode);
    mouse(&mut app, MouseEventKind::Up(MouseButton::Left), 7);
    let editor = app.editor.as_ref().unwrap();
    assert_eq!(raws(&editor.target_lines), vec!["+new"]);
    assert_eq!(app.selection_anchor, None);
    assert!(!app.visual_mode);
}

#[test]
fn a_drag_comments_on_a_range() {
    let mut app = loaded_app(SAMPLE);
    mouse(&mut app, MouseEventKind::Down(MouseButton::Left), 7);
    mouse(&mut app, MouseEventKind::Drag(MouseButton::Left), 6);
    mouse(&mut app, MouseEventKind::Drag(MouseButton::Left), 2);
    mouse(&mut app, MouseEventKind::Up(MouseButton::Left), 2);
    let editor = app.editor.as_ref().unwrap();
    assert_eq!(raws(&editor.target_lines), vec!["-old", "+new"]);
    assert!(app.visual_mode);
    assert_eq!(app.status, "Commenting on src/lib.rs: old line 1 / new line 1 (2 diff lines)");
}

#[test]
fn a_click_on_a_comment_and_enter_edit_it() {
    let mut app = loaded_app(SAMPLE);
    press(&mut app, KeyCode::Enter);
    press(&mut app, KeyCode::Char('a'));
    press(&mut app, KeyCode::Enter);
    mouse(&mut app, MouseEventKind::Down(MouseButton::Left), 7);
    mouse(&mut app, MouseEventKind::Up(MouseButton::Left), 7);
    assert_eq!(app.status, "Comment selected. Press Enter to edit it.");
    assert!(app.editor.is_none());
    press(&mut app, KeyCode::Enter);
    assert_eq!(app.editor.as_ref().unwrap().replacing_comment, Some(1));
    assert_eq!(app.editor.as_ref().unwrap().text(), "a");
}

#[test]
fn clicks_outside_the_rows_do_nothing() {
    let mut app = loaded_app(SAMPLE);
    assert_eq!(app.row_at(1), None);
    assert_eq!(app.row_at(2), Some(0));
    assert_eq!(app.row_at(7), Some(5));
    assert_eq!(app.row_at(8), None);
    assert_eq!(app.row_at(12), None);
    mouse(&mut app, MouseEventKind::Down(MouseButton::Left), 2);
    mouse(&mut app, MouseEventKind::Down(MouseButton::Right), 7);
    mouse(&mut app, MouseEventKind::Up(MouseButton::Left), 7);
    mouse(&mut app, MouseEventKind::Drag(MouseButton::Left), 7);
    assert_eq!(app.selected_row, Some(4));
    assert!(app.editor.is_none());
    app.last_body = Area {
        x: 0,
        y: 65535,
        width: 1,
        height: 5,
    };
    assert_eq!(app.row_at(65535), None);
}

#[test]
fn rows_have_identities() {
    let mut app = loaded_app(SAMPLE);
    press(&mut app, KeyCode::Enter);
    press(&mut app, KeyCode::Char('a'));
    press(&mut app, KeyCode::Enter);
    assert_eq!(app.row_stable_id(&app.rows[5]).as_deref(), Some("comment:1"));
    assert_eq!(app.row_index_for_stable_id("comment:1"), Some(5));
    assert_eq!(app.row_index_for_stable_id(&app.parsed.lines[5].stable_id()), Some(6));
    assert_eq!(app.row_index_for_stable_id("nothing"), None);
    assert_eq!(app.row_stable_id(&RenderRow::Diff(99)), None);
}

#[test]
fn reading_waits_while_a_comment_is_edited() {
    let mut app = loaded_app(SAMPLE);
    assert!(app.is_refresh_due(true));
    assert!(!app.is_refresh_due(false));
    press(&mut app, KeyCode::Enter);
    assert!(!app.is_refresh_due(true));
}

#[test]
fn arguments_are_checked() {
    assert_eq!(argument_error(true, 11), None);
    assert_eq!(argument_error(false, 0), Some("--refresh must be > 0"));
    assert_eq!(argument_error(true, 0), Some("--max-copy-lines must be > 0"));
    let config = config_of(Arguments {
        context: 5,
        refresh_interval: Duration::from_millis(1500),
        max_copy_lines: 11,
        no_untracked: true,
        max_untracked_bytes: 7,
        no_osc52: false,
        pathspecs: vec!["src".to_string()],
    });
    assert_eq!(config.refresh_interval, Duration::from_millis(1500));
    assert!(!config.diff.include_untracked);
    assert!(config.allow_osc52);
    assert_eq!(config.diff.pathspecs, vec!["src"]);
    let copy = config.clone();
    assert_eq!((copy.max_copy_lines, copy.diff.max_untracked_bytes, copy.diff.context), (11, 7, 5));
}

#[test]
fn without_a_comment_the_number_of_comments_does_not_matter() {
    let mut app = loaded_app(SAMPLE);
    app.comment_counter = u64::MAX;
    assert_eq!(press(&mut app, KeyCode::Enter), Action::Nothing);
    assert!(app.editor.is_some());
    assert_eq!(press(&mut app, KeyCode::Char(' ')), Action::Nothing);
    assert_eq!(press(&mut app, KeyCode::Enter), Action::Nothing);
    assert!(app.editor.is_none());
    assert_eq!(app.status, "Empty comment cancelled.");
    assert_eq!(app.comment_counter, u64::MAX);
}
