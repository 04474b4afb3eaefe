use diffmark::comments::{CommentStore, InlineComment};
use diffmark::editor::TextEditor;
use diffmark::number::{decimal_string, parse_usize};
use diffmark::text::{chars_of, find_in, split_lines, split_words, string_of, trim_chars};

fn typed(text: &str) -> TextEditor {
    let mut editor = TextEditor::new(Vec::new());
    for ch in text.chars() {
        editor.insert_char(ch);
    }
    editor
}

fn comment(text: &str, created_at: u64) -> InlineComment {
    InlineComment {
        target_lines: Vec::new(),
        text: text.to_string(),
        created_at,
    }
}

fn place(editor: &TextEditor) -> (usize, usize) {
    (editor.cursor_y, editor.cursor_x)
}

#[test]
fn typed_text_is_kept() {
    let editor = typed("a\u{e9}\nb\t\u{1b}c");
    assert_eq!(editor.text(), "a\u{e9}\nb\tc");
    assert_eq!(place(&editor), (1, 3));
}

#[test]
fn backspace_undoes_typing() {
    let mut editor = typed("ab\ncd");
    editor.move_up();
    editor.insert_char('x');
    editor.backspace();
    assert_eq!(editor.text(), "ab\ncd");
    editor.newline();
    assert_eq!(editor.lines, vec!["ab", "", "cd"]);
    editor.backspace();
    assert_eq!(editor.text(), "ab\ncd");
    assert_eq!(place(&editor), (0, 2));
    editor.home();
    editor.backspace();
    assert_eq!(editor.text(), "ab\ncd");
}

#[test]
fn backspace_joins_lines() {
    let mut editor = typed("ab\ncd");
    editor.home();
    editor.backspace();
    assert_eq!(editor.text(), "abcd");
    assert_eq!(place(&editor), (0, 2));
}

#[test]
fn delete_removes_what_follows() {
    let mut editor = typed("ab\ncd");
    editor.move_up();
    editor.home();
    editor.delete();
    assert_eq!(editor.text(), "b\ncd");
    editor.end();
    editor.delete();
    assert_eq!(editor.text(), "bcd");
    editor.end();
    editor.delete();
    assert_eq!(editor.text(), "bcd");
}

#[test]
fn the_cursor_moves_over_line_ends() {
    let mut editor = typed("abc\nd");
    editor.home();
    editor.move_left();
    assert_eq!(place(&editor), (0, 3));
    editor.move_right();
    assert_eq!(place(&editor), (1, 0));
    editor.move_right();
    editor.move_right();
    assert_eq!(place(&editor), (1, 1));
    editor.move_up();
    assert_eq!(place(&editor), (0, 1));
    editor.end();
    editor.move_down();
    assert_eq!(place(&editor), (1, 1));
    editor.move_down();
    assert_eq!(place(&editor), (1, 1));
    assert_eq!(editor.text(), "abc\nd");
}

#[test]
fn a_killed_line_is_empty() {
    let mut editor = typed("abc\ndef");
    editor.move_up();
    editor.kill_line();
    assert_eq!(editor.text(), "\ndef");
    assert_eq!(place(&editor), (0, 0));
}

#[test]
fn a_reopened_comment_is_whole() {
    for text in ["", "one", "one\n", "one\n\ntwo"] {
        let editor = TextEditor::replacing(Vec::new(), &comment(text, 3));
        assert_eq!(editor.text(), text);
        assert_eq!(editor.replacing_comment, Some(3));
    }
}

#[test]
fn comments_are_kept_under_identities() {
    let mut store = CommentStore::new();
    assert!(store.get("a").is_none());
    store.push("a".to_string(), comment("one", 1));
    store.push("b".to_string(), comment("two", 2));
    store.push("a".to_string(), comment("three", 3));
    let texts: Vec<&str> = store.get("a").unwrap().iter().map(|c| c.text.as_str()).collect();
    assert_eq!(texts, vec!["one", "three"]);
    store.remove(1);
    assert_eq!(store.get("a").unwrap().len(), 1);
    store.remove(2);
    assert!(store.get("b").is_none());
    store.remove(9);
    assert_eq!(store.get("a").unwrap()[0].created_at, 3);
}

#[test]
fn numbers_are_written_and_read() {
    for n in [0, 7, 10, 1048576, u64::MAX] {
        assert_eq!(decimal_string(n), n.to_string());
        assert_eq!(parse_usize(&chars_of(&decimal_string(n))), Some(n as usize));
    }
    assert_eq!(parse_usize(&['+', '7']), Some(7));
    assert_eq!(parse_usize(&['-', '7']), None);
    assert_eq!(parse_usize(&[]), None);
    assert_eq!(parse_usize(&['+']), None);
}

#[test]
fn texts_are_split_as_lines_and_words() {
    for text in ["", "\n", "a", "a\n", "a\r\nb\r", "a\n\r\n\nb"] {
        let lines: Vec<String> = split_lines(&chars_of(text))
            .iter()
            .map(|line| string_of(line))
            .collect();
        let wanted: Vec<String> = text.lines().map(|line| line.to_string()).collect();
        assert_eq!(lines, wanted);
    }
    let mixed = "\u{85}a\u{a0}b\u{1680}\u{2007}c\u{2028}\u{202f}d\u{3000}\u{200b}";
    let words: Vec<String> = split_words(&chars_of(mixed))
        .iter()
        .map(|word| string_of(word))
        .collect();
    let wanted: Vec<String> = mixed.split_whitespace().map(|word| word.to_string()).collect();
    assert_eq!(words, wanted);
    assert_eq!(string_of(trim_chars(&chars_of(mixed))), mixed.trim());
    assert_eq!(find_in(&chars_of("ab @@ @@"), " @@"), Some(2));
    assert_eq!(find_in(&chars_of("ab"), "abc"), None);
}

#[test]
fn control_characters_are_known() {
    for code in 0..0x300u32 {
        let ch = char::from_u32(code).unwrap();
        let mut editor = TextEditor::new(Vec::new());
        editor.insert_char(ch);
        if ch == '\n' {
            assert_eq!(editor.lines.len(), 2);
        } else if ch.is_control() && ch != '\t' {
            assert_eq!(editor.text(), "");
        } else {
            assert_eq!(editor.text(), ch.to_string());
        }
    }
}
