use diffmark::app::{App, AppConfig, Area, RenderRow};
use diffmark::comments::InlineComment;
use diffmark::git_diff::{DiffOptions, GitDiffResult};
use diffmark::render::{
    line_with_cursor, pad_to_width, watch_pulse_style, Color, Screen, StyledText, TextStyle,
};
use std::time::Duration;

const PLAIN: TextStyle = TextStyle {
    fg: None,
    bg: None,
    bold: false,
    dim: false,
    reversed: false,
};

fn fg(color: Color) -> TextStyle {
    TextStyle {
        fg: Some(color),
        ..PLAIN
    }
}

fn app(text: &str) -> App {
    let mut app = App::new(AppConfig {
        diff: DiffOptions {
            context: 3,
            include_untracked: false,
            max_untracked_bytes: 1,
            pathspecs: Vec::new(),
        },
        refresh_interval: Duration::from_secs(1),
        max_copy_lines: 11,
        allow_osc52: false,
    });
    app.last_body = area(80, 20);
    app.refresh_diff(
        true,
        GitDiffResult {
            text: text.to_string(),
            error: None,
        },
    );
    app
}

const SAMPLE: &str =
    "diff --git a/x b/x\n--- a/x\n+++ b/x\n@@ -9,2 +9,2 @@\n a\n-b\n+c\n\\ No newline at end of file\n";

fn texts(lines: &[StyledText]) -> Vec<&str> {
    lines.iter().map(|line| line.text.as_str()).collect()
}

fn area(width: u16, height: u16) -> Area {
    Area {
        x: 0,
        y: 0,
        width,
        height,
    }
}

#[test]
fn rows_show_line_numbers() {
    let app = app(SAMPLE);
    assert_eq!(app.row_text(&app.rows[4]), "     9      9 |  a");
    assert_eq!(app.row_text(&app.rows[5]), "    10        | -b");
    assert_eq!(app.row_text(&app.rows[6]), "           10 | +c");
    assert_eq!(app.row_text(&app.rows[3]), "              | @@ -9,2 +9,2 @@");
    assert_eq!(app.row_text(&RenderRow::Diff(99)), "");
    let comment = |text: &str| {
        RenderRow::Comment(InlineComment {
            target_lines: Vec::new(),
            text: text.to_string(),
            created_at: 1,
        })
    };
    assert_eq!(app.row_text(&comment("one")), "              | >> one");
    assert_eq!(
        app.row_text(&comment("one\ntwo\nthree")),
        "              | >> one (+2 lines)"
    );
    assert_eq!(app.row_text(&comment("")), "              | >> ");
}

#[test]
fn rows_are_colored_by_kind() {
    let app = app(SAMPLE);
    let dim_blue = TextStyle {
        dim: true,
        ..fg(Color::Blue)
    };
    assert_eq!(app.row_style(&app.rows[0], false), dim_blue);
    assert_eq!(app.row_style(&app.rows[1], false), dim_blue);
    assert_eq!(
        app.row_style(&app.rows[3], false),
        TextStyle {
            bold: true,
            ..fg(Color::Cyan)
        }
    );
    assert_eq!(app.row_style(&app.rows[4], false), PLAIN);
    assert_eq!(app.row_style(&app.rows[5], false), fg(Color::Red));
    assert_eq!(
        app.row_style(&app.rows[6], true),
        TextStyle {
            bold: true,
            reversed: true,
            ..fg(Color::Green)
        }
    );
    assert_eq!(app.row_style(&app.rows[7], false), dim_blue);
}

#[test]
fn the_mark_pulses() {
    let dark = TextStyle {
        dim: true,
        ..fg(Color::DarkGray)
    };
    let dim = TextStyle {
        dim: true,
        ..fg(Color::Green)
    };
    assert_eq!(watch_pulse_style(0), dark);
    assert_eq!(watch_pulse_style(300), dim);
    assert_eq!(watch_pulse_style(899), fg(Color::Green));
    assert_eq!(watch_pulse_style(900), fg(Color::Green));
    assert_eq!(watch_pulse_style(1200), dim);
    assert_eq!(watch_pulse_style(1799), dark);
    assert_eq!(watch_pulse_style(1800), dark);
}

#[test]
fn lines_with_a_cursor() {
    assert_eq!(line_with_cursor("ab", None, true), "ab");
    assert_eq!(line_with_cursor("\u{e9}b", Some(1), true), "\u{e9}|b");
    assert_eq!(line_with_cursor("ab", Some(2), false), "ab ");
    assert_eq!(line_with_cursor("ab", Some(9), true), "ab|");
    assert_eq!(pad_to_width("a\u{e9}".to_string(), 4), "a\u{e9}  ");
    assert_eq!(pad_to_width("abc".to_string(), 2), "abc");
}

#[test]
fn small_terminals_show_a_message() {
    let mut app = app(SAMPLE);
    for (width, height) in [(29, 24), (80, 5)] {
        assert_eq!(
            app.render(area(width, height), 0),
            Screen::TooSmall(StyledText {
                text: "Terminal too small.".to_string(),
                style: fg(Color::Red),
            })
        );
    }
    assert_eq!(app.last_body, area(80, 20));
}

#[test]
fn the_screen_has_five_parts() {
    let mut app = app(SAMPLE);
    let screen = app.render(area(40, 9), 600);
    let Screen::Parts {
        title,
        detail,
        body,
        help,
        status,
    } = screen
    else {
        panic!("too small");
    };
    let row = |y: u16, height: u16| Area {
        x: 0,
        y,
        width: 40,
        height,
    };
    assert_eq!(title.0, row(0, 1));
    assert_eq!(detail.0, row(1, 1));
    assert_eq!(body.0, row(2, 5));
    assert_eq!(help.0, row(7, 1));
    assert_eq!(status.0, row(8, 1));
    assert_eq!(app.last_body, row(2, 5));
    assert_eq!(
        texts(&title.1),
        vec![" diffmark ", "[NORMAL]", " | git diff HEAD | 1 hunks | watching ", "\u{25cf} "]
    );
    assert_eq!(title.1[3].style, fg(Color::Green));
    assert_eq!(detail.1.text, "x | context line old:9 new:9");
    assert_eq!(detail.1.style, fg(Color::Blue));
    assert_eq!(body.1.len(), 5);
    assert!(body.1[4].style.reversed);
    assert_eq!(
        help.1.text,
        " j/k move | V visual | f/b page | drag select | Enter comment | q quit "
    );
    assert_eq!(status.1.text, " Loaded 1 hunks, 3 selectable lines. ");
    assert_eq!(
        status.1.style,
        TextStyle {
            bg: Some(Color::Cyan),
            ..fg(Color::Black)
        }
    );
}

#[test]
fn an_empty_diff_says_so() {
    let mut empty = app("");
    assert_eq!(texts(&empty.render_rows(5, 40, 0)), vec!["No uncommitted tracked diff."]);
    assert_eq!(empty.render_detail().text, "No selectable diff line.");
    empty.error = Some("broken".to_string());
    assert_eq!(texts(&empty.render_rows(5, 40, 0)), vec!["broken"]);
    assert_eq!(
        empty.render_status().style,
        TextStyle {
            bg: Some(Color::Red),
            ..fg(Color::White)
        }
    );
}

#[test]
fn the_editor_is_shown_below_its_line() {
    let mut app = app(SAMPLE);
    app.start_comment();
    app.editor.as_mut().unwrap().insert_char('z');
    let lines = app.render_rows(20, 20, 0);
    assert_eq!(
        texts(&lines[4..9]),
        vec![
            "     9      9 |  a",
            "       |            ",
            "       | comment    ",
            "       | >> z|      ",
            "       |            ",
        ]
    );
    assert_eq!(lines.len(), 12);
    assert_eq!(app.render_rows(20, 20, 500)[7].text, "       | >> z       ");
    assert_eq!(app.render_rows(6, 20, 0).len(), 6);
    assert_eq!(app.render_title(0)[1].text, "[COMMENT]");
    assert_eq!(
        app.render_help().text,
        " Enter submit | Ctrl-J newline | Esc cancel | arrows move | Backspace/Delete edit "
    );
    assert_eq!(
        lines[7].style,
        TextStyle {
            bg: Some(Color::Rgb(30, 28, 20)),
            ..fg(Color::Yellow)
        }
    );
}

#[test]
fn details_name_the_selected_comment() {
    let mut app = app(SAMPLE);
    app.start_comment();
    app.editor.as_mut().unwrap().insert_char('z');
    app.submit_comment();
    app.move_selection(1);
    assert_eq!(
        app.render_detail().text,
        "x | comment at context line old:9 new:9 | Enter to edit"
    );
    app.enter_visual_mode();
    assert_eq!(app.render_title(0)[1].text, "[VISUAL]");
    assert_eq!(app.render_detail().text, "No selectable diff line.");
}

#[test]
fn the_parts_fill_the_rows_of_the_area() {
    let mut app = app(SAMPLE);
    let mut areas: Vec<(u16, u16)> = (6..=120).map(|height| (0, height)).collect();
    areas.extend([(3, 6), (7, 25), (100, 1000), (65_000, 535), (0, 65_535), (65_500, 100), (65_530, 6)]);
    for (y, height) in areas {
        let rows = height.min(65_535 - y);
        let screen = app.render(
            Area {
                x: 4,
                y,
                width: 40,
                height,
            },
            0,
        );
        let Screen::Parts {
            title,
            detail,
            body,
            help,
            status,
        } = screen
        else {
            panic!("too small");
        };
        let part = |y: u16, height: u16| Area {
            x: 4,
            y,
            width: 40,
            height,
        };
        assert_eq!(title.0, part(y, 1));
        assert_eq!(detail.0, part(y + 1, 1));
        assert_eq!(body.0, part(y + 2, rows - 4));
        assert_eq!(help.0, part(y + rows - 2, 1));
        assert_eq!(status.0, part(y + rows - 1, 1));
        assert_eq!(app.last_body, body.0);
    }
}
