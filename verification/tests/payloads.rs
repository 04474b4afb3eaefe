use diffmark::diff_parser::{parse_unified_diff, LineKind};
use diffmark::payload::{
    build_review_payload, describe_target, describe_target_lines, format_comment, line_span,
    multi_line_label, normalized_range, qualified_line_span, window_range,
};

fn make_diff(line_count: usize) -> String {
    let mut lines = vec![
        "diff --git a/big.txt b/big.txt".to_string(),
        "--- a/big.txt".to_string(),
        "+++ b/big.txt".to_string(),
        format!("@@ -1,{line_count} +1,{line_count} @@"),
    ];
    for index in 1..=line_count {
        let prefix = if index == 10 { '+' } else { ' ' };
        lines.push(format!("{prefix}line {index}"));
    }
    lines.join("\n") + "\n"
}

#[test]
fn marks_selected_line_and_comment_insertion() {
    let parsed = parse_unified_diff(&make_diff(20));
    let target = parsed
        .lines
        .iter()
        .find(|line| line.kind == LineKind::Add && line.raw == "+line 10")
        .unwrap();

    let payload = build_review_payload(
        &parsed,
        std::slice::from_ref(target),
        "Please revisit this.\nSecond line.",
        11,
    );

    assert!(payload.contains("File: big.txt"));
    assert!(payload.contains("My comment at line 10"));
    assert!(payload.contains(">> target:\n+line 10"));
    assert!(payload.contains("+line 10"));
    assert!(payload.contains(">> comment:\n>> Please revisit this.\n>> Second line."));
    assert!(payload.contains("Second line."));
    assert!(!payload.contains("DIFFMARK_SELECTED_LINE"));
    assert!(!payload.contains("```"));
}

#[test]
fn trims_long_hunks_around_target() {
    let parsed = parse_unified_diff(&make_diff(200));
    let target = parsed
        .lines
        .iter()
        .find(|line| line.kind == LineKind::Add && line.raw == "+line 10")
        .unwrap();

    let payload = build_review_payload(&parsed, std::slice::from_ref(target), "Trim this.", 11);

    assert!(payload.contains("+line 10"));
    assert!(payload.contains(">> target:\n+line 10"));
    assert!(payload.contains(">> comment: Trim this."));
    assert!(!payload.contains(" line 200"));
}

#[test]
fn keeps_all_selected_lines_in_multi_line_payload() {
    let parsed = parse_unified_diff(&make_diff(200));
    let targets: Vec<_> = parsed
        .lines
        .iter()
        .filter(|line| {
            line.hunk_line_index
                .is_some_and(|index| (8..=12).contains(&index))
        })
        .cloned()
        .collect();

    let payload = build_review_payload(&parsed, &targets, "Block comment.", 3);

    assert!(payload.contains("My comment at old lines 9-12 / new lines 9-13 (5 diff lines)"));
    assert!(payload.contains(
        ">> target start\n line 9\n+line 10\n line 11\n line 12\n line 13\n>> target end"
    ));
    assert!(payload.contains(">> comment: Block comment."));
    assert!(!payload.contains(" line 200"));
}

#[test]
fn labels_replace_selection_with_old_and_new_lines() {
    let parsed = parse_unified_diff(
        "diff --git a/src/app.rs b/src/app.rs\n\
--- a/src/app.rs\n\
+++ b/src/app.rs\n\
@@ -1,3 +1,3 @@\n \
context\n\
-old\n\
+new\n \
tail\n",
    );
    let targets: Vec<_> = parsed
        .lines
        .iter()
        .filter(|line| line.raw == "-old" || line.raw == "+new")
        .cloned()
        .collect();

    let payload = build_review_payload(&parsed, &targets, "Interesting.", 11);

    assert!(
        payload.contains("My comment at old line 2 / new line 2 (2 diff lines)"),
        "{payload}"
    );
    assert!(
        payload.contains(">> target start\n-old\n+new\n>> target end\n>> comment: Interesting."),
        "{payload}"
    );
}

#[test]
fn payload_is_exact() {
    let parsed = parse_unified_diff(&make_diff(20));
    let target = parsed.lines.iter().find(|line| line.raw == "+line 10").unwrap();
    assert_eq!(
        build_review_payload(&parsed, std::slice::from_ref(target), "Why?\n", 3),
        "File: big.txt\nMy comment at line 10\n\n@@ -1,20 +1,20 @@\n...\n line 9\n>> target:\n+line 10\n>> comment: Why?\n line 11\n"
    );
}

#[test]
fn lines_of_two_hunks_are_shown_bare() {
    let parsed = parse_unified_diff("@@ -1 +1 @@\n+a\n@@ -9 +9 @@\n+b\n");
    let targets: Vec<_> = parsed.lines.iter().filter(|line| line.selectable).cloned().collect();
    assert_eq!(
        build_review_payload(&parsed, &targets, "x", 11),
        "File: (unknown file)\nMy comment at new lines 1-9\n\n>> target start\n+a\n+b\n>> target end\n>> comment: x\n"
    );
    assert_eq!(build_review_payload(&parsed, &[], "x", 11), "");
}

#[test]
fn windows_hold_the_selection() {
    assert_eq!(window_range(5, 1, 1, 11), (0, 5));
    assert_eq!(window_range(200, 9, 9, 11), (4, 15));
    assert_eq!(window_range(200, 0, 0, 11), (0, 11));
    assert_eq!(window_range(200, 199, 199, 11), (194, 200));
    assert_eq!(window_range(200, 50, 80, 11), (50, 81));
    assert_eq!(window_range(200, 3, 3, 0), (3, 4));
}

#[test]
fn targets_are_described() {
    let parsed = parse_unified_diff("@@ -4,2 +7,2 @@\n a\n-b\n+c\n");
    assert_eq!(describe_target(&parsed.lines[1]), "context line old:4 new:7");
    assert_eq!(describe_target(&parsed.lines[2]), "deleted line old:5");
    assert_eq!(describe_target(&parsed.lines[3]), "added line new:8");
    assert_eq!(describe_target(&parsed.lines[0]), "diff line");
    assert_eq!(describe_target_lines(&[]), "line unknown");
    assert_eq!(describe_target_lines(&parsed.lines[2..3]), "line 5");
    assert_eq!(multi_line_label(&parsed.lines[2..4]), "old line 5 / new line 8 (2 diff lines)");
    assert_eq!(line_span(&[]), None);
    assert_eq!(line_span(&[3, 9, 3]).as_deref(), Some("3"));
    assert_eq!(line_span(&[3, 9]).as_deref(), Some("3-9"));
    assert_eq!(qualified_line_span("3-9"), "lines 3-9");
    assert_eq!(qualified_line_span("3"), "line 3");
    assert_eq!(normalized_range(5, 2), (2, 5));
}

#[test]
fn comments_are_prefixed() {
    assert_eq!(format_comment("one"), vec![">> comment: one"]);
    assert_eq!(format_comment("one\r\ntwo \n"), vec![">> comment:", ">> one", ">> two"]);
    assert_eq!(format_comment(" \n"), vec![">> comment:"]);
}
