use diffmark::diff_parser::{
    clean_diff_path, clean_header_path, parse_diff_git_paths, parse_hunk_header, parse_range,
    parse_unified_diff, split_quoted_tokens, DiffLine, LineKind,
};
use diffmark::git_diff::GitDiffResult;

const SAMPLE: &str = "diff --git a/src/foo.py b/src/foo.py\n\
index 1111111..2222222 100644\n\
--- a/src/foo.py\n\
+++ b/src/foo.py\n\
@@ -1,5 +1,6 @@\n \
def main():\n\
-    old()\n\
+    new()\n\
+    added()\n     \
keep()\n\
\\ No newline at end of file\n";

fn chars(s: &str) -> Vec<char> {
    s.chars().collect()
}

#[test]
fn sample_has_the_lines_of_a_diff() {
    let lines: Vec<&str> = SAMPLE.lines().collect();
    assert_eq!(
        lines,
        vec![
            "diff --git a/src/foo.py b/src/foo.py",
            "index 1111111..2222222 100644",
            "--- a/src/foo.py",
            "+++ b/src/foo.py",
            "@@ -1,5 +1,6 @@",
            " def main():",
            "-    old()",
            "+    new()",
            "+    added()",
            "     keep()",
            "\\ No newline at end of file",
        ]
    );
}

#[test]
fn parses_line_numbers_and_hunks() {
    let parsed = parse_unified_diff(SAMPLE);
    assert_eq!(parsed.hunks.len(), 1);
    assert_eq!(parsed.hunks[0].file_path.as_deref(), Some("src/foo.py"));
    assert_eq!(parsed.selectable_count(), 5);

    let changed: Vec<&DiffLine> = parsed.lines.iter().filter(|line| line.selectable).collect();
    assert_eq!(changed[0].kind, LineKind::Context);
    assert_eq!(
        (changed[0].old_lineno, changed[0].new_lineno),
        (Some(1), Some(1))
    );
    assert_eq!(changed[1].kind, LineKind::Delete);
    assert_eq!(
        (changed[1].old_lineno, changed[1].new_lineno),
        (Some(2), None)
    );
    assert_eq!(changed[2].kind, LineKind::Add);
    assert_eq!(
        (changed[2].old_lineno, changed[2].new_lineno),
        (None, Some(2))
    );
    assert_eq!(changed[3].kind, LineKind::Add);
    assert_eq!(
        (changed[3].old_lineno, changed[3].new_lineno),
        (None, Some(3))
    );
    assert_eq!(changed[4].kind, LineKind::Context);
    assert_eq!(
        (changed[4].old_lineno, changed[4].new_lineno),
        (Some(3), Some(4))
    );
}

#[test]
fn stable_id_contains_anchor_data() {
    let parsed = parse_unified_diff(SAMPLE);
    let added = parsed
        .lines
        .iter()
        .find(|line| line.kind == LineKind::Add)
        .unwrap();
    let id = added.stable_id();
    assert!(id.contains("src/foo.py"));
    assert!(id.contains("add"));
    assert!(id.contains('2'));
    assert!(id.contains("+    new()"));
}

#[test]
fn paths_with_spaces() {
    let parsed = parse_unified_diff(
        "diff --git \"a/path with space.txt\" \"b/path with space.txt\"\n\
--- \"a/path with space.txt\"\n\
+++ \"b/path with space.txt\"\n\
@@ -1 +1 @@\n\
-old\n\
+new\n",
    );
    let added = parsed
        .lines
        .iter()
        .find(|line| line.kind == LineKind::Add)
        .unwrap();
    assert_eq!(added.file_path.as_deref(), Some("path with space.txt"));
}

#[test]
fn stable_id_is_exact() {
    let parsed = parse_unified_diff(SAMPLE);
    assert_eq!(parsed.lines[7].stable_id(), "src/foo.py|0|add||2|+    new()");
    assert_eq!(parsed.lines[0].stable_id(), "src/foo.py||file|||diff --git a/src/foo.py b/src/foo.py");
    assert_eq!(parsed.lines[5].stable_id(), "src/foo.py|0|context|1|1| def main():");
}

#[test]
fn reading_keeps_every_line() {
    let diff = "noise\r\ndiff --git a/x b/x\n@@ -1 +1 @@\n+a\n\n-stray\nlast";
    let parsed = parse_unified_diff(diff);
    let raws: Vec<&str> = parsed.lines.iter().map(|line| line.raw.as_str()).collect();
    assert_eq!(
        raws,
        vec!["noise", "diff --git a/x b/x", "@@ -1 +1 @@", "+a", "", "-stray", "last"]
    );
}

#[test]
fn lines_and_hunks_refer_to_each_other() {
    let parsed = parse_unified_diff(
        "diff --git a/x b/x\n--- a/x\n+++ b/x\n@@ -3,2 +3,2 @@ fn one()\n a\n-b\n+c\n@@ -9 +9 @@\n-d\n+e\n",
    );
    assert_eq!(parsed.hunks.len(), 2);
    assert_eq!(parsed.hunks[0].section, "fn one()");
    assert_eq!(
        (parsed.hunks[0].old_start, parsed.hunks[0].old_count),
        (3, 2)
    );
    assert_eq!(
        (parsed.hunks[1].new_start, parsed.hunks[1].new_count),
        (9, 1)
    );
    for (h, hunk) in parsed.hunks.iter().enumerate() {
        assert_eq!(hunk.index, h);
        for (j, index) in hunk.line_indices.iter().enumerate() {
            assert_eq!(parsed.lines[*index].hunk_index, Some(h));
            assert_eq!(parsed.lines[*index].hunk_line_index, Some(j));
        }
    }
    assert_eq!(parsed.hunks[1].line_indices, vec![8, 9]);
    assert_eq!(parsed.lines[5].old_lineno, Some(4));
    assert_eq!(parsed.lines[9].new_lineno, Some(9));
}

#[test]
fn line_numbers_stop_at_the_largest() {
    let parsed = parse_unified_diff("@@ -18446744073709551615 +1 @@\n-a\n-b\n");
    assert_eq!(parsed.lines[1].old_lineno, Some(usize::MAX));
    assert_eq!(parsed.lines[2].old_lineno, Some(usize::MAX));
}

#[test]
fn deleted_file_keeps_its_old_path() {
    let parsed = parse_unified_diff(
        "diff --git a/gone.txt b/gone.txt\n--- a/gone.txt\n+++ /dev/null\n@@ -1 +0,0 @@\n-x\n",
    );
    assert_eq!(parsed.lines[4].file_path.as_deref(), Some("gone.txt"));
}

#[test]
fn a_line_outside_a_hunk_is_not_selectable() {
    let parsed = parse_unified_diff("+not in a hunk\n");
    assert_eq!(parsed.lines[0].kind, LineKind::Meta);
    assert!(!parsed.lines[0].selectable);
}

#[test]
fn kind_names() {
    assert_eq!(LineKind::File.as_str(), "file");
    assert_eq!(LineKind::Meta.as_str(), "meta");
    assert_eq!(LineKind::Hunk.as_str(), "hunk");
    assert_eq!(LineKind::Add.as_str(), "add");
    assert_eq!(LineKind::Delete.as_str(), "delete");
    assert_eq!(LineKind::Context.as_str(), "context");
    assert_eq!(LineKind::Note.as_str(), "note");
}

#[test]
fn tokens_may_be_quoted() {
    assert_eq!(
        split_quoted_tokens(&chars("  a/x \"b/\\\"q\\\" \\\\ \\t\"  last")),
        vec!["a/x", "b/\"q\" \\ \t", "last"]
    );
    assert_eq!(split_quoted_tokens(&chars("\"open")), vec!["open"]);
    assert!(split_quoted_tokens(&chars(" \u{3000}\t")).is_empty());
}

#[test]
fn diff_paths_lose_their_side() {
    assert_eq!(clean_diff_path(&chars("a/x")).as_deref(), Some("x"));
    assert_eq!(clean_diff_path(&chars("b/a/x")).as_deref(), Some("a/x"));
    assert_eq!(clean_diff_path(&chars("x")).as_deref(), Some("x"));
    assert_eq!(clean_diff_path(&chars("/dev/null")), None);
}

#[test]
fn header_paths_end_at_a_tab() {
    assert_eq!(
        clean_header_path(&chars(" b/x y\t2020-01-01")).as_deref(),
        Some("x y")
    );
    assert_eq!(
        clean_header_path(&chars("\"b/x\\ty\"")).as_deref(),
        Some("x\ty")
    );
}

#[test]
fn git_lines_need_two_paths() {
    assert_eq!(parse_diff_git_paths(&chars("diff --git a/x")), None);
    assert_eq!(parse_diff_git_paths(&chars("diff a/x b/x")), None);
    assert_eq!(
        parse_diff_git_paths(&chars("diff --git a/x b/y")),
        Some((Some("x".to_string()), Some("y".to_string())))
    );
}

#[test]
fn ranges_have_an_optional_count() {
    assert_eq!(parse_range(&chars("-12,3"), '-'), Some((12, 3)));
    assert_eq!(parse_range(&chars("+7"), '+'), Some((7, 1)));
    assert_eq!(parse_range(&chars("++7"), '+'), Some((7, 1)));
    assert_eq!(parse_range(&chars("7"), '+'), None);
    assert_eq!(parse_range(&chars("-x"), '-'), None);
    assert_eq!(parse_range(&chars("-1,"), '-'), None);
    assert_eq!(parse_range(&chars("-99999999999999999999"), '-'), None);
}

#[test]
fn hunk_headers_are_exact() {
    let header = parse_hunk_header(&chars("@@ -1,5 +1,6 @@  fn main() ")).unwrap();
    assert_eq!(
        (header.old_start, header.old_count, header.new_start, header.new_count),
        (1, 5, 1, 6)
    );
    assert_eq!(header.section, "fn main()");
    assert!(parse_hunk_header(&chars("@@ -1,5 +1,6")).is_none());
    assert!(parse_hunk_header(&chars("@@ -1,5 @@")).is_none());
    assert!(parse_hunk_header(&chars("@@-1 +1 @@")).is_none());
}

#[test]
fn identities_tell_selectable_lines_apart() {
    let parsed = parse_unified_diff(
        "diff --git a/x b/x\n--- a/x\n+++ b/x\n@@ -1,2 +1,4 @@\n same\n+dup\n+dup\n same\n",
    );
    let ids: Vec<String> = parsed
        .lines
        .iter()
        .filter(|line| line.selectable)
        .map(|line| line.stable_id())
        .collect();
    for i in 0..ids.len() {
        for j in 0..i {
            assert_ne!(ids[i], ids[j]);
        }
    }
}

#[test]
fn diffs_can_be_put_together() {
    let second = "diff --git a/b.txt b/b.txt\n--- a/b.txt\n+++ b/b.txt\n@@ -3 +3 @@\n-x\n+y\n@@ -9 +9 @@\n z";
    let whole = parse_unified_diff(&format!("{SAMPLE}{second}"));
    let first = parse_unified_diff(SAMPLE);
    let second = parse_unified_diff(second);
    assert_eq!((first.lines.len(), first.hunks.len()), (11, 1));
    assert_eq!((second.lines.len(), second.hunks.len()), (8, 2));
    assert_eq!(whole.lines.len(), 19);
    assert_eq!(whole.lines[..11], first.lines[..]);
    assert_eq!(whole.hunks[..1], first.hunks[..]);
    for (line, alone) in whole.lines[11..].iter().zip(&second.lines) {
        let mut moved = alone.clone();
        moved.hunk_index = alone.hunk_index.map(|h| h + 1);
        assert_eq!(*line, moved);
    }
    for (hunk, alone) in whole.hunks[1..].iter().zip(&second.hunks) {
        let mut moved = alone.clone();
        moved.index = alone.index + 1;
        moved.line_indices = alone.line_indices.iter().map(|i| i + 11).collect();
        assert_eq!(*hunk, moved);
    }
    assert_eq!(whole.hunks[1].line_indices, vec![15, 16]);
    assert_eq!(whole.hunks[2].line_indices, vec![18]);
    assert_eq!(whole.lines[18].hunk_index, Some(2));
    assert_eq!(whole.lines[15].hunk_index, Some(1));
}

#[test]
fn diffs_can_be_copied() {
    let parsed = parse_unified_diff(SAMPLE);
    let mut copy = parsed.clone();
    assert_eq!(copy, parsed);
    assert_eq!(copy.hunks[0].clone(), parsed.hunks[0]);
    assert_eq!(copy.hunks[0].line_indices, vec![5, 6, 7, 8, 9, 10]);
    copy.lines[5].raw.push('!');
    copy.hunks[0].line_indices.clear();
    assert_eq!(parsed, parse_unified_diff(SAMPLE));
    let result = GitDiffResult {
        text: "a\n".to_string(),
        error: Some("b".to_string()),
    };
    assert_eq!(result.clone(), result);
}
