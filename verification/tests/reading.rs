use diffmark::diff_parser::parse_unified_diff;
use diffmark::diff_read::{read_uncommitted_diff, FileInfo, Reply, Request};
use diffmark::git_diff::{
    combine_diff_results, diff_args, diff_of_output, failure_message, is_git_repo, list_args,
    list_untracked_files, repo_probe_args, run_git_diff, split_nul_paths, DiffOptions,
    GitDiffResult, GitOutput,
};
use diffmark::untracked::{
    content_untracked_diff, file_mode, quote_path, skipped_untracked_diff, text_untracked_diff,
};

fn output(code: i32, stdout: &[u8], stderr: &[u8]) -> Result<GitOutput, String> {
    Ok(GitOutput {
        code: Some(code),
        stdout: stdout.to_vec(),
        stderr: stderr.to_vec(),
    })
}

fn options(include_untracked: bool, pathspecs: &[&str]) -> DiffOptions {
    DiffOptions {
        context: 3,
        include_untracked,
        max_untracked_bytes: 1024 * 1024,
        pathspecs: pathspecs.iter().map(|path| path.to_string()).collect(),
    }
}

fn drive(options: &DiffOptions, answer: impl Fn(&Request) -> Reply) -> (GitDiffResult, Vec<Request>) {
    let mut asked = Vec::new();
    let mut read = read_uncommitted_diff(options);
    while let Some(request) = read.request() {
        let reply = answer(&request);
        asked.push(request);
        read = read.supply(reply);
    }
    (read.result().unwrap(), asked)
}

fn result(text: &str, error: Option<&str>) -> GitDiffResult {
    GitDiffResult {
        text: text.to_string(),
        error: error.map(|e| e.to_string()),
    }
}

#[test]
fn split_nul_paths_keeps_spaces_and_drops_empty_tail() {
    assert_eq!(
        split_nul_paths(b"one.txt\0path with space.txt\0"),
        vec!["one.txt", "path with space.txt"]
    );
}

#[test]
fn undecodable_path_bytes_are_replaced() {
    assert_eq!(split_nul_paths(b"a\xffb\0\0c"), vec!["a\u{fffd}b", "c"]);
}

#[test]
fn work_tree_probe() {
    assert_eq!(repo_probe_args(), vec!["rev-parse", "--is-inside-work-tree"]);
    assert!(is_git_repo(&output(0, b"true\n", b"")));
    assert!(!is_git_repo(&output(128, b"", b"fatal")));
    assert!(!is_git_repo(&Err("no git".to_string())));
}

#[test]
fn git_arguments() {
    assert_eq!(
        diff_args(5, Some("HEAD"), &["src".to_string()]),
        vec!["diff", "--no-color", "--no-ext-diff", "--unified=5", "HEAD", "--", "src"]
    );
    assert_eq!(
        diff_args(0, None, &[]),
        vec!["diff", "--no-color", "--no-ext-diff", "--unified=0", "--"]
    );
    assert_eq!(
        list_args(&["a b".to_string()]),
        vec!["ls-files", "--others", "--exclude-standard", "-z", "--", "a b"]
    );
}

#[test]
fn exit_code_one_is_no_error() {
    assert_eq!(diff_of_output(Some(1), "d".to_string(), "warn").error, None);
    assert_eq!(
        diff_of_output(Some(2), "d".to_string(), "  bad \n"),
        result("d", Some("bad"))
    );
    assert_eq!(
        diff_of_output(None, String::new(), " ").error.as_deref(),
        Some("git diff failed")
    );
    assert_eq!(
        run_git_diff(Err("cannot run".to_string())),
        result("", Some("cannot run"))
    );
    assert_eq!(run_git_diff(output(0, b"x\xff", b"")), result("x\u{fffd}", None));
}

#[test]
fn failed_listing_has_a_message() {
    assert_eq!(
        list_untracked_files(output(128, b"", b"")),
        Err("git ls-files failed".to_string())
    );
    assert_eq!(
        list_untracked_files(output(128, b"", b" fatal: x\n")),
        Err("fatal: x".to_string())
    );
    assert_eq!(
        list_untracked_files(Err("no git".to_string())),
        Err("no git".to_string())
    );
    assert_eq!(failure_message("", "otherwise"), "otherwise");
}

#[test]
fn results_are_combined() {
    assert_eq!(
        combine_diff_results(vec![
            result("one\n", None),
            result("", Some("e1")),
            result("two", Some("e2")),
        ]),
        result("one\n\ntwo", Some("e1; e2"))
    );
    assert_eq!(combine_diff_results(vec![]), result("", None));
}

#[test]
fn reading_asks_for_tracked_and_untracked_changes() {
    let (read, asked) = drive(&options(true, &[]), |request| match request {
        Request::Git(args) if args[0] == "rev-parse" => Reply::Git(output(0, b"abc\n", b"")),
        Request::Git(args) if args[0] == "diff" => Reply::Git(output(
            0,
            b"diff --git a/tracked.txt b/tracked.txt\n--- a/tracked.txt\n+++ b/tracked.txt\n@@ -1 +1 @@\n-old\n+new\n",
            b"",
        )),
        Request::Git(_) => Reply::Git(output(0, b"untracked.txt\0", b"")),
        Request::Inspect(_) => Reply::Inspected(Ok(FileInfo::Regular {
            len: 12,
            permissions: Some(0o100644),
        })),
        Request::ReadFile(_) => Reply::Content(Ok(b"hello\nworld\n".to_vec())),
        Request::ReadLink(_) => Reply::Link(Err("no link".to_string())),
    });
    assert_eq!(read.error, None);
    assert_eq!(
        read.text,
        "diff --git a/tracked.txt b/tracked.txt\n--- a/tracked.txt\n+++ b/tracked.txt\n@@ -1 +1 @@\n-old\n+new\n\
\ndiff --git a/untracked.txt b/untracked.txt\nnew file mode 100644\n--- /dev/null\n+++ b/untracked.txt\n@@ -0,0 +1,2 @@\n+hello\n+world\n"
    );
    assert_eq!(asked.len(), 5);
    assert_eq!(
        asked[0],
        Request::Git(vec![
            "rev-parse".to_string(),
            "--verify".to_string(),
            "HEAD".to_string()
        ])
    );
    assert_eq!(asked[3], Request::Inspect("untracked.txt".to_string()));
    let parsed = parse_unified_diff(&read.text);
    assert_eq!(parsed.hunks.len(), 2);
    assert_eq!(parsed.hunks[1].file_path.as_deref(), Some("untracked.txt"));
    assert_eq!(parsed.selectable_count(), 4);
}

#[test]
fn untracked_files_are_not_asked_for_where_they_are_hidden() {
    let (read, asked) = drive(&options(false, &["src"]), |request| match request {
        Request::Git(args) if args[0] == "rev-parse" => Reply::Git(output(0, b"", b"")),
        _ => Reply::Git(output(0, b"text", b"")),
    });
    assert_eq!(read, result("text", None));
    assert_eq!(asked.len(), 2);
    assert_eq!(
        asked[1],
        Request::Git(diff_args(3, Some("HEAD"), &["src".to_string()]))
    );
}

#[test]
fn without_a_commit_staged_and_unstaged_changes_are_read() {
    let (read, asked) = drive(&options(false, &[]), |request| match request {
        Request::Git(args) if args[0] == "rev-parse" => Reply::Git(output(128, b"", b"fatal")),
        Request::Git(args) if args.contains(&"--cached".to_string()) => {
            Reply::Git(output(0, b"staged", b""))
        }
        _ => Reply::Git(output(0, b"unstaged", b"")),
    });
    assert_eq!(read, result("staged\nunstaged", None));
    assert_eq!(asked[2], Request::Git(diff_args(3, None, &[])));
}

#[test]
fn large_files_links_and_failures() {
    let mut limited = options(true, &[]);
    limited.max_untracked_bytes = 1;
    let (read, _) = drive(&limited, |request| match request {
        Request::Git(args) if args[0] == "ls-files" => {
            Reply::Git(output(0, b"big.txt\0link\0badlink\0dir\0gone\0unread\0", b""))
        }
        Request::Git(_) => Reply::Git(output(0, b"", b"")),
        Request::Inspect(path) => match path.as_str() {
            "big.txt" => Reply::Inspected(Ok(FileInfo::Regular {
                len: 2,
                permissions: Some(0o100755),
            })),
            "link" | "badlink" => Reply::Inspected(Ok(FileInfo::Symlink)),
            "dir" => Reply::Inspected(Ok(FileInfo::Other)),
            "unread" => Reply::Inspected(Ok(FileInfo::Regular {
                len: 1,
                permissions: None,
            })),
            _ => Reply::Inspected(Err("not found".to_string())),
        },
        Request::ReadLink(path) => {
            if path == "link" {
                Reply::Link(Ok("target.txt".to_string()))
            } else {
                Reply::Link(Err("loop".to_string()))
            }
        }
        Request::ReadFile(_) => Reply::Content(Err("denied".to_string())),
    });
    assert_eq!(
        read.error.as_deref(),
        Some("failed to read untracked symlink badlink: loop; failed to read untracked file gone: not found; failed to read untracked file unread: denied")
    );
    assert!(read.text.contains("diff --git a/big.txt b/big.txt\nnew file mode 100755\n"));
    assert!(read
        .text
        .contains("diffmark: skipped untracked file (larger than --max-untracked-bytes (1))\n"));
    assert!(read.text.contains(
        "new file mode 120000\n--- /dev/null\n+++ b/link\n@@ -0,0 +1,1 @@\n+target.txt\n\\ No newline at end of file\n"
    ));
    assert!(read
        .text
        .contains("diffmark: skipped untracked file (not a regular file)\n"));
}

#[test]
fn failed_list_is_an_error() {
    let (read, asked) = drive(&options(true, &[]), |request| match request {
        Request::Git(args) if args[0] == "ls-files" => Reply::Git(output(1, b"", b"broken")),
        _ => Reply::Git(output(0, b"d", b"")),
    });
    assert_eq!(read, result("d", Some("broken")));
    assert_eq!(asked.len(), 3);
}

#[test]
fn content_decides_how_a_file_is_shown() {
    let header = "diff --git a/f b/f\nnew file mode 100644\n--- /dev/null\n+++ b/f\n";
    assert_eq!(content_untracked_diff("f", "100644", b""), header);
    assert_eq!(
        content_untracked_diff("f", "100644", b"a\0b"),
        format!("{header}Binary files /dev/null and b/f differ\n")
    );
    assert_eq!(
        content_untracked_diff("f", "100644", b"\xff\xfe"),
        format!("{header}Binary files /dev/null and b/f differ\n")
    );
    assert_eq!(
        content_untracked_diff("f", "100644", "\u{e9}\n".as_bytes()),
        format!("{header}@@ -0,0 +1,1 @@\n+\u{e9}\n")
    );
}

#[test]
fn untracked_paths_are_quoted_and_read_back() {
    for path in [
        "path with space.txt",
        "plain",
        "quo\"te",
        "back\\slash",
        "tab\tnew\nline\r",
        "",
        "\u{2003}",
    ] {
        let diff = text_untracked_diff(path, "100644", "hello\n");
        let parsed = parse_unified_diff(&diff);
        let added = parsed.lines.iter().find(|line| line.raw == "+hello").unwrap();
        assert_eq!(added.file_path.as_deref(), Some(path));
        assert_eq!(added.new_lineno, Some(1));
        assert_eq!(parsed.selectable_count(), 1);
    }
    assert_eq!(quote_path("a b\"\\\n\r\t"), "\"a b\\\"\\\\\\n\\r\\t\"");
    assert_eq!(quote_path("a/b"), "a/b");
    assert_eq!(quote_path(""), "\"\"");
}

#[test]
fn missing_final_newline_is_marked() {
    let diff = text_untracked_diff("new.txt", "100644", "hello");
    assert!(diff.contains("+hello\n\\ No newline at end of file"));
    assert!(!text_untracked_diff("new.txt", "100644", "hello\n").contains("No newline"));
}

#[test]
fn a_line_that_looks_like_a_header_is_not_read_back() {
    let parsed = parse_unified_diff(&text_untracked_diff("f", "100644", "one\n++ two\n"));
    assert_eq!(parsed.selectable_count(), 1);
}

#[test]
fn skipped_files_say_why() {
    assert_eq!(
        skipped_untracked_diff("f", "100644", "because"),
        "diff --git a/f b/f\nnew file mode 100644\n--- /dev/null\n+++ b/f\ndiffmark: skipped untracked file (because)\n"
    );
}

#[test]
fn modes_tell_executables_apart() {
    assert_eq!(file_mode(Some(0o100644)), "100644");
    assert_eq!(file_mode(Some(0o100744)), "100755");
    assert_eq!(file_mode(Some(0o010)), "100755");
    assert_eq!(file_mode(None), "100644");
}
