//! What a reading of the uncommitted changes asks for, and what it makes of the answers.

use crate::diff_read;
use crate::diff_read::{DiffReadView, FileInfo, ReplyView, RequestView, StageView};
use crate::git_diff;
use crate::git_diff::{DiffOptionsView, GitDiffView, GitOutputView};
use crate::number;
use crate::text;
use crate::untracked;
use vstd::prelude::*;

verus! {

/// The arguments with which Git is asked for the changes: in colorless unified form with the context
/// that is wanted, compared with `against` where that is given, and limited to the paths.
pub open spec fn asks_for_changes(
    args: Seq<Seq<char>>,
    options: DiffOptionsView,
    against: Option<Seq<char>>,
) -> bool {
    let n: int = if against is Some {
        5
    } else {
        4
    };
    &&& args.len() == n + 1 + options.pathspecs.len()
    &&& args[0] == "diff"@
    &&& args[1] == "--no-color"@
    &&& args[2] == "--no-ext-diff"@
    &&& args[3] == "--unified="@ + number::decimal(options.context as nat)
    &&& against matches Some(against) ==> args[4] == against
    &&& args[n] == "--"@
    &&& args.skip(n + 1) == options.pathspecs
}

/// A reading first asks whether there is a commit. Where there is one, it asks for the changes since
/// then; where there is none, for the staged changes and then for the others.
#[verifier::spinoff_prover]
pub proof fn law_reading_asks_git(
    options: DiffOptionsView,
    probe: Result<GitOutputView, Seq<char>>,
    staged: Result<GitOutputView, Seq<char>>,
)
    ensures
        ({
            let start = diff_read::read_start(options);
            let second = start.after(ReplyView::Git(probe));
            let third = second.after(ReplyView::Git(staged));
            let found = probe matches Ok(output) && output.code == Some(0i32);
            &&& start.request() == Some(
                RequestView::Git(seq!["rev-parse"@, "--verify"@, "HEAD"@]),
            )
            &&& second.request() matches Some(RequestView::Git(args)) && (if found {
                asks_for_changes(args, options, Some("HEAD"@))
            } else {
                asks_for_changes(args, options, Some("--cached"@))
            })
            &&& !found ==> (third.request() matches Some(RequestView::Git(args))
                && asks_for_changes(args, options, None))
        }),
{
    let paths = options.pathspecs;
    let with_head = git_diff::diff_command(options.context, seq!["HEAD"@], paths);
    let cached = git_diff::diff_command(options.context, seq!["--cached"@], paths);
    let bare = git_diff::diff_command(options.context, seq![], paths);
    assert(with_head.skip(6) =~= paths);
    assert(cached.skip(6) =~= paths);
    assert(bare.skip(5) =~= paths);
}

/// What Git prints is the diff; only where it exits with something else than zero or one is there an
/// error, with what it wrote about it. Where Git cannot be run, the error says why.
pub proof fn law_output_of_git(code: Option<i32>, stdout: Seq<u8>, stderr: Seq<u8>, error: Seq<char>)
    ensures
        ({
            let result = git_diff::comparison_result(Ok(GitOutputView { code, stdout, stderr }));
            let written = text::trim(git_diff::lossy_text(stderr));
            &&& result.text == git_diff::lossy_text(stdout)
            &&& code == Some(0i32) || code == Some(1i32) ==> result.error is None
            &&& code != Some(0i32) && code != Some(1i32) && written.len() > 0 ==> result.error
                == Some(written)
            &&& code != Some(0i32) && code != Some(1i32) && written.len() == 0 ==> result.error
                == Some("git diff failed"@)
            &&& git_diff::comparison_result(Err(error)).error == Some(error)
            &&& git_diff::comparison_result(Err(error)).text.len() == 0
        }),
{
}

/// Joining one part more.
proof fn lemma_join_push(parts: Seq<Seq<char>>, part: Seq<char>, sep: Seq<char>)
    ensures
        parts.len() == 0 ==> text::join(parts.push(part), sep) == part,
        parts.len() > 0 ==> text::join(parts.push(part), sep) == text::join(parts, sep) + sep + part,
{
    assert(parts.push(part).drop_last() =~= parts);
}

/// The texts that are put together are not empty.
proof fn lemma_nonempty(results: Seq<GitDiffView>)
    ensures
        forall|i: int|
            0 <= i < git_diff::nonempty_texts(results).len() ==> (
            #[trigger] git_diff::nonempty_texts(results)[i]).len() > 0,
    decreases results.len(),
{
    if results.len() > 0 {
        lemma_nonempty(results.drop_last());
        let before = git_diff::nonempty_texts(results.drop_last());
        assert forall|i: int| 0 <= i < git_diff::nonempty_texts(results).len() implies (
        #[trigger] git_diff::nonempty_texts(results)[i]).len() > 0 by {
            if i < before.len() {
                assert(git_diff::nonempty_texts(results)[i] == before[i]);
            }
        }
    }
}

/// Results are put together one after the other: a text goes under the text that is there, behind a
/// line feed, and an error behind the errors that are there; nothing is lost, and an empty text
/// leaves nothing.
#[verifier::spinoff_prover]
pub proof fn law_results_are_put_together(results: Seq<GitDiffView>, result: GitDiffView)
    ensures
        ({
            let before = git_diff::combined(results);
            let after = git_diff::combined(results.push(result));
            &&& result.text.len() == 0 ==> after.text == before.text
            &&& result.text.len() > 0 && before.text.len() == 0 ==> after.text == result.text
            &&& result.text.len() > 0 && before.text.len() > 0 ==> after.text == before.text + "\n"@
                + result.text
            &&& result.error is None ==> after.error == before.error
            &&& result.error is Some && before.error is None ==> after.error == result.error
            &&& result.error matches Some(more) ==> (before.error matches Some(error) ==> after.error
                == Some(error + "; "@ + more))
        }),
        git_diff::combined(seq![]).text.len() == 0,
        git_diff::combined(seq![]).error is None,
{
    let all = results.push(result);
    assert(all.drop_last() =~= results);
    let texts = git_diff::nonempty_texts(results);
    let errors = git_diff::errors_of(results);
    lemma_nonempty(results);
    if texts.len() > 0 {
        assert(texts[texts.len() - 1].len() > 0);
    }
    lemma_join_push(texts, result.text, "\n"@);
    reveal(Seq::filter_map);
    if let Some(more) = result.error {
        assert(git_diff::errors_of(all) =~= errors.push(more));
        lemma_join_push(errors, more, "; "@);
    } else {
        assert(git_diff::errors_of(all) =~= errors);
    }
}

/// Where untracked files are not wanted, the reading ends with the tracked changes; else they are
/// listed, without those that are ignored.
pub proof fn law_untracked_files_are_listed_where_wanted(
    options: DiffOptionsView,
    changes: Result<GitOutputView, Seq<char>>,
)
    ensures
        ({
            let next = DiffReadView { options, stage: StageView::SinceHead }.after(
                ReplyView::Git(changes),
            );
            &&& !options.include_untracked ==> next.stage == StageView::Done(
                git_diff::comparison_result(changes),
            )
            &&& options.include_untracked ==> (next.request() matches Some(RequestView::Git(args)) && {
                &&& args.len() == 5 + options.pathspecs.len()
                &&& args[0] == "ls-files"@
                &&& args[1] == "--others"@
                &&& args[2] == "--exclude-standard"@
                &&& args[3] == "-z"@
                &&& args[4] == "--"@
                &&& args.skip(5) == options.pathspecs
            })
        }),
{
    assert(git_diff::list_command(options.pathspecs).skip(5) =~= options.pathspecs);
}

/// Parts without null bytes, each followed by one.
pub open spec fn nul_terminated(parts: Seq<Seq<u8>>) -> Seq<u8>
    decreases parts.len(),
{
    if parts.len() == 0 {
        seq![]
    } else {
        parts[0] + seq![0u8] + nul_terminated(parts.drop_first())
    }
}

/// A list in which a null byte ends each part is read back.
pub proof fn law_list_is_read_back(parts: Seq<Seq<u8>>)
    requires
        forall|i: int|
            0 <= i < parts.len() ==> (#[trigger] parts[i]).len() > 0 && !parts[i].contains(0u8),
    ensures
        git_diff::nul_parts(nul_terminated(parts)) == parts,
    decreases parts.len(),
{
    let all = nul_terminated(parts);
    if parts.len() > 0 {
        let first = parts[0];
        let rest = parts.drop_first();
        assert forall|i: int| 0 <= i < rest.len() implies (#[trigger] rest[i]).len() > 0
            && !rest[i].contains(0u8) by {
            assert(rest[i] == parts[i + 1]);
        }
        law_list_is_read_back(rest);
        git_diff::lemma_nul_pos(all);
        let k = first.len() as int;
        assert(all[k] == 0);
        assert forall|j: int| 0 <= j < k implies all[j] != 0 by {
            assert(first.contains(first[j]));
        }
        assert(git_diff::nul_pos(all) == k);
        assert(all.take(k) =~= first);
        assert(all.skip(k + 1) =~= nul_terminated(rest));
        assert(seq![first] + rest =~= parts);
    }
}

/// Where the untracked files could not be listed, the tracked changes stay and the error is added;
/// where there are none, the tracked changes are all.
#[verifier::spinoff_prover]
pub proof fn law_listing(options: DiffOptionsView, changes: GitDiffView, run: GitOutputView)
    ensures
        ({
            let next = DiffReadView { options, stage: StageView::Listing { changes } }.after(
                ReplyView::Git(Ok(run)),
            );
            let paths = git_diff::nul_paths(run.stdout);
            &&& run.code != Some(0i32) ==> (next.stage matches StageView::Done(result) && result.text
                == changes.text && (changes.error is None ==> {
                let written = text::trim(git_diff::lossy_text(run.stderr));
                result.error == Some(
                    if written.len() == 0 {
                        "git ls-files failed"@
                    } else {
                        written
                    },
                )
            }) && result.error is Some)
            &&& run.code == Some(0i32) && paths.len() == 0 ==> (
            next.stage matches StageView::Done(result) && result.text == changes.text && (
            changes.error is None ==> result.error is None))
            &&& run.code == Some(0i32) && paths.len() > 0 ==> next.request() == Some(
                RequestView::Inspect(paths[0]),
            )
        }),
{
    let stage = DiffReadView { options, stage: StageView::Listing { changes } }.after(
        ReplyView::Git(Ok(run)),
    ).stage;
    let none: Seq<GitDiffView> = seq![];
    law_results_are_put_together(none, changes);
    law_results_are_put_together(seq![changes], git_diff::combined(none));
    if let Err(error) = git_diff::listed_paths(Ok(run)) {
        law_results_are_put_together(seq![changes], git_diff::error_view(error));
        assert(seq![changes].push(git_diff::error_view(error)) =~= seq![
            changes,
            git_diff::error_view(error),
        ]);
    }
    assert(none.push(changes) =~= seq![changes]);
    assert(seq![changes].push(git_diff::combined(none)) =~= seq![changes, git_diff::combined(none)]);
}

/// The reading has added `result` to the files that are done, and goes on with the next or ends with
/// all of them under the tracked changes.
pub open spec fn goes_on_with(
    next: DiffReadView,
    changes: GitDiffView,
    done: Seq<GitDiffView>,
    left: Seq<Seq<char>>,
    result: GitDiffView,
) -> bool {
    if left.len() > 1 {
        next.stage == StageView::Inspecting {
            changes,
            done: done.push(result),
            left: left.drop_first(),
        }
    } else {
        next.stage == StageView::Done(
            git_diff::combined(seq![changes, git_diff::combined(done.push(result))]),
        )
    }
}

/// Of a link the target is read, of a regular file that is not too large the content. Anything else
/// is named without its content, with the reason, or with the error where it could not be looked at.
#[verifier::spinoff_prover]
pub proof fn law_untracked_file_is_looked_at(
    options: DiffOptionsView,
    changes: GitDiffView,
    done: Seq<GitDiffView>,
    left: Seq<Seq<char>>,
    info: Result<FileInfo, Seq<char>>,
)
    requires
        left.len() > 0,
    ensures
        ({
            let read = DiffReadView {
                options,
                stage: StageView::Inspecting { changes, done, left },
            };
            let next = read.after(ReplyView::Inspected(info));
            let path = left[0];
            let most = options.max_untracked_bytes;
            &&& read.request() == Some(RequestView::Inspect(path))
            &&& info == Ok::<FileInfo, Seq<char>>(FileInfo::Symlink) ==> next.request() == Some(
                RequestView::ReadLink(path),
            )
            &&& info == Ok::<FileInfo, Seq<char>>(FileInfo::Other) ==> goes_on_with(
                next,
                changes,
                done,
                left,
                GitDiffView {
                    text: untracked::skipped_diff(path, "100644"@, "not a regular file"@),
                    error: None,
                },
            )
            &&& info matches Ok(FileInfo::Regular { len, permissions }) ==> {
                &&& len <= most ==> next.request() == Some(RequestView::ReadFile(path))
                &&& len > most ==> goes_on_with(
                    next,
                    changes,
                    done,
                    left,
                    GitDiffView {
                        text: untracked::skipped_diff(
                            path,
                            untracked::mode_text(permissions),
                            "larger than --max-untracked-bytes ("@ + number::decimal(most as nat)
                                + ")"@,
                        ),
                        error: None,
                    },
                )
            }
            &&& info matches Err(error) ==> goes_on_with(
                next,
                changes,
                done,
                left,
                GitDiffView {
                    text: seq![],
                    error: Some("failed to read untracked file "@ + path + ": "@ + error),
                },
            )
        }),
{
}

/// A link is shown as a new file with the mode of links and its target as the content; where that
/// cannot be read the error names it.
pub proof fn law_untracked_link(
    options: DiffOptionsView,
    changes: GitDiffView,
    done: Seq<GitDiffView>,
    left: Seq<Seq<char>>,
    target: Result<Seq<char>, Seq<char>>,
)
    requires
        left.len() > 0,
    ensures
        ({
            let next = DiffReadView {
                options,
                stage: StageView::Linking { changes, done, left },
            }.after(ReplyView::Link(target));
            &&& target matches Ok(content) ==> goes_on_with(
                next,
                changes,
                done,
                left,
                GitDiffView {
                    text: untracked::text_diff(left[0], "120000"@, content),
                    error: None,
                },
            )
            &&& target matches Err(error) ==> goes_on_with(
                next,
                changes,
                done,
                left,
                GitDiffView {
                    text: seq![],
                    error: Some("failed to read untracked symlink "@ + left[0] + ": "@ + error),
                },
            )
        }),
{
}

/// A file is shown as a new file with its mode: its lines where it is text, that it is binary where
/// it has a null byte or is not UTF-8, and nothing but the header where it is empty.
pub proof fn law_untracked_content(
    options: DiffOptionsView,
    changes: GitDiffView,
    done: Seq<GitDiffView>,
    left: Seq<Seq<char>>,
    permissions: Option<u32>,
    content: Result<Seq<u8>, Seq<char>>,
)
    requires
        left.len() > 0,
    ensures
        ({
            let next = DiffReadView {
                options,
                stage: StageView::Reading { changes, done, left, permissions },
            }.after(ReplyView::Content(content));
            let mode = untracked::mode_text(permissions);
            let path = left[0];
            &&& content matches Ok(bytes) ==> {
                let diff = if bytes.len() == 0 {
                    untracked::header_text(path, mode)
                } else if bytes.contains(0u8) || !vstd::utf8::valid_utf8(bytes) {
                    untracked::binary_diff(path, mode)
                } else {
                    untracked::text_diff(path, mode, vstd::utf8::decode_utf8(bytes))
                };
                goes_on_with(next, changes, done, left, GitDiffView { text: diff, error: None })
            }
            &&& content matches Err(error) ==> goes_on_with(
                next,
                changes,
                done,
                left,
                GitDiffView {
                    text: seq![],
                    error: Some("failed to read untracked file "@ + path + ": "@ + error),
                },
            )
        }),
{
}

/// A file that anyone may execute has the mode of programs, any other that of plain files.
pub proof fn law_modes(bits: u32)
    ensures
        bits & 0o100 != 0 || bits & 0o010 != 0 || bits & 0o001 != 0 ==> untracked::mode_text(
            Some(bits),
        ) == "100755"@,
        bits & 0o100 == 0 && bits & 0o010 == 0 && bits & 0o001 == 0 ==> untracked::mode_text(
            Some(bits),
        ) == "100644"@,
        untracked::mode_text(None) == "100644"@,
{
    assert((bits & 0o111 != 0) == (bits & 0o100 != 0 || bits & 0o010 != 0 || bits & 0o001 != 0))
        by (bit_vector);
}

/// A plain path stands in the header of a new file as it is, behind the side that it stands for.
pub proof fn law_header_of_a_new_file(path: Seq<char>, mode: Seq<char>)
    requires
        path.len() > 0,
        forall|j: int|
            0 <= j < path.len() ==> !text::is_white_space(#[trigger] path[j]) && path[j] != '"'
                && path[j] != '\\',
    ensures
        untracked::header_text(path, mode) == "diff --git "@ + ("a/"@ + path) + " "@ + ("b/"@ + path)
            + "\nnew file mode "@ + mode + "\n--- /dev/null\n+++ "@ + ("b/"@ + path) + "\n"@,
        untracked::binary_diff(path, mode) == untracked::header_text(path, mode)
            + "Binary files /dev/null and "@ + ("b/"@ + path) + " differ\n"@,
        forall|reason: Seq<char>| #[trigger]
            untracked::skipped_diff(path, mode, reason) == untracked::header_text(path, mode)
                + "diffmark: skipped untracked file ("@ + reason + ")\n"@,
{
    reveal_strlit("a/");
    reveal_strlit("b/");
    lemma_plain("a/"@, path);
    lemma_plain("b/"@, path);
}

/// A plain path behind a side is plain.
proof fn lemma_plain(side: Seq<char>, path: Seq<char>)
    requires
        side == "a/"@ || side == "b/"@,
        forall|j: int|
            0 <= j < path.len() ==> !text::is_white_space(#[trigger] path[j]) && path[j] != '"'
                && path[j] != '\\',
    ensures
        untracked::quoted_prefixed_path(side, path) == side + path,
{
    reveal_strlit("a/");
    reveal_strlit("b/");
    let value = side + path;
    assert forall|j: int| 0 <= j < value.len() implies untracked::is_plain_char(
        #[trigger] value[j],
    ) by {
        if j >= 2 {
            assert(value[j] == path[j - 2]);
        }
    }
}

/// The diff of a new file has a note at its end exactly where the content does not end with a line
/// feed.
pub proof fn law_note_on_the_last_line(path: Seq<char>, mode: Seq<char>, content: Seq<char>)
    ensures
        ({
            let diff = untracked::text_diff(path, mode, content);
            let note = "\\ No newline at end of file\n"@;
            let lines = text::split_terminator(content, '\n');
            let body = untracked::header_text(path, mode) + ("@@ -0,0 +1,"@ + number::decimal(
                lines.len(),
            ) + " @@\n"@ + untracked::added_lines(lines));
            &&& content.len() > 0 && content.last() == '\n' ==> diff == body
            &&& content.len() == 0 || content.last() != '\n' ==> diff == body + note
        }),
{
    let note = "\\ No newline at end of file\n"@;
    let lines = text::split_terminator(content, '\n');
    let head = untracked::header_text(path, mode);
    let hunk = "@@ -0,0 +1,"@ + number::decimal(lines.len()) + " @@\n"@ + untracked::added_lines(
        lines,
    );
    let none: Seq<char> = seq![];
    assert(hunk + none =~= hunk);
    assert(head + (hunk + note) =~= head + hunk + note);
}

/// Without a commit the staged changes come first and the others under them.
pub proof fn law_changes_without_a_commit(
    options: DiffOptionsView,
    staged: Result<GitOutputView, Seq<char>>,
    others: Result<GitOutputView, Seq<char>>,
)
    requires
        !options.include_untracked,
    ensures
        ({
            let first = git_diff::comparison_result(staged);
            let second = git_diff::comparison_result(others);
            let next = DiffReadView { options, stage: StageView::Staged }.after(
                ReplyView::Git(staged),
            ).after(ReplyView::Git(others));
            next.stage matches StageView::Done(result) && {
                &&& first.text.len() == 0 ==> result.text == second.text
                &&& second.text.len() == 0 ==> result.text == first.text
                &&& first.text.len() > 0 && second.text.len() > 0 ==> result.text == first.text + "\n"@
                    + second.text
                &&& result.error is None <==> first.error is None && second.error is None
            }
        }),
{
    let first = git_diff::comparison_result(staged);
    let second = git_diff::comparison_result(others);
    let none: Seq<GitDiffView> = seq![];
    law_results_are_put_together(none, first);
    law_results_are_put_together(none.push(first), second);
    assert(none.push(first).push(second) =~= seq![first, second]);
}

/// Each line of a new file stands in its hunk as it is, behind a plus sign.
pub proof fn law_lines_of_a_new_file(lines: Seq<Seq<char>>, line: Seq<char>)
    ensures
        untracked::added_lines(lines.push(line)) == untracked::added_lines(lines) + "+"@ + line
            + "\n"@,
        untracked::added_lines(seq![]).len() == 0,
{
    assert(lines.push(line).drop_last() =~= lines);
}

/// The lines of a new file are its whole content: with line feeds between them, and one behind the
/// last where the content ends with one, they give it back.
pub proof fn law_lines_give_content_back(content: Seq<char>)
    ensures
        ({
            let lines = text::split_terminator(content, '\n');
            &&& content.len() > 0 && content.last() == '\n' ==> text::join(lines, "\n"@) + "\n"@
                == content
            &&& content.len() == 0 || content.last() != '\n' ==> text::join(lines, "\n"@) == content
        }),
{
    reveal_strlit("\n");
    assert("\n"@ =~= seq!['\n']);
    let parts = text::split_char(content, '\n');
    let init = parts.drop_last();
    text::lemma_join_split(content, '\n');
    text::lemma_split_char_nonempty(content, '\n');
    if parts.last().len() == 0 {
        if parts.len() == 1 {
            assert(text::join(parts, "\n"@) == parts[0]);
        } else {
            assert(text::join(parts, "\n"@) =~= text::join(init, "\n"@) + "\n"@);
        }
    } else {
        lemma_last_part(content);
        assert(content.last() == parts.last().last());
    }
}

/// The last part of a text is its end, and holds no line feed.
proof fn lemma_last_part(s: Seq<char>)
    ensures
        ({
            let last = text::split_char(s, '\n').last();
            &&& last.len() <= s.len()
            &&& s.skip(s.len() - last.len()) == last
            &&& forall|j: int| 0 <= j < last.len() ==> (#[trigger] last[j]) != '\n'
        }),
    decreases s.len(),
{
    text::lemma_find_char(s, '\n');
    let k = text::find_char(s, '\n');
    if k < s.len() {
        let rest = s.skip(k + 1);
        lemma_last_part(rest);
        text::lemma_split_char_nonempty(rest, '\n');
        let last = text::split_char(rest, '\n').last();
        assert(text::split_char(s, '\n').last() == last);
        assert(s.skip(s.len() - last.len()) =~= rest.skip(rest.len() - last.len()));
    } else {
        assert(s.skip(0) =~= s);
    }
}

} // verus!
